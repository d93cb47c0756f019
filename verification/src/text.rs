use vstd::prelude::*;
use vstd::utf8::{encode_utf8, encode_utf8_decode_utf8};
use crate::driver::text_views;

verus! {

/// `a` comes before `b`, or equals it, in the lexicographic order of bytes:
/// at the first place where they differ `a` has the smaller byte, or `a`
/// ends there.
pub open spec fn bytes_le(a: Seq<u8>, b: Seq<u8>) -> bool
    decreases a.len(),
{
    if a.len() == 0 {
        true
    } else if b.len() == 0 {
        false
    } else if a[0] != b[0] {
        a[0] < b[0]
    } else {
        bytes_le(a.drop_first(), b.drop_first())
    }
}

/// The order of two texts: that of their UTF-8 bytes.
pub open spec fn text_le(a: Seq<char>, b: Seq<char>) -> bool {
    bytes_le(encode_utf8(a), encode_utf8(b))
}

/// Of two byte strings one comes before the other or equals it.
pub proof fn lemma_bytes_le_total(a: Seq<u8>, b: Seq<u8>)
    ensures
        bytes_le(a, b) || bytes_le(b, a),
    decreases a.len(),
{
    if a.len() > 0 && b.len() > 0 && a[0] == b[0] {
        lemma_bytes_le_total(a.drop_first(), b.drop_first());
    }
}

/// The order of byte strings is transitive.
pub proof fn lemma_bytes_le_transitive(a: Seq<u8>, b: Seq<u8>, c: Seq<u8>)
    requires
        bytes_le(a, b),
        bytes_le(b, c),
    ensures
        bytes_le(a, c),
    decreases a.len(),
{
    if a.len() > 0 && b.len() > 0 && c.len() > 0 && a[0] == b[0] && b[0] == c[0] {
        lemma_bytes_le_transitive(a.drop_first(), b.drop_first(), c.drop_first());
    }
}

/// Two byte strings of which each comes before the other or equals it are
/// the same.
pub proof fn lemma_bytes_le_antisymmetric(a: Seq<u8>, b: Seq<u8>)
    requires
        bytes_le(a, b),
        bytes_le(b, a),
    ensures
        a == b,
    decreases a.len(),
{
    if a.len() > 0 && b.len() > 0 {
        lemma_bytes_le_antisymmetric(a.drop_first(), b.drop_first());
        assert(a =~= seq![a[0]] + a.drop_first());
        assert(b =~= seq![b[0]] + b.drop_first());
    } else {
        assert(a =~= b);
    }
}

/// Two texts of which each comes before the other or equals it are the
/// same.
pub proof fn lemma_text_le_antisymmetric(a: Seq<char>, b: Seq<char>)
    requires
        text_le(a, b),
        text_le(b, a),
    ensures
        a == b,
{
    lemma_bytes_le_antisymmetric(encode_utf8(a), encode_utf8(b));
    encode_utf8_decode_utf8(a);
    encode_utf8_decode_utf8(b);
}

/// Decides the order of two texts.
pub fn text_precedes(a: &str, b: &str) -> (r: bool)
    ensures
        r == text_le(a@, b@),
{
    let x = a.as_bytes();
    let y = b.as_bytes();
    let mut i: usize = 0;
    proof {
        assert(x@.skip(0) =~= x@);
        assert(y@.skip(0) =~= y@);
    }
    loop
        invariant
            x@ == encode_utf8(a@),
            y@ == encode_utf8(b@),
            i <= x@.len(),
            i <= y@.len(),
            bytes_le(x@, y@) == bytes_le(x@.skip(i as int), y@.skip(i as int)),
        decreases x@.len() - i,
    {
        if i >= x.len() {
            return true;
        }
        if i >= y.len() {
            return false;
        }
        if x[i] != y[i] {
            return x[i] < y[i];
        }
        proof {
            assert(x@.skip(i as int).drop_first() =~= x@.skip(i + 1));
            assert(y@.skip(i as int).drop_first() =~= y@.skip(i + 1));
        }
        i += 1;
    }
}

/// The place of `id` in `ids`, if it is there.
pub(crate) fn position(ids: &Vec<String>, id: &String) -> (found: Option<usize>)
    ensures
        match found {
            Some(i) => i < ids@.len() && text_views(ids@)[i as int] == id@,
            None => !text_views(ids@).contains(id@),
        },
{
    let mut i: usize = 0;
    while i < ids.len()
        invariant
            i <= ids@.len(),
            forall|j: int| 0 <= j < i ==> ids@[j]@ != id@,
        decreases ids@.len() - i,
    {
        if ids[i].eq(id) {
            return Some(i);
        }
        i += 1;
    }
    None
}

/// One more item of a sequence adds that item to the set of the items
/// before it.
pub(crate) proof fn lemma_prefix_set_next(items: Seq<Seq<char>>, k: int)
    requires
        0 <= k < items.len(),
    ensures
        items.take(k + 1).to_set() == items.take(k).to_set().insert(items[k]),
{
    let longer = items.take(k + 1);
    let shorter = items.take(k);
    assert forall|x: Seq<char>| longer.to_set().contains(x) <==> shorter.to_set().insert(
        items[k],
    ).contains(x) by {
        if longer.contains(x) {
            let j = choose|j: int| 0 <= j < longer.len() && longer[j] == x;
            if j < k {
                assert(shorter[j] == x);
            }
        }
        if shorter.contains(x) {
            let j = choose|j: int| 0 <= j < shorter.len() && shorter[j] == x;
            assert(longer[j] == x);
        }
        if x == items[k] {
            assert(longer[k] == x);
        }
    }
    assert(longer.to_set() =~= shorter.to_set().insert(items[k]));
}

} // verus!
