use vstd::prelude::*;
use vstd::utf8::encode_utf8;
use crate::driver::text_views;
use crate::text::{lemma_prefix_set_next, position};

verus! {

/// The most characters that a cell identifier can have.
pub const MAX_CELL_LENGTH: usize = 12;

/// The widest ring that a search lays out cell by cell: this many steps
/// from the centre in every direction.
pub const WIDEST_RING: usize = 8;

/// What `geohash::neighbors` returns for a cell identifier: the eight
/// identifiers around it, in the order N, NE, E, SE, S, SW, W, NW, or
/// nothing where the identifier is refused.
pub uninterp spec fn neighbor_cells(cell: Seq<char>) -> Option<Seq<Seq<char>>>;

/// The views of a list of strings that may be missing.
pub open spec fn optional_views(items: Option<Vec<String>>) -> Option<Seq<Seq<char>>> {
    match items {
        Some(v) => Some(text_views(v@)),
        None => None,
    }
}

/// `geohash::neighbors`: the result is the one that `neighbor_cells` names,
/// the eight fields of the answer laid out in the order N, NE, E, SE, S, SW,
/// W, NW. Identifiers of no byte or of more than twelve are kept away from
/// the call.
#[verifier::external_body]
fn adjacent_cells(cell: &str) -> (found: Option<Vec<String>>)
    requires
        1 <= encode_utf8(cell@).len() <= MAX_CELL_LENGTH,
    ensures
        optional_views(found) == neighbor_cells(cell@),
{
    match geohash::neighbors(cell) {
        Ok(around) => Some(
            vec![
                around.n,
                around.ne,
                around.e,
                around.se,
                around.s,
                around.sw,
                around.w,
                around.nw,
            ],
        ),
        Err(_) => None,
    }
}

/// The neighbours that a search looks at: those of the codec for an
/// identifier of one to twelve bytes, none for any other.
pub open spec fn ring_neighbors(cell: Seq<char>) -> Option<Seq<Seq<char>>> {
    if 1 <= encode_utf8(cell).len() <= MAX_CELL_LENGTH {
        neighbor_cells(cell)
    } else {
        None
    }
}

/// The cells around `cell`, as a set; none where it has no neighbours.
pub open spec fn neighbor_set(cell: Seq<char>) -> Set<Seq<char>> {
    match ring_neighbors(cell) {
        Some(around) => around.to_set(),
        None => Set::empty(),
    }
}

/// The cells around `cell`, or `None` where the codec knows none.
pub fn neighbors_of(cell: &str) -> (around: Option<Vec<String>>)
    ensures
        optional_views(around) == ring_neighbors(cell@),
{
    let length = cell.as_bytes().len();
    if 1 <= length && length <= MAX_CELL_LENGTH {
        adjacent_cells(cell)
    } else {
        None
    }
}

/// `ring` with the items of `extra` behind it, but for those that have
/// come before: each item stays at its first place.
pub open spec fn append_new(ring: Seq<Seq<char>>, extra: Seq<Seq<char>>) -> Seq<Seq<char>>
    decreases extra.len(),
{
    if extra.len() == 0 {
        ring
    } else {
        let head = append_new(ring, extra.drop_last());
        if head.contains(extra.last()) {
            head
        } else {
            head.push(extra.last())
        }
    }
}

/// `append_new` keeps `ring` as it is at the front, keeps every item of
/// both, and repeats none where `ring` repeats none.
pub proof fn lemma_append_new(ring: Seq<Seq<char>>, extra: Seq<Seq<char>>)
    ensures
        append_new(ring, extra).len() >= ring.len(),
        append_new(ring, extra).take(ring.len() as int) == ring,
        append_new(ring, extra).to_set() == ring.to_set().union(extra.to_set()),
        ring.no_duplicates() ==> append_new(ring, extra).no_duplicates(),
    decreases extra.len(),
{
    let out = append_new(ring, extra);
    if extra.len() == 0 {
        assert(out.take(ring.len() as int) =~= ring);
        assert(extra.to_set() =~= Set::empty());
        assert(out.to_set() =~= ring.to_set().union(extra.to_set()));
    } else {
        let front = extra.drop_last();
        let head = append_new(ring, front);
        lemma_append_new(ring, front);
        let last = extra.last();
        assert forall|x: Seq<char>| extra.to_set().contains(x) <==> (front.to_set().contains(x)
            || x == last) by {
            if extra.contains(x) {
                let j = choose|j: int| 0 <= j < extra.len() && extra[j] == x;
                if j < front.len() {
                    assert(front[j] == x);
                }
            }
            if front.contains(x) {
                let j = choose|j: int| 0 <= j < front.len() && front[j] == x;
                assert(extra[j] == x);
            }
            if x == last {
                assert(extra[extra.len() - 1] == x);
            }
        }
        if head.contains(last) {
            assert(out.to_set() =~= ring.to_set().union(extra.to_set()));
        } else {
            assert(out.take(ring.len() as int) =~= head.take(ring.len() as int));
            assert forall|x: Seq<char>| out.to_set().contains(x) <==> (head.to_set().contains(x)
                || x == last) by {
                if out.contains(x) {
                    let j = choose|j: int| 0 <= j < out.len() && out[j] == x;
                    if j < head.len() {
                        assert(head[j] == x);
                    }
                }
                if head.contains(x) {
                    let j = choose|j: int| 0 <= j < head.len() && head[j] == x;
                    assert(out[j] == x);
                }
                if x == last {
                    assert(out[out.len() - 1] == x);
                }
            }
            assert(out.to_set() =~= ring.to_set().union(extra.to_set()));
        }
    }
}

/// Puts behind `ring` each cell of `extra` that it does not yet hold.
pub fn extend_ring(ring: &mut Vec<String>, extra: &Vec<String>)
    ensures
        text_views(final(ring)@) == append_new(text_views(old(ring)@), text_views(extra@)),
{
    let ghost start = text_views(ring@);
    let ghost all = text_views(extra@);
    let mut i: usize = 0;
    assert(all.take(0) =~= Seq::<Seq<char>>::empty());
    while i < extra.len()
        invariant
            i <= extra@.len(),
            all == text_views(extra@),
            text_views(ring@) == append_new(start, all.take(i as int)),
        decreases extra@.len() - i,
    {
        let ghost before = ring@;
        proof {
            assert(all.take(i + 1).drop_last() =~= all.take(i as int));
            assert(all.take(i + 1).last() == extra@[i as int]@);
        }
        match position(ring, &extra[i]) {
            None => {
                ring.push(extra[i].clone());
                assert(text_views(ring@) =~= text_views(before).push(extra@[i as int]@));
            },
            Some(k) => {
                assert(text_views(before).contains(extra@[i as int]@)) by {
                    assert(text_views(before)[k as int] == extra@[i as int]@);
                }
            },
        }
        i += 1;
    }
    assert(all.take(i as int) =~= all);
}

/// The cells that a search of one step visits, in the order of the visit:
/// the centre, then each neighbour that has not come before.
pub open spec fn ring_of(center: Seq<char>, neighbors: Option<Seq<Seq<char>>>) -> Seq<Seq<char>> {
    match neighbors {
        Some(around) => append_new(seq![center], around),
        None => seq![center],
    }
}

/// Lays out the cells that a search of one step visits, given the
/// neighbours that the codec found for the centre.
pub fn assemble_ring(center: &str, neighbors: Option<Vec<String>>) -> (ring: Vec<String>)
    ensures
        text_views(ring@) == ring_of(center@, optional_views(neighbors)),
{
    let mut ring: Vec<String> = Vec::new();
    ring.push(center.to_owned());
    assert(text_views(ring@) =~= seq![center@]);
    match neighbors {
        None => {},
        Some(around) => {
            extend_ring(&mut ring, &around);
        },
    }
    ring
}

/// The cells that a search of one step around `center` visits: the centre
/// and the cells around it, each once.
pub fn search_cells(center: &str) -> (ring: Vec<String>)
    ensures
        text_views(ring@) == ring_of(center@, ring_neighbors(center@)),
{
    let around = neighbors_of(center);
    assemble_ring(center, around)
}

/// The cells that lie around some cell of `cells`.
pub open spec fn around_any(cells: Set<Seq<char>>) -> Set<Seq<char>> {
    Set::new(|y: Seq<char>| exists|x: Seq<char>| cells.contains(x) && neighbor_set(x).contains(y))
}

/// The cells that lie at most `reach` steps from `center`, a step leading
/// from a cell to one of the cells around it.
pub open spec fn cells_within(center: Seq<char>, reach: nat) -> Set<Seq<char>>
    decreases reach,
{
    if reach == 0 {
        set![center]
    } else {
        let nearer = cells_within(center, (reach - 1) as nat);
        nearer.union(around_any(nearer))
    }
}

/// The area that a search of the given reach covers: the cells within that
/// many steps of the centre, or every cell where the reach is beyond the
/// widest ring.
pub open spec fn search_area(center: Seq<char>, reach: nat) -> Set<Seq<char>> {
    if reach <= WIDEST_RING {
        cells_within(center, reach)
    } else {
        Set::full()
    }
}

proof fn lemma_around_one_more(cells: Set<Seq<char>>, cell: Seq<char>)
    ensures
        around_any(cells.insert(cell)) == around_any(cells).union(neighbor_set(cell)),
{
    let left = around_any(cells.insert(cell));
    let right = around_any(cells).union(neighbor_set(cell));
    assert forall|y: Seq<char>| left.contains(y) <==> right.contains(y) by {
        if left.contains(y) {
            let x = choose|x: Seq<char>| cells.insert(cell).contains(x) && neighbor_set(x).contains(y);
            if x != cell {
                assert(cells.contains(x) && neighbor_set(x).contains(y));
            }
        }
        if around_any(cells).contains(y) {
            let x = choose|x: Seq<char>| cells.contains(x) && neighbor_set(x).contains(y);
            assert(cells.insert(cell).contains(x) && neighbor_set(x).contains(y));
        }
        if neighbor_set(cell).contains(y) {
            assert(cells.insert(cell).contains(cell) && neighbor_set(cell).contains(y));
        }
    }
    assert(left =~= right);
}

/// The cells within `reach` steps of `center`, each once.
pub fn cells_in_reach(center: &str, reach: usize) -> (ring: Vec<String>)
    ensures
        text_views(ring@).no_duplicates(),
        text_views(ring@).to_set() == cells_within(center@, reach as nat),
{
    let mut ring: Vec<String> = Vec::new();
    ring.push(center.to_owned());
    proof {
        assert(text_views(ring@) =~= seq![center@]);
        assert(seq![center@][0] == center@);
        assert(seq![center@].to_set() =~= set![center@]);
    }
    let mut step: usize = 0;
    while step < reach
        invariant
            step <= reach,
            text_views(ring@).no_duplicates(),
            text_views(ring@).to_set() == cells_within(center@, step as nat),
        decreases reach - step,
    {
        let end = ring.len();
        let ghost base = text_views(ring@);
        let mut i: usize = 0;
        proof {
            assert(base.take(0) =~= Seq::<Seq<char>>::empty());
            assert(base.take(0).to_set() =~= Set::<Seq<char>>::empty());
            assert(around_any(Set::<Seq<char>>::empty()) =~= Set::<Seq<char>>::empty());
            assert(base.take(end as int) =~= base);
        }
        while i < end
            invariant
                i <= end == base.len(),
                end <= ring@.len(),
                text_views(ring@).no_duplicates(),
                text_views(ring@).take(end as int) == base,
                text_views(ring@).to_set() == base.to_set().union(
                    around_any(base.take(i as int).to_set()),
                ),
            decreases end - i,
        {
            let ghost before = text_views(ring@);
            let ghost cell = base[i as int];
            proof {
                assert(before.take(end as int)[i as int] == before[i as int]);
                lemma_prefix_set_next(base, i as int);
                lemma_around_one_more(base.take(i as int).to_set(), cell);
            }
            match neighbors_of(ring[i].as_str()) {
                None => {},
                Some(around) => {
                    extend_ring(&mut ring, &around);
                    proof {
                        lemma_append_new(before, text_views(around@));
                        let after = text_views(ring@);
                        assert(after.take(end as int) =~= after.take(before.len() as int).take(
                            end as int,
                        ));
                    }
                },
            }
            proof {
                let after = text_views(ring@);
                assert(after.to_set() =~= base.to_set().union(
                    around_any(base.take(i + 1).to_set()),
                ));
            }
            i += 1;
        }
        proof {
            assert(base.take(end as int) =~= base);
        }
        step += 1;
    }
    ring
}

/// A search of one step visits the centre and the cells around it.
pub proof fn lemma_one_step_is_the_ring(center: Seq<char>)
    ensures
        cells_within(center, 1) == ring_of(center, ring_neighbors(center)).to_set(),
{
    let start = set![center];
    assert(cells_within(center, 0) == start);
    assert(around_any(Set::<Seq<char>>::empty()) =~= Set::<Seq<char>>::empty());
    lemma_around_one_more(Set::<Seq<char>>::empty(), center);
    assert(Set::<Seq<char>>::empty().insert(center) =~= start);
    assert(seq![center].to_set() =~= start) by {
        assert(seq![center][0] == center);
    }
    match ring_neighbors(center) {
        Some(around) => {
            lemma_append_new(seq![center], around);
            assert(cells_within(center, 1) =~= start.union(around.to_set()));
        },
        None => {
            assert(cells_within(center, 1) =~= start);
        },
    }
}

} // verus!
