use vstd::prelude::*;
use vstd::math::min;
use vstd::seq_lib::to_multiset_insert;
use crate::driver::{DriverWithDistance, MeasuredView, measured_views};
use crate::index::GeoIndex;
use crate::scalar::Binary64;
use crate::status::DriverStatus;
use crate::text::{
    lemma_bytes_le_total, lemma_bytes_le_transitive, lemma_text_le_antisymmetric, text_le,
    text_precedes,
};
use vstd::utf8::encode_utf8;

verus! {

/// `a` is listed no later than `b`: it is nearer, or as near and its
/// identifier does not come after that of `b`.
pub open spec fn ranks_before(a: MeasuredView, b: MeasuredView) -> bool {
    a.distance_km.rank() < b.distance_km.rank() || (a.distance_km.rank() == b.distance_km.rank()
        && text_le(a.driver.id, b.driver.id))
}

/// Every entry is listed no later than each entry after it.
pub open spec fn sorted_by_distance(entries: Seq<MeasuredView>) -> bool {
    forall|i: int, j: int| 0 <= i < j < entries.len() ==> ranks_before(entries[i], entries[j])
}

/// The entry may be offered: its driver is available and its distance is at
/// most the radius.
pub open spec fn eligible(entry: MeasuredView, max_radius_km: Binary64) -> bool {
    entry.driver.status == DriverStatus::Available && entry.distance_km.spec_le(max_radius_km)
}

/// `eligible` for one radius, as a predicate on entries.
pub open spec fn eligible_within(max_radius_km: Binary64) -> spec_fn(MeasuredView) -> bool {
    |entry: MeasuredView| eligible(entry, max_radius_km)
}

/// `full` lists the eligible entries of `measured`, each as often as it
/// occurs there, nearest first.
pub open spec fn is_ranking(
    full: Seq<MeasuredView>,
    measured: Seq<MeasuredView>,
    max_radius_km: Binary64,
) -> bool {
    sorted_by_distance(full) && full.to_multiset() == measured.filter(
        eligible_within(max_radius_km),
    ).to_multiset()
}

/// Of two entries one is listed no later than the other.
pub proof fn lemma_ranks_total(a: MeasuredView, b: MeasuredView)
    ensures
        ranks_before(a, b) || ranks_before(b, a),
{
    lemma_bytes_le_total(encode_utf8(a.driver.id), encode_utf8(b.driver.id));
}

/// The order of the listing is transitive.
pub proof fn lemma_ranks_transitive(a: MeasuredView, b: MeasuredView, c: MeasuredView)
    requires
        ranks_before(a, b),
        ranks_before(b, c),
    ensures
        ranks_before(a, c),
{
    if a.distance_km.rank() == b.distance_km.rank() && b.distance_km.rank()
        == c.distance_km.rank() {
        lemma_bytes_le_transitive(
            encode_utf8(a.driver.id),
            encode_utf8(b.driver.id),
            encode_utf8(c.driver.id),
        );
    }
}

/// Any one driver has one entry: entries that name the same driver are the
/// same entry.
pub open spec fn one_entry_per_driver(entries: Seq<MeasuredView>) -> bool {
    forall|i: int, j: int|
        0 <= i < entries.len() && 0 <= j < entries.len() && entries[i].driver.id
            == entries[j].driver.id ==> entries[i] == entries[j]
}

proof fn lemma_sorted_listing_unique(a: Seq<MeasuredView>, b: Seq<MeasuredView>)
    requires
        sorted_by_distance(a),
        sorted_by_distance(b),
        a.to_multiset() == b.to_multiset(),
        one_entry_per_driver(a),
    ensures
        a == b,
    decreases a.len(),
{
    a.to_multiset_ensures();
    b.to_multiset_ensures();
    assert(a.len() == a.to_multiset().len());
    assert(b.len() == b.to_multiset().len());
    if a.len() == 0 {
        assert(a =~= b);
    } else {
        assert(a.contains(a[0]));
        assert(b.contains(b[0]));
        assert(a.to_multiset().count(a[0]) > 0);
        assert(b.to_multiset().count(b[0]) > 0);
        assert(b.contains(a[0]));
        assert(a.contains(b[0]));
        let k = choose|k: int| 0 <= k < b.len() && b[k] == a[0];
        let j = choose|j: int| 0 <= j < a.len() && a[j] == b[0];
        if k != 0 && j != 0 {
            assert(ranks_before(b[0], b[k]));
            assert(ranks_before(a[0], a[j]));
            lemma_text_le_antisymmetric(a[0].driver.id, b[0].driver.id);
        }
        assert(a[0] == b[0]);
        let rest_a = a.remove(0);
        let rest_b = b.remove(0);
        assert forall|p: int, q: int| 0 <= p < q < rest_a.len() implies ranks_before(
            rest_a[p],
            rest_a[q],
        ) by {
            assert(rest_a[p] == a[p + 1] && rest_a[q] == a[q + 1]);
        }
        assert forall|p: int, q: int| 0 <= p < q < rest_b.len() implies ranks_before(
            rest_b[p],
            rest_b[q],
        ) by {
            assert(rest_b[p] == b[p + 1] && rest_b[q] == b[q + 1]);
        }
        assert forall|p: int, q: int|
            0 <= p < rest_a.len() && 0 <= q < rest_a.len() && rest_a[p].driver.id
                == rest_a[q].driver.id implies rest_a[p] == rest_a[q] by {
            assert(rest_a[p] == a[p + 1] && rest_a[q] == a[q + 1]);
        }
        lemma_sorted_listing_unique(rest_a, rest_b);
        assert forall|p: int| 0 <= p < a.len() implies a[p] == b[p] by {
            if p > 0 {
                assert(rest_a[p - 1] == a[p] && rest_b[p - 1] == b[p]);
            }
        }
        assert(a =~= b);
    }
}

/// Where no two of the measured entries name the same driver, there is
/// exactly one ranking of them: the answer of a search is decided by what
/// was measured, whatever the order in which it was gathered.
pub proof fn lemma_ranking_is_unique(
    first: Seq<MeasuredView>,
    second: Seq<MeasuredView>,
    measured: Seq<MeasuredView>,
    max_radius_km: Binary64,
)
    requires
        is_ranking(first, measured, max_radius_km),
        is_ranking(second, measured, max_radius_km),
        forall|i: int, j: int|
            0 <= i < j < measured.len() ==> measured[i].driver.id != measured[j].driver.id,
    ensures
        first == second,
{
    let kept = measured.filter(eligible_within(max_radius_km));
    first.to_multiset_ensures();
    kept.to_multiset_ensures();
    assert forall|i: int, j: int|
        0 <= i < first.len() && 0 <= j < first.len() && first[i].driver.id
            == first[j].driver.id implies first[i] == first[j] by {
        assert(first.contains(first[i]));
        assert(first.contains(first[j]));
        assert(first.to_multiset().count(first[i]) > 0);
        assert(first.to_multiset().count(first[j]) > 0);
        assert(kept.to_multiset().count(first[i]) > 0);
        assert(kept.to_multiset().count(first[j]) > 0);
        assert(kept.contains(first[i]));
        assert(kept.contains(first[j]));
        measured.lemma_filter_contains_rev(eligible_within(max_radius_km), first[i]);
        measured.lemma_filter_contains_rev(eligible_within(max_radius_km), first[j]);
        let p = choose|p: int| 0 <= p < measured.len() && measured[p] == first[i];
        let q = choose|q: int| 0 <= q < measured.len() && measured[q] == first[j];
        assert(p == q);
    }
    lemma_sorted_listing_unique(first, second);
}

fn entry_precedes(a: &DriverWithDistance, b: &DriverWithDistance) -> (r: bool)
    ensures
        r == ranks_before(a@, b@),
{
    if !a.distance_km.rank_le(b.distance_km) {
        false
    } else if !b.distance_km.rank_le(a.distance_km) {
        true
    } else {
        text_precedes(a.driver.id.as_str(), b.driver.id.as_str())
    }
}

impl GeoIndex {
    /// Chooses the answer of a search from the drivers whose distance from
    /// the query point has been measured: the eligible ones, nearest first
    /// and by identifier where the distance is the same, cut off after
    /// `max_drivers`.
    pub fn find_nearest_drivers(
        measured: Vec<DriverWithDistance>,
        max_drivers: usize,
        max_radius_km: Binary64,
    ) -> (nearest: Vec<DriverWithDistance>)
        ensures
            nearest@.len() <= max_drivers,
            forall|i: int|
                0 <= i < nearest@.len() ==> eligible((#[trigger] nearest@[i])@, max_radius_km),
            forall|i: int, j: int|
                0 <= i < j < nearest@.len() ==> (#[trigger] nearest@[i]).distance_km.spec_le(
                    (#[trigger] nearest@[j]).distance_km,
                ),
            exists|full: Seq<MeasuredView>| #[trigger]
                is_ranking(full, measured_views(measured@), max_radius_km) && measured_views(
                    nearest@,
                ) == full.take(min(max_drivers as int, full.len() as int)),
    {
        let ghost given = measured_views(measured@);
        let ghost keep = eligible_within(max_radius_km);
        let mut out: Vec<DriverWithDistance> = Vec::new();
        let mut i: usize = 0;
        proof {
            assert(given.take(0) =~= Seq::<MeasuredView>::empty());
            assert(given.take(0).filter(keep) =~= Seq::<MeasuredView>::empty()) by {
                reveal(Seq::filter);
            }
            assert(measured_views(out@) =~= Seq::<MeasuredView>::empty());
        }
        while i < measured.len()
            invariant
                i <= measured@.len(),
                given == measured_views(measured@),
                keep == eligible_within(max_radius_km),
                sorted_by_distance(measured_views(out@)),
                forall|q: int| 0 <= q < out@.len() ==> eligible((#[trigger] out@[q])@, max_radius_km),
                measured_views(out@).to_multiset() == given.take(i as int).filter(
                    keep,
                ).to_multiset(),
            decreases measured@.len() - i,
        {
            let ghost listed = measured_views(out@);
            proof {
                assert(given.take(i + 1) =~= given.take(i as int).push(given[i as int]));
                given.take(i as int).lemma_filter_push(given[i as int], keep);
                assert(keep(given[i as int]) == eligible(measured@[i as int]@, max_radius_km));
            }
            if measured[i].driver.status.is_available() && measured[i].distance_km.le(
                max_radius_km,
            ) {
                let mut p: usize = 0;
                while p < out.len() && entry_precedes(&out[p], &measured[i])
                    invariant
                        p <= out@.len(),
                        i < measured@.len(),
                        forall|q: int|
                            0 <= q < p ==> ranks_before((#[trigger] out@[q])@, measured@[i as int]@),
                    decreases out@.len() - p,
                {
                    p += 1;
                }
                let entry = measured[i].clone();
                out.insert(p, entry);
                proof {
                    let e = measured@[i as int]@;
                    let grown = measured_views(out@);
                    assert(grown =~= listed.insert(p as int, e));
                    to_multiset_insert(listed, p as int, e);
                    given.take(i as int).filter(keep).to_multiset_ensures();
                    assert forall|a: int, b: int| 0 <= a < b < grown.len() implies ranks_before(
                        grown[a],
                        grown[b],
                    ) by {
                        if b == p {
                            assert(grown[a] == listed[a]);
                        } else if a == p {
                            assert(grown[b] == listed[b - 1]);
                            if p < listed.len() {
                                lemma_ranks_total(listed[p as int], e);
                                if b - 1 > p {
                                    lemma_ranks_transitive(e, listed[p as int], listed[b - 1]);
                                }
                            }
                        } else if b < p {
                            assert(grown[a] == listed[a] && grown[b] == listed[b]);
                        } else if a < p {
                            assert(grown[a] == listed[a] && grown[b] == listed[b - 1]);
                        } else {
                            assert(grown[a] == listed[a - 1] && grown[b] == listed[b - 1]);
                        }
                    }
                }
            }
            i += 1;
        }
        let ghost full = measured_views(out@);
        proof {
            assert(given.take(i as int) =~= given);
            assert(is_ranking(full, given, max_radius_km));
        }
        out.truncate(max_drivers);
        proof {
            let kept = min(max_drivers as int, full.len() as int);
            assert(measured_views(out@) =~= full.take(kept));
            assert forall|a: int, b: int| 0 <= a < b < out@.len() implies (#[trigger] out@[a]).distance_km.spec_le(
                (#[trigger] out@[b]).distance_km,
            ) by {
                assert(ranks_before(full[a], full[b]));
                assert(full[a] == out@[a]@ && full[b] == out@[b]@);
            }
        }
        out
    }
}

} // verus!
