use vstd::prelude::*;
use crate::driver::DriverView;
use crate::index::{GeoIndex, occupancy, occupants, updated_record};
use crate::scalar::Binary64;
use crate::status::DriverStatus;

verus! {

/// The cells of the grid under which `id` is filed.
pub open spec fn cells_holding(index: GeoIndex, id: Seq<char>) -> Set<Seq<char>> {
    Set::new(|c: Seq<char>| index.cells().contains_key(c) && index.cells()[c].contains(id))
}

/// The grid of a well-formed index is the occupancy that its table calls
/// for: the table alone decides which cells exist and who is filed in each.
pub proof fn lemma_grid_is_occupancy(index: GeoIndex)
    requires
        index.wf(),
    ensures
        index.cells() == occupancy(index.table()),
{
    let table = index.table();
    let buckets = index.buckets();
    let cells = index.cells();
    let wanted = occupancy(table);
    assert forall|c: Seq<char>| cells.contains_key(c) <==> wanted.contains_key(c) by {
        if cells.contains_key(c) {
            let id = buckets[c][0];
            assert(occupants(buckets, c).contains(id));
            assert(table.contains_key(id) && table[id].placed_in(c));
        }
        if wanted.contains_key(c) {
            let id = choose|id: Seq<char>| table.contains_key(id) && table[id].placed_in(c);
            assert(occupants(buckets, table[id].cell).contains(id));
        }
    }
    assert forall|c: Seq<char>| cells.contains_key(c) implies cells[c] == wanted[c] by {
        assert forall|id: Seq<char>| cells[c].contains(id) <==> wanted[c].contains(id) by {
            if cells[c].contains(id) {
                assert(occupants(buckets, c).contains(id));
            }
            if wanted[c].contains(id) {
                assert(occupants(buckets, table[id].cell).contains(id));
            }
        }
        assert(cells[c] =~= wanted[c]);
    }
    assert(cells =~= wanted);
}

/// In a well-formed index: every driver filed in a cell is in the table; a
/// driver that is not offline is filed in the cell of its record and in no
/// other; an offline driver is filed nowhere; no cell is empty; and no
/// driver is filed in two cells.
pub proof fn lemma_invariants(index: GeoIndex)
    requires
        index.wf(),
    ensures
        forall|c: Seq<char>, id: Seq<char>|
            index.cells().contains_key(c) && #[trigger] index.cells()[c].contains(id)
                ==> index.table().contains_key(id),
        forall|id: Seq<char>| #[trigger]
            index.table().contains_key(id) && index.table()[id].status != DriverStatus::Offline
                ==> index.cells().contains_key(index.table()[id].cell)
                && index.cells()[index.table()[id].cell].contains(id),
        forall|c: Seq<char>, id: Seq<char>|
            index.cells().contains_key(c) && #[trigger] index.cells()[c].contains(id)
                ==> index.table()[id].status != DriverStatus::Offline && index.table()[id].cell
                == c,
        forall|c: Seq<char>| #[trigger]
            index.cells().contains_key(c) ==> index.cells()[c].finite() && index.cells()[c].len()
                > 0,
        forall|c: Seq<char>, d: Seq<char>, id: Seq<char>|
            index.cells().contains_key(c) && index.cells().contains_key(d)
                && #[trigger] index.cells()[c].contains(id) && #[trigger] index.cells()[d].contains(
                id,
            ) ==> c == d,
{
    let table = index.table();
    let buckets = index.buckets();
    assert forall|c: Seq<char>, id: Seq<char>|
        index.cells().contains_key(c) && #[trigger] index.cells()[c].contains(id) implies table.contains_key(
        id,
    ) && table[id].placed_in(c) by {
        assert(occupants(buckets, c).contains(id));
    }
    assert forall|id: Seq<char>| #[trigger]
        table.contains_key(id) && table[id].status != DriverStatus::Offline implies index.cells().contains_key(
        table[id].cell,
    ) && index.cells()[table[id].cell].contains(id) by {
        assert(occupants(buckets, table[id].cell).contains(id));
    }
    assert forall|c: Seq<char>| #[trigger] index.cells().contains_key(c) implies index.cells()[c].finite()
        && index.cells()[c].len() > 0 by {
        buckets[c].lemma_cardinality_of_set();
        assert(buckets[c].to_set().contains(buckets[c][0]));
        if buckets[c].to_set().len() == 0 {
            buckets[c].lemma_cardinality_of_empty_set_is_0();
        }
    }
}

/// A driver is filed in exactly one cell, that of its record, where the
/// table holds it and it is not offline; otherwise it is filed in none.
pub proof fn lemma_one_cell_or_none(index: GeoIndex, id: Seq<char>)
    requires
        index.wf(),
    ensures
        index.table().contains_key(id) && index.table()[id].status != DriverStatus::Offline
            ==> cells_holding(index, id) == set![index.table()[id].cell] && cells_holding(
            index,
            id,
        ).len() == 1,
        !(index.table().contains_key(id) && index.table()[id].status != DriverStatus::Offline)
            ==> cells_holding(index, id) == Set::<Seq<char>>::empty() && cells_holding(
            index,
            id,
        ).len() == 0,
{
    let table = index.table();
    let buckets = index.buckets();
    let held = cells_holding(index, id);
    assert forall|c: Seq<char>| held.contains(c) implies table.contains_key(id)
        && table[id].placed_in(c) by {
        assert(occupants(buckets, c).contains(id));
    }
    if table.contains_key(id) && table[id].status != DriverStatus::Offline {
        assert(occupants(buckets, table[id].cell).contains(id));
        assert(held.contains(table[id].cell));
        assert(held =~= set![table[id].cell]);
    } else {
        assert(held =~= Set::<Seq<char>>::empty());
    }
}

/// After an accepted update the table holds for the driver a record with
/// exactly the reported values and the time of the report, and every other
/// record is as it was.
pub proof fn lemma_update_then_get(
    table: Map<Seq<char>, DriverView>,
    id: Seq<char>,
    lat: Binary64,
    lng: Binary64,
    status: DriverStatus,
    cell: Seq<char>,
    now: u64,
)
    ensures
        ({
            let after = table.insert(id, updated_record(id, lat, lng, status, cell, now));
            &&& after.contains_key(id)
            &&& after[id].id == id
            &&& after[id].lat == lat
            &&& after[id].lng == lng
            &&& after[id].status == status
            &&& after[id].cell == cell
            &&& after[id].last_update == now
            &&& forall|other: Seq<char>|
                other != id ==> after.contains_key(other) == table.contains_key(other) && (
                table.contains_key(other) ==> after[other] == table[other])
        }),
{
}

/// After a removal the table does not hold the driver, and an update that
/// follows installs it again: the result is the same as if the update had
/// come alone.
pub proof fn lemma_remove_then_update(
    table: Map<Seq<char>, DriverView>,
    id: Seq<char>,
    record: DriverView,
)
    ensures
        !table.remove(id).contains_key(id),
        table.remove(id).insert(id, record).contains_key(id),
        table.remove(id).insert(id, record) == table.insert(id, record),
{
    assert(table.remove(id).insert(id, record) =~= table.insert(id, record));
}

/// An update given twice leaves what the second alone would leave, and the
/// time of the report is all that tells the result from that of the first:
/// the two tables differ in that one field of that one record, and they
/// call for the same grid.
pub proof fn lemma_update_idempotent(
    table: Map<Seq<char>, DriverView>,
    id: Seq<char>,
    lat: Binary64,
    lng: Binary64,
    status: DriverStatus,
    cell: Seq<char>,
    first: u64,
    second: u64,
)
    ensures
        ({
            let once = table.insert(id, updated_record(id, lat, lng, status, cell, first));
            let twice = once.insert(id, updated_record(id, lat, lng, status, cell, second));
            &&& twice == table.insert(id, updated_record(id, lat, lng, status, cell, second))
            &&& twice.dom() == once.dom()
            &&& forall|other: Seq<char>| other != id && once.contains_key(other) ==> twice[other] == once[other]
            &&& twice[id] == (DriverView { last_update: second, ..once[id] })
            &&& occupancy(twice) == occupancy(once)
        }),
{
    let once = table.insert(id, updated_record(id, lat, lng, status, cell, first));
    let twice = once.insert(id, updated_record(id, lat, lng, status, cell, second));
    assert(twice =~= table.insert(id, updated_record(id, lat, lng, status, cell, second)));
    assert(twice.dom() =~= once.dom());
    let a = occupancy(once);
    let b = occupancy(twice);
    assert forall|c: Seq<char>| a.contains_key(c) <==> b.contains_key(c) by {
        if a.contains_key(c) {
            let w = choose|w: Seq<char>| once.contains_key(w) && once[w].placed_in(c);
            assert(twice.contains_key(w) && twice[w].placed_in(c));
        }
        if b.contains_key(c) {
            let w = choose|w: Seq<char>| twice.contains_key(w) && twice[w].placed_in(c);
            assert(once.contains_key(w) && once[w].placed_in(c));
        }
    }
    assert forall|c: Seq<char>| a.contains_key(c) implies a[c] == b[c] by {
        assert forall|w: Seq<char>| a[c].contains(w) <==> b[c].contains(w) by {
            if w == id {
                assert(once[w].placed_in(c) == twice[w].placed_in(c));
            }
        }
        assert(a[c] =~= b[c]);
    }
    assert(a =~= b);
}

/// Two well-formed indexes with the same table have the same grid.
pub proof fn lemma_table_decides_grid(a: GeoIndex, b: GeoIndex)
    requires
        a.wf(),
        b.wf(),
        a.table() == b.table(),
    ensures
        a.cells() == b.cells(),
{
    lemma_grid_is_occupancy(a);
    lemma_grid_is_occupancy(b);
}

} // verus!
