use vstd::prelude::*;
use dashmap::DashMap;
use crate::clock::unix_seconds;
use crate::cells::{WIDEST_RING, cells_in_reach, search_area};
use crate::driver::{Driver, DriverView, IndexStats, driver_views, text_views};
use crate::scalar::Binary64;
use crate::status::DriverStatus;
use crate::text::{lemma_prefix_set_next, position};
use crate::store::{
    grid_buckets, grid_get, grid_insert, grid_len, grid_new, grid_remove, table_entries, table_get,
    table_insert, table_len, table_new, table_remove, table_snapshot,
};

verus! {

/// Precision of a new index where none is asked for: cells of about 150 m.
pub const DEFAULT_PRECISION: usize = 7;

/// Why an update was refused. The first three are faults of the arguments;
/// the last says that no cell could be computed for the position.
#[derive(Clone, Copy, Debug, PartialEq, Eq, Structural)]
pub enum UpdateError {
    EmptyDriverId,
    InvalidLatitude,
    InvalidLongitude,
    EncodingFailure,
}

/// The identifiers stored under `cell`; none where the cell has no bucket.
pub open spec fn occupants(buckets: Map<Seq<char>, Seq<Seq<char>>>, cell: Seq<char>) -> Set<
    Seq<char>,
> {
    if buckets.contains_key(cell) {
        buckets[cell].to_set()
    } else {
        Set::empty()
    }
}

/// No bucket is empty and none names an identifier twice.
pub open spec fn buckets_tidy(buckets: Map<Seq<char>, Seq<Seq<char>>>) -> bool {
    forall|c: Seq<char>| #[trigger]
        buckets.contains_key(c) ==> buckets[c].len() > 0 && buckets[c].no_duplicates()
}

/// The grid files exactly the drivers that are not offline, each under the
/// cell of its record.
pub open spec fn files_match(
    drivers: Map<Seq<char>, DriverView>,
    buckets: Map<Seq<char>, Seq<Seq<char>>>,
) -> bool {
    &&& forall|c: Seq<char>, id: Seq<char>| #[trigger]
        occupants(buckets, c).contains(id) ==> drivers.contains_key(id)
            && drivers[id].placed_in(c)
    &&& forall|id: Seq<char>| #[trigger]
        drivers.contains_key(id) && drivers[id].status.on_grid() ==> occupants(
            buckets,
            drivers[id].cell,
        ).contains(id)
}

/// The occupancy that a table of drivers calls for: each cell in which some
/// driver is placed, with the set of the drivers placed in it.
pub open spec fn occupancy(drivers: Map<Seq<char>, DriverView>) -> Map<Seq<char>, Set<Seq<char>>> {
    Map::new(
        |c: Seq<char>| exists|id: Seq<char>| drivers.contains_key(id) && drivers[id].placed_in(c),
        |c: Seq<char>| Set::new(|id: Seq<char>| drivers.contains_key(id) && drivers[id].placed_in(c)),
    )
}

/// The verdict on the arguments of an update, before anything is changed.
pub open spec fn update_verdict(id: Seq<char>, lat: Binary64, lng: Binary64, has_cell: bool) -> Result<
    (),
    UpdateError,
> {
    if id.len() == 0 {
        Err(UpdateError::EmptyDriverId)
    } else if !lat.is_latitude() {
        Err(UpdateError::InvalidLatitude)
    } else if !lng.is_longitude() {
        Err(UpdateError::InvalidLongitude)
    } else if !has_cell {
        Err(UpdateError::EncodingFailure)
    } else {
        Ok(())
    }
}

proof fn lemma_views_remove(items: Seq<String>, i: int)
    requires
        0 <= i < items.len(),
    ensures
        text_views(items.remove(i)) == text_views(items).remove(i),
{
    assert(text_views(items.remove(i)) =~= text_views(items).remove(i));
}

proof fn lemma_views_push(items: Seq<String>, item: String)
    ensures
        text_views(items.push(item)) == text_views(items).push(item@),
{
    assert(text_views(items.push(item)) =~= text_views(items).push(item@));
}

proof fn lemma_remove_from_distinct(s: Seq<Seq<char>>, i: int)
    requires
        s.no_duplicates(),
        0 <= i < s.len(),
    ensures
        s.remove(i).no_duplicates(),
        s.remove(i).to_set() == s.to_set().remove(s[i]),
{
    let r = s.remove(i);
    assert forall|y: Seq<char>| r.to_set().contains(y) <==> s.to_set().remove(s[i]).contains(
        y,
    ) by {
        if r.contains(y) {
            let j = choose|j: int| 0 <= j < r.len() && r[j] == y;
            let k = if j < i {
                j
            } else {
                j + 1
            };
            assert(s[k] == y);
        }
        if s.contains(y) && y != s[i] {
            let j = choose|j: int| 0 <= j < s.len() && s[j] == y;
            let k = if j < i {
                j
            } else {
                j - 1
            };
            assert(r[k] == y);
        }
    }
    assert(r.to_set() =~= s.to_set().remove(s[i]));
}

proof fn lemma_push_to_distinct(s: Seq<Seq<char>>, x: Seq<char>)
    requires
        s.no_duplicates(),
        !s.contains(x),
    ensures
        s.push(x).no_duplicates(),
        s.push(x).to_set() == s.to_set().insert(x),
{
    let r = s.push(x);
    assert forall|y: Seq<char>| r.to_set().contains(y) <==> s.to_set().insert(x).contains(y) by {
        if r.contains(y) {
            let j = choose|j: int| 0 <= j < r.len() && r[j] == y;
            if j < s.len() {
                assert(s[j] == y);
            }
        }
        if s.contains(y) {
            let j = choose|j: int| 0 <= j < s.len() && s[j] == y;
            assert(r[j] == y);
        }
        if y == x {
            assert(r[s.len() as int] == y);
        }
    }
    assert(r.to_set() =~= s.to_set().insert(x));
}

/// Takes `id` out of the bucket of `cell`, and the bucket out of the grid
/// when nothing is left in it.
fn detach(grid: &mut DashMap<String, Vec<String>>, cell: &String, id: &String)
    requires
        buckets_tidy(grid_buckets(*old(grid))),
        grid_buckets(*old(grid)).dom().finite(),
    ensures
        buckets_tidy(grid_buckets(*final(grid))),
        grid_buckets(*final(grid)).dom().finite(),
        forall|c: Seq<char>| #[trigger]
            occupants(grid_buckets(*final(grid)), c) == if c == cell@ {
                occupants(grid_buckets(*old(grid)), c).remove(id@)
            } else {
                occupants(grid_buckets(*old(grid)), c)
            },
{
    let ghost before = grid_buckets(*grid);
    match grid_remove(grid, cell.as_str()) {
        None => {
            assert forall|c: Seq<char>| #[trigger]
                occupants(grid_buckets(*grid), c) == if c == cell@ {
                    occupants(before, c).remove(id@)
                } else {
                    occupants(before, c)
                } by {
                assert(occupants(before, cell@).remove(id@) =~= occupants(before, cell@));
            }
        },
        Some(ids) => {
            let mut ids = ids;
            let ghost stored = ids@;
            match position(&ids, id) {
                Some(i) => {
                    ids.remove(i);
                    proof {
                        assert(text_views(stored)[i as int] == id@);
                        lemma_views_remove(stored, i as int);
                        lemma_remove_from_distinct(text_views(stored), i as int);
                    }
                },
                None => {
                    assert(text_views(stored).to_set().remove(id@) =~= text_views(
                        stored,
                    ).to_set());
                },
            }
            assert(text_views(ids@).to_set() == occupants(before, cell@).remove(id@));
            assert(text_views(ids@).no_duplicates());
            if ids.len() > 0 {
                grid_insert(grid, cell.clone(), ids);
            } else {
                assert(text_views(ids@).to_set() =~= Set::empty());
            }
            assert forall|c: Seq<char>| #[trigger]
                occupants(grid_buckets(*grid), c) == if c == cell@ {
                    occupants(before, c).remove(id@)
                } else {
                    occupants(before, c)
                } by {}
        },
    }
}

/// Puts `id` into the bucket of `cell`, which is made when the cell had none.
fn attach(grid: &mut DashMap<String, Vec<String>>, cell: String, id: String)
    requires
        buckets_tidy(grid_buckets(*old(grid))),
        grid_buckets(*old(grid)).dom().finite(),
    ensures
        buckets_tidy(grid_buckets(*final(grid))),
        grid_buckets(*final(grid)).dom().finite(),
        forall|c: Seq<char>| #[trigger]
            occupants(grid_buckets(*final(grid)), c) == if c == cell@ {
                occupants(grid_buckets(*old(grid)), c).insert(id@)
            } else {
                occupants(grid_buckets(*old(grid)), c)
            },
{
    let ghost before = grid_buckets(*grid);
    let mut ids: Vec<String> = match grid_remove(grid, cell.as_str()) {
        None => Vec::new(),
        Some(ids) => ids,
    };
    assert(text_views(ids@).to_set() =~= occupants(before, cell@));
    assert(text_views(ids@).no_duplicates());
    let ghost stored = ids@;
    if position(&ids, &id).is_none() {
        ids.push(id);
        proof {
            lemma_views_push(stored, id);
            lemma_push_to_distinct(text_views(stored), id@);
        }
    } else {
        assert(text_views(stored).to_set().insert(id@) =~= text_views(stored).to_set());
    }
    assert(text_views(ids@).to_set() == occupants(before, cell@).insert(id@));
    assert(text_views(ids@).len() > 0) by {
        assert(text_views(ids@).to_set().contains(id@));
    }
    grid_insert(grid, cell, ids);
    assert forall|c: Seq<char>| #[trigger]
        occupants(grid_buckets(*grid), c) == if c == cell@ {
            occupants(before, c).insert(id@)
        } else {
            occupants(before, c)
        } by {}
}

/// The drivers of a table that are not offline.
pub open spec fn active_ids(table: Map<Seq<char>, DriverView>) -> Set<Seq<char>> {
    Set::new(|id: Seq<char>| table.contains_key(id) && table[id].status.on_grid())
}

/// The drivers of a table that are available.
pub open spec fn available_ids(table: Map<Seq<char>, DriverView>) -> Set<Seq<char>> {
    Set::new(|id: Seq<char>| table.contains_key(id) && table[id].status == DriverStatus::Available)
}

/// At time `now` the record is older than `max_age_seconds`. A record from
/// after `now` is not.
pub open spec fn is_stale(record: DriverView, max_age_seconds: u64, now: u64) -> bool {
    now - record.last_update > max_age_seconds
}

/// The drivers of a table whose records are stale at time `now`.
pub open spec fn stale_ids(table: Map<Seq<char>, DriverView>, max_age_seconds: u64, now: u64) -> Set<
    Seq<char>,
> {
    Set::new(
        |id: Seq<char>| table.contains_key(id) && is_stale(table[id], max_age_seconds, now),
    )
}

/// The records that a search of the given cells offers: those of the
/// available drivers whose cell is one of them.
pub open spec fn candidates(table: Map<Seq<char>, DriverView>, cells: Set<Seq<char>>) -> Set<
    DriverView,
> {
    Set::new(
        |r: DriverView|
            table.contains_key(r.id) && table[r.id] == r && r.status == DriverStatus::Available
                && cells.contains(r.cell),
    )
}

/// No two of the records are of one driver.
pub open spec fn distinct_ids(records: Seq<DriverView>) -> bool {
    forall|i: int, j: int| 0 <= i < j < records.len() ==> records[i].id != records[j].id
}

/// `cells[at]` stands at an earlier place of `cells` too.
fn occurs_before(cells: &Vec<String>, at: usize) -> (r: bool)
    requires
        at < cells@.len(),
    ensures
        r == text_views(cells@).take(at as int).to_set().contains(cells@[at as int]@),
{
    let ghost earlier = text_views(cells@).take(at as int);
    let mut k: usize = 0;
    while k < at
        invariant
            k <= at < cells@.len(),
            earlier == text_views(cells@).take(at as int),
            forall|m: int| 0 <= m < k ==> earlier[m] != cells@[at as int]@,
        decreases at - k,
    {
        if cells[k].eq(&cells[at]) {
            assert(earlier[k as int] == cells@[at as int]@);
            return true;
        }
        k += 1;
    }
    false
}

/// An in-memory index of drivers by position.
///
/// Two structures are kept in step: the table, from a driver's identifier to
/// its latest record, and the grid, from a cell identifier to the drivers
/// filed under it.
pub struct GeoIndex {
    grid: DashMap<String, Vec<String>>,
    drivers: DashMap<String, Driver>,
    precision: usize,
}

/// The record that an accepted update stores.
pub open spec fn updated_record(
    id: Seq<char>,
    lat: Binary64,
    lng: Binary64,
    status: DriverStatus,
    cell: Seq<char>,
    now: u64,
) -> DriverView {
    DriverView { id, lat, lng, status, last_update: now, cell }
}

impl GeoIndex {
    /// The table: the record of each driver that the index knows.
    pub closed spec fn table(&self) -> Map<Seq<char>, DriverView> {
        table_entries(self.drivers)
    }

    /// The grid as it is stored: each occupied cell with its identifiers in
    /// stored order.
    pub closed spec fn buckets(&self) -> Map<Seq<char>, Seq<Seq<char>>> {
        grid_buckets(self.grid)
    }

    /// The grid: each occupied cell with the set of drivers filed under it.
    pub open spec fn cells(&self) -> Map<Seq<char>, Set<Seq<char>>> {
        Map::new(
            |c: Seq<char>| self.buckets().contains_key(c),
            |c: Seq<char>| self.buckets()[c].to_set(),
        )
    }

    /// The number of characters of a cell identifier.
    pub closed spec fn spec_precision(&self) -> usize {
        self.precision
    }

    /// The index is well formed: both structures are finite, every record
    /// is stored under its own identifier, and the grid files exactly the
    /// drivers that are not offline, each once, under the cell of its record.
    pub open spec fn wf(&self) -> bool {
        &&& self.table().dom().finite()
        &&& self.buckets().dom().finite()
        &&& forall|id: Seq<char>| #[trigger]
            self.table().contains_key(id) ==> self.table()[id].id == id
        &&& buckets_tidy(self.buckets())
        &&& files_match(self.table(), self.buckets())
    }

    /// An empty index whose cells have `DEFAULT_PRECISION` characters.
    pub fn new() -> (index: GeoIndex)
        ensures
            index.wf(),
            index.table() == Map::<Seq<char>, DriverView>::empty(),
            index.spec_precision() == DEFAULT_PRECISION,
    {
        GeoIndex::with_precision(DEFAULT_PRECISION)
    }

    /// An empty index whose cells have `precision` characters.
    pub fn with_precision(precision: usize) -> (index: GeoIndex)
        ensures
            index.wf(),
            index.table() == Map::<Seq<char>, DriverView>::empty(),
            index.spec_precision() == precision,
    {
        let index = GeoIndex { grid: grid_new(), drivers: table_new(), precision };
        proof {
            assert(index.table() =~= Map::<Seq<char>, DriverView>::empty());
            assert(index.buckets() =~= Map::<Seq<char>, Seq<Seq<char>>>::empty());
        }
        index
    }

    pub fn precision(&self) -> (p: usize)
        ensures
            p == self.spec_precision(),
    {
        self.precision
    }

    /// Records the report of a driver, with `now` as the time of the report
    /// and `cell` as the cell of the position (`None` where none could be
    /// computed).
    ///
    /// The arguments are judged before anything is changed. An accepted
    /// report replaces the record of the driver; the grid follows.
    pub fn update_driver_location_at(
        &mut self,
        driver_id: String,
        lat: Binary64,
        lng: Binary64,
        status: DriverStatus,
        cell: Option<String>,
        now: u64,
    ) -> (outcome: Result<(), UpdateError>)
        requires
            old(self).wf(),
        ensures
            final(self).wf(),
            final(self).spec_precision() == old(self).spec_precision(),
            outcome == update_verdict(driver_id@, lat, lng, cell is Some),
            outcome is Ok ==> final(self).table() == old(self).table().insert(
                driver_id@,
                updated_record(driver_id@, lat, lng, status, cell->0@, now),
            ),
            outcome is Err ==> final(self).table() == old(self).table() && final(self).cells()
                == old(self).cells(),
    {
        if driver_id.as_str().is_empty() {
            return Err(UpdateError::EmptyDriverId);
        }
        if !lat.valid_latitude() {
            return Err(UpdateError::InvalidLatitude);
        }
        if !lng.valid_longitude() {
            return Err(UpdateError::InvalidLongitude);
        }
        let cell: String = match cell {
            Some(c) => c,
            None => {
                return Err(UpdateError::EncodingFailure);
            },
        };
        let ghost table0 = self.table();
        let ghost buckets0 = self.buckets();
        let previous = table_get(&self.drivers, driver_id.as_str());
        match previous {
            Some(p) => {
                if p.status.is_on_grid() {
                    detach(&mut self.grid, &p.cell, &driver_id);
                }
            },
            None => {},
        }
        let ghost buckets1 = self.buckets();
        assert forall|c: Seq<char>| #[trigger]
            occupants(buckets1, c) == occupants(buckets0, c).remove(driver_id@) by {
            assert(occupants(buckets0, c).contains(driver_id@) ==> table0.contains_key(driver_id@)
                && table0[driver_id@].placed_in(c));
            assert(occupants(buckets1, c) =~= occupants(buckets0, c).remove(driver_id@));
        }
        let record = Driver {
            id: driver_id.clone(),
            lat,
            lng,
            status,
            last_update: now,
            cell: cell.clone(),
        };
        table_insert(&mut self.drivers, driver_id.clone(), record);
        if status.is_on_grid() {
            attach(&mut self.grid, cell, driver_id);
        }
        proof {
            let table2 = self.table();
            let buckets2 = self.buckets();
            assert forall|c: Seq<char>, id: Seq<char>| #[trigger]
                occupants(buckets2, c).contains(id) implies table2.contains_key(id)
                && table2[id].placed_in(c) by {
                if id != driver_id@ {
                    assert(occupants(buckets1, c).contains(id));
                    assert(occupants(buckets0, c).contains(id));
                }
            }
            assert forall|id: Seq<char>| #[trigger]
                table2.contains_key(id) && table2[id].status.on_grid() implies occupants(
                buckets2,
                table2[id].cell,
            ).contains(id) by {
                if id != driver_id@ {
                    assert(table0.contains_key(id));
                    assert(occupants(buckets0, table0[id].cell).contains(id));
                    assert(occupants(buckets1, table0[id].cell).contains(id));
                }
            }
        }
        Ok(())
    }

    /// Forgets a driver. The result says whether the index knew it.
    pub fn remove_driver(&mut self, driver_id: &str) -> (removed: bool)
        requires
            old(self).wf(),
        ensures
            final(self).wf(),
            final(self).spec_precision() == old(self).spec_precision(),
            removed == old(self).table().contains_key(driver_id@),
            final(self).table() == old(self).table().remove(driver_id@),
    {
        let ghost table0 = self.table();
        let ghost buckets0 = self.buckets();
        match table_remove(&mut self.drivers, driver_id) {
            Some(p) => {
                if p.status.is_on_grid() {
                    detach(&mut self.grid, &p.cell, &p.id);
                }
                proof {
                    let table1 = self.table();
                    let buckets1 = self.buckets();
                    assert forall|c: Seq<char>| #[trigger]
                        occupants(buckets1, c) == occupants(buckets0, c).remove(driver_id@) by {
                        assert(occupants(buckets0, c).contains(driver_id@) ==> table0[driver_id@].placed_in(
                            c,
                        ));
                        assert(occupants(buckets1, c) =~= occupants(buckets0, c).remove(
                            driver_id@,
                        ));
                    }
                    assert forall|c: Seq<char>, id: Seq<char>| #[trigger]
                        occupants(buckets1, c).contains(id) implies table1.contains_key(id)
                        && table1[id].placed_in(c) by {
                        assert(occupants(buckets0, c).contains(id));
                    }
                    assert forall|id: Seq<char>| #[trigger]
                        table1.contains_key(id) && table1[id].status.on_grid() implies occupants(
                        buckets1,
                        table1[id].cell,
                    ).contains(id) by {
                        assert(table0.contains_key(id));
                        assert(occupants(buckets0, table0[id].cell).contains(id));
                    }
                }
                true
            },
            None => {
                assert(self.table() =~= table0);
                false
            },
        }
    }

    /// Records the report of a driver with the wall clock's time; see
    /// `update_driver_location_at`, which says the same of a given time.
    pub fn update_driver_location(
        &mut self,
        driver_id: String,
        lat: Binary64,
        lng: Binary64,
        status: DriverStatus,
        cell: Option<String>,
    ) -> (outcome: Result<(), UpdateError>)
        requires
            old(self).wf(),
        ensures
            final(self).wf(),
            final(self).spec_precision() == old(self).spec_precision(),
            outcome == update_verdict(driver_id@, lat, lng, cell is Some),
            outcome is Ok ==> exists|now: u64|
                final(self).table() == old(self).table().insert(
                    driver_id@,
                    #[trigger] updated_record(driver_id@, lat, lng, status, cell->0@, now),
                ),
            outcome is Err ==> final(self).table() == old(self).table() && final(self).cells()
                == old(self).cells(),
    {
        let now = unix_seconds();
        self.update_driver_location_at(driver_id, lat, lng, status, cell, now)
    }

    /// The available drivers that are filed under one of `cells`, each once,
    /// in no stated order. A cell that is named twice counts once.
    pub fn available_in_cells(&self, cells: &Vec<String>) -> (found: Vec<Driver>)
        requires
            self.wf(),
        ensures
            distinct_ids(driver_views(found@)),
            driver_views(found@).to_set() == candidates(
                self.table(),
                text_views(cells@).to_set(),
            ),
    {
        let ghost table = self.table();
        let ghost buckets = self.buckets();
        let ghost names = text_views(cells@);
        let mut found: Vec<Driver> = Vec::new();
        let mut ci: usize = 0;
        while ci < cells.len()
            invariant
                ci <= cells@.len(),
                self.wf(),
                table == self.table(),
                buckets == self.buckets(),
                names == text_views(cells@),
                forall|i: int, j: int|
                    0 <= i < j < found@.len() ==> found@[i].id@ != found@[j].id@,
                forall|i: int|
                    0 <= i < found@.len() ==> table.contains_key((#[trigger] found@[i]).id@)
                        && table[found@[i].id@] == found@[i]@ && found@[i].status
                        == DriverStatus::Available && names.take(ci as int).to_set().contains(
                        found@[i].cell@,
                    ),
                forall|id: Seq<char>| #[trigger]
                    table.contains_key(id) && table[id].status == DriverStatus::Available
                        && names.take(ci as int).to_set().contains(table[id].cell) ==> exists|
                        i: int,
                    |
                        0 <= i < found@.len() && #[trigger] found@[i].id@ == id,
            decreases cells@.len() - ci,
        {
            let ghost cell = names[ci as int];
            let ghost visited = names.take(ci as int).to_set();
            proof {
                lemma_prefix_set_next(names, ci as int);
            }
            if !occurs_before(cells, ci) {
                match grid_get(&self.grid, cells[ci].as_str()) {
                    None => {
                        assert(occupants(buckets, cell) =~= Set::empty());
                    },
                    Some(ids) => {
                        let ghost members = text_views(ids@);
                        assert(members == buckets[cell]);
                        let mut k: usize = 0;
                        while k < ids.len()
                            invariant
                                k <= ids@.len(),
                                ci < cells@.len(),
                                self.wf(),
                                table == self.table(),
                                buckets == self.buckets(),
                                names == text_views(cells@),
                                cell == names[ci as int],
                                visited == names.take(ci as int).to_set(),
                                !visited.contains(cell),
                                members == text_views(ids@),
                                buckets.contains_key(cell),
                                members == buckets[cell],
                                forall|i: int, j: int|
                                    0 <= i < j < found@.len() ==> found@[i].id@ != found@[j].id@,
                                forall|i: int|
                                    0 <= i < found@.len() ==> table.contains_key(
                                        (#[trigger] found@[i]).id@,
                                    ) && table[found@[i].id@] == found@[i]@ && found@[i].status
                                        == DriverStatus::Available && (visited.contains(
                                        found@[i].cell@,
                                    ) || (found@[i].cell@ == cell && members.take(
                                        k as int,
                                    ).to_set().contains(found@[i].id@))),
                                forall|id: Seq<char>| #[trigger]
                                    table.contains_key(id) && table[id].status
                                        == DriverStatus::Available && (visited.contains(
                                        table[id].cell,
                                    ) || (table[id].cell == cell && members.take(
                                        k as int,
                                    ).to_set().contains(id))) ==> exists|i: int|
                                        0 <= i < found@.len() && #[trigger] found@[i].id@ == id,
                            decreases ids@.len() - k,
                        {
                            let ghost id = members[k as int];
                            let ghost before = found@;
                            proof {
                                lemma_prefix_set_next(members, k as int);
                                assert(occupants(buckets, cell).contains(id)) by {
                                    assert(buckets[cell][k as int] == id);
                                }
                                assert(members.no_duplicates());
                                assert(!members.take(k as int).to_set().contains(id)) by {
                                    if members.take(k as int).contains(id) {
                                        let m = choose|m: int|
                                            0 <= m < k && members.take(k as int)[m] == id;
                                        assert(members[m] == members[k as int]);
                                    }
                                }
                            }
                            match table_get(&self.drivers, ids[k].as_str()) {
                                Some(d) => {
                                    if d.status.is_available() {
                                        found.push(d);
                                        proof {
                                            assert forall|wanted: Seq<char>| #[trigger]
                                                table.contains_key(wanted) && table[wanted].status
                                                    == DriverStatus::Available && (visited.contains(
                                                    table[wanted].cell,
                                                ) || (table[wanted].cell == cell && members.take(
                                                    k + 1,
                                                ).to_set().contains(wanted))) implies exists|i: int|
                                                0 <= i < found@.len() && #[trigger] found@[i].id@
                                                    == wanted by {
                                                if wanted == id {
                                                    assert(found@[before.len() as int].id@ == id);
                                                } else {
                                                    let i = choose|i: int|
                                                        0 <= i < before.len()
                                                            && #[trigger] before[i].id@ == wanted;
                                                    assert(found@[i].id@ == wanted);
                                                }
                                            }
                                        }
                                    }
                                },
                                None => {},
                            }
                            k += 1;
                        }
                        assert(members.take(k as int) =~= members);
                    },
                }
            }
            ci += 1;
        }
        proof {
            assert(names.take(ci as int) =~= names);
            let wanted = candidates(table, names.to_set());
            let offered = driver_views(found@);
            assert forall|r: DriverView| offered.to_set().contains(r) <==> wanted.contains(r) by {
                if offered.contains(r) {
                    let i = choose|i: int| 0 <= i < offered.len() && offered[i] == r;
                    assert(found@[i]@ == r);
                    assert(table.contains_key(found@[i].id@));
                }
                if wanted.contains(r) {
                    let i = choose|i: int| 0 <= i < found@.len() && #[trigger] found@[i].id@ == r.id;
                    assert(offered[i] == r);
                }
            }
            assert(offered.to_set() =~= wanted);
        }
        found
    }

    /// Every available driver of the table, each once, in no stated order.
    pub fn all_available(&self) -> (found: Vec<Driver>)
        requires
            self.wf(),
        ensures
            distinct_ids(driver_views(found@)),
            driver_views(found@).to_set() == candidates(self.table(), Set::full()),
    {
        let all = table_snapshot(&self.drivers);
        let ghost table = self.table();
        let ghost mut taken: Set<Seq<char>> = Set::empty();
        let mut found: Vec<Driver> = Vec::new();
        let mut i: usize = 0;
        while i < all.len()
            invariant
                i <= all@.len(),
                self.wf(),
                table == self.table(),
                forall|j: int|
                    0 <= j < all@.len() ==> table.contains_key(#[trigger] all@[j].0@) && table[all@[j].0@]
                        == all@[j].1@,
                forall|j: int, k: int|
                    0 <= j < k < all@.len() ==> #[trigger] all@[j].0@ != #[trigger] all@[k].0@,
                forall|j: int| 0 <= j < i ==> taken.contains(#[trigger] all@[j].0@),
                forall|j: int| i <= j < all@.len() ==> !taken.contains(#[trigger] all@[j].0@),
                forall|a: int, b: int|
                    0 <= a < b < found@.len() ==> found@[a].id@ != found@[b].id@,
                forall|q: int|
                    0 <= q < found@.len() ==> table.contains_key((#[trigger] found@[q]).id@)
                        && table[found@[q].id@] == found@[q]@ && found@[q].status
                        == DriverStatus::Available && taken.contains(found@[q].id@),
                forall|j: int|
                    0 <= j < i && (#[trigger] all@[j]).1.status == DriverStatus::Available
                        ==> exists|q: int|
                        0 <= q < found@.len() && #[trigger] found@[q].id@ == all@[j].0@,
            decreases all@.len() - i,
        {
            let ghost before = found@;
            let ghost id = all@[i as int].0@;
            assert(table[id].id == id);
            if all[i].1.status.is_available() {
                let copy = all[i].1.clone();
                found.push(copy);
                proof {
                    assert forall|j: int|
                        0 <= j < i + 1 && (#[trigger] all@[j]).1.status
                            == DriverStatus::Available implies exists|q: int|
                        0 <= q < found@.len() && #[trigger] found@[q].id@ == all@[j].0@ by {
                        if j < i {
                            let q = choose|q: int|
                                0 <= q < before.len() && #[trigger] before[q].id@ == all@[j].0@;
                            assert(found@[q].id@ == all@[j].0@);
                        } else {
                            assert(found@[before.len() as int].id@ == all@[j].0@);
                        }
                    }
                }
            }
            proof {
                taken = taken.insert(id);
            }
            i += 1;
        }
        proof {
            let wanted = candidates(table, Set::full());
            let offered = driver_views(found@);
            assert forall|r: DriverView| offered.to_set().contains(r) <==> wanted.contains(r) by {
                if offered.contains(r) {
                    let q = choose|q: int| 0 <= q < offered.len() && offered[q] == r;
                    assert(found@[q]@ == r);
                    assert(table.contains_key(found@[q].id@));
                }
                if wanted.contains(r) {
                    let j = choose|j: int| 0 <= j < all@.len() && #[trigger] all@[j].0@ == r.id;
                    assert(all@[j].1@ == r);
                    let q = choose|q: int|
                        0 <= q < found@.len() && #[trigger] found@[q].id@ == all@[j].0@;
                    assert(offered[q] == r);
                }
            }
            assert(offered.to_set() =~= wanted);
        }
        found
    }

    /// The available drivers that a search of the given reach around the
    /// cell `center` has to look at, each once, in no stated order: those
    /// filed within `reach` steps of the centre, or all of them where the
    /// reach is beyond the widest ring.
    pub fn candidates_within(&self, center: &str, reach: usize) -> (found: Vec<Driver>)
        requires
            self.wf(),
        ensures
            distinct_ids(driver_views(found@)),
            driver_views(found@).to_set() == candidates(
                self.table(),
                search_area(center@, reach as nat),
            ),
    {
        if reach <= WIDEST_RING {
            let ring = cells_in_reach(center, reach);
            self.available_in_cells(&ring)
        } else {
            self.all_available()
        }
    }

    /// Counts the drivers and the occupied cells.
    pub fn get_stats(&self) -> (stats: IndexStats)
        requires
            self.wf(),
        ensures
            stats.total_drivers == self.table().dom().len(),
            stats.active_drivers == active_ids(self.table()).len(),
            stats.available_drivers == available_ids(self.table()).len(),
            stats.total_buckets == self.cells().dom().len(),
            stats.precision == self.spec_precision(),
    {
        let total_drivers = table_len(&self.drivers);
        let total_buckets = grid_len(&self.grid);
        let all = table_snapshot(&self.drivers);
        let ghost table = self.table();
        let ghost mut active_seen: Set<Seq<char>> = Set::empty();
        let ghost mut available_seen: Set<Seq<char>> = Set::empty();
        let mut active_drivers: usize = 0;
        let mut available_drivers: usize = 0;
        let mut i: usize = 0;
        while i < all.len()
            invariant
                i <= all@.len(),
                table == table_entries(self.drivers),
                forall|j: int|
                    0 <= j < all@.len() ==> table.contains_key(#[trigger] all@[j].0@) && table[all@[j].0@]
                        == all@[j].1@,
                forall|j: int, k: int|
                    0 <= j < k < all@.len() ==> #[trigger] all@[j].0@ != #[trigger] all@[k].0@,
                active_seen.finite(),
                available_seen.finite(),
                active_drivers == active_seen.len(),
                available_drivers == available_seen.len(),
                active_drivers <= i,
                available_drivers <= i,
                forall|j: int|
                    0 <= j < i && all@[j].1@.status.on_grid() ==> active_seen.contains(
                        #[trigger] all@[j].0@,
                    ),
                forall|j: int|
                    0 <= j < i && all@[j].1@.status == DriverStatus::Available
                        ==> available_seen.contains(#[trigger] all@[j].0@),
                forall|id: Seq<char>| #[trigger]
                    active_seen.contains(id) ==> active_ids(table).contains(id),
                forall|id: Seq<char>| #[trigger]
                    available_seen.contains(id) ==> available_ids(table).contains(id),
                forall|j: int|
                    i <= j < all@.len() ==> !active_seen.contains(#[trigger] all@[j].0@)
                        && !available_seen.contains(all@[j].0@),
            decreases all@.len() - i,
        {
            let ghost id = all@[i as int].0@;
            if all[i].1.status.is_on_grid() {
                active_drivers += 1;
                proof {
                    active_seen = active_seen.insert(id);
                }
            }
            if all[i].1.status.is_available() {
                available_drivers += 1;
                proof {
                    available_seen = available_seen.insert(id);
                }
            }
            i += 1;
        }
        proof {
            assert forall|id: Seq<char>| active_ids(table).contains(id) implies active_seen.contains(
                id,
            ) by {
                let j = choose|j: int| 0 <= j < all@.len() && #[trigger] all@[j].0@ == id;
                assert(all@[j].1@ == table[id]);
            }
            assert(active_seen =~= active_ids(table));
            assert forall|id: Seq<char>| available_ids(table).contains(id) implies available_seen.contains(
            id) by {
                let j = choose|j: int| 0 <= j < all@.len() && #[trigger] all@[j].0@ == id;
                assert(all@[j].1@ == table[id]);
            }
            assert(available_seen =~= available_ids(table));
            assert(self.cells().dom() =~= self.buckets().dom());
        }
        IndexStats {
            total_drivers,
            active_drivers,
            available_drivers,
            total_buckets,
            precision: self.precision,
        }
    }

    /// Forgets every driver whose record is stale at time `now`, and says
    /// how many that were.
    pub fn cleanup_stale_drivers_at(&mut self, max_age_seconds: u64, now: u64) -> (removed: usize)
        requires
            old(self).wf(),
        ensures
            final(self).wf(),
            final(self).spec_precision() == old(self).spec_precision(),
            final(self).table() == old(self).table().remove_keys(
                stale_ids(old(self).table(), max_age_seconds, now),
            ),
            removed == stale_ids(old(self).table(), max_age_seconds, now).len(),
    {
        let all = table_snapshot(&self.drivers);
        let ghost table0 = self.table();
        let ghost mut gone: Set<Seq<char>> = Set::empty();
        let mut removed: usize = 0;
        let mut i: usize = 0;
        assert(self.table() =~= table0.remove_keys(gone));
        while i < all.len()
            invariant
                i <= all@.len(),
                self.wf(),
                self.spec_precision() == old(self).spec_precision(),
                forall|j: int|
                    0 <= j < all@.len() ==> table0.contains_key(#[trigger] all@[j].0@)
                        && table0[all@[j].0@] == all@[j].1@,
                forall|j: int, k: int|
                    0 <= j < k < all@.len() ==> #[trigger] all@[j].0@ != #[trigger] all@[k].0@,
                gone.finite(),
                removed == gone.len(),
                removed <= i,
                self.table() == table0.remove_keys(gone),
                forall|j: int|
                    0 <= j < i && is_stale(all@[j].1@, max_age_seconds, now) ==> gone.contains(
                        #[trigger] all@[j].0@,
                    ),
                forall|id: Seq<char>| #[trigger]
                    gone.contains(id) ==> stale_ids(table0, max_age_seconds, now).contains(id),
                forall|j: int| i <= j < all@.len() ==> !gone.contains(#[trigger] all@[j].0@),
            decreases all@.len() - i,
        {
            let last_update = all[i].1.last_update;
            if now > last_update && now - last_update > max_age_seconds {
                let ghost id = all@[i as int].0@;
                let ghost before = self.table();
                let was_there = self.remove_driver(all[i].0.as_str());
                assert(was_there);
                removed += 1;
                proof {
                    assert(before.remove(id) =~= table0.remove_keys(gone.insert(id)));
                    gone = gone.insert(id);
                }
            }
            i += 1;
        }
        proof {
            let stale = stale_ids(table0, max_age_seconds, now);
            assert forall|id: Seq<char>| stale.contains(id) implies gone.contains(id) by {
                let j = choose|j: int| 0 <= j < all@.len() && #[trigger] all@[j].0@ == id;
                assert(all@[j].1@ == table0[id]);
            }
            assert(gone =~= stale);
        }
        removed
    }

    /// Forgets every driver whose record is stale by the wall clock, and
    /// says how many that were; see `cleanup_stale_drivers_at`, which says
    /// the same of a given time.
    pub fn cleanup_stale_drivers(&mut self, max_age_seconds: u64) -> (removed: usize)
        requires
            old(self).wf(),
        ensures
            final(self).wf(),
            final(self).spec_precision() == old(self).spec_precision(),
            exists|now: u64|
                final(self).table() == old(self).table().remove_keys(
                    #[trigger] stale_ids(old(self).table(), max_age_seconds, now),
                ) && removed == stale_ids(old(self).table(), max_age_seconds, now).len(),
    {
        let now = unix_seconds();
        self.cleanup_stale_drivers_at(max_age_seconds, now)
    }

    /// A copy of the record of a driver, or `None` where the index does not
    /// know it.
    pub fn get_driver(&self, driver_id: &str) -> (found: Option<Driver>)
        ensures
            match found {
                Some(d) => self.table().contains_key(driver_id@) && d@ == self.table()[driver_id@],
                None => !self.table().contains_key(driver_id@),
            },
    {
        table_get(&self.drivers, driver_id)
    }
}

impl Default for GeoIndex {
    fn default() -> (index: GeoIndex)
        ensures
            index.wf(),
            index.table() == Map::<Seq<char>, DriverView>::empty(),
            index.spec_precision() == DEFAULT_PRECISION,
    {
        GeoIndex::new()
    }
}

} // verus!
