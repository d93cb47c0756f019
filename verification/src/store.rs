use vstd::prelude::*;
use dashmap::DashMap;
use crate::driver::{Driver, DriverView, text_views};

verus! {

/// `dashmap::DashMap`, held as an opaque value: what a map holds is told
/// by `table_entries` and `grid_buckets`.
#[verifier::external_type_specification]
#[verifier::external_body]
#[verifier::reject_recursive_types(K)]
#[verifier::reject_recursive_types(V)]
#[verifier::reject_recursive_types(S)]
pub struct ExDashMap<K, V, S>(DashMap<K, V, S>);

/// The entries of a driver table: for each key the record stored under it.
pub uninterp spec fn table_entries(table: DashMap<String, Driver>) -> Map<Seq<char>, DriverView>;

/// The buckets of a grid: for each cell identifier the identifiers stored
/// under it, in the order of the stored vector.
pub uninterp spec fn grid_buckets(grid: DashMap<String, Vec<String>>) -> Map<
    Seq<char>,
    Seq<Seq<char>>,
>;

/// `DashMap::new`: the new table has no entry.
#[verifier::external_body]
pub(crate) fn table_new() -> (table: DashMap<String, Driver>)
    ensures
        forall|k: Seq<char>| !(#[trigger] table_entries(table).contains_key(k)),
{
    DashMap::new()
}

/// `DashMap::get`, with the record found copied out: the record stored under
/// `key`, or `None` where the table has no such key.
#[verifier::external_body]
pub(crate) fn table_get(table: &DashMap<String, Driver>, key: &str) -> (found: Option<Driver>)
    ensures
        match found {
            Some(d) => table_entries(*table).contains_key(key@) && table_entries(*table)[key@]
                == d@,
            None => !table_entries(*table).contains_key(key@),
        },
{
    table.get(key).map(|entry| entry.value().clone())
}

/// `DashMap::insert`: afterwards `key` maps to `value` and every other key is
/// as before; the result is the record that `key` had, if any.
#[verifier::external_body]
pub(crate) fn table_insert(table: &mut DashMap<String, Driver>, key: String, value: Driver) -> (previous:
    Option<Driver>)
    ensures
        table_entries(*final(table)) == table_entries(*old(table)).insert(key@, value@),
        match previous {
            Some(d) => table_entries(*old(table)).contains_key(key@) && table_entries(
                *old(table),
            )[key@] == d@,
            None => !table_entries(*old(table)).contains_key(key@),
        },
{
    table.insert(key, value)
}

/// `DashMap::remove`: afterwards `key` is absent and every other key is as
/// before; the result is the record that `key` had, if any.
#[verifier::external_body]
pub(crate) fn table_remove(table: &mut DashMap<String, Driver>, key: &str) -> (previous: Option<
    Driver,
>)
    ensures
        table_entries(*final(table)) == table_entries(*old(table)).remove(key@),
        match previous {
            Some(d) => table_entries(*old(table)).contains_key(key@) && table_entries(
                *old(table),
            )[key@] == d@,
            None => !table_entries(*old(table)).contains_key(key@),
        },
{
    table.remove(key).map(|pair| pair.1)
}

/// `DashMap::len`: the number of keys.
#[verifier::external_body]
pub(crate) fn table_len(table: &DashMap<String, Driver>) -> (n: usize)
    ensures
        n == table_entries(*table).dom().len(),
{
    table.len()
}

/// `DashMap::iter`, with every entry copied out: each key of the table once,
/// with the record stored under it, in no stated order.
#[verifier::external_body]
pub(crate) fn table_snapshot(table: &DashMap<String, Driver>) -> (all: Vec<(String, Driver)>)
    ensures
        forall|i: int|
            0 <= i < all@.len() ==> table_entries(*table).contains_key(#[trigger] all@[i].0@)
                && table_entries(*table)[all@[i].0@] == all@[i].1@,
        forall|i: int, j: int|
            0 <= i < j < all@.len() ==> #[trigger] all@[i].0@ != #[trigger] all@[j].0@,
        forall|k: Seq<char>| #[trigger]
            table_entries(*table).contains_key(k) ==> exists|i: int|
                0 <= i < all@.len() && #[trigger] all@[i].0@ == k,
{
    table.iter().map(|entry| (entry.key().clone(), entry.value().clone())).collect()
}

/// `DashMap::new`: the new grid has no bucket.
#[verifier::external_body]
pub(crate) fn grid_new() -> (grid: DashMap<String, Vec<String>>)
    ensures
        forall|c: Seq<char>| !(#[trigger] grid_buckets(grid).contains_key(c)),
{
    DashMap::new()
}

/// `DashMap::get`, with the bucket found copied out: the identifiers stored
/// under `cell`, or `None` where the grid has no such cell.
#[verifier::external_body]
pub(crate) fn grid_get(grid: &DashMap<String, Vec<String>>, cell: &str) -> (found: Option<
    Vec<String>,
>)
    ensures
        match found {
            Some(ids) => grid_buckets(*grid).contains_key(cell@) && grid_buckets(*grid)[cell@]
                == text_views(ids@),
            None => !grid_buckets(*grid).contains_key(cell@),
        },
{
    grid.get(cell).map(|entry| entry.value().clone())
}

/// `DashMap::insert`: afterwards `cell` maps to `ids` and every other cell is
/// as before.
#[verifier::external_body]
pub(crate) fn grid_insert(grid: &mut DashMap<String, Vec<String>>, cell: String, ids: Vec<String>)
    ensures
        grid_buckets(*final(grid)) == grid_buckets(*old(grid)).insert(cell@, text_views(ids@)),
{
    grid.insert(cell, ids);
}

/// `DashMap::remove`: afterwards `cell` is absent and every other cell is as
/// before; the result is the bucket that `cell` had, if any.
#[verifier::external_body]
pub(crate) fn grid_remove(grid: &mut DashMap<String, Vec<String>>, cell: &str) -> (previous:
    Option<Vec<String>>)
    ensures
        grid_buckets(*final(grid)) == grid_buckets(*old(grid)).remove(cell@),
        match previous {
            Some(ids) => grid_buckets(*old(grid)).contains_key(cell@) && grid_buckets(
                *old(grid),
            )[cell@] == text_views(ids@),
            None => !grid_buckets(*old(grid)).contains_key(cell@),
        },
{
    grid.remove(cell).map(|pair| pair.1)
}

/// `DashMap::len`: the number of cells.
#[verifier::external_body]
pub(crate) fn grid_len(grid: &DashMap<String, Vec<String>>) -> (n: usize)
    ensures
        n == grid_buckets(*grid).dom().len(),
{
    grid.len()
}

} // verus!
