//! The per-backend adapter surface.
//!
//! The relational, document and remote-query backends talk to their servers
//! over the network; their clients live with the caller, and their write
//! and read logic — existence-check deduplication, filtered sorted
//! pagination — is the in-memory store model, exposed here under each
//! backend's name. The second ordered key-value store follows the same
//! model with the scan read; the first one is the on-disk adapter in this
//! crate backed by the real key-value library.

use vstd::prelude::*;

use crate::interval::{all_wf, Interval};
use crate::memstore::{write_count, write_model, MemStore};
use crate::store::{filter_seq, leq_fn, page_of, ReadFilter, SortDir, SortField};

verus! {

/// Writes a batch into the relational store with one existence check per
/// interval; returns the number of newly inserted rows.
pub fn store_postgres_intervals(store: &mut MemStore, intervals: &Vec<Interval>) -> (n: usize)
    requires
        old(store).inv(),
        all_wf(intervals@),
    ensures
        final(store)@ == write_model(old(store)@, intervals@),
        n == write_count(old(store)@, intervals@),
        final(store).inv(),
{
    store.write_batch(intervals)
}

/// Writes a batch into the document store, keyed on the natural key;
/// returns the number of newly inserted documents.
pub fn store_mongo_intervals(store: &mut MemStore, intervals: &Vec<Interval>) -> (n: usize)
    requires
        old(store).inv(),
        all_wf(intervals@),
    ensures
        final(store)@ == write_model(old(store)@, intervals@),
        n == write_count(old(store)@, intervals@),
        final(store).inv(),
{
    store.write_batch(intervals)
}

/// Writes a batch into the remote-query store; returns the number of newly
/// created records.
pub fn store_surreal_intervals(store: &mut MemStore, intervals: &Vec<Interval>) -> (n: usize)
    requires
        old(store).inv(),
        all_wf(intervals@),
    ensures
        final(store)@ == write_model(old(store)@, intervals@),
        n == write_count(old(store)@, intervals@),
        final(store).inv(),
{
    store.write_batch(intervals)
}

/// Writes a batch into the second ordered key-value store.
pub fn store_rocks_intervals(store: &mut MemStore, intervals: &Vec<Interval>) -> (n: usize)
    requires
        old(store).inv(),
        all_wf(intervals@),
    ensures
        final(store)@ == write_model(old(store)@, intervals@),
        n == write_count(old(store)@, intervals@),
        final(store).inv(),
{
    store.write_batch(intervals)
}

/// The document store's read: filtered, sorted on the requested field and
/// direction, paginated.
pub fn get_runepool_units_history_mongodb(
    store: &MemStore,
    limit: u32,
    offset: u32,
    filter: &ReadFilter,
    field: SortField,
    dir: SortDir,
) -> (r: Vec<Interval>)
    ensures
        r@ == page_of(filter_seq(store@, *filter).sort_by(leq_fn(field, dir)), limit, offset),
{
    store.read_page(filter, field, dir, limit, offset)
}

/// The relational store's read: filtered, sorted, paginated.
pub fn get_runepool_units_history_postgres(
    store: &MemStore,
    limit: u32,
    offset: u32,
    filter: &ReadFilter,
    field: SortField,
    dir: SortDir,
) -> (r: Vec<Interval>)
    ensures
        r@ == page_of(filter_seq(store@, *filter).sort_by(leq_fn(field, dir)), limit, offset),
{
    store.read_page(filter, field, dir, limit, offset)
}

/// The remote-query store's read: filtered, sorted, paginated.
pub fn get_runepool_units_history_surrealdb(
    store: &MemStore,
    limit: u32,
    offset: u32,
    filter: &ReadFilter,
    field: SortField,
    dir: SortDir,
) -> (r: Vec<Interval>)
    ensures
        r@ == page_of(filter_seq(store@, *filter).sort_by(leq_fn(field, dir)), limit, offset),
{
    store.read_page(filter, field, dir, limit, offset)
}

/// The second ordered key-value store's read: a linear scan in the store's
/// own record order with in-line filters; sort requests are not honored on
/// this backend.
pub fn get_runepool_units_history_rocksdb(
    store: &MemStore,
    limit: u32,
    offset: u32,
    filter: &ReadFilter,
) -> (r: Vec<Interval>)
    ensures
        r@ == page_of(filter_seq(store@, *filter), limit, offset),
{
    store.scan_read(filter, limit, offset)
}

} // verus!
