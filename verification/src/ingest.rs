//! One ingestion cycle: replicate a fetched batch, then move the cursor.
//!
//! The perpetual loop around this — the fixed timer, the HTTP fetch, the
//! sleep — belongs to the caller; the cycle itself decides everything that
//! is not I/O: the batch goes to every configured backend, and only when no
//! adapter reported a hard error does the cursor advance to the end
//! boundary of the batch's last interval. An empty batch never moves the
//! cursor.

use vstd::prelude::*;

use crate::coordinator::{replication_applied, store_intervals, BackendRegistry, ReplicationError};
use crate::cursor::{cycle_cursor, IngestionCursor};
use crate::interval::{all_wf, Interval};

verus! {

/// Replicates one fetched batch and advances the cursor on acceptance.
pub fn run_cycle(
    reg: &mut BackendRegistry,
    cursor: &mut IngestionCursor,
    batch: &Vec<Interval>,
) -> (r: Result<(), ReplicationError>)
    requires
        old(reg).inv(),
        all_wf(batch@),
    ensures
        final(reg).inv(),
        replication_applied(*old(reg), *final(reg), batch@, r is Ok),
        final(cursor).spec_last() == cycle_cursor(old(cursor).spec_last(), r is Ok, batch@),
        final(cursor).spec_last() >= old(cursor).spec_last(),
        old(reg).ordered_a is None ==> r is Ok,
{
    let r = store_intervals(reg, batch);
    if r.is_ok() && batch.len() > 0 {
        cursor.advance_to(batch[batch.len() - 1].end_time);
    }
    r
}

/// Whether a full hour has passed since `last_run`: the schedule decision
/// of the hourly fetcher.
pub fn hourly_due(now: u64, last_run: u64) -> (r: bool)
    ensures
        r == (now >= last_run + 3600),
{
    now >= 3600 && now - 3600 >= last_run
}

} // verus!
