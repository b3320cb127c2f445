//! The ingestion cursor: the persisted high-water mark of incremental
//! fetching.

use vstd::prelude::*;

use crate::interval::Interval;

verus! {

/// The fixed epoch the cursor starts from when no prior state exists.
pub const INITIAL_FETCH_EPOCH: u64 = 1648771200;

/// The end boundary of the most recently accepted batch. It advances only
/// after a fetch-and-replicate cycle was accepted, and never moves backward.
pub struct IngestionCursor {
    last_fetch_time: u64,
}

impl IngestionCursor {
    pub closed spec fn spec_last(self) -> u64 {
        self.last_fetch_time
    }

    /// A fresh cursor at the initial epoch.
    pub fn new() -> (r: IngestionCursor)
        ensures
            r.spec_last() == INITIAL_FETCH_EPOCH,
    {
        IngestionCursor { last_fetch_time: INITIAL_FETCH_EPOCH }
    }

    /// A cursor restored from persisted state.
    pub fn at(t: u64) -> (r: IngestionCursor)
        ensures
            r.spec_last() == t,
    {
        IngestionCursor { last_fetch_time: t }
    }

    pub fn last_fetch_time(&self) -> (t: u64)
        ensures
            t == self.spec_last(),
    {
        self.last_fetch_time
    }

    /// Advances the cursor to `t`; a boundary behind the current mark is
    /// ignored, so the cursor never moves backward.
    pub fn advance_to(&mut self, t: u64)
        ensures
            final(self).spec_last() == if t > old(self).spec_last() {
                t
            } else {
                old(self).spec_last()
            },
            final(self).spec_last() >= old(self).spec_last(),
    {
        if t > self.last_fetch_time {
            self.last_fetch_time = t;
        }
    }
}

/// The cursor after one cycle: it moves to the batch's end boundary only
/// when the cycle was accepted and the batch is non-empty, and never
/// backward.
pub open spec fn cycle_cursor(c: u64, accepted: bool, batch: Seq<Interval>) -> u64 {
    if accepted && batch.len() > 0 {
        if batch.last().end_time > c {
            batch.last().end_time
        } else {
            c
        }
    } else {
        c
    }
}

/// The cursor after a whole run of cycles.
pub open spec fn run_cursor(c: u64, cycles: Seq<(bool, Seq<Interval>)>) -> u64
    decreases cycles.len(),
{
    if cycles.len() == 0 {
        c
    } else {
        run_cursor(cycle_cursor(c, cycles[0].0, cycles[0].1), cycles.drop_first())
    }
}

/// Cursor monotonicity: over any sequence of fetch cycles — accepted or
/// not, with empty or non-empty batches — `last_fetch_time` never
/// decreases, and a cycle with an empty batch leaves it unchanged.
pub proof fn lemma_cursor_monotonic(c: u64, cycles: Seq<(bool, Seq<Interval>)>)
    ensures
        run_cursor(c, cycles) >= c,
    decreases cycles.len(),
{
    if cycles.len() > 0 {
        lemma_cursor_monotonic(cycle_cursor(c, cycles[0].0, cycles[0].1), cycles.drop_first());
    }
}

} // verus!
