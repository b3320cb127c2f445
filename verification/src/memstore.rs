//! In-memory store: the verified model of a backend adapter.
//!
//! Backends whose native clients work over the network (the relational,
//! document and remote-query stores) are modelled by this store: it keeps one
//! record per natural key, writes a batch with an existence check per
//! interval, and serves the filtered, sorted, paginated read contract. The
//! check-then-insert here is atomic, so deduplication is exact; the on-disk
//! key-value adapter documents the weaker race-prone guarantee.

use vstd::prelude::*;

use crate::interval::{all_wf, Interval};
use crate::store::{
    filter_seq, leq_fn, page_of, ReadFilter, SortDir, SortField, filter_intervals, slice_page,
    sort_intervals,
};

verus! {

/// Whether some interval in `s` has the natural key `k`.
pub open spec fn has_key(s: Seq<Interval>, k: (u64, u64)) -> bool {
    exists|i: int| 0 <= i < s.len() && (#[trigger] s[i]).key() == k
}

/// The store contents after writing `batch` over `s`, skipping every
/// interval whose natural key is already present.
pub open spec fn write_model(s: Seq<Interval>, batch: Seq<Interval>) -> Seq<Interval>
    decreases batch.len(),
{
    if batch.len() == 0 {
        s
    } else {
        let s1 = if has_key(s, batch[0].key()) {
            s
        } else {
            s.push(batch[0])
        };
        write_model(s1, batch.drop_first())
    }
}

/// How many intervals of `batch` are newly stored over `s`.
pub open spec fn write_count(s: Seq<Interval>, batch: Seq<Interval>) -> nat
    decreases batch.len(),
{
    if batch.len() == 0 {
        0
    } else if has_key(s, batch[0].key()) {
        write_count(s, batch.drop_first())
    } else {
        (1 + write_count(s.push(batch[0]), batch.drop_first())) as nat
    }
}

/// No two records of `s` share a natural key.
pub open spec fn unique_keys(s: Seq<Interval>) -> bool {
    forall|i: int, j: int|
        0 <= i < j < s.len() ==> (#[trigger] s[i]).key() != (#[trigger] s[j]).key()
}

/// An in-memory store of intervals, deduplicated on the natural key. Records
/// keep their insertion order; reads sort on demand.
pub struct MemStore {
    entries: Vec<Interval>,
}

impl View for MemStore {
    type V = Seq<Interval>;

    closed spec fn view(&self) -> Seq<Interval> {
        self.entries@
    }
}

impl MemStore {
    /// Every record is well formed and natural keys are unique: exactly one
    /// stored copy per key.
    pub open spec fn inv(self) -> bool {
        unique_keys(self@) && all_wf(self@)
    }

    pub fn new() -> (r: MemStore)
        ensures
            r@ == Seq::<Interval>::empty(),
            r.inv(),
    {
        MemStore { entries: Vec::new() }
    }

    pub fn len(&self) -> (n: usize)
        ensures
            n == self@.len(),
    {
        self.entries.len()
    }

    /// Whether a record with the natural key `(start_time, end_time)` is
    /// stored.
    pub fn contains_key(&self, start_time: u64, end_time: u64) -> (r: bool)
        ensures
            r == has_key(self@, (start_time, end_time)),
    {
        let mut i: usize = 0;
        while i < self.entries.len()
            invariant
                0 <= i <= self.entries.len(),
                forall|k: int|
                    0 <= k < i ==> (#[trigger] self.entries@[k]).key() != (start_time, end_time),
            decreases self.entries.len() - i,
        {
            if self.entries[i].start_time == start_time && self.entries[i].end_time == end_time {
                assert(self.entries@[i as int].key() == (start_time, end_time));
                return true;
            }
            i += 1;
        }
        false
    }

    /// Writes a batch with per-interval existence checks and returns how many
    /// records were newly stored; pre-existing natural keys are skipped and
    /// not recounted.
    pub fn write_batch(&mut self, batch: &Vec<Interval>) -> (n: usize)
        requires
            old(self).inv(),
            all_wf(batch@),
        ensures
            final(self)@ == write_model(old(self)@, batch@),
            n == write_count(old(self)@, batch@),
            final(self).inv(),
    {
        let ghost orig = self@;
        let mut i: usize = 0;
        let mut stored: usize = 0;
        proof {
            assert(batch@.skip(0int) =~= batch@);
        }
        while i < batch.len()
            invariant
                0 <= i <= batch.len(),
                stored <= i,
                all_wf(batch@),
                self.inv(),
                write_model(orig, batch@) == write_model(self@, batch@.skip(i as int)),
                write_count(orig, batch@) == stored + write_count(self@, batch@.skip(i as int)),
            decreases batch.len() - i,
        {
            let iv = batch[i];
            proof {
                assert(batch@.skip(i as int)[0] == batch@[i as int]);
                assert(batch@.skip(i as int).drop_first() =~= batch@.skip(i + 1));
            }
            if !self.contains_key(iv.start_time, iv.end_time) {
                proof {
                    assert forall|a: int, b: int|
                        0 <= a < b < self@.push(iv).len() implies (#[trigger] self@.push(iv)[a]).key()
                        != (#[trigger] self@.push(iv)[b]).key() by {
                        if b == self@.len() as int {
                            assert(!has_key(self@, iv.key()));
                            assert(self@.push(iv)[a] == self@[a]);
                        }
                    }
                    assert(batch@[i as int].wf());
                }
                self.entries.push(iv);
                stored += 1;
            }
            i += 1;
        }
        proof {
            assert(batch@.skip(batch@.len() as int) =~= Seq::<Interval>::empty());
        }
        stored
    }

    /// The filtered, sorted, paginated read contract: the result is the page
    /// `[offset, offset + limit)` of the matching records in the requested
    /// order.
    pub fn read_page(
        &self,
        filter: &ReadFilter,
        field: SortField,
        dir: SortDir,
        limit: u32,
        offset: u32,
    ) -> (r: Vec<Interval>)
        ensures
            r@ == page_of(filter_seq(self@, *filter).sort_by(leq_fn(field, dir)), limit, offset),
            vstd::relations::sorted_by(r@, leq_fn(field, dir)),
    {
        let matching = filter_intervals(&self.entries, filter);
        let sorted = sort_intervals(field, dir, &matching);
        let page = slice_page(&sorted, limit, offset);
        proof {
            crate::store::lemma_leq_total_ordering(field, dir);
            matching@.lemma_sort_by_ensures(leq_fn(field, dir));
            assert forall|i: int, j: int| 0 <= i < j < page@.len() implies #[trigger] leq_fn(
                field,
                dir,
            )(page@[i], page@[j]) by {
                let s = matching@.sort_by(leq_fn(field, dir));
                let start = if offset as int <= s.len() {
                    offset as int
                } else {
                    s.len() as int
                };
                assert(page@[i] == s[start + i] && page@[j] == s[start + j]);
            }
        }
        page
    }

    /// The scan read of a store without native sort: a linear scan in the
    /// store's own record order, filters applied in line, `offset` matches
    /// skipped, `limit` matches returned. Sort requests are not honored here.
    pub fn scan_read(&self, filter: &ReadFilter, limit: u32, offset: u32) -> (r: Vec<Interval>)
        ensures
            r@ == page_of(filter_seq(self@, *filter), limit, offset),
    {
        let matching = filter_intervals(&self.entries, filter);
        slice_page(&matching, limit, offset)
    }
}

pub proof fn lemma_write_model_keeps_keys(s: Seq<Interval>, batch: Seq<Interval>, k: (u64, u64))
    requires
        has_key(s, k),
    ensures
        has_key(write_model(s, batch), k),
    decreases batch.len(),
{
    if batch.len() > 0 {
        let s1 = if has_key(s, batch[0].key()) {
            s
        } else {
            s.push(batch[0])
        };
        assert(has_key(s1, k)) by {
            let w = choose|i: int| 0 <= i < s.len() && (#[trigger] s[i]).key() == k;
            assert(s1[w] == s[w]);
        }
        lemma_write_model_keeps_keys(s1, batch.drop_first(), k);
    }
}

pub proof fn lemma_write_model_covers(s: Seq<Interval>, batch: Seq<Interval>)
    ensures
        forall|j: int|
            0 <= j < batch.len() ==> has_key(write_model(s, batch), (#[trigger] batch[j]).key()),
    decreases batch.len(),
{
    if batch.len() > 0 {
        let s1 = if has_key(s, batch[0].key()) {
            s
        } else {
            s.push(batch[0])
        };
        assert(has_key(s1, batch[0].key())) by {
            if !has_key(s, batch[0].key()) {
                assert(s1[s.len() as int].key() == batch[0].key());
            } else {
                let w = choose|i: int| 0 <= i < s.len() && (#[trigger] s[i]).key() == batch[0].key();
                assert(s1[w].key() == batch[0].key());
            }
        }
        lemma_write_model_keeps_keys(s1, batch.drop_first(), batch[0].key());
        lemma_write_model_covers(s1, batch.drop_first());
        assert forall|j: int| 0 <= j < batch.len() implies has_key(
            write_model(s, batch),
            (#[trigger] batch[j]).key(),
        ) by {
            if j > 0 {
                assert(batch.drop_first()[j - 1] == batch[j]);
            }
        }
    }
}

pub proof fn lemma_write_model_noop(s: Seq<Interval>, batch: Seq<Interval>)
    requires
        forall|j: int| 0 <= j < batch.len() ==> has_key(s, (#[trigger] batch[j]).key()),
    ensures
        write_model(s, batch) == s,
        write_count(s, batch) == 0,
    decreases batch.len(),
{
    if batch.len() > 0 {
        assert(has_key(s, batch[0].key()));
        assert forall|j: int| 0 <= j < batch.drop_first().len() implies has_key(
            s,
            (#[trigger] batch.drop_first()[j]).key(),
        ) by {
            assert(batch.drop_first()[j] == batch[j + 1]);
        }
        lemma_write_model_noop(s, batch.drop_first());
    }
}

/// The reported count of newly stored records is exactly the store's
/// growth: pre-existing natural keys are not recounted.
pub proof fn lemma_write_count_is_growth(s: Seq<Interval>, batch: Seq<Interval>)
    ensures
        write_model(s, batch).len() == s.len() + write_count(s, batch),
    decreases batch.len(),
{
    if batch.len() > 0 {
        let s1 = if has_key(s, batch[0].key()) {
            s
        } else {
            s.push(batch[0])
        };
        lemma_write_count_is_growth(s1, batch.drop_first());
    }
}

/// Dedup idempotence: writing the same batch a second time stores nothing
/// new and leaves the store unchanged. Together with `MemStore::inv` (unique
/// natural keys) this is "exactly one stored copy per natural key" for a
/// store whose existence check and insert are atomic.
pub proof fn lemma_dedup_idempotent(s: Seq<Interval>, batch: Seq<Interval>)
    ensures
        write_model(write_model(s, batch), batch) == write_model(s, batch),
        write_count(write_model(s, batch), batch) == 0,
{
    lemma_write_model_covers(s, batch);
    lemma_write_model_noop(write_model(s, batch), batch);
}

} // verus!
