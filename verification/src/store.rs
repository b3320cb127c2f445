//! The shared read vocabulary of every store adapter: filters, sort order,
//! and pagination, each pinned to a sequence-level model.

use vstd::prelude::*;
use vstd::relations::{sorted_by, total_ordering};
use vstd::seq_lib::lemma_sorted_unique;

use crate::interval::Interval;

verus! {

/// Why a store operation failed. Unavailability of a backend is not an
/// error: an unconfigured adapter skips its work and reports success.
#[derive(Clone, Copy, Debug, PartialEq, Eq, Structural)]
pub enum StoreError {
    WriteFailed,
    ReadFailed,
}

/// The field a read is sorted on.
#[derive(Clone, Copy, Debug, PartialEq, Eq, Structural)]
pub enum SortField {
    StartTime,
    Count,
    Units,
}

/// The direction a read is sorted in.
#[derive(Clone, Copy, Debug, PartialEq, Eq, Structural)]
pub enum SortDir {
    Asc,
    Desc,
}

/// An inclusive window that an interval must be contained in: the interval
/// qualifies when `start_time >= start` and `end_time <= end`.
#[derive(Clone, Copy, Debug, PartialEq, Eq, Structural)]
pub struct TimeRange {
    pub start: u64,
    pub end: u64,
}

/// The optional restrictions of a read.
#[derive(Clone, Copy, Debug, PartialEq, Eq, Structural)]
pub struct ReadFilter {
    /// Window containment, both ends inclusive.
    pub time_range: Option<TimeRange>,
    /// Strict lower bound: keeps intervals with `units > min_units`.
    pub min_units: Option<u64>,
}

impl ReadFilter {
    /// A filter that keeps everything.
    pub fn none() -> (r: ReadFilter)
        ensures
            r == (ReadFilter { time_range: None::<TimeRange>, min_units: None::<u64> }),
    {
        ReadFilter { time_range: None, min_units: None }
    }
}

/// Whether `iv` passes `f`.
pub open spec fn matches_filter(iv: Interval, f: ReadFilter) -> bool {
    &&& match f.time_range {
        Some(r) => iv.start_time >= r.start && iv.end_time <= r.end,
        None => true,
    }
    &&& match f.min_units {
        Some(m) => iv.units > m,
        None => true,
    }
}

/// The subsequence of `s` that passes `f`, in the order of `s`.
pub open spec fn filter_seq(s: Seq<Interval>, f: ReadFilter) -> Seq<Interval> {
    s.filter(|iv: Interval| matches_filter(iv, f))
}

/// Decides `matches_filter` for one interval.
pub fn interval_matches(iv: &Interval, f: &ReadFilter) -> (r: bool)
    ensures
        r == matches_filter(*iv, *f),
{
    let in_range = match f.time_range {
        Some(rng) => iv.start_time >= rng.start && iv.end_time <= rng.end,
        None => true,
    };
    let over_units = match f.min_units {
        Some(m) => iv.units > m,
        None => true,
    };
    in_range && over_units
}

/// The value an interval is ranked by for a sort field.
pub open spec fn sort_key_spec(field: SortField, iv: Interval) -> u64 {
    match field {
        SortField::StartTime => iv.start_time,
        SortField::Count => iv.count,
        SortField::Units => iv.units,
    }
}

/// Ranks the optional backend identifier so that records differing only in
/// `id` still order totally.
pub open spec fn id_rank(iv: Interval) -> int {
    match iv.id {
        None => -1,
        Some(n) => n as int,
    }
}

/// Strict record order used as the tie breaker among equal sort keys.
pub open spec fn rec_lt(a: Interval, b: Interval) -> bool {
    if a.start_time != b.start_time {
        a.start_time < b.start_time
    } else if a.end_time != b.end_time {
        a.end_time < b.end_time
    } else if a.count != b.count {
        a.count < b.count
    } else if a.units != b.units {
        a.units < b.units
    } else {
        id_rank(a) < id_rank(b)
    }
}

/// The total order a read is sorted by: the requested field in the requested
/// direction, then the full record ascending, so that the sorted result is
/// unique.
pub open spec fn leq_by(field: SortField, dir: SortDir, a: Interval, b: Interval) -> bool {
    let ka = sort_key_spec(field, a);
    let kb = sort_key_spec(field, b);
    if ka != kb {
        match dir {
            SortDir::Asc => ka < kb,
            SortDir::Desc => kb < ka,
        }
    } else {
        rec_lt(a, b) || a == b
    }
}

pub open spec fn leq_fn(field: SortField, dir: SortDir) -> spec_fn(Interval, Interval) -> bool {
    |a: Interval, b: Interval| leq_by(field, dir, a, b)
}

pub proof fn lemma_leq_total_ordering(field: SortField, dir: SortDir)
    ensures
        total_ordering(leq_fn(field, dir)),
{
    let r = leq_fn(field, dir);
    assert forall|x: Interval| #[trigger] r(x, x) by {
        assert(leq_by(field, dir, x, x));
    }
    assert forall|x: Interval, y: Interval| #[trigger] r(x, y) && #[trigger] r(y, x) implies x
        == y by {
        if x != y {
            assert(!(rec_lt(x, y) && rec_lt(y, x)));
        }
    }
    assert forall|x: Interval, y: Interval, z: Interval|
        #[trigger] r(x, y) && #[trigger] r(y, z) implies r(x, z) by {
        assert(leq_by(field, dir, x, y) && leq_by(field, dir, y, z) ==> leq_by(field, dir, x, z));
    }
    assert forall|x: Interval, y: Interval| #[trigger] r(x, y) || #[trigger] r(y, x) by {
        assert(leq_by(field, dir, x, y) || leq_by(field, dir, y, x));
    }
}

/// Decides `leq_by` for a pair of intervals.
pub fn interval_leq(field: SortField, dir: SortDir, a: &Interval, b: &Interval) -> (r: bool)
    ensures
        r == leq_by(field, dir, *a, *b),
{
    let ka = match field {
        SortField::StartTime => a.start_time,
        SortField::Count => a.count,
        SortField::Units => a.units,
    };
    let kb = match field {
        SortField::StartTime => b.start_time,
        SortField::Count => b.count,
        SortField::Units => b.units,
    };
    if ka != kb {
        match dir {
            SortDir::Asc => ka < kb,
            SortDir::Desc => kb < ka,
        }
    } else if a.start_time != b.start_time {
        a.start_time < b.start_time
    } else if a.end_time != b.end_time {
        a.end_time < b.end_time
    } else if a.count != b.count {
        a.count < b.count
    } else if a.units != b.units {
        a.units < b.units
    } else {
        match (a.id, b.id) {
            (None, None) => true,
            (None, Some(_)) => true,
            (Some(_), None) => false,
            (Some(na), Some(nb)) => na <= nb,
        }
    }
}

/// Inserts `x` into the sorted vector `out`, keeping it sorted.
fn sorted_insert(field: SortField, dir: SortDir, out: &mut Vec<Interval>, x: Interval)
    requires
        sorted_by(old(out)@, leq_fn(field, dir)),
    ensures
        sorted_by(final(out)@, leq_fn(field, dir)),
        final(out)@.to_multiset() == old(out)@.to_multiset().insert(x),
        final(out)@.len() == old(out)@.len() + 1,
{
    proof {
        lemma_leq_total_ordering(field, dir);
        broadcast use vstd::seq_lib::group_to_multiset_ensures;
    }
    let r = Ghost(leq_fn(field, dir));
    let mut pos: usize = 0;
    while pos < out.len() && interval_leq(field, dir, &out[pos], &x)
        invariant
            0 <= pos <= out.len(),
            sorted_by(out@, leq_fn(field, dir)),
            forall|k: int| 0 <= k < pos ==> leq_by(field, dir, #[trigger] out@[k], x),
        decreases out.len() - pos,
    {
        pos += 1;
    }
    let ghost prev = out@;
    out.insert(pos, x);
    proof {
        let rf = leq_fn(field, dir);
        assert(out@ == prev.insert(pos as int, x));
        assert forall|i: int, j: int| 0 <= i < j < out@.len() implies #[trigger] rf(
            out@[i],
            out@[j],
        ) by {
            if pos < prev.len() {
                assert(!leq_by(field, dir, prev[pos as int], x));
                assert(rf(x, prev[pos as int]));
            }
            if i == pos as int {
                if j > pos as int {
                    assert(out@[j] == prev[j - 1]);
                    if j - 1 > pos as int {
                        assert(rf(prev[pos as int], prev[j - 1]));
                    }
                }
            } else if j == pos as int {
                assert(out@[i] == prev[i]);
            } else if i < pos as int && j > pos as int {
                assert(out@[i] == prev[i] && out@[j] == prev[j - 1]);
                if i < j - 1 {
                } else {
                    assert(i == pos as int - 1 && j == pos as int + 1);
                    assert(rf(prev[i], x) && rf(x, prev[j - 1]));
                }
            }
        }
        assert(out@.to_multiset() =~= prev.to_multiset().insert(x));
    }
}

/// Sorts intervals by the requested field and direction; the result is
/// exactly the sequence-level sort of the input.
pub fn sort_intervals(field: SortField, dir: SortDir, v: &Vec<Interval>) -> (r: Vec<Interval>)
    ensures
        r@ == v@.sort_by(leq_fn(field, dir)),
{
    proof {
        lemma_leq_total_ordering(field, dir);
        broadcast use vstd::seq_lib::group_to_multiset_ensures;
    }
    let mut out: Vec<Interval> = Vec::new();
    let mut i: usize = 0;
    while i < v.len()
        invariant
            0 <= i <= v.len(),
            sorted_by(out@, leq_fn(field, dir)),
            out@.to_multiset() == v@.take(i as int).to_multiset(),
        decreases v.len() - i,
    {
        proof {
            broadcast use vstd::seq_lib::group_to_multiset_ensures;

            assert(v@.take(i + 1).drop_last() =~= v@.take(i as int));
            assert(v@.take(i + 1) =~= v@.take(i as int).push(v@[i as int]));
        }
        sorted_insert(field, dir, &mut out, v[i]);
        i += 1;
    }
    proof {
        assert(v@.take(v@.len() as int) =~= v@);
        v@.lemma_sort_by_ensures(leq_fn(field, dir));
        lemma_sorted_unique(out@, v@.sort_by(leq_fn(field, dir)), leq_fn(field, dir));
    }
    out
}

/// The page `[offset, offset + limit)` of `s`, clipped to its length.
pub open spec fn page_of(s: Seq<Interval>, limit: u32, offset: u32) -> Seq<Interval> {
    let start = if offset as int <= s.len() {
        offset as int
    } else {
        s.len() as int
    };
    let end = if start + limit as int <= s.len() {
        start + limit as int
    } else {
        s.len() as int
    };
    s.subrange(start, end)
}

/// Copies the requested page out of `v`.
pub fn slice_page(v: &Vec<Interval>, limit: u32, offset: u32) -> (r: Vec<Interval>)
    ensures
        r@ == page_of(v@, limit, offset),
{
    let start: usize = if (offset as usize) <= v.len() {
        offset as usize
    } else {
        v.len()
    };
    let rest = v.len() - start;
    let take: usize = if (limit as usize) <= rest {
        limit as usize
    } else {
        rest
    };
    let mut out: Vec<Interval> = Vec::new();
    let mut k: usize = 0;
    while k < take
        invariant
            0 <= k <= take,
            start + take <= v.len(),
            out@ == v@.subrange(start as int, start as int + k as int),
        decreases take - k,
    {
        out.push(v[start + k]);
        proof {
            assert(out@ =~= v@.subrange(start as int, start as int + k as int + 1));
        }
        k += 1;
    }
    proof {
        assert(out@ =~= page_of(v@, limit, offset));
    }
    out
}

/// Keeps the intervals of `v` that pass `f`, in order.
pub fn filter_intervals(v: &Vec<Interval>, f: &ReadFilter) -> (r: Vec<Interval>)
    ensures
        r@ == filter_seq(v@, *f),
{
    let mut out: Vec<Interval> = Vec::new();
    let mut i: usize = 0;
    proof {
        reveal(Seq::filter);
        assert(v@.take(0int).filter(|iv: Interval| matches_filter(iv, *f)) =~= Seq::<
            Interval,
        >::empty());
    }
    while i < v.len()
        invariant
            0 <= i <= v.len(),
            out@ == v@.take(i as int).filter(|iv: Interval| matches_filter(iv, *f)),
        decreases v.len() - i,
    {
        let keep = interval_matches(&v[i], f);
        proof {
            reveal(Seq::filter);
            assert(v@.take(i + 1).drop_last() =~= v@.take(i as int));
            assert(v@.take(i + 1).last() == v@[i as int]);
        }
        if keep {
            out.push(v[i]);
        }
        i += 1;
    }
    proof {
        assert(v@.take(v@.len() as int) =~= v@);
    }
    out
}

} // verus!
