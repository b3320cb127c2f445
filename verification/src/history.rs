//! The read-endpoint envelope: page arithmetic, the sorted read, and the
//! meta statistics derived from its first and last elements.

use vstd::prelude::*;

use crate::interval::Interval;
use crate::memstore::MemStore;
use crate::store::{filter_seq, leq_fn, page_of, ReadFilter, SortDir, SortField};

verus! {

/// The page size used when a query names none.
pub const DEFAULT_PAGE_SIZE: u32 = 10;

/// The largest page a caller can request; larger limits are clamped.
pub const MAX_PAGE_SIZE: u32 = 100;

/// One read endpoint's query, already parsed into plain values.
#[derive(Clone, Copy, Debug, PartialEq, Eq, Structural)]
pub struct HistoryQuery {
    /// Zero-based page index; the offset is `page * limit`.
    pub page: Option<u32>,
    /// Requested page size, clamped to `MAX_PAGE_SIZE`.
    pub limit: Option<u32>,
    /// Window containment filter.
    pub range: Option<crate::store::TimeRange>,
    /// Strict lower bound on units.
    pub units_gt: Option<u64>,
    /// Sort field; `start_time` when absent.
    pub sort_field: Option<SortField>,
    /// Sort direction; ascending when absent.
    pub order: Option<SortDir>,
}

/// Summary of an already-sorted result: the fields of its first and last
/// elements.
#[derive(Clone, Copy, Debug, PartialEq, Eq, Structural)]
pub struct MetaStats {
    pub start_time: u64,
    pub end_time: u64,
    pub start_count: u64,
    pub end_count: u64,
    pub start_units: u64,
    pub end_units: u64,
}

/// What a read endpoint answers: a page with its meta statistics, or an
/// explanatory message instead of an empty array.
pub enum HistoryReply {
    Data { intervals: Vec<Interval>, meta_stats: MetaStats },
    Empty { message: String },
}

pub open spec fn effective_limit(q: HistoryQuery) -> u32 {
    let l = match q.limit {
        Some(l) => l,
        None => DEFAULT_PAGE_SIZE,
    };
    if l <= MAX_PAGE_SIZE {
        l
    } else {
        MAX_PAGE_SIZE
    }
}

/// The offset `page * limit`, saturated at `u32::MAX`.
pub open spec fn effective_offset(q: HistoryQuery) -> u32 {
    let p = match q.page {
        Some(p) => p,
        None => 0u32,
    };
    if p * effective_limit(q) <= u32::MAX {
        (p * effective_limit(q)) as u32
    } else {
        u32::MAX
    }
}

pub open spec fn effective_field(q: HistoryQuery) -> SortField {
    match q.sort_field {
        Some(f) => f,
        None => SortField::StartTime,
    }
}

pub open spec fn effective_dir(q: HistoryQuery) -> SortDir {
    match q.order {
        Some(d) => d,
        None => SortDir::Asc,
    }
}

pub open spec fn query_filter(q: HistoryQuery) -> ReadFilter {
    ReadFilter { time_range: q.range, min_units: q.units_gt }
}

/// The page a query selects from a store's records.
pub open spec fn selected_page(s: Seq<Interval>, q: HistoryQuery) -> Seq<Interval> {
    page_of(
        filter_seq(s, query_filter(q)).sort_by(leq_fn(effective_field(q), effective_dir(q))),
        effective_limit(q),
        effective_offset(q),
    )
}

/// The meta statistics of a non-empty, already-sorted result.
pub open spec fn meta_of(s: Seq<Interval>) -> MetaStats {
    MetaStats {
        start_time: s[0].start_time,
        end_time: s.last().end_time,
        start_count: s[0].count,
        end_count: s.last().count,
        start_units: s[0].units,
        end_units: s.last().units,
    }
}

/// Serves one read query from a store: clamps the limit, computes the
/// offset from the page index, reads the page in the requested order, and
/// wraps it with meta statistics — or, for an empty result, the
/// explanatory message.
/// The page a query selects from a scan-only store: same filters and page
/// arithmetic, no sort beyond the store's own record order.
pub open spec fn selected_scan_page(s: Seq<Interval>, q: HistoryQuery) -> Seq<Interval> {
    page_of(filter_seq(s, query_filter(q)), effective_limit(q), effective_offset(q))
}

/// Serves one read query from a store without native sort: the page comes
/// out in the store's own record order, and the query's sort request is
/// not honored.
pub fn read_history_scan(store: &MemStore, q: &HistoryQuery) -> (r: HistoryReply)
    ensures
        match r {
            HistoryReply::Data { intervals, meta_stats } => intervals@ == selected_scan_page(
                store@,
                *q,
            ) && intervals@.len() > 0 && meta_stats == meta_of(selected_scan_page(store@, *q)),
            HistoryReply::Empty { message } => selected_scan_page(store@, *q).len() == 0
                && message@ == "no data found in the database for the given params"@,
        },
{
    let limit = match q.limit {
        Some(l) =>
            if l <= MAX_PAGE_SIZE {
                l
            } else {
                MAX_PAGE_SIZE
            },
        None => DEFAULT_PAGE_SIZE,
    };
    let page = match q.page {
        Some(p) => p,
        None => 0,
    };
    let offset = match page.checked_mul(limit) {
        Some(o) => o,
        None => u32::MAX,
    };
    let filter = ReadFilter { time_range: q.range, min_units: q.units_gt };
    let intervals = store.scan_read(&filter, limit, offset);
    if intervals.len() == 0 {
        HistoryReply::Empty {
            message: String::from_str("no data found in the database for the given params"),
        }
    } else {
        let first = intervals[0];
        let last = intervals[intervals.len() - 1];
        let meta_stats = MetaStats {
            start_time: first.start_time,
            end_time: last.end_time,
            start_count: first.count,
            end_count: last.count,
            start_units: first.units,
            end_units: last.units,
        };
        HistoryReply::Data { intervals, meta_stats }
    }
}

pub fn read_history(store: &MemStore, q: &HistoryQuery) -> (r: HistoryReply)
    ensures
        match r {
            HistoryReply::Data { intervals, meta_stats } => intervals@ == selected_page(store@, *q)
                && intervals@.len() > 0 && meta_stats == meta_of(selected_page(store@, *q)),
            HistoryReply::Empty { message } => selected_page(store@, *q).len() == 0 && message@
                == "no data found in the database for the given params"@,
        },
{
    let limit = match q.limit {
        Some(l) =>
            if l <= MAX_PAGE_SIZE {
                l
            } else {
                MAX_PAGE_SIZE
            },
        None => DEFAULT_PAGE_SIZE,
    };
    let page = match q.page {
        Some(p) => p,
        None => 0,
    };
    let offset = match page.checked_mul(limit) {
        Some(o) => o,
        None => u32::MAX,
    };
    let filter = ReadFilter { time_range: q.range, min_units: q.units_gt };
    let field = match q.sort_field {
        Some(f) => f,
        None => SortField::StartTime,
    };
    let dir = match q.order {
        Some(d) => d,
        None => SortDir::Asc,
    };
    let intervals = store.read_page(&filter, field, dir, limit, offset);
    if intervals.len() == 0 {
        HistoryReply::Empty {
            message: String::from_str("no data found in the database for the given params"),
        }
    } else {
        let first = intervals[0];
        let last = intervals[intervals.len() - 1];
        let meta_stats = MetaStats {
            start_time: first.start_time,
            end_time: last.end_time,
            start_count: first.count,
            end_count: last.count,
            start_units: first.units,
            end_units: last.units,
        };
        HistoryReply::Data { intervals, meta_stats }
    }
}

} // verus!
