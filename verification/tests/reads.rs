use runepool_replicator::adapters::{
    get_runepool_units_history_mongodb, get_runepool_units_history_rocksdb,
    store_postgres_intervals,
};
use runepool_replicator::history::{read_history, HistoryQuery, HistoryReply};
use runepool_replicator::memstore::MemStore;
use runepool_replicator::store::{ReadFilter, SortDir, SortField, TimeRange};
use runepool_replicator::Interval;

fn iv(start: u64, end: u64, count: u64, units: u64) -> Interval {
    Interval::new(start, end, count, units)
}

/// A store with 120 hourly intervals; interval k spans
/// [k*3600, (k+1)*3600) with count 10+k and units 100+k.
fn populated_store() -> MemStore {
    let mut store = MemStore::new();
    let batch: Vec<Interval> = (0u64..120)
        .map(|k| iv(k * 3600, (k + 1) * 3600, 10 + k, 100 + k))
        .collect();
    let n = store_postgres_intervals(&mut store, &batch);
    assert_eq!(n, 120);
    store
}

#[test]
fn pagination_limit_10_offset_20_returns_elements_21_to_30() {
    let store = populated_store();
    let q = HistoryQuery {
        page: Some(2),
        limit: Some(10),
        range: None,
        units_gt: None,
        sort_field: None,
        order: None,
    };
    match read_history(&store, &q) {
        HistoryReply::Data { intervals, meta_stats } => {
            assert_eq!(intervals.len(), 10);
            // ascending by start_time: elements 21..=30, zero-based 20..=29
            assert_eq!(intervals[0].start_time, 20 * 3600);
            assert_eq!(intervals[9].start_time, 29 * 3600);
            assert_eq!(meta_stats.start_time, intervals[0].start_time);
            assert_eq!(meta_stats.end_time, intervals[9].end_time);
            assert_eq!(meta_stats.start_count, intervals[0].count);
            assert_eq!(meta_stats.end_count, intervals[9].count);
            assert_eq!(meta_stats.start_units, intervals[0].units);
            assert_eq!(meta_stats.end_units, intervals[9].units);
        }
        HistoryReply::Empty { .. } => panic!("expected a page of data"),
    }
}

#[test]
fn descending_sort_reverses_the_page() {
    let store = populated_store();
    let q = HistoryQuery {
        page: Some(0),
        limit: Some(3),
        range: None,
        units_gt: None,
        sort_field: Some(SortField::StartTime),
        order: Some(SortDir::Desc),
    };
    match read_history(&store, &q) {
        HistoryReply::Data { intervals, .. } => {
            assert_eq!(intervals[0].start_time, 119 * 3600);
            assert_eq!(intervals[1].start_time, 118 * 3600);
            assert_eq!(intervals[2].start_time, 117 * 3600);
        }
        HistoryReply::Empty { .. } => panic!("expected a page of data"),
    }
}

#[test]
fn sort_by_units_matches_requested_field() {
    let mut store = MemStore::new();
    let batch = vec![iv(0, 1, 1, 300), iv(1, 2, 2, 100), iv(2, 3, 3, 200)];
    store_postgres_intervals(&mut store, &batch);
    let page = get_runepool_units_history_mongodb(
        &store,
        10,
        0,
        &ReadFilter::none(),
        SortField::Units,
        SortDir::Asc,
    );
    let units: Vec<u64> = page.iter().map(|r| r.units).collect();
    assert_eq!(units, vec![100, 200, 300]);
}

#[test]
fn equal_sort_keys_fall_back_to_record_order() {
    let mut store = MemStore::new();
    // both start at 0; the tie breaks on the full record, end_time next
    let batch = vec![iv(0, 7200, 2, 2), iv(0, 3600, 1, 1)];
    store_postgres_intervals(&mut store, &batch);
    let page = get_runepool_units_history_mongodb(
        &store,
        10,
        0,
        &ReadFilter::none(),
        SortField::StartTime,
        SortDir::Asc,
    );
    assert_eq!(page[0].end_time, 3600);
    assert_eq!(page[1].end_time, 7200);
}

#[test]
fn page_past_the_end_is_empty() {
    let mut store = MemStore::new();
    store_postgres_intervals(&mut store, &vec![iv(0, 1, 1, 1)]);
    let page = get_runepool_units_history_rocksdb(&store, 10, 5, &ReadFilter::none());
    assert!(page.is_empty());
}

#[test]
fn descending_by_units_ranks_largest_first() {
    let mut store = MemStore::new();
    store_postgres_intervals(&mut store, &vec![iv(0, 1, 1, 50), iv(1, 2, 2, 70), iv(2, 3, 3, 60)]);
    let page = get_runepool_units_history_mongodb(
        &store,
        2,
        0,
        &ReadFilter::none(),
        SortField::Units,
        SortDir::Desc,
    );
    let units: Vec<u64> = page.iter().map(|r| r.units).collect();
    assert_eq!(units, vec![70, 60]);
}

#[test]
fn empty_result_returns_explanatory_message() {
    let store = MemStore::new();
    let q = HistoryQuery {
        page: None,
        limit: None,
        range: None,
        units_gt: None,
        sort_field: None,
        order: None,
    };
    match read_history(&store, &q) {
        HistoryReply::Empty { message } => {
            assert_eq!(message, "no data found in the database for the given params");
        }
        HistoryReply::Data { .. } => panic!("expected the empty envelope"),
    }
}

#[test]
fn limit_is_clamped_to_max_page_size() {
    let store = populated_store();
    let q = HistoryQuery {
        page: Some(0),
        limit: Some(100000),
        range: None,
        units_gt: None,
        sort_field: None,
        order: None,
    };
    match read_history(&store, &q) {
        HistoryReply::Data { intervals, .. } => {
            assert_eq!(intervals.len(), 100);
        }
        HistoryReply::Empty { .. } => panic!("expected a page of data"),
    }
}

#[test]
fn window_filter_is_inclusive_containment() {
    let store = populated_store();
    let filter = ReadFilter {
        time_range: Some(TimeRange { start: 3600, end: 5 * 3600 }),
        min_units: None,
    };
    let page = get_runepool_units_history_rocksdb(&store, 100, 0, &filter);
    // contained intervals: [3600,7200), [7200,10800), [10800,14400), [14400,18000)
    assert_eq!(page.len(), 4);
    assert!(page.iter().all(|r| r.start_time >= 3600 && r.end_time <= 5 * 3600));
}

#[test]
fn min_units_filter_is_strict() {
    let mut store = MemStore::new();
    store_postgres_intervals(&mut store, &vec![iv(0, 1, 1, 120), iv(1, 2, 2, 121)]);
    let filter = ReadFilter { time_range: None, min_units: Some(120) };
    let page = get_runepool_units_history_rocksdb(&store, 10, 0, &filter);
    assert_eq!(page.len(), 1);
    assert_eq!(page[0].units, 121);
}

#[test]
fn scan_read_skips_offset_matches() {
    let store = populated_store();
    let page = get_runepool_units_history_rocksdb(&store, 5, 100, &ReadFilter::none());
    assert_eq!(page.len(), 5);
    assert_eq!(page[0].start_time, 100 * 3600);
}
