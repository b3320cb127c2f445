use runepool_replicator::levelstore::{get_runepool_units_history_leveldb, store_level_intervals};
use runepool_replicator::store::{ReadFilter, TimeRange};
use runepool_replicator::Interval;

fn iv(start: u64, end: u64, count: u64, units: u64) -> Interval {
    Interval::new(start, end, count, units)
}

fn open_store(name: &str) -> rusty_leveldb::DB {
    rusty_leveldb::DB::open(name, rusty_leveldb::in_memory()).expect("in-memory store opens")
}

#[test]
fn stores_and_reads_back_a_batch() {
    let mut db = open_store("batch");
    let batch = vec![iv(0, 3600, 10, 100), iv(3600, 7200, 12, 150)];
    let n = store_level_intervals(&mut db, &batch).expect("write succeeds");
    assert_eq!(n, 2);

    let page = get_runepool_units_history_leveldb(&mut db, 10, 0, &ReadFilter::none())
        .expect("read succeeds");
    assert_eq!(page.len(), 2);
    assert!(page.contains(&batch[0]));
    assert!(page.contains(&batch[1]));
}

#[test]
fn second_replication_of_the_same_batch_writes_nothing() {
    let mut db = open_store("dedup");
    let batch = vec![iv(0, 3600, 10, 100), iv(3600, 7200, 12, 150)];
    assert_eq!(store_level_intervals(&mut db, &batch).unwrap(), 2);
    // the existence check finds every key: exactly one stored copy per key
    assert_eq!(store_level_intervals(&mut db, &batch).unwrap(), 0);
    let page = get_runepool_units_history_leveldb(&mut db, 10, 0, &ReadFilter::none()).unwrap();
    assert_eq!(page.len(), 2);
}

#[test]
fn scan_read_applies_filters_in_line() {
    let mut db = open_store("filters");
    let batch = vec![
        iv(0, 3600, 10, 100),
        iv(3600, 7200, 12, 150),
        iv(7200, 10800, 14, 90),
    ];
    store_level_intervals(&mut db, &batch).unwrap();

    let filter = ReadFilter { time_range: None, min_units: Some(120) };
    let page = get_runepool_units_history_leveldb(&mut db, 10, 0, &filter).unwrap();
    assert_eq!(page.len(), 1);
    assert_eq!(page[0], iv(3600, 7200, 12, 150));

    let window = ReadFilter {
        time_range: Some(TimeRange { start: 0, end: 7200 }),
        min_units: None,
    };
    let page = get_runepool_units_history_leveldb(&mut db, 10, 0, &window).unwrap();
    assert_eq!(page.len(), 2);
}

#[test]
fn read_honors_limit_and_offset_in_key_order() {
    let mut db = open_store("paging");
    // keys "0:3600", "10800:14400", "3600:7200", "7200:10800" sort bytewise
    let batch = vec![
        iv(0, 3600, 1, 1),
        iv(3600, 7200, 2, 2),
        iv(7200, 10800, 3, 3),
        iv(10800, 14400, 4, 4),
    ];
    store_level_intervals(&mut db, &batch).unwrap();
    let all = get_runepool_units_history_leveldb(&mut db, 10, 0, &ReadFilter::none()).unwrap();
    assert_eq!(all.len(), 4);
    let second_page =
        get_runepool_units_history_leveldb(&mut db, 2, 2, &ReadFilter::none()).unwrap();
    assert_eq!(second_page.len(), 2);
    assert_eq!(second_page[0], all[2]);
    assert_eq!(second_page[1], all[3]);
}
