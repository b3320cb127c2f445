use runepool_replicator::coordinator::{
    aggregate_outcomes, replicate, store_intervals, BackendRegistry, ReplicationError,
    ReplicationOutcome, StoreId,
};
use runepool_replicator::memstore::MemStore;
use runepool_replicator::store::StoreError;
use runepool_replicator::Interval;

fn iv(start: u64, end: u64, count: u64, units: u64) -> Interval {
    Interval::new(start, end, count, units)
}

fn sample_batch() -> Vec<Interval> {
    vec![iv(0, 3600, 10, 100), iv(3600, 7200, 12, 150)]
}

#[test]
fn dedup_idempotence_on_memstore() {
    let mut store = MemStore::new();
    let batch = sample_batch();
    assert_eq!(store.write_batch(&batch), 2);
    // replicating the same batch again stores nothing new
    assert_eq!(store.write_batch(&batch), 0);
    assert_eq!(store.len(), 2);
}

#[test]
fn duplicate_natural_keys_within_a_batch_store_once() {
    let mut store = MemStore::new();
    let batch = vec![iv(0, 3600, 10, 100), iv(0, 3600, 99, 999)];
    assert!(batch[0].same_key(&batch[1]));
    assert_eq!(store.write_batch(&batch), 1);
    assert_eq!(store.len(), 1);
}

#[test]
fn distinct_natural_keys_are_not_deduplicated() {
    let a = iv(0, 3600, 1, 1);
    let b = iv(0, 7200, 1, 1);
    assert!(!a.same_key(&b));
    let mut store = MemStore::new();
    assert_eq!(store.write_batch(&vec![a, b]), 2);
    assert!(store.contains_key(0, 3600));
    assert!(store.contains_key(0, 7200));
    assert!(!store.contains_key(3600, 7200));
}

#[test]
fn partial_availability_two_of_five_unconfigured() {
    // document and remote never initialized: a valid, non-fatal state
    let mut reg = BackendRegistry {
        relational: Some(MemStore::new()),
        document: None,
        ordered_a: None,
        ordered_b: Some(MemStore::new()),
        remote: None,
    };
    let r = store_intervals(&mut reg, &sample_batch());
    assert!(r.is_ok());
    assert_eq!(reg.relational.as_ref().unwrap().len(), 2);
    assert_eq!(reg.ordered_b.as_ref().unwrap().len(), 2);
    assert!(reg.document.is_none());
}

#[test]
fn fully_unconfigured_registry_still_reports_success() {
    // a caller-visible risk by design: success even though zero stores
    // durably persisted the batch
    let mut reg = BackendRegistry::unconfigured();
    assert!(store_intervals(&mut reg, &sample_batch()).is_ok());
}

#[test]
fn replicate_reports_one_outcome_per_store() {
    let mut reg = BackendRegistry {
        relational: Some(MemStore::new()),
        document: Some(MemStore::new()),
        ordered_a: None,
        ordered_b: None,
        remote: None,
    };
    let outcomes = replicate(&mut reg, &sample_batch());
    assert_eq!(outcomes.len(), 5);
    assert!(matches!(outcomes[0].store_id, StoreId::Relational));
    assert!(matches!(outcomes[4].store_id, StoreId::RemoteQuery));
    assert_eq!(outcomes[0].written_count, 2);
    assert_eq!(outcomes[1].written_count, 2);
    // skipped adapters report success with zero written
    assert_eq!(outcomes[2].written_count, 0);
    assert!(outcomes[2].error.is_none());
}

#[test]
fn all_or_nothing_single_failure_fails_the_aggregate() {
    let ok = |id: StoreId, n: usize| ReplicationOutcome {
        store_id: id,
        written_count: n,
        error: None,
    };
    let outcomes = vec![
        ok(StoreId::Relational, 2),
        ok(StoreId::Document, 2),
        ReplicationOutcome {
            store_id: StoreId::OrderedKvA,
            written_count: 0,
            error: Some(StoreError::WriteFailed),
        },
        ok(StoreId::OrderedKvB, 2),
        ok(StoreId::RemoteQuery, 2),
    ];
    assert_eq!(
        aggregate_outcomes(&outcomes),
        Err(ReplicationError::StoreFailed)
    );
}

#[test]
fn only_scan_backends_lack_native_filter_sort() {
    assert!(StoreId::Relational.supports_native_filter_sort());
    assert!(StoreId::Document.supports_native_filter_sort());
    assert!(StoreId::RemoteQuery.supports_native_filter_sort());
    assert!(!StoreId::OrderedKvA.supports_native_filter_sort());
    assert!(!StoreId::OrderedKvB.supports_native_filter_sort());
}

#[test]
fn aggregate_of_error_free_outcomes_is_success() {
    let outcomes = vec![
        ReplicationOutcome { store_id: StoreId::Relational, written_count: 0, error: None },
        ReplicationOutcome { store_id: StoreId::Document, written_count: 3, error: None },
    ];
    assert_eq!(aggregate_outcomes(&outcomes), Ok(()));
}
