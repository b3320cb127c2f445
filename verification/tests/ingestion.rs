use runepool_replicator::coordinator::BackendRegistry;
use runepool_replicator::cursor::{IngestionCursor, INITIAL_FETCH_EPOCH};
use runepool_replicator::fetch::{
    classify_body, BodyClass, FetchEvent, FetchRequest, FetchSession, FetchStep, RetryPolicy,
};
use runepool_replicator::ingest::{hourly_due, run_cycle};
use runepool_replicator::memstore::MemStore;
use runepool_replicator::store::ReadFilter;
use runepool_replicator::Interval;

fn iv(start: u64, end: u64, count: u64, units: u64) -> Interval {
    Interval::new(start, end, count, units)
}

#[test]
fn cursor_starts_at_the_fixed_epoch() {
    let cursor = IngestionCursor::new();
    assert_eq!(cursor.last_fetch_time(), INITIAL_FETCH_EPOCH);
    assert_eq!(INITIAL_FETCH_EPOCH, 1648771200);
}

#[test]
fn cursor_never_moves_backward() {
    let mut cursor = IngestionCursor::at(1000);
    cursor.advance_to(500);
    assert_eq!(cursor.last_fetch_time(), 1000);
    cursor.advance_to(2000);
    assert_eq!(cursor.last_fetch_time(), 2000);
    cursor.advance_to(2000);
    assert_eq!(cursor.last_fetch_time(), 2000);
}

#[test]
fn empty_fetch_does_not_advance_the_cursor() {
    let mut reg = BackendRegistry {
        relational: Some(MemStore::new()),
        document: None,
        ordered_a: None,
        ordered_b: None,
        remote: None,
    };
    let mut cursor = IngestionCursor::at(7200);
    let r = run_cycle(&mut reg, &mut cursor, &Vec::new());
    assert!(r.is_ok());
    assert_eq!(cursor.last_fetch_time(), 7200);
}

#[test]
fn fetch_then_replicate_advances_cursor_and_serves_filtered_read() {
    // upstream intervals: [{0,3600,10,100}, {3600,7200,12,150}]
    let upstream = vec![iv(0, 3600, 10, 100), iv(3600, 7200, 12, 150)];

    // fetch(from=0, count=2): the session accepts the parsed payload
    let request = FetchRequest::incremental(2, 0);
    assert_eq!(request.count, 2);
    let mut session = FetchSession::new(RetryPolicy::unbounded());
    let batch = match session.on_event(FetchEvent::Parsed(upstream)) {
        FetchStep::Accept(batch) => batch,
        _ => panic!("a parsed payload is accepted"),
    };

    // replicate, then the cursor moves to the last interval's end boundary
    let mut reg = BackendRegistry {
        relational: None,
        document: Some(MemStore::new()),
        ordered_a: None,
        ordered_b: None,
        remote: None,
    };
    let mut cursor = IngestionCursor::at(0);
    let r = run_cycle(&mut reg, &mut cursor, &batch);
    assert!(r.is_ok());
    assert_eq!(cursor.last_fetch_time(), 7200);

    // a read with min_units=120 returns only the second interval
    let filter = ReadFilter { time_range: None, min_units: Some(120) };
    let page = reg.document.as_ref().unwrap().scan_read(&filter, 10, 0);
    assert_eq!(page.len(), 1);
    assert_eq!(page[0], iv(3600, 7200, 12, 150));
}

#[test]
fn throttle_marker_in_body_is_detected() {
    assert_eq!(
        classify_body(&b"please slow down and retry".to_vec()),
        BodyClass::Throttled
    );
    assert_eq!(classify_body(&b"slow down".to_vec()), BodyClass::Throttled);
    assert_eq!(
        classify_body(&b"{\"intervals\":[]}".to_vec()),
        BodyClass::Payload
    );
    assert_eq!(classify_body(&b"slow".to_vec()), BodyClass::Payload);
    assert_eq!(classify_body(&Vec::new()), BodyClass::Payload);
}

#[test]
fn two_throttles_then_a_valid_payload_yield_the_payload() {
    let mut session = FetchSession::new(RetryPolicy::unbounded());

    // first throttled response: retry after the fixed delay
    match session.on_event(FetchEvent::Throttled) {
        FetchStep::Sleep(secs) => assert_eq!(secs, 5),
        _ => panic!("a throttled response is retried"),
    }
    // second throttled response: retried again, no backoff growth
    match session.on_event(FetchEvent::Throttled) {
        FetchStep::Sleep(secs) => assert_eq!(secs, 5),
        _ => panic!("a throttled response is retried"),
    }
    // the valid payload is the final result
    let payload = vec![iv(0, 3600, 1, 2)];
    match session.on_event(FetchEvent::Parsed(payload.clone())) {
        FetchStep::Accept(batch) => assert_eq!(batch, payload),
        _ => panic!("the valid payload is accepted"),
    }
}

#[test]
fn every_failure_class_is_retried_alike() {
    let mut session = FetchSession::new(RetryPolicy::unbounded());
    assert!(matches!(
        session.on_event(FetchEvent::TransportFailed),
        FetchStep::Sleep(5)
    ));
    assert!(matches!(
        session.on_event(FetchEvent::ParseFailed),
        FetchStep::Sleep(5)
    ));
    assert!(matches!(
        session.on_event(FetchEvent::Throttled),
        FetchStep::Sleep(5)
    ));
}

#[test]
fn bounded_policy_gives_up_after_its_budget() {
    let mut session = FetchSession::new(RetryPolicy::bounded(2, 1));
    assert!(matches!(
        session.on_event(FetchEvent::TransportFailed),
        FetchStep::Sleep(1)
    ));
    assert!(matches!(
        session.on_event(FetchEvent::TransportFailed),
        FetchStep::Sleep(1)
    ));
    assert!(matches!(
        session.on_event(FetchEvent::TransportFailed),
        FetchStep::GiveUp
    ));
}

#[test]
fn incremental_request_renders_cursor_query_pairs() {
    let pairs = FetchRequest::incremental(400, 1648771200).query_pairs();
    let rendered: Vec<(String, String)> = pairs;
    assert_eq!(rendered.len(), 3);
    assert_eq!(rendered[0], ("interval".to_string(), "hour".to_string()));
    assert_eq!(rendered[1], ("count".to_string(), "400".to_string()));
    assert_eq!(rendered[2], ("from".to_string(), "1648771200".to_string()));
}

#[test]
fn latest_hour_request_is_bounded() {
    let pairs = FetchRequest::latest_hour(7200).query_pairs();
    assert_eq!(pairs.len(), 4);
    assert_eq!(pairs[1], ("count".to_string(), "1".to_string()));
    assert_eq!(pairs[2], ("from".to_string(), "3600".to_string()));
    assert_eq!(pairs[3], ("to".to_string(), "7200".to_string()));
}

#[test]
fn initial_request_has_no_cursor() {
    let pairs = FetchRequest::initial(400).query_pairs();
    assert_eq!(pairs.len(), 2);
}

#[test]
fn hourly_schedule_fires_after_a_full_hour() {
    assert!(!hourly_due(1000, 0));
    assert!(hourly_due(3600, 0));
    assert!(hourly_due(7201, 3600));
    assert!(!hourly_due(7199, 3600));
    assert!(!hourly_due(0, 3600));
}
