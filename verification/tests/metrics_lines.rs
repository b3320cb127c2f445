use runepool_replicator::metrics::{
    log_db_operation_metrics, operation_message, DatabaseOperation, DatabaseType, OperationMetrics,
};

#[test]
fn finished_measurement_renders_the_expected_line() {
    let m = OperationMetrics::new(
        DatabaseType::MongoDB,
        DatabaseOperation::Write,
        5,
        "runepool units".to_string(),
    );
    // 1 minute, 5 seconds, 250 milliseconds
    let line = m.message_for(65250);
    assert_eq!(
        line,
        "Time taken for MongoDB to write runepool units data (5 records) : 1m 5s 250ms"
    );
}

#[test]
fn read_measurement_names_the_backend_and_operation() {
    let m = OperationMetrics::new(
        DatabaseType::LevelDB,
        DatabaseOperation::Read,
        0,
        "rune pool history".to_string(),
    );
    let line = m.message_for(999);
    assert_eq!(
        line,
        "Time taken for LevelDB to read rune pool history data (0 records) : 0m 0s 999ms"
    );
}

#[test]
fn finish_reports_a_line_of_the_same_shape() {
    let m = OperationMetrics::new(
        DatabaseType::Postgres,
        DatabaseOperation::Write,
        2,
        "runepool units".to_string(),
    );
    let line = m.finish();
    assert!(line.starts_with("Time taken for Postgres to write runepool units data (2 records) : "));
    assert!(line.ends_with("ms"));
}

#[test]
fn operation_line_renders_duration_in_millis() {
    let line = operation_message("read_intervals_10_records", 42);
    assert_eq!(line, "Database Operation: read_intervals_10_records, Duration: 42ms");
}

#[test]
fn logged_operation_uses_the_clock() {
    let line = log_db_operation_metrics("read_intervals_0_records", 0);
    assert!(line.starts_with("Database Operation: read_intervals_0_records, Duration: "));
    assert!(line.ends_with("ms"));
}
