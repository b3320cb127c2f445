//! Timing and record-count instrumentation around every store operation.
//!
//! The clock is the only outside dependency; the rendering of a finished
//! measurement into its log line is verified exactly, with the elapsed time
//! as an argument. Writing the line to a file or a log sink is the
//! caller's.

use vstd::prelude::*;

use crate::text::{dec_chars, u64_to_string};

verus! {

#[derive(Clone, Copy, Debug, PartialEq, Eq, Structural)]
pub enum DatabaseOperation {
    Read,
    Write,
}

#[derive(Clone, Copy, Debug, PartialEq, Eq, Structural)]
pub enum DatabaseType {
    MongoDB,
    Postgres,
    SurrealDB,
    LevelDB,
    RocksDB,
}

/// Relies on `std::time::SystemTime::now`: milliseconds since the Unix
/// epoch. Nothing is promised of the clock's value.
#[verifier::external_body]
fn now_millis() -> u64 {
    match std::time::SystemTime::now().duration_since(std::time::UNIX_EPOCH) {
        Ok(d) => u64::try_from(d.as_millis()).unwrap_or(u64::MAX),
        Err(_) => 0,
    }
}

pub open spec fn db_label(t: DatabaseType) -> Seq<char> {
    match t {
        DatabaseType::MongoDB => "MongoDB"@,
        DatabaseType::Postgres => "Postgres"@,
        DatabaseType::SurrealDB => "SurrealDB"@,
        DatabaseType::LevelDB => "LevelDB"@,
        DatabaseType::RocksDB => "RocksDB"@,
    }
}

pub open spec fn op_label(o: DatabaseOperation) -> Seq<char> {
    match o {
        DatabaseOperation::Read => "read"@,
        DatabaseOperation::Write => "write"@,
    }
}

/// The log line of a finished measurement that took `elapsed_ms`
/// milliseconds.
pub open spec fn metrics_message(
    db_type: DatabaseType,
    operation: DatabaseOperation,
    record_count: nat,
    data_type: Seq<char>,
    elapsed_ms: nat,
) -> Seq<char> {
    "Time taken for "@ + db_label(db_type) + " to "@ + op_label(operation) + " "@ + data_type
        + " data ("@ + dec_chars(record_count) + " records) : "@ + dec_chars(
        elapsed_ms / 1000 / 60,
    ) + "m "@ + dec_chars((elapsed_ms / 1000) % 60) + "s "@ + dec_chars(elapsed_ms % 1000) + "ms"@
}

/// One timed store operation: what ran, over how many records, started
/// when.
pub struct OperationMetrics {
    pub db_type: DatabaseType,
    pub operation: DatabaseOperation,
    pub record_count: usize,
    pub data_type: String,
    /// When the measurement started, milliseconds since the epoch.
    pub started_ms: u64,
}

impl OperationMetrics {
    /// Starts a measurement at the current clock.
    pub fn new(
        db_type: DatabaseType,
        operation: DatabaseOperation,
        record_count: usize,
        data_type: String,
    ) -> (r: OperationMetrics)
        ensures
            r.db_type == db_type,
            r.operation == operation,
            r.record_count == record_count,
            r.data_type == data_type,
    {
        OperationMetrics { db_type, operation, record_count, data_type, started_ms: now_millis() }
    }

    /// Renders the measurement's log line for a known elapsed time.
    pub fn message_for(&self, elapsed_ms: u64) -> (r: String)
        ensures
            r@ == metrics_message(
                self.db_type,
                self.operation,
                self.record_count as nat,
                self.data_type@,
                elapsed_ms as nat,
            ),
    {
        let mut s = String::from_str("Time taken for ");
        let db: &'static str = match self.db_type {
            DatabaseType::MongoDB => "MongoDB",
            DatabaseType::Postgres => "Postgres",
            DatabaseType::SurrealDB => "SurrealDB",
            DatabaseType::LevelDB => "LevelDB",
            DatabaseType::RocksDB => "RocksDB",
        };
        s.append(db);
        s.append(" to ");
        let op: &'static str = match self.operation {
            DatabaseOperation::Read => "read",
            DatabaseOperation::Write => "write",
        };
        s.append(op);
        s.append(" ");
        s.append(self.data_type.as_str());
        s.append(" data (");
        let count_str = u64_to_string(self.record_count as u64);
        s.append(count_str.as_str());
        s.append(" records) : ");
        let mins = u64_to_string(elapsed_ms / 1000 / 60);
        s.append(mins.as_str());
        s.append("m ");
        let secs = u64_to_string((elapsed_ms / 1000) % 60);
        s.append(secs.as_str());
        s.append("s ");
        let millis = u64_to_string(elapsed_ms % 1000);
        s.append(millis.as_str());
        s.append("ms");
        proof {
            assert(s@ =~= metrics_message(
                self.db_type,
                self.operation,
                self.record_count as nat,
                self.data_type@,
                elapsed_ms as nat,
            ));
        }
        s
    }

    /// Ends the measurement and returns its log line; the elapsed time
    /// comes from the clock, so only the line's shape is pinned.
    pub fn finish(self) -> (r: String)
        ensures
            exists|elapsed_ms: nat|
                r@ == metrics_message(
                    self.db_type,
                    self.operation,
                    self.record_count as nat,
                    self.data_type@,
                    elapsed_ms,
                ),
    {
        let now = now_millis();
        let elapsed = if now >= self.started_ms {
            now - self.started_ms
        } else {
            0
        };
        let r = self.message_for(elapsed);
        proof {
            assert(r@ == metrics_message(
                self.db_type,
                self.operation,
                self.record_count as nat,
                self.data_type@,
                elapsed as nat,
            ));
        }
        r
    }
}

/// The log line of one named database operation that took `elapsed_ms`
/// milliseconds.
pub open spec fn operation_log_line(operation: Seq<char>, elapsed_ms: nat) -> Seq<char> {
    "Database Operation: "@ + operation + ", Duration: "@ + dec_chars(elapsed_ms) + "ms"@
}

/// Renders the log line of one named operation for a known elapsed time.
pub fn operation_message(operation: &str, elapsed_ms: u64) -> (r: String)
    ensures
        r@ == operation_log_line(operation@, elapsed_ms as nat),
{
    let mut s = String::from_str("Database Operation: ");
    s.append(operation);
    s.append(", Duration: ");
    let d = u64_to_string(elapsed_ms);
    s.append(d.as_str());
    s.append("ms");
    proof {
        assert(s@ =~= operation_log_line(operation@, elapsed_ms as nat));
    }
    s
}

/// Ends a measurement started at `started_ms` (milliseconds since the
/// epoch, as `OperationMetrics` records it) and returns the operation's log
/// line; the duration comes from the clock.
pub fn log_db_operation_metrics(operation: &str, started_ms: u64) -> (r: String)
    ensures
        exists|elapsed_ms: nat| r@ == operation_log_line(operation@, elapsed_ms),
{
    let now = now_millis();
    let elapsed = if now >= started_ms {
        now - started_ms
    } else {
        0
    };
    let r = operation_message(operation, elapsed);
    proof {
        assert(r@ == operation_log_line(operation@, elapsed as nat));
    }
    r
}

/// The current clock, for callers that start their own measurement.
pub fn current_millis() -> u64 {
    now_millis()
}

} // verus!
