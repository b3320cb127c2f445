//! The fan-out write coordinator: one batch, every configured backend.
//!
//! The coordinator walks all five adapter slots, writes the batch into each
//! configured one, and aggregates the per-store outcomes all-or-nothing: any
//! adapter failure fails the whole call, while the writes that already
//! succeeded are never rolled back (eventual consistency per store, no
//! cross-store transaction). An unconfigured adapter is a skip — success
//! with zero written — not an error. The adapters run to completion
//! regardless of each other's outcome, so the result does not depend on the
//! order they finish in.

use vstd::prelude::*;

use crate::interval::{all_wf, Interval};
use crate::levelstore::{kv_batch_written, ldb_contents, store_level_intervals};
use crate::memstore::{write_count, write_model, MemStore};
use crate::store::StoreError;

verus! {

/// The five conceptual backends of the replication fan-out.
#[derive(Clone, Copy, Debug, PartialEq, Eq, Structural)]
pub enum StoreId {
    /// The relational store.
    Relational,
    /// The document store.
    Document,
    /// The on-disk ordered key-value store.
    OrderedKvA,
    /// The second ordered key-value store.
    OrderedKvB,
    /// The remote-query-language store.
    RemoteQuery,
}

impl StoreId {
    /// Whether the backend serves filtered, sorted reads natively. The
    /// ordered key-value stores only scan in key order, so a sort request
    /// against them is not honored and callers can warn or reject instead
    /// of silently ignoring it.
    pub fn supports_native_filter_sort(self) -> (r: bool)
        ensures
            r == !(self == StoreId::OrderedKvA || self == StoreId::OrderedKvB),
    {
        match self {
            StoreId::OrderedKvA => false,
            StoreId::OrderedKvB => false,
            _ => true,
        }
    }
}

/// One adapter's result for one batch.
#[derive(Clone, Copy, Debug)]
pub struct ReplicationOutcome {
    pub store_id: StoreId,
    /// How many records the adapter newly stored; zero for a skipped
    /// (unconfigured) adapter.
    pub written_count: usize,
    /// The adapter's failure, if it had one. Unavailability is not one.
    pub error: Option<StoreError>,
}

/// The aggregate failure of a replication call.
#[derive(Clone, Copy, Debug, PartialEq, Eq, Structural)]
pub enum ReplicationError {
    /// At least one configured adapter failed; the other adapters' writes
    /// stand.
    StoreFailed,
}

/// All outcomes of a batch are error-free.
pub open spec fn all_ok(outcomes: Seq<ReplicationOutcome>) -> bool {
    forall|i: int| 0 <= i < outcomes.len() ==> (#[trigger] outcomes[i]).error is None
}

/// The explicit registry of backend connections, constructed at startup. A
/// `None` slot is a backend that was never configured: a valid, non-fatal
/// state in which that adapter skips its work.
pub struct BackendRegistry {
    pub relational: Option<MemStore>,
    pub document: Option<MemStore>,
    pub ordered_a: Option<rusty_leveldb::DB>,
    pub ordered_b: Option<MemStore>,
    pub remote: Option<MemStore>,
}

impl BackendRegistry {
    pub open spec fn inv(self) -> bool {
        &&& match self.relational {
            Some(s) => s.inv(),
            None => true,
        }
        &&& match self.document {
            Some(s) => s.inv(),
            None => true,
        }
        &&& match self.ordered_b {
            Some(s) => s.inv(),
            None => true,
        }
        &&& match self.remote {
            Some(s) => s.inv(),
            None => true,
        }
    }

    /// A registry with no backend configured.
    pub fn unconfigured() -> (r: BackendRegistry)
        ensures
            r.relational is None,
            r.document is None,
            r.ordered_a is None,
            r.ordered_b is None,
            r.remote is None,
            r.inv(),
    {
        BackendRegistry {
            relational: None,
            document: None,
            ordered_a: None,
            ordered_b: None,
            remote: None,
        }
    }
}

/// What one in-memory adapter slot guarantees for a batch: a skip when
/// unconfigured, otherwise the deduplicating write with its exact count.
pub open spec fn mem_slot_written(
    pre: Option<MemStore>,
    post: Option<MemStore>,
    batch: Seq<Interval>,
    outcome: ReplicationOutcome,
) -> bool {
    match pre {
        None => post is None && outcome.written_count == 0 && outcome.error is None,
        Some(s) => match post {
            Some(s2) => s2@ == write_model(s@, batch) && s2.inv() && outcome.written_count
                == write_count(s@, batch) && outcome.error is None,
            None => false,
        },
    }
}

/// What the on-disk key-value slot guarantees for a batch.
pub open spec fn level_slot_written(
    pre: Option<rusty_leveldb::DB>,
    post: Option<rusty_leveldb::DB>,
    batch: Seq<Interval>,
    outcome: ReplicationOutcome,
) -> bool {
    match pre {
        None => post is None && outcome.written_count == 0 && outcome.error is None,
        Some(db) => match post {
            Some(db2) => match outcome.error {
                None => kv_batch_written(ldb_contents(db), batch, ldb_contents(db2))
                    && outcome.written_count <= batch.len(),
                Some(e) => e == StoreError::WriteFailed,
            },
            None => false,
        },
    }
}

/// A whole batch write over the registry: some outcome vector ties the five
/// slots' new states to their old ones, and the aggregate verdict is success
/// exactly when none of them erred.
pub open spec fn replication_applied(
    pre: BackendRegistry,
    post: BackendRegistry,
    batch: Seq<Interval>,
    ok: bool,
) -> bool {
    exists|outcomes: Seq<ReplicationOutcome>|
        {
            &&& outcomes.len() == 5
            &&& mem_slot_written(pre.relational, post.relational, batch, outcomes[0])
            &&& mem_slot_written(pre.document, post.document, batch, outcomes[1])
            &&& level_slot_written(pre.ordered_a, post.ordered_a, batch, outcomes[2])
            &&& mem_slot_written(pre.ordered_b, post.ordered_b, batch, outcomes[3])
            &&& mem_slot_written(pre.remote, post.remote, batch, outcomes[4])
            &&& (ok <==> all_ok(outcomes))
        }
}

/// Fans the batch out to every configured adapter and reports one outcome
/// per store. Every adapter runs to completion whatever the others did.
pub fn replicate(reg: &mut BackendRegistry, intervals: &Vec<Interval>) -> (outcomes: Vec<
    ReplicationOutcome,
>)
    requires
        old(reg).inv(),
        all_wf(intervals@),
    ensures
        final(reg).inv(),
        outcomes@.len() == 5,
        outcomes@[0].store_id == StoreId::Relational,
        outcomes@[1].store_id == StoreId::Document,
        outcomes@[2].store_id == StoreId::OrderedKvA,
        outcomes@[3].store_id == StoreId::OrderedKvB,
        outcomes@[4].store_id == StoreId::RemoteQuery,
        mem_slot_written(old(reg).relational, final(reg).relational, intervals@, outcomes@[0]),
        mem_slot_written(old(reg).document, final(reg).document, intervals@, outcomes@[1]),
        level_slot_written(old(reg).ordered_a, final(reg).ordered_a, intervals@, outcomes@[2]),
        mem_slot_written(old(reg).ordered_b, final(reg).ordered_b, intervals@, outcomes@[3]),
        mem_slot_written(old(reg).remote, final(reg).remote, intervals@, outcomes@[4]),
        old(reg).ordered_a is None ==> all_ok(outcomes@),
{
    let mut outcomes: Vec<ReplicationOutcome> = Vec::new();

    let relational_outcome = match &mut reg.relational {
        Some(s) => {
            let n = s.write_batch(intervals);
            ReplicationOutcome { store_id: StoreId::Relational, written_count: n, error: None }
        },
        None => ReplicationOutcome { store_id: StoreId::Relational, written_count: 0, error: None },
    };
    outcomes.push(relational_outcome);

    let document_outcome = match &mut reg.document {
        Some(s) => {
            let n = s.write_batch(intervals);
            ReplicationOutcome { store_id: StoreId::Document, written_count: n, error: None }
        },
        None => ReplicationOutcome { store_id: StoreId::Document, written_count: 0, error: None },
    };
    outcomes.push(document_outcome);

    let ordered_a_outcome = match &mut reg.ordered_a {
        Some(db) => match store_level_intervals(db, intervals) {
            Ok(n) => ReplicationOutcome {
                store_id: StoreId::OrderedKvA,
                written_count: n,
                error: None,
            },
            Err(e) => ReplicationOutcome {
                store_id: StoreId::OrderedKvA,
                written_count: 0,
                error: Some(e),
            },
        },
        None => ReplicationOutcome { store_id: StoreId::OrderedKvA, written_count: 0, error: None },
    };
    outcomes.push(ordered_a_outcome);

    let ordered_b_outcome = match &mut reg.ordered_b {
        Some(s) => {
            let n = s.write_batch(intervals);
            ReplicationOutcome { store_id: StoreId::OrderedKvB, written_count: n, error: None }
        },
        None => ReplicationOutcome { store_id: StoreId::OrderedKvB, written_count: 0, error: None },
    };
    outcomes.push(ordered_b_outcome);

    let remote_outcome = match &mut reg.remote {
        Some(s) => {
            let n = s.write_batch(intervals);
            ReplicationOutcome { store_id: StoreId::RemoteQuery, written_count: n, error: None }
        },
        None => ReplicationOutcome {
            store_id: StoreId::RemoteQuery,
            written_count: 0,
            error: None,
        },
    };
    outcomes.push(remote_outcome);

    outcomes
}

/// Collapses per-store outcomes all-or-nothing: success exactly when no
/// adapter reported an error.
pub fn aggregate_outcomes(outcomes: &Vec<ReplicationOutcome>) -> (r: Result<(), ReplicationError>)
    ensures
        r is Ok <==> all_ok(outcomes@),
        r is Err ==> r == Err::<(), ReplicationError>(ReplicationError::StoreFailed),
{
    let mut i: usize = 0;
    while i < outcomes.len()
        invariant
            0 <= i <= outcomes.len(),
            forall|k: int| 0 <= k < i ==> (#[trigger] outcomes@[k]).error is None,
        decreases outcomes.len() - i,
    {
        if outcomes[i].error.is_some() {
            return Err(ReplicationError::StoreFailed);
        }
        i += 1;
    }
    Ok(())
}

/// Replicates a batch into every configured backend and fails as a whole if
/// any adapter failed, without undoing the writes that succeeded. Only the
/// on-disk key-value adapter can fail here, so an aggregate error implies it
/// was configured; with it unconfigured the call always succeeds however
/// many other adapters are skipped.
pub fn store_intervals(reg: &mut BackendRegistry, intervals: &Vec<Interval>) -> (r: Result<
    (),
    ReplicationError,
>)
    requires
        old(reg).inv(),
        all_wf(intervals@),
    ensures
        final(reg).inv(),
        replication_applied(*old(reg), *final(reg), intervals@, r is Ok),
        old(reg).ordered_a is None ==> r is Ok,
        r is Err ==> r == Err::<(), ReplicationError>(ReplicationError::StoreFailed),
{
    let outcomes = replicate(reg, intervals);
    let r = aggregate_outcomes(&outcomes);
    proof {
        let w = outcomes@;
        assert(w.len() == 5 && (r is Ok <==> all_ok(w)));
        assert(replication_applied(*old(reg), *reg, intervals@, r is Ok));
    }
    r
}

/// All-or-nothing aggregation: if any one adapter's outcome carries an
/// error — even exactly one, with every other adapter's write already
/// persisted — the batch does not aggregate to success.
pub proof fn lemma_all_or_nothing(outcomes: Seq<ReplicationOutcome>, i: int)
    requires
        0 <= i < outcomes.len(),
        outcomes[i].error is Some,
    ensures
        !all_ok(outcomes),
{
}

/// Partial availability: however many adapters are unconfigured, a batch
/// write over a registry whose only fallible adapter — the on-disk
/// key-value store — is unconfigured aggregates to success: an
/// unconfigured adapter is a skip, never a failure.
pub proof fn lemma_partial_availability(
    pre: BackendRegistry,
    post: BackendRegistry,
    batch: Seq<Interval>,
    ok: bool,
)
    requires
        replication_applied(pre, post, batch, ok),
        pre.ordered_a is None,
    ensures
        ok,
{
    let outcomes = choose|outcomes: Seq<ReplicationOutcome>|
        {
            &&& outcomes.len() == 5
            &&& mem_slot_written(pre.relational, post.relational, batch, outcomes[0])
            &&& mem_slot_written(pre.document, post.document, batch, outcomes[1])
            &&& level_slot_written(pre.ordered_a, post.ordered_a, batch, outcomes[2])
            &&& mem_slot_written(pre.ordered_b, post.ordered_b, batch, outcomes[3])
            &&& mem_slot_written(pre.remote, post.remote, batch, outcomes[4])
            &&& (ok <==> all_ok(outcomes))
        };
    assert forall|i: int| 0 <= i < outcomes.len() implies (#[trigger] outcomes[i]).error
        is None by {
        if i == 0 || i == 1 || i == 3 || i == 4 {
        } else {
            assert(outcomes[2].error is None);
        }
    }
}

} // verus!
