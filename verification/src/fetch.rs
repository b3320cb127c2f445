//! The upstream fetcher's decisions: how a request is framed, how a
//! response body is classified, and when a failed call is retried.
//!
//! The transport itself — the HTTP round trip and the JSON envelope decode —
//! is the caller's: it hands back one `FetchEvent` per attempt and performs
//! the `FetchStep` it is told. Rate limiting is detected content-wise, by a
//! throttle marker substring in the raw body, before any parse is attempted.

use vstd::prelude::*;

use crate::interval::Interval;
use crate::text::{dec_chars, u64_to_string};

verus! {

/// The frame of one upstream fetch: always hourly buckets, the requested
/// count, `from` when the cursor has a position, and `to` only for a
/// bounded pull of the latest hour — incremental polling leaves `to` out
/// and fetches from the cursor to now.
#[derive(Clone, Copy, Debug, PartialEq, Eq, Structural)]
pub struct FetchRequest {
    pub count: u32,
    pub from: Option<u64>,
    pub to: Option<u64>,
}

/// The views of rendered query pairs.
pub open spec fn pairs_view(r: Seq<(String, String)>) -> Seq<(Seq<char>, Seq<char>)> {
    r.map_values(|p: (String, String)| (p.0@, p.1@))
}

/// The query pairs a request renders to, in order.
pub open spec fn query_pairs_spec(req: FetchRequest) -> Seq<(Seq<char>, Seq<char>)> {
    seq![("interval"@, "hour"@), ("count"@, dec_chars(req.count as nat))] + (match req.from {
        Some(t) => seq![("from"@, dec_chars(t as nat))],
        None => Seq::<(Seq<char>, Seq<char>)>::empty(),
    }) + (match req.to {
        Some(t) => seq![("to"@, dec_chars(t as nat))],
        None => Seq::<(Seq<char>, Seq<char>)>::empty(),
    })
}

impl FetchRequest {
    /// The one-time backfill request: a plain count, no cursor, no bound.
    pub fn initial(count: u32) -> (r: FetchRequest)
        ensures
            r == (FetchRequest { count, from: None::<u64>, to: None::<u64> }),
    {
        FetchRequest { count, from: None, to: None }
    }

    /// An incremental poll from the cursor forward; `to` stays open.
    pub fn incremental(count: u32, from: u64) -> (r: FetchRequest)
        ensures
            r == (FetchRequest { count, from: Some(from), to: None::<u64> }),
    {
        FetchRequest { count, from: Some(from), to: None }
    }

    /// The bounded pull of the last hour before `now`.
    pub fn latest_hour(now: u64) -> (r: FetchRequest)
        requires
            now >= 3600,
        ensures
            r == (FetchRequest { count: 1u32, from: Some((now - 3600) as u64), to: Some(now) }),
    {
        FetchRequest { count: 1, from: Some(now - 3600), to: Some(now) }
    }

    /// Renders the request as query pairs for the upstream history call.
    pub fn query_pairs(&self) -> (r: Vec<(String, String)>)
        ensures
            pairs_view(r@) == query_pairs_spec(*self),
    {
        let mut r: Vec<(String, String)> = Vec::new();
        r.push((String::from_str("interval"), String::from_str("hour")));
        r.push((String::from_str("count"), u64_to_string(self.count as u64)));
        match self.from {
            Some(t) => {
                r.push((String::from_str("from"), u64_to_string(t)));
            },
            None => {},
        }
        match self.to {
            Some(t) => {
                r.push((String::from_str("to"), u64_to_string(t)));
            },
            None => {},
        }
        proof {
            assert(pairs_view(r@) =~= query_pairs_spec(*self));
        }
        r
    }
}

// `"slow down"`, the upstream throttle marker, as ASCII codes.
pub open spec fn throttle_marker() -> Seq<u8> {
    seq![115u8, 108u8, 111u8, 119u8, 32u8, 100u8, 111u8, 119u8, 110u8]
}

fn marker_bytes() -> (r: Vec<u8>)
    ensures
        r@ == throttle_marker(),
{
    let mut v: Vec<u8> = Vec::new();
    v.push(115);
    v.push(108);
    v.push(111);
    v.push(119);
    v.push(32);
    v.push(100);
    v.push(111);
    v.push(119);
    v.push(110);
    assert(v@ =~= throttle_marker());
    v
}

/// The throttle marker occurs at position `i` of `body`.
pub open spec fn has_marker_at(body: Seq<u8>, i: int) -> bool {
    0 <= i && i + throttle_marker().len() <= body.len() && body.subrange(
        i,
        i + throttle_marker().len() as int,
    ) == throttle_marker()
}

/// The body signals upstream throttling: the marker occurs somewhere in it.
pub open spec fn is_throttled(body: Seq<u8>) -> bool {
    exists|i: int| has_marker_at(body, i)
}

/// How a raw response body is to be treated.
#[derive(Clone, Copy, Debug, PartialEq, Eq, Structural)]
pub enum BodyClass {
    /// The body holds the throttle marker: retry later, do not parse.
    Throttled,
    /// An ordinary payload, to be parsed as the interval envelope.
    Payload,
}

/// Classifies a raw response body by scanning it for the throttle marker.
pub fn classify_body(body: &Vec<u8>) -> (r: BodyClass)
    ensures
        r == BodyClass::Throttled <==> is_throttled(body@),
{
    let marker = marker_bytes();
    if body.len() < marker.len() {
        proof {
            assert forall|i: int| !has_marker_at(body@, i) by {}
        }
        return BodyClass::Payload;
    }
    let last_start = body.len() - marker.len();
    let mut i: usize = 0;
    while i <= last_start
        invariant
            marker@ == throttle_marker(),
            marker@.len() <= body@.len(),
            body@.len() <= usize::MAX,
            last_start == body@.len() - marker@.len(),
            0 <= i <= last_start + 1,
            forall|k: int| 0 <= k < i ==> !has_marker_at(body@, k),
        decreases last_start + 1 - i,
    {
        let mut m: usize = 0;
        while m < marker.len() && body[i + m] == marker[m]
            invariant
                marker@ == throttle_marker(),
                i + marker@.len() <= body@.len(),
                body@.len() <= usize::MAX,
                0 <= m <= marker@.len(),
                forall|q: int| 0 <= q < m ==> body@[i + q] == marker@[q],
            decreases marker.len() - m,
        {
            m += 1;
        }
        if m == marker.len() {
            proof {
                assert(body@.subrange(i as int, i + marker@.len() as int) =~= marker@);
                assert(has_marker_at(body@, i as int));
            }
            return BodyClass::Throttled;
        }
        proof {
            assert(body@[i + m] != marker@[m as int]);
            assert(!has_marker_at(body@, i as int)) by {
                if has_marker_at(body@, i as int) {
                    assert(body@.subrange(i as int, i + marker@.len() as int)[m as int] == body@[i
                        + m]);
                }
            }
        }
        i += 1;
    }
    proof {
        assert forall|k: int| !has_marker_at(body@, k) by {
            if 0 <= k && k + throttle_marker().len() <= body@.len() {
                assert(k <= last_start as int);
            }
        }
    }
    BodyClass::Payload
}

/// When and how often a failed fetch is retried. The default mirrors the
/// upstream behaviour this system was built around: retry forever with a
/// fixed delay. A bounded policy is the explicit, overridable knob.
#[derive(Clone, Copy, Debug, PartialEq, Eq, Structural)]
pub struct RetryPolicy {
    /// Give up after this many failed attempts; `None` retries forever.
    pub max_attempts: Option<u32>,
    /// The fixed delay before the next attempt, in seconds.
    pub delay_secs: u64,
}

impl RetryPolicy {
    /// The default policy: retry forever, five seconds between attempts.
    pub fn unbounded() -> (r: RetryPolicy)
        ensures
            r == (RetryPolicy { max_attempts: None::<u32>, delay_secs: 5u64 }),
    {
        RetryPolicy { max_attempts: None, delay_secs: 5 }
    }

    /// A policy that gives up after `max_attempts` failures.
    pub fn bounded(max_attempts: u32, delay_secs: u64) -> (r: RetryPolicy)
        ensures
            r == (RetryPolicy { max_attempts: Some(max_attempts), delay_secs }),
    {
        RetryPolicy { max_attempts: Some(max_attempts), delay_secs }
    }
}

/// Whether a policy still allows another attempt after `attempts` failures.
pub open spec fn policy_allows(p: RetryPolicy, attempts: u32) -> bool {
    match p.max_attempts {
        None => true,
        Some(m) => attempts < m,
    }
}

/// One attempt's result, as observed by the transport around this module.
pub enum FetchEvent {
    /// The request did not complete (connection refused, timeout).
    TransportFailed,
    /// The body carried the throttle marker.
    Throttled,
    /// The body did not parse as the interval envelope.
    ParseFailed,
    /// A parsed batch of intervals.
    Parsed(Vec<Interval>),
}

/// What the transport is to do next.
pub enum FetchStep {
    /// Sleep this many seconds, then retry the same request.
    Sleep(u64),
    /// The retry budget is exhausted; surface the failure.
    GiveUp,
    /// The fetch succeeded with this batch.
    Accept(Vec<Interval>),
}

/// The retry state of one logical fetch: how many attempts have failed so
/// far under which policy.
pub struct FetchSession {
    pub policy: RetryPolicy,
    pub attempts: u32,
}

impl FetchSession {
    pub fn new(policy: RetryPolicy) -> (r: FetchSession)
        ensures
            r.policy == policy,
            r.attempts == 0,
    {
        FetchSession { policy, attempts: 0 }
    }

    /// Decides the next step from one attempt's outcome: a parsed payload is
    /// accepted; every failure — throttling, a malformed body, a transport
    /// fault — is retried after the fixed delay while the policy allows it,
    /// with no distinction between failure classes.
    pub fn on_event(&mut self, event: FetchEvent) -> (step: FetchStep)
        ensures
            match event {
                FetchEvent::Parsed(batch) => step == FetchStep::Accept(batch) && *final(self)
                    == *old(self),
                _ => {
                    &&& final(self).policy == old(self).policy
                    &&& final(self).attempts == if old(self).attempts < u32::MAX {
                        old(self).attempts + 1
                    } else {
                        old(self).attempts as int
                    }
                    &&& step == if policy_allows(old(self).policy, old(self).attempts) {
                        FetchStep::Sleep(old(self).policy.delay_secs)
                    } else {
                        FetchStep::GiveUp
                    }
                },
            },
    {
        match event {
            FetchEvent::Parsed(batch) => FetchStep::Accept(batch),
            _ => {
                let allowed = match self.policy.max_attempts {
                    None => true,
                    Some(m) => self.attempts < m,
                };
                if self.attempts < u32::MAX {
                    self.attempts = self.attempts + 1;
                }
                if allowed {
                    FetchStep::Sleep(self.policy.delay_secs)
                } else {
                    FetchStep::GiveUp
                }
            },
        }
    }
}

} // verus!
