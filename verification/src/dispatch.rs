//! The decisions of the dispatch service: how a reply is classified, when a
//! request is sent again and after what delay, and what becomes of each
//! document.

use vstd::arithmetic::power2::{lemma_pow2_pos, lemma_pow2_strictly_increases, lemma_pow2_unfold,
    pow2};
use vstd::prelude::*;

verus! {

/// Why a document was given up.
#[derive(Clone, Copy, Debug, PartialEq, Eq, Hash, Structural)]
pub enum DropReason {
    /// The event could not be turned into a document.
    TransformFailed,
    /// The document could not be written into a request body.
    EncodingFailed,
    /// The destination refused the request with a status that is not worth
    /// another try.
    Rejected,
    /// The destination accepted the request and refused this document.
    ItemFailed,
    /// The reply did not hold one result for each document sent.
    MalformedResponse,
    /// The last try allowed has failed.
    RetriesExhausted,
    /// The sink was shut down before the request completed.
    ShutdownTimeout,
}

/// What became of a document.
#[derive(Clone, Copy, Debug, PartialEq, Eq, Hash, Structural)]
pub enum Disposition {
    Delivered,
    Dropped(DropReason),
    /// Sent again; not final.
    Retried,
}

impl Disposition {
    /// Delivered and dropped are final; retried is not.
    pub open spec fn terminal(self) -> bool {
        self != Disposition::Retried
    }

    /// Tells whether the disposition is final.
    pub fn is_terminal(self) -> (t: bool)
        ensures
            t == self.terminal(),
    {
        match self {
            Disposition::Retried => false,
            _ => true,
        }
    }
}

/// How a failed attempt is classified.
#[derive(Clone, Copy, Debug, PartialEq, Eq, Hash, Structural)]
pub enum RetryDecision {
    /// Worth another try, after a delay.
    Retryable,
    /// Another try would fail the same way.
    NonRetryable,
    /// Worth another try, but none is left.
    Exhausted,
}

/// A failed attempt.
#[derive(Clone, Copy, Debug, PartialEq, Eq, Hash, Structural)]
pub enum Failure {
    /// The destination answered with a status outside 200 to 299.
    Status(u16),
    /// No answer: a timeout or a lost connection.
    Network,
}

/// Whether a status reports success: 200 to 299.
pub open spec fn status_ok(status: u16) -> bool {
    200 <= status <= 299
}

/// Whether a failure may pass: no answer at all, too many requests (429),
/// or a fault on the destination's side (500 to 599).
pub open spec fn transient(failure: Failure) -> bool {
    match failure {
        Failure::Network => true,
        Failure::Status(status) => status == 429 || 500 <= status <= 599,
    }
}

/// How often a request is retried and how long it waits.
#[derive(Clone, Copy, Debug, PartialEq, Eq, Structural)]
pub struct RetryPolicy {
    /// The number of retries after the first attempt.
    pub max_retries: u32,
    /// The delay before the first retry.
    pub initial_backoff_ms: u64,
    /// The longest delay.
    pub max_backoff_ms: u64,
    /// Whether documents that the destination refused one by one are sent
    /// again.
    pub retry_partial: bool,
}

/// The delay before the retry that follows attempt number `attempt`
/// (counted from 0): the initial delay doubled once for each earlier
/// attempt, and never more than the longest delay.
pub open spec fn backoff_delay(policy: RetryPolicy, attempt: nat) -> nat {
    if policy.initial_backoff_ms * pow2(attempt) <= policy.max_backoff_ms {
        (policy.initial_backoff_ms * pow2(attempt)) as nat
    } else {
        policy.max_backoff_ms as nat
    }
}

/// The classification of a failure on attempt number `attempt`.
pub open spec fn decision(policy: RetryPolicy, failure: Failure, attempt: u32) -> RetryDecision {
    if !transient(failure) {
        RetryDecision::NonRetryable
    } else if attempt >= policy.max_retries {
        RetryDecision::Exhausted
    } else {
        RetryDecision::Retryable
    }
}

proof fn lemma_double(a: nat, b: nat)
    ensures
        a * (2 * b) == 2 * (a * b),
{
    assert(a * (2 * b) == 2 * (a * b)) by (nonlinear_arith);
}

proof fn lemma_scale_grows(a: nat, b: nat, c: nat)
    requires
        a >= 1,
        b <= c,
    ensures
        a * b <= a * c,
{
    assert(a * b <= a * c) by (nonlinear_arith)
        requires
            a >= 1,
            b <= c,
    ;
}

impl RetryPolicy {
    /// Classifies a failed attempt.
    pub fn classify(&self, failure: Failure, attempt: u32) -> (d: RetryDecision)
        ensures
            d == decision(*self, failure, attempt),
    {
        let passing = match failure {
            Failure::Network => true,
            Failure::Status(status) => status == 429 || (500 <= status && status <= 599),
        };
        if !passing {
            RetryDecision::NonRetryable
        } else if attempt >= self.max_retries {
            RetryDecision::Exhausted
        } else {
            RetryDecision::Retryable
        }
    }

    /// The delay before the retry that follows attempt number `attempt`.
    pub fn backoff(&self, attempt: u32) -> (delay: u64)
        ensures
            delay == backoff_delay(*self, attempt as nat),
    {
        let initial: u64 = self.initial_backoff_ms;
        let max: u64 = self.max_backoff_ms;
        proof {
            lemma_pow2_pos(attempt as nat);
            vstd::arithmetic::power2::lemma2_to64();
        }
        if initial == 0 {
            assert(initial * pow2(attempt as nat) == 0) by (nonlinear_arith)
                requires
                    initial == 0,
            ;
            return 0;
        }
        let mut d: u64 = if initial <= max {
            initial
        } else {
            max
        };
        let mut k: u32 = 0;
        while k < attempt && d < max
            invariant
                k <= attempt,
                initial >= 1,
                initial == self.initial_backoff_ms,
                max == self.max_backoff_ms,
                d == backoff_delay(*self, k as nat),
            decreases attempt - k,
        {
            proof {
                lemma_pow2_unfold((k + 1) as nat);
                lemma_double(initial as nat, pow2(k as nat));
            }
            d = if d > max - d {
                max
            } else {
                d + d
            };
            k += 1;
        }
        proof {
            if k < attempt {
                lemma_pow2_strictly_increases(k as nat, attempt as nat);
                lemma_scale_grows(initial as nat, pow2(k as nat), pow2(attempt as nat));
            }
        }
        d
    }
}

/// The final word on one document of a batch.
#[derive(Clone, Copy, Debug, PartialEq, Eq, Structural)]
pub struct Settled {
    /// The document's position in its batch.
    pub position: usize,
    pub disposition: Disposition,
}

/// What came back for a request.
#[derive(Clone, Debug, PartialEq, Eq)]
pub enum Reply {
    /// An answer with a status and, where the protocol reports each
    /// document, one status for each document sent, in the order sent.
    Status { status: u16, items: Option<Vec<u16>> },
    /// No answer: a timeout or a lost connection.
    NetworkError,
    /// The sink was shut down and the time to drain has passed.
    ShutdownTimeout,
}

/// A request that has been sent: the positions, in their batch, of the
/// documents it carries, in the order sent, and the number of attempts that
/// have failed before.
#[derive(Clone, Debug, PartialEq, Eq)]
pub struct InFlight {
    pub positions: Vec<usize>,
    pub attempt: u32,
}

/// What to do after a reply.
#[derive(Clone, Debug, PartialEq, Eq)]
pub enum Next {
    /// Nothing is left to send.
    Done,
    /// Wait, then send the documents of `request` again.
    Retry { delay_ms: u64, request: InFlight },
}

/// What a reply settles and what follows.
#[derive(Clone, Debug, PartialEq, Eq)]
pub struct Outcome {
    pub settled: Vec<Settled>,
    pub next: Next,
}

/// A reply as a model value.
pub enum ReplyView {
    Status { status: u16, items: Option<Seq<u16>> },
    NetworkError,
    ShutdownTimeout,
}

impl View for Reply {
    type V = ReplyView;

    open spec fn view(&self) -> ReplyView {
        match self {
            Reply::Status { status, items } => ReplyView::Status {
                status: *status,
                items: match items {
                    Some(v) => Some(v@),
                    None => None,
                },
            },
            Reply::NetworkError => ReplyView::NetworkError,
            Reply::ShutdownTimeout => ReplyView::ShutdownTimeout,
        }
    }
}

/// A retry as a model value.
pub struct RetryView {
    pub delay_ms: u64,
    pub positions: Seq<usize>,
    pub attempt: u32,
}

/// An outcome as a model value.
pub struct OutcomeView {
    pub settled: Seq<Settled>,
    pub retry: Option<RetryView>,
}

impl View for Outcome {
    type V = OutcomeView;

    open spec fn view(&self) -> OutcomeView {
        OutcomeView {
            settled: self.settled@,
            retry: match self.next {
                Next::Done => None,
                Next::Retry { delay_ms, request } => Some(
                    RetryView { delay_ms, positions: request.positions@, attempt: request.attempt },
                ),
            },
        }
    }
}

/// Every position settled with the same disposition.
pub open spec fn settle_all(positions: Seq<usize>, disposition: Disposition) -> Seq<Settled> {
    Seq::new(positions.len(), |i: int| Settled { position: positions[i], disposition })
}

/// The positions whose document the destination refused, in order.
pub open spec fn refused(positions: Seq<usize>, items: Seq<u16>) -> Seq<usize>
    decreases positions.len(),
{
    if positions.len() == 0 {
        Seq::empty()
    } else {
        let rest = refused(positions.drop_last(), items);
        if status_ok(items[positions.len() - 1]) {
            rest
        } else {
            rest.push(positions.last())
        }
    }
}

/// What a reply with one status for each document settles: the accepted
/// documents are delivered; the refused ones are dropped for `reason`, or
/// left open where `reason` is `None`.
pub open spec fn settle_each(positions: Seq<usize>, items: Seq<u16>, reason: Option<DropReason>) -> Seq<
    Settled,
>
    decreases positions.len(),
{
    if positions.len() == 0 {
        Seq::empty()
    } else {
        let rest = settle_each(positions.drop_last(), items, reason);
        if status_ok(items[positions.len() - 1]) {
            rest.push(Settled { position: positions.last(), disposition: Disposition::Delivered })
        } else {
            match reason {
                Some(r) => rest.push(
                    Settled { position: positions.last(), disposition: Disposition::Dropped(r) },
                ),
                None => rest,
            }
        }
    }
}

/// What a failed attempt leads to: another try of all documents after the
/// backoff delay, or all documents dropped.
pub open spec fn after_failure(
    policy: RetryPolicy,
    positions: Seq<usize>,
    attempt: u32,
    failure: Failure,
) -> OutcomeView {
    match decision(policy, failure, attempt) {
        RetryDecision::Retryable => OutcomeView {
            settled: Seq::empty(),
            retry: Some(
                RetryView {
                    delay_ms: backoff_delay(policy, attempt as nat) as u64,
                    positions,
                    attempt: (attempt + 1) as u32,
                },
            ),
        },
        RetryDecision::NonRetryable => OutcomeView {
            settled: settle_all(positions, Disposition::Dropped(DropReason::Rejected)),
            retry: None,
        },
        RetryDecision::Exhausted => OutcomeView {
            settled: settle_all(positions, Disposition::Dropped(DropReason::RetriesExhausted)),
            retry: None,
        },
    }
}

/// What a reply with one status for each document leads to. The refused
/// documents are dropped, unless refused documents are retried and a try is
/// left: then they alone are sent again.
pub open spec fn after_items(
    policy: RetryPolicy,
    positions: Seq<usize>,
    attempt: u32,
    items: Seq<u16>,
) -> OutcomeView {
    if items.len() != positions.len() {
        OutcomeView {
            settled: settle_all(positions, Disposition::Dropped(DropReason::MalformedResponse)),
            retry: None,
        }
    } else if !policy.retry_partial {
        OutcomeView {
            settled: settle_each(positions, items, Some(DropReason::ItemFailed)),
            retry: None,
        }
    } else if attempt >= policy.max_retries {
        OutcomeView {
            settled: settle_each(positions, items, Some(DropReason::RetriesExhausted)),
            retry: None,
        }
    } else if refused(positions, items).len() == 0 {
        OutcomeView { settled: settle_each(positions, items, None), retry: None }
    } else {
        OutcomeView {
            settled: settle_each(positions, items, None),
            retry: Some(
                RetryView {
                    delay_ms: backoff_delay(policy, attempt as nat) as u64,
                    positions: refused(positions, items),
                    attempt: (attempt + 1) as u32,
                },
            ),
        }
    }
}

/// What a reply leads to, for a request that carries the documents at
/// `positions` and has failed `attempt` times before.
pub open spec fn after_reply(
    policy: RetryPolicy,
    positions: Seq<usize>,
    attempt: u32,
    reply: ReplyView,
) -> OutcomeView {
    match reply {
        ReplyView::ShutdownTimeout => OutcomeView {
            settled: settle_all(positions, Disposition::Dropped(DropReason::ShutdownTimeout)),
            retry: None,
        },
        ReplyView::NetworkError => after_failure(policy, positions, attempt, Failure::Network),
        ReplyView::Status { status, items } => if !status_ok(status) {
            after_failure(policy, positions, attempt, Failure::Status(status))
        } else {
            match items {
                None => OutcomeView {
                    settled: settle_all(positions, Disposition::Delivered),
                    retry: None,
                },
                Some(items) => after_items(policy, positions, attempt, items),
            }
        },
    }
}

/// Settles every position with the same disposition.
pub fn settle_with(positions: &Vec<usize>, disposition: Disposition) -> (settled: Vec<Settled>)
    ensures
        settled@ == settle_all(positions@, disposition),
{
    let mut settled: Vec<Settled> = Vec::new();
    let mut i: usize = 0;
    while i < positions.len()
        invariant
            i <= positions.len(),
            settled@ == settle_all(positions@.take(i as int), disposition),
        decreases positions.len() - i,
    {
        settled.push(Settled { position: positions[i], disposition });
        proof {
            assert(settled@ =~= settle_all(positions@.take(i + 1), disposition));
        }
        i += 1;
    }
    proof {
        assert(positions@.take(positions.len() as int) == positions@);
    }
    settled
}

fn fail(policy: &RetryPolicy, request: InFlight, failure: Failure) -> (out: Outcome)
    ensures
        out@ == after_failure(*policy, request.positions@, request.attempt, failure),
{
    match policy.classify(failure, request.attempt) {
        RetryDecision::Retryable => {
            let delay_ms = policy.backoff(request.attempt);
            Outcome {
                settled: Vec::new(),
                next: Next::Retry {
                    delay_ms,
                    request: InFlight { positions: request.positions, attempt: request.attempt + 1 },
                },
            }
        },
        RetryDecision::NonRetryable => Outcome {
            settled: settle_with(&request.positions, Disposition::Dropped(DropReason::Rejected)),
            next: Next::Done,
        },
        RetryDecision::Exhausted => Outcome {
            settled: settle_with(
                &request.positions,
                Disposition::Dropped(DropReason::RetriesExhausted),
            ),
            next: Next::Done,
        },
    }
}

fn settle_items(positions: &Vec<usize>, items: &Vec<u16>, reason: Option<DropReason>) -> (out: (
    Vec<Settled>,
    Vec<usize>,
))
    requires
        items.len() == positions.len(),
    ensures
        out.0@ == settle_each(positions@, items@, reason),
        out.1@ == refused(positions@, items@),
{
    let mut settled: Vec<Settled> = Vec::new();
    let mut again: Vec<usize> = Vec::new();
    let mut i: usize = 0;
    while i < positions.len()
        invariant
            i <= positions.len(),
            items.len() == positions.len(),
            settled@ == settle_each(positions@.take(i as int), items@, reason),
            again@ == refused(positions@.take(i as int), items@),
        decreases positions.len() - i,
    {
        proof {
            assert(positions@.take(i + 1).drop_last() == positions@.take(i as int));
            assert(positions@.take(i + 1).last() == positions@[i as int]);
        }
        let code: u16 = items[i];
        if 200 <= code && code <= 299 {
            settled.push(Settled { position: positions[i], disposition: Disposition::Delivered });
        } else {
            again.push(positions[i]);
            match reason {
                Some(r) => {
                    settled.push(
                        Settled { position: positions[i], disposition: Disposition::Dropped(r) },
                    );
                },
                None => {},
            }
        }
        i += 1;
    }
    proof {
        assert(positions@.take(positions.len() as int) == positions@);
    }
    (settled, again)
}

fn answer_items(policy: &RetryPolicy, request: InFlight, items: &Vec<u16>) -> (out: Outcome)
    ensures
        out@ == after_items(*policy, request.positions@, request.attempt, items@),
{
    if items.len() != request.positions.len() {
        return Outcome {
            settled: settle_with(
                &request.positions,
                Disposition::Dropped(DropReason::MalformedResponse),
            ),
            next: Next::Done,
        };
    }
    if !policy.retry_partial {
        let (settled, _) = settle_items(&request.positions, items, Some(DropReason::ItemFailed));
        return Outcome { settled, next: Next::Done };
    }
    if request.attempt >= policy.max_retries {
        let (settled, _) = settle_items(
            &request.positions,
            items,
            Some(DropReason::RetriesExhausted),
        );
        return Outcome { settled, next: Next::Done };
    }
    let (settled, again) = settle_items(&request.positions, items, None);
    if again.len() == 0 {
        Outcome { settled, next: Next::Done }
    } else {
        let delay_ms = policy.backoff(request.attempt);
        Outcome {
            settled,
            next: Next::Retry {
                delay_ms,
                request: InFlight { positions: again, attempt: request.attempt + 1 },
            },
        }
    }
}

/// Decides what a reply means for a request: which documents are settled,
/// and whether some are sent again and after what delay.
pub fn on_reply(policy: &RetryPolicy, request: InFlight, reply: &Reply) -> (out: Outcome)
    ensures
        out@ == after_reply(*policy, request.positions@, request.attempt, reply@),
{
    match reply {
        Reply::ShutdownTimeout => Outcome {
            settled: settle_with(
                &request.positions,
                Disposition::Dropped(DropReason::ShutdownTimeout),
            ),
            next: Next::Done,
        },
        Reply::NetworkError => fail(policy, request, Failure::Network),
        Reply::Status { status, items } => {
            if *status < 200 || *status > 299 {
                fail(policy, request, Failure::Status(*status))
            } else {
                match items {
                    None => Outcome {
                        settled: settle_with(&request.positions, Disposition::Delivered),
                        next: Next::Done,
                    },
                    Some(items) => answer_items(policy, request, items),
                }
            }
        },
    }
}

/// Settles every position as dropped for the same reason.
pub fn drop_all(positions: &Vec<usize>, reason: DropReason) -> (settled: Vec<Settled>)
    ensures
        settled@ == settle_all(positions@, Disposition::Dropped(reason)),
{
    settle_with(positions, Disposition::Dropped(reason))
}

/// The time by which a drain that starts at `now_ms` must be over; the
/// latest time that can be held where the sum is too large.
pub fn drain_deadline(now_ms: u64, timeout_ms: u64) -> (deadline_ms: u64)
    ensures
        deadline_ms == if now_ms + timeout_ms <= u64::MAX {
            (now_ms + timeout_ms) as u64
        } else {
            u64::MAX
        },
{
    match now_ms.checked_add(timeout_ms) {
        Some(deadline) => deadline,
        None => u64::MAX,
    }
}

/// The time that is left for a request: none to wait for where there is no
/// deadline, and nothing where the deadline has passed.
pub fn time_left(now_ms: u64, deadline_ms: Option<u64>) -> (left: Option<u64>)
    ensures
        left == match deadline_ms {
            Some(deadline) => Some(
                if deadline >= now_ms {
                    (deadline - now_ms) as u64
                } else {
                    0u64
                },
            ),
            None => None,
        },
{
    match deadline_ms {
        Some(deadline) => Some(
            if deadline >= now_ms {
                deadline - now_ms
            } else {
                0
            },
        ),
        None => None,
    }
}

/// Whether a request that is about to be sent at `now_ms` has run out of
/// time: there is a deadline and it has passed. Such a request is not sent;
/// it counts as answered by a shutdown timeout.
pub fn timed_out(now_ms: u64, deadline_ms: Option<u64>) -> (late: bool)
    ensures
        late == (deadline_ms matches Some(deadline) && now_ms > deadline),
{
    match deadline_ms {
        Some(deadline) => now_ms > deadline,
        None => false,
    }
}

/// A limit on the number of requests in flight at one time.
#[derive(Clone, Copy, Debug, PartialEq, Eq, Structural)]
pub struct Limiter {
    limit: usize,
    in_flight: usize,
}

impl Limiter {
    /// The most requests that may be in flight.
    pub closed spec fn limit(&self) -> nat {
        self.limit as nat
    }

    /// The requests in flight.
    pub closed spec fn in_flight(&self) -> nat {
        self.in_flight as nat
    }

    /// Never more requests are in flight than the limit allows.
    pub open spec fn wf(&self) -> bool {
        self.in_flight() <= self.limit()
    }

    /// A limiter with nothing in flight.
    pub fn new(limit: usize) -> (limiter: Limiter)
        ensures
            limiter.wf(),
            limiter.limit() == limit,
            limiter.in_flight() == 0,
    {
        Limiter { limit, in_flight: 0 }
    }

    /// Takes a slot for one more request, where one is free.
    pub fn try_acquire(&mut self) -> (taken: bool)
        requires
            old(self).wf(),
        ensures
            final(self).wf(),
            final(self).limit() == old(self).limit(),
            taken == (old(self).in_flight() < old(self).limit()),
            final(self).in_flight() == if taken {
                old(self).in_flight() + 1
            } else {
                old(self).in_flight()
            },
    {
        if self.in_flight < self.limit {
            self.in_flight = self.in_flight + 1;
            true
        } else {
            false
        }
    }

    /// Gives a slot back; with nothing in flight, nothing changes.
    pub fn release(&mut self)
        requires
            old(self).wf(),
        ensures
            final(self).wf(),
            final(self).limit() == old(self).limit(),
            final(self).in_flight() == if old(self).in_flight() > 0 {
                old(self).in_flight() - 1
            } else {
                0
            },
    {
        if self.in_flight > 0 {
            self.in_flight = self.in_flight - 1;
        }
    }

    /// The number of requests in flight.
    pub fn active(&self) -> (n: usize)
        ensures
            n == self.in_flight(),
    {
        self.in_flight
    }
}

} // verus!
