//! What holds of every reply: no document is lost, none is settled twice,
//! and a retry that succeeds delivers each document once.

use crate::dispatch::{after_reply, backoff_delay, refused, settle_each, status_ok, transient,
    Disposition, DropReason, Failure, OutcomeView, ReplyView, RetryPolicy, RetryView, Settled};
use vstd::prelude::*;

verus! {

/// The number of documents an outcome sends again.
pub open spec fn resent(out: OutcomeView) -> nat {
    match out.retry {
        Some(r) => r.positions.len(),
        None => 0,
    }
}

proof fn lemma_settle_each(positions: Seq<usize>, items: Seq<u16>, reason: Option<DropReason>)
    requires
        items.len() == positions.len(),
    ensures
        settle_each(positions, items, reason).len() + (if reason.is_none() {
            refused(positions, items).len()
        } else {
            0
        }) == positions.len(),
        forall|i: int|
            0 <= i < settle_each(positions, items, reason).len() ==> (#[trigger] settle_each(
                positions,
                items,
                reason,
            )[i]).disposition.terminal(),
    decreases positions.len(),
{
    if positions.len() > 0 {
        let front = positions.drop_last();
        lemma_settle_each_prefix(front, items, items.take(front.len() as int), reason);
        lemma_settle_each(front, items.take(front.len() as int), reason);
        let all = settle_each(positions, items, reason);
        let rest = settle_each(front, items, reason);
        assert forall|i: int| 0 <= i < all.len() implies (#[trigger] all[i]).disposition.terminal() by {
            if i < rest.len() {
                assert(all[i] == rest[i]);
            }
        }
    }
}

/// Only the statuses of the documents sent are read.
proof fn lemma_settle_each_prefix(
    positions: Seq<usize>,
    items: Seq<u16>,
    short: Seq<u16>,
    reason: Option<DropReason>,
)
    requires
        positions.len() <= short.len() <= items.len(),
        forall|i: int| 0 <= i < short.len() ==> short[i] == items[i],
    ensures
        settle_each(positions, items, reason) == settle_each(positions, short, reason),
        refused(positions, items) == refused(positions, short),
    decreases positions.len(),
{
    if positions.len() > 0 {
        lemma_settle_each_prefix(positions.drop_last(), items, short, reason);
    }
}

/// Every reply accounts for every document of the request: each one is
/// either settled, with a final disposition, or sent again.
pub proof fn lemma_nothing_lost(
    policy: RetryPolicy,
    positions: Seq<usize>,
    attempt: u32,
    reply: ReplyView,
)
    ensures
        after_reply(policy, positions, attempt, reply).settled.len() + resent(
            after_reply(policy, positions, attempt, reply),
        ) == positions.len(),
        forall|i: int|
            0 <= i < after_reply(policy, positions, attempt, reply).settled.len() ==> (
            #[trigger] after_reply(policy, positions, attempt, reply).settled[i]).disposition.terminal(),
{
    match reply {
        ReplyView::Status { status, items } => {
            if status_ok(status) {
                match items {
                    Some(items) => {
                        if items.len() == positions.len() {
                            lemma_settle_each(positions, items, None);
                            lemma_settle_each(positions, items, Some(DropReason::ItemFailed));
                            lemma_settle_each(positions, items, Some(DropReason::RetriesExhausted));
                        }
                    },
                    None => {},
                }
            }
        },
        _ => {},
    }
}

/// A request that fails in passing and then succeeds delivers each of its
/// documents exactly once. The failure (no answer, 429, or 500 to 599, with
/// a try left) settles nothing and asks for all documents to be sent again
/// after the backoff delay; the success that follows settles one delivery
/// for each document, in order, and asks for nothing more.
pub proof fn lemma_retry_then_success(
    policy: RetryPolicy,
    positions: Seq<usize>,
    attempt: u32,
    failure: Failure,
    status: u16,
)
    requires
        transient(failure),
        attempt < policy.max_retries,
        status_ok(status),
    ensures
        ({
            let failed = match failure {
                Failure::Network => ReplyView::NetworkError,
                Failure::Status(s) => ReplyView::Status { status: s, items: None },
            };
            let first = after_reply(policy, positions, attempt, failed);
            let second = after_reply(
                policy,
                positions,
                (attempt + 1) as u32,
                ReplyView::Status { status, items: None },
            );
            &&& first.settled.len() == 0
            &&& first.retry == Some(
                RetryView {
                    delay_ms: backoff_delay(policy, attempt as nat) as u64,
                    positions,
                    attempt: (attempt + 1) as u32,
                },
            )
            &&& second.retry.is_none()
            &&& second.settled.len() == positions.len()
            &&& forall|i: int|
                0 <= i < positions.len() ==> #[trigger] second.settled[i] == (Settled {
                    position: positions[i],
                    disposition: Disposition::Delivered,
                })
        }),
{
}

/// With retries of refused documents switched off, a reply with one status
/// for each document settles every document at once: the accepted ones as
/// delivered, the refused ones as dropped.
pub proof fn lemma_partial_without_retry(
    policy: RetryPolicy,
    positions: Seq<usize>,
    attempt: u32,
    status: u16,
    items: Seq<u16>,
)
    requires
        !policy.retry_partial,
        status_ok(status),
        items.len() == positions.len(),
    ensures
        ({
            let out = after_reply(
                policy,
                positions,
                attempt,
                ReplyView::Status { status, items: Some(items) },
            );
            &&& out.retry.is_none()
            &&& out.settled.len() == positions.len()
            &&& forall|i: int|
                0 <= i < positions.len() ==> #[trigger] out.settled[i] == (Settled {
                    position: positions[i],
                    disposition: if status_ok(items[i]) {
                        Disposition::Delivered
                    } else {
                        Disposition::Dropped(DropReason::ItemFailed)
                    },
                })
        }),
    decreases positions.len(),
{
    let reason = Some(DropReason::ItemFailed);
    if positions.len() > 0 {
        let front = positions.drop_last();
        let short = items.take(front.len() as int);
        lemma_settle_each_prefix(front, items, short, reason);
        lemma_partial_without_retry(policy, front, attempt, status, short);
        let all = settle_each(positions, items, reason);
        let rest = settle_each(front, short, reason);
        assert forall|i: int| 0 <= i < positions.len() implies #[trigger] all[i] == (Settled {
            position: positions[i],
            disposition: if status_ok(items[i]) {
                Disposition::Delivered
            } else {
                Disposition::Dropped(DropReason::ItemFailed)
            },
        }) by {
            if i < front.len() {
                assert(all[i] == rest[i]);
                assert(front[i] == positions[i]);
                assert(short[i] == items[i]);
            }
        }
    }
}

/// With retries of refused documents switched on and a try left, only the
/// refused documents are sent again, in their order; the accepted ones are
/// settled as delivered and are not sent again.
pub proof fn lemma_partial_with_retry(
    policy: RetryPolicy,
    positions: Seq<usize>,
    attempt: u32,
    status: u16,
    items: Seq<u16>,
)
    requires
        policy.retry_partial,
        attempt < policy.max_retries,
        status_ok(status),
        items.len() == positions.len(),
    ensures
        ({
            let out = after_reply(
                policy,
                positions,
                attempt,
                ReplyView::Status { status, items: Some(items) },
            );
            &&& out.settled == settle_each(positions, items, None)
            &&& resent(out) == refused(positions, items).len()
            &&& out.settled.len() + refused(positions, items).len() == positions.len()
            &&& match out.retry {
                Some(r) => r.positions == refused(positions, items) && r.attempt == attempt + 1,
                None => refused(positions, items).len() == 0,
            }
            &&& forall|i: int|
                0 <= i < out.settled.len() ==> (#[trigger] out.settled[i]).disposition
                    == Disposition::Delivered
        }),
{
    lemma_settle_each(positions, items, None);
    lemma_delivered_only(positions, items);
}

proof fn lemma_delivered_only(positions: Seq<usize>, items: Seq<u16>)
    ensures
        forall|i: int|
            0 <= i < settle_each(positions, items, None).len() ==> (#[trigger] settle_each(
                positions,
                items,
                None,
            )[i]).disposition == Disposition::Delivered,
    decreases positions.len(),
{
    if positions.len() > 0 {
        lemma_delivered_only(positions.drop_last(), items);
        let all = settle_each(positions, items, None);
        let rest = settle_each(positions.drop_last(), items, None);
        assert forall|i: int| 0 <= i < all.len() implies (#[trigger] all[i]).disposition
            == Disposition::Delivered by {
            if i < rest.len() {
                assert(all[i] == rest[i]);
            }
        }
    }
}

} // verus!
