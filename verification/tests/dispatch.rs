use infino_sink::collector::{Acknowledgement, Collector, DropDiagnostic};
use infino_sink::dispatch::{
    drain_deadline, drop_all, on_reply, settle_with, time_left, timed_out, Disposition, DropReason,
    Failure, InFlight, Limiter, Next, Reply, RetryDecision, RetryPolicy, Settled,
};

fn policy(max_retries: u32, retry_partial: bool) -> RetryPolicy {
    RetryPolicy { max_retries, initial_backoff_ms: 100, max_backoff_ms: 1000, retry_partial }
}

fn request(positions: &[usize], attempt: u32) -> InFlight {
    InFlight { positions: positions.to_vec(), attempt }
}

fn status(status: u16) -> Reply {
    Reply::Status { status, items: None }
}

fn items(codes: &[u16]) -> Reply {
    Reply::Status { status: 200, items: Some(codes.to_vec()) }
}

fn settled(position: usize, disposition: Disposition) -> Settled {
    Settled { position, disposition }
}

#[test]
fn failures_are_classified_by_status() {
    let p = policy(3, false);
    for code in [429u16, 500, 502, 503, 504, 599] {
        assert_eq!(p.classify(Failure::Status(code), 0), RetryDecision::Retryable, "{}", code);
        assert_eq!(p.classify(Failure::Status(code), 3), RetryDecision::Exhausted, "{}", code);
    }
    for code in [400u16, 401, 403, 404, 409, 413, 428, 430, 499, 600, 100, 301, 0] {
        assert_eq!(p.classify(Failure::Status(code), 0), RetryDecision::NonRetryable, "{}", code);
        assert_eq!(p.classify(Failure::Status(code), 9), RetryDecision::NonRetryable, "{}", code);
    }
    assert_eq!(p.classify(Failure::Network, 2), RetryDecision::Retryable);
    assert_eq!(p.classify(Failure::Network, 3), RetryDecision::Exhausted);
    assert_eq!(policy(0, false).classify(Failure::Network, 0), RetryDecision::Exhausted);
}

#[test]
fn backoff_doubles_up_to_the_longest_delay() {
    let p = policy(10, false);
    assert_eq!(p.backoff(0), 100);
    assert_eq!(p.backoff(1), 200);
    assert_eq!(p.backoff(2), 400);
    assert_eq!(p.backoff(3), 800);
    assert_eq!(p.backoff(4), 1000);
    assert_eq!(p.backoff(5), 1000);
    assert_eq!(p.backoff(64), 1000);
    assert_eq!(p.backoff(u32::MAX), 1000);
}

#[test]
fn backoff_at_the_edges() {
    let none = RetryPolicy { max_retries: 1, initial_backoff_ms: 0, max_backoff_ms: 1000, retry_partial: false };
    assert_eq!(none.backoff(0), 0);
    assert_eq!(none.backoff(40), 0);
    let capped = RetryPolicy { max_retries: 1, initial_backoff_ms: 500, max_backoff_ms: 100, retry_partial: false };
    assert_eq!(capped.backoff(0), 100);
    assert_eq!(capped.backoff(7), 100);
    let zero = RetryPolicy { max_retries: 1, initial_backoff_ms: 5, max_backoff_ms: 0, retry_partial: false };
    assert_eq!(zero.backoff(3), 0);
    let wide = RetryPolicy { max_retries: 1, initial_backoff_ms: 3, max_backoff_ms: u64::MAX, retry_partial: false };
    assert_eq!(wide.backoff(62), 3 << 62);
    assert_eq!(wide.backoff(63), u64::MAX);
    assert_eq!(wide.backoff(200), u64::MAX);
    let one = RetryPolicy { max_retries: 1, initial_backoff_ms: 1, max_backoff_ms: u64::MAX, retry_partial: false };
    assert_eq!(one.backoff(63), 1 << 63);
    assert_eq!(one.backoff(64), u64::MAX);
}

#[test]
fn success_delivers_every_document() {
    let out = on_reply(&policy(3, false), request(&[0, 1, 2], 0), &status(200));
    assert_eq!(out.next, Next::Done);
    assert_eq!(
        out.settled,
        vec![
            settled(0, Disposition::Delivered),
            settled(1, Disposition::Delivered),
            settled(2, Disposition::Delivered)
        ]
    );
    let out = on_reply(&policy(3, false), request(&[4], 2), &status(299));
    assert_eq!(out.settled, vec![settled(4, Disposition::Delivered)]);
}

#[test]
fn a_503_is_retried_and_the_200_that_follows_delivers_each_document_once() {
    let p = policy(3, false);
    let first = on_reply(&p, request(&[0, 1, 2], 0), &status(503));
    assert!(first.settled.is_empty());
    let again = match first.next {
        Next::Retry { delay_ms, request } => {
            assert_eq!(delay_ms, 100);
            assert_eq!(request, InFlight { positions: vec![0, 1, 2], attempt: 1 });
            request
        }
        Next::Done => panic!("a 503 with retries left must be retried"),
    };
    let second = on_reply(&p, again, &status(200));
    assert_eq!(second.next, Next::Done);
    assert_eq!(second.settled.len(), 3);
    let mut collector = Collector::new(3);
    collector.record(&first.settled);
    assert_eq!(collector.acknowledgement(), None);
    collector.record(&second.settled);
    assert_eq!(collector.acknowledgement(), Some(Acknowledgement { delivered: 3, dropped: 0 }));
    for position in 0..3 {
        assert_eq!(
            second.settled.iter().filter(|s| s.position == position).count(),
            1
        );
        assert_eq!(collector.disposition(position), Some(Disposition::Delivered));
    }
    collector.record(&second.settled);
    assert_eq!(collector.acknowledgement(), Some(Acknowledgement { delivered: 3, dropped: 0 }));
}

#[test]
fn retries_back_off_and_run_out() {
    let p = policy(2, false);
    let mut request = request(&[0, 1], 0);
    let mut delays = Vec::new();
    let last = loop {
        let out = on_reply(&p, request, &Reply::NetworkError);
        match out.next {
            Next::Retry { delay_ms, request: next } => {
                assert!(out.settled.is_empty());
                delays.push(delay_ms);
                request = next;
            }
            Next::Done => break out,
        }
    };
    assert_eq!(delays, vec![100, 200]);
    assert_eq!(
        last.settled,
        vec![
            settled(0, Disposition::Dropped(DropReason::RetriesExhausted)),
            settled(1, Disposition::Dropped(DropReason::RetriesExhausted))
        ]
    );
}

#[test]
fn a_400_is_not_retried() {
    let out = on_reply(&policy(3, true), request(&[0, 1], 0), &status(400));
    assert_eq!(out.next, Next::Done);
    assert_eq!(
        out.settled,
        vec![
            settled(0, Disposition::Dropped(DropReason::Rejected)),
            settled(1, Disposition::Dropped(DropReason::Rejected))
        ]
    );
    let out = on_reply(&policy(3, true), request(&[0], 0), &status(429));
    assert!(matches!(out.next, Next::Retry { .. }));
}

#[test]
fn partial_failure_without_retry_settles_all_at_once() {
    let out = on_reply(&policy(3, false), request(&[0, 1, 2], 0), &items(&[201, 409, 200]));
    assert_eq!(out.next, Next::Done);
    assert_eq!(
        out.settled,
        vec![
            settled(0, Disposition::Delivered),
            settled(1, Disposition::Dropped(DropReason::ItemFailed)),
            settled(2, Disposition::Delivered)
        ]
    );
    let mut collector = Collector::new(3);
    collector.record(&out.settled);
    assert_eq!(collector.acknowledgement(), Some(Acknowledgement { delivered: 2, dropped: 1 }));
    assert_eq!(
        collector.diagnostics(),
        vec![DropDiagnostic { reason: DropReason::ItemFailed, count: 1 }]
    );
}

#[test]
fn partial_failure_with_retry_sends_the_failed_item_alone() {
    let p = policy(2, true);
    let mut collector = Collector::new(3);
    let first = on_reply(&p, request(&[0, 1, 2], 0), &items(&[200, 500, 200]));
    assert_eq!(
        first.settled,
        vec![settled(0, Disposition::Delivered), settled(2, Disposition::Delivered)]
    );
    collector.record(&first.settled);
    assert_eq!(collector.acknowledgement(), None);
    let again = match first.next {
        Next::Retry { delay_ms, request } => {
            assert_eq!(delay_ms, 100);
            assert_eq!(request, InFlight { positions: vec![1], attempt: 1 });
            request
        }
        Next::Done => panic!("the failed item must be sent again"),
    };
    let second = on_reply(&p, again, &items(&[429]));
    assert!(second.settled.is_empty());
    let again = match second.next {
        Next::Retry { delay_ms, request } => {
            assert_eq!(delay_ms, 200);
            assert_eq!(request, InFlight { positions: vec![1], attempt: 2 });
            request
        }
        Next::Done => panic!("one retry is left"),
    };
    let third = on_reply(&p, again, &items(&[429]));
    assert_eq!(third.next, Next::Done);
    assert_eq!(third.settled, vec![settled(1, Disposition::Dropped(DropReason::RetriesExhausted))]);
    collector.record(&second.settled);
    collector.record(&third.settled);
    assert_eq!(collector.acknowledgement(), Some(Acknowledgement { delivered: 2, dropped: 1 }));
}

#[test]
fn partial_retry_that_succeeds_delivers_the_rest() {
    let p = policy(2, true);
    let first = on_reply(&p, request(&[5, 6], 0), &items(&[404, 200]));
    let again = match first.next {
        Next::Retry { request, .. } => request,
        Next::Done => panic!("the failed item must be sent again"),
    };
    assert_eq!(again.positions, vec![5]);
    let second = on_reply(&p, again, &items(&[201]));
    assert_eq!(second.next, Next::Done);
    assert_eq!(second.settled, vec![settled(5, Disposition::Delivered)]);
}

#[test]
fn all_items_accepted_needs_no_retry() {
    let out = on_reply(&policy(2, true), request(&[0, 1], 0), &items(&[200, 201]));
    assert_eq!(out.next, Next::Done);
    assert_eq!(out.settled.len(), 2);
}

#[test]
fn a_reply_with_the_wrong_number_of_items_is_malformed() {
    let out = on_reply(&policy(2, true), request(&[0, 1], 0), &items(&[200]));
    assert_eq!(out.next, Next::Done);
    assert_eq!(
        out.settled,
        vec![
            settled(0, Disposition::Dropped(DropReason::MalformedResponse)),
            settled(1, Disposition::Dropped(DropReason::MalformedResponse))
        ]
    );
}

#[test]
fn shutdown_timeout_drops_what_is_in_flight() {
    let out = on_reply(&policy(5, true), request(&[0, 1], 1), &Reply::ShutdownTimeout);
    assert_eq!(out.next, Next::Done);
    assert_eq!(
        out.settled,
        vec![
            settled(0, Disposition::Dropped(DropReason::ShutdownTimeout)),
            settled(1, Disposition::Dropped(DropReason::ShutdownTimeout))
        ]
    );
}

#[test]
fn dispositions_that_are_final() {
    assert!(Disposition::Delivered.is_terminal());
    assert!(Disposition::Dropped(DropReason::Rejected).is_terminal());
    assert!(!Disposition::Retried.is_terminal());
}

#[test]
fn limiter_bounds_what_is_in_flight() {
    let mut limiter = Limiter::new(2);
    assert_eq!(limiter.active(), 0);
    assert!(limiter.try_acquire());
    assert!(limiter.try_acquire());
    assert!(!limiter.try_acquire());
    assert_eq!(limiter.active(), 2);
    limiter.release();
    assert_eq!(limiter.active(), 1);
    assert!(limiter.try_acquire());
    limiter.release();
    limiter.release();
    limiter.release();
    assert_eq!(limiter.active(), 0);
    let mut none = Limiter::new(0);
    assert!(!none.try_acquire());
}

#[test]
fn collector_acknowledges_only_complete_batches() {
    let mut collector = Collector::new(3);
    assert_eq!(collector.acknowledgement(), None);
    assert!(!collector.is_complete());
    collector.record(&vec![settled(0, Disposition::Delivered), settled(2, Disposition::Retried)]);
    assert_eq!(collector.acknowledgement(), None);
    collector.record(&vec![settled(1, Disposition::Dropped(DropReason::Rejected))]);
    assert_eq!(collector.acknowledgement(), None);
    assert_eq!(collector.disposition(2), Some(Disposition::Retried));
    collector.record(&vec![settled(2, Disposition::Delivered)]);
    assert!(collector.is_complete());
    assert_eq!(collector.acknowledgement(), Some(Acknowledgement { delivered: 2, dropped: 1 }));
    assert_eq!(Collector::new(0).acknowledgement(), Some(Acknowledgement { delivered: 0, dropped: 0 }));
}

#[test]
fn collector_keeps_the_first_final_word() {
    let mut collector = Collector::new(2);
    collector.record(&vec![
        settled(0, Disposition::Delivered),
        settled(0, Disposition::Dropped(DropReason::Rejected)),
        settled(0, Disposition::Retried),
        settled(7, Disposition::Delivered),
    ]);
    assert_eq!(collector.disposition(0), Some(Disposition::Delivered));
    assert_eq!(collector.disposition(1), None);
    assert_eq!(collector.disposition(7), None);
}

#[test]
fn one_diagnostic_for_each_reason() {
    let mut collector = Collector::new(6);
    collector.record(&vec![
        settled(0, Disposition::Dropped(DropReason::ShutdownTimeout)),
        settled(1, Disposition::Dropped(DropReason::Rejected)),
        settled(2, Disposition::Delivered),
        settled(3, Disposition::Dropped(DropReason::Rejected)),
        settled(4, Disposition::Dropped(DropReason::Rejected)),
        settled(5, Disposition::Dropped(DropReason::EncodingFailed)),
    ]);
    assert_eq!(
        collector.diagnostics(),
        vec![
            DropDiagnostic { reason: DropReason::EncodingFailed, count: 1 },
            DropDiagnostic { reason: DropReason::Rejected, count: 3 },
            DropDiagnostic { reason: DropReason::ShutdownTimeout, count: 1 },
        ]
    );
    assert!(Collector::new(4).diagnostics().is_empty());
}

#[test]
fn positions_settled_alike() {
    assert_eq!(
        drop_all(&vec![4, 1], DropReason::EncodingFailed),
        vec![
            settled(4, Disposition::Dropped(DropReason::EncodingFailed)),
            settled(1, Disposition::Dropped(DropReason::EncodingFailed))
        ]
    );
    assert_eq!(settle_with(&vec![2], Disposition::Retried), vec![settled(2, Disposition::Retried)]);
    assert!(drop_all(&vec![], DropReason::Rejected).is_empty());
}

#[test]
fn deadlines_of_a_drain() {
    assert_eq!(drain_deadline(1000, 500), 1500);
    assert_eq!(drain_deadline(u64::MAX - 1, 500), u64::MAX);
    assert!(!timed_out(1500, Some(1500)));
    assert!(timed_out(1501, Some(1500)));
    assert!(!timed_out(u64::MAX, None));
    assert_eq!(time_left(1000, Some(1500)), Some(500));
    assert_eq!(time_left(1500, Some(1500)), Some(0));
    assert_eq!(time_left(2000, Some(1500)), Some(0));
    assert_eq!(time_left(2000, None), None);
}
