use infino_sink::collector::{Acknowledgement, Collector};
use infino_sink::config::{Compression, InfinoConfig};
use infino_sink::decoder::decode;
use infino_sink::dispatch::{
    on_reply, Disposition, DropReason, InFlight, Next, Reply, RetryPolicy, Settled,
};
use infino_sink::event::{Event, Field, FieldValue, LogEvent, Metric, MetricValue, Number};
use infino_sink::sink::{InfinoCommon, InfinoSink, Prepared, Rejection};
use infino_sink::template::{Template, TemplatePart};
use infino_sink::transform::TransformError;

fn log(service: &str, message: &str) -> Event {
    Event::Log(LogEvent {
        timestamp: 7,
        fields: vec![
            Field { name: "service".to_string(), value: FieldValue::Text(service.to_string()) },
            Field { name: "message".to_string(), value: FieldValue::Text(message.to_string()) },
        ],
    })
}

fn sink(max_events: usize) -> InfinoSink {
    let mut config = InfinoConfig::default();
    config.endpoints = vec!["http://localhost:3000".to_string()];
    config.compression = Compression::Uncompressed;
    config.batch.max_events = Some(max_events);
    config.batch.timeout_secs = Some(1);
    config.bulk.index = Template { parts: vec![TemplatePart::Field("service".to_string())] };
    let common = InfinoCommon::parse(&config, Some(8)).unwrap();
    InfinoSink::new(&common, &config).unwrap()
}

fn messages(prepared: &Prepared) -> Vec<String> {
    let request = prepared.built.request.as_ref().unwrap();
    decode(&request.body)
        .unwrap()
        .iter()
        .map(|pair| String::from_utf8(pair.source.clone()).unwrap())
        .collect()
}

#[test]
fn events_become_requests_in_order() {
    let mut sink = sink(2);
    let input = vec![
        log("a", "a1"),
        log("b", "b1"),
        Event::Trace(LogEvent { timestamp: 1, fields: vec![] }),
        log("a", "a2"),
        log("a", "a3"),
        log("b", "b2"),
        log("b", "b3"),
    ];
    let out = sink.run_inner(input, 0);
    assert!(out.rejected.is_empty());
    assert_eq!(out.prepared.len(), 2);
    assert_eq!(out.prepared[0].batch.key.index, "a");
    assert_eq!(
        messages(&out.prepared[0]),
        vec![
            "{\"time\":7,\"message\":{\"service\":\"a\",\"message\":\"a1\"}}",
            "{\"time\":7,\"message\":{\"service\":\"a\",\"message\":\"a2\"}}"
        ]
    );
    assert_eq!(out.prepared[1].batch.key.index, "b");
    assert_eq!(out.prepared[0].built.request.as_ref().unwrap().positions, vec![0, 1]);
    assert!(out.prepared[0].built.dropped.is_empty());
    assert_eq!(sink.open_count(), 2);
    let rest = sink.drain();
    assert_eq!(rest.len(), 2);
    assert_eq!(
        messages(&rest[0]),
        vec!["{\"time\":7,\"message\":{\"service\":\"a\",\"message\":\"a3\"}}"]
    );
    assert_eq!(
        messages(&rest[1]),
        vec!["{\"time\":7,\"message\":{\"service\":\"b\",\"message\":\"b3\"}}"]
    );
    assert_eq!(sink.open_count(), 0);
}

#[test]
fn an_event_that_cannot_be_routed_is_reported_and_the_others_go_on() {
    let mut sink = sink(10);
    let unroutable = Event::Log(LogEvent { timestamp: 1, fields: vec![] });
    let empty = log("", "x");
    let out = sink.run_inner(vec![log("a", "a1"), unroutable, empty, log("a", "a2")], 0);
    assert_eq!(
        out.rejected,
        vec![
            Rejection { position: 1, error: TransformError::TemplateRendering },
            Rejection { position: 2, error: TransformError::EmptyIndex }
        ]
    );
    assert!(out.prepared.is_empty());
    let rest = sink.drain();
    assert_eq!(rest.len(), 1);
    assert_eq!(rest[0].batch.documents.len(), 2);
}

#[test]
fn metrics_and_logs_share_the_pipeline() {
    let mut config = InfinoConfig::default();
    config.endpoints = vec!["http://localhost:3000".to_string()];
    let common = InfinoCommon::parse(&config, Some(7)).unwrap();
    let mut sink = InfinoSink::new(&common, &config).unwrap();
    let metric = Event::Metric(Metric {
        name: "cpu".to_string(),
        timestamp: 9,
        tags: vec![],
        value: MetricValue::Gauge { value: Number::parse("0.5").unwrap() },
    });
    let out = sink.run_inner(vec![metric, log("a", "a1")], 0);
    assert!(out.prepared.is_empty());
    let rest = sink.drain();
    assert_eq!(rest.len(), 1);
    assert_eq!(rest[0].batch.key.index, "vector");
    assert_eq!(
        messages(&rest[0]),
        vec![
            "{\"metric_name\":\"cpu\",\"time\":9,\"value\":0.5,\"labels\":{}}",
            "{\"time\":7,\"message\":{\"service\":\"a\",\"message\":\"a1\"}}"
        ]
    );
}

#[test]
fn tick_hands_out_what_lingered() {
    let mut sink = sink(10);
    sink.run_inner(vec![log("a", "a1")], 0);
    sink.run_inner(vec![log("b", "b1")], 600);
    assert!(sink.tick(1000).is_empty());
    let late = sink.tick(1001);
    assert_eq!(late.len(), 1);
    assert_eq!(late[0].batch.key.index, "a");
    assert_eq!(sink.open_count(), 1);
    assert_eq!(sink.tick(1601).len(), 1);
}

#[test]
fn shutdown_with_two_open_batches_and_one_request_in_flight_settles_all_three() {
    let policy =
        RetryPolicy { max_retries: 3, initial_backoff_ms: 100, max_backoff_ms: 1000, retry_partial: false };
    let mut sink = sink(1);
    let out = sink.run_inner(vec![log("a", "a1"), log("a", "a2"), log("b", "b1")], 0);
    assert_eq!(out.prepared.len(), 1);
    assert_eq!(sink.open_count(), 2);
    let in_flight = &out.prepared[0];
    let drained = sink.drain();
    assert_eq!(drained.len(), 2);
    assert_eq!(sink.open_count(), 0);

    let mut terminal = 0;
    for prepared in [in_flight, &drained[0], &drained[1]] {
        let request = prepared.built.request.as_ref().unwrap();
        let mut collector = Collector::new(prepared.batch.documents.len());
        let state = InFlight { positions: request.positions.clone(), attempt: 0 };
        let out = on_reply(&policy, state, &Reply::Status { status: 200, items: None });
        assert_eq!(out.next, Next::Done);
        collector.record(&out.settled);
        assert_eq!(collector.acknowledgement(), Some(Acknowledgement { delivered: 1, dropped: 0 }));
        terminal += out.settled.iter().filter(|s| s.disposition.is_terminal()).count();
    }
    assert_eq!(terminal, 3);
}

#[test]
fn shutdown_past_the_timeout_drops_with_that_reason() {
    let policy =
        RetryPolicy { max_retries: 3, initial_backoff_ms: 100, max_backoff_ms: 1000, retry_partial: false };
    let mut sink = sink(1);
    let out = sink.run_inner(vec![log("a", "a1"), log("a", "a2"), log("b", "b1")], 0);
    let drained = sink.drain();
    let mut settled: Vec<Settled> = Vec::new();
    let replies = [
        Reply::Status { status: 200, items: None },
        Reply::ShutdownTimeout,
        Reply::ShutdownTimeout,
    ];
    for (prepared, reply) in [&out.prepared[0], &drained[0], &drained[1]].iter().zip(replies.iter()) {
        let request = prepared.built.request.as_ref().unwrap();
        let state = InFlight { positions: request.positions.clone(), attempt: 0 };
        let out = on_reply(&policy, state, reply);
        assert_eq!(out.next, Next::Done);
        settled.extend(out.settled);
    }
    assert_eq!(settled.len(), 3);
    assert_eq!(
        settled.iter().map(|s| s.disposition).collect::<Vec<_>>(),
        vec![
            Disposition::Delivered,
            Disposition::Dropped(DropReason::ShutdownTimeout),
            Disposition::Dropped(DropReason::ShutdownTimeout)
        ]
    );
}
