use flate2::read::GzDecoder;
use infino_sink::config::Compression;
use infino_sink::decoder::{decode, LinePair};
use infino_sink::document::{BulkAction, Document, VersionType};
use infino_sink::encoder::{check_encodable, serialize, serialize_at, write_action_line, Dialect};
use infino_sink::fields::Label;
use infino_sink::dispatch::Reply;
use infino_sink::request::{all_positions, AttemptReport, RequestBuilder};
use std::io::Read;

fn doc(index: &str, payload: &str) -> Document {
    Document {
        index: index.to_string(),
        action: BulkAction::Index,
        id: None,
        version: None,
        version_type: VersionType::Internal,
        payload: payload.as_bytes().to_vec(),
    }
}

fn action_line(dialect: Dialect, doc: &Document) -> String {
    let mut out = Vec::new();
    write_action_line(&mut out, dialect, doc);
    String::from_utf8(out).unwrap()
}

fn builder(compression: Compression, pipeline: Option<&str>) -> RequestBuilder {
    RequestBuilder {
        endpoint: "http://localhost:3000".to_string(),
        dialect: Dialect::Current,
        compression,
        pipeline: pipeline.map(|p| p.to_string()),
    }
}

fn label(key: &str, value: &str) -> Label {
    Label { key: key.to_string(), value: value.to_string() }
}

#[test]
fn action_line_of_each_action() {
    let mut d = doc("logs", "{}");
    assert_eq!(action_line(Dialect::Current, &d), "{\"index\":{\"_index\":\"logs\"}}");
    d.action = BulkAction::Create;
    assert_eq!(action_line(Dialect::Current, &d), "{\"create\":{\"_index\":\"logs\"}}");
    d.action = BulkAction::Update;
    assert_eq!(action_line(Dialect::Current, &d), "{\"update\":{\"_index\":\"logs\"}}");
    d.action = BulkAction::Delete;
    assert_eq!(action_line(Dialect::Current, &d), "{\"delete\":{\"_index\":\"logs\"}}");
}

#[test]
fn legacy_dialect_names_the_mapping_type() {
    let d = doc("logs", "{}");
    assert_eq!(
        action_line(Dialect::Legacy, &d),
        "{\"index\":{\"_index\":\"logs\",\"_type\":\"_doc\"}}"
    );
}

#[test]
fn action_line_with_id_and_version() {
    let mut d = doc("logs", "{}");
    d.action = BulkAction::Create;
    d.id = Some("a\"1".to_string());
    d.version = Some(7);
    d.version_type = VersionType::External;
    assert_eq!(
        action_line(Dialect::Current, &d),
        "{\"create\":{\"_index\":\"logs\",\"_id\":\"a\\\"1\",\"version\":7,\"version_type\":\"external\"}}"
    );
    d.version_type = VersionType::ExternalGte;
    assert_eq!(
        action_line(Dialect::Legacy, &d),
        "{\"create\":{\"_index\":\"logs\",\"_type\":\"_doc\",\"_id\":\"a\\\"1\",\"version\":7,\"version_type\":\"external_gte\"}}"
    );
    d.version_type = VersionType::Internal;
    d.id = None;
    assert_eq!(
        action_line(Dialect::Current, &d),
        "{\"create\":{\"_index\":\"logs\",\"version\":7,\"version_type\":\"internal\"}}"
    );
    d.version = None;
    d.version_type = VersionType::External;
    assert_eq!(action_line(Dialect::Current, &d), "{\"create\":{\"_index\":\"logs\"}}");
}

#[test]
fn action_line_stays_one_line() {
    let mut d = doc("lo\ngs", "{}");
    d.id = Some("a\nb".to_string());
    let line = action_line(Dialect::Current, &d);
    assert!(!line.contains('\n'));
    assert_eq!(line, "{\"index\":{\"_index\":\"lo\\u000ags\",\"_id\":\"a\\u000ab\"}}");
}

#[test]
fn what_can_be_written() {
    assert!(check_encodable(&doc("logs", "{}")));
    assert!(!check_encodable(&doc("", "{}")));
    assert!(!check_encodable(&doc("logs", "")));
    assert!(!check_encodable(&doc("logs", "{\n}")));
    assert!(check_encodable(&doc("logs", "{\t}")));
}

#[test]
fn serialize_writes_two_lines_for_each_document() {
    let docs = vec![doc("a", "{\"n\":1}"), doc("b", "{\"n\":2}")];
    let out = serialize(Dialect::Current, &docs);
    assert_eq!(
        String::from_utf8(out.payload).unwrap(),
        "{\"index\":{\"_index\":\"a\"}}\n{\"n\":1}\n{\"index\":{\"_index\":\"b\"}}\n{\"n\":2}\n"
    );
    assert_eq!(out.kept, vec![0, 1]);
    assert!(out.dropped.is_empty());
}

#[test]
fn serialize_of_nothing_is_empty() {
    let out = serialize(Dialect::Current, &vec![]);
    assert!(out.payload.is_empty());
    assert!(out.kept.is_empty());
    assert!(out.dropped.is_empty());
}

#[test]
fn a_document_that_cannot_be_written_is_left_out_alone() {
    let docs = vec![doc("a", "{\"n\":1}"), doc("a", "bro\nken"), doc("", "{}"), doc("a", "{\"n\":4}")];
    let out = serialize(Dialect::Current, &docs);
    assert_eq!(
        String::from_utf8(out.payload).unwrap(),
        "{\"index\":{\"_index\":\"a\"}}\n{\"n\":1}\n{\"index\":{\"_index\":\"a\"}}\n{\"n\":4}\n"
    );
    assert_eq!(out.kept, vec![0, 3]);
    assert_eq!(out.dropped, vec![1, 2]);
}

#[test]
fn serialize_at_takes_the_positions_in_their_order() {
    let docs = vec![doc("a", "0"), doc("a", "1"), doc("a", "\n"), doc("a", "3")];
    let out = serialize_at(Dialect::Current, &docs, &vec![3, 1, 2, 9]);
    assert_eq!(
        String::from_utf8(out.payload).unwrap(),
        "{\"index\":{\"_index\":\"a\"}}\n3\n{\"index\":{\"_index\":\"a\"}}\n1\n"
    );
    assert_eq!(out.kept, vec![3, 1]);
    assert_eq!(out.dropped, vec![2, 9]);
    let all = serialize_at(Dialect::Current, &docs, &all_positions(docs.len()));
    assert_eq!(all, serialize(Dialect::Current, &docs));
}

#[test]
fn round_trip_gives_the_pairs_in_order() {
    let mut docs = Vec::new();
    for i in 0..25 {
        let mut d = doc(&format!("index-{}", i % 3), &format!("{{\"n\":{}}}", i));
        if i % 2 == 0 {
            d.id = Some(format!("id\n{}", i));
        }
        docs.push(d);
    }
    for dialect in [Dialect::Legacy, Dialect::Current] {
        let out = serialize(dialect, &docs);
        let pairs = decode(&out.payload).unwrap();
        assert_eq!(pairs.len(), docs.len());
        for (pair, d) in pairs.iter().zip(docs.iter()) {
            assert_eq!(pair.action, action_line(dialect, d).into_bytes());
            assert_eq!(pair.source, d.payload);
        }
    }
}

#[test]
fn decode_of_small_bodies() {
    assert_eq!(decode(b""), Some(vec![]));
    assert_eq!(
        decode(b"a\nb\n"),
        Some(vec![LinePair { action: b"a".to_vec(), source: b"b".to_vec() }])
    );
    assert_eq!(
        decode(b"\n\n"),
        Some(vec![LinePair { action: vec![], source: vec![] }])
    );
    assert_eq!(decode(b"a\nb"), None);
    assert_eq!(decode(b"a\n"), None);
    assert_eq!(decode(b"a\nb\nc\n"), None);
    assert_eq!(decode(b"a"), None);
}

#[test]
fn request_without_compression() {
    let docs = vec![doc("a", "{\"n\":1}"), doc("a", "\n"), doc("a", "{\"n\":3}")];
    let built = builder(Compression::Uncompressed, None).build(&docs, &all_positions(3));
    assert_eq!(built.dropped, vec![1]);
    let request = built.request.unwrap();
    assert_eq!(request.endpoint, "http://localhost:3000");
    assert_eq!(request.path, "/_bulk");
    assert!(request.parameters.is_empty());
    assert_eq!(request.headers, vec![label("Content-Type", "application/x-ndjson")]);
    assert_eq!(request.positions, vec![0, 2]);
    assert_eq!(request.body, serialize(Dialect::Current, &docs).payload);
}

#[test]
fn request_with_gzip_and_pipeline() {
    let docs = vec![doc("a", "{\"n\":1}"), doc("a", "{\"n\":2}")];
    let plain = serialize(Dialect::Current, &docs).payload;
    let built = builder(Compression::Gzip, Some("clean")).build(&docs, &all_positions(2));
    assert!(built.dropped.is_empty());
    let request = built.request.unwrap();
    assert_eq!(request.parameters, vec![label("pipeline", "clean")]);
    assert_eq!(
        request.headers,
        vec![label("Content-Type", "application/x-ndjson"), label("Content-Encoding", "gzip")]
    );
    assert_ne!(request.body, plain);
    assert_eq!(&request.body[..3], &[0x1f, 0x8b, 8]);
    let mut unpacked = Vec::new();
    GzDecoder::new(&request.body[..]).read_to_end(&mut unpacked).unwrap();
    assert_eq!(unpacked, plain);
    let again = builder(Compression::Gzip, Some("clean")).build(&docs, &all_positions(2));
    assert_eq!(again.request.unwrap().body, request.body);
    let pairs = decode(&unpacked).unwrap();
    assert_eq!(pairs.len(), 2);
    assert_eq!(pairs[1].source, b"{\"n\":2}".to_vec());
}

#[test]
fn no_request_where_nothing_can_be_written() {
    let docs = vec![doc("", "{}"), doc("a", "")];
    let built = builder(Compression::Gzip, None).build(&docs, &all_positions(2));
    assert_eq!(built.request, None);
    assert_eq!(built.dropped, vec![0, 1]);
    let built = builder(Compression::Uncompressed, None).build(&vec![], &vec![]);
    assert_eq!(built.request, None);
    assert!(built.dropped.is_empty());
}

#[test]
fn request_for_some_positions_only() {
    let docs = vec![doc("a", "0"), doc("a", "1"), doc("a", "2")];
    let built = builder(Compression::Uncompressed, None).build(&docs, &vec![1]);
    let request = built.request.unwrap();
    assert_eq!(request.positions, vec![1]);
    assert_eq!(
        String::from_utf8(request.body).unwrap(),
        "{\"index\":{\"_index\":\"a\"}}\n1\n"
    );
}

#[test]
fn attempt_report_holds_status_size_and_latency() {
    let docs = vec![doc("a", "{\"n\":1}"), doc("a", "{\"n\":2}")];
    let request =
        builder(Compression::Uncompressed, None).build(&docs, &all_positions(2)).request.unwrap();
    let reply = Reply::Status { status: 503, items: None };
    assert_eq!(
        request.report(&reply, 2, 1000, 1250),
        AttemptReport {
            attempt: 2,
            status: Some(503),
            bytes: request.body.len(),
            documents: 2,
            latency_ms: 250
        }
    );
    let report = request.report(&Reply::NetworkError, 0, 1000, 900);
    assert_eq!(report.status, None);
    assert_eq!(report.latency_ms, 0);
    assert_eq!(request.report(&Reply::ShutdownTimeout, 0, 0, 0).status, None);
}
