use infino_sink::batcher::{Batch, BatchSettings, Batcher};
use infino_sink::document::{BulkAction, Document, VersionType};

fn doc(index: &str, payload: &str) -> Document {
    Document {
        index: index.to_string(),
        action: BulkAction::Index,
        id: None,
        version: None,
        version_type: VersionType::Internal,
        payload: payload.as_bytes().to_vec(),
    }
}

fn settings(max_events: usize, max_bytes: usize, linger_ms: u64) -> BatchSettings {
    BatchSettings::new(max_events, max_bytes, linger_ms).unwrap()
}

fn payloads(batch: &Batch) -> Vec<String> {
    batch.documents.iter().map(|d| String::from_utf8(d.payload.clone()).unwrap()).collect()
}

#[test]
fn settings_need_room_for_one_document() {
    assert_eq!(BatchSettings::new(0, 10, 1), None);
    assert_eq!(BatchSettings::new(10, 0, 1), None);
    assert_eq!(
        BatchSettings::new(1, 1, 0),
        Some(BatchSettings { max_events: 1, max_bytes: 1, linger_ms: 0 })
    );
}

#[test]
fn push_order_is_kept_within_a_key() {
    let mut batcher = Batcher::new(settings(3, 1000, 1000));
    let mut emitted: Vec<Batch> = Vec::new();
    let pushes = [
        ("a", "a1"), ("b", "b1"), ("a", "a2"), ("a", "a3"), ("b", "b2"), ("a", "a4"), ("a", "a5"),
        ("b", "b3"), ("b", "b4"), ("a", "a6"), ("a", "a7"),
    ];
    for (index, payload) in pushes {
        if let Some(batch) = batcher.push(doc(index, payload), 0) {
            emitted.push(batch);
        }
    }
    emitted.extend(batcher.flush_all());
    for key in ["a", "b"] {
        let seen: Vec<String> =
            emitted.iter().filter(|b| b.key.index == key).flat_map(|b| payloads(b)).collect();
        let pushed: Vec<String> =
            pushes.iter().filter(|p| p.0 == key).map(|p| p.1.to_string()).collect();
        assert_eq!(seen, pushed);
    }
    assert!(emitted.iter().all(|b| !b.documents.is_empty() && b.documents.len() <= 3));
    assert!(emitted.iter().all(|b| b.documents.iter().all(|d| d.index == b.key.index)));
}

#[test]
fn count_limit_flushes_the_prior_batch_first() {
    let mut batcher = Batcher::new(settings(2, 1000, 1000));
    assert_eq!(batcher.push(doc("a", "1"), 10), None);
    assert_eq!(batcher.push(doc("a", "2"), 11), None);
    let flushed = batcher.push(doc("a", "3"), 12).unwrap();
    assert_eq!(payloads(&flushed), vec!["1", "2"]);
    assert_eq!(flushed.bytes, 2);
    assert_eq!(flushed.opened_at, 10);
    assert_eq!(batcher.open_count(), 1);
    let rest = batcher.flush_all();
    assert_eq!(rest.len(), 1);
    assert_eq!(payloads(&rest[0]), vec!["3"]);
    assert_eq!(rest[0].opened_at, 12);
}

#[test]
fn byte_limit_flushes_the_prior_batch_first() {
    let mut batcher = Batcher::new(settings(100, 10, 1000));
    assert_eq!(batcher.push(doc("a", "12345"), 0), None);
    assert_eq!(batcher.push(doc("a", "67890"), 0), None);
    let flushed = batcher.push(doc("a", "x"), 0).unwrap();
    assert_eq!(payloads(&flushed), vec!["12345", "67890"]);
    assert_eq!(flushed.bytes, 10);
    assert_eq!(batcher.push(doc("a", "0123456789"), 0).map(|b| payloads(&b)), Some(vec![
        "x".to_string()
    ]));
    let rest = batcher.flush_all();
    assert_eq!(rest[0].bytes, 10);
}

#[test]
fn a_document_larger_than_the_limit_travels_alone() {
    let mut batcher = Batcher::new(settings(100, 4, 1000));
    assert_eq!(batcher.push(doc("a", "ab"), 0), None);
    let flushed = batcher.push(doc("a", "toolarge"), 0).unwrap();
    assert_eq!(payloads(&flushed), vec!["ab"]);
    let flushed = batcher.push(doc("a", "cd"), 0).unwrap();
    assert_eq!(payloads(&flushed), vec!["toolarge"]);
    assert_eq!(flushed.bytes, 8);
}

#[test]
fn partitions_do_not_disturb_each_other() {
    let mut batcher = Batcher::new(settings(2, 1000, 1000));
    assert_eq!(batcher.push(doc("a", "a1"), 0), None);
    assert_eq!(batcher.push(doc("b", "b1"), 0), None);
    assert_eq!(batcher.push(doc("a", "a2"), 0), None);
    let mut create = doc("a", "c1");
    create.action = BulkAction::Create;
    assert_eq!(batcher.push(create, 0), None);
    assert_eq!(batcher.open_count(), 3);
    let flushed = batcher.push(doc("a", "a3"), 0).unwrap();
    assert_eq!(payloads(&flushed), vec!["a1", "a2"]);
    assert_eq!(batcher.open_count(), 3);
    let all = batcher.flush_all();
    let got: Vec<Vec<String>> = all.iter().map(payloads).collect();
    assert_eq!(got, vec![vec!["a3"], vec!["b1"], vec!["c1"]]);
    assert_eq!(batcher.open_count(), 0);
    assert!(batcher.flush_all().is_empty());
}

#[test]
fn tick_flushes_batches_older_than_linger() {
    let mut batcher = Batcher::new(settings(100, 1000, 50));
    batcher.push(doc("old", "1"), 100);
    batcher.push(doc("new", "2"), 130);
    batcher.push(doc("old", "3"), 140);
    assert!(batcher.tick(150).is_empty());
    let flushed = batcher.tick(151);
    assert_eq!(flushed.len(), 1);
    assert_eq!(flushed[0].key.index, "old");
    assert_eq!(payloads(&flushed[0]), vec!["1", "3"]);
    assert_eq!(batcher.open_count(), 1);
    assert!(batcher.tick(180).is_empty());
    let flushed = batcher.tick(181);
    assert_eq!(payloads(&flushed[0]), vec!["2"]);
    assert_eq!(batcher.open_count(), 0);
}

#[test]
fn tick_with_a_clock_that_went_back_flushes_nothing() {
    let mut batcher = Batcher::new(settings(100, 1000, 0));
    batcher.push(doc("a", "1"), 100);
    assert!(batcher.tick(50).is_empty());
    assert!(batcher.tick(100).is_empty());
    assert_eq!(batcher.tick(101).len(), 1);
}

#[test]
fn a_new_batch_after_a_flush_has_a_new_age() {
    let mut batcher = Batcher::new(settings(1, 1000, 10));
    batcher.push(doc("a", "1"), 0);
    let flushed = batcher.push(doc("a", "2"), 100).unwrap();
    assert_eq!(flushed.opened_at, 0);
    assert!(batcher.tick(105).is_empty());
    assert_eq!(batcher.tick(111).len(), 1);
}
