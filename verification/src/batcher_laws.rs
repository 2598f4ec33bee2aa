//! What holds of the batcher over any sequence of pushes, ticks and flushes.

use crate::batcher::{absent, batch_ok, expired, extended, find_open, fits, fresh, lemma_extended_ok,
    lemma_find_open, lemma_fresh_ok, lemma_select_ok, lemma_update_ok, open_ok, push_flushed,
    push_open, select, total_size, BatchSettings, BatchView};
use crate::document::{key_of, DocumentView, KeyView};
use vstd::prelude::*;

verus! {

/// One call on a batcher.
pub enum BatcherOp {
    Push { doc: DocumentView, now: u64 },
    Tick { now: u64 },
    FlushAll,
}

/// The open batches and everything handed out so far, oldest first.
pub struct Trace {
    pub open: Seq<BatchView>,
    pub emitted: Seq<BatchView>,
}

/// The trace after one more call.
pub open spec fn step(settings: BatchSettings, t: Trace, op: BatcherOp) -> Trace {
    match op {
        BatcherOp::Push { doc, now } => Trace {
            open: push_open(settings, t.open, doc, now),
            emitted: match push_flushed(settings, t.open, doc) {
                Some(b) => t.emitted.push(b),
                None => t.emitted,
            },
        },
        BatcherOp::Tick { now } => Trace {
            open: select(settings, t.open, now, false),
            emitted: t.emitted + select(settings, t.open, now, true),
        },
        BatcherOp::FlushAll => Trace { open: Seq::empty(), emitted: t.emitted + t.open },
    }
}

/// The trace of a new batcher after the calls `ops`.
pub open spec fn run(settings: BatchSettings, ops: Seq<BatcherOp>) -> Trace
    decreases ops.len(),
{
    if ops.len() == 0 {
        Trace { open: Seq::empty(), emitted: Seq::empty() }
    } else {
        step(settings, run(settings, ops.drop_last()), ops.last())
    }
}

/// The documents with the key `key` that the calls pushed, in push order.
pub open spec fn pushed(ops: Seq<BatcherOp>, key: KeyView) -> Seq<DocumentView>
    decreases ops.len(),
{
    if ops.len() == 0 {
        Seq::empty()
    } else {
        let rest = pushed(ops.drop_last(), key);
        match ops.last() {
            BatcherOp::Push { doc, now } => if key_of(doc) == key {
                rest.push(doc)
            } else {
                rest
            },
            _ => rest,
        }
    }
}

/// The documents of the batches with the key `key`, batch after batch.
pub open spec fn batch_docs(batches: Seq<BatchView>, key: KeyView) -> Seq<DocumentView>
    decreases batches.len(),
{
    if batches.len() == 0 {
        Seq::empty()
    } else {
        let rest = batch_docs(batches.drop_last(), key);
        if batches.last().key == key {
            rest + batches.last().docs
        } else {
            rest
        }
    }
}

proof fn lemma_batch_docs_add(a: Seq<BatchView>, b: Seq<BatchView>, key: KeyView)
    ensures
        batch_docs(a + b, key) == batch_docs(a, key) + batch_docs(b, key),
    decreases b.len(),
{
    if b.len() == 0 {
        assert(a + b =~= a);
        assert(batch_docs(a, key) + batch_docs(b, key) =~= batch_docs(a, key));
    } else {
        lemma_batch_docs_add(a, b.drop_last(), key);
        assert((a + b).drop_last() =~= a + b.drop_last());
        assert((a + b).last() == b.last());
        if b.last().key == key {
            assert(batch_docs(a + b, key) =~= batch_docs(a, key) + batch_docs(b, key));
        }
    }
}

proof fn lemma_batch_docs_absent(s: Seq<BatchView>, key: KeyView)
    requires
        absent(s, key),
    ensures
        batch_docs(s, key) == Seq::<DocumentView>::empty(),
    decreases s.len(),
{
    if s.len() > 0 {
        let front = s.drop_last();
        assert(s.last() == s[s.len() - 1]);
        assert forall|i: int| 0 <= i < front.len() implies (#[trigger] front[i]).key != key by {
            assert(front[i] == s[i]);
        }
        lemma_batch_docs_absent(front, key);
    }
}

proof fn lemma_batch_docs_at(settings: BatchSettings, s: Seq<BatchView>, i: int, key: KeyView)
    requires
        open_ok(settings, s),
        0 <= i < s.len(),
        s[i].key == key,
    ensures
        batch_docs(s, key) == s[i].docs,
    decreases s.len(),
{
    let front = s.drop_last();
    assert(open_ok(settings, front));
    if i == s.len() - 1 {
        assert forall|j: int| 0 <= j < front.len() implies (#[trigger] front[j]).key != key by {
            assert(front[j] == s[j]);
        }
        lemma_batch_docs_absent(front, key);
        assert(Seq::<DocumentView>::empty() + s[i].docs =~= s[i].docs);
    } else {
        assert(front[i] == s[i]);
        assert(s.last() == s[s.len() - 1]);
        lemma_batch_docs_at(settings, front, i, key);
    }
}

/// Replacing the batch at `i` leaves the documents of every other key as
/// they were.
proof fn lemma_batch_docs_other(
    settings: BatchSettings,
    s: Seq<BatchView>,
    i: int,
    b: BatchView,
    key: KeyView,
)
    requires
        open_ok(settings, s),
        0 <= i < s.len(),
        batch_ok(settings, b),
        b.key == s[i].key,
        key != b.key,
    ensures
        batch_docs(s.update(i, b), key) == batch_docs(s, key),
{
    let t = s.update(i, b);
    lemma_update_ok(settings, s, i, b);
    lemma_find_open(s, key, 0);
    let j = find_open(s, key, 0);
    if j < s.len() {
        assert(t[j] == s[j]);
        lemma_batch_docs_at(settings, s, j, key);
        lemma_batch_docs_at(settings, t, j, key);
    } else {
        assert forall|k: int| 0 <= k < t.len() implies (#[trigger] t[k]).key != key by {
            if k != i {
                assert(t[k] == s[k]);
            }
        }
        lemma_batch_docs_absent(s, key);
        lemma_batch_docs_absent(t, key);
    }
}

proof fn lemma_select_split(settings: BatchSettings, s: Seq<BatchView>, now: u64, key: KeyView)
    requires
        open_ok(settings, s),
    ensures
        batch_docs(select(settings, s, now, true), key) + batch_docs(
            select(settings, s, now, false),
            key,
        ) == batch_docs(s, key),
    decreases s.len(),
{
    if s.len() == 0 {
        assert(Seq::<DocumentView>::empty() + Seq::<DocumentView>::empty() =~= Seq::<DocumentView>::empty());
    } else {
        let front = s.drop_last();
        let last = s.last();
        assert(open_ok(settings, front));
        lemma_select_split(settings, front, now, key);
        let late = select(settings, front, now, true);
        let kept = select(settings, front, now, false);
        if last.key == key {
            assert forall|j: int| 0 <= j < front.len() implies (#[trigger] front[j]).key
                != key by {
                assert(front[j] == s[j]);
            }
            assert(absent(front, key));
            lemma_select_ok(settings, front, now, true);
            lemma_select_ok(settings, front, now, false);
            lemma_batch_docs_absent(front, key);
            lemma_batch_docs_absent(late, key);
            lemma_batch_docs_absent(kept, key);
            if expired(settings, last, now) {
                assert(late.push(last).drop_last() =~= late);
                assert(batch_docs(late.push(last), key) + batch_docs(kept, key) =~= batch_docs(
                    s,
                    key,
                ));
            } else {
                assert(kept.push(last).drop_last() =~= kept);
                assert(batch_docs(late, key) + batch_docs(kept.push(last), key) =~= batch_docs(
                    s,
                    key,
                ));
            }
        } else {
            if expired(settings, last, now) {
                assert(late.push(last).drop_last() =~= late);
            } else {
                assert(kept.push(last).drop_last() =~= kept);
            }
        }
    }
}

/// Whether every batch of a sequence is well formed.
pub open spec fn all_ok(settings: BatchSettings, batches: Seq<BatchView>) -> bool {
    forall|i: int| 0 <= i < batches.len() ==> batch_ok(settings, #[trigger] batches[i])
}

proof fn lemma_step(settings: BatchSettings, t: Trace, op: BatcherOp, key: KeyView)
    requires
        settings.valid(),
        open_ok(settings, t.open),
        all_ok(settings, t.emitted),
    ensures
        open_ok(settings, step(settings, t, op).open),
        all_ok(settings, step(settings, t, op).emitted),
        batch_docs(step(settings, t, op).emitted, key) + batch_docs(step(settings, t, op).open, key)
            == batch_docs(t.emitted, key) + batch_docs(t.open, key) + match op {
            BatcherOp::Push { doc, now } => if key_of(doc) == key {
                seq![doc]
            } else {
                Seq::empty()
            },
            _ => Seq::empty(),
        },
{
    let next = step(settings, t, op);
    let before = batch_docs(t.emitted, key) + batch_docs(t.open, key);
    match op {
        BatcherOp::Push { doc, now } => {
            let k = key_of(doc);
            lemma_find_open(t.open, k, 0);
            lemma_fresh_ok(settings, doc, now);
            let i = find_open(t.open, k, 0);
            if i < t.open.len() {
                let b = if fits(settings, t.open[i], doc) {
                    extended(t.open[i], doc)
                } else {
                    fresh(doc, now)
                };
                if fits(settings, t.open[i], doc) {
                    lemma_extended_ok(settings, t.open[i], doc);
                } else {
                    assert(t.emitted.push(t.open[i]).drop_last() =~= t.emitted);
                }
                lemma_update_ok(settings, t.open, i, b);
                if k == key {
                    lemma_batch_docs_at(settings, t.open, i, key);
                    lemma_batch_docs_at(settings, next.open, i, key);
                    assert(batch_docs(next.emitted, key) + batch_docs(next.open, key) =~= before
                        + seq![doc]);
                } else {
                    lemma_batch_docs_other(settings, t.open, i, b, key);
                    assert(before + Seq::<DocumentView>::empty() =~= before);
                }
            } else {
                assert(t.open.push(fresh(doc, now)).drop_last() =~= t.open);
                if k == key {
                    assert(batch_docs(next.emitted, key) + batch_docs(next.open, key) =~= before
                        + seq![doc]);
                } else {
                    assert(before + Seq::<DocumentView>::empty() =~= before);
                }
            }
        },
        BatcherOp::Tick { now } => {
            lemma_select_ok(settings, t.open, now, true);
            lemma_select_ok(settings, t.open, now, false);
            lemma_select_split(settings, t.open, now, key);
            let late = select(settings, t.open, now, true);
            let kept = select(settings, t.open, now, false);
            lemma_batch_docs_add(t.emitted, late, key);
            assert(batch_docs(next.emitted, key) + batch_docs(next.open, key) =~= before
                + Seq::<DocumentView>::empty());
        },
        BatcherOp::FlushAll => {
            lemma_batch_docs_add(t.emitted, t.open, key);
            assert(batch_docs(next.emitted, key) + batch_docs(next.open, key) =~= before
                + Seq::<DocumentView>::empty());
        },
    }
}

/// Within one partition nothing is reordered, lost or repeated: after any
/// sequence of pushes, ticks and flushes, the documents of a key in the
/// batches handed out, followed by those in its open batch, are the
/// documents pushed with that key, in push order. Every batch handed out and
/// every open batch is within the limits.
pub proof fn lemma_order_within_key(settings: BatchSettings, ops: Seq<BatcherOp>, key: KeyView)
    requires
        settings.valid(),
    ensures
        batch_docs(run(settings, ops).emitted, key) + batch_docs(run(settings, ops).open, key)
            == pushed(ops, key),
        open_ok(settings, run(settings, ops).open),
        all_ok(settings, run(settings, ops).emitted),
    decreases ops.len(),
{
    if ops.len() == 0 {
        assert(Seq::<DocumentView>::empty() + Seq::<DocumentView>::empty() =~= Seq::<DocumentView>::empty());
    } else {
        lemma_order_within_key(settings, ops.drop_last(), key);
        lemma_step(settings, run(settings, ops.drop_last()), ops.last(), key);
        let rest = pushed(ops.drop_last(), key);
        match ops.last() {
            BatcherOp::Push { doc, now } => {
                if key_of(doc) == key {
                    assert(rest + seq![doc] =~= rest.push(doc));
                } else {
                    assert(rest + Seq::<DocumentView>::empty() =~= rest);
                }
            },
            _ => {
                assert(rest + Seq::<DocumentView>::empty() =~= rest);
            },
        }
    }
}

/// A tick hands out exactly the batches that have been open for longer than
/// the linger time, however small they are: each of them is among the
/// flushed, and none of them stays open.
pub proof fn lemma_tick_flushes_expired(settings: BatchSettings, open: Seq<BatchView>, now: u64)
    ensures
        forall|i: int|
            0 <= i < open.len() && expired(settings, #[trigger] open[i], now) ==> select(
                settings,
                open,
                now,
                true,
            ).contains(open[i]),
        forall|j: int|
            0 <= j < select(settings, open, now, false).len() ==> !expired(
                settings,
                #[trigger] select(settings, open, now, false)[j],
                now,
            ),
        forall|j: int|
            0 <= j < select(settings, open, now, true).len() ==> expired(
                settings,
                #[trigger] select(settings, open, now, true)[j],
                now,
            ),
    decreases open.len(),
{
    if open.len() > 0 {
        let front = open.drop_last();
        let last = open.last();
        lemma_tick_flushes_expired(settings, front, now);
        let late_front = select(settings, front, now, true);
        let late = select(settings, open, now, true);
        assert forall|i: int|
            0 <= i < open.len() && expired(settings, #[trigger] open[i], now) implies late.contains(
            open[i],
        ) by {
            if i < front.len() {
                assert(front[i] == open[i]);
                assert(late_front.contains(front[i]));
                let w = choose|w: int| 0 <= w < late_front.len() && late_front[w] == front[i];
                assert(late[w] == open[i]);
            } else {
                assert(late[late.len() - 1] == open[i]);
            }
        }
        let kept_front = select(settings, front, now, false);
        let kept = select(settings, open, now, false);
        assert forall|j: int| 0 <= j < kept.len() implies !expired(
            settings,
            #[trigger] kept[j],
            now,
        ) by {
            if j < kept_front.len() {
                assert(kept[j] == kept_front[j]);
            }
        }
        assert forall|j: int| 0 <= j < late.len() implies expired(
            settings,
            #[trigger] late[j],
            now,
        ) by {
            if j < late_front.len() {
                assert(late[j] == late_front[j]);
            }
        }
    }
}

/// Whether a batch is within both limits.
pub open spec fn within_limits(settings: BatchSettings, b: BatchView) -> bool {
    b.docs.len() <= settings.max_events && b.bytes <= settings.max_bytes
}

/// Whether no document of the batches is larger than the byte limit.
pub open spec fn all_small(settings: BatchSettings, batches: Seq<BatchView>) -> bool {
    forall|i: int, j: int|
        0 <= i < batches.len() && 0 <= j < batches[i].docs.len() ==> (
        #[trigger] batches[i].docs[j]).size() <= settings.max_bytes
}

/// Whether no document that the calls push is larger than the byte limit.
pub open spec fn pushes_small(settings: BatchSettings, ops: Seq<BatcherOp>) -> bool {
    forall|i: int|
        0 <= i < ops.len() ==> match #[trigger] ops[i] {
            BatcherOp::Push { doc, now } => doc.size() <= settings.max_bytes,
            _ => true,
        }
}

proof fn lemma_select_small(settings: BatchSettings, open: Seq<BatchView>, now: u64, want: bool)
    requires
        all_small(settings, open),
    ensures
        all_small(settings, select(settings, open, now, want)),
    decreases open.len(),
{
    if open.len() > 0 {
        let front = open.drop_last();
        assert(all_small(settings, front)) by {
            assert forall|i: int, j: int|
                0 <= i < front.len() && 0 <= j < front[i].docs.len() implies (
            #[trigger] front[i].docs[j]).size() <= settings.max_bytes by {
                assert(front[i] == open[i]);
            }
        }
        lemma_select_small(settings, front, now, want);
        let rest = select(settings, front, now, want);
        let out = select(settings, open, now, want);
        assert forall|i: int, j: int|
            0 <= i < out.len() && 0 <= j < out[i].docs.len() implies (
        #[trigger] out[i].docs[j]).size() <= settings.max_bytes by {
            if i < rest.len() {
                assert(out[i] == rest[i]);
            } else {
                assert(out[i] == open[open.len() - 1]);
            }
        }
    }
}

proof fn lemma_add_small(settings: BatchSettings, a: Seq<BatchView>, b: Seq<BatchView>)
    requires
        all_small(settings, a),
        all_small(settings, b),
    ensures
        all_small(settings, a + b),
{
    let c = a + b;
    assert forall|i: int, j: int| 0 <= i < c.len() && 0 <= j < c[i].docs.len() implies (
    #[trigger] c[i].docs[j]).size() <= settings.max_bytes by {
        if i < a.len() {
            assert(c[i] == a[i]);
        } else {
            assert(c[i] == b[i - a.len()]);
        }
    }
}

proof fn lemma_run_small(settings: BatchSettings, ops: Seq<BatcherOp>)
    requires
        settings.valid(),
        pushes_small(settings, ops),
    ensures
        all_small(settings, run(settings, ops).open),
        all_small(settings, run(settings, ops).emitted),
    decreases ops.len(),
{
    if ops.len() > 0 {
        let front = ops.drop_last();
        assert(pushes_small(settings, front)) by {
            assert forall|i: int| 0 <= i < front.len() implies match #[trigger] front[i] {
                BatcherOp::Push { doc, now } => doc.size() <= settings.max_bytes,
                _ => true,
            } by {
                assert(front[i] == ops[i]);
            }
        }
        lemma_run_small(settings, front);
        let t = run(settings, front);
        let next = run(settings, ops);
        assert(ops.last() == ops[ops.len() - 1]);
        match ops.last() {
            BatcherOp::Push { doc, now } => {
                let i = find_open(t.open, key_of(doc), 0);
                lemma_find_open(t.open, key_of(doc), 0);
                assert forall|a: int, b: int|
                    0 <= a < next.open.len() && 0 <= b < next.open[a].docs.len() implies (
                #[trigger] next.open[a].docs[b]).size() <= settings.max_bytes by {
                    if a < t.open.len() && a != i {
                        assert(next.open[a] == t.open[a]);
                    } else if a == i && i < t.open.len() && fits(settings, t.open[i], doc) {
                        if b < t.open[i].docs.len() {
                            assert(next.open[a].docs[b] == t.open[i].docs[b]);
                        }
                    }
                }
                assert forall|a: int, b: int|
                    0 <= a < next.emitted.len() && 0 <= b < next.emitted[a].docs.len() implies (
                #[trigger] next.emitted[a].docs[b]).size() <= settings.max_bytes by {
                    if a < t.emitted.len() {
                        assert(next.emitted[a] == t.emitted[a]);
                    } else {
                        assert(next.emitted[a] == t.open[i]);
                    }
                }
            },
            BatcherOp::Tick { now } => {
                lemma_select_small(settings, t.open, now, true);
                lemma_select_small(settings, t.open, now, false);
                lemma_add_small(settings, t.emitted, select(settings, t.open, now, true));
            },
            BatcherOp::FlushAll => {
                lemma_add_small(settings, t.emitted, t.open);
            },
        }
    }
}

proof fn lemma_small_batch_within(settings: BatchSettings, b: BatchView)
    requires
        batch_ok(settings, b),
        forall|j: int| 0 <= j < b.docs.len() ==> (#[trigger] b.docs[j]).size() <= settings.max_bytes,
    ensures
        within_limits(settings, b),
{
    if b.docs.len() == 1 {
        assert(b.docs.drop_last().len() == 0);
        assert(total_size(b.docs.drop_last()) == 0);
        assert(b.docs.last() == b.docs[0]);
        assert(total_size(b.docs) == b.docs[0].size());
    }
}

proof fn lemma_run_ok(settings: BatchSettings, ops: Seq<BatcherOp>)
    requires
        settings.valid(),
    ensures
        open_ok(settings, run(settings, ops).open),
        all_ok(settings, run(settings, ops).emitted),
{
    let key = KeyView { index: Seq::empty(), action: crate::document::BulkAction::Index };
    lemma_order_within_key(settings, ops, key);
}

/// No batch passes a limit: where no pushed document is by itself larger
/// than the byte limit, every batch handed out and every open batch, after
/// any sequence of pushes, ticks and flushes, holds at most `max_events`
/// documents and at most `max_bytes` bytes.
pub proof fn lemma_limits_hold(settings: BatchSettings, ops: Seq<BatcherOp>)
    requires
        settings.valid(),
        pushes_small(settings, ops),
    ensures
        forall|i: int|
            0 <= i < run(settings, ops).emitted.len() ==> within_limits(
                settings,
                #[trigger] run(settings, ops).emitted[i],
            ),
        forall|i: int|
            0 <= i < run(settings, ops).open.len() ==> within_limits(
                settings,
                #[trigger] run(settings, ops).open[i],
            ),
{
    let t = run(settings, ops);
    lemma_run_small(settings, ops);
    lemma_run_ok(settings, ops);
    assert forall|i: int| 0 <= i < t.emitted.len() implies within_limits(
        settings,
        #[trigger] t.emitted[i],
    ) by {
        lemma_small_batch_within(settings, t.emitted[i]);
    }
    assert forall|i: int| 0 <= i < t.open.len() implies within_limits(
        settings,
        #[trigger] t.open[i],
    ) by {
        lemma_small_batch_within(settings, t.open[i]);
    }
}

/// The number of documents in some batches.
pub open spec fn doc_count(batches: Seq<BatchView>) -> nat
    decreases batches.len(),
{
    if batches.len() == 0 {
        0
    } else {
        doc_count(batches.drop_last()) + batches.last().docs.len()
    }
}

/// The number of pushes among some calls.
pub open spec fn push_count(ops: Seq<BatcherOp>) -> nat
    decreases ops.len(),
{
    if ops.len() == 0 {
        0
    } else {
        push_count(ops.drop_last()) + match ops.last() {
            BatcherOp::Push { doc, now } => 1nat,
            _ => 0nat,
        }
    }
}

proof fn lemma_doc_count_add(a: Seq<BatchView>, b: Seq<BatchView>)
    ensures
        doc_count(a + b) == doc_count(a) + doc_count(b),
    decreases b.len(),
{
    if b.len() == 0 {
        assert(a + b =~= a);
    } else {
        lemma_doc_count_add(a, b.drop_last());
        assert((a + b).drop_last() =~= a + b.drop_last());
        assert((a + b).last() == b.last());
    }
}

proof fn lemma_doc_count_update(s: Seq<BatchView>, i: int, b: BatchView)
    requires
        0 <= i < s.len(),
    ensures
        doc_count(s.update(i, b)) + s[i].docs.len() == doc_count(s) + b.docs.len(),
    decreases s.len(),
{
    let t = s.update(i, b);
    if i == s.len() - 1 {
        assert(t.drop_last() =~= s.drop_last());
        assert(t.last() == b);
        assert(s.last() == s[i]);
    } else {
        assert(t.drop_last() =~= s.drop_last().update(i, b));
        assert(t.last() == s.last());
        assert(s.drop_last()[i] == s[i]);
        lemma_doc_count_update(s.drop_last(), i, b);
    }
}

proof fn lemma_doc_count_select(settings: BatchSettings, s: Seq<BatchView>, now: u64)
    ensures
        doc_count(select(settings, s, now, true)) + doc_count(select(settings, s, now, false))
            == doc_count(s),
    decreases s.len(),
{
    if s.len() > 0 {
        lemma_doc_count_select(settings, s.drop_last(), now);
        let late = select(settings, s.drop_last(), now, true);
        let kept = select(settings, s.drop_last(), now, false);
        if expired(settings, s.last(), now) {
            assert(late.push(s.last()).drop_last() =~= late);
        } else {
            assert(kept.push(s.last()).drop_last() =~= kept);
        }
    }
}

/// A push adds one document and loses none: the documents that stay open
/// and those of the batch that is handed out are one more than were open.
pub proof fn lemma_push_counts(settings: BatchSettings, open: Seq<BatchView>, doc: DocumentView, now: u64)
    ensures
        doc_count(push_open(settings, open, doc, now)) + match push_flushed(settings, open, doc) {
            Some(b) => b.docs.len(),
            None => 0,
        } == doc_count(open) + 1,
{
    lemma_find_open(open, key_of(doc), 0);
    let i = find_open(open, key_of(doc), 0);
    if i < open.len() {
        if fits(settings, open[i], doc) {
            lemma_doc_count_update(open, i, extended(open[i], doc));
        } else {
            lemma_doc_count_update(open, i, fresh(doc, now));
        }
    } else {
        assert(open.push(fresh(doc, now)).drop_last() =~= open);
    }
}

/// No document is lost or made up: after any sequence of pushes, ticks and
/// flushes, the batches handed out and the open batches together hold as
/// many documents as were pushed.
pub proof fn lemma_every_push_is_held(settings: BatchSettings, ops: Seq<BatcherOp>)
    ensures
        doc_count(run(settings, ops).emitted) + doc_count(run(settings, ops).open) == push_count(
            ops,
        ),
    decreases ops.len(),
{
    if ops.len() > 0 {
        lemma_every_push_is_held(settings, ops.drop_last());
        let t = run(settings, ops.drop_last());
        match ops.last() {
            BatcherOp::Push { doc, now } => {
                lemma_push_counts(settings, t.open, doc, now);
                match push_flushed(settings, t.open, doc) {
                    Some(b) => {
                        assert(t.emitted.push(b).drop_last() =~= t.emitted);
                    },
                    None => {},
                }
            },
            BatcherOp::Tick { now } => {
                lemma_doc_count_select(settings, t.open, now);
                lemma_doc_count_add(t.emitted, select(settings, t.open, now, true));
            },
            BatcherOp::FlushAll => {
                lemma_doc_count_add(t.emitted, t.open);
            },
        }
    }
}

} // verus!
