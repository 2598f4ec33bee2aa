//! Groups documents into batches, one open batch per partition, bounded by
//! count, by bytes and by age.

use crate::document::{doc_views, key_of, partition_key, Document, DocumentView, KeyView,
    PartitionKey};
use vstd::prelude::*;

verus! {

/// The limits of a batch.
#[derive(Clone, Copy, Debug, PartialEq, Eq, Structural)]
pub struct BatchSettings {
    pub max_events: usize,
    pub max_bytes: usize,
    pub linger_ms: u64,
}

impl BatchSettings {
    /// Limits are usable when a batch may hold at least one document and
    /// one byte.
    pub open spec fn valid(&self) -> bool {
        self.max_events >= 1 && self.max_bytes >= 1
    }

    /// Settings with the given limits; `None` where a batch could hold
    /// nothing.
    pub fn new(max_events: usize, max_bytes: usize, linger_ms: u64) -> (settings: Option<
        BatchSettings,
    >)
        ensures
            settings == if max_events >= 1 && max_bytes >= 1 {
                Some(BatchSettings { max_events, max_bytes, linger_ms })
            } else {
                None
            },
    {
        if max_events >= 1 && max_bytes >= 1 {
            Some(BatchSettings { max_events, max_bytes, linger_ms })
        } else {
            None
        }
    }
}

/// The documents of one partition that travel together.
#[derive(Clone, Debug, PartialEq, Eq)]
pub struct Batch {
    pub key: PartitionKey,
    pub documents: Vec<Document>,
    pub bytes: usize,
    pub opened_at: u64,
}

/// The model of a batch.
pub struct BatchView {
    pub key: KeyView,
    pub docs: Seq<DocumentView>,
    pub bytes: nat,
    pub opened_at: u64,
}

impl View for Batch {
    type V = BatchView;

    open spec fn view(&self) -> BatchView {
        BatchView {
            key: self.key@,
            docs: doc_views(self.documents@),
            bytes: self.bytes as nat,
            opened_at: self.opened_at,
        }
    }
}

/// The models of a sequence of batches.
pub open spec fn views(batches: Seq<Batch>) -> Seq<BatchView> {
    batches.map_values(|b: Batch| b@)
}

/// The sum of the sizes of some documents.
pub open spec fn total_size(docs: Seq<DocumentView>) -> nat
    decreases docs.len(),
{
    if docs.len() == 0 {
        0
    } else {
        total_size(docs.drop_last()) + docs.last().size()
    }
}

/// What holds of every batch the batcher keeps or hands out: it is not
/// empty, all its documents have its key, its byte count is the sum of their
/// sizes, and it stays within the limits. The one batch that may be larger
/// than `max_bytes` is a single document that is larger by itself.
pub open spec fn batch_ok(settings: BatchSettings, b: BatchView) -> bool {
    &&& 1 <= b.docs.len() <= settings.max_events
    &&& b.bytes == total_size(b.docs)
    &&& b.bytes <= settings.max_bytes || b.docs.len() == 1
    &&& forall|i: int| 0 <= i < b.docs.len() ==> key_of(#[trigger] b.docs[i]) == b.key
}

/// No batch of `open` has the key `key`.
pub open spec fn absent(open: Seq<BatchView>, key: KeyView) -> bool {
    forall|i: int| 0 <= i < open.len() ==> (#[trigger] open[i]).key != key
}

/// The open batches are well formed: each is, and no two share a key.
pub open spec fn open_ok(settings: BatchSettings, open: Seq<BatchView>) -> bool {
    &&& forall|i: int| 0 <= i < open.len() ==> batch_ok(settings, #[trigger] open[i])
    &&& forall|i: int, j: int|
        0 <= i < open.len() && 0 <= j < open.len() && i != j ==> (#[trigger] open[i]).key != (
        #[trigger] open[j]).key
}

/// The position of the first batch at or after `from` with the key `key`, or
/// the length where there is none.
pub open spec fn find_open(open: Seq<BatchView>, key: KeyView, from: int) -> int
    decreases open.len() - from,
{
    if from < 0 || from >= open.len() {
        open.len() as int
    } else if open[from].key == key {
        from
    } else {
        find_open(open, key, from + 1)
    }
}

/// A batch that holds one document.
pub open spec fn fresh(doc: DocumentView, now: u64) -> BatchView {
    BatchView { key: key_of(doc), docs: seq![doc], bytes: doc.size(), opened_at: now }
}

/// A batch with one more document at its end.
pub open spec fn extended(b: BatchView, doc: DocumentView) -> BatchView {
    BatchView { key: b.key, docs: b.docs.push(doc), bytes: b.bytes + doc.size(), opened_at: b.opened_at }
}

/// Whether a batch takes one more document without passing a limit.
pub open spec fn fits(settings: BatchSettings, b: BatchView, doc: DocumentView) -> bool {
    b.docs.len() + 1 <= settings.max_events && b.bytes + doc.size() <= settings.max_bytes
}

/// Whether a batch has been open for longer than the linger time.
pub open spec fn expired(settings: BatchSettings, b: BatchView, now: u64) -> bool {
    now > b.opened_at && now - b.opened_at > settings.linger_ms
}

/// The batches of `open`, in order, that are expired (`want` true) or not
/// (`want` false).
pub open spec fn select(settings: BatchSettings, open: Seq<BatchView>, now: u64, want: bool) -> Seq<
    BatchView,
>
    decreases open.len(),
{
    if open.len() == 0 {
        Seq::empty()
    } else {
        let rest = select(settings, open.drop_last(), now, want);
        if expired(settings, open.last(), now) == want {
            rest.push(open.last())
        } else {
            rest
        }
    }
}

/// The open batches after a push.
pub open spec fn push_open(settings: BatchSettings, open: Seq<BatchView>, doc: DocumentView, now: u64) -> Seq<
    BatchView,
> {
    let i = find_open(open, key_of(doc), 0);
    if i < open.len() {
        if fits(settings, open[i], doc) {
            open.update(i, extended(open[i], doc))
        } else {
            open.update(i, fresh(doc, now))
        }
    } else {
        open.push(fresh(doc, now))
    }
}

/// The batch that a push flushes: the open batch of the document's key,
/// where the document does not fit into it.
pub open spec fn push_flushed(settings: BatchSettings, open: Seq<BatchView>, doc: DocumentView) -> Option<
    BatchView,
> {
    let i = find_open(open, key_of(doc), 0);
    if i < open.len() && !fits(settings, open[i], doc) {
        Some(open[i])
    } else {
        None
    }
}

/// Where `find_open` stops: at a batch with the key, with none before it.
pub proof fn lemma_find_open(open: Seq<BatchView>, key: KeyView, from: int)
    requires
        0 <= from <= open.len(),
    ensures
        from <= find_open(open, key, from) <= open.len(),
        find_open(open, key, from) < open.len() ==> open[find_open(open, key, from)].key == key,
        forall|j: int| from <= j < find_open(open, key, from) ==> (#[trigger] open[j]).key != key,
    decreases open.len() - from,
{
    if from < open.len() && open[from].key != key {
        lemma_find_open(open, key, from + 1);
    }
}

/// The accumulating batcher.
#[derive(Debug)]
pub struct Batcher {
    settings: BatchSettings,
    open: Vec<Batch>,
}

impl Batcher {
    /// The limits the batcher was made with.
    pub closed spec fn settings(&self) -> BatchSettings {
        self.settings
    }

    /// The open batches, in the order in which their partitions were first
    /// seen.
    pub closed spec fn open(&self) -> Seq<BatchView> {
        views(self.open@)
    }

    /// The batcher's invariant.
    pub open spec fn wf(&self) -> bool {
        self.settings().valid() && open_ok(self.settings(), self.open())
    }

    /// A batcher with no open batch.
    pub fn new(settings: BatchSettings) -> (batcher: Batcher)
        requires
            settings.valid(),
        ensures
            batcher.wf(),
            batcher.settings() == settings,
            batcher.open() == Seq::<BatchView>::empty(),
    {
        let batcher = Batcher { settings, open: Vec::new() };
        assert(views(batcher.open@) =~= Seq::<BatchView>::empty());
        batcher
    }

    /// The number of open batches.
    pub fn open_count(&self) -> (n: usize)
        ensures
            n == self.open().len(),
    {
        self.open.len()
    }

    /// Adds a document to the open batch of its partition. Where the batch
    /// would pass the event or byte limit, that batch is handed out as it
    /// was, and a new batch starts with the document.
    pub fn push(&mut self, doc: Document, now: u64) -> (flushed: Option<Batch>)
        requires
            old(self).wf(),
        ensures
            final(self).wf(),
            final(self).settings() == old(self).settings(),
            final(self).open() == push_open(old(self).settings(), old(self).open(), doc@, now),
            match flushed {
                Some(b) => push_flushed(old(self).settings(), old(self).open(), doc@) == Some(b@)
                    && batch_ok(old(self).settings(), b@),
                None => push_flushed(old(self).settings(), old(self).open(), doc@).is_none(),
            },
    {
        let ghost before = views(self.open@);
        let ghost key = key_of(doc@);
        let ghost dv = doc@;
        let mut i: usize = 0;
        while i < self.open.len() && !self.open[i].key.holds(&doc)
            invariant
                i <= self.open.len(),
                self.open@ == old(self).open@,
                self.settings == old(self).settings,
                find_open(before, key, 0) == find_open(before, key, i as int),
                before == views(self.open@),
                key == key_of(doc@),
            decreases self.open.len() - i,
        {
            i += 1;
        }
        proof {
            lemma_find_open(before, key, 0);
        }
        let size: usize = doc.byte_size();
        if i < self.open.len() {
            let mut batch = self.open.remove(i);
            assert(batch@ == before[i as int]);
            let room = batch.documents.len() < self.settings.max_events;
            let fit = match batch.bytes.checked_add(size) {
                Some(total) => if room && total <= self.settings.max_bytes {
                    Some(total)
                } else {
                    None
                },
                None => None,
            };
            match fit {
                Some(total) => {
                    proof {
                        lemma_extended_ok(self.settings, batch@, dv);
                    }
                    let ghost held = batch@;
                    batch.documents.push(doc);
                    batch.bytes = total;
                    proof {
                        assert(batch@.docs =~= held.docs.push(dv));
                        assert(batch@ == extended(held, dv));
                    }
                    self.open.insert(i, batch);
                    proof {
                        assert(views(self.open@) =~= before.update(
                            i as int,
                            extended(before[i as int], dv),
                        ));
                        lemma_update_ok(self.settings, before, i as int, extended(before[i as int], dv));
                    }
                    None
                },
                None => {
                    let key = partition_key(&doc);
                    let mut documents: Vec<Document> = Vec::new();
                    documents.push(doc);
                    let started = Batch { key, documents, bytes: size, opened_at: now };
                    proof {
                        lemma_fresh_ok(self.settings, dv, now);
                        assert(started@.docs =~= fresh(dv, now).docs);
                        assert(started@ == fresh(dv, now));
                    }
                    self.open.insert(i, started);
                    proof {
                        assert(views(self.open@) =~= before.update(i as int, fresh(dv, now)));
                        lemma_update_ok(self.settings, before, i as int, fresh(dv, now));
                    }
                    Some(batch)
                },
            }
        } else {
            let key = partition_key(&doc);
            let mut documents: Vec<Document> = Vec::new();
            documents.push(doc);
            let started = Batch { key, documents, bytes: size, opened_at: now };
            proof {
                lemma_fresh_ok(self.settings, dv, now);
                assert(started@.docs =~= fresh(dv, now).docs);
                assert(started@ == fresh(dv, now));
            }
            self.open.push(started);
            proof {
                assert(views(self.open@) =~= before.push(fresh(dv, now)));
            }
            None
        }
    }

    /// Hands out every batch that has been open for longer than the linger
    /// time, in the order in which they were opened, whatever their size.
    pub fn tick(&mut self, now: u64) -> (flushed: Vec<Batch>)
        requires
            old(self).wf(),
        ensures
            final(self).wf(),
            final(self).settings() == old(self).settings(),
            final(self).open() == select(old(self).settings(), old(self).open(), now, false),
            views(flushed@) == select(old(self).settings(), old(self).open(), now, true),
            forall|i: int|
                0 <= i < flushed.len() ==> batch_ok(old(self).settings(), #[trigger] flushed[i]@),
    {
        let ghost before = self.open@;
        let mut rest: Vec<Batch> = Vec::new();
        std::mem::swap(&mut rest, &mut self.open);
        let mut flushed: Vec<Batch> = Vec::new();
        let ghost mut n: int = 0;
        while rest.len() > 0
            invariant
                0 <= n <= before.len(),
                rest@ == before.skip(n),
                self.settings == old(self).settings,
                views(self.open@) == select(self.settings, views(before.take(n)), now, false),
                views(flushed@) == select(self.settings, views(before.take(n)), now, true),
            decreases rest.len(),
        {
            let batch = rest.remove(0);
            proof {
                assert(batch == before[n]);
                assert(before.take(n + 1).drop_last() == before.take(n));
                assert(views(before.take(n + 1)).drop_last() =~= views(before.take(n)));
                assert(views(before.take(n + 1)).last() == batch@);
                assert(rest@ =~= before.skip(n + 1));
            }
            let late = now > batch.opened_at && now - batch.opened_at > self.settings.linger_ms;
            if late {
                flushed.push(batch);
                proof {
                    assert(views(flushed@) =~= select(
                        self.settings,
                        views(before.take(n + 1)),
                        now,
                        true,
                    ));
                }
            } else {
                self.open.push(batch);
                proof {
                    assert(views(self.open@) =~= select(
                        self.settings,
                        views(before.take(n + 1)),
                        now,
                        false,
                    ));
                }
            }
            proof {
                n = n + 1;
            }
        }
        proof {
            assert(before.take(n) == before);
            lemma_select_ok(self.settings, views(before), now, false);
            lemma_select_ok(self.settings, views(before), now, true);
            assert forall|i: int| 0 <= i < flushed.len() implies batch_ok(
                self.settings,
                #[trigger] flushed[i]@,
            ) by {
                assert(views(flushed@)[i] == flushed[i]@);
            }
        }
        flushed
    }

    /// Hands out every open batch, in the order in which they were opened.
    pub fn flush_all(&mut self) -> (flushed: Vec<Batch>)
        requires
            old(self).wf(),
        ensures
            final(self).wf(),
            final(self).settings() == old(self).settings(),
            final(self).open() == Seq::<BatchView>::empty(),
            views(flushed@) == old(self).open(),
            forall|i: int|
                0 <= i < flushed.len() ==> batch_ok(old(self).settings(), #[trigger] flushed[i]@),
    {
        let mut flushed: Vec<Batch> = Vec::new();
        std::mem::swap(&mut flushed, &mut self.open);
        proof {
            assert(views(self.open@) =~= Seq::<BatchView>::empty());
            assert forall|i: int| 0 <= i < flushed.len() implies batch_ok(
                self.settings,
                #[trigger] flushed[i]@,
            ) by {
                assert(views(flushed@)[i] == flushed[i]@);
            }
        }
        flushed
    }
}

/// A batch of one document is well formed.
pub proof fn lemma_fresh_ok(settings: BatchSettings, doc: DocumentView, now: u64)
    requires
        settings.valid(),
    ensures
        batch_ok(settings, fresh(doc, now)),
{
    let docs = seq![doc];
    assert(docs.drop_last() =~= Seq::<DocumentView>::empty());
    assert(total_size(docs.drop_last()) == 0);
    assert(total_size(docs) == doc.size());
}

/// A batch that takes a document that fits stays well formed.
pub proof fn lemma_extended_ok(settings: BatchSettings, b: BatchView, doc: DocumentView)
    requires
        batch_ok(settings, b),
        fits(settings, b, doc),
        key_of(doc) == b.key,
    ensures
        batch_ok(settings, extended(b, doc)),
{
    let docs = b.docs.push(doc);
    assert(docs.drop_last() =~= b.docs);
}

/// Replacing a batch by a well-formed one with the same key keeps the open
/// batches well formed.
pub proof fn lemma_update_ok(settings: BatchSettings, open: Seq<BatchView>, i: int, b: BatchView)
    requires
        open_ok(settings, open),
        0 <= i < open.len(),
        batch_ok(settings, b),
        b.key == open[i].key,
    ensures
        open_ok(settings, open.update(i, b)),
{
}

/// Selecting from well-formed open batches gives well-formed batches, and
/// brings in no key that was not there.
pub proof fn lemma_select_ok(settings: BatchSettings, open: Seq<BatchView>, now: u64, want: bool)
    requires
        open_ok(settings, open),
    ensures
        open_ok(settings, select(settings, open, now, want)),
        forall|key: KeyView| absent(open, key) ==> absent(select(settings, open, now, want), key),
    decreases open.len(),
{
    if open.len() > 0 {
        let front = open.drop_last();
        let last = open.last();
        assert(open_ok(settings, front));
        lemma_select_ok(settings, front, now, want);
        let rest = select(settings, front, now, want);
        assert(absent(front, last.key));
        assert(absent(rest, last.key));
        assert forall|key: KeyView| absent(open, key) implies absent(
            select(settings, open, now, want),
            key,
        ) by {
            assert(absent(front, key)) by {
                assert forall|i: int| 0 <= i < front.len() implies (#[trigger] front[i]).key
                    != key by {
                    assert(front[i] == open[i]);
                }
            }
        }
    }
}

} // verus!
