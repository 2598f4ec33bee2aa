//! The sink: what is worked out once from the settings, and the pipeline
//! that takes events and hands out requests.

use crate::batcher::{push_flushed, push_open, select, views, Batch, BatchSettings, BatchView,
    Batcher};
use crate::batcher_laws::{doc_count, lemma_push_counts};
use crate::config::{dialect_for, resolve_dialect, same_mode, ConfigError, InfinoCommonMode,
    InfinoConfig, InfinoMode};
use crate::encoding::{same_transformer, Transformer};
use crate::dispatch::RetryPolicy;
use crate::event::Event;
use crate::request::{all_positions, is_built, Built, RequestBuilder};
use crate::transform::{transform_event, transformed, TransformError};
use vstd::prelude::*;

verus! {

/// What is worked out from the settings once, at start, and handed on
/// from there.
#[derive(Clone, Debug, PartialEq, Eq)]
pub struct InfinoCommon {
    pub mode: InfinoCommonMode,
    pub request_builder: RequestBuilder,
    pub retry: RetryPolicy,
    pub concurrency: usize,
}

/// Whether `mode` is how documents are addressed under `config`.
pub open spec fn is_mode_of(config: InfinoConfig, mode: InfinoCommonMode) -> bool {
    match mode {
        InfinoCommonMode::Bulk { index, action, version, version_type } => {
            &&& config.mode == InfinoMode::Bulk
            &&& index@ == config.bulk.index@
            &&& action == config.bulk.action
            &&& version == config.bulk.version
            &&& version_type == config.bulk.version_type
        },
        InfinoCommonMode::DataStream(ds) => {
            &&& config.mode == InfinoMode::DataStream
            &&& match config.data_stream {
                Some(given) => ds == given,
                None => crate::config::is_default_stream(ds),
            }
        },
    }
}

impl InfinoCommon {
    /// Works out the common part from the settings and the major version
    /// that the destination reported, if it was asked. Settings with a
    /// fault are refused with that fault; then an API version that cannot
    /// be spoken is refused. The first endpoint is the one requests go to.
    pub fn parse(config: &InfinoConfig, probed_major: Option<u32>) -> (common: Result<
        InfinoCommon,
        ConfigError,
    >)
        ensures
            match common {
                Ok(c) => {
                    &&& config.fault().is_none()
                    &&& dialect_for(config.api_version, probed_major) == Ok::<_, ConfigError>(
                        c.request_builder.dialect,
                    )
                    &&& is_mode_of(*config, c.mode)
                    &&& c.request_builder.endpoint == config.endpoints@[0]
                    &&& c.request_builder.compression == config.compression
                    &&& c.request_builder.pipeline == config.pipeline
                    &&& c.retry == (RetryPolicy {
                        max_retries: config.request.retry_attempts,
                        initial_backoff_ms: crate::config::seconds_as_ms(
                            config.request.retry_initial_backoff_secs,
                        ),
                        max_backoff_ms: crate::config::seconds_as_ms(
                            config.request.retry_max_duration_secs,
                        ),
                        retry_partial: config.request_retry_partial,
                    })
                    &&& c.concurrency == config.request.concurrency
                },
                Err(e) => match config.fault() {
                    Some(fault) => e == fault,
                    None => dialect_for(config.api_version, probed_major) == Err::<
                        crate::encoder::Dialect,
                        ConfigError,
                    >(e),
                },
            },
    {
        match config.validate() {
            Ok(_) => {},
            Err(e) => {
                return Err(e);
            },
        }
        let dialect = match resolve_dialect(config.api_version, probed_major) {
            Ok(d) => d,
            Err(e) => {
                return Err(e);
            },
        };
        let mode = match config.common_mode() {
            Ok(m) => m,
            Err(e) => {
                return Err(e);
            },
        };
        Ok(
            InfinoCommon {
                mode,
                request_builder: RequestBuilder {
                    endpoint: config.endpoints[0].clone(),
                    dialect,
                    compression: config.compression,
                    pipeline: match &config.pipeline {
                        Some(name) => Some(name.clone()),
                        None => None,
                    },
                },
                retry: config.retry_policy(),
                concurrency: config.request.concurrency,
            },
        )
    }
}

/// An event that gave no document.
#[derive(Clone, Copy, Debug, PartialEq, Eq, Structural)]
pub struct Rejection {
    /// The event's position among the events taken.
    pub position: usize,
    pub error: TransformError,
}

/// A batch that was handed out, with the request built for it.
#[derive(Clone, Debug, PartialEq, Eq)]
pub struct Prepared {
    pub batch: Batch,
    pub built: Built,
}

/// What taking some events gives.
#[derive(Clone, Debug, PartialEq, Eq)]
pub struct RunOutput {
    /// The batches that filled up, oldest first, each with its request.
    pub prepared: Vec<Prepared>,
    /// The events that were dropped, in the order taken.
    pub rejected: Vec<Rejection>,
}

/// The model of a run: the open batches, the batches handed out and the
/// events dropped.
pub struct RunView {
    pub open: Seq<BatchView>,
    pub flushed: Seq<BatchView>,
    pub rejected: Seq<Rejection>,
}

/// What taking one more event gives. A trace changes nothing. An event
/// that gives no document is dropped and reported with its position. A
/// document goes to the batcher, which may hand out the batch that it did
/// not fit into.
#[verifier::opaque]
pub open spec fn run_step(
    settings: BatchSettings,
    mode: InfinoCommonMode,
    id_key: Option<String>,
    transformer: Transformer,
    before: RunView,
    event: Event,
    position: usize,
    now: u64,
) -> RunView {
    match transformed(event, mode, id_key, transformer) {
        Err(error) => RunView {
            open: before.open,
            flushed: before.flushed,
            rejected: before.rejected.push(Rejection { position, error }),
        },
        Ok(None) => before,
        Ok(Some(doc)) => RunView {
            open: push_open(settings, before.open, doc, now),
            flushed: match push_flushed(settings, before.open, doc) {
                Some(b) => before.flushed.push(b),
                None => before.flushed,
            },
            rejected: before.rejected,
        },
    }
}

/// What taking the events in order gives, starting from the open batches
/// `open`.
pub open spec fn run_events(
    settings: BatchSettings,
    mode: InfinoCommonMode,
    id_key: Option<String>,
    transformer: Transformer,
    open: Seq<BatchView>,
    events: Seq<Event>,
    now: u64,
) -> RunView
    decreases events.len(),
{
    if events.len() == 0 {
        RunView { open, flushed: Seq::empty(), rejected: Seq::empty() }
    } else {
        run_step(
            settings,
            mode,
            id_key,
            transformer,
            run_events(settings, mode, id_key, transformer, open, events.drop_last(), now),
            events.last(),
            (events.len() - 1) as usize,
            now,
        )
    }
}

/// The number of events that give neither a document nor an error: the
/// traces.
pub open spec fn passed_over(
    mode: InfinoCommonMode,
    id_key: Option<String>,
    transformer: Transformer,
    events: Seq<Event>,
) -> nat
    decreases events.len(),
{
    if events.len() == 0 {
        0
    } else {
        passed_over(mode, id_key, transformer, events.drop_last()) + match transformed(
            events.last(),
            mode,
            id_key,
            transformer,
        ) {
            Ok(None) => 1nat,
            _ => 0nat,
        }
    }
}

/// No event is lost without a word: of the events taken, each is passed
/// over, reported as dropped, or has its document in a batch that was
/// handed out or is still open.
pub proof fn lemma_every_event_is_accounted_for(
    settings: BatchSettings,
    mode: InfinoCommonMode,
    id_key: Option<String>,
    transformer: Transformer,
    open: Seq<BatchView>,
    events: Seq<Event>,
    now: u64,
)
    ensures
        ({
            let run = run_events(settings, mode, id_key, transformer, open, events, now);
            passed_over(mode, id_key, transformer, events) + run.rejected.len() + doc_count(run.flushed)
                + doc_count(run.open) == events.len() + doc_count(open)
        }),
    decreases events.len(),
{
    reveal(run_step);
    if events.len() > 0 {
        lemma_every_event_is_accounted_for(
            settings,
            mode,
            id_key,
            transformer,
            open,
            events.drop_last(),
            now,
        );
        let before = run_events(settings, mode, id_key, transformer, open, events.drop_last(), now);
        match transformed(events.last(), mode, id_key, transformer) {
            Ok(Some(doc)) => {
                lemma_push_counts(settings, before.open, doc, now);
                match push_flushed(settings, before.open, doc) {
                    Some(b) => {
                        assert(before.flushed.push(b).drop_last() =~= before.flushed);
                    },
                    None => {},
                }
            },
            _ => {},
        }
    }
}

/// The elements of a vector in the opposite order.
fn reversed<T>(v: Vec<T>) -> (r: Vec<T>)
    ensures
        r@.len() == v@.len(),
        forall|j: int| 0 <= j < r@.len() ==> r@[j] == v@[v@.len() - 1 - j],
{
    let mut rest = v;
    let mut r: Vec<T> = Vec::new();
    while rest.len() > 0
        invariant
            rest@.len() + r@.len() == v@.len(),
            rest@ == v@.take(rest@.len() as int),
            forall|j: int| 0 <= j < r@.len() ==> r@[j] == v@[v@.len() - 1 - j],
        decreases rest.len(),
    {
        let ghost n = rest@.len();
        let x = rest.pop().unwrap();
        r.push(x);
        proof {
            assert(rest@ =~= v@.take(n - 1));
        }
    }
    r
}

/// The batches of some prepared requests.
pub open spec fn batches_of(prepared: Seq<Prepared>) -> Seq<BatchView> {
    prepared.map_values(|p: Prepared| p.batch@)
}

/// Whether each request was built for all documents of its batch.
pub open spec fn all_built(builder: RequestBuilder, prepared: Seq<Prepared>) -> bool {
    forall|i: int|
        0 <= i < prepared.len() ==> is_built(
            builder,
            (#[trigger] prepared[i]).batch.documents@,
            Seq::new(prepared[i].batch.documents@.len(), |j: int| j as usize),
            prepared[i].built,
        )
}

/// The sink.
#[derive(Debug)]
pub struct InfinoSink {
    pub batch_settings: BatchSettings,
    pub request_builder: RequestBuilder,
    pub transformer: Transformer,
    pub mode: InfinoCommonMode,
    pub id_key_field: Option<String>,
    pub batcher: Batcher,
}

impl InfinoSink {
    /// The open batches.
    pub open spec fn open(&self) -> Seq<BatchView> {
        self.batcher.open()
    }

    /// The sink's invariant: its batcher is well formed and works with the
    /// sink's batch settings.
    pub open spec fn wf(&self) -> bool {
        self.batcher.wf() && self.batcher.settings() == self.batch_settings
    }

    /// A sink with no open batch: the batch limits and the id field of the
    /// settings, the settings' transformer, and the request builder and
    /// the mode of the common part. Batch limits of zero are refused.
    pub fn new(common: &InfinoCommon, config: &InfinoConfig) -> (sink: Result<InfinoSink, ConfigError>)
        ensures
            match sink {
                Ok(s) => {
                    &&& s.wf()
                    &&& s.open() == Seq::<BatchView>::empty()
                    &&& config.batch.events() >= 1 && config.batch.bytes() >= 1
                    &&& s.batch_settings == (BatchSettings {
                        max_events: config.batch.events(),
                        max_bytes: config.batch.bytes(),
                        linger_ms: config.batch.linger_ms(),
                    })
                    &&& s.request_builder == common.request_builder
                    &&& same_transformer(s.transformer, config.encoding)
                    &&& same_mode(s.mode, common.mode)
                    &&& s.id_key_field == config.id_key
                },
                Err(e) => e == ConfigError::InvalidBatch && !(config.batch.events() >= 1
                    && config.batch.bytes() >= 1),
            },
    {
        let batch_settings = match config.batch.into_batcher_settings() {
            Ok(s) => s,
            Err(e) => {
                return Err(e);
            },
        };
        Ok(
            InfinoSink {
                batch_settings,
                request_builder: common.request_builder.duplicate(),
                transformer: config.encoding.duplicate(),
                mode: common.mode.duplicate(),
                id_key_field: match &config.id_key {
                    Some(key) => Some(key.clone()),
                    None => None,
                },
                batcher: Batcher::new(batch_settings),
            },
        )
    }

    fn prepare(&self, batch: Batch) -> (prepared: Prepared)
        ensures
            prepared.batch == batch,
            is_built(
                self.request_builder,
                batch.documents@,
                Seq::new(batch.documents@.len(), |j: int| j as usize),
                prepared.built,
            ),
    {
        let positions = all_positions(batch.documents.len());
        let built = self.request_builder.build(&batch.documents, &positions);
        Prepared { batch, built }
    }

    fn prepare_all(&self, batches: Vec<Batch>) -> (prepared: Vec<Prepared>)
        ensures
            batches_of(prepared@) == views(batches@),
            all_built(self.request_builder, prepared@),
    {
        let mut prepared: Vec<Prepared> = Vec::new();
        let ghost all = batches@;
        let mut rest = reversed(batches);
        proof {
            assert(batches_of(prepared@) =~= views(all.take(0)));
        }
        while rest.len() > 0
            invariant
                rest@.len() + prepared@.len() == all.len(),
                forall|j: int| 0 <= j < rest@.len() ==> rest@[j] == all[all.len() - 1 - j],
                batches_of(prepared@) == views(all.take(prepared@.len() as int)),
                all_built(self.request_builder, prepared@),
            decreases rest.len(),
        {
            let ghost before = prepared@;
            let ghost k = prepared@.len() as int;
            let batch = rest.pop().unwrap();
            assert(batch == all[k]);
            let next = self.prepare(batch);
            prepared.push(next);
            proof {
                assert(prepared@ == before.push(next));
                assert forall|i: int| 0 <= i <= k implies batches_of(prepared@)[i] == views(
                    all.take(k + 1),
                )[i] by {
                    if i < k {
                        assert(batches_of(before)[i] == views(all.take(k))[i]);
                        assert(prepared@[i] == before[i]);
                    }
                }
                assert(batches_of(prepared@) =~= views(all.take(k + 1)));
                assert forall|i: int| 0 <= i < prepared@.len() implies is_built(
                    self.request_builder,
                    (#[trigger] prepared@[i]).batch.documents@,
                    Seq::new(prepared@[i].batch.documents@.len(), |j: int| j as usize),
                    prepared@[i].built,
                ) by {
                    if i < before.len() {
                        assert(prepared@[i] == before[i]);
                    }
                }
            }
        }
        proof {
            assert(all.take(all.len() as int) == all);
        }
        prepared
    }

    fn take_event(
        &mut self,
        event: Event,
        position: usize,
        now: u64,
        flushed: &mut Vec<Batch>,
        rejected: &mut Vec<Rejection>,
    )
        requires
            old(self).wf(),
        ensures
            final(self).wf(),
            final(self).batch_settings == old(self).batch_settings,
            final(self).request_builder == old(self).request_builder,
            final(self).mode == old(self).mode,
            final(self).id_key_field == old(self).id_key_field,
            final(self).transformer == old(self).transformer,
            (RunView {
                open: final(self).batcher.open(),
                flushed: views(final(flushed)@),
                rejected: final(rejected)@,
            }) == run_step(
                old(self).batch_settings,
                old(self).mode,
                old(self).id_key_field,
                old(self).transformer,
                RunView {
                    open: old(self).batcher.open(),
                    flushed: views(old(flushed)@),
                    rejected: old(rejected)@,
                },
                event,
                position,
                now,
            ),
    {
        reveal(run_step);
        match transform_event(event, &self.mode, &self.id_key_field, &self.transformer) {
            Ok(Some(doc)) => {
                let ghost before = views(flushed@);
                match self.batcher.push(doc, now) {
                    Some(batch) => {
                        flushed.push(batch);
                        proof {
                            assert(views(flushed@) =~= before.push(batch@));
                        }
                    },
                    None => {},
                }
            },
            Ok(None) => {},
            Err(error) => {
                rejected.push(Rejection { position, error });
            },
        }
    }

    /// Takes events in order: each is turned into a document, the document
    /// goes to the batch of its partition, and each batch that fills up is
    /// handed out with the request built for it. Traces are passed over.
    /// An event that gives no document is reported and does not stop the
    /// others.
    pub fn run_inner(&mut self, input: Vec<Event>, now: u64) -> (out: RunOutput)
        requires
            old(self).wf(),
        ensures
            final(self).wf(),
            final(self).batch_settings == old(self).batch_settings,
            final(self).request_builder == old(self).request_builder,
            final(self).mode == old(self).mode,
            final(self).id_key_field == old(self).id_key_field,
            final(self).transformer == old(self).transformer,
            ({
                let run = run_events(
                    old(self).batch_settings,
                    old(self).mode,
                    old(self).id_key_field,
                    old(self).transformer,
                    old(self).open(),
                    input@,
                    now,
                );
                &&& final(self).open() == run.open
                &&& batches_of(out.prepared@) == run.flushed
                &&& out.rejected@ == run.rejected
            }),
            all_built(old(self).request_builder, out.prepared@),
    {
        let mut flushed: Vec<Batch> = Vec::new();
        let mut rejected: Vec<Rejection> = Vec::new();
        let ghost all = input@;
        let ghost start = self.batcher.open();
        let count: usize = input.len();
        let mut rest = reversed(input);
        let mut position: usize = 0;
        proof {
            assert(views(flushed@) =~= Seq::<BatchView>::empty());
        }
        while rest.len() > 0
            invariant
                all.len() == count,
                rest@.len() + position == all.len(),
                forall|j: int| 0 <= j < rest@.len() ==> rest@[j] == all[all.len() - 1 - j],
                self.wf(),
                self.batch_settings == old(self).batch_settings,
                self.request_builder == old(self).request_builder,
                self.mode == old(self).mode,
                self.id_key_field == old(self).id_key_field,
                self.transformer == old(self).transformer,
                (RunView { open: self.batcher.open(), flushed: views(flushed@), rejected: rejected@ })
                    == run_events(
                    self.batch_settings,
                    self.mode,
                    self.id_key_field,
                    self.transformer,
                    start,
                    all.take(position as int),
                    now,
                ),
            decreases rest.len(),
        {
            let event = rest.pop().unwrap();
            proof {
                assert(event == all[position as int]);
                assert(all.take(position + 1).drop_last() == all.take(position as int));
                assert(all.take(position + 1).last() == event);
            }
            self.take_event(event, position, now, &mut flushed, &mut rejected);
            position = position + 1;
        }
        proof {
            assert(all.take(all.len() as int) == all);
        }
        let prepared = self.prepare_all(flushed);
        RunOutput { prepared, rejected }
    }

    /// Hands out every batch that has been open for longer than the linger
    /// time, each with its request.
    pub fn tick(&mut self, now: u64) -> (prepared: Vec<Prepared>)
        requires
            old(self).wf(),
        ensures
            final(self).wf(),
            final(self).batch_settings == old(self).batch_settings,
            final(self).request_builder == old(self).request_builder,
            final(self).mode == old(self).mode,
            final(self).id_key_field == old(self).id_key_field,
            final(self).transformer == old(self).transformer,
            final(self).open() == select(old(self).batch_settings, old(self).open(), now, false),
            batches_of(prepared@) == select(old(self).batch_settings, old(self).open(), now, true),
            all_built(old(self).request_builder, prepared@),
    {
        let flushed = self.batcher.tick(now);
        self.prepare_all(flushed)
    }

    /// Hands out every open batch, each with its request; used when the
    /// sink is shut down.
    pub fn drain(&mut self) -> (prepared: Vec<Prepared>)
        requires
            old(self).wf(),
        ensures
            final(self).wf(),
            final(self).batch_settings == old(self).batch_settings,
            final(self).request_builder == old(self).request_builder,
            final(self).mode == old(self).mode,
            final(self).id_key_field == old(self).id_key_field,
            final(self).transformer == old(self).transformer,
            final(self).open() == Seq::<BatchView>::empty(),
            batches_of(prepared@) == old(self).open(),
            all_built(old(self).request_builder, prepared@),
    {
        let flushed = self.batcher.flush_all();
        self.prepare_all(flushed)
    }

    /// The number of open batches.
    pub fn open_count(&self) -> (n: usize)
        ensures
            n == self.open().len(),
    {
        self.batcher.open_count()
    }
}

} // verus!
