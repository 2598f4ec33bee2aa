//! Builds the request for some documents of a batch: the body, compressed
//! where asked for, with its headers and parameters.

use crate::config::Compression;
use crate::dispatch::Reply;
use crate::decoder::{decoded, lemma_round_trip, lemma_written_count, written};
use crate::document::Document;
use crate::encoder::{chosen, lemma_chosen_all, picked, picked_at, serialize_at, serialized, Dialect};
use crate::fields::{pairs, Label, Pair};
use std::io::Write;
use vstd::prelude::*;
use vstd::string::StringExecFns;

verus! {

/// The gzip stream that the compressor makes of some bytes at its default
/// level.
pub uninterp spec fn gzip_of(data: Seq<u8>) -> Seq<u8>;

/// Compresses bytes with `flate2::write::GzEncoder`, created by
/// `GzEncoder::new` at `flate2::Compression::default()`, fed by `write_all`
/// and closed by `finish`. All that is claimed is that the stream depends
/// on the bytes alone: the header carries no time, no name and a fixed
/// system byte. `None` where the encoder reports an error.
#[verifier::external_body]
fn gzip(data: &[u8]) -> (out: Option<Vec<u8>>)
    ensures
        out matches Some(z) ==> z@ == gzip_of(data@),
{
    let mut encoder = flate2::write::GzEncoder::new(Vec::new(), flate2::Compression::default());
    encoder.write_all(data).ok()?;
    encoder.finish().ok()
}

/// What a request is built from.
#[derive(Clone, Debug, PartialEq, Eq)]
pub struct RequestBuilder {
    pub endpoint: String,
    pub dialect: Dialect,
    pub compression: Compression,
    /// The pipeline the destination applies to every document of a request.
    pub pipeline: Option<String>,
}

/// A bulk request.
#[derive(Clone, Debug, PartialEq, Eq)]
pub struct Request {
    pub endpoint: String,
    pub path: String,
    /// The parameters of the request as a whole.
    pub parameters: Vec<Label>,
    pub headers: Vec<Label>,
    pub body: Vec<u8>,
    /// The positions, in their batch, of the documents in the body, in the
    /// order of the body.
    pub positions: Vec<usize>,
}

/// What is reported about one attempt to send a request.
#[derive(Clone, Copy, Debug, PartialEq, Eq, Structural)]
pub struct AttemptReport {
    /// The number of attempts that failed before this one.
    pub attempt: u32,
    /// The status of the answer, where there was one.
    pub status: Option<u16>,
    /// The bytes of the body that was sent.
    pub bytes: usize,
    /// The documents that the body carried.
    pub documents: usize,
    /// The time from sending to the answer, in milliseconds.
    pub latency_ms: u64,
}

impl Request {
    /// The report about one attempt to send the request: the status that
    /// came back, the size of what was sent, and the time it took (zero
    /// where the clock went back).
    pub fn report(&self, reply: &Reply, attempt: u32, sent_at_ms: u64, answered_at_ms: u64) -> (report:
        AttemptReport)
        ensures
            report == (AttemptReport {
                attempt,
                status: match *reply {
                    Reply::Status { status, items } => Some(status),
                    _ => None,
                },
                bytes: self.body@.len() as usize,
                documents: self.positions@.len() as usize,
                latency_ms: if answered_at_ms >= sent_at_ms {
                    (answered_at_ms - sent_at_ms) as u64
                } else {
                    0
                },
            }),
    {
        AttemptReport {
            attempt,
            status: match reply {
                Reply::Status { status, items } => Some(*status),
                _ => None,
            },
            bytes: self.body.len(),
            documents: self.positions.len(),
            latency_ms: if answered_at_ms >= sent_at_ms {
                answered_at_ms - sent_at_ms
            } else {
                0
            },
        }
    }
}

/// The headers of a request: the content type, and the content encoding
/// where the body is compressed.
pub open spec fn request_headers(compressed: bool) -> Seq<Pair> {
    if compressed {
        seq![("Content-Type"@, "application/x-ndjson"@), ("Content-Encoding"@, "gzip"@)]
    } else {
        seq![("Content-Type"@, "application/x-ndjson"@)]
    }
}

/// The parameters of a request: the pipeline, where one is configured.
pub open spec fn request_parameters(pipeline: Option<String>) -> Seq<Pair> {
    match pipeline {
        Some(name) => seq![("pipeline"@, name@)],
        None => Seq::empty(),
    }
}

/// Whether `request` is the request that carries `body` for the documents
/// at `positions`.
pub open spec fn is_request(
    builder: RequestBuilder,
    request: Request,
    body: Seq<u8>,
    compressed: bool,
    positions: Seq<usize>,
) -> bool {
    &&& request.endpoint@ == builder.endpoint@
    &&& request.path@ == "/_bulk"@
    &&& pairs(request.parameters@) == request_parameters(builder.pipeline)
    &&& pairs(request.headers@) == request_headers(compressed)
    &&& request.body@ == body
    &&& request.positions@ == positions
}

/// The outcome of building a request.
#[derive(Clone, Debug, PartialEq, Eq)]
pub struct Built {
    /// The request, where at least one document could be written.
    pub request: Option<Request>,
    /// The positions of the documents that could not be written.
    pub dropped: Vec<usize>,
}

/// Whether `built` is what building a request for the documents at
/// `positions` gives. A document that cannot be written is left out and
/// reported; the request carries the others. There is no request where none
/// can be written. The body is the serialized documents; where gzip is
/// asked for it is their gzip stream, unless the compressor fails: then it
/// goes uncompressed.
pub open spec fn is_built(
    builder: RequestBuilder,
    docs: Seq<Document>,
    positions: Seq<usize>,
    built: Built,
) -> bool {
    &&& built.dropped@ == picked_at(docs, positions, false)
    &&& match built.request {
        None => picked_at(docs, positions, true).len() == 0,
        Some(r) => {
            let kept = picked_at(docs, positions, true);
            let plain = serialized(builder.dialect, chosen(docs, positions));
            &&& kept.len() > 0
            &&& {
                ||| is_request(builder, r, plain, false, kept)
                ||| builder.compression == Compression::Gzip && is_request(
                    builder,
                    r,
                    gzip_of(plain),
                    true,
                    kept,
                )
            }
        },
    }
}

impl RequestBuilder {
    /// A copy of the builder.
    pub fn duplicate(&self) -> (copy: RequestBuilder)
        ensures
            copy == *self,
    {
        RequestBuilder {
            endpoint: self.endpoint.clone(),
            dialect: self.dialect,
            compression: self.compression,
            pipeline: match &self.pipeline {
                Some(name) => Some(name.clone()),
                None => None,
            },
        }
    }

    /// Puts a request together from a finished body.
    pub fn assemble(&self, body: Vec<u8>, compressed: bool, positions: Vec<usize>) -> (request:
        Request)
        ensures
            is_request(*self, request, body@, compressed, positions@),
    {
        let mut parameters: Vec<Label> = Vec::new();
        match &self.pipeline {
            Some(name) => {
                parameters.push(Label { key: String::from_str("pipeline"), value: name.clone() });
            },
            None => {},
        }
        let mut headers: Vec<Label> = Vec::new();
        headers.push(
            Label {
                key: String::from_str("Content-Type"),
                value: String::from_str("application/x-ndjson"),
            },
        );
        if compressed {
            headers.push(
                Label { key: String::from_str("Content-Encoding"), value: String::from_str("gzip") },
            );
        }
        proof {
            assert(pairs(parameters@) =~= request_parameters(self.pipeline));
            assert(pairs(headers@) =~= request_headers(compressed));
        }
        Request {
            endpoint: self.endpoint.clone(),
            path: String::from_str("/_bulk"),
            parameters,
            headers,
            body,
            positions,
        }
    }

    /// Builds the request for the documents at `positions`.
    pub fn build(&self, docs: &Vec<Document>, positions: &Vec<usize>) -> (built: Built)
        ensures
            is_built(*self, docs@, positions@, built),
    {
        let encoded = serialize_at(self.dialect, docs, positions);
        if encoded.kept.len() == 0 {
            return Built { request: None, dropped: encoded.dropped };
        }
        let packed = match self.compression {
            Compression::Gzip => gzip(encoded.payload.as_slice()),
            Compression::Uncompressed => None,
        };
        let request = match packed {
            Some(z) => self.assemble(z, true, encoded.kept),
            None => self.assemble(encoded.payload, false, encoded.kept),
        };
        Built { request: Some(request), dropped: encoded.dropped }
    }
}

/// The body of a request that goes uncompressed reads back as what was
/// written: a request built for all documents of a batch decodes into one
/// pair of lines for each document that could be written, in the order of
/// the batch, and carries the positions of exactly those documents.
pub proof fn lemma_request_round_trip(builder: RequestBuilder, docs: Seq<Document>, built: Built)
    requires
        docs.len() <= usize::MAX,
        builder.compression == Compression::Uncompressed,
        is_built(builder, docs, Seq::new(docs.len(), |i: int| i as usize), built),
    ensures
        match built.request {
            Some(r) => {
                &&& decoded(r.body@) == Some(written(builder.dialect, docs))
                &&& r.positions@ == picked(docs, true)
                &&& written(builder.dialect, docs).len() == r.positions@.len()
            },
            None => written(builder.dialect, docs).len() == 0,
        },
        built.dropped@ == picked(docs, false),
{
    lemma_chosen_all(docs, docs.len());
    assert(docs.take(docs.len() as int) == docs);
    lemma_round_trip(builder.dialect, docs);
    lemma_written_count(builder.dialect, docs);
}

/// The positions 0 to `n - 1`.
pub fn all_positions(n: usize) -> (positions: Vec<usize>)
    ensures
        positions@ == Seq::new(n as nat, |i: int| i as usize),
{
    let mut positions: Vec<usize> = Vec::new();
    let mut i: usize = 0;
    while i < n
        invariant
            i <= n,
            positions@ == Seq::new(i as nat, |j: int| j as usize),
        decreases n - i,
    {
        positions.push(i);
        proof {
            assert(positions@ =~= Seq::new((i + 1) as nat, |j: int| j as usize));
        }
        i += 1;
    }
    positions
}

} // verus!
