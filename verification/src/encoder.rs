//! Turns documents into the body of a bulk request: for each document an
//! action line and a source line, each ended by a line feed.

use crate::document::{BulkAction, Document, VersionType};
use crate::json::{append_bytes, decimal, lemma_decimal_digits, lemma_escaped_is_printable, quoted,
    utf8, write_decimal, write_quoted, NEWLINE};
use vstd::prelude::*;
use vstd::string::StringSliceAdditionalSpecFns;

verus! {

/// The wire dialect of the bulk protocol.
#[derive(Clone, Copy, Debug, PartialEq, Eq, Structural)]
pub enum Dialect {
    /// The older dialect, whose action lines name a mapping type.
    Legacy,
    /// The dialect without mapping types.
    Current,
}

/// The bytes of a text.
pub open spec fn lit(s: &str) -> Seq<u8> {
    s.spec_bytes()
}

/// Appends the bytes of a text to `out`.
pub fn put(out: &mut Vec<u8>, s: &str)
    ensures
        final(out)@ == old(out)@ + lit(s),
{
    append_bytes(out, s.as_bytes());
}

/// No byte of `s` is a line feed.
pub open spec fn single_line(s: Seq<u8>) -> bool {
    forall|i: int| 0 <= i < s.len() ==> #[trigger] s[i] != NEWLINE
}

/// How an action line starts, up to the index name.
pub open spec fn action_open(action: BulkAction) -> Seq<u8> {
    match action {
        BulkAction::Index => lit("{\"index\":{\"_index\":"),
        BulkAction::Create => lit("{\"create\":{\"_index\":"),
        BulkAction::Update => lit("{\"update\":{\"_index\":"),
        BulkAction::Delete => lit("{\"delete\":{\"_index\":"),
    }
}

/// The mapping type that the older dialect names.
pub open spec fn type_member(dialect: Dialect) -> Seq<u8> {
    match dialect {
        Dialect::Legacy => lit(",\"_type\":\"_doc\""),
        Dialect::Current => Seq::empty(),
    }
}

/// The member that carries the document id, where there is one.
pub open spec fn id_member(id: Option<String>) -> Seq<u8> {
    match id {
        Some(id) => lit(",\"_id\":") + quoted(utf8(id@)),
        None => Seq::empty(),
    }
}

/// The name of a version type on the wire.
pub open spec fn version_type_member(version_type: VersionType) -> Seq<u8> {
    match version_type {
        VersionType::Internal => lit(",\"version_type\":\"internal\""),
        VersionType::External => lit(",\"version_type\":\"external\""),
        VersionType::ExternalGte => lit(",\"version_type\":\"external_gte\""),
    }
}

/// The members that carry the version and its type, where there is a
/// version.
pub open spec fn version_member(version: Option<u64>, version_type: VersionType) -> Seq<u8> {
    match version {
        Some(v) => lit(",\"version\":") + decimal(v as nat) + version_type_member(version_type),
        None => Seq::empty(),
    }
}

/// The action line of a document: the action, the index, and the id and
/// version where the document has them.
pub open spec fn action_line(dialect: Dialect, doc: Document) -> Seq<u8> {
    action_open(doc.action) + quoted(utf8(doc.index@)) + type_member(dialect) + id_member(doc.id)
        + version_member(doc.version, doc.version_type) + lit("}}")
}

fn write_action_open(out: &mut Vec<u8>, action: BulkAction)
    ensures
        final(out)@ == old(out)@ + action_open(action),
{
    match action {
        BulkAction::Index => put(out, "{\"index\":{\"_index\":"),
        BulkAction::Create => put(out, "{\"create\":{\"_index\":"),
        BulkAction::Update => put(out, "{\"update\":{\"_index\":"),
        BulkAction::Delete => put(out, "{\"delete\":{\"_index\":"),
    }
}

fn write_type_member(out: &mut Vec<u8>, dialect: Dialect)
    ensures
        final(out)@ == old(out)@ + type_member(dialect),
{
    match dialect {
        Dialect::Legacy => put(out, ",\"_type\":\"_doc\""),
        Dialect::Current => {
            assert(out@ =~= old(out)@ + type_member(dialect));
        },
    }
}

fn write_id_member(out: &mut Vec<u8>, id: &Option<String>)
    ensures
        final(out)@ == old(out)@ + id_member(*id),
{
    match id {
        Some(id) => {
            put(out, ",\"_id\":");
            write_quoted(out, id.as_str().as_bytes());
            assert(out@ =~= old(out)@ + (lit(",\"_id\":") + quoted(utf8(id@))));
        },
        None => {
            assert(out@ =~= old(out)@ + Seq::<u8>::empty());
        },
    }
}

fn write_version_type(out: &mut Vec<u8>, version_type: VersionType)
    ensures
        final(out)@ == old(out)@ + version_type_member(version_type),
{
    match version_type {
        VersionType::Internal => put(out, ",\"version_type\":\"internal\""),
        VersionType::External => put(out, ",\"version_type\":\"external\""),
        VersionType::ExternalGte => put(out, ",\"version_type\":\"external_gte\""),
    }
}

fn write_version_member(out: &mut Vec<u8>, version: Option<u64>, version_type: VersionType)
    ensures
        final(out)@ == old(out)@ + version_member(version, version_type),
{
    match version {
        Some(v) => {
            put(out, ",\"version\":");
            write_decimal(out, v);
            write_version_type(out, version_type);
            assert(out@ =~= old(out)@ + (lit(",\"version\":") + decimal(v as nat)
                + version_type_member(version_type)));
        },
        None => {
            assert(out@ =~= old(out)@ + Seq::<u8>::empty());
        },
    }
}

/// Appends the action line of `doc` to `out`.
pub fn write_action_line(out: &mut Vec<u8>, dialect: Dialect, doc: &Document)
    ensures
        final(out)@ == old(out)@ + action_line(dialect, *doc),
{
    write_action_open(out, doc.action);
    write_quoted(out, doc.index.as_str().as_bytes());
    write_type_member(out, dialect);
    write_id_member(out, &doc.id);
    write_version_member(out, doc.version, doc.version_type);
    put(out, "}}");
    assert(out@ =~= old(out)@ + action_line(dialect, *doc));
}

/// Two texts of one line each make one line.
pub proof fn lemma_single_line_add(a: Seq<u8>, b: Seq<u8>)
    requires
        single_line(a),
        single_line(b),
    ensures
        single_line(a + b),
{
    assert forall|i: int| 0 <= i < (a + b).len() implies #[trigger] (a + b)[i] != NEWLINE by {
        if i < a.len() {
            assert((a + b)[i] == a[i]);
        } else {
            assert((a + b)[i] == b[i - a.len()]);
        }
    }
}

/// A JSON string literal holds no line feed.
pub proof fn lemma_quoted_single_line(s: Seq<u8>)
    ensures
        single_line(quoted(s)),
{
    lemma_escaped_is_printable(s);
    let q = quoted(s);
    assert forall|i: int| 0 <= i < q.len() implies #[trigger] q[i] != NEWLINE by {
        if 1 <= i < q.len() - 1 {
            assert(q[i] == crate::json::escaped(s)[i - 1]);
        }
    }
}

/// A decimal rendering holds no line feed.
pub proof fn lemma_decimal_single_line(n: nat)
    ensures
        single_line(decimal(n)),
{
    lemma_decimal_digits(n);
}

/// A text of plain characters without a line feed is one line.
pub proof fn lemma_ascii_single_line(s: &str)
    requires
        vstd::string::is_ascii(s),
        forall|i: int| 0 <= i < s@.len() ==> #[trigger] s@[i] != '\n',
    ensures
        single_line(lit(s)),
{
    vstd::string::is_ascii_spec_bytes(s);
    assert forall|i: int| 0 <= i < lit(s).len() implies #[trigger] lit(s)[i] != NEWLINE by {
        let c = s@[i];
        assert(lit(s)[i] == c as u8);
        assert(c != '\n');
        assert(c as u32 != 10);
    }
}

proof fn lemma_action_open_single_line(action: BulkAction)
    ensures
        single_line(action_open(action)),
{
    reveal_strlit("{\"index\":{\"_index\":");
    reveal_strlit("{\"create\":{\"_index\":");
    reveal_strlit("{\"update\":{\"_index\":");
    reveal_strlit("{\"delete\":{\"_index\":");
    match action {
        BulkAction::Index => lemma_ascii_single_line("{\"index\":{\"_index\":"),
        BulkAction::Create => lemma_ascii_single_line("{\"create\":{\"_index\":"),
        BulkAction::Update => lemma_ascii_single_line("{\"update\":{\"_index\":"),
        BulkAction::Delete => lemma_ascii_single_line("{\"delete\":{\"_index\":"),
    }
}

proof fn lemma_members_single_line(dialect: Dialect, doc: Document)
    ensures
        single_line(type_member(dialect)),
        single_line(id_member(doc.id)),
        single_line(version_member(doc.version, doc.version_type)),
        single_line(lit("}}")),
{
    reveal_strlit(",\"_type\":\"_doc\"");
    reveal_strlit(",\"_id\":");
    reveal_strlit(",\"version\":");
    reveal_strlit(",\"version_type\":\"internal\"");
    reveal_strlit(",\"version_type\":\"external\"");
    reveal_strlit(",\"version_type\":\"external_gte\"");
    reveal_strlit("}}");
    lemma_ascii_single_line("}}");
    match dialect {
        Dialect::Legacy => lemma_ascii_single_line(",\"_type\":\"_doc\""),
        Dialect::Current => {},
    }
    match doc.id {
        Some(id) => {
            lemma_ascii_single_line(",\"_id\":");
            lemma_quoted_single_line(utf8(id@));
            lemma_single_line_add(lit(",\"_id\":"), quoted(utf8(id@)));
        },
        None => {},
    }
    match doc.version {
        Some(v) => {
            lemma_ascii_single_line(",\"version\":");
            lemma_decimal_single_line(v as nat);
            match doc.version_type {
                VersionType::Internal => lemma_ascii_single_line(",\"version_type\":\"internal\""),
                VersionType::External => lemma_ascii_single_line(",\"version_type\":\"external\""),
                VersionType::ExternalGte => lemma_ascii_single_line(
                    ",\"version_type\":\"external_gte\"",
                ),
            }
            lemma_single_line_add(lit(",\"version\":"), decimal(v as nat));
            lemma_single_line_add(
                lit(",\"version\":") + decimal(v as nat),
                version_type_member(doc.version_type),
            );
        },
        None => {},
    }
}

/// An action line holds no line feed, whatever the document's index and id
/// hold.
pub proof fn lemma_action_line_single_line(dialect: Dialect, doc: Document)
    ensures
        single_line(action_line(dialect, doc)),
{
    lemma_action_open_single_line(doc.action);
    lemma_members_single_line(dialect, doc);
    lemma_quoted_single_line(utf8(doc.index@));
    let a = action_open(doc.action) + quoted(utf8(doc.index@));
    lemma_single_line_add(action_open(doc.action), quoted(utf8(doc.index@)));
    let b = a + type_member(dialect);
    lemma_single_line_add(a, type_member(dialect));
    let c = b + id_member(doc.id);
    lemma_single_line_add(b, id_member(doc.id));
    let d = c + version_member(doc.version, doc.version_type);
    lemma_single_line_add(c, version_member(doc.version, doc.version_type));
    lemma_single_line_add(d, lit("}}"));
}

/// A document can be written when it can be routed and its payload is one
/// line that is not empty.
pub open spec fn encodable(doc: Document) -> bool {
    doc.routable() && doc.payload@.len() > 0 && single_line(doc.payload@)
}

/// The two lines of one document.
pub open spec fn entry(dialect: Dialect, doc: Document) -> Seq<u8> {
    action_line(dialect, doc) + seq![NEWLINE] + doc.payload@ + seq![NEWLINE]
}

/// The body for some documents: the entries of those that can be written,
/// in the order of the documents.
pub open spec fn serialized(dialect: Dialect, docs: Seq<Document>) -> Seq<u8>
    decreases docs.len(),
{
    if docs.len() == 0 {
        Seq::empty()
    } else {
        let rest = serialized(dialect, docs.drop_last());
        if encodable(docs.last()) {
            rest + entry(dialect, docs.last())
        } else {
            rest
        }
    }
}

/// The positions of the documents that can be written (`want` true) or
/// cannot (`want` false), in rising order.
pub open spec fn picked(docs: Seq<Document>, want: bool) -> Seq<usize>
    decreases docs.len(),
{
    if docs.len() == 0 {
        Seq::empty()
    } else {
        let rest = picked(docs.drop_last(), want);
        if encodable(docs.last()) == want {
            rest.push((docs.len() - 1) as usize)
        } else {
            rest
        }
    }
}

/// Tells whether a document can be written.
pub fn check_encodable(doc: &Document) -> (ok: bool)
    ensures
        ok == encodable(*doc),
{
    if doc.index.as_str().unicode_len() == 0 || doc.payload.len() == 0 {
        return false;
    }
    let mut i: usize = 0;
    while i < doc.payload.len()
        invariant
            i <= doc.payload.len(),
            forall|j: int| 0 <= j < i ==> #[trigger] doc.payload@[j] != NEWLINE,
        decreases doc.payload.len() - i,
    {
        if doc.payload[i] == NEWLINE {
            return false;
        }
        i += 1;
    }
    true
}

/// What serializing some documents gives.
#[derive(Clone, Debug, PartialEq, Eq)]
pub struct Encoded {
    /// The body: two lines for each document that was written.
    pub payload: Vec<u8>,
    /// The positions of the documents that were written, one for each pair
    /// of lines, in the order of the lines.
    pub kept: Vec<usize>,
    /// The positions of the documents that could not be written.
    pub dropped: Vec<usize>,
}

/// Serializes the documents in order. One that cannot be written is left
/// out and its position reported; the others are written all the same.
pub fn serialize(dialect: Dialect, docs: &Vec<Document>) -> (out: Encoded)
    ensures
        out.payload@ == serialized(dialect, docs@),
        out.kept@ == picked(docs@, true),
        out.dropped@ == picked(docs@, false),
{
    let mut payload: Vec<u8> = Vec::new();
    let mut kept: Vec<usize> = Vec::new();
    let mut dropped: Vec<usize> = Vec::new();
    let mut i: usize = 0;
    while i < docs.len()
        invariant
            i <= docs.len(),
            payload@ == serialized(dialect, docs@.take(i as int)),
            kept@ == picked(docs@.take(i as int), true),
            dropped@ == picked(docs@.take(i as int), false),
        decreases docs.len() - i,
    {
        proof {
            assert(docs@.take(i + 1).drop_last() == docs@.take(i as int));
            assert(docs@.take(i + 1).last() == docs@[i as int]);
        }
        let doc = &docs[i];
        if check_encodable(doc) {
            let ghost before = payload@;
            write_action_line(&mut payload, dialect, doc);
            payload.push(NEWLINE);
            append_bytes(&mut payload, doc.payload.as_slice());
            payload.push(NEWLINE);
            kept.push(i);
            proof {
                assert(payload@ =~= before + entry(dialect, *doc));
            }
        } else {
            dropped.push(i);
        }
        i += 1;
    }
    proof {
        assert(docs@.take(docs.len() as int) == docs@);
    }
    Encoded { payload, kept, dropped }
}

/// The documents at the given positions, in the order of the positions;
/// a position past the end names no document.
pub open spec fn chosen(docs: Seq<Document>, positions: Seq<usize>) -> Seq<Document>
    decreases positions.len(),
{
    if positions.len() == 0 {
        Seq::empty()
    } else {
        let rest = chosen(docs, positions.drop_last());
        if positions.last() < docs.len() {
            rest.push(docs[positions.last() as int])
        } else {
            rest
        }
    }
}

/// The positions, among those given, of the documents that can be written
/// (`want` true) or cannot (`want` false); a position past the end counts
/// as one that cannot.
pub open spec fn picked_at(docs: Seq<Document>, positions: Seq<usize>, want: bool) -> Seq<usize>
    decreases positions.len(),
{
    if positions.len() == 0 {
        Seq::empty()
    } else {
        let rest = picked_at(docs, positions.drop_last(), want);
        let p = positions.last();
        if (p < docs.len() && encodable(docs[p as int])) == want {
            rest.push(p)
        } else {
            rest
        }
    }
}

/// Serializes the documents at the given positions, in the order of the
/// positions. The body is that of the chosen documents; `kept` and
/// `dropped` hold positions in `docs`.
pub fn serialize_at(dialect: Dialect, docs: &Vec<Document>, positions: &Vec<usize>) -> (out: Encoded)
    ensures
        out.payload@ == serialized(dialect, chosen(docs@, positions@)),
        out.kept@ == picked_at(docs@, positions@, true),
        out.dropped@ == picked_at(docs@, positions@, false),
{
    let mut payload: Vec<u8> = Vec::new();
    let mut kept: Vec<usize> = Vec::new();
    let mut dropped: Vec<usize> = Vec::new();
    let mut i: usize = 0;
    while i < positions.len()
        invariant
            i <= positions.len(),
            payload@ == serialized(dialect, chosen(docs@, positions@.take(i as int))),
            kept@ == picked_at(docs@, positions@.take(i as int), true),
            dropped@ == picked_at(docs@, positions@.take(i as int), false),
        decreases positions.len() - i,
    {
        proof {
            assert(positions@.take(i + 1).drop_last() == positions@.take(i as int));
            assert(positions@.take(i + 1).last() == positions@[i as int]);
        }
        let p: usize = positions[i];
        if p < docs.len() {
            let doc = &docs[p];
            proof {
                let before = chosen(docs@, positions@.take(i as int));
                assert(before.push(*doc).drop_last() =~= before);
            }
            if check_encodable(doc) {
                let ghost before = payload@;
                write_action_line(&mut payload, dialect, doc);
                payload.push(NEWLINE);
                append_bytes(&mut payload, doc.payload.as_slice());
                payload.push(NEWLINE);
                kept.push(p);
                proof {
                    assert(payload@ =~= before + entry(dialect, *doc));
                }
            } else {
                dropped.push(p);
            }
        } else {
            dropped.push(p);
        }
        i += 1;
    }
    proof {
        assert(positions@.take(positions.len() as int) == positions@);
    }
    Encoded { payload, kept, dropped }
}

/// Choosing every position in order chooses every document: the body
/// built for all positions is the body of the documents themselves.
pub proof fn lemma_chosen_all(docs: Seq<Document>, n: nat)
    requires
        n <= docs.len() <= usize::MAX,
    ensures
        chosen(docs, Seq::new(n, |i: int| i as usize)) == docs.take(n as int),
        picked_at(docs, Seq::new(n, |i: int| i as usize), true) == picked(docs.take(n as int), true),
        picked_at(docs, Seq::new(n, |i: int| i as usize), false) == picked(
            docs.take(n as int),
            false,
        ),
    decreases n,
{
    let positions = Seq::new(n, |i: int| i as usize);
    if n == 0 {
        assert(docs.take(0) =~= Seq::<Document>::empty());
    } else {
        let m = (n - 1) as nat;
        lemma_chosen_all(docs, m);
        assert(positions.drop_last() =~= Seq::new(m, |i: int| i as usize));
        assert(positions.last() == m as usize);
        assert(docs.take(n as int).drop_last() =~= docs.take(m as int));
        assert(docs.take(n as int).last() == docs[m as int]);
        assert(chosen(docs, positions) =~= docs.take(n as int));
    }
}

/// Every document is either written or reported, and none is both.
pub proof fn lemma_picked_partition(docs: Seq<Document>)
    requires
        docs.len() <= usize::MAX,
    ensures
        picked(docs, true).len() + picked(docs, false).len() == docs.len(),
        forall|i: int|
            0 <= i < picked(docs, true).len() ==> (#[trigger] picked(docs, true)[i]) < docs.len()
                && encodable(docs[picked(docs, true)[i] as int]),
        forall|i: int|
            0 <= i < picked(docs, false).len() ==> (#[trigger] picked(docs, false)[i]) < docs.len()
                && !encodable(docs[picked(docs, false)[i] as int]),
    decreases docs.len(),
{
    if docs.len() > 0 {
        let front = docs.drop_last();
        lemma_picked_partition(front);
        let yes = picked(docs, true);
        let no = picked(docs, false);
        assert forall|i: int| 0 <= i < yes.len() implies (#[trigger] yes[i]) < docs.len()
            && encodable(docs[yes[i] as int]) by {
            if i < picked(front, true).len() {
                assert(yes[i] == picked(front, true)[i]);
                assert(front[yes[i] as int] == docs[yes[i] as int]);
            }
        }
        assert forall|i: int| 0 <= i < no.len() implies (#[trigger] no[i]) < docs.len()
            && !encodable(docs[no[i] as int]) by {
            if i < picked(front, false).len() {
                assert(no[i] == picked(front, false)[i]);
                assert(front[no[i] as int] == docs[no[i] as int]);
            }
        }
    }
}

} // verus!
