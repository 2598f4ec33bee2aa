//! Reads the body of a bulk request back into pairs of action line and
//! source line.

use crate::document::Document;
use crate::encoder::{action_line, encodable, entry, lemma_action_line_single_line, serialized,
    single_line, Dialect};
use crate::json::NEWLINE;
use vstd::prelude::*;

verus! {

/// An action line and the source line that follows it, without their line
/// feeds.
#[derive(Clone, Debug, PartialEq, Eq)]
pub struct LinePair {
    pub action: Vec<u8>,
    pub source: Vec<u8>,
}

/// A pair of lines as a model value.
pub struct PairView {
    pub action: Seq<u8>,
    pub source: Seq<u8>,
}

impl View for LinePair {
    type V = PairView;

    open spec fn view(&self) -> PairView {
        PairView { action: self.action@, source: self.source@ }
    }
}

/// The models of some pairs.
pub open spec fn pair_views(pairs: Seq<LinePair>) -> Seq<PairView> {
    pairs.map_values(|p: LinePair| p@)
}

/// The position of the first line feed at or after `from`, or the length
/// where there is none.
pub open spec fn first_newline(s: Seq<u8>, from: int) -> int
    decreases s.len() - from,
{
    if from < 0 || from >= s.len() {
        s.len() as int
    } else if s[from] == NEWLINE {
        from
    } else {
        first_newline(s, from + 1)
    }
}

/// The lines of a text, without their line feeds. A text that does not end
/// in a line feed has what follows the last one as its last line.
pub open spec fn lines(s: Seq<u8>) -> Seq<Seq<u8>>
    decreases s.len(),
{
    if s.len() == 0 {
        Seq::empty()
    } else {
        let i = first_newline(s, 0);
        if i < 0 || i >= s.len() {
            seq![s]
        } else {
            seq![s.take(i)] + lines(s.skip(i + 1))
        }
    }
}

/// Whether every line of a text is ended by a line feed.
pub open spec fn terminated(s: Seq<u8>) -> bool {
    s.len() == 0 || s.last() == NEWLINE
}

/// The lines taken two by two.
pub open spec fn paired(ls: Seq<Seq<u8>>) -> Seq<PairView> {
    Seq::new(ls.len() / 2, |i: int| PairView { action: ls[2 * i], source: ls[2 * i + 1] })
}

/// The pairs a body holds: `None` where its last line is not ended or the
/// number of its lines is odd.
pub open spec fn decoded(s: Seq<u8>) -> Option<Seq<PairView>> {
    if terminated(s) && lines(s).len() % 2 == 0 {
        Some(paired(lines(s)))
    } else {
        None
    }
}

/// The lines of some pairs, one after the other.
pub open spec fn flat(pairs: Seq<PairView>) -> Seq<Seq<u8>>
    decreases pairs.len(),
{
    if pairs.len() == 0 {
        Seq::empty()
    } else {
        flat(pairs.drop_last()).push(pairs.last().action).push(pairs.last().source)
    }
}

proof fn lemma_flat(pairs: Seq<PairView>)
    ensures
        flat(pairs).len() == 2 * pairs.len(),
        paired(flat(pairs)) == pairs,
    decreases pairs.len(),
{
    if pairs.len() > 0 {
        let front = pairs.drop_last();
        lemma_flat(front);
        let f = flat(pairs);
        assert forall|i: int| 0 <= i < pairs.len() implies paired(f)[i] == pairs[i] by {
            if i < front.len() {
                assert(paired(flat(front))[i] == front[i]);
                assert(f[2 * i] == flat(front)[2 * i]);
                assert(f[2 * i + 1] == flat(front)[2 * i + 1]);
            }
        }
        assert(paired(f) =~= pairs);
    } else {
        assert(paired(flat(pairs)) =~= pairs);
    }
}

proof fn lemma_first_newline(s: Seq<u8>, from: int, at: int)
    requires
        0 <= from <= at <= s.len(),
        at < s.len() ==> s[at] == NEWLINE,
        forall|j: int| from <= j < at ==> #[trigger] s[j] != NEWLINE,
    ensures
        first_newline(s, from) == at,
    decreases at - from,
{
    if from < at {
        lemma_first_newline(s, from + 1, at);
    }
}

proof fn lemma_first_newline_found(s: Seq<u8>, from: int)
    requires
        0 <= from <= s.len(),
    ensures
        from <= first_newline(s, from) <= s.len(),
        first_newline(s, from) < s.len() ==> s[first_newline(s, from)] == NEWLINE,
        forall|j: int| from <= j < first_newline(s, from) ==> #[trigger] s[j] != NEWLINE,
    decreases s.len() - from,
{
    if from < s.len() && s[from] != NEWLINE {
        lemma_first_newline_found(s, from + 1);
    }
}

/// The lines of a line, its line feed and more text are that line and the
/// lines of the rest.
proof fn lemma_lines_cons(a: Seq<u8>, rest: Seq<u8>)
    requires
        single_line(a),
    ensures
        lines(a + seq![NEWLINE] + rest) == seq![a] + lines(rest),
{
    let s = a + seq![NEWLINE] + rest;
    assert(s[a.len() as int] == NEWLINE);
    assert forall|j: int| 0 <= j < a.len() implies #[trigger] s[j] != NEWLINE by {
        assert(s[j] == a[j]);
    }
    lemma_first_newline(s, 0, a.len() as int);
    assert(s.take(a.len() as int) =~= a);
    assert(s.skip(a.len() as int + 1) =~= rest);
}

/// The lines of two texts, the first of which ends its last line, are the
/// lines of the one followed by the lines of the other.
proof fn lemma_lines_add(x: Seq<u8>, y: Seq<u8>)
    requires
        terminated(x),
    ensures
        lines(x + y) == lines(x) + lines(y),
    decreases x.len(),
{
    if x.len() == 0 {
        assert(x + y =~= y);
        assert(lines(x) + lines(y) =~= lines(y));
    } else {
        lemma_first_newline_found(x, 0);
        let i = first_newline(x, 0);
        assert(i < x.len()) by {
            if i >= x.len() {
                assert(x[x.len() - 1] != NEWLINE);
            }
        }
        let a = x.take(i);
        let rest = x.skip(i + 1);
        assert(single_line(a));
        assert(x =~= a + seq![NEWLINE] + rest);
        assert(x + y =~= a + seq![NEWLINE] + (rest + y));
        lemma_lines_cons(a, rest + y);
        lemma_lines_cons(a, rest);
        assert(terminated(rest)) by {
            if rest.len() > 0 {
                assert(rest.last() == x.last());
            }
        }
        lemma_lines_add(rest, y);
        assert(seq![a] + (lines(rest) + lines(y)) =~= (seq![a] + lines(rest)) + lines(y));
    }
}

/// The pairs that serializing some documents writes: for each document that
/// can be written, in order, its action line and its payload.
pub open spec fn written(dialect: Dialect, docs: Seq<Document>) -> Seq<PairView>
    decreases docs.len(),
{
    if docs.len() == 0 {
        Seq::empty()
    } else {
        let rest = written(dialect, docs.drop_last());
        if encodable(docs.last()) {
            rest.push(
                PairView { action: action_line(dialect, docs.last()), source: docs.last().payload@ },
            )
        } else {
            rest
        }
    }
}

proof fn lemma_serialized_lines(dialect: Dialect, docs: Seq<Document>)
    ensures
        terminated(serialized(dialect, docs)),
        lines(serialized(dialect, docs)) == flat(written(dialect, docs)),
    decreases docs.len(),
{
    if docs.len() > 0 {
        let front = docs.drop_last();
        let doc = docs.last();
        lemma_serialized_lines(dialect, front);
        if encodable(doc) {
            let a = action_line(dialect, doc);
            let p = doc.payload@;
            lemma_action_line_single_line(dialect, doc);
            let tail = p + seq![NEWLINE];
            assert(entry(dialect, doc) =~= a + seq![NEWLINE] + tail);
            lemma_lines_cons(a, tail);
            assert(tail =~= p + seq![NEWLINE] + Seq::<u8>::empty());
            lemma_lines_cons(p, Seq::<u8>::empty());
            assert(lines(entry(dialect, doc)) =~= seq![a, p]);
            lemma_lines_add(serialized(dialect, front), entry(dialect, doc));
            let w = written(dialect, front);
            let x = PairView { action: a, source: p };
            assert(w.push(x).drop_last() =~= w);
            assert(flat(w) + seq![a, p] =~= flat(w.push(x)));
        }
    }
}

/// Reading back what was written gives what was written: the body that
/// serializing some documents gives decodes into one pair for each document
/// that could be written, in the order of the documents, each with the
/// document's action line and payload.
pub proof fn lemma_round_trip(dialect: Dialect, docs: Seq<Document>)
    ensures
        decoded(serialized(dialect, docs)) == Some(written(dialect, docs)),
{
    lemma_serialized_lines(dialect, docs);
    lemma_flat(written(dialect, docs));
}

/// Where every document can be written, the body holds as many pairs as
/// there are documents, the pair at each position being that of the document
/// at that position.
pub proof fn lemma_round_trip_all(dialect: Dialect, docs: Seq<Document>)
    requires
        forall|i: int| 0 <= i < docs.len() ==> encodable(#[trigger] docs[i]),
    ensures
        decoded(serialized(dialect, docs)) == Some(written(dialect, docs)),
        written(dialect, docs).len() == docs.len(),
        forall|i: int|
            0 <= i < docs.len() ==> (#[trigger] written(dialect, docs)[i]) == (PairView {
                action: action_line(dialect, docs[i]),
                source: docs[i].payload@,
            }),
    decreases docs.len(),
{
    lemma_round_trip(dialect, docs);
    if docs.len() > 0 {
        let front = docs.drop_last();
        assert forall|i: int| 0 <= i < front.len() implies encodable(#[trigger] front[i]) by {
            assert(front[i] == docs[i]);
        }
        lemma_round_trip_all(dialect, front);
        assert(encodable(docs.last()));
        assert forall|i: int| 0 <= i < docs.len() implies (#[trigger] written(dialect, docs)[i])
            == (PairView { action: action_line(dialect, docs[i]), source: docs[i].payload@ }) by {
            if i < front.len() {
                assert(written(dialect, docs)[i] == written(dialect, front)[i]);
                assert(front[i] == docs[i]);
            }
        }
    }
}

/// The lines read so far: those of the finished pairs and the action line
/// that waits for its source line.
spec fn lines_read(pairs: Seq<LinePair>, pending: Option<Vec<u8>>) -> Seq<Seq<u8>> {
    match pending {
        Some(a) => flat(pair_views(pairs)).push(a@),
        None => flat(pair_views(pairs)),
    }
}

/// One pair is written for each document that can be written.
pub proof fn lemma_written_count(dialect: Dialect, docs: Seq<Document>)
    ensures
        written(dialect, docs).len() == crate::encoder::picked(docs, true).len(),
    decreases docs.len(),
{
    if docs.len() > 0 {
        lemma_written_count(dialect, docs.drop_last());
    }
}

/// Reads a body back into its pairs of lines. `None` where the last line is
/// not ended by a line feed or the number of lines is odd.
pub fn decode(body: &[u8]) -> (pairs: Option<Vec<LinePair>>)
    ensures
        match pairs {
            Some(p) => decoded(body@) == Some(pair_views(p@)),
            None => decoded(body@).is_none(),
        },
{
    let mut pairs: Vec<LinePair> = Vec::new();
    let mut pending: Option<Vec<u8>> = None;
    let mut cur: Vec<u8> = Vec::new();
    let ghost mut start: int = 0;
    let mut i: usize = 0;
    proof {
        assert(body@.skip(0) =~= body@);
        assert(pair_views(pairs@) =~= Seq::<PairView>::empty());
        assert(lines_read(pairs@, pending) + lines(body@) =~= lines(body@));
    }
    while i < body.len()
        invariant
            0 <= start <= i <= body.len(),
            start == 0 || body@[start - 1] == NEWLINE,
            cur@ == body@.subrange(start, i as int),
            forall|j: int| start <= j < i ==> #[trigger] body@[j] != NEWLINE,
            lines(body@) == lines_read(pairs@, pending) + lines(body@.skip(start)),
        decreases body.len() - i,
    {
        let b: u8 = body[i];
        if b == NEWLINE {
            let ghost t = body@.skip(start);
            let ghost done = lines_read(pairs@, pending);
            proof {
                assert(t[i - start] == NEWLINE);
                assert forall|j: int| 0 <= j < i - start implies #[trigger] t[j] != NEWLINE by {
                    assert(t[j] == body@[start + j]);
                }
                lemma_first_newline(t, 0, i - start);
                assert(t.take(i - start) =~= cur@);
                assert(t.skip(i - start + 1) =~= body@.skip(i + 1));
                assert(lines(t) == seq![cur@] + lines(body@.skip(i + 1)));
                assert(done + (seq![cur@] + lines(body@.skip(i + 1))) =~= done.push(cur@) + lines(
                    body@.skip(i + 1),
                ));
            }
            let line = cur;
            cur = Vec::new();
            let prev = pending;
            pending = None;
            match prev {
                Some(action) => {
                    let ghost before = pair_views(pairs@);
                    let pair = LinePair { action, source: line };
                    pairs.push(pair);
                    proof {
                        assert(pair_views(pairs@) =~= before.push(pair@));
                        assert(pair_views(pairs@).drop_last() =~= before);
                    }
                },
                None => {
                    pending = Some(line);
                },
            }
            proof {
                start = i + 1;
            }
        } else {
            cur.push(b);
            proof {
                assert(cur@ =~= body@.subrange(start, i + 1));
            }
        }
        i += 1;
    }
    proof {
        let t = body@.skip(start);
        if cur.len() == 0 {
            assert(t.len() == 0);
            assert(flat(pair_views(pairs@)) + lines(t) =~= flat(pair_views(pairs@)));
            lemma_flat(pair_views(pairs@));
            if pending.is_some() {
                assert(flat(pair_views(pairs@)).push(pending.unwrap()@) + lines(t) =~= flat(
                    pair_views(pairs@),
                ).push(pending.unwrap()@));
            }
        } else {
            assert(body@.last() == body@[body.len() - 1]);
        }
    }
    if cur.len() != 0 {
        return None;
    }
    match pending {
        Some(_) => None,
        None => Some(pairs),
    }
}

} // verus!
