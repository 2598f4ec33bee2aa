//! Keeps the final word on each document of a batch: when the batch can be
//! acknowledged, and what to report about the documents that were dropped.

use crate::dispatch::{Disposition, DropReason, Settled};
use vstd::prelude::*;

verus! {

/// The summary that acknowledges a batch.
#[derive(Clone, Copy, Debug, PartialEq, Eq, Structural)]
pub struct Acknowledgement {
    pub delivered: usize,
    pub dropped: usize,
}

/// One report about dropped documents: the reason and how many documents
/// were dropped for it.
#[derive(Clone, Copy, Debug, PartialEq, Eq, Structural)]
pub struct DropDiagnostic {
    pub reason: DropReason,
    pub count: usize,
}

/// Whether a document has its final word.
pub open spec fn settled(state: Option<Disposition>) -> bool {
    match state {
        Some(d) => d.terminal(),
        None => false,
    }
}

/// The states after one word: it is taken where it speaks of a document of
/// the batch that has no final word yet, and ignored otherwise.
pub open spec fn noted(states: Seq<Option<Disposition>>, word: Settled) -> Seq<Option<Disposition>> {
    if word.position < states.len() && !settled(states[word.position as int]) {
        states.update(word.position as int, Some(word.disposition))
    } else {
        states
    }
}

/// The states after some words, taken in order.
pub open spec fn recorded(states: Seq<Option<Disposition>>, words: Seq<Settled>) -> Seq<
    Option<Disposition>,
>
    decreases words.len(),
{
    if words.len() == 0 {
        states
    } else {
        noted(recorded(states, words.drop_last()), words.last())
    }
}

/// The number of documents whose state is `Some(d)`.
pub open spec fn count_of(states: Seq<Option<Disposition>>, d: Disposition) -> nat
    decreases states.len(),
{
    if states.len() == 0 {
        0
    } else {
        count_of(states.drop_last(), d) + if states.last() == Some(d) {
            1nat
        } else {
            0nat
        }
    }
}

/// Whether every document has its final word.
pub open spec fn complete(states: Seq<Option<Disposition>>) -> bool {
    forall|i: int| 0 <= i < states.len() ==> settled(#[trigger] states[i])
}

/// The reasons in the order in which they are reported.
pub open spec fn reason_at(i: int) -> DropReason {
    if i == 0 {
        DropReason::TransformFailed
    } else if i == 1 {
        DropReason::EncodingFailed
    } else if i == 2 {
        DropReason::Rejected
    } else if i == 3 {
        DropReason::ItemFailed
    } else if i == 4 {
        DropReason::MalformedResponse
    } else if i == 5 {
        DropReason::RetriesExhausted
    } else {
        DropReason::ShutdownTimeout
    }
}

/// The number of reasons.
pub const REASONS: usize = 7;

/// The reports for the first `n` reasons: one for each reason for which a
/// document was dropped, with the number of such documents.
pub open spec fn reports(states: Seq<Option<Disposition>>, n: int) -> Seq<DropDiagnostic>
    decreases n,
{
    if n <= 0 {
        Seq::empty()
    } else {
        let rest = reports(states, n - 1);
        let count = count_of(states, Disposition::Dropped(reason_at(n - 1)));
        if count > 0 {
            rest.push(DropDiagnostic { reason: reason_at(n - 1), count: count as usize })
        } else {
            rest
        }
    }
}

/// The count of a disposition is at most the number of documents.
pub proof fn lemma_count_bound(states: Seq<Option<Disposition>>, d: Disposition)
    ensures
        count_of(states, d) <= states.len(),
    decreases states.len(),
{
    if states.len() > 0 {
        lemma_count_bound(states.drop_last(), d);
    }
}

/// A final word stays: whatever words come later, a document that has its
/// final word keeps it, so that no document is acknowledged twice.
pub proof fn lemma_final_word_stays(states: Seq<Option<Disposition>>, words: Seq<Settled>, i: int)
    requires
        0 <= i < states.len(),
        settled(states[i]),
    ensures
        recorded(states, words).len() == states.len(),
        recorded(states, words)[i] == states[i],
    decreases words.len(),
{
    if words.len() > 0 {
        lemma_final_word_stays(states, words.drop_last(), i);
    }
}

/// Words never make a batch shorter or longer, and a batch that is complete
/// stays complete.
pub proof fn lemma_complete_stays(states: Seq<Option<Disposition>>, words: Seq<Settled>)
    requires
        complete(states),
    ensures
        recorded(states, words) == states,
    decreases words.len(),
{
    if words.len() > 0 {
        lemma_complete_stays(states, words.drop_last());
        let before = recorded(states, words.drop_last());
        let word = words.last();
        if word.position < before.len() {
            assert(settled(before[word.position as int]));
        }
    }
}

/// The collector of one batch.
#[derive(Clone, Debug, PartialEq, Eq)]
pub struct Collector {
    states: Vec<Option<Disposition>>,
}

impl View for Collector {
    type V = Seq<Option<Disposition>>;

    closed spec fn view(&self) -> Seq<Option<Disposition>> {
        self.states@
    }
}

fn reason_of(i: usize) -> (r: DropReason)
    ensures
        r == reason_at(i as int),
{
    if i == 0 {
        DropReason::TransformFailed
    } else if i == 1 {
        DropReason::EncodingFailed
    } else if i == 2 {
        DropReason::Rejected
    } else if i == 3 {
        DropReason::ItemFailed
    } else if i == 4 {
        DropReason::MalformedResponse
    } else if i == 5 {
        DropReason::RetriesExhausted
    } else {
        DropReason::ShutdownTimeout
    }
}

impl Collector {
    /// A collector for a batch of `count` documents, none of which has a
    /// word yet.
    pub fn new(count: usize) -> (collector: Collector)
        ensures
            collector@ == Seq::new(count as nat, |i: int| None::<Disposition>),
    {
        let mut states: Vec<Option<Disposition>> = Vec::new();
        let mut i: usize = 0;
        while i < count
            invariant
                i <= count,
                states@ == Seq::new(i as nat, |j: int| None::<Disposition>),
            decreases count - i,
        {
            states.push(None);
            proof {
                assert(states@ =~= Seq::new((i + 1) as nat, |j: int| None::<Disposition>));
            }
            i += 1;
        }
        Collector { states }
    }

    /// Takes the words in order. A word about a document that already has
    /// its final word changes nothing: no document is acknowledged twice.
    pub fn record(&mut self, words: &Vec<Settled>)
        ensures
            final(self)@ == recorded(old(self)@, words@),
    {
        let mut i: usize = 0;
        while i < words.len()
            invariant
                i <= words.len(),
                self.states@ == recorded(old(self).states@, words@.take(i as int)),
            decreases words.len() - i,
        {
            proof {
                assert(words@.take(i + 1).drop_last() == words@.take(i as int));
                assert(words@.take(i + 1).last() == words@[i as int]);
            }
            let word = words[i];
            if word.position < self.states.len() {
                let open = match self.states[word.position] {
                    Some(d) => !d.is_terminal(),
                    None => true,
                };
                if open {
                    self.states.set(word.position, Some(word.disposition));
                }
            }
            i += 1;
        }
        proof {
            assert(words@.take(words.len() as int) == words@);
        }
    }

    /// Whether every document has its final word.
    pub fn is_complete(&self) -> (done: bool)
        ensures
            done == complete(self@),
    {
        let mut i: usize = 0;
        while i < self.states.len()
            invariant
                i <= self.states.len(),
                forall|j: int| 0 <= j < i ==> settled(#[trigger] self.states@[j]),
            decreases self.states.len() - i,
        {
            let done = match self.states[i] {
                Some(d) => d.is_terminal(),
                None => false,
            };
            if !done {
                return false;
            }
            i += 1;
        }
        true
    }

    fn count(&self, d: Disposition) -> (n: usize)
        ensures
            n == count_of(self@, d),
    {
        let mut n: usize = 0;
        let mut i: usize = 0;
        while i < self.states.len()
            invariant
                i <= self.states.len(),
                n == count_of(self.states@.take(i as int), d),
                n <= i,
            decreases self.states.len() - i,
        {
            proof {
                assert(self.states@.take(i + 1).drop_last() == self.states@.take(i as int));
                assert(self.states@.take(i + 1).last() == self.states@[i as int]);
            }
            let hit = match self.states[i] {
                Some(x) => x == d,
                None => false,
            };
            if hit {
                n += 1;
            }
            i += 1;
        }
        proof {
            assert(self.states@.take(self.states.len() as int) == self.states@);
        }
        n
    }

    /// The acknowledgement of the batch: `None` until every document has
    /// its final word, then the numbers of documents delivered and dropped.
    pub fn acknowledgement(&self) -> (ack: Option<Acknowledgement>)
        ensures
            match ack {
                Some(a) => complete(self@) && a.delivered == count_of(
                    self@,
                    Disposition::Delivered,
                ) && a.delivered + a.dropped == self@.len(),
                None => !complete(self@),
            },
    {
        if !self.is_complete() {
            return None;
        }
        let delivered = self.count(Disposition::Delivered);
        proof {
            lemma_count_bound(self@, Disposition::Delivered);
        }
        Some(Acknowledgement { delivered, dropped: self.states.len() - delivered })
    }

    /// The reports about dropped documents: one for each reason for which
    /// at least one document was dropped, however many were.
    pub fn diagnostics(&self) -> (out: Vec<DropDiagnostic>)
        ensures
            out@ == reports(self@, REASONS as int),
    {
        let mut out: Vec<DropDiagnostic> = Vec::new();
        let mut i: usize = 0;
        while i < REASONS
            invariant
                i <= REASONS,
                out@ == reports(self@, i as int),
            decreases REASONS - i,
        {
            let reason = reason_of(i);
            let count = self.count(Disposition::Dropped(reason));
            if count > 0 {
                out.push(DropDiagnostic { reason, count });
            }
            i += 1;
        }
        out
    }

    /// The word on the document at `position`, where there is one.
    pub fn disposition(&self, position: usize) -> (d: Option<Disposition>)
        ensures
            d == if position < self@.len() {
                self@[position as int]
            } else {
                None
            },
    {
        if position < self.states.len() {
            self.states[position]
        } else {
            None
        }
    }
}

} // verus!
