//! The events the sink accepts: metrics, logs and traces.

use crate::json::{check_number_literal, decimal, is_number_literal, lemma_decimal_is_number,
    write_decimal};
use vstd::prelude::*;
use vstd::slice::slice_to_vec;
use vstd::string::StringSliceAdditionalSpecFns;

verus! {

/// A number held as the text of a JSON number literal.
#[derive(Debug, PartialEq, Eq)]
pub struct Number {
    text: Vec<u8>,
}

impl View for Number {
    type V = Seq<u8>;

    closed spec fn view(&self) -> Seq<u8> {
        self.text@
    }
}

impl Clone for Number {
    fn clone(&self) -> (copy: Self)
        ensures
            copy@ == self@,
    {
        proof {
            use_type_invariant(self);
        }
        let text = slice_to_vec(self.text.as_slice());
        Number { text }
    }
}

impl Number {
    #[verifier::type_invariant]
    spec fn is_literal(self) -> bool {
        is_number_literal(self.text@)
    }

    /// Reads a number from its text; `None` where the text is no JSON
    /// number (`NaN`, `inf`, an empty text, a leading `+` or zero).
    pub fn parse(text: &str) -> (number: Option<Number>)
        ensures
            match number {
                Some(n) => n@ == text.spec_bytes() && is_number_literal(n@),
                None => !is_number_literal(text.spec_bytes()),
            },
    {
        let bytes = text.as_bytes();
        if check_number_literal(bytes) {
            Some(Number { text: slice_to_vec(bytes) })
        } else {
            None
        }
    }

    /// The number that stands for an unsigned integer.
    pub fn from_u64(n: u64) -> (number: Number)
        ensures
            number@ == decimal(n as nat),
    {
        let mut text: Vec<u8> = Vec::new();
        write_decimal(&mut text, n);
        proof {
            lemma_decimal_is_number(n as nat);
            assert(text@ == decimal(n as nat));
        }
        Number { text }
    }

    /// The literal's bytes.
    pub fn as_bytes(&self) -> (bytes: &Vec<u8>)
        ensures
            bytes@ == self@,
            is_number_literal(self@),
    {
        proof {
            use_type_invariant(self);
        }
        &self.text
    }
}

/// The value of one field of a log event.
#[derive(Clone, Debug, PartialEq, Eq)]
pub enum FieldValue {
    /// A string.
    Text(String),
    /// Bytes that usually hold a string; they are read as text, with a
    /// replacement character where they are no valid UTF-8.
    Bytes(Vec<u8>),
    /// A number.
    Number(Number),
    /// An array or an object, as its JSON text.
    Structured(Vec<u8>),
}

/// One named field of a log event.
#[derive(Clone, Debug, PartialEq, Eq)]
pub struct Field {
    pub name: String,
    pub value: FieldValue,
}

/// A log event: a timestamp in seconds and its fields in the order in which
/// they were set.
#[derive(Clone, Debug, PartialEq, Eq)]
pub struct LogEvent {
    pub timestamp: u64,
    pub fields: Vec<Field>,
}

/// One tag of a metric.
#[derive(Clone, Debug, PartialEq, Eq)]
pub struct Tag {
    pub key: String,
    pub value: String,
}

/// What a metric measured.
#[derive(Clone, Debug, PartialEq, Eq)]
pub enum MetricValue {
    /// A running total.
    Counter { value: Number },
    /// A value at one point in time.
    Gauge { value: Number },
    /// Bucketed samples; `sample_sum` is the sum of all samples.
    Histogram { sample_sum: Number },
    /// Raw samples; `sample_sum` is the sum of all samples.
    Distribution { sample_sum: Number },
    /// The values seen, in the order seen; a value may occur more than once.
    ValueSet { values: Vec<String> },
}

/// A metric event.
#[derive(Clone, Debug, PartialEq, Eq)]
pub struct Metric {
    pub name: String,
    pub timestamp: u64,
    pub tags: Vec<Tag>,
    pub value: MetricValue,
}

/// An event handed to the sink.
#[derive(Clone, Debug, PartialEq, Eq)]
pub enum Event {
    Metric(Metric),
    Log(LogEvent),
    /// Traces are not written by this sink; they carry the fields of a log.
    Trace(LogEvent),
}

} // verus!
