//! Turns events into documents: reduces a metric to one number, keeps each
//! field once, works out where the document goes and writes its payload.

use crate::config::{DataStreamConfig, InfinoCommonMode};
use crate::document::{BulkAction, Document, DocumentView, VersionType};
use crate::encoder::{encodable, lemma_ascii_single_line, lemma_decimal_single_line,
    lemma_quoted_single_line, lemma_single_line_add, lit, put, single_line};
use crate::event::{Event, Field, FieldValue, LogEvent, Metric, MetricValue, Number, Tag};
use crate::encoding::{keeps, Transformer};
use crate::fields::{assign, find_key, get, lookup, merged, pairs, upsert, Label, Pair};
use crate::json::{append_bytes, decimal, is_number_literal, lemma_number_is_printable,
    parse_decimal, plain_value, quoted, utf8, write_decimal, write_quoted, NEWLINE};
use crate::template::rendered;
use vstd::prelude::*;
use vstd::slice::slice_to_vec;
use vstd::string::{StringExecFns, StringSliceAdditionalSpecFns};

verus! {

/// Why an event gives no document.
#[derive(Clone, Copy, Debug, PartialEq, Eq, Structural)]
pub enum TransformError {
    /// A template names a field that the event does not have.
    TemplateRendering,
    /// The index name came out empty.
    EmptyIndex,
    /// The version field does not hold a plain decimal number of 64 bits.
    InvalidVersion,
    /// A value of the event is of a shape that cannot be written, such as
    /// a metric value that is no number.
    UnsupportedValue,
}

/// The tags of a metric as pairs.
pub open spec fn tag_pairs(tags: Seq<Tag>) -> Seq<Pair> {
    tags.map_values(|t: Tag| (t.key@, t.value@))
}

/// The text that bytes are read as: their UTF-8 text, with a replacement
/// character for each run of bytes that is no valid UTF-8.
pub uninterp spec fn lossy_text_of(bytes: Seq<u8>) -> Seq<char>;

/// Reads bytes as text with `vrl::value::Value::to_str_lossy`, on the value
/// that `Value::from` makes of the bytes. The text depends on the bytes
/// alone, and bytes that are valid UTF-8 are read as the text they encode.
#[verifier::external_body]
fn lossy_text(bytes: &[u8]) -> (text: String)
    ensures
        text@ == lossy_text_of(bytes@),
        vstd::utf8::valid_utf8(bytes@) ==> utf8(text@) == bytes@,
{
    match vrl::value::Value::from(bytes).to_str_lossy() {
        Some(text) => text.into_owned(),
        None => String::new(),
    }
}

/// The value of a field as a model value: a text, the literal of a number,
/// or the JSON text of a structure.
pub enum ValueView {
    Text(Seq<char>),
    Number(Seq<u8>),
    Structured(Seq<u8>),
}

/// A name and its value as a model value.
pub type Entry = (Seq<char>, ValueView);

/// The model of a field's value. Bytes count as the text they are read as.
pub open spec fn value_view(value: FieldValue) -> ValueView {
    match value {
        FieldValue::Text(s) => ValueView::Text(s@),
        FieldValue::Bytes(b) => ValueView::Text(lossy_text_of(b@)),
        FieldValue::Number(n) => ValueView::Number(n@),
        FieldValue::Structured(b) => ValueView::Structured(b@),
    }
}

/// The fields of a log as entries.
pub open spec fn entry_pairs(fields: Seq<Field>) -> Seq<Entry> {
    fields.map_values(|f: Field| (f.name@, value_view(f.value)))
}

/// The fields that a transformer keeps, in their order.
pub open spec fn kept(transformer: Transformer, fields: Seq<Field>) -> Seq<Field>
    decreases fields.len(),
{
    if fields.len() == 0 {
        Seq::empty()
    } else {
        let rest = kept(transformer, fields.drop_last());
        if keeps(transformer, fields.last().name@) {
            rest.push(fields.last())
        } else {
            rest
        }
    }
}

/// What is written for a log: the fields that the transformer keeps, each
/// name once, names in the order first seen, each with the value seen last.
pub open spec fn message_of(transformer: Transformer, fields: Seq<Field>) -> Seq<Entry> {
    merged(entry_pairs(kept(transformer, fields)))
}

/// The text of a value, by which templates, the id and the version are
/// filled: a text itself, and for a number or a structure the text that its
/// bytes are read as.
pub open spec fn value_text(value: ValueView) -> Seq<char> {
    match value {
        ValueView::Text(t) => t,
        ValueView::Number(b) => lossy_text_of(b),
        ValueView::Structured(b) => lossy_text_of(b),
    }
}

/// The entries as names and texts.
pub open spec fn routing_pairs(entries: Seq<Entry>) -> Seq<Pair> {
    entries.map_values(|e: Entry| (e.0, value_text(e.1)))
}

/// Whether a value can be written into a payload of one line: a structure
/// must come as a JSON text of one line that is not empty.
pub open spec fn writable(value: ValueView) -> bool {
    match value {
        ValueView::Structured(b) => b.len() > 0 && single_line(b),
        _ => true,
    }
}

/// Whether every value can be written.
pub open spec fn all_writable(entries: Seq<Entry>) -> bool {
    forall|i: int| 0 <= i < entries.len() ==> writable((#[trigger] entries[i]).1)
}

/// The tags with each key once: keys in the order first seen, each with the
/// value seen last.
pub fn merge_tags(tags: &Vec<Tag>) -> (labels: Vec<Label>)
    ensures
        pairs(labels@) == merged(tag_pairs(tags@)),
{
    let mut labels: Vec<Label> = Vec::new();
    let mut i: usize = 0;
    proof {
        assert(pairs(labels@) =~= Seq::<Pair>::empty());
    }
    while i < tags.len()
        invariant
            i <= tags.len(),
            pairs(labels@) == merged(tag_pairs(tags@.take(i as int))),
        decreases tags.len() - i,
    {
        proof {
            assert(tag_pairs(tags@.take(i + 1)).drop_last() =~= tag_pairs(tags@.take(i as int)));
            assert(tag_pairs(tags@.take(i + 1)).last() == (tags@[i as int].key@, tags@[i as int].value@));
        }
        assign(&mut labels, Label { key: tags[i].key.clone(), value: tags[i].value.clone() });
        i += 1;
    }
    proof {
        assert(tags@.take(tags.len() as int) == tags@);
    }
    labels
}

fn find_field(fields: &Vec<Field>, name: &String) -> (i: usize)
    ensures
        i == find_key(entry_pairs(fields@), name@, 0),
        i <= fields.len(),
{
    let mut i: usize = 0;
    while i < fields.len() && !(fields[i].name == *name)
        invariant
            i <= fields.len(),
            find_key(entry_pairs(fields@), name@, 0) == find_key(
                entry_pairs(fields@),
                name@,
                i as int,
            ),
        decreases fields.len() - i,
    {
        i += 1;
    }
    i
}

fn assign_field(fields: &mut Vec<Field>, field: Field)
    ensures
        entry_pairs(final(fields)@) == upsert(
            entry_pairs(old(fields)@),
            field.name@,
            value_view(field.value),
        ),
{
    let i = find_field(fields, &field.name);
    let ghost before = entry_pairs(fields@);
    if i < fields.len() {
        fields.set(i, field);
        assert(entry_pairs(fields@) =~= before.update(
            i as int,
            (field.name@, value_view(field.value)),
        ));
    } else {
        fields.push(field);
        assert(entry_pairs(fields@) =~= before.push((field.name@, value_view(field.value))));
    }
}

fn copy_value(value: &FieldValue) -> (copy: FieldValue)
    ensures
        value_view(copy) == value_view(*value),
{
    match value {
        FieldValue::Text(s) => FieldValue::Text(s.clone()),
        FieldValue::Bytes(b) => FieldValue::Text(lossy_text(b.as_slice())),
        FieldValue::Number(n) => FieldValue::Number(n.clone()),
        FieldValue::Structured(b) => FieldValue::Structured(slice_to_vec(b.as_slice())),
    }
}

/// The fields that the transformer keeps, each name once: names in the
/// order first seen, each with the value seen last. Bytes come out as the
/// text they are read as.
pub fn merge_fields(fields: &Vec<Field>, transformer: &Transformer) -> (message: Vec<Field>)
    ensures
        entry_pairs(message@) == message_of(*transformer, fields@),
{
    let mut message: Vec<Field> = Vec::new();
    let mut i: usize = 0;
    proof {
        assert(entry_pairs(message@) =~= Seq::<Entry>::empty());
    }
    while i < fields.len()
        invariant
            i <= fields.len(),
            entry_pairs(message@) == message_of(*transformer, fields@.take(i as int)),
        decreases fields.len() - i,
    {
        proof {
            assert(fields@.take(i + 1).drop_last() == fields@.take(i as int));
            assert(fields@.take(i + 1).last() == fields@[i as int]);
        }
        if transformer.keeps_name(&fields[i].name) {
            proof {
                let before = kept(*transformer, fields@.take(i as int));
                let now = before.push(fields@[i as int]);
                assert(entry_pairs(now).drop_last() =~= entry_pairs(before));
                assert(entry_pairs(now).last() == (
                    fields@[i as int].name@,
                    value_view(fields@[i as int].value),
                ));
            }
            let value = copy_value(&fields[i].value);
            assign_field(&mut message, Field { name: fields[i].name.clone(), value });
        }
        i += 1;
    }
    proof {
        assert(fields@.take(fields.len() as int) == fields@);
    }
    message
}

/// The names and texts of a message, by which templates, the id and the
/// version are filled.
pub fn routing_fields(message: &Vec<Field>) -> (fields: Vec<Label>)
    ensures
        pairs(fields@) == routing_pairs(entry_pairs(message@)),
{
    let mut fields: Vec<Label> = Vec::new();
    let mut i: usize = 0;
    while i < message.len()
        invariant
            i <= message.len(),
            pairs(fields@) == routing_pairs(entry_pairs(message@)).take(i as int),
        decreases message.len() - i,
    {
        let value = match &message[i].value {
            FieldValue::Text(s) => s.clone(),
            FieldValue::Bytes(b) => lossy_text(b.as_slice()),
            FieldValue::Number(n) => lossy_text(n.as_bytes().as_slice()),
            FieldValue::Structured(b) => lossy_text(b.as_slice()),
        };
        let ghost before = pairs(fields@);
        let ghost text = value@;
        fields.push(Label { key: message[i].name.clone(), value });
        proof {
            let all = routing_pairs(entry_pairs(message@));
            assert(all[i as int] == (message@[i as int].name@, text));
            assert(pairs(fields@) =~= before.push((message@[i as int].name@, text)));
            assert(pairs(fields@) =~= all.take(i + 1));
        }
        i += 1;
    }
    proof {
        assert(routing_pairs(entry_pairs(message@)).take(message.len() as int) =~= routing_pairs(
            entry_pairs(message@),
        ));
    }
    fields
}

fn is_one_line(bytes: &Vec<u8>) -> (ok: bool)
    ensures
        ok == (bytes@.len() > 0 && single_line(bytes@)),
{
    if bytes.len() == 0 {
        return false;
    }
    let mut i: usize = 0;
    while i < bytes.len()
        invariant
            i <= bytes.len(),
            forall|j: int| 0 <= j < i ==> #[trigger] bytes@[j] != NEWLINE,
        decreases bytes.len() - i,
    {
        if bytes[i] == NEWLINE {
            return false;
        }
        i += 1;
    }
    true
}

/// Tells whether every value of a message can be written.
pub fn check_writable(message: &Vec<Field>) -> (ok: bool)
    ensures
        ok == all_writable(entry_pairs(message@)),
{
    let mut i: usize = 0;
    while i < message.len()
        invariant
            i <= message.len(),
            forall|j: int| 0 <= j < i ==> writable((#[trigger] entry_pairs(message@)[j]).1),
        decreases message.len() - i,
    {
        let ok = match &message[i].value {
            FieldValue::Structured(b) => is_one_line(b),
            _ => true,
        };
        if !ok {
            assert(!writable(entry_pairs(message@)[i as int].1));
            return false;
        }
        i += 1;
    }
    true
}

/// The texts of some strings.
pub open spec fn texts(values: Seq<String>) -> Seq<Seq<char>> {
    values.map_values(|s: String| s@)
}

/// The number of different texts among some strings.
pub open spec fn distinct_count(values: Seq<String>) -> nat {
    texts(values).to_set().len()
}

fn seen_before(values: &Vec<String>, i: usize) -> (seen: bool)
    requires
        i < values.len(),
    ensures
        seen == texts(values@.take(i as int)).contains(values@[i as int]@),
{
    let ghost earlier = texts(values@.take(i as int));
    let mut j: usize = 0;
    while j < i
        invariant
            j <= i < values.len(),
            earlier == texts(values@.take(i as int)),
            forall|k: int| 0 <= k < j ==> earlier[k] != values@[i as int]@,
        decreases i - j,
    {
        if values[j] == values[i] {
            proof {
                assert(earlier[j as int] == values@[i as int]@);
            }
            return true;
        }
        j += 1;
    }
    false
}

/// Counts the different texts among some strings.
pub fn count_distinct(values: &Vec<String>) -> (n: usize)
    ensures
        n == distinct_count(values@),
{
    let mut n: usize = 0;
    let mut i: usize = 0;
    proof {
        assert(texts(values@.take(0)).to_set() =~= Set::<Seq<char>>::empty());
    }
    while i < values.len()
        invariant
            i <= values.len(),
            n <= i,
            n == texts(values@.take(i as int)).to_set().len(),
        decreases values.len() - i,
    {
        let seen = seen_before(values, i);
        proof {
            let before = texts(values@.take(i as int));
            let v = values@[i as int]@;
            assert(texts(values@.take(i + 1)) =~= before.push(v));
            before.lemma_push_to_set_commute(v);
            vstd::seq_lib::seq_to_set_is_finite(before);
            vstd::set::axiom_set_insert_len(before.to_set(), v);
            assert(before.to_set().contains(v) == before.contains(v));
        }
        if !seen {
            n += 1;
        }
        i += 1;
    }
    proof {
        assert(values@.take(values.len() as int) == values@);
    }
    n
}

/// Reads the value of a metric from its text. A text that is no JSON
/// number, such as `NaN` or `inf`, is a value that cannot be written.
pub fn metric_number(text: &str) -> (number: Result<Number, TransformError>)
    ensures
        match number {
            Ok(n) => n@ == text.spec_bytes() && is_number_literal(n@),
            Err(e) => e == TransformError::UnsupportedValue && !is_number_literal(
                text.spec_bytes(),
            ),
        },
{
    match Number::parse(text) {
        Some(n) => Ok(n),
        None => Err(TransformError::UnsupportedValue),
    }
}

/// The one number a metric is reduced to: the value of a counter or a
/// gauge, the sum of the samples of a histogram or a distribution, and for
/// a set the number of different values.
pub open spec fn reduced(value: MetricValue) -> Seq<u8> {
    match value {
        MetricValue::Counter { value } => value@,
        MetricValue::Gauge { value } => value@,
        MetricValue::Histogram { sample_sum } => sample_sum@,
        MetricValue::Distribution { sample_sum } => sample_sum@,
        MetricValue::ValueSet { values } => decimal(distinct_count(values@)),
    }
}

/// Reduces a metric's value to one number.
pub fn reduce(value: MetricValue) -> (number: Number)
    ensures
        number@ == reduced(value),
{
    match value {
        MetricValue::Counter { value } => value,
        MetricValue::Gauge { value } => value,
        MetricValue::Histogram { sample_sum } => sample_sum,
        MetricValue::Distribution { sample_sum } => sample_sum,
        MetricValue::ValueSet { values } => Number::from_u64(count_distinct(&values) as u64),
    }
}

/// Where a document goes and how it is written.
#[derive(Clone, Debug, PartialEq, Eq)]
pub struct Routing {
    pub index_name: String,
    pub operation: BulkAction,
    pub id: Option<String>,
    pub version: Option<u64>,
    pub version_type: VersionType,
    /// Whether the payload carries the timestamp field of a data stream.
    pub stream: bool,
}

/// The model of a routing.
pub struct RoutingView {
    pub index: Seq<char>,
    pub action: BulkAction,
    pub id: Option<Seq<char>>,
    pub version: Option<u64>,
    pub version_type: VersionType,
    pub stream: bool,
}

impl View for Routing {
    type V = RoutingView;

    open spec fn view(&self) -> RoutingView {
        RoutingView {
            index: self.index_name@,
            action: self.operation,
            id: match self.id {
                Some(id) => Some(id@),
                None => None,
            },
            version: self.version,
            version_type: self.version_type,
            stream: self.stream,
        }
    }
}

/// One part of a data stream's name: the event's own, where events name
/// their stream and this one does, with a text that is not empty; the
/// configured one otherwise.
pub open spec fn stream_part(auto_routing: bool, fields: Seq<Pair>, key: Seq<char>, fallback: Seq<char>) -> Seq<
    char,
> {
    if auto_routing {
        match lookup(fields, key) {
            Some(v) => if v.len() > 0 {
                v
            } else {
                fallback
            },
            None => fallback,
        }
    } else {
        fallback
    }
}

/// The name of the data stream of an event: type, dataset and namespace,
/// joined by hyphens.
pub open spec fn stream_name(ds: DataStreamConfig, fields: Seq<Pair>) -> Seq<char> {
    stream_part(ds.auto_routing, fields, "data_stream.type"@, ds.dtype@) + "-"@ + stream_part(
        ds.auto_routing,
        fields,
        "data_stream.dataset"@,
        ds.dataset@,
    ) + "-"@ + stream_part(ds.auto_routing, fields, "data_stream.namespace"@, ds.namespace@)
}

/// The index a document goes to. In bulk mode the index template, filled
/// from the event's fields: a missing field and an empty result are errors.
/// In data stream mode the stream's name.
pub open spec fn routed_index(mode: InfinoCommonMode, fields: Seq<Pair>) -> Result<
    Seq<char>,
    TransformError,
> {
    match mode {
        InfinoCommonMode::Bulk { index, action, version, version_type } => match rendered(
            index@,
            fields,
        ) {
            Some(name) => if name.len() > 0 {
                Ok(name)
            } else {
                Err(TransformError::EmptyIndex)
            },
            None => Err(TransformError::TemplateRendering),
        },
        InfinoCommonMode::DataStream(ds) => Ok(stream_name(ds, fields)),
    }
}

/// The version of a document: in bulk mode with a version field, the number
/// in that field; a missing field and a text that is no plain decimal of 64
/// bits are errors.
pub open spec fn routed_version(mode: InfinoCommonMode, fields: Seq<Pair>) -> Result<
    Option<u64>,
    TransformError,
> {
    match mode {
        InfinoCommonMode::Bulk { index, action, version: Some(name), version_type } => match lookup(
            fields,
            name@,
        ) {
            Some(text) => match plain_value(utf8(text)) {
                Some(v) => Ok(Some(v)),
                None => Err(TransformError::InvalidVersion),
            },
            None => Err(TransformError::TemplateRendering),
        },
        _ => Ok(None),
    }
}

/// The id of a document: the text of the id field, where one is configured
/// and the event has it, whatever the text holds.
pub open spec fn routed_id(id_key: Option<String>, fields: Seq<Pair>) -> Option<Seq<char>> {
    match id_key {
        Some(key) => lookup(fields, key@),
        None => None,
    }
}

/// Where an event with these fields goes, or why it goes nowhere. An error
/// of the index comes before one of the version.
pub open spec fn routed(mode: InfinoCommonMode, id_key: Option<String>, fields: Seq<Pair>) -> Result<
    RoutingView,
    TransformError,
> {
    match routed_index(mode, fields) {
        Err(e) => Err(e),
        Ok(index) => match routed_version(mode, fields) {
            Err(e) => Err(e),
            Ok(version) => Ok(
                RoutingView {
                    index,
                    action: match mode {
                        InfinoCommonMode::Bulk { index, action, version, version_type } => action,
                        InfinoCommonMode::DataStream(ds) => BulkAction::Create,
                    },
                    id: routed_id(id_key, fields),
                    version,
                    version_type: match mode {
                        InfinoCommonMode::Bulk {
                            index,
                            action,
                            version,
                            version_type,
                        } => version_type,
                        InfinoCommonMode::DataStream(ds) => VersionType::Internal,
                    },
                    stream: match mode {
                        InfinoCommonMode::Bulk { index, action, version, version_type } => false,
                        InfinoCommonMode::DataStream(ds) => ds.sync_fields,
                    },
                },
            ),
        },
    }
}

fn pick_stream_part(auto_routing: bool, fields: &Vec<Label>, key: &str, fallback: &String) -> (part:
    String)
    ensures
        part@ == stream_part(auto_routing, pairs(fields@), key@, fallback@),
{
    if auto_routing {
        let name = String::from_str(key);
        match get(fields, &name) {
            Some(v) => if v.as_str().is_empty() {
                fallback.clone()
            } else {
                v.clone()
            },
            None => fallback.clone(),
        }
    } else {
        fallback.clone()
    }
}

fn name_stream(ds: &DataStreamConfig, fields: &Vec<Label>) -> (name: String)
    ensures
        name@ == stream_name(*ds, pairs(fields@)),
{
    let mut name = pick_stream_part(ds.auto_routing, fields, "data_stream.type", &ds.dtype);
    name.append("-");
    let dataset = pick_stream_part(ds.auto_routing, fields, "data_stream.dataset", &ds.dataset);
    name.append(dataset.as_str());
    name.append("-");
    let namespace = pick_stream_part(
        ds.auto_routing,
        fields,
        "data_stream.namespace",
        &ds.namespace,
    );
    name.append(namespace.as_str());
    name
}

fn route_id(id_key: &Option<String>, fields: &Vec<Label>) -> (id: Option<String>)
    ensures
        match id {
            Some(text) => routed_id(*id_key, pairs(fields@)) == Some(text@),
            None => routed_id(*id_key, pairs(fields@)).is_none(),
        },
{
    match id_key {
        Some(key) => match get(fields, key) {
            Some(text) => Some(text.clone()),
            None => None,
        },
        None => None,
    }
}

/// Works out where an event with these fields goes.
pub fn route(mode: &InfinoCommonMode, id_key: &Option<String>, fields: &Vec<Label>) -> (routing:
    Result<Routing, TransformError>)
    ensures
        match routing {
            Ok(r) => routed(*mode, *id_key, pairs(fields@)) == Ok::<RoutingView, TransformError>(r@),
            Err(e) => routed(*mode, *id_key, pairs(fields@)) == Err::<RoutingView, TransformError>(e),
        },
{
    match mode {
        InfinoCommonMode::Bulk { index, action, version, version_type } => {
            let index_name = match index.render(fields) {
                Some(name) => name,
                None => {
                    return Err(TransformError::TemplateRendering);
                },
            };
            if index_name.as_str().is_empty() {
                return Err(TransformError::EmptyIndex);
            }
            let number = match version {
                Some(name) => match get(fields, name) {
                    Some(text) => match parse_decimal(text.as_str().as_bytes()) {
                        Some(v) => Some(v),
                        None => {
                            return Err(TransformError::InvalidVersion);
                        },
                    },
                    None => {
                        return Err(TransformError::TemplateRendering);
                    },
                },
                None => None,
            };
            Ok(
                Routing {
                    index_name,
                    operation: *action,
                    id: route_id(id_key, fields),
                    version: number,
                    version_type: *version_type,
                    stream: false,
                },
            )
        },
        InfinoCommonMode::DataStream(ds) => Ok(
            Routing {
                index_name: name_stream(ds, fields),
                operation: BulkAction::Create,
                id: route_id(id_key, fields),
                version: None,
                version_type: VersionType::Internal,
                stream: ds.sync_fields,
            },
        ),
    }
}

/// One member of a JSON object: the name and the text, both as strings.
pub open spec fn member(p: Pair) -> Seq<u8> {
    quoted(utf8(p.0)) + lit(":") + quoted(utf8(p.1))
}

/// The members of a JSON object, with commas between them.
pub open spec fn members(ps: Seq<Pair>) -> Seq<u8>
    decreases ps.len(),
{
    if ps.len() == 0 {
        Seq::empty()
    } else if ps.len() == 1 {
        member(ps[0])
    } else {
        members(ps.drop_last()) + lit(",") + member(ps.last())
    }
}

/// A JSON object of strings.
pub open spec fn object(ps: Seq<Pair>) -> Seq<u8> {
    lit("{") + members(ps) + lit("}")
}

/// The timestamp member that a data stream asks for, with the comma that
/// follows it; nothing for other documents.
pub open spec fn stamp(stream: bool, time: u64) -> Seq<u8> {
    if stream {
        lit("\"@timestamp\":") + decimal(time as nat) + lit(",")
    } else {
        Seq::empty()
    }
}

/// The payload of a metric: its name, its time, its one value and its
/// labels.
pub open spec fn metric_payload(
    stream: bool,
    name: Seq<char>,
    time: u64,
    value: Seq<u8>,
    labels: Seq<Pair>,
) -> Seq<u8> {
    lit("{") + stamp(stream, time) + lit("\"metric_name\":") + quoted(utf8(name)) + lit(
        ",\"time\":",
    ) + decimal(time as nat) + lit(",\"value\":") + value + lit(",\"labels\":") + object(labels)
        + lit("}")
}

/// The bytes that stand for a value in a payload: a text as a JSON string,
/// a number as its literal, a structure as its JSON text.
pub open spec fn value_bytes(value: ValueView) -> Seq<u8> {
    match value {
        ValueView::Text(t) => quoted(utf8(t)),
        ValueView::Number(b) => b,
        ValueView::Structured(b) => b,
    }
}

/// One member of a message: the name as a string and the value.
pub open spec fn entry_member(e: Entry) -> Seq<u8> {
    quoted(utf8(e.0)) + lit(":") + value_bytes(e.1)
}

/// The members of a message, with commas between them.
pub open spec fn entry_members(es: Seq<Entry>) -> Seq<u8>
    decreases es.len(),
{
    if es.len() == 0 {
        Seq::empty()
    } else if es.len() == 1 {
        entry_member(es[0])
    } else {
        entry_members(es.drop_last()) + lit(",") + entry_member(es.last())
    }
}

/// A message as a JSON object.
pub open spec fn entry_object(es: Seq<Entry>) -> Seq<u8> {
    lit("{") + entry_members(es) + lit("}")
}

/// The payload of a log: its time and its fields, each with its value.
pub open spec fn log_payload(stream: bool, time: u64, message: Seq<Entry>) -> Seq<u8> {
    lit("{") + stamp(stream, time) + lit("\"time\":") + decimal(time as nat) + lit(
        ",\"message\":",
    ) + entry_object(message) + lit("}")
}

/// Whether a value holds no line feed where it is written as it is.
pub open spec fn value_one_line(value: ValueView) -> bool {
    match value {
        ValueView::Text(t) => true,
        ValueView::Number(b) => single_line(b),
        ValueView::Structured(b) => single_line(b),
    }
}

fn write_value(out: &mut Vec<u8>, value: &FieldValue)
    ensures
        final(out)@ == old(out)@ + value_bytes(value_view(*value)),
        value matches FieldValue::Number(n) ==> single_line(n@),
{
    match value {
        FieldValue::Text(s) => write_quoted(out, s.as_str().as_bytes()),
        FieldValue::Bytes(b) => {
            let text = lossy_text(b.as_slice());
            write_quoted(out, text.as_str().as_bytes());
        },
        FieldValue::Number(n) => {
            let literal = n.as_bytes();
            proof {
                lemma_number_is_printable(n@);
            }
            append_bytes(out, literal.as_slice());
        },
        FieldValue::Structured(b) => append_bytes(out, b.as_slice()),
    }
}

fn write_entry_object(out: &mut Vec<u8>, message: &Vec<Field>)
    ensures
        final(out)@ == old(out)@ + entry_object(entry_pairs(message@)),
        forall|i: int|
            0 <= i < message@.len() ==> ((#[trigger] entry_pairs(message@)[i]).1 matches ValueView::Number(
                b,
            ) ==> single_line(b)),
{
    put(out, "{");
    let ghost start = out@;
    let ghost es = entry_pairs(message@);
    let mut i: usize = 0;
    proof {
        assert(out@ =~= start + entry_members(es.take(0)));
    }
    while i < message.len()
        invariant
            i <= message.len(),
            es == entry_pairs(message@),
            out@ == start + entry_members(es.take(i as int)),
            forall|j: int|
                0 <= j < i ==> ((#[trigger] es[j]).1 matches ValueView::Number(b) ==> single_line(b)),
        decreases message.len() - i,
    {
        let ghost before = es.take(i as int);
        let ghost e = es[i as int];
        proof {
            assert(es.take(i + 1).drop_last() =~= before);
            assert(es.take(i + 1).last() == e);
            assert(es.take(i + 1)[0] == es[0]);
        }
        if i > 0 {
            put(out, ",");
        }
        write_quoted(out, message[i].name.as_str().as_bytes());
        put(out, ":");
        write_value(out, &message[i].value);
        proof {
            if i > 0 {
                assert(out@ =~= start + (entry_members(before) + lit(",") + entry_member(e)));
            } else {
                assert(entry_members(before) =~= Seq::<u8>::empty());
                assert(out@ =~= start + entry_member(e));
            }
        }
        i += 1;
    }
    proof {
        assert(es.take(message.len() as int) =~= es);
    }
    put(out, "}");
    proof {
        assert(out@ =~= old(out)@ + entry_object(es));
    }
}

fn write_object(out: &mut Vec<u8>, labels: &Vec<Label>)
    ensures
        final(out)@ == old(out)@ + object(pairs(labels@)),
{
    put(out, "{");
    let ghost start = out@;
    let mut i: usize = 0;
    proof {
        assert(out@ =~= start + members(pairs(labels@).take(0)));
    }
    while i < labels.len()
        invariant
            i <= labels.len(),
            out@ == start + members(pairs(labels@).take(i as int)),
        decreases labels.len() - i,
    {
        let ghost before = pairs(labels@).take(i as int);
        let ghost p = pairs(labels@)[i as int];
        proof {
            assert(pairs(labels@).take(i + 1).drop_last() =~= before);
            assert(pairs(labels@).take(i + 1).last() == p);
            assert(pairs(labels@).take(i + 1)[0] == pairs(labels@)[0]);
        }
        if i > 0 {
            put(out, ",");
        }
        write_quoted(out, labels[i].key.as_str().as_bytes());
        put(out, ":");
        write_quoted(out, labels[i].value.as_str().as_bytes());
        proof {
            if i > 0 {
                assert(out@ =~= start + (members(before) + lit(",") + member(p)));
            } else {
                assert(members(before) =~= Seq::<u8>::empty());
                assert(out@ =~= start + member(p));
            }
        }
        i += 1;
    }
    proof {
        assert(pairs(labels@).take(labels.len() as int) =~= pairs(labels@));
    }
    put(out, "}");
    proof {
        assert(out@ =~= old(out)@ + object(pairs(labels@)));
    }
}

fn write_stamp(out: &mut Vec<u8>, stream: bool, time: u64)
    ensures
        final(out)@ == old(out)@ + stamp(stream, time),
{
    if stream {
        put(out, "\"@timestamp\":");
        write_decimal(out, time);
        put(out, ",");
        assert(out@ =~= old(out)@ + stamp(stream, time));
    } else {
        assert(out@ =~= old(out)@ + stamp(stream, time));
    }
}

/// The time and value of a metric.
#[derive(Clone, Debug, PartialEq, Eq)]
pub struct MetricPoint {
    pub time: u64,
    pub value: Number,
}

/// A metric ready to be written: where it goes, its name, its one point and
/// its labels.
#[derive(Clone, Debug, PartialEq, Eq)]
pub struct IngestMetric {
    pub routing: Routing,
    pub metric_name: String,
    pub metric_point: MetricPoint,
    pub labels: Vec<Label>,
}

/// A log ready to be written: where it goes, its time and its fields.
#[derive(Clone, Debug, PartialEq, Eq)]
pub struct IngestLog {
    pub routing: Routing,
    pub time: u64,
    pub message: Vec<Field>,
}

/// The document of a routing and a payload.
pub open spec fn document_of(routing: RoutingView, payload: Seq<u8>) -> DocumentView {
    DocumentView {
        index: routing.index,
        action: routing.action,
        id: routing.id,
        version: routing.version,
        version_type: routing.version_type,
        payload,
    }
}

proof fn lemma_object_single_line(ps: Seq<Pair>)
    ensures
        single_line(members(ps)),
        single_line(object(ps)),
    decreases ps.len(),
{
    reveal_strlit("{");
    reveal_strlit("}");
    reveal_strlit(",");
    reveal_strlit(":");
    lemma_ascii_single_line("{");
    lemma_ascii_single_line("}");
    lemma_ascii_single_line(",");
    lemma_ascii_single_line(":");
    if ps.len() > 0 {
        let p = ps.last();
        lemma_quoted_single_line(utf8(p.0));
        lemma_quoted_single_line(utf8(p.1));
        lemma_single_line_add(quoted(utf8(p.0)), lit(":"));
        lemma_single_line_add(quoted(utf8(p.0)) + lit(":"), quoted(utf8(p.1)));
        if ps.len() > 1 {
            lemma_object_single_line(ps.drop_last());
            lemma_single_line_add(members(ps.drop_last()), lit(","));
            lemma_single_line_add(members(ps.drop_last()) + lit(","), member(p));
        }
    }
    lemma_single_line_add(lit("{"), members(ps));
    lemma_single_line_add(lit("{") + members(ps), lit("}"));
}

proof fn lemma_stamp_single_line(stream: bool, time: u64)
    ensures
        single_line(stamp(stream, time)),
{
    reveal_strlit("\"@timestamp\":");
    reveal_strlit(",");
    lemma_ascii_single_line("\"@timestamp\":");
    lemma_ascii_single_line(",");
    lemma_decimal_single_line(time as nat);
    lemma_single_line_add(lit("\"@timestamp\":"), decimal(time as nat));
    lemma_single_line_add(lit("\"@timestamp\":") + decimal(time as nat), lit(","));
}

/// The payload of a metric is one line that is not empty, whatever its name
/// and labels hold.
pub proof fn lemma_metric_payload_single_line(
    stream: bool,
    name: Seq<char>,
    time: u64,
    value: Seq<u8>,
    labels: Seq<Pair>,
)
    requires
        single_line(value),
    ensures
        single_line(metric_payload(stream, name, time, value, labels)),
        metric_payload(stream, name, time, value, labels).len() > 0,
{
    reveal_strlit("{");
    reveal_strlit("}");
    reveal_strlit("\"metric_name\":");
    reveal_strlit(",\"time\":");
    reveal_strlit(",\"value\":");
    reveal_strlit(",\"labels\":");
    lemma_ascii_single_line("{");
    lemma_ascii_single_line("}");
    lemma_ascii_single_line("\"metric_name\":");
    lemma_ascii_single_line(",\"time\":");
    lemma_ascii_single_line(",\"value\":");
    lemma_ascii_single_line(",\"labels\":");
    vstd::string::is_ascii_spec_bytes("}");
    lemma_stamp_single_line(stream, time);
    lemma_quoted_single_line(utf8(name));
    lemma_decimal_single_line(time as nat);
    lemma_object_single_line(labels);
    let a = lit("{") + stamp(stream, time);
    lemma_single_line_add(lit("{"), stamp(stream, time));
    let b = a + lit("\"metric_name\":");
    lemma_single_line_add(a, lit("\"metric_name\":"));
    let c = b + quoted(utf8(name));
    lemma_single_line_add(b, quoted(utf8(name)));
    let d = c + lit(",\"time\":");
    lemma_single_line_add(c, lit(",\"time\":"));
    let e = d + decimal(time as nat);
    lemma_single_line_add(d, decimal(time as nat));
    let f = e + lit(",\"value\":");
    lemma_single_line_add(e, lit(",\"value\":"));
    let g = f + value;
    lemma_single_line_add(f, value);
    let h = g + lit(",\"labels\":");
    lemma_single_line_add(g, lit(",\"labels\":"));
    let i = h + object(labels);
    lemma_single_line_add(h, object(labels));
    lemma_single_line_add(i, lit("}"));
}

proof fn lemma_entry_object_single_line(es: Seq<Entry>)
    requires
        forall|i: int| 0 <= i < es.len() ==> value_one_line((#[trigger] es[i]).1),
    ensures
        single_line(entry_members(es)),
        single_line(entry_object(es)),
    decreases es.len(),
{
    reveal_strlit("{");
    reveal_strlit("}");
    reveal_strlit(",");
    reveal_strlit(":");
    lemma_ascii_single_line("{");
    lemma_ascii_single_line("}");
    lemma_ascii_single_line(",");
    lemma_ascii_single_line(":");
    if es.len() > 0 {
        let e = es.last();
        assert(e == es[es.len() - 1]);
        lemma_quoted_single_line(utf8(e.0));
        match e.1 {
            ValueView::Text(t) => lemma_quoted_single_line(utf8(t)),
            _ => {},
        }
        lemma_single_line_add(quoted(utf8(e.0)), lit(":"));
        lemma_single_line_add(quoted(utf8(e.0)) + lit(":"), value_bytes(e.1));
        if es.len() > 1 {
            assert forall|i: int| 0 <= i < es.drop_last().len() implies value_one_line(
                (#[trigger] es.drop_last()[i]).1,
            ) by {
                assert(es.drop_last()[i] == es[i]);
            }
            lemma_entry_object_single_line(es.drop_last());
            lemma_single_line_add(entry_members(es.drop_last()), lit(","));
            lemma_single_line_add(entry_members(es.drop_last()) + lit(","), entry_member(e));
        }
    }
    lemma_single_line_add(lit("{"), entry_members(es));
    lemma_single_line_add(lit("{") + entry_members(es), lit("}"));
}

/// The payload of a log is one line that is not empty, where each number
/// and each structure among its values is one line.
pub proof fn lemma_log_payload_single_line(stream: bool, time: u64, message: Seq<Entry>)
    requires
        forall|i: int| 0 <= i < message.len() ==> value_one_line((#[trigger] message[i]).1),
    ensures
        single_line(log_payload(stream, time, message)),
        log_payload(stream, time, message).len() > 0,
{
    reveal_strlit("{");
    reveal_strlit("}");
    reveal_strlit("\"time\":");
    reveal_strlit(",\"message\":");
    lemma_ascii_single_line("{");
    lemma_ascii_single_line("}");
    lemma_ascii_single_line("\"time\":");
    lemma_ascii_single_line(",\"message\":");
    vstd::string::is_ascii_spec_bytes("}");
    lemma_stamp_single_line(stream, time);
    lemma_decimal_single_line(time as nat);
    lemma_entry_object_single_line(message);
    let a = lit("{") + stamp(stream, time);
    lemma_single_line_add(lit("{"), stamp(stream, time));
    let b = a + lit("\"time\":");
    lemma_single_line_add(a, lit("\"time\":"));
    let c = b + decimal(time as nat);
    lemma_single_line_add(b, decimal(time as nat));
    let d = c + lit(",\"message\":");
    lemma_single_line_add(c, lit(",\"message\":"));
    let e = d + entry_object(message);
    lemma_single_line_add(d, entry_object(message));
    lemma_single_line_add(e, lit("}"));
}

fn assemble(routing: Routing, payload: Vec<u8>) -> (doc: Document)
    ensures
        doc@ == document_of(routing@, payload@),
{
    Document {
        index: routing.index_name,
        action: routing.operation,
        id: routing.id,
        version: routing.version,
        version_type: routing.version_type,
        payload,
    }
}

impl IngestMetric {
    /// The document of the metric. Its payload is one line, so with an
    /// index name that is not empty the document can be written.
    pub fn document(self) -> (doc: Document)
        ensures
            doc@ == document_of(
                self.routing@,
                metric_payload(
                    self.routing.stream,
                    self.metric_name@,
                    self.metric_point.time,
                    self.metric_point.value@,
                    pairs(self.labels@),
                ),
            ),
            self.routing.index_name@.len() > 0 ==> encodable(doc),
    {
        let mut payload: Vec<u8> = Vec::new();
        put(&mut payload, "{");
        write_stamp(&mut payload, self.routing.stream, self.metric_point.time);
        put(&mut payload, "\"metric_name\":");
        write_quoted(&mut payload, self.metric_name.as_str().as_bytes());
        put(&mut payload, ",\"time\":");
        write_decimal(&mut payload, self.metric_point.time);
        put(&mut payload, ",\"value\":");
        let value = self.metric_point.value.as_bytes();
        append_bytes(&mut payload, value.as_slice());
        put(&mut payload, ",\"labels\":");
        write_object(&mut payload, &self.labels);
        put(&mut payload, "}");
        proof {
            let expected = metric_payload(
                self.routing.stream,
                self.metric_name@,
                self.metric_point.time,
                self.metric_point.value@,
                pairs(self.labels@),
            );
            assert(payload@ =~= expected);
            lemma_number_is_printable(self.metric_point.value@);
            lemma_metric_payload_single_line(
                self.routing.stream,
                self.metric_name@,
                self.metric_point.time,
                self.metric_point.value@,
                pairs(self.labels@),
            );
        }
        assemble(self.routing, payload)
    }
}

impl IngestLog {
    /// The document of the log. With an index name that is not empty and
    /// values that can all be written, the document can be written.
    pub fn document(self) -> (doc: Document)
        ensures
            doc@ == document_of(
                self.routing@,
                log_payload(self.routing.stream, self.time, entry_pairs(self.message@)),
            ),
            self.routing.index_name@.len() > 0 && all_writable(entry_pairs(self.message@))
                ==> encodable(doc),
    {
        let mut payload: Vec<u8> = Vec::new();
        put(&mut payload, "{");
        write_stamp(&mut payload, self.routing.stream, self.time);
        put(&mut payload, "\"time\":");
        write_decimal(&mut payload, self.time);
        put(&mut payload, ",\"message\":");
        write_entry_object(&mut payload, &self.message);
        put(&mut payload, "}");
        proof {
            let es = entry_pairs(self.message@);
            assert(payload@ =~= log_payload(self.routing.stream, self.time, es));
            if all_writable(es) {
                assert forall|i: int| 0 <= i < es.len() implies value_one_line(
                    (#[trigger] es[i]).1,
                ) by {
                    assert(writable(es[i].1));
                }
                lemma_log_payload_single_line(self.routing.stream, self.time, es);
            }
        }
        assemble(self.routing, payload)
    }
}

/// Turns a metric into what is written for it: the metric's name and time,
/// the one number its value is reduced to, its tags with each key once, and
/// where it goes. An error where it goes nowhere.
pub fn convert_metric_to_ingest_metric(
    metric: Metric,
    mode: &InfinoCommonMode,
    id_key_field: &Option<String>,
) -> (converted: Result<IngestMetric, TransformError>)
    ensures
        match converted {
            Ok(m) => {
                &&& routed(*mode, *id_key_field, merged(tag_pairs(metric.tags@))) == Ok::<
                    RoutingView,
                    TransformError,
                >(m.routing@)
                &&& m.metric_name == metric.name
                &&& m.metric_point.time == metric.timestamp
                &&& m.metric_point.value@ == reduced(metric.value)
                &&& pairs(m.labels@) == merged(tag_pairs(metric.tags@))
            },
            Err(e) => routed(*mode, *id_key_field, merged(tag_pairs(metric.tags@))) == Err::<
                RoutingView,
                TransformError,
            >(e),
        },
{
    let labels = merge_tags(&metric.tags);
    let routing = match route(mode, id_key_field, &labels) {
        Ok(r) => r,
        Err(e) => {
            return Err(e);
        },
    };
    let Metric { name, timestamp, tags, value } = metric;
    Ok(
        IngestMetric {
            routing,
            metric_name: name,
            metric_point: MetricPoint { time: timestamp, value: reduce(value) },
            labels,
        },
    )
}

/// What a log is turned into: its message and where it goes. A value that
/// cannot be written is an error and comes before an error of the routing.
pub open spec fn log_converted(
    fields: Seq<Field>,
    mode: InfinoCommonMode,
    id_key: Option<String>,
    transformer: Transformer,
) -> Result<(RoutingView, Seq<Entry>), TransformError> {
    let message = message_of(transformer, fields);
    if !all_writable(message) {
        Err(TransformError::UnsupportedValue)
    } else {
        match routed(mode, id_key, routing_pairs(message)) {
            Ok(r) => Ok((r, message)),
            Err(e) => Err(e),
        }
    }
}

/// Turns a log into what is written for it: its time, the fields that the
/// transformer keeps, each name once with its value, and where it goes. An
/// error where a value cannot be written or the log goes nowhere.
pub fn convert_log_to_ingest_log(
    log: LogEvent,
    mode: &InfinoCommonMode,
    id_key_field: &Option<String>,
    transformer: &Transformer,
) -> (converted: Result<IngestLog, TransformError>)
    ensures
        match converted {
            Ok(l) => {
                &&& log_converted(log.fields@, *mode, *id_key_field, *transformer) == Ok::<
                    (RoutingView, Seq<Entry>),
                    TransformError,
                >((l.routing@, entry_pairs(l.message@)))
                &&& l.time == log.timestamp
            },
            Err(e) => log_converted(log.fields@, *mode, *id_key_field, *transformer) == Err::<
                (RoutingView, Seq<Entry>),
                TransformError,
            >(e),
        },
{
    let message = merge_fields(&log.fields, transformer);
    if !check_writable(&message) {
        return Err(TransformError::UnsupportedValue);
    }
    let fields = routing_fields(&message);
    match route(mode, id_key_field, &fields) {
        Ok(routing) => Ok(IngestLog { routing, time: log.timestamp, message }),
        Err(e) => Err(e),
    }
}

/// What an event is turned into: nothing for a trace; for a metric or a
/// log, its document, or the reason why it has none. The transformer shapes
/// logs only.
pub open spec fn transformed(
    event: Event,
    mode: InfinoCommonMode,
    id_key: Option<String>,
    transformer: Transformer,
) -> Result<Option<DocumentView>, TransformError> {
    match event {
        Event::Trace(_) => Ok(None),
        Event::Metric(m) => {
            let labels = merged(tag_pairs(m.tags@));
            match routed(mode, id_key, labels) {
                Ok(r) => Ok(
                    Some(
                        document_of(
                            r,
                            metric_payload(r.stream, m.name@, m.timestamp, reduced(m.value), labels),
                        ),
                    ),
                ),
                Err(e) => Err(e),
            }
        },
        Event::Log(l) => match log_converted(l.fields@, mode, id_key, transformer) {
            Ok((r, message)) => Ok(Some(document_of(r, log_payload(r.stream, l.timestamp, message)))),
            Err(e) => Err(e),
        },
    }
}

proof fn lemma_kept_alike(a: Transformer, b: Transformer, fields: Seq<Field>)
    requires
        crate::encoding::same_transformer(a, b),
    ensures
        kept(a, fields) == kept(b, fields),
    decreases fields.len(),
{
    if fields.len() > 0 {
        lemma_kept_alike(a, b, fields.drop_last());
    }
}

/// A copy of a mode and a copy of a transformer turn every event into what
/// the ones they were copied from turn it into.
pub proof fn lemma_copies_transform_alike(
    event: Event,
    mode: InfinoCommonMode,
    mode_copy: InfinoCommonMode,
    id_key: Option<String>,
    transformer: Transformer,
    transformer_copy: Transformer,
)
    requires
        crate::config::same_mode(mode_copy, mode),
        crate::encoding::same_transformer(transformer_copy, transformer),
    ensures
        transformed(event, mode_copy, id_key, transformer_copy) == transformed(
            event,
            mode,
            id_key,
            transformer,
        ),
{
    match event {
        Event::Log(l) => {
            lemma_kept_alike(transformer_copy, transformer, l.fields@);
        },
        _ => {},
    }
}

/// An index name that routing gives is never empty.
pub proof fn lemma_routed_index_not_empty(mode: InfinoCommonMode, fields: Seq<Pair>)
    ensures
        routed_index(mode, fields) matches Ok(name) ==> name.len() > 0,
{
    reveal_strlit("-");
}

/// Turns an event into a document. A trace gives none. A metric or a log
/// gives one, or the reason why it is dropped. A document that comes out
/// can always be written.
pub fn transform_event(
    event: Event,
    mode: &InfinoCommonMode,
    id_key_field: &Option<String>,
    transformer: &Transformer,
) -> (out: Result<Option<Document>, TransformError>)
    ensures
        match out {
            Ok(Some(doc)) => transformed(event, *mode, *id_key_field, *transformer) == Ok::<
                Option<DocumentView>,
                TransformError,
            >(Some(doc@)) && encodable(doc),
            Ok(None) => transformed(event, *mode, *id_key_field, *transformer) == Ok::<
                Option<DocumentView>,
                TransformError,
            >(None),
            Err(e) => transformed(event, *mode, *id_key_field, *transformer) == Err::<
                Option<DocumentView>,
                TransformError,
            >(e),
        },
{
    match event {
        Event::Trace(_) => Ok(None),
        Event::Metric(metric) => {
            proof {
                lemma_routed_index_not_empty(*mode, merged(tag_pairs(metric.tags@)));
            }
            match convert_metric_to_ingest_metric(metric, mode, id_key_field) {
                Ok(m) => Ok(Some(m.document())),
                Err(e) => Err(e),
            }
        },
        Event::Log(log) => {
            proof {
                lemma_routed_index_not_empty(
                    *mode,
                    routing_pairs(message_of(*transformer, log.fields@)),
                );
            }
            match convert_log_to_ingest_log(log, mode, id_key_field, transformer) {
                Ok(l) => Ok(Some(l.document())),
                Err(e) => Err(e),
            }
        },
    }
}

} // verus!

