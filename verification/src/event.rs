//! Spans: one OTLP span as one flat record, its fields in step with the columns of the table.

use std::sync::Arc;

use chrono_tz::Tz;
use vstd::prelude::*;
use vstd::utf8::encode_utf8;

pub use crate::clock::{format_timestamp, Timestamp};
use crate::clock::{timestamp_text, utc, zone_name};
use crate::error::Error;
use crate::json::{
    array_text, cell_texts, entry_cells, is_json, is_json_line, json_text, map_text,
    numbers_are_json, object_text, quote, ArrayWriter, Cells, ObjectWriter,
};
use crate::reading::{lemma_object_reads_back, read_object};
use crate::text::{before, byte_len, decimal, lemma_before_asymmetric};
use crate::value::{
    has_key, keyed, lemma_lookup, lookup, ordered, put, Entries, Json, Value, ValueMap,
};

verus! {

/// Attributes keep the types that they have in OTLP.
pub type Attributes = ValueMap;

/// The kind of a span. The names are those of the OpenTelemetry collector.
#[derive(Clone, Copy, Debug, PartialEq, Eq, Structural)]
pub enum SpanKind {
    Unspecified,
    Internal,
    Server,
    Client,
    Producer,
    Consumer,
}

impl SpanKind {
    /// The name that is stored.
    pub open spec fn name(self) -> Seq<char> {
        match self {
            SpanKind::Unspecified => "Unspecified"@,
            SpanKind::Internal => "Internal"@,
            SpanKind::Server => "Server"@,
            SpanKind::Client => "Client"@,
            SpanKind::Producer => "Producer"@,
            SpanKind::Consumer => "Consumer"@,
        }
    }

    /// The kind with an OTLP number; a number that stands for none is `Unspecified`.
    pub open spec fn of_otlp(raw: i32) -> SpanKind {
        if raw == 1 {
            SpanKind::Internal
        } else if raw == 2 {
            SpanKind::Server
        } else if raw == 3 {
            SpanKind::Client
        } else if raw == 4 {
            SpanKind::Producer
        } else if raw == 5 {
            SpanKind::Consumer
        } else {
            SpanKind::Unspecified
        }
    }

    pub fn from_otlp(raw: i32) -> (r: SpanKind)
        ensures
            r == SpanKind::of_otlp(raw),
    {
        match raw {
            1 => SpanKind::Internal,
            2 => SpanKind::Server,
            3 => SpanKind::Client,
            4 => SpanKind::Producer,
            5 => SpanKind::Consumer,
            _ => SpanKind::Unspecified,
        }
    }

    pub fn as_str(self) -> (r: &'static str)
        ensures
            r@ == self.name(),
    {
        match self {
            SpanKind::Unspecified => "Unspecified",
            SpanKind::Internal => "Internal",
            SpanKind::Server => "Server",
            SpanKind::Client => "Client",
            SpanKind::Producer => "Producer",
            SpanKind::Consumer => "Consumer",
        }
    }
}

impl Default for SpanKind {
    fn default() -> (r: SpanKind)
        ensures
            r == SpanKind::Unspecified,
    {
        SpanKind::Unspecified
    }
}

/// How a span ended.
#[derive(Clone, Copy, Debug, PartialEq, Eq, Structural)]
pub enum StatusCode {
    Unset,
    Okay,
    Error,
}

impl StatusCode {
    /// The name that is stored.
    pub open spec fn name(self) -> Seq<char> {
        match self {
            StatusCode::Unset => "Unset"@,
            StatusCode::Okay => "Ok"@,
            StatusCode::Error => "Error"@,
        }
    }

    /// The code with an OTLP number; a number that stands for none is `Unset`.
    pub open spec fn of_otlp(raw: i32) -> StatusCode {
        if raw == 1 {
            StatusCode::Okay
        } else if raw == 2 {
            StatusCode::Error
        } else {
            StatusCode::Unset
        }
    }

    pub fn from_otlp(raw: i32) -> (r: StatusCode)
        ensures
            r == StatusCode::of_otlp(raw),
    {
        match raw {
            1 => StatusCode::Okay,
            2 => StatusCode::Error,
            _ => StatusCode::Unset,
        }
    }

    pub fn as_str(self) -> (r: &'static str)
        ensures
            r@ == self.name(),
    {
        match self {
            StatusCode::Unset => "Unset",
            StatusCode::Okay => "Ok",
            StatusCode::Error => "Error",
        }
    }
}

impl Default for StatusCode {
    fn default() -> (r: StatusCode)
        ensures
            r == StatusCode::Unset,
    {
        StatusCode::Unset
    }
}

/// Something that happened at a point in time during a span, such as an exception.
#[derive(Debug, PartialEq)]
pub struct TimedEvent {
    /// UNIX time in nanoseconds.
    pub timestamp: u64,
    pub name: String,
    pub attributes: Attributes,
}

/// What a [`TimedEvent`] stands for.
pub ghost struct EventModel {
    pub timestamp: u64,
    pub name: Seq<char>,
    pub attributes: Entries,
}

impl TimedEvent {
    pub open spec fn view(&self) -> EventModel {
        EventModel {
            timestamp: self.timestamp,
            name: self.name@,
            attributes: self.attributes@,
        }
    }
}

impl Clone for TimedEvent {
    fn clone(&self) -> (r: TimedEvent)
        ensures
            r@ == self@,
    {
        TimedEvent {
            timestamp: self.timestamp,
            name: self.name.clone(),
            attributes: self.attributes.clone(),
        }
    }
}

impl Default for TimedEvent {
    fn default() -> (r: TimedEvent)
        ensures
            r@ == (EventModel {
                timestamp: 0,
                name: Seq::empty(),
                attributes: Seq::empty(),
            }),
    {
        TimedEvent { timestamp: 0, name: String::new(), attributes: ValueMap::new() }
    }
}

/// A link to another span.
#[derive(Debug, PartialEq)]
pub struct SpanLink {
    pub trace_id: String,
    pub span_id: String,
    pub trace_state: String,
    pub attributes: Attributes,
}

/// What a [`SpanLink`] stands for.
pub ghost struct LinkModel {
    pub trace_id: Seq<char>,
    pub span_id: Seq<char>,
    pub trace_state: Seq<char>,
    pub attributes: Entries,
}

impl SpanLink {
    pub open spec fn view(&self) -> LinkModel {
        LinkModel {
            trace_id: self.trace_id@,
            span_id: self.span_id@,
            trace_state: self.trace_state@,
            attributes: self.attributes@,
        }
    }
}

impl Clone for SpanLink {
    fn clone(&self) -> (r: SpanLink)
        ensures
            r@ == self@,
    {
        SpanLink {
            trace_id: self.trace_id.clone(),
            span_id: self.span_id.clone(),
            trace_state: self.trace_state.clone(),
            attributes: self.attributes.clone(),
        }
    }
}

impl Default for SpanLink {
    fn default() -> (r: SpanLink)
        ensures
            r@ == (LinkModel {
                trace_id: Seq::empty(),
                span_id: Seq::empty(),
                trace_state: Seq::empty(),
                attributes: Seq::empty(),
            }),
    {
        SpanLink {
            trace_id: String::new(),
            span_id: String::new(),
            trace_state: String::new(),
            attributes: ValueMap::new(),
        }
    }
}

/// A span.
#[derive(Debug)]
pub struct SpanEvent {
    /// When the span began, as a UNIX time in nanoseconds.
    pub timestamp: u64,
    /// 32 small hexadecimal digits.
    pub trace_id: String,
    /// 16 small hexadecimal digits.
    pub span_id: String,
    /// Empty for the root of a trace.
    pub parent_span_id: String,
    pub trace_state: String,
    pub span_name: String,
    pub span_kind: SpanKind,
    /// The `service.name` of the resource. All spans of a resource share it.
    pub service_name: Arc<str>,
    /// How long the span took, in nanoseconds.
    pub duration_ns: u64,
    pub status_code: StatusCode,
    pub status_message: String,
    pub scope_name: Arc<str>,
    pub scope_version: Arc<str>,
    /// All spans of a resource share them.
    pub resource_attributes: Arc<Attributes>,
    pub span_attributes: Attributes,
    pub events: Vec<TimedEvent>,
    pub links: Vec<SpanLink>,
    /// Fields that were added to this span.
    pub fields: ValueMap,
    /// Fields that every span of a source has. A field of the span goes before one of these.
    pub shared: Option<Arc<ValueMap>>,
}

/// What a [`SpanEvent`] stands for.
pub ghost struct SpanModel {
    pub timestamp: u64,
    pub trace_id: Seq<char>,
    pub span_id: Seq<char>,
    pub parent_span_id: Seq<char>,
    pub trace_state: Seq<char>,
    pub span_name: Seq<char>,
    pub span_kind: SpanKind,
    pub service_name: Seq<char>,
    pub duration_ns: u64,
    pub status_code: StatusCode,
    pub status_message: Seq<char>,
    pub scope_name: Seq<char>,
    pub scope_version: Seq<char>,
    pub resource_attributes: Entries,
    pub span_attributes: Entries,
    pub events: Seq<EventModel>,
    pub links: Seq<LinkModel>,
    pub fields: Entries,
    pub shared: Option<Entries>,
}

/// What a list of timed events stands for.
pub open spec fn event_models(events: Seq<TimedEvent>) -> Seq<EventModel> {
    events.map_values(|event: TimedEvent| event@)
}

/// What a list of links stands for.
pub open spec fn link_models(links: Seq<SpanLink>) -> Seq<LinkModel> {
    links.map_values(|link: SpanLink| link@)
}

/// What a list of spans stands for.
pub open spec fn span_models(spans: Seq<SpanEvent>) -> Seq<SpanModel> {
    spans.map_values(|span: SpanEvent| span@)
}

/// What shared fields stand for.
pub open spec fn shared_model(shared: Option<Arc<ValueMap>>) -> Option<Entries> {
    match shared {
        Some(map) => Some((*map)@),
        None => None,
    }
}

/// `Arc::<str>::from` a string slice: a shared copy of the same text.
#[verifier::external_body]
pub(crate) fn shared_text(text: &str) -> (r: Arc<str>)
    ensures
        (*r)@ == text@,
{
    Arc::from(text)
}

impl SpanEvent {
    pub open spec fn view(&self) -> SpanModel {
        SpanModel {
            timestamp: self.timestamp,
            trace_id: self.trace_id@,
            span_id: self.span_id@,
            parent_span_id: self.parent_span_id@,
            trace_state: self.trace_state@,
            span_name: self.span_name@,
            span_kind: self.span_kind,
            service_name: (*self.service_name)@,
            duration_ns: self.duration_ns,
            status_code: self.status_code,
            status_message: self.status_message@,
            scope_name: (*self.scope_name)@,
            scope_version: (*self.scope_version)@,
            resource_attributes: (*self.resource_attributes)@,
            span_attributes: self.span_attributes@,
            events: event_models(self.events@),
            links: link_models(self.links@),
            fields: self.fields@,
            shared: shared_model(self.shared),
        }
    }

    /// Puts `value` under `key` in the fields of the span and hands the span back.
    pub fn with_field(self, key: &str, value: Value) -> (r: SpanEvent)
        ensures
            r@ == (SpanModel { fields: put(self@.fields, key@, value@), ..self@ }),
    {
        let mut span = self;
        span.fields.insert(key.to_owned(), value);
        span
    }

    /// Puts `value` under `key` in the fields of the span and gives back what stood there.
    pub fn insert(&mut self, key: &str, value: Value) -> (r: Option<Value>)
        ensures
            final(self)@ == (SpanModel {
                fields: put(old(self)@.fields, key@, value@),
                ..old(self)@
            }),
            match r {
                Some(previous) => lookup(old(self)@.fields, key@) == Some(previous@),
                None => lookup(old(self)@.fields, key@) is None,
            },
    {
        self.fields.insert(key.to_owned(), value)
    }

    /// The field `key`: one of the span itself, else one that it shares.
    pub fn get(&self, key: &str) -> (r: Option<&Value>)
        ensures
            match r {
                Some(value) => field_of(self@, key@) == Some(value@),
                None => field_of(self@, key@) is None,
            },
    {
        match self.fields.get(key) {
            Some(value) => Some(value),
            None => match &self.shared {
                Some(shared) => shared.get(key),
                None => None,
            },
        }
    }

    /// The attribute `key`: one of the span itself, else one of its resource.
    pub fn attribute(&self, key: &str) -> (r: Option<&Value>)
        ensures
            match r {
                Some(value) => attribute_of(self@, key@) == Some(value@),
                None => attribute_of(self@, key@) is None,
            },
    {
        match self.span_attributes.get(key) {
            Some(value) => Some(value),
            None => self.resource_attributes.get(key),
        }
    }
}

/// The field `key` of a span: one of the span itself, else one that it shares.
pub open spec fn field_of(span: SpanModel, key: Seq<char>) -> Option<Json> {
    match lookup(span.fields, key) {
        Some(value) => Some(value),
        None => match span.shared {
            Some(shared) => lookup(shared, key),
            None => None,
        },
    }
}

/// The attribute `key` of a span: one of the span itself, else one of its resource.
pub open spec fn attribute_of(span: SpanModel, key: Seq<char>) -> Option<Json> {
    match lookup(span.span_attributes, key) {
        Some(value) => Some(value),
        None => lookup(span.resource_attributes, key),
    }
}

/// Copies a list of timed events.
fn copy_events(events: &Vec<TimedEvent>) -> (r: Vec<TimedEvent>)
    ensures
        event_models(r@) == event_models(events@),
{
    let mut out: Vec<TimedEvent> = Vec::new();
    let mut i: usize = 0;
    while i < events.len()
        invariant
            i <= events@.len(),
            out@.len() == i,
            forall|k: int| 0 <= k < i ==> (#[trigger] out@[k])@ == events@[k]@,
        decreases events@.len() - i,
    {
        out.push(events[i].clone());
        i += 1;
    }
    assert(event_models(out@) =~= event_models(events@));
    out
}

/// Copies a list of links.
fn copy_links(links: &Vec<SpanLink>) -> (r: Vec<SpanLink>)
    ensures
        link_models(r@) == link_models(links@),
{
    let mut out: Vec<SpanLink> = Vec::new();
    let mut i: usize = 0;
    while i < links.len()
        invariant
            i <= links@.len(),
            out@.len() == i,
            forall|k: int| 0 <= k < i ==> (#[trigger] out@[k])@ == links@[k]@,
        decreases links@.len() - i,
    {
        out.push(links[i].clone());
        i += 1;
    }
    assert(link_models(out@) =~= link_models(links@));
    out
}

impl Clone for SpanEvent {
    fn clone(&self) -> (r: SpanEvent)
        ensures
            r@ == self@,
    {
        let shared = match &self.shared {
            Some(map) => Some(Arc::clone(map)),
            None => None,
        };
        SpanEvent {
            timestamp: self.timestamp,
            trace_id: self.trace_id.clone(),
            span_id: self.span_id.clone(),
            parent_span_id: self.parent_span_id.clone(),
            trace_state: self.trace_state.clone(),
            span_name: self.span_name.clone(),
            span_kind: self.span_kind,
            service_name: Arc::clone(&self.service_name),
            duration_ns: self.duration_ns,
            status_code: self.status_code,
            status_message: self.status_message.clone(),
            scope_name: Arc::clone(&self.scope_name),
            scope_version: Arc::clone(&self.scope_version),
            resource_attributes: Arc::clone(&self.resource_attributes),
            span_attributes: self.span_attributes.clone(),
            events: copy_events(&self.events),
            links: copy_links(&self.links),
            fields: self.fields.clone(),
            shared,
        }
    }
}

impl Default for SpanEvent {
    fn default() -> (r: SpanEvent)
        ensures
            r@ == (SpanModel {
                timestamp: 0,
                trace_id: Seq::empty(),
                span_id: Seq::empty(),
                parent_span_id: Seq::empty(),
                trace_state: Seq::empty(),
                span_name: Seq::empty(),
                span_kind: SpanKind::Unspecified,
                service_name: Seq::empty(),
                duration_ns: 0,
                status_code: StatusCode::Unset,
                status_message: Seq::empty(),
                scope_name: Seq::empty(),
                scope_version: Seq::empty(),
                resource_attributes: Seq::empty(),
                span_attributes: Seq::empty(),
                events: Seq::empty(),
                links: Seq::empty(),
                fields: Seq::empty(),
                shared: None,
            }),
    {
        let r = SpanEvent {
            timestamp: 0,
            trace_id: String::new(),
            span_id: String::new(),
            parent_span_id: String::new(),
            trace_state: String::new(),
            span_name: String::new(),
            span_kind: SpanKind::Unspecified,
            service_name: shared_text(""),
            duration_ns: 0,
            status_code: StatusCode::Unset,
            status_message: String::new(),
            scope_name: shared_text(""),
            scope_version: shared_text(""),
            resource_attributes: Arc::new(ValueMap::new()),
            span_attributes: ValueMap::new(),
            events: Vec::new(),
            links: Vec::new(),
            fields: ValueMap::new(),
            shared: None,
        };
        proof {
            reveal_strlit("");
            assert(""@ =~= Seq::<char>::empty());
            assert(event_models(r.events@) =~= Seq::<EventModel>::empty());
            assert(link_models(r.links@) =~= Seq::<LinkModel>::empty());
        }
        r
    }
}

/// How many bytes the JSON text of a value is reckoned to take.
pub open spec fn value_size(value: Json) -> nat
    decreases value,
{
    match value {
        Json::Null => 4,
        Json::Bool(_) => 5,
        Json::Number(_) => 8,
        Json::String(s) => encode_utf8(s).len() + 2,
        Json::Array(items) => 2 + items_size(items) + items.len(),
        Json::Object(entries) => 2 + entries_size(entries),
    }
}

/// How many bytes the items of an array are reckoned to take.
pub open spec fn items_size(items: Seq<Json>) -> nat
    decreases items,
{
    if items.len() == 0 {
        0
    } else {
        items_size(items.drop_last()) + value_size(items.last())
    }
}

/// How many bytes the entries of a map are reckoned to take.
pub open spec fn entries_size(entries: Entries) -> nat
    decreases entries,
{
    if entries.len() == 0 {
        0
    } else {
        entries_size(entries.drop_last()) + encode_utf8(entries.last().0).len() + value_size(
            entries.last().1,
        ) + 4
    }
}

/// How many bytes attributes are reckoned to take.
pub open spec fn attributes_size(attributes: Entries) -> nat {
    entries_size(attributes) + 2
}

/// How many bytes the timed events of a span are reckoned to take.
pub open spec fn events_size(events: Seq<EventModel>) -> nat
    decreases events.len(),
{
    if events.len() == 0 {
        0
    } else {
        events_size(events.drop_last()) + 40 + encode_utf8(events.last().name).len()
            + attributes_size(events.last().attributes)
    }
}

/// How many bytes the links of a span are reckoned to take.
pub open spec fn links_size(links: Seq<LinkModel>) -> nat
    decreases links.len(),
{
    if links.len() == 0 {
        0
    } else {
        links_size(links.drop_last()) + encode_utf8(links.last().trace_id).len() + encode_utf8(
            links.last().span_id,
        ).len() + encode_utf8(links.last().trace_state).len() + attributes_size(
            links.last().attributes,
        )
    }
}

/// How many bytes the fields that are shared are reckoned to take.
pub open spec fn shared_size(shared: Option<Entries>) -> nat {
    match shared {
        Some(entries) => entries_size(entries),
        None => 0,
    }
}

/// How many bytes the JSON text of a span is reckoned to take.
pub open spec fn span_size(span: SpanModel) -> nat {
    encode_utf8(span.trace_id).len() + encode_utf8(span.span_id).len() + encode_utf8(
        span.parent_span_id,
    ).len() + encode_utf8(span.trace_state).len() + encode_utf8(span.span_name).len()
        + encode_utf8(span.service_name).len() + encode_utf8(span.status_message).len()
        + encode_utf8(span.scope_name).len() + encode_utf8(span.scope_version).len()
        + attributes_size(span.resource_attributes) + attributes_size(span.span_attributes)
        + events_size(span.events) + links_size(span.links) + entries_size(span.fields)
        + shared_size(span.shared) + 400
}

/// `count` is `n`, or nothing where `n` does not fit.
spec fn counts(count: Option<usize>, n: nat) -> bool {
    match count {
        Some(k) => k == n,
        None => n > usize::MAX,
    }
}

/// The sum of two counts.
fn plus(a: Option<usize>, b: Option<usize>) -> (r: Option<usize>)
    ensures
        match (a, b) {
            (Some(x), Some(y)) => counts(r, (x + y) as nat),
            _ => r is None,
        },
{
    match (a, b) {
        (Some(x), Some(y)) => x.checked_add(y),
        _ => None,
    }
}

fn count_value(value: &Value) -> (r: Option<usize>)
    ensures
        counts(r, value_size(value@)),
    decreases value,
{
    match value {
        Value::Null => Some(4),
        Value::Bool(_) => Some(5),
        Value::Number(_) => Some(8),
        Value::String(s) => plus(Some(byte_len(s.as_str())), Some(2)),
        Value::Array(items) => {
            let ghost model = value@->Array_0;
            let mut total: Option<usize> = Some(0);
            let mut i: usize = 0;
            while i < items.len()
                invariant
                    value == Value::Array(*items),
                    i <= items@.len(),
                    model.len() == items@.len(),
                    forall|k: int| 0 <= k < model.len() ==> #[trigger] model[k] == items@[k]@,
                    counts(total, items_size(model.take(i as int))),
                decreases items@.len() - i,
            {
                proof {
                    assert(decreases_to!(*value => value->Array_0));
                    assert(decreases_to!(value->Array_0 => value->Array_0@));
                    assert(decreases_to!(value->Array_0@ => value->Array_0@[i as int]));
                    assert(decreases_to!(*value => value->Array_0@[i as int]));
                }
                let size = count_value(&items[i]);
                proof {
                    assert(model.take(i + 1).drop_last() =~= model.take(i as int));
                    assert(model.take(i + 1).last() == items@[i as int]@);
                }
                total = plus(total, size);
                i += 1;
            }
            proof {
                assert(model.take(i as int) =~= model);
            }
            plus(plus(Some(2), total), Some(items.len()))
        },
        Value::Object(map) => plus(Some(2), count_entries(map)),
    }
}

fn count_entries(map: &ValueMap) -> (r: Option<usize>)
    ensures
        counts(r, entries_size(map@)),
    decreases map,
{
    let ghost model = map@;
    let mut total: Option<usize> = Some(0);
    let mut i: usize = 0;
    while i < map.len()
        invariant
            model == map@,
            i <= model.len(),
            counts(total, entries_size(model.take(i as int))),
        decreases model.len() - i,
    {
        let key = byte_len(map.key_at(i));
        let value = count_value(map.value_at(i));
        proof {
            assert(model.take(i + 1).drop_last() =~= model.take(i as int));
            assert(model.take(i + 1).last() == model[i as int]);
        }
        total = plus(plus(plus(total, Some(key)), value), Some(4));
        i += 1;
    }
    proof {
        assert(model.take(i as int) =~= model);
    }
    total
}

fn count_attributes(attributes: &Attributes) -> (r: Option<usize>)
    ensures
        counts(r, attributes_size(attributes@)),
{
    plus(count_entries(attributes), Some(2))
}

fn count_events(events: &Vec<TimedEvent>) -> (r: Option<usize>)
    ensures
        counts(r, events_size(event_models(events@))),
{
    let ghost model = event_models(events@);
    let mut total: Option<usize> = Some(0);
    let mut i: usize = 0;
    while i < events.len()
        invariant
            model == event_models(events@),
            i <= model.len(),
            counts(total, events_size(model.take(i as int))),
        decreases model.len() - i,
    {
        let event = &events[i];
        let name = byte_len(event.name.as_str());
        let attributes = count_attributes(&event.attributes);
        proof {
            assert(model.take(i + 1).drop_last() =~= model.take(i as int));
            assert(model.take(i + 1).last() == event@);
        }
        total = plus(plus(plus(total, Some(40)), Some(name)), attributes);
        i += 1;
    }
    proof {
        assert(model.take(i as int) =~= model);
    }
    total
}

fn count_links(links: &Vec<SpanLink>) -> (r: Option<usize>)
    ensures
        counts(r, links_size(link_models(links@))),
{
    let ghost model = link_models(links@);
    let mut total: Option<usize> = Some(0);
    let mut i: usize = 0;
    while i < links.len()
        invariant
            model == link_models(links@),
            i <= model.len(),
            counts(total, links_size(model.take(i as int))),
        decreases model.len() - i,
    {
        let link = &links[i];
        let trace_id = byte_len(link.trace_id.as_str());
        let span_id = byte_len(link.span_id.as_str());
        let trace_state = byte_len(link.trace_state.as_str());
        let attributes = count_attributes(&link.attributes);
        proof {
            assert(model.take(i + 1).drop_last() =~= model.take(i as int));
            assert(model.take(i + 1).last() == link@);
        }
        total = plus(
            plus(plus(plus(total, Some(trace_id)), Some(span_id)), Some(trace_state)),
            attributes,
        );
        i += 1;
    }
    proof {
        assert(model.take(i as int) =~= model);
    }
    total
}

impl SpanEvent {
    /// How many bytes the JSON text of the span is reckoned to take, or nothing where that is
    /// too large to count.
    pub fn checked_size(&self) -> (r: Option<usize>)
        ensures
            match r {
                Some(size) => size == span_size(self@),
                None => span_size(self@) > usize::MAX,
            },
    {
        let mut total: Option<usize> = Some(400);
        total = plus(total, Some(byte_len(self.trace_id.as_str())));
        total = plus(total, Some(byte_len(self.span_id.as_str())));
        total = plus(total, Some(byte_len(self.parent_span_id.as_str())));
        total = plus(total, Some(byte_len(self.trace_state.as_str())));
        total = plus(total, Some(byte_len(self.span_name.as_str())));
        total = plus(total, Some(byte_len(&*self.service_name)));
        total = plus(total, Some(byte_len(self.status_message.as_str())));
        total = plus(total, Some(byte_len(&*self.scope_name)));
        total = plus(total, Some(byte_len(&*self.scope_version)));
        total = plus(total, count_attributes(&*self.resource_attributes));
        total = plus(total, count_attributes(&self.span_attributes));
        total = plus(total, count_events(&self.events));
        total = plus(total, count_links(&self.links));
        total = plus(total, count_entries(&self.fields));
        match &self.shared {
            Some(shared) => plus(total, count_entries(&**shared)),
            None => total,
        }
    }

    /// How many bytes the JSON text of the span is reckoned to take. Batches are measured by it.
    pub fn estimated_size(&self) -> (r: usize)
        requires
            span_size(self@) <= usize::MAX,
        ensures
            r == span_size(self@),
    {
        match self.checked_size() {
            Some(size) => size,
            None => 0,
        }
    }
}

/// The items of the column `events.timestamp`.
pub open spec fn event_times(events: Seq<EventModel>, zone: Seq<char>) -> Seq<Seq<char>> {
    events.map_values(|event: EventModel| quote(timestamp_text(event.timestamp, zone)))
}

/// The items of the column `events.name`.
pub open spec fn event_names(events: Seq<EventModel>) -> Seq<Seq<char>> {
    events.map_values(|event: EventModel| quote(event.name))
}

/// The items of the column `events.attributes`.
pub open spec fn event_attributes(events: Seq<EventModel>) -> Seq<Seq<char>> {
    events.map_values(|event: EventModel| map_text(event.attributes))
}

/// The items of the column `links.trace_id`.
pub open spec fn link_trace_ids(links: Seq<LinkModel>) -> Seq<Seq<char>> {
    links.map_values(|link: LinkModel| quote(link.trace_id))
}

/// The items of the column `links.span_id`.
pub open spec fn link_span_ids(links: Seq<LinkModel>) -> Seq<Seq<char>> {
    links.map_values(|link: LinkModel| quote(link.span_id))
}

/// The items of the column `links.trace_state`.
pub open spec fn link_trace_states(links: Seq<LinkModel>) -> Seq<Seq<char>> {
    links.map_values(|link: LinkModel| quote(link.trace_state))
}

/// The items of the column `links.attributes`.
pub open spec fn link_attributes(links: Seq<LinkModel>) -> Seq<Seq<char>> {
    links.map_values(|link: LinkModel| map_text(link.attributes))
}

/// The members that every row has, in the order of the columns of the table.
pub open spec fn base_cells(span: SpanModel, zone: Seq<char>) -> Cells {
    seq![
        ("timestamp"@, quote(timestamp_text(span.timestamp, zone))),
        ("trace_id"@, quote(span.trace_id)),
        ("span_id"@, quote(span.span_id)),
        ("parent_span_id"@, quote(span.parent_span_id)),
        ("trace_state"@, quote(span.trace_state)),
        ("span_name"@, quote(span.span_name)),
        ("span_kind"@, quote(span.span_kind.name())),
        ("service_name"@, quote(span.service_name)),
        ("duration_ns"@, decimal(span.duration_ns as nat)),
        ("status_code"@, quote(span.status_code.name())),
        ("status_message"@, quote(span.status_message)),
        ("scope_name"@, quote(span.scope_name)),
        ("scope_version"@, quote(span.scope_version)),
        ("resource_attributes"@, map_text(span.resource_attributes)),
        ("span_attributes"@, map_text(span.span_attributes)),
        ("events.timestamp"@, array_text(event_times(span.events, zone))),
        ("events.name"@, array_text(event_names(span.events))),
        ("events.attributes"@, array_text(event_attributes(span.events))),
        ("links.trace_id"@, array_text(link_trace_ids(span.links))),
        ("links.span_id"@, array_text(link_span_ids(span.links))),
        ("links.trace_state"@, array_text(link_trace_states(span.links))),
        ("links.attributes"@, array_text(link_attributes(span.links))),
    ]
}

/// The members for fields that are shared: those that the span has no field of its own for.
pub open spec fn shared_cells(shared: Entries, fields: Entries) -> Cells
    decreases shared.len(),
{
    if shared.len() == 0 {
        Seq::empty()
    } else {
        let front = shared_cells(shared.drop_last(), fields);
        if has_key(fields, shared.last().0) {
            front
        } else {
            front.push((shared.last().0, json_text(shared.last().1)))
        }
    }
}

/// The members of a row that stand for fields.
pub open spec fn field_cells(span: SpanModel) -> Cells {
    match span.shared {
        Some(shared) => shared_cells(shared, span.fields) + entry_cells(span.fields),
        None => entry_cells(span.fields),
    }
}

/// The members of the row of a span.
pub open spec fn row_cells(span: SpanModel, zone: Seq<char>) -> Cells {
    base_cells(span, zone) + field_cells(span)
}

/// All the numbers that the row of a span shows are displayed as JSON writes numbers.
pub open spec fn span_numbers_are_json(span: SpanModel) -> bool {
    &&& numbers_are_json(Json::Object(span.resource_attributes))
    &&& numbers_are_json(Json::Object(span.span_attributes))
    &&& forall|i: int|
        0 <= i < span.events.len() ==> numbers_are_json(
            Json::Object((#[trigger] span.events[i]).attributes),
        )
    &&& forall|i: int|
        0 <= i < span.links.len() ==> numbers_are_json(
            Json::Object((#[trigger] span.links[i]).attributes),
        )
    &&& numbers_are_json(Json::Object(span.fields))
    &&& span.shared is Some ==> forall|i: int|
        0 <= i < span.shared->0.len() && !has_key(span.fields, (#[trigger] span.shared->0[i]).0)
            ==> numbers_are_json(span.shared->0[i].1)
}

/// The row of a span: one JSON object, in one line, with the times in a zone.
#[verifier::opaque]
pub open spec fn row_text(span: SpanModel, zone: Seq<char>) -> Seq<char> {
    object_text(cell_texts(row_cells(span, zone)))
}

fn write_event_times(events: &Vec<TimedEvent>, tz: Tz) -> (r: String)
    ensures
        r@ == array_text(event_times(event_models(events@), zone_name(tz))),
        is_json_line(r@),
{
    let ghost model = event_times(event_models(events@), zone_name(tz));
    let mut writer = ArrayWriter::new();
    let mut i: usize = 0;
    while i < events.len()
        invariant
            model == event_times(event_models(events@), zone_name(tz)),
            i <= events@.len(),
            writer.wf(),
            writer@ =~= model.take(i as int),
        decreases events@.len() - i,
    {
        let time = format_timestamp(events[i].timestamp, tz);
        writer.string(time.as_str(), i == 0);
        i += 1;
    }
    assert(model.take(i as int) =~= model);
    writer.finish()
}

fn write_event_names(events: &Vec<TimedEvent>) -> (r: String)
    ensures
        r@ == array_text(event_names(event_models(events@))),
        is_json_line(r@),
{
    let ghost model = event_names(event_models(events@));
    let mut writer = ArrayWriter::new();
    let mut i: usize = 0;
    while i < events.len()
        invariant
            model == event_names(event_models(events@)),
            i <= events@.len(),
            writer.wf(),
            writer@ =~= model.take(i as int),
        decreases events@.len() - i,
    {
        writer.string(events[i].name.as_str(), i == 0);
        i += 1;
    }
    assert(model.take(i as int) =~= model);
    writer.finish()
}

fn write_event_attributes(events: &Vec<TimedEvent>) -> (r: String)
    ensures
        r@ == array_text(event_attributes(event_models(events@))),
        is_json_line(r@),
        forall|k: int|
            0 <= k < events@.len() ==> numbers_are_json(
                Json::Object((#[trigger] event_models(events@)[k]).attributes),
            ),
{
    let ghost model = event_attributes(event_models(events@));
    let mut writer = ArrayWriter::new();
    let mut i: usize = 0;
    while i < events.len()
        invariant
            model == event_attributes(event_models(events@)),
            i <= events@.len(),
            writer.wf(),
            writer@ =~= model.take(i as int),
            forall|k: int|
                0 <= k < i ==> numbers_are_json(
                    Json::Object((#[trigger] event_models(events@)[k]).attributes),
                ),
        decreases events@.len() - i,
    {
        writer.map(&events[i].attributes, i == 0);
        i += 1;
    }
    assert(model.take(i as int) =~= model);
    writer.finish()
}

fn write_link_trace_ids(links: &Vec<SpanLink>) -> (r: String)
    ensures
        r@ == array_text(link_trace_ids(link_models(links@))),
        is_json_line(r@),
{
    let ghost model = link_trace_ids(link_models(links@));
    let mut writer = ArrayWriter::new();
    let mut i: usize = 0;
    while i < links.len()
        invariant
            model == link_trace_ids(link_models(links@)),
            i <= links@.len(),
            writer.wf(),
            writer@ =~= model.take(i as int),
        decreases links@.len() - i,
    {
        writer.string(links[i].trace_id.as_str(), i == 0);
        i += 1;
    }
    assert(model.take(i as int) =~= model);
    writer.finish()
}

fn write_link_span_ids(links: &Vec<SpanLink>) -> (r: String)
    ensures
        r@ == array_text(link_span_ids(link_models(links@))),
        is_json_line(r@),
{
    let ghost model = link_span_ids(link_models(links@));
    let mut writer = ArrayWriter::new();
    let mut i: usize = 0;
    while i < links.len()
        invariant
            model == link_span_ids(link_models(links@)),
            i <= links@.len(),
            writer.wf(),
            writer@ =~= model.take(i as int),
        decreases links@.len() - i,
    {
        writer.string(links[i].span_id.as_str(), i == 0);
        i += 1;
    }
    assert(model.take(i as int) =~= model);
    writer.finish()
}

fn write_link_trace_states(links: &Vec<SpanLink>) -> (r: String)
    ensures
        r@ == array_text(link_trace_states(link_models(links@))),
        is_json_line(r@),
{
    let ghost model = link_trace_states(link_models(links@));
    let mut writer = ArrayWriter::new();
    let mut i: usize = 0;
    while i < links.len()
        invariant
            model == link_trace_states(link_models(links@)),
            i <= links@.len(),
            writer.wf(),
            writer@ =~= model.take(i as int),
        decreases links@.len() - i,
    {
        writer.string(links[i].trace_state.as_str(), i == 0);
        i += 1;
    }
    assert(model.take(i as int) =~= model);
    writer.finish()
}

fn write_link_attributes(links: &Vec<SpanLink>) -> (r: String)
    ensures
        r@ == array_text(link_attributes(link_models(links@))),
        is_json_line(r@),
        forall|k: int|
            0 <= k < links@.len() ==> numbers_are_json(
                Json::Object((#[trigger] link_models(links@)[k]).attributes),
            ),
{
    let ghost model = link_attributes(link_models(links@));
    let mut writer = ArrayWriter::new();
    let mut i: usize = 0;
    while i < links.len()
        invariant
            model == link_attributes(link_models(links@)),
            i <= links@.len(),
            writer.wf(),
            writer@ =~= model.take(i as int),
            forall|k: int|
                0 <= k < i ==> numbers_are_json(
                    Json::Object((#[trigger] link_models(links@)[k]).attributes),
                ),
        decreases links@.len() - i,
    {
        writer.map(&links[i].attributes, i == 0);
        i += 1;
    }
    assert(model.take(i as int) =~= model);
    writer.finish()
}

impl SpanEvent {
    /// Writes the members that every row has.
    #[verifier::rlimit(40)]
    fn write_base(&self, writer: &mut ObjectWriter, tz: Tz)
        requires
            old(writer).wf(),
            old(writer)@.len() == 0,
        ensures
            final(writer).wf(),
            final(writer)@ == base_cells(self@, zone_name(tz)),
            numbers_are_json(Json::Object(self@.resource_attributes)),
            numbers_are_json(Json::Object(self@.span_attributes)),
            forall|k: int|
                0 <= k < self@.events.len() ==> numbers_are_json(
                    Json::Object((#[trigger] self@.events[k]).attributes),
                ),
            forall|k: int|
                0 <= k < self@.links.len() ==> numbers_are_json(
                    Json::Object((#[trigger] self@.links[k]).attributes),
                ),
    {
        assert(writer@ =~= Seq::empty());
        writer.string("timestamp", format_timestamp(self.timestamp, tz).as_str());
        writer.string("trace_id", self.trace_id.as_str());
        writer.string("span_id", self.span_id.as_str());
        writer.string("parent_span_id", self.parent_span_id.as_str());
        writer.string("trace_state", self.trace_state.as_str());
        writer.string("span_name", self.span_name.as_str());
        writer.string("span_kind", self.span_kind.as_str());
        writer.string("service_name", &*self.service_name);
        writer.number("duration_ns", self.duration_ns);
        writer.string("status_code", self.status_code.as_str());
        writer.string("status_message", self.status_message.as_str());
        writer.string("scope_name", &*self.scope_name);
        writer.string("scope_version", &*self.scope_version);
        writer.map("resource_attributes", &*self.resource_attributes);
        writer.map("span_attributes", &self.span_attributes);
        writer.member("events.timestamp", write_event_times(&self.events, tz).as_str());
        writer.member("events.name", write_event_names(&self.events).as_str());
        writer.member("events.attributes", write_event_attributes(&self.events).as_str());
        writer.member("links.trace_id", write_link_trace_ids(&self.links).as_str());
        writer.member("links.span_id", write_link_span_ids(&self.links).as_str());
        writer.member("links.trace_state", write_link_trace_states(&self.links).as_str());
        writer.member("links.attributes", write_link_attributes(&self.links).as_str());
    }

    /// Writes the members for the fields that are shared.
    fn write_shared(&self, writer: &mut ObjectWriter, shared: &ValueMap)
        requires
            old(writer).wf(),
        ensures
            final(writer).wf(),
            final(writer)@ == old(writer)@ + shared_cells(shared@, self@.fields),
            forall|k: int|
                0 <= k < shared@.len() && !has_key(self@.fields, (#[trigger] shared@[k]).0)
                    ==> numbers_are_json(shared@[k].1),
    {
        let ghost start = writer@;
        let ghost model = shared@;
        assert(writer@ =~= start + shared_cells(model.take(0), self@.fields));
        let mut i: usize = 0;
        while i < shared.len()
            invariant
                model == shared@,
                i <= model.len(),
                writer.wf(),
                writer@ == start + shared_cells(model.take(i as int), self@.fields),
                forall|k: int|
                    0 <= k < i && !has_key(self@.fields, (#[trigger] shared@[k]).0)
                        ==> numbers_are_json(shared@[k].1),
            decreases model.len() - i,
        {
            let key = shared.key_at(i);
            proof {
                assert(model.take(i + 1).drop_last() =~= model.take(i as int));
                assert(model.take(i + 1).last() == model[i as int]);
            }
            if !self.fields.contains_key(key) {
                writer.value(key, shared.value_at(i));
                assert(writer@ =~= start + shared_cells(model.take(i + 1), self@.fields));
            }
            i += 1;
        }
        assert(model.take(i as int) =~= model);
    }

    /// Writes the members for the fields of the span.
    fn write_fields(&self, writer: &mut ObjectWriter)
        requires
            old(writer).wf(),
        ensures
            final(writer).wf(),
            final(writer)@ == old(writer)@ + entry_cells(self@.fields),
            numbers_are_json(Json::Object(self@.fields)),
    {
        let ghost start = writer@;
        let ghost model = self@.fields;
        assert(writer@ =~= start + entry_cells(model).take(0));
        let mut i: usize = 0;
        while i < self.fields.len()
            invariant
                model == self.fields@,
                i <= model.len(),
                writer.wf(),
                writer@ == start + entry_cells(model).take(i as int),
                forall|k: int| 0 <= k < i ==> numbers_are_json((#[trigger] model[k]).1),
            decreases model.len() - i,
        {
            writer.value(self.fields.key_at(i), self.fields.value_at(i));
            assert(writer@ =~= start + entry_cells(model).take(i + 1));
            i += 1;
        }
        assert(entry_cells(model).take(i as int) =~= entry_cells(model));
    }

    /// The row of the span, with the times in `tz`.
    fn serialize_in(&self, tz: Tz) -> (r: String)
        ensures
            r@ == row_text(self@, zone_name(tz)),
            is_json_line(r@),
            read_object(r@) == row_cells(self@, zone_name(tz)),
            span_numbers_are_json(self@),
    {
        let mut writer = ObjectWriter::new();
        self.write_base(&mut writer, tz);
        match &self.shared {
            Some(shared) => self.write_shared(&mut writer, &**shared),
            None => {},
        }
        self.write_fields(&mut writer);
        let ghost cells = row_cells(self@, zone_name(tz));
        assert(writer@ =~= cells);
        let text = writer.finish();
        proof {
            reveal(row_text);
            assert forall|i: int| 0 <= i < cells.len() implies is_json((#[trigger] cells[i]).1) by {
                assert(is_json_line(cells[i].1));
            }
            lemma_object_reads_back(cells);
        }
        text
    }

    /// The row of the span with its times in UTC: one JSON object, in one line, from which its
    /// members can be read.
    pub fn to_json_line(&self) -> (r: Result<String, Error>)
        ensures
            r is Ok,
            r->Ok_0@ == row_text(self@, "UTC"@),
            is_json_line(r->Ok_0@),
            read_object(r->Ok_0@) == row_cells(self@, "UTC"@),
            span_numbers_are_json(self@),
    {
        Ok(self.serialize_in(utc()))
    }

    /// A line for people to read. `millis` is the duration in milliseconds, to three places.
    pub fn to_text_line(&self, millis: &str) -> (r: String)
        ensures
            r@ == text_line(self@, millis@),
    {
        let mut out = String::new();
        out.push_str(format_timestamp(self.timestamp, utc()).as_str());
        out.push_str(" ");
        out.push_str(&*self.service_name);
        out.push_str(" ");
        out.push_str(self.span_name.as_str());
        out.push_str(" ");
        out.push_str(self.span_kind.as_str());
        out.push_str(" ");
        out.push_str(millis);
        out.push_str("ms ");
        out.push_str(self.status_code.as_str());
        out.push_str(" trace=");
        out.push_str(self.trace_id.as_str());
        out.push_str(" span=");
        out.push_str(self.span_id.as_str());
        out.push_str(" parent=");
        out.push_str(self.parent_span_id.as_str());
        assert(out@ =~= text_line(self@, millis@));
        out
    }
}

/// The line for people to read. `millis` is the duration in milliseconds.
pub open spec fn text_line(span: SpanModel, millis: Seq<char>) -> Seq<char> {
    timestamp_text(span.timestamp, "UTC"@) + " "@ + span.service_name + " "@ + span.span_name
        + " "@ + span.span_kind.name() + " "@ + millis + "ms "@ + span.status_code.name()
        + " trace="@ + span.trace_id + " span="@ + span.span_id + " parent="@
        + span.parent_span_id
}

/// A span whose times are to be written in a zone. The offset from UTC is always written, so
/// that the zone decides what is shown and not which instant is meant.
pub struct WithZone<'a> {
    pub event: &'a SpanEvent,
    pub tz: Tz,
}

impl<'a> WithZone<'a> {
    /// The row of the span: one JSON object, in one line, from which its members can be read.
    pub fn to_json_line(&self) -> (r: String)
        ensures
            r@ == row_text(self.event@, zone_name(self.tz)),
            is_json_line(r@),
            read_object(r@) == row_cells(self.event@, zone_name(self.tz)),
            span_numbers_are_json(self.event@),
    {
        self.event.serialize_in(self.tz)
    }
}

/// The columns for the timed events of a span have as many items as there are events, and those
/// for its links as many as there are links.
pub proof fn lemma_nested_columns_are_alike(span: SpanModel, zone: Seq<char>)
    ensures
        event_times(span.events, zone).len() == span.events.len(),
        event_names(span.events).len() == span.events.len(),
        event_attributes(span.events).len() == span.events.len(),
        link_trace_ids(span.links).len() == span.links.len(),
        link_span_ids(span.links).len() == span.links.len(),
        link_trace_states(span.links).len() == span.links.len(),
        link_attributes(span.links).len() == span.links.len(),
{
}

proof fn lemma_shared_cells(shared: Entries, fields: Entries)
    requires
        ordered(shared),
    ensures
        forall|i: int|
            0 <= i < shared_cells(shared, fields).len() ==> !has_key(
                fields,
                (#[trigger] shared_cells(shared, fields)[i]).0,
            ) && lookup(shared, shared_cells(shared, fields)[i].0) is Some
                && shared_cells(shared, fields)[i].1 == json_text(
                lookup(shared, shared_cells(shared, fields)[i].0)->Some_0,
            ),
        forall|i: int, j: int|
            0 <= i < j < shared_cells(shared, fields).len() ==> (#[trigger] shared_cells(
                shared,
                fields,
            )[i]).0 != (#[trigger] shared_cells(shared, fields)[j]).0,
        forall|key: Seq<char>|
            !has_key(fields, key) && #[trigger] has_key(shared, key) ==> shared_cells(
                shared,
                fields,
            ).contains((key, json_text(lookup(shared, key)->Some_0))),
    decreases shared.len(),
{
    let cells = shared_cells(shared, fields);
    if shared.len() > 0 {
        let less = shared.drop_last();
        let front = shared_cells(less, fields);
        lemma_shared_cells(less, fields);
        let last = shared.last();
        lemma_lookup(shared, shared.len() - 1);
        assert forall|key: Seq<char>| has_key(less, key) implies key != last.0 && lookup(
            less,
            key,
        ) == lookup(shared, key) by {
            let n = choose|n: int| keyed(less, key, n);
            assert(less[n] == shared[n]);
            lemma_lookup(less, n);
            lemma_lookup(shared, n);
            if key == last.0 {
                lemma_before_asymmetric(key, key);
            }
        }
        assert forall|i: int| 0 <= i < cells.len() implies !has_key(fields, (#[trigger] cells[i]).0)
            && lookup(shared, cells[i].0) is Some && cells[i].1 == json_text(
            lookup(shared, cells[i].0)->Some_0,
        ) by {
            if i < front.len() {
                assert(cells[i] == front[i]);
                assert(has_key(less, front[i].0));
            }
        }
        assert forall|i: int, j: int| 0 <= i < j < cells.len() implies (#[trigger] cells[i]).0 != (
        #[trigger] cells[j]).0 by {
            assert(cells[i] == front[i]);
            assert(has_key(less, front[i].0));
            if j < front.len() {
                assert(cells[j] == front[j]);
            }
        }
        assert forall|key: Seq<char>|
            !has_key(fields, key) && #[trigger] has_key(shared, key) implies cells.contains(
            (key, json_text(lookup(shared, key)->Some_0)),
        ) by {
            let n = choose|n: int| keyed(shared, key, n);
            if n == shared.len() - 1 {
                assert(cells.last() == (key, json_text(lookup(shared, key)->Some_0)));
            } else {
                assert(keyed(less, key, n));
                let cell = (key, json_text(lookup(less, key)->Some_0));
                let m = choose|m: int| 0 <= m < front.len() && front[m] == cell;
                assert(cells[m] == front[m]);
            }
        }
    } else {
        assert forall|key: Seq<char>| !#[trigger] has_key(shared, key) by {
            if has_key(shared, key) {
                let n = choose|n: int| keyed(shared, key, n);
                assert(false);
            }
        }
    }
}

/// A row shows each field of a span once, with the value that the span has for it: a field of
/// the span itself hides one of the same name that is shared.
pub proof fn lemma_fields_stand_in_the_row(span: SpanModel)
    requires
        ordered(span.fields),
        span.shared is Some ==> ordered(span.shared->Some_0),
    ensures
        forall|i: int|
            0 <= i < field_cells(span).len() ==> field_of(
                span,
                (#[trigger] field_cells(span)[i]).0,
            ) is Some && field_cells(span)[i].1 == json_text(
                field_of(span, field_cells(span)[i].0)->Some_0,
            ),
        forall|i: int, j: int|
            0 <= i < j < field_cells(span).len() ==> (#[trigger] field_cells(span)[i]).0 != (
            #[trigger] field_cells(span)[j]).0,
        forall|key: Seq<char>|
            (#[trigger] field_of(span, key)) is Some ==> field_cells(span).contains(
                (key, json_text(field_of(span, key)->Some_0)),
            ),
{
    let fields = span.fields;
    let own = entry_cells(fields);
    let cells = field_cells(span);
    let from_shared: Cells = match span.shared {
        Some(shared) => shared_cells(shared, fields),
        None => Seq::empty(),
    };
    if span.shared is Some {
        lemma_shared_cells(span.shared->Some_0, fields);
    }
    let n = from_shared.len() as int;
    assert(cells =~= from_shared + own);
    assert forall|i: int| 0 <= i < own.len() implies has_key(fields, (#[trigger] own[i]).0)
        && own[i].1 == json_text(lookup(fields, own[i].0)->Some_0) by {
        assert(keyed(fields, own[i].0, i));
        lemma_lookup(fields, i);
    }
    assert forall|i: int| 0 <= i < cells.len() implies field_of(span, (#[trigger] cells[i]).0)
        is Some && cells[i].1 == json_text(field_of(span, cells[i].0)->Some_0) by {
        if i < n {
            assert(cells[i] == from_shared[i]);
        } else {
            assert(cells[i] == own[i - n]);
        }
    }
    assert forall|i: int, j: int| 0 <= i < j < cells.len() implies (#[trigger] cells[i]).0 != (
    #[trigger] cells[j]).0 by {
        if j < n {
            assert(cells[i] == from_shared[i] && cells[j] == from_shared[j]);
        } else if i < n {
            assert(cells[i] == from_shared[i] && cells[j] == own[j - n]);
        } else {
            assert(cells[i] == own[i - n] && cells[j] == own[j - n]);
            if own[i - n].0 == own[j - n].0 {
                assert(before(fields[i - n].0, fields[j - n].0));
                lemma_before_asymmetric(own[i - n].0, own[j - n].0);
            }
        }
    }
    assert forall|key: Seq<char>| (#[trigger] field_of(span, key)) is Some implies cells.contains(
        (key, json_text(field_of(span, key)->Some_0)),
    ) by {
        let cell = (key, json_text(field_of(span, key)->Some_0));
        if has_key(fields, key) {
            let m = choose|m: int| keyed(fields, key, m);
            lemma_lookup(fields, m);
            assert(own[m] == cell);
            assert(cells[n + m] == cell);
        } else {
            assert(has_key(span.shared->Some_0, key));
            let m = choose|m: int| 0 <= m < from_shared.len() && from_shared[m] == cell;
            assert(cells[m] == cell);
        }
    }
}

/// A row has a member under a key that is none of its fixed ones exactly if the span has a field
/// of that name, and then one member only, with the value that the span has for it.
pub proof fn lemma_row_has_each_field_once(span: SpanModel, zone: Seq<char>, key: Seq<char>)
    requires
        ordered(span.fields),
        span.shared is Some ==> ordered(span.shared->Some_0),
        forall|i: int|
            0 <= i < base_cells(span, zone).len() ==> (#[trigger] base_cells(span, zone)[i]).0
                != key,
    ensures
        ({
            let row = row_cells(span, zone);
            &&& field_of(span, key) is Some <==> exists|i: int|
                0 <= i < row.len() && (#[trigger] row[i]).0 == key
            &&& forall|i: int|
                0 <= i < row.len() && (#[trigger] row[i]).0 == key ==> field_of(span, key) is Some
                    && row[i].1 == json_text(field_of(span, key)->Some_0)
            &&& forall|i: int, j: int|
                0 <= i < row.len() && 0 <= j < row.len() && (#[trigger] row[i]).0 == key && (
                #[trigger] row[j]).0 == key ==> i == j
        }),
{
    let base = base_cells(span, zone);
    let fields = field_cells(span);
    let row = row_cells(span, zone);
    let n = base.len() as int;
    lemma_fields_stand_in_the_row(span);
    assert forall|i: int| 0 <= i < row.len() && (#[trigger] row[i]).0 == key implies i >= n
        && row[i] == fields[i - n] && field_of(span, key) is Some && row[i].1 == json_text(
        field_of(span, key)->Some_0,
    ) by {
        if i < n {
            assert(row[i] == base[i]);
        } else {
            assert(row[i] == fields[i - n]);
        }
    }
    assert forall|i: int, j: int|
        0 <= i < row.len() && 0 <= j < row.len() && (#[trigger] row[i]).0 == key && (
        #[trigger] row[j]).0 == key implies i == j by {
        assert(row[i] == fields[i - n] && row[j] == fields[j - n]);
        if i < j {
            assert(fields[i - n].0 != fields[j - n].0);
        } else if j < i {
            assert(fields[j - n].0 != fields[i - n].0);
        }
    }
    if field_of(span, key) is Some {
        let cell = (key, json_text(field_of(span, key)->Some_0));
        let k = choose|k: int| 0 <= k < fields.len() && fields[k] == cell;
        assert(row[n + k].0 == key);
    }
}

} // verus!
