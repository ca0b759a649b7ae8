//! Export requests of OTLP, taken apart into spans.
//!
//! What comes in by gRPC, by HTTP and on standard input is the same type, and all of it passes
//! through here.

use std::sync::Arc;

use base64::engine::general_purpose::STANDARD;
use base64::Engine;
use opentelemetry_proto::tonic::collector::trace::v1::ExportTraceServiceRequest;
use opentelemetry_proto::tonic::common::v1::any_value::Value as Any;
use opentelemetry_proto::tonic::common::v1::{
    AnyValue, ArrayValue, EntityRef, InstrumentationScope, KeyValue, KeyValueList,
};
use opentelemetry_proto::tonic::resource::v1::Resource;
use opentelemetry_proto::tonic::trace::v1::span::{Event, Link};
use opentelemetry_proto::tonic::trace::v1::{ResourceSpans, ScopeSpans, Span, Status};
use serde_json::{Error as JsonError, Number};
use vstd::float::FloatBitsProperties;
use vstd::prelude::*;

use crate::error::{Error, Failure};
use crate::event::{
    event_models, link_models, shared_model, shared_text, span_models, Attributes, EventModel,
    LinkModel, SpanEvent, SpanKind, SpanLink, SpanModel, StatusCode, TimedEvent,
};
use crate::json::number_text;
use crate::text::{decimal, digit, hex_digit};
use crate::value::{collect, lookup, Entries, Json, Value, ValueMap};

verus! {

// ---------------------------------------------------------------------------------------------
// The messages of OTLP, with the fields that `opentelemetry_proto` gives them
// ---------------------------------------------------------------------------------------------

/// `opentelemetry_proto`'s export request.
#[verifier::external_type_specification]
pub struct ExRequest(ExportTraceServiceRequest);

/// `opentelemetry_proto`'s spans of one resource.
#[verifier::external_type_specification]
pub struct ExResourceSpans(ResourceSpans);

/// `opentelemetry_proto`'s resource.
#[verifier::external_type_specification]
pub struct ExResource(Resource);

/// `opentelemetry_proto`'s reference to an entity.
#[verifier::external_type_specification]
#[verifier::external_body]
pub struct ExEntityRef(EntityRef);

/// `opentelemetry_proto`'s spans of one instrumentation scope.
#[verifier::external_type_specification]
pub struct ExScopeSpans(ScopeSpans);

/// `opentelemetry_proto`'s instrumentation scope.
#[verifier::external_type_specification]
pub struct ExScope(InstrumentationScope);

/// `opentelemetry_proto`'s span.
#[verifier::external_type_specification]
pub struct ExSpan(Span);

/// `opentelemetry_proto`'s timed event of a span.
#[verifier::external_type_specification]
pub struct ExEvent(Event);

/// `opentelemetry_proto`'s link of a span.
#[verifier::external_type_specification]
pub struct ExLink(Link);

/// `opentelemetry_proto`'s status of a span.
#[verifier::external_type_specification]
pub struct ExStatus(Status);

/// `opentelemetry_proto`'s attribute.
#[verifier::external_type_specification]
pub struct ExKeyValue(KeyValue);

/// `opentelemetry_proto`'s value of an attribute, which may be missing.
#[verifier::external_type_specification]
pub struct ExAnyValue(AnyValue);

/// `opentelemetry_proto`'s value of an attribute.
#[verifier::external_type_specification]
pub struct ExAny(Any);

/// `opentelemetry_proto`'s list of values.
#[verifier::external_type_specification]
pub struct ExArrayValue(ArrayValue);

/// `opentelemetry_proto`'s list of keys with their values.
#[verifier::external_type_specification]
pub struct ExKeyValueList(KeyValueList);

// ---------------------------------------------------------------------------------------------
// Values
// ---------------------------------------------------------------------------------------------

/// The JSON number for an integer.
pub uninterp spec fn integer_number(i: i64) -> Number;

/// The decimal digits of an integer, after a minus sign where it is negative.
pub open spec fn signed_decimal(i: int) -> Seq<char> {
    if i < 0 {
        seq!['-'] + decimal((-i) as nat)
    } else {
        decimal(i as nat)
    }
}

/// `serde_json::Number::from` an `i64`: the number whose JSON text is the integer in decimal.
#[verifier::external_body]
fn number_of_integer(i: i64) -> (r: Number)
    ensures
        r == integer_number(i),
        number_text(r) == signed_decimal(i as int),
{
    Number::from(i)
}

/// The JSON number for the double with the given bits.
pub uninterp spec fn double_number(bits: u64) -> Number;

/// The double of a value.
pub open spec fn double_bits(value: Any) -> Option<u64> {
    match value {
        Any::DoubleValue(d) => if d.is_finite_spec() {
            Some(d.to_bits_spec())
        } else {
            None
        },
        _ => None,
    }
}

/// `serde_json::Number::from_f64` of the double in `value`: a number where the double is finite,
/// and nothing where it is infinite or no number.
#[verifier::external_body]
fn number_of_double(value: &Any) -> (r: Option<Number>)
    requires
        value is DoubleValue,
    ensures
        match double_bits(*value) {
            Some(bits) => r == Some(double_number(bits)),
            None => r is None,
        },
{
    match value {
        Any::DoubleValue(d) => Number::from_f64(*d),
        _ => None,
    }
}

/// The character for six bits in base64: the capitals, the small letters, the digits, `+` and `/`.
pub open spec fn base64_char(six: int) -> char {
    if six < 26 {
        (65 + six) as u8 as char
    } else if six < 52 {
        (71 + six) as u8 as char
    } else if six < 62 {
        (six - 4) as u8 as char
    } else if six == 62 {
        '+'
    } else {
        '/'
    }
}

/// The byte at a position, and zero behind the last one.
pub open spec fn byte_or_zero(bytes: Seq<u8>, at: int) -> int {
    if at < bytes.len() {
        bytes[at] as int
    } else {
        0
    }
}

/// The base64 text of bytes: each three of them, as one number, in four characters of six bits
/// each. Where the last three are not complete, `=` stands for the characters that hold nothing.
pub open spec fn base64_text(bytes: Seq<u8>) -> Seq<char> {
    Seq::new(
        (bytes.len() + 2) / 3 * 4,
        |i: int|
            {
                let first = i / 4 * 3;
                let word = byte_or_zero(bytes, first) * 65536 + byte_or_zero(bytes, first + 1) * 256
                    + byte_or_zero(bytes, first + 2);
                if i % 4 == 0 {
                    base64_char(word / 262144)
                } else if i % 4 == 1 {
                    base64_char(word / 4096 % 64)
                } else if first + i % 4 > bytes.len() {
                    '='
                } else if i % 4 == 2 {
                    base64_char(word / 64 % 64)
                } else {
                    base64_char(word % 64)
                }
            },
    )
}

/// `base64::engine::general_purpose::STANDARD`'s `encode`: base64 with the usual alphabet, padded.
#[verifier::external_body]
fn base64_of(bytes: &Vec<u8>) -> (r: String)
    ensures
        r@ == base64_text(bytes@),
{
    STANDARD.encode(bytes)
}

/// The JSON value of a value that may be missing at two levels.
pub open spec fn optional_json(value: Option<AnyValue>) -> Json
    decreases value,
{
    match value {
        Some(any) => match any.value {
            Some(inner) => any_json(inner),
            None => Json::Null,
        },
        None => Json::Null,
    }
}

/// The JSON value of an attribute's value: of the same type where JSON has it, base64 text for
/// bytes, and `null` where there is nothing to write.
pub open spec fn any_json(value: Any) -> Json
    decreases value,
{
    match value {
        Any::StringValue(s) => Json::String(s@),
        Any::BoolValue(b) => Json::Bool(b),
        Any::IntValue(i) => Json::Number(integer_number(i)),
        Any::DoubleValue(_) => match double_bits(value) {
            Some(bits) => Json::Number(double_number(bits)),
            None => Json::Null,
        },
        Any::BytesValue(bytes) => Json::String(base64_text(bytes@)),
        Any::ArrayValue(array) => Json::Array(any_jsons(array.values)),
        Any::KvlistValue(list) => Json::Object(collect(attribute_pairs(list.values))),
        Any::StringValueStrindex(_) => Json::Null,
    }
}

/// The JSON values of the items of a list.
pub open spec fn any_jsons(values: Vec<AnyValue>) -> Seq<Json>
    decreases values,
{
    Seq::new(
        values@.len(),
        |i: int|
            if 0 <= i < values@.len() {
                match values@[i].value {
                    Some(inner) => any_json(inner),
                    None => Json::Null,
                }
            } else {
                Json::Null
            },
    )
}

/// The keys with the JSON values of their values.
pub open spec fn attribute_pairs(list: Vec<KeyValue>) -> Entries
    decreases list,
{
    Seq::new(
        list@.len(),
        |i: int|
            if 0 <= i < list@.len() {
                (list@[i].key@, optional_json(list@[i].value))
            } else {
                (Seq::empty(), Json::Null)
            },
    )
}

fn to_json(value: &Any) -> (r: Value)
    ensures
        r@ == any_json(*value),
    decreases value,
{
    match value {
        Any::StringValue(s) => Value::String(s.clone()),
        Any::BoolValue(b) => Value::Bool(*b),
        Any::IntValue(i) => Value::Number(number_of_integer(*i)),
        Any::DoubleValue(_) => match number_of_double(value) {
            Some(number) => Value::Number(number),
            None => Value::Null,
        },
        Any::BytesValue(bytes) => Value::String(base64_of(bytes)),
        Any::ArrayValue(array) => {
            assert(decreases_to!(*value => *array));
            assert(decreases_to!(*array => array.values));
            let items = to_jsons(&array.values);
            let r = Value::Array(items);
            assert(r@->Array_0 =~= any_jsons(array.values));
            r
        },
        Any::KvlistValue(list) => {
            assert(decreases_to!(*value => *list));
            assert(decreases_to!(*list => list.values));
            Value::Object(attributes_of(&list.values))
        },
        Any::StringValueStrindex(_) => Value::Null,
    }
}

fn to_jsons(values: &Vec<AnyValue>) -> (r: Vec<Value>)
    ensures
        r@.len() == values@.len(),
        forall|i: int| 0 <= i < r@.len() ==> (#[trigger] r@[i])@ == any_jsons(*values)[i],
    decreases values,
{
    let mut out: Vec<Value> = Vec::new();
    let mut i: usize = 0;
    while i < values.len()
        invariant
            i <= values@.len(),
            out@.len() == i,
            forall|k: int| 0 <= k < i ==> (#[trigger] out@[k])@ == any_jsons(*values)[k],
        decreases values@.len() - i,
    {
        let item = match &values[i].value {
            Some(inner) => {
                proof {
                    assert(decreases_to!(*values => values@));
                    assert(decreases_to!(values@ => values@[i as int]));
                    assert(decreases_to!(values@[i as int] => values@[i as int].value));
                    assert(decreases_to!(values@[i as int].value => *inner));
                }
                to_json(inner)
            },
            None => Value::Null,
        };
        out.push(item);
        i += 1;
    }
    out
}

fn to_optional_json(value: &Option<AnyValue>) -> (r: Value)
    ensures
        r@ == optional_json(*value),
    decreases value,
{
    match value {
        Some(any) => {
            assert(decreases_to!(*value => *any));
            match &any.value {
                Some(inner) => {
                    assert(decreases_to!(*any => any.value));
                    assert(decreases_to!(any.value => *inner));
                    to_json(inner)
                },
                None => Value::Null,
            }
        },
        None => Value::Null,
    }
}

fn attributes_of(list: &Vec<KeyValue>) -> (r: ValueMap)
    ensures
        r@ == collect(attribute_pairs(*list)),
    decreases list,
{
    let ghost pairs = attribute_pairs(*list);
    let mut out = ValueMap::new();
    assert(out@ =~= collect(pairs.take(0)));
    let mut i: usize = 0;
    while i < list.len()
        invariant
            pairs == attribute_pairs(*list),
            i <= list@.len(),
            out@ == collect(pairs.take(i as int)),
        decreases list@.len() - i,
    {
        proof {
            assert(decreases_to!(*list => list@));
            assert(decreases_to!(list@ => list@[i as int]));
            assert(decreases_to!(list@[i as int] => list@[i as int].value));
        }
        let value = to_optional_json(&list[i].value);
        out.insert(list[i].key.clone(), value);
        proof {
            assert(pairs.take(i + 1).drop_last() =~= pairs.take(i as int));
            assert(pairs.take(i + 1).last() == pairs[i as int]);
        }
        i += 1;
    }
    assert(pairs.take(i as int) =~= pairs);
    out
}

/// The attributes of a list. Of several with one key the last counts.
pub fn attributes(list: Vec<KeyValue>) -> (r: Attributes)
    ensures
        r@ == collect(attribute_pairs(list)),
{
    attributes_of(&list)
}

/// The JSON value of an attribute's value. One that is missing is `null`.
pub fn attribute_value(value: Option<AnyValue>) -> (r: Value)
    ensures
        r@ == optional_json(value),
{
    to_optional_json(&value)
}

// ---------------------------------------------------------------------------------------------
// Identifiers
// ---------------------------------------------------------------------------------------------

/// Bytes in small hexadecimal digits, two for each byte.
pub open spec fn hex_text(bytes: Seq<u8>) -> Seq<char> {
    Seq::new(
        2 * bytes.len(),
        |i: int|
            if i % 2 == 0 {
                hex_digit(bytes[i / 2] as int / 16)
            } else {
                hex_digit(bytes[i / 2] as int % 16)
            },
    )
}

/// The digit for a half byte.
fn hex_char(half: u8) -> (r: char)
    requires
        half < 16,
    ensures
        r == hex_digit(half as int),
{
    if half < 10 {
        (48 + half) as char
    } else {
        (87 + half) as char
    }
}

/// The bytes of an identifier in small hexadecimal digits. No bytes give no digits.
pub fn hex(bytes: &[u8]) -> (r: String)
    ensures
        r@ == hex_text(bytes@),
{
    let mut out = String::new();
    let mut i: usize = 0;
    while i < bytes.len()
        invariant
            i <= bytes@.len(),
            out@ == hex_text(bytes@.take(i as int)),
        decreases bytes@.len() - i,
    {
        out.push(hex_char(bytes[i] / 16));
        out.push(hex_char(bytes[i] % 16));
        assert(out@ =~= hex_text(bytes@.take(i + 1)));
        i += 1;
    }
    assert(bytes@.take(i as int) =~= bytes@);
    out
}

proof fn lemma_hex_digit_tells_apart(x: int, y: int)
    requires
        0 <= x < 16,
        0 <= y < 16,
        hex_digit(x) == hex_digit(y),
    ensures
        x == y,
{
    assert(digit(x) as int == 48 + x || x >= 10);
    assert(digit(y) as int == 48 + y || y >= 10);
}

/// Identifiers of the same digits are the same identifier.
pub proof fn lemma_hex_tells_apart(a: Seq<u8>, b: Seq<u8>)
    requires
        hex_text(a) == hex_text(b),
    ensures
        a == b,
{
    assert(hex_text(a).len() == 2 * a.len());
    assert(hex_text(b).len() == 2 * b.len());
    assert forall|i: int| 0 <= i < a.len() implies a[i] == b[i] by {
        assert(hex_text(a)[2 * i] == hex_digit(a[i] as int / 16));
        assert(hex_text(b)[2 * i] == hex_digit(b[i] as int / 16));
        assert(hex_text(a)[2 * i + 1] == hex_digit(a[i] as int % 16));
        assert(hex_text(b)[2 * i + 1] == hex_digit(b[i] as int % 16));
        lemma_hex_digit_tells_apart(a[i] as int / 16, b[i] as int / 16);
        lemma_hex_digit_tells_apart(a[i] as int % 16, b[i] as int % 16);
    }
    assert(a =~= b);
}

/// An identifier has two digits for each byte, all of them decimal digits or small letters up to
/// `f`: a trace has 32 of them, a span 16, and a missing parent none.
pub proof fn lemma_hex_digits(bytes: Seq<u8>)
    ensures
        hex_text(bytes).len() == 2 * bytes.len(),
        forall|i: int|
            0 <= i < hex_text(bytes).len() ==> '0' <= #[trigger] hex_text(bytes)[i] <= '9' || 'a'
                <= hex_text(bytes)[i] <= 'f',
{
}

// ---------------------------------------------------------------------------------------------
// Spans
// ---------------------------------------------------------------------------------------------

/// What a resource without a name for its service is called.
pub const UNKNOWN_SERVICE: &'static str = "unknown_service";

/// The name of the service that resource attributes give: the text under `service.name`, unless
/// that is missing, no text or empty.
pub open spec fn service_of(attributes: Entries) -> Seq<char> {
    match lookup(attributes, "service.name"@) {
        Some(Json::String(name)) => if name.len() > 0 {
            name
        } else {
            UNKNOWN_SERVICE@
        },
        _ => UNKNOWN_SERVICE@,
    }
}

/// The attributes of a resource, which may be missing.
pub open spec fn resource_entries(resource: Option<Resource>) -> Entries {
    match resource {
        Some(resource) => collect(attribute_pairs(resource.attributes)),
        None => Seq::empty(),
    }
}

/// The name and the version of a scope, which may be missing.
pub open spec fn scope_texts(scope: Option<InstrumentationScope>) -> (Seq<char>, Seq<char>) {
    match scope {
        Some(scope) => (scope.name@, scope.version@),
        None => (Seq::empty(), Seq::empty()),
    }
}

/// The code and the message of a status, which may be missing.
pub open spec fn status_of(status: Option<Status>) -> (StatusCode, Seq<char>) {
    match status {
        Some(status) => (StatusCode::of_otlp(status.code), status.message@),
        None => (StatusCode::Unset, Seq::empty()),
    }
}

/// The timed events of a span.
pub open spec fn events_of(events: Seq<Event>) -> Seq<EventModel> {
    events.map_values(
        |event: Event|
            EventModel {
                timestamp: event.time_unix_nano,
                name: event.name@,
                attributes: collect(attribute_pairs(event.attributes)),
            },
    )
}

/// The links of a span.
pub open spec fn links_of(links: Seq<Link>) -> Seq<LinkModel> {
    links.map_values(
        |link: Link|
            LinkModel {
                trace_id: hex_text(link.trace_id@),
                span_id: hex_text(link.span_id@),
                trace_state: link.trace_state@,
                attributes: collect(attribute_pairs(link.attributes)),
            },
    )
}

/// The time between two times, and none where the clock went backwards.
pub open spec fn duration_of(start: u64, end: u64) -> u64 {
    if end >= start {
        (end - start) as u64
    } else {
        0
    }
}

/// A span of a scope of a resource.
pub open spec fn span_of(
    span: Span,
    resource: Entries,
    scope: (Seq<char>, Seq<char>),
    shared: Option<Entries>,
) -> SpanModel {
    SpanModel {
        timestamp: span.start_time_unix_nano,
        trace_id: hex_text(span.trace_id@),
        span_id: hex_text(span.span_id@),
        parent_span_id: hex_text(span.parent_span_id@),
        trace_state: span.trace_state@,
        span_name: span.name@,
        span_kind: SpanKind::of_otlp(span.kind),
        service_name: service_of(resource),
        duration_ns: duration_of(span.start_time_unix_nano, span.end_time_unix_nano),
        status_code: status_of(span.status).0,
        status_message: status_of(span.status).1,
        scope_name: scope.0,
        scope_version: scope.1,
        resource_attributes: resource,
        span_attributes: collect(attribute_pairs(span.attributes)),
        events: events_of(span.events@),
        links: links_of(span.links@),
        fields: Seq::empty(),
        shared,
    }
}

/// The spans of a scope, in their order.
pub open spec fn scope_spans_of(
    scope_spans: ScopeSpans,
    resource: Entries,
    shared: Option<Entries>,
) -> Seq<SpanModel> {
    scope_spans.spans@.map_values(
        |span: Span| span_of(span, resource, scope_texts(scope_spans.scope), shared),
    )
}

/// The spans of several scopes of one resource, in their order.
pub open spec fn scopes_of(
    scopes: Seq<ScopeSpans>,
    resource: Entries,
    shared: Option<Entries>,
) -> Seq<SpanModel>
    decreases scopes.len(),
{
    if scopes.len() == 0 {
        Seq::empty()
    } else {
        scopes_of(scopes.drop_last(), resource, shared) + scope_spans_of(
            scopes.last(),
            resource,
            shared,
        )
    }
}

/// The spans of several resources, in their order.
pub open spec fn resources_of(resources: Seq<ResourceSpans>, shared: Option<Entries>) -> Seq<
    SpanModel,
>
    decreases resources.len(),
{
    if resources.len() == 0 {
        Seq::empty()
    } else {
        resources_of(resources.drop_last(), shared) + scopes_of(
            resources.last().scope_spans@,
            resource_entries(resources.last().resource),
            shared,
        )
    }
}

/// The spans of an export request, in their order.
pub open spec fn spans_of(request: ExportTraceServiceRequest, shared: Option<Entries>) -> Seq<
    SpanModel,
> {
    resources_of(request.resource_spans@, shared)
}

/// The name of the service of a resource.
fn service_name_of(attributes: &Attributes) -> (r: Arc<str>)
    ensures
        (*r)@ == service_of(attributes@),
{
    match attributes.get("service.name") {
        Some(Value::String(name)) => {
            if name.as_str().is_empty() {
                shared_text(UNKNOWN_SERVICE)
            } else {
                shared_text(name.as_str())
            }
        },
        _ => shared_text(UNKNOWN_SERVICE),
    }
}

fn convert_events(events: &Vec<Event>) -> (r: Vec<TimedEvent>)
    ensures
        event_models(r@) == events_of(events@),
{
    let mut out: Vec<TimedEvent> = Vec::new();
    let mut i: usize = 0;
    while i < events.len()
        invariant
            i <= events@.len(),
            event_models(out@) == events_of(events@).take(i as int),
        decreases events@.len() - i,
    {
        let event = &events[i];
        let ghost before = out@;
        out.push(
            TimedEvent {
                timestamp: event.time_unix_nano,
                name: event.name.clone(),
                attributes: attributes_of(&event.attributes),
            },
        );
        assert(event_models(out@) =~= event_models(before).push(out@.last()@));
        assert(event_models(out@) =~= events_of(events@).take(i + 1));
        i += 1;
    }
    assert(events_of(events@).take(i as int) =~= events_of(events@));
    out
}

fn convert_links(links: &Vec<Link>) -> (r: Vec<SpanLink>)
    ensures
        link_models(r@) == links_of(links@),
{
    let mut out: Vec<SpanLink> = Vec::new();
    let mut i: usize = 0;
    while i < links.len()
        invariant
            i <= links@.len(),
            link_models(out@) == links_of(links@).take(i as int),
        decreases links@.len() - i,
    {
        let link = &links[i];
        let ghost before = out@;
        out.push(
            SpanLink {
                trace_id: hex(link.trace_id.as_slice()),
                span_id: hex(link.span_id.as_slice()),
                trace_state: link.trace_state.clone(),
                attributes: attributes_of(&link.attributes),
            },
        );
        assert(link_models(out@) =~= link_models(before).push(out@.last()@));
        assert(link_models(out@) =~= links_of(links@).take(i + 1));
        i += 1;
    }
    assert(links_of(links@).take(i as int) =~= links_of(links@));
    out
}

fn convert_span(
    span: &Span,
    service_name: Arc<str>,
    resource_attributes: Arc<Attributes>,
    scope_name: Arc<str>,
    scope_version: Arc<str>,
    shared: Option<Arc<ValueMap>>,
) -> (r: SpanEvent)
    ensures
        r@ == (SpanModel {
            service_name: (*service_name)@,
            ..span_of(
                *span,
                (*resource_attributes)@,
                ((*scope_name)@, (*scope_version)@),
                shared_model(shared),
            )
        }),
{
    let (status_code, status_message) = match &span.status {
        Some(status) => (StatusCode::from_otlp(status.code), status.message.clone()),
        None => (StatusCode::Unset, String::new()),
    };
    SpanEvent {
        timestamp: span.start_time_unix_nano,
        trace_id: hex(span.trace_id.as_slice()),
        span_id: hex(span.span_id.as_slice()),
        parent_span_id: hex(span.parent_span_id.as_slice()),
        trace_state: span.trace_state.clone(),
        span_name: span.name.clone(),
        span_kind: SpanKind::from_otlp(span.kind),
        service_name,
        duration_ns: span.end_time_unix_nano.saturating_sub(span.start_time_unix_nano),
        status_code,
        status_message,
        scope_name,
        scope_version,
        resource_attributes,
        span_attributes: attributes_of(&span.attributes),
        events: convert_events(&span.events),
        links: convert_links(&span.links),
        fields: ValueMap::new(),
        shared,
    }
}

/// Another handle on fields that are shared.
fn share(shared: Option<&Arc<ValueMap>>) -> (r: Option<Arc<ValueMap>>)
    ensures
        shared_model(r) == shared_entries(shared),
{
    match shared {
        Some(map) => Some(Arc::clone(map)),
        None => None,
    }
}

/// What shared fields stand for.
pub open spec fn shared_entries(shared: Option<&Arc<ValueMap>>) -> Option<Entries> {
    match shared {
        Some(map) => Some((**map)@),
        None => None,
    }
}

/// Appends the spans of a scope.
fn convert_scope(
    out: &mut Vec<SpanEvent>,
    scope_spans: &ScopeSpans,
    service_name: &Arc<str>,
    resource_attributes: &Arc<Attributes>,
    shared: Option<&Arc<ValueMap>>,
)
    requires
        (**service_name)@ == service_of((**resource_attributes)@),
    ensures
        span_models(final(out)@) == span_models(old(out)@) + scope_spans_of(
            *scope_spans,
            (**resource_attributes)@,
            shared_entries(shared),
        ),
{
    let (scope_name, scope_version) = match &scope_spans.scope {
        Some(scope) => (shared_text(scope.name.as_str()), shared_text(scope.version.as_str())),
        None => (shared_text(""), shared_text("")),
    };
    proof {
        reveal_strlit("");
        assert(""@ =~= Seq::<char>::empty());
    }
    let ghost start = span_models(out@);
    let ghost model = scope_spans_of(
        *scope_spans,
        (**resource_attributes)@,
        shared_entries(shared),
    );
    let mut i: usize = 0;
    while i < scope_spans.spans.len()
        invariant
            (**service_name)@ == service_of((**resource_attributes)@),
            ((*scope_name)@, (*scope_version)@) == scope_texts(scope_spans.scope),
            model == scope_spans_of(
                *scope_spans,
                (**resource_attributes)@,
                shared_entries(shared),
            ),
            i <= scope_spans.spans@.len(),
            span_models(out@) =~= start + model.take(i as int),
        decreases scope_spans.spans@.len() - i,
    {
        let ghost before = out@;
        let span = convert_span(
            &scope_spans.spans[i],
            Arc::clone(service_name),
            Arc::clone(resource_attributes),
            Arc::clone(&scope_name),
            Arc::clone(&scope_version),
            share(shared),
        );
        out.push(span);
        assert(span_models(out@) =~= span_models(before).push(span@));
        assert(span@ == model[i as int]);
        i += 1;
    }
    assert(model.take(i as int) =~= model);
}

/// Appends the spans of a resource.
fn convert_resource(
    out: &mut Vec<SpanEvent>,
    resource_spans: &ResourceSpans,
    shared: Option<&Arc<ValueMap>>,
)
    ensures
        span_models(final(out)@) == span_models(old(out)@) + scopes_of(
            resource_spans.scope_spans@,
            resource_entries(resource_spans.resource),
            shared_entries(shared),
        ),
{
    let resource_attributes: Arc<Attributes> = match &resource_spans.resource {
        Some(resource) => Arc::new(attributes_of(&resource.attributes)),
        None => Arc::new(ValueMap::new()),
    };
    let service_name = service_name_of(&*resource_attributes);
    let ghost start = span_models(out@);
    let ghost scopes = resource_spans.scope_spans@;
    let mut i: usize = 0;
    assert(span_models(out@) =~= start + scopes_of(
        scopes.take(0),
        (*resource_attributes)@,
        shared_entries(shared),
    ));
    while i < resource_spans.scope_spans.len()
        invariant
            (*service_name)@ == service_of((*resource_attributes)@),
            scopes == resource_spans.scope_spans@,
            i <= scopes.len(),
            span_models(out@) == start + scopes_of(
                scopes.take(i as int),
                (*resource_attributes)@,
                shared_entries(shared),
            ),
        decreases scopes.len() - i,
    {
        convert_scope(
            out,
            &resource_spans.scope_spans[i],
            &service_name,
            &resource_attributes,
            shared,
        );
        proof {
            assert(scopes.take(i + 1).drop_last() =~= scopes.take(i as int));
            assert(scopes.take(i + 1).last() == scopes[i as int]);
            assert(span_models(out@) =~= start + scopes_of(
                scopes.take(i + 1),
                (*resource_attributes)@,
                shared_entries(shared),
            ));
        }
        i += 1;
    }
    assert(scopes.take(i as int) =~= scopes);
}

/// All spans of an export request. Each gets `shared` as the fields that it shares.
pub fn convert(
    request: ExportTraceServiceRequest,
    shared: Option<&Arc<ValueMap>>,
) -> (r: Vec<SpanEvent>)
    ensures
        span_models(r@) == spans_of(request, shared_entries(shared)),
{
    let ghost resources = request.resource_spans@;
    let mut out: Vec<SpanEvent> = Vec::new();
    assert(span_models(out@) =~= resources_of(resources.take(0), shared_entries(shared)));
    let mut i: usize = 0;
    while i < request.resource_spans.len()
        invariant
            resources == request.resource_spans@,
            i <= resources.len(),
            span_models(out@) == resources_of(resources.take(i as int), shared_entries(shared)),
        decreases resources.len() - i,
    {
        convert_resource(&mut out, &request.resource_spans[i], shared);
        proof {
            assert(resources.take(i + 1).drop_last() =~= resources.take(i as int));
            assert(resources.take(i + 1).last() == resources[i as int]);
        }
        i += 1;
    }
    assert(resources.take(i as int) =~= resources);
    out
}

// ---------------------------------------------------------------------------------------------
// OTLP/JSON
// ---------------------------------------------------------------------------------------------

/// `serde_json`'s error.
#[verifier::external_type_specification]
#[verifier::external_body]
pub struct ExJsonError(JsonError);

/// What a `serde_json::Error` displays.
pub uninterp spec fn json_error_text(error: JsonError) -> Seq<char>;

/// A `serde_json::Error` displayed.
#[verifier::external_body]
pub(crate) fn describe_json_error(error: &JsonError) -> (r: String)
    ensures
        r@ == json_error_text(*error),
{
    error.to_string()
}

/// What `serde_json` reads out of a text as an export request.
pub uninterp spec fn json_request(text: Seq<char>) -> Result<
    ExportTraceServiceRequest,
    JsonError,
>;

/// `serde_json::from_str` into an export request, by the names and encodings of OTLP/JSON.
#[verifier::external_body]
fn parse_request(text: &str) -> (r: Result<ExportTraceServiceRequest, JsonError>)
    ensures
        r == json_request(text@),
{
    serde_json::from_str(text)
}

/// Reads a line of OTLP/JSON: one export request, as the collector's file exporter writes it.
pub fn decode_json(text: &str) -> (r: Result<ExportTraceServiceRequest, Error>)
    ensures
        match json_request(text@) {
            Ok(request) => r == Ok::<_, Error>(request),
            Err(error) => r is Err && r->Err_0@ == Failure::Json(json_error_text(error)),
        },
{
    match parse_request(text) {
        Ok(request) => Ok(request),
        Err(error) => Err(Error::Json(describe_json_error(&error))),
    }
}

/// How many spans a request holds.
pub open spec fn span_count(resources: Seq<ResourceSpans>) -> nat
    decreases resources.len(),
{
    if resources.len() == 0 {
        0
    } else {
        span_count(resources.drop_last()) + scope_count(resources.last().scope_spans@)
    }
}

/// How many spans scopes hold.
pub open spec fn scope_count(scopes: Seq<ScopeSpans>) -> nat
    decreases scopes.len(),
{
    if scopes.len() == 0 {
        0
    } else {
        scope_count(scopes.drop_last()) + scopes.last().spans@.len()
    }
}

pub(crate) proof fn lemma_scope_count(scopes: Seq<ScopeSpans>, resource: Entries, shared: Option<Entries>)
    ensures
        scopes_of(scopes, resource, shared).len() == scope_count(scopes),
    decreases scopes.len(),
{
    if scopes.len() > 0 {
        lemma_scope_count(scopes.drop_last(), resource, shared);
    }
}

/// Every span of a request comes out once: there are as many as the request holds, and each one
/// has the given fields to share and none of its own.
pub proof fn lemma_every_span_comes_out(resources: Seq<ResourceSpans>, shared: Option<Entries>)
    ensures
        resources_of(resources, shared).len() == span_count(resources),
        forall|i: int|
            0 <= i < resources_of(resources, shared).len() ==> (#[trigger] resources_of(
                resources,
                shared,
            )[i]).shared == shared && resources_of(resources, shared)[i].fields.len() == 0,
    decreases resources.len(),
{
    if resources.len() > 0 {
        let front = resources.drop_last();
        let last = resources.last();
        let entries = resource_entries(last.resource);
        lemma_every_span_comes_out(front, shared);
        lemma_scope_count(last.scope_spans@, entries, shared);
        lemma_scope_spans_share(last.scope_spans@, entries, shared);
        let all = resources_of(resources, shared);
        let n = resources_of(front, shared).len() as int;
        assert forall|i: int| 0 <= i < all.len() implies (#[trigger] all[i]).shared == shared
            && all[i].fields.len() == 0 by {
            if i < n {
                assert(all[i] == resources_of(front, shared)[i]);
            } else {
                assert(all[i] == scopes_of(last.scope_spans@, entries, shared)[i - n]);
            }
        }
    }
}

proof fn lemma_scope_spans_share(
    scopes: Seq<ScopeSpans>,
    resource: Entries,
    shared: Option<Entries>,
)
    ensures
        forall|i: int|
            0 <= i < scopes_of(scopes, resource, shared).len() ==> (#[trigger] scopes_of(
                scopes,
                resource,
                shared,
            )[i]).shared == shared && scopes_of(scopes, resource, shared)[i].fields.len() == 0,
    decreases scopes.len(),
{
    if scopes.len() > 0 {
        lemma_scope_spans_share(scopes.drop_last(), resource, shared);
        let front = scopes_of(scopes.drop_last(), resource, shared);
        let all = scopes_of(scopes, resource, shared);
        assert forall|i: int| 0 <= i < all.len() implies (#[trigger] all[i]).shared == shared
            && all[i].fields.len() == 0 by {
            if i < front.len() {
                assert(all[i] == front[i]);
            }
        }
    }
}

} // verus!
