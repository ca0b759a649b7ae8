//! Spans: what becomes of each part of an export request.

use opentelemetry_proto::tonic::common::v1::any_value::Value as Any;
use opentelemetry_proto::tonic::common::v1::{InstrumentationScope, KeyValue};
use opentelemetry_proto::tonic::resource::v1::Resource;
use opentelemetry_proto::tonic::trace::v1::{ResourceSpans, ScopeSpans, Span};
use vstd::prelude::*;

use crate::event::{SpanKind, StatusCode};
use crate::otlp::{
    any_json, attribute_pairs, base64_text, double_bits, double_number, hex_text, integer_number,
    lemma_every_span_comes_out, lemma_scope_count, optional_json, resource_entries, resources_of,
    scope_count, scope_texts, scopes_of, span_count, span_of,
};
use crate::reading::hex_value;
use crate::text::hex_digit;
use crate::value::{last_value, lemma_collect, lookup, ordered, Entries, Json};

verus! {

/// The bytes that small hexadecimal digits stand for, two digits for each.
pub open spec fn unhex(text: Seq<char>) -> Seq<int> {
    Seq::new(
        text.len() / 2,
        |i: int| 16 * hex_value(text[2 * i]) + hex_value(text[2 * i + 1]),
    )
}

/// Reading the digits of an identifier gives its bytes back.
pub proof fn lemma_hex_reads_back(bytes: Seq<u8>)
    ensures
        hex_text(bytes).len() == 2 * bytes.len(),
        unhex(hex_text(bytes)) == bytes.map_values(|b: u8| b as int),
{
    let text = hex_text(bytes);
    assert forall|i: int| 0 <= i < bytes.len() implies #[trigger] unhex(text)[i]
        == bytes[i] as int by {
        let b = bytes[i] as int;
        assert(text[2 * i] == hex_digit(b / 16));
        assert(text[2 * i + 1] == hex_digit(b % 16));
        assert(0 <= b / 16 < 16 && 0 <= b % 16 < 16);
        assert(hex_value(hex_digit(b / 16)) == b / 16);
        assert(hex_value(hex_digit(b % 16)) == b % 16);
    }
    assert(unhex(text) =~= bytes.map_values(|b: u8| b as int));
}

/// The bytes of an identifier as numbers.
pub open spec fn numbers(bytes: Seq<u8>) -> Seq<int> {
    bytes.map_values(|b: u8| b as int)
}

/// A record says when its span began and, together with how long it took, when it ended; of a
/// span that ended before it began it says that it took no time.
pub proof fn lemma_times_of_a_record(
    span: Span,
    resource: Entries,
    scope: (Seq<char>, Seq<char>),
    shared: Option<Entries>,
)
    ensures
        ({
            let record = span_of(span, resource, scope, shared);
            &&& record.timestamp == span.start_time_unix_nano
            &&& span.end_time_unix_nano >= span.start_time_unix_nano ==> record.timestamp as int
                + record.duration_ns as int == span.end_time_unix_nano as int
            &&& span.end_time_unix_nano < span.start_time_unix_nano ==> record.duration_ns == 0
        }),
{
}

/// A record holds the texts and identifiers of its span, of its scope and of its resource, each
/// under the name that it has there; an identifier by the digits that its bytes are read from.
pub proof fn lemma_texts_of_a_record(
    span: Span,
    resource: Entries,
    scope: (Seq<char>, Seq<char>),
    shared: Option<Entries>,
)
    ensures
        ({
            let record = span_of(span, resource, scope, shared);
            &&& unhex(record.trace_id) == numbers(span.trace_id@)
            &&& unhex(record.span_id) == numbers(span.span_id@)
            &&& unhex(record.parent_span_id) == numbers(span.parent_span_id@)
            &&& record.trace_id.len() == 2 * span.trace_id@.len()
            &&& record.span_id.len() == 2 * span.span_id@.len()
            &&& record.parent_span_id.len() == 2 * span.parent_span_id@.len()
            &&& record.trace_state == span.trace_state@
            &&& record.span_name == span.name@
            &&& record.scope_name == scope.0
            &&& record.scope_version == scope.1
            &&& record.resource_attributes == resource
            &&& record.fields == Seq::<(Seq<char>, Json)>::empty()
            &&& record.shared == shared
        }),
{
    lemma_hex_reads_back(span.trace_id@);
    lemma_hex_reads_back(span.span_id@);
    lemma_hex_reads_back(span.parent_span_id@);
}

/// The number by which OTLP knows a kind.
pub open spec fn kind_number(kind: SpanKind) -> i32 {
    match kind {
        SpanKind::Unspecified => 0,
        SpanKind::Internal => 1,
        SpanKind::Server => 2,
        SpanKind::Client => 3,
        SpanKind::Producer => 4,
        SpanKind::Consumer => 5,
    }
}

/// The number by which OTLP knows a status.
pub open spec fn status_number(code: StatusCode) -> i32 {
    match code {
        StatusCode::Unset => 0,
        StatusCode::Okay => 1,
        StatusCode::Error => 2,
    }
}

/// A kind and a status come out as the ones with their numbers, and a number that stands for none
/// as the ones that say nothing.
pub proof fn lemma_numbers_stand_for_kinds(kind: SpanKind, code: StatusCode, raw: i32)
    ensures
        SpanKind::of_otlp(kind_number(kind)) == kind,
        StatusCode::of_otlp(status_number(code)) == code,
        raw < 0 || raw > 5 ==> SpanKind::of_otlp(raw) is Unspecified,
        raw < 0 || raw > 2 ==> StatusCode::of_otlp(raw) is Unset,
{
}

/// Kinds and codes are stored under different names, which are the words that they are called.
pub proof fn lemma_names_of_kinds(kind: SpanKind, code: StatusCode)
    ensures
        kind is Unspecified ==> kind.name() == "Unspecified"@,
        kind is Internal ==> kind.name() == "Internal"@,
        kind is Server ==> kind.name() == "Server"@,
        kind is Client ==> kind.name() == "Client"@,
        kind is Producer ==> kind.name() == "Producer"@,
        kind is Consumer ==> kind.name() == "Consumer"@,
        code is Unset ==> code.name() == "Unset"@,
        code is Okay ==> code.name() == "Ok"@,
        code is Error ==> code.name() == "Error"@,
{
}

/// A record has the kind of its span, and the code and the message of its status; a span without a
/// status has neither, and numbers that stand for nothing say nothing.
pub proof fn lemma_kind_and_status_of_a_record(
    span: Span,
    resource: Entries,
    scope: (Seq<char>, Seq<char>),
    shared: Option<Entries>,
)
    ensures
        ({
            let record = span_of(span, resource, scope, shared);
            &&& 0 <= span.kind <= 5 ==> kind_number(record.span_kind) == span.kind
            &&& span.kind < 0 || span.kind > 5 ==> record.span_kind is Unspecified
            &&& match span.status {
                Some(status) => {
                    &&& record.status_message == status.message@
                    &&& 0 <= status.code <= 2 ==> status_number(record.status_code) == status.code
                    &&& status.code < 0 || status.code > 2 ==> record.status_code is Unset
                },
                None => record.status_code is Unset && record.status_message.len() == 0,
            }
        }),
{
}

/// The entries are those of the list: the keys ascend, and under each key stands the value of the
/// last attribute that has it.
pub open spec fn holds_attributes(entries: Entries, list: Vec<KeyValue>) -> bool {
    &&& ordered(entries)
    &&& forall|key: Seq<char>| #[trigger] lookup(entries, key) == last_value(
        attribute_pairs(list),
        key,
    )
}

/// Each attribute of a list goes with its own value.
pub proof fn lemma_attribute_pairs(list: Vec<KeyValue>)
    ensures
        attribute_pairs(list).len() == list@.len(),
        forall|i: int|
            0 <= i < list@.len() ==> (#[trigger] attribute_pairs(list)[i]).0 == list@[i].key@
                && attribute_pairs(list)[i].1 == optional_json(list@[i].value),
{
}

/// A record has the attributes of its span, and as many timed events and links as its span, each
/// with its own time, name, identifiers and attributes, in their order.
pub proof fn lemma_attributes_of_a_record(
    span: Span,
    resource: Entries,
    scope: (Seq<char>, Seq<char>),
    shared: Option<Entries>,
)
    ensures
        ({
            let record = span_of(span, resource, scope, shared);
            &&& holds_attributes(record.span_attributes, span.attributes)
            &&& record.events.len() == span.events@.len()
            &&& forall|i: int|
                0 <= i < span.events@.len() ==> {
                    let event = span.events@[i];
                    &&& (#[trigger] record.events[i]).timestamp == event.time_unix_nano
                    &&& record.events[i].name == event.name@
                    &&& holds_attributes(record.events[i].attributes, event.attributes)
                }
            &&& record.links.len() == span.links@.len()
            &&& forall|i: int|
                0 <= i < span.links@.len() ==> {
                    let link = span.links@[i];
                    &&& unhex((#[trigger] record.links[i]).trace_id) == numbers(link.trace_id@)
                    &&& unhex(record.links[i].span_id) == numbers(link.span_id@)
                    &&& record.links[i].trace_state == link.trace_state@
                    &&& holds_attributes(record.links[i].attributes, link.attributes)
                }
        }),
{
    let record = span_of(span, resource, scope, shared);
    lemma_collect(attribute_pairs(span.attributes));
    assert forall|i: int| 0 <= i < span.events@.len() implies {
        let event = span.events@[i];
        &&& (#[trigger] record.events[i]).timestamp == event.time_unix_nano
        &&& record.events[i].name == event.name@
        &&& holds_attributes(record.events[i].attributes, event.attributes)
    } by {
        lemma_collect(attribute_pairs(span.events@[i].attributes));
    }
    assert forall|i: int| 0 <= i < span.links@.len() implies {
        let link = span.links@[i];
        &&& unhex((#[trigger] record.links[i]).trace_id) == numbers(link.trace_id@)
        &&& unhex(record.links[i].span_id) == numbers(link.span_id@)
        &&& record.links[i].trace_state == link.trace_state@
        &&& holds_attributes(record.links[i].attributes, link.attributes)
    } by {
        lemma_collect(attribute_pairs(span.links@[i].attributes));
        lemma_hex_reads_back(span.links@[i].trace_id@);
        lemma_hex_reads_back(span.links@[i].span_id@);
    }
}

/// A record is called by the service of its resource: by the text under `service.name` where there
/// is one that is not empty, and as unknown otherwise.
pub proof fn lemma_service_of_a_record(
    span: Span,
    resource: Entries,
    scope: (Seq<char>, Seq<char>),
    shared: Option<Entries>,
)
    ensures
        ({
            let name = span_of(span, resource, scope, shared).service_name;
            let given = lookup(resource, "service.name"@);
            let named = given is Some && given->0 is String && given->0->String_0.len() > 0;
            &&& named ==> name == given->0->String_0
            &&& !named ==> name == "unknown_service"@
        }),
{
}

/// The attributes of a resource are those of its list, and a resource that is missing has none.
pub proof fn lemma_attributes_of_a_resource(resource: Option<Resource>)
    ensures
        match resource {
            Some(resource) => holds_attributes(
                resource_entries(Some(resource)),
                resource.attributes,
            ),
            None => resource_entries(resource).len() == 0,
        },
{
    if let Some(resource) = resource {
        lemma_collect(attribute_pairs(resource.attributes));
    }
}

/// A scope is known by its name and its version, and one that is missing by neither.
pub proof fn lemma_texts_of_a_scope(scope: Option<InstrumentationScope>)
    ensures
        match scope {
            Some(scope) => scope_texts(Some(scope)) == (scope.name@, scope.version@),
            None => scope_texts(scope).0.len() == 0 && scope_texts(scope).1.len() == 0,
        },
{
}

/// A value keeps its type and what it holds; bytes become their base64 text, a double that is not
/// finite and a value that is missing become `null`. Each item of a list stands at its place, and
/// a list of keys holds for each key the last value that it has there.
pub proof fn lemma_values_keep_their_type(value: Any)
    ensures
        match value {
            Any::StringValue(s) => any_json(value) == Json::String(s@),
            Any::BoolValue(b) => any_json(value) == Json::Bool(b),
            Any::IntValue(i) => any_json(value) == Json::Number(integer_number(i)),
            Any::DoubleValue(_) => match double_bits(value) {
                Some(bits) => any_json(value) == Json::Number(double_number(bits)),
                None => any_json(value) is Null,
            },
            Any::BytesValue(bytes) => any_json(value) == Json::String(base64_text(bytes@)),
            Any::ArrayValue(array) => {
                &&& any_json(value) is Array
                &&& any_json(value)->Array_0.len() == array.values@.len()
                &&& forall|i: int|
                    0 <= i < array.values@.len() ==> #[trigger] any_json(value)->Array_0[i]
                        == match array.values@[i].value {
                        Some(inner) => any_json(inner),
                        None => Json::Null,
                    }
            },
            Any::KvlistValue(list) => {
                &&& any_json(value) is Object
                &&& holds_attributes(any_json(value)->Object_0, list.values)
            },
            Any::StringValueStrindex(_) => any_json(value) is Null,
        },
{
    if let Any::KvlistValue(list) = value {
        lemma_collect(attribute_pairs(list.values));
    }
}

/// How many spans stand before those of scope `s` of resource `r`.
pub open spec fn spans_before(resources: Seq<ResourceSpans>, r: int, s: int) -> nat {
    span_count(resources.take(r)) + scope_count(resources[r].scope_spans@.take(s))
}

proof fn lemma_scopes_in_order(
    scopes: Seq<ScopeSpans>,
    resource: Entries,
    shared: Option<Entries>,
    s: int,
    i: int,
)
    requires
        0 <= s < scopes.len(),
        0 <= i < scopes[s].spans@.len(),
    ensures
        scope_count(scopes.take(s)) + i < scopes_of(scopes, resource, shared).len(),
        scopes_of(scopes, resource, shared)[scope_count(scopes.take(s)) + i] == span_of(
            scopes[s].spans@[i],
            resource,
            scope_texts(scopes[s].scope),
            shared,
        ),
    decreases scopes.len(),
{
    lemma_scope_count(scopes.drop_last(), resource, shared);
    if s < scopes.len() - 1 {
        lemma_scopes_in_order(scopes.drop_last(), resource, shared, s, i);
        assert(scopes.drop_last().take(s) =~= scopes.take(s));
    } else {
        assert(scopes.take(s) =~= scopes.drop_last());
    }
}

/// Every span of a request comes out at its own place, behind all the spans before it, with the
/// attributes of its own resource and the texts of its own scope.
pub proof fn lemma_spans_come_out_in_order(
    resources: Seq<ResourceSpans>,
    shared: Option<Entries>,
    r: int,
    s: int,
    i: int,
)
    requires
        0 <= r < resources.len(),
        0 <= s < resources[r].scope_spans@.len(),
        0 <= i < resources[r].scope_spans@[s].spans@.len(),
    ensures
        spans_before(resources, r, s) + i < resources_of(resources, shared).len(),
        resources_of(resources, shared)[spans_before(resources, r, s) + i] == span_of(
            resources[r].scope_spans@[s].spans@[i],
            resource_entries(resources[r].resource),
            scope_texts(resources[r].scope_spans@[s].scope),
            shared,
        ),
    decreases resources.len(),
{
    lemma_every_span_comes_out(resources.drop_last(), shared);
    if r < resources.len() - 1 {
        lemma_spans_come_out_in_order(resources.drop_last(), shared, r, s, i);
        assert(resources.drop_last().take(r) =~= resources.take(r));
    } else {
        assert(resources.take(r) =~= resources.drop_last());
        lemma_scopes_in_order(
            resources.last().scope_spans@,
            resource_entries(resources.last().resource),
            shared,
            s,
            i,
        );
    }
}

} // verus!
