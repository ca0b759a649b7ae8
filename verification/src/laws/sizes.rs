//! Sizes: what each part of a span adds to what the span is reckoned to take.

use vstd::prelude::*;
use vstd::utf8::encode_utf8;

use crate::event::{
    attributes_size, entries_size, events_size, items_size, links_size, span_size, value_size,
    EventModel, LinkModel, SpanModel,
};
use crate::value::{Entries, Json};

verus! {

/// How many bytes a text has.
pub open spec fn bytes(text: Seq<char>) -> nat {
    encode_utf8(text).len()
}

/// A word is reckoned by its letters, with one for all truth values, a number at eight bytes, and
/// a text at its bytes and the two quotation marks. Brackets take two bytes; each item of an array
/// adds itself and a comma, and each entry of a map its key, its value and four bytes.
pub proof fn lemma_sizes_of_values(
    text: Seq<char>,
    flag: bool,
    number: serde_json::Number,
    items: Seq<Json>,
    item: Json,
    entries: Entries,
    key: Seq<char>,
)
    ensures
        value_size(Json::Null) == 4,
        value_size(Json::Bool(flag)) == 5,
        value_size(Json::Number(number)) == 8,
        value_size(Json::String(text)) == bytes(text) + 2,
        value_size(Json::Array(Seq::empty())) == 2,
        value_size(Json::Object(Seq::empty())) == 2,
        value_size(Json::Array(items.push(item))) == value_size(Json::Array(items)) + value_size(
            item,
        ) + 1,
        value_size(Json::Object(entries.push((key, item)))) == value_size(Json::Object(entries))
            + bytes(key) + value_size(item) + 4,
{
    assert(items.push(item).drop_last() =~= items);
    assert(entries.push((key, item)).drop_last() =~= entries);
    assert(items_size(items.push(item)) == items_size(items) + value_size(item));
    assert(entries_size(entries.push((key, item))) == entries_size(entries) + bytes(key)
        + value_size(item) + 4);
    let no_items = Seq::<Json>::empty();
    let no_entries = Seq::<(Seq<char>, Json)>::empty();
    assert(items_size(no_items) == 0);
    assert(entries_size(no_entries) == 0);
    assert(value_size(Json::Array(no_items)) == 2);
    assert(value_size(Json::Object(no_entries)) == 2);
}

/// A span without any text is reckoned at 404 bytes.
pub proof fn lemma_size_of_an_empty_span(span: SpanModel)
    requires
        span.trace_id.len() == 0,
        span.span_id.len() == 0,
        span.parent_span_id.len() == 0,
        span.trace_state.len() == 0,
        span.span_name.len() == 0,
        span.service_name.len() == 0,
        span.status_message.len() == 0,
        span.scope_name.len() == 0,
        span.scope_version.len() == 0,
        span.resource_attributes.len() == 0,
        span.span_attributes.len() == 0,
        span.events.len() == 0,
        span.links.len() == 0,
        span.fields.len() == 0,
        span.shared is None,
    ensures
        span_size(span) == 404,
{
    lemma_no_bytes(span.trace_id);
    lemma_no_bytes(span.span_id);
    lemma_no_bytes(span.parent_span_id);
    lemma_no_bytes(span.trace_state);
    lemma_no_bytes(span.span_name);
    lemma_no_bytes(span.service_name);
    lemma_no_bytes(span.status_message);
    lemma_no_bytes(span.scope_name);
    lemma_no_bytes(span.scope_version);
}

proof fn lemma_no_bytes(text: Seq<char>)
    requires
        text.len() == 0,
    ensures
        bytes(text) == 0,
{
}

/// Every text of a span counts by its bytes: another text in its place changes the size by as many
/// bytes as the two differ by. Times, kinds and codes do not count.
pub proof fn lemma_texts_count_by_their_bytes(span: SpanModel, text: Seq<char>, other: SpanModel)
    ensures
        span_size(SpanModel { trace_id: text, ..span }) - bytes(text) == span_size(span) - bytes(
            span.trace_id,
        ),
        span_size(SpanModel { span_id: text, ..span }) - bytes(text) == span_size(span) - bytes(
            span.span_id,
        ),
        span_size(SpanModel { parent_span_id: text, ..span }) - bytes(text) == span_size(span)
            - bytes(span.parent_span_id),
        span_size(SpanModel { trace_state: text, ..span }) - bytes(text) == span_size(span)
            - bytes(span.trace_state),
        span_size(SpanModel { span_name: text, ..span }) - bytes(text) == span_size(span) - bytes(
            span.span_name,
        ),
        span_size(SpanModel { service_name: text, ..span }) - bytes(text) == span_size(span)
            - bytes(span.service_name),
        span_size(SpanModel { status_message: text, ..span }) - bytes(text) == span_size(span)
            - bytes(span.status_message),
        span_size(SpanModel { scope_name: text, ..span }) - bytes(text) == span_size(span)
            - bytes(span.scope_name),
        span_size(SpanModel { scope_version: text, ..span }) - bytes(text) == span_size(span)
            - bytes(span.scope_version),
        span_size(
            SpanModel {
                timestamp: other.timestamp,
                duration_ns: other.duration_ns,
                span_kind: other.span_kind,
                status_code: other.status_code,
                ..span
            },
        ) == span_size(span),
{
}

/// Every entry of a map of a span counts with its key, its value and four bytes; every timed event
/// counts with its name, its attributes and forty-two bytes; and every link with its identifiers,
/// its state, its attributes and two bytes. Fields that are shared count like those of the span.
pub proof fn lemma_parts_add_to_the_size(
    span: SpanModel,
    key: Seq<char>,
    value: Json,
    event: EventModel,
    link: LinkModel,
    shared: Entries,
)
    ensures
        span_size(
            SpanModel {
                resource_attributes: span.resource_attributes.push((key, value)),
                ..span
            },
        ) == span_size(span) + bytes(key) + value_size(value) + 4,
        span_size(
            SpanModel { span_attributes: span.span_attributes.push((key, value)), ..span },
        ) == span_size(span) + bytes(key) + value_size(value) + 4,
        span_size(SpanModel { fields: span.fields.push((key, value)), ..span }) == span_size(span)
            + bytes(key) + value_size(value) + 4,
        span_size(SpanModel { events: span.events.push(event), ..span }) == span_size(span)
            + bytes(event.name) + value_size(Json::Object(event.attributes)) + 40,
        span_size(SpanModel { links: span.links.push(link), ..span }) == span_size(span) + bytes(
            link.trace_id,
        ) + bytes(link.span_id) + bytes(link.trace_state) + value_size(
            Json::Object(link.attributes),
        ),
        span_size(SpanModel { shared: Some(shared), ..span }) + 2 == span_size(
            SpanModel { shared: None, ..span },
        ) + value_size(Json::Object(shared)),
{
    assert(span.resource_attributes.push((key, value)).drop_last() =~= span.resource_attributes);
    assert(span.span_attributes.push((key, value)).drop_last() =~= span.span_attributes);
    assert(span.fields.push((key, value)).drop_last() =~= span.fields);
    assert(span.events.push(event).drop_last() =~= span.events);
    assert(span.links.push(link).drop_last() =~= span.links);
    assert(events_size(span.events.push(event)) == events_size(span.events) + 40 + bytes(event.name)
        + attributes_size(event.attributes));
    assert(links_size(span.links.push(link)) == links_size(span.links) + bytes(link.trace_id)
        + bytes(link.span_id) + bytes(link.trace_state) + attributes_size(link.attributes));
}

} // verus!
