//! Rows: what a reader finds in them, column by column.

use vstd::prelude::*;

use crate::clock::{number_of, timestamp_text};
use crate::event::{
    attribute_of, base_cells, event_attributes, event_names, event_times, field_cells, field_of,
    lemma_row_has_each_field_once, link_attributes, link_span_ids, link_trace_ids,
    link_trace_states, row_cells, row_text, shared_cells, span_numbers_are_json, EventModel,
    LinkModel, SpanModel,
};
use crate::json::{
    entry_cells, escape, is_json, is_json_line, item_texts, json_text, lemma_array_is_json,
    lemma_decimal_is_json_line, lemma_entry_cells, lemma_number_is_json_line, lemma_object_is_json,
    lemma_quote_is_json_line, map_text, number_text, numbers_are_json, quote, Cells,
};
use crate::reading::{
    lemma_array_reads_back, lemma_object_reads_back, lemma_string_reads_back, read_array,
    read_object, unescape,
};
use crate::text::decimal;
use crate::value::{has_key, keyed, lookup, ordered, Entries, Json};

verus! {

// ---------------------------------------------------------------------------------------------
// Values
// ---------------------------------------------------------------------------------------------

/// A reader who reads `text` finds `value` in it.
pub open spec fn reads_as(text: Seq<char>, value: Json) -> bool
    decreases value,
{
    match value {
        Json::Null => text == "null"@,
        Json::Bool(b) => text == if b {
            "true"@
        } else {
            "false"@
        },
        Json::Number(number) => text == number_text(number),
        Json::String(s) => {
            &&& text.len() >= 2
            &&& text[0] == '"'
            &&& text.last() == '"'
            &&& unescape(text.subrange(1, text.len() - 1)) == s
        },
        Json::Array(items) => {
            &&& text.len() >= 2
            &&& text[0] == '['
            &&& text.last() == ']'
            &&& read_array(text).len() == items.len()
            &&& forall|i: int|
                0 <= i < items.len() ==> reads_as(read_array(text)[i], #[trigger] items[i])
        },
        Json::Object(entries) => {
            &&& text.len() >= 2
            &&& text[0] == '{'
            &&& text.last() == '}'
            &&& read_object(text).len() == entries.len()
            &&& forall|i: int|
                0 <= i < entries.len() ==> {
                    &&& read_object(text)[i].0 == (#[trigger] entries[i]).0
                    &&& reads_as(read_object(text)[i].1, entries[i].1)
                }
        },
    }
}

/// Reading the JSON text of a value gives the value back: the items of an array and the entries of
/// a map in their order, and whatever text a string holds.
pub proof fn lemma_values_read_back(value: Json)
    requires
        numbers_are_json(value),
    ensures
        is_json_line(json_text(value)),
        reads_as(json_text(value), value),
    decreases value,
{
    let text = json_text(value);
    match value {
        Json::Null => {
            reveal_strlit("null");
        },
        Json::Bool(_) => {
            reveal_strlit("true");
            reveal_strlit("false");
        },
        Json::Number(number) => {
            lemma_number_is_json_line(number_text(number));
        },
        Json::String(s) => {
            lemma_quote_is_json_line(s);
            lemma_string_reads_back(s);
            assert(text.subrange(1, text.len() - 1) =~= escape(s));
        },
        Json::Array(items) => {
            let parts = item_texts(items);
            assert forall|i: int| 0 <= i < parts.len() implies is_json_line(#[trigger] parts[i])
                && is_json(parts[i]) && reads_as(parts[i], items[i]) by {
                assert(numbers_are_json(items[i]));
                lemma_values_read_back(items[i]);
            }
            lemma_array_is_json(parts);
            assert forall|i: int| 0 <= i < parts.len() implies is_json(#[trigger] parts[i]) by {
                assert(is_json_line(parts[i]));
            }
            lemma_array_reads_back(parts);
            assert forall|i: int| 0 <= i < items.len() implies reads_as(
                read_array(text)[i],
                #[trigger] items[i],
            ) by {
                assert(is_json_line(parts[i]));
            }
        },
        Json::Object(entries) => {
            let cells = entry_cells(entries);
            assert forall|i: int| 0 <= i < cells.len() implies is_json_line(
                (#[trigger] cells[i]).1,
            ) && is_json(cells[i].1) && reads_as(cells[i].1, entries[i].1) by {
                assert(numbers_are_json(entries[i].1));
                lemma_values_read_back(entries[i].1);
            }
            lemma_entry_cells(entries);
            lemma_object_is_json(cells);
            assert forall|i: int| 0 <= i < cells.len() implies is_json((#[trigger] cells[i]).1) by {
                assert(is_json_line(cells[i].1));
            }
            lemma_object_reads_back(cells);
            assert forall|i: int| 0 <= i < entries.len() implies {
                &&& read_object(text)[i].0 == (#[trigger] entries[i]).0
                &&& reads_as(read_object(text)[i].1, entries[i].1)
            } by {
                assert(is_json_line(cells[i].1));
            }
        },
    }
}

/// The digits of a number in decimal have its value, and no zero stands before them.
pub proof fn lemma_decimal_reads_back(n: nat)
    ensures
        number_of(decimal(n)) == n,
        decimal(n).len() >= 1,
        n > 0 ==> decimal(n)[0] != '0',
        forall|i: int| 0 <= i < decimal(n).len() ==> '0' <= #[trigger] decimal(n)[i] <= '9',
    decreases n,
{
    if n < 10 {
        reveal_with_fuel(number_of, 2);
        assert(decimal(n).drop_last() =~= Seq::empty());
    } else {
        lemma_decimal_reads_back(n / 10);
        assert(decimal(n).drop_last() =~= decimal(n / 10));
        assert(decimal(n)[0] == decimal(n / 10)[0]);
        assert forall|i: int| 0 <= i < decimal(n).len() implies '0' <= #[trigger] decimal(n)[i]
            <= '9' by {
            if i < decimal(n / 10).len() {
                assert(decimal(n)[i] == decimal(n / 10)[i]);
            }
        }
    }
}

// ---------------------------------------------------------------------------------------------
// Columns
// ---------------------------------------------------------------------------------------------

/// Member `i` is the first one with the key `key`.
pub open spec fn is_first(cells: Cells, key: Seq<char>, i: int) -> bool {
    &&& 0 <= i < cells.len()
    &&& cells[i].0 == key
    &&& forall|j: int| 0 <= j < i ==> (#[trigger] cells[j]).0 != key
}

/// The text that stands under a key: that of the first member with it.
pub open spec fn under(cells: Cells, key: Seq<char>) -> Option<Seq<char>> {
    if exists|i: int| is_first(cells, key, i) {
        Some(cells[choose|i: int| is_first(cells, key, i)].1)
    } else {
        None
    }
}

proof fn lemma_under(cells: Cells, key: Seq<char>, i: int)
    requires
        is_first(cells, key, i),
    ensures
        under(cells, key) == Some(cells[i].1),
{
    let k = choose|k: int| is_first(cells, key, k);
    assert(is_first(cells, key, k));
    if k < i {
        assert(cells[k].0 != key);
    } else if i < k {
        assert(cells[i].0 != key);
    }
}

/// A row shows `value` in the column `name`.
pub open spec fn shows(row: Cells, name: Seq<char>, value: Json) -> bool {
    under(row, name) is Some && reads_as(under(row, name)->0, value)
}

/// One string for each timed event or link.
pub open spec fn strings(texts: Seq<Seq<char>>) -> Json {
    Json::Array(texts.map_values(|text: Seq<char>| Json::String(text)))
}

/// One map for each timed event or link.
pub open spec fn maps(list: Seq<Entries>) -> Json {
    Json::Array(list.map_values(|entries: Entries| Json::Object(entries)))
}

/// The names of the columns that every row has.
spec fn fixed_names() -> Seq<Seq<char>> {
    seq![
        "timestamp"@,
        "trace_id"@,
        "span_id"@,
        "parent_span_id"@,
        "trace_state"@,
        "span_name"@,
        "span_kind"@,
        "service_name"@,
        "duration_ns"@,
        "status_code"@,
        "status_message"@,
        "scope_name"@,
        "scope_version"@,
        "resource_attributes"@,
        "span_attributes"@,
        "events.timestamp"@,
        "events.name"@,
        "events.attributes"@,
        "links.trace_id"@,
        "links.span_id"@,
        "links.trace_state"@,
        "links.attributes"@,
    ]
}

/// A number by which the names can be told apart.
spec fn mark(name: Seq<char>) -> int {
    name.len() * 1_000_000 + name[0] as int * 1_000 + name[5] as int
}

#[verifier::spinoff_prover]
#[verifier::rlimit(40)]
proof fn lemma_fixed_names_differ()
    ensures
        forall|i: int, j: int|
            0 <= i < j < fixed_names().len() ==> (#[trigger] fixed_names()[i]) != (
            #[trigger] fixed_names()[j]),
{
    reveal_strlit("timestamp");
    reveal_strlit("trace_id");
    reveal_strlit("span_id");
    reveal_strlit("parent_span_id");
    reveal_strlit("trace_state");
    reveal_strlit("span_name");
    reveal_strlit("span_kind");
    reveal_strlit("service_name");
    reveal_strlit("duration_ns");
    reveal_strlit("status_code");
    reveal_strlit("status_message");
    reveal_strlit("scope_name");
    reveal_strlit("scope_version");
    reveal_strlit("resource_attributes");
    reveal_strlit("span_attributes");
    reveal_strlit("events.timestamp");
    reveal_strlit("events.name");
    reveal_strlit("events.attributes");
    reveal_strlit("links.trace_id");
    reveal_strlit("links.span_id");
    reveal_strlit("links.trace_state");
    reveal_strlit("links.attributes");
    let names = fixed_names();
    let marks = names.map_values(|name: Seq<char>| mark(name));
    assert forall|i: int, j: int| 0 <= i < j < names.len() implies (#[trigger] names[i]) != (
    #[trigger] names[j]) by {
        assert(marks[i] == mark(names[i]) && marks[j] == mark(names[j]));
        assert(marks[i] != marks[j]);
    }
}

/// The values of the fixed columns of a span, with the number of nanoseconds left out.
spec fn fixed_values(span: SpanModel, zone: Seq<char>) -> Seq<Json> {
    seq![
        Json::String(timestamp_text(span.timestamp, zone)),
        Json::String(span.trace_id),
        Json::String(span.span_id),
        Json::String(span.parent_span_id),
        Json::String(span.trace_state),
        Json::String(span.span_name),
        Json::String(span.span_kind.name()),
        Json::String(span.service_name),
        Json::Null,
        Json::String(span.status_code.name()),
        Json::String(span.status_message),
        Json::String(span.scope_name),
        Json::String(span.scope_version),
        Json::Object(span.resource_attributes),
        Json::Object(span.span_attributes),
        strings(event_column(span.events, |e: EventModel| timestamp_text(e.timestamp, zone))),
        strings(event_column(span.events, |e: EventModel| e.name)),
        maps(event_column(span.events, |e: EventModel| e.attributes)),
        strings(link_column(span.links, |l: LinkModel| l.trace_id)),
        strings(link_column(span.links, |l: LinkModel| l.span_id)),
        strings(link_column(span.links, |l: LinkModel| l.trace_state)),
        maps(link_column(span.links, |l: LinkModel| l.attributes)),
    ]
}

/// Something of each timed event, in their order.
pub open spec fn event_column<A>(events: Seq<EventModel>, part: spec_fn(EventModel) -> A) -> Seq<
    A,
> {
    Seq::new(events.len(), |i: int| part(events[i]))
}

/// Something of each link, in their order.
pub open spec fn link_column<A>(links: Seq<LinkModel>, part: spec_fn(LinkModel) -> A) -> Seq<A> {
    Seq::new(links.len(), |i: int| part(links[i]))
}

proof fn lemma_strings_are_json(texts: Seq<Seq<char>>)
    ensures
        numbers_are_json(strings(texts)),
        item_texts(strings(texts)->Array_0) == texts.map_values(|text: Seq<char>| quote(text)),
{
    let items = strings(texts)->Array_0;
    assert forall|i: int| 0 <= i < items.len() implies numbers_are_json(#[trigger] items[i]) by {
        assert(items[i] == Json::String(texts[i]));
    }
    assert(item_texts(items) =~= texts.map_values(|text: Seq<char>| quote(text)));
}

proof fn lemma_maps_are_json(list: Seq<Entries>)
    requires
        forall|i: int|
            0 <= i < list.len() ==> numbers_are_json(Json::Object(#[trigger] list[i])),
    ensures
        numbers_are_json(maps(list)),
        item_texts(maps(list)->Array_0) == list.map_values(
            |entries: Entries| map_text(entries),
        ),
{
    let items = maps(list)->Array_0;
    assert forall|i: int| 0 <= i < items.len() implies numbers_are_json(#[trigger] items[i]) by {
        assert(items[i] == Json::Object(list[i]));
    }
    assert(item_texts(items) =~= list.map_values(
        |entries: Entries| map_text(entries),
    ));
}

/// Each fixed member of a row is the JSON text of the value in its column.
#[verifier::spinoff_prover]
#[verifier::rlimit(40)]
proof fn lemma_fixed_cells(span: SpanModel, zone: Seq<char>)
    requires
        span_numbers_are_json(span),
    ensures
        base_cells(span, zone).len() == fixed_names().len(),
        fixed_values(span, zone).len() == fixed_names().len(),
        forall|k: int|
            0 <= k < fixed_names().len() ==> (#[trigger] base_cells(span, zone)[k]).0
                == fixed_names()[k] && (k != 8 ==> base_cells(span, zone)[k].1 == json_text(
                fixed_values(span, zone)[k],
            )),
        base_cells(span, zone)[8].1 == decimal(span.duration_ns as nat),
        forall|k: int|
            0 <= k < fixed_names().len() ==> numbers_are_json(
                #[trigger] fixed_values(span, zone)[k],
            ),
{
    let times = event_column(span.events, |e: EventModel| timestamp_text(e.timestamp, zone));
    let names = event_column(span.events, |e: EventModel| e.name);
    let event_maps = event_column(span.events, |e: EventModel| e.attributes);
    let traces = link_column(span.links, |l: LinkModel| l.trace_id);
    let spans = link_column(span.links, |l: LinkModel| l.span_id);
    let states = link_column(span.links, |l: LinkModel| l.trace_state);
    let link_maps = link_column(span.links, |l: LinkModel| l.attributes);
    lemma_strings_are_json(times);
    lemma_strings_are_json(names);
    lemma_strings_are_json(traces);
    lemma_strings_are_json(spans);
    lemma_strings_are_json(states);
    assert forall|i: int| 0 <= i < event_maps.len() implies numbers_are_json(
        Json::Object(#[trigger] event_maps[i]),
    ) by {
        assert(event_maps[i] == span.events[i].attributes);
    }
    assert forall|i: int| 0 <= i < link_maps.len() implies numbers_are_json(
        Json::Object(#[trigger] link_maps[i]),
    ) by {
        assert(link_maps[i] == span.links[i].attributes);
    }
    lemma_maps_are_json(event_maps);
    lemma_maps_are_json(link_maps);
    assert(event_times(span.events, zone) =~= times.map_values(|text: Seq<char>| quote(text)));
    assert(event_names(span.events) =~= names.map_values(|text: Seq<char>| quote(text)));
    assert(event_attributes(span.events) =~= event_maps.map_values(
        |entries: Entries| map_text(entries),
    ));
    assert(link_trace_ids(span.links) =~= traces.map_values(|text: Seq<char>| quote(text)));
    assert(link_span_ids(span.links) =~= spans.map_values(|text: Seq<char>| quote(text)));
    assert(link_trace_states(span.links) =~= states.map_values(|text: Seq<char>| quote(text)));
    assert(link_attributes(span.links) =~= link_maps.map_values(
        |entries: Entries| map_text(entries),
    ));
}

/// Reading the row of a span gives its members back.
pub proof fn lemma_row_reads_back(span: SpanModel, zone: Seq<char>)
    requires
        span_numbers_are_json(span),
    ensures
        is_json_line(row_text(span, zone)),
        read_object(row_text(span, zone)) == row_cells(span, zone),
{
    reveal(row_text);
    let cells = row_cells(span, zone);
    let base = base_cells(span, zone);
    let fields = field_cells(span);
    lemma_fixed_cells(span, zone);
    lemma_field_cells(span);
    assert forall|i: int| 0 <= i < cells.len() implies is_json_line((#[trigger] cells[i]).1) by {
        if i < base.len() {
            assert(cells[i] == base[i]);
            if i == 8 {
                lemma_decimal_is_json_line(span.duration_ns as nat);
            } else {
                assert(numbers_are_json(fixed_values(span, zone)[i]));
                lemma_values_read_back(fixed_values(span, zone)[i]);
            }
        } else {
            assert(cells[i] == fields[i - base.len()]);
        }
    }
    assert forall|i: int| 0 <= i < cells.len() implies is_json((#[trigger] cells[i]).1) by {
        assert(is_json_line(cells[i].1));
    }
    lemma_object_is_json(cells);
    lemma_object_reads_back(cells);
}

/// The members for fields are JSON texts.
proof fn lemma_field_cells(span: SpanModel)
    requires
        span_numbers_are_json(span),
    ensures
        forall|i: int|
            0 <= i < field_cells(span).len() ==> is_json_line((#[trigger] field_cells(span)[i]).1),
{
    let cells = field_cells(span);
    let own = entry_cells(span.fields);
    let value = Json::Object(span.fields);
    assert forall|i: int| 0 <= i < own.len() implies is_json_line((#[trigger] own[i]).1) by {
        assert(numbers_are_json(value->Object_0[i].1));
        lemma_values_read_back(span.fields[i].1);
    }
    if span.shared is Some {
        let shared = shared_cells(span.shared->0, span.fields);
        lemma_shared_cells_are_json(span.shared->0, span.fields);
        assert forall|i: int| 0 <= i < cells.len() implies is_json_line(
            (#[trigger] cells[i]).1,
        ) by {
            if i < shared.len() {
                assert(cells[i] == shared[i]);
            } else {
                assert(cells[i] == own[i - shared.len()]);
            }
        }
    }
}

proof fn lemma_shared_cells_are_json(shared: Entries, fields: Entries)
    requires
        forall|i: int|
            0 <= i < shared.len() && !has_key(fields, (#[trigger] shared[i]).0)
                ==> numbers_are_json(shared[i].1),
    ensures
        forall|i: int|
            0 <= i < shared_cells(shared, fields).len() ==> is_json_line(
                (#[trigger] shared_cells(shared, fields)[i]).1,
            ),
    decreases shared.len(),
{
    if shared.len() > 0 {
        let less = shared.drop_last();
        assert forall|i: int|
            0 <= i < less.len() && !has_key(
                fields,
                (#[trigger] less[i]).0,
            ) implies numbers_are_json(less[i].1) by {
            assert(less[i] == shared[i]);
        }
        lemma_shared_cells_are_json(less, fields);
        let last = shared[shared.len() - 1];
        if !has_key(fields, last.0) {
            lemma_values_read_back(last.1);
        }
        let cells = shared_cells(shared, fields);
        let front = shared_cells(less, fields);
        assert forall|i: int| 0 <= i < cells.len() implies is_json_line(
            (#[trigger] cells[i]).1,
        ) by {
            if i < front.len() {
                assert(cells[i] == front[i]);
            }
        }
    }
}

proof fn lemma_field_numbers(span: SpanModel, key: Seq<char>)
    requires
        span_numbers_are_json(span),
        field_of(span, key) is Some,
    ensures
        numbers_are_json(field_of(span, key)->0),
{
    lemma_lookup_numbers(span.fields, key);
    if !has_key(span.fields, key) {
        let shared = span.shared->0;
        let i = choose|i: int| #[trigger] keyed(shared, key, i);
        assert(keyed(shared, key, i));
        assert(shared[i].0 == key);
    }
}

proof fn lemma_lookup_numbers(entries: Entries, key: Seq<char>)
    requires
        numbers_are_json(Json::Object(entries)),
    ensures
        lookup(entries, key) is Some ==> numbers_are_json(
            lookup(entries, key)->0,
        ),
{
    if has_key(entries, key) {
        let i = choose|i: int| #[trigger] keyed(entries, key, i);
        let value = Json::Object(entries);
        assert(numbers_are_json(value->Object_0[i].1));
    }
}

proof fn lemma_column(span: SpanModel, zone: Seq<char>, k: int)
    requires
        span_numbers_are_json(span),
        0 <= k < fixed_names().len(),
    ensures
        ({
            let row = read_object(row_text(span, zone));
            &&& k != 8 ==> shows(row, fixed_names()[k], fixed_values(span, zone)[k])
            &&& k == 8 ==> under(row, fixed_names()[k]) == Some(decimal(span.duration_ns as nat))
        }),
{
    let row = read_object(row_text(span, zone));
    let base = base_cells(span, zone);
    lemma_row_reads_back(span, zone);
    lemma_fixed_cells(span, zone);
    lemma_fixed_names_differ();
    assert(row[k] == base[k]);
    assert(base[k].0 == fixed_names()[k]);
    assert forall|j: int| 0 <= j < k implies (#[trigger] row[j]).0 != fixed_names()[k] by {
        assert(row[j] == base[j]);
        assert(fixed_names()[j] != fixed_names()[k]);
    }
    lemma_under(row, fixed_names()[k], k);
    if k != 8 {
        assert(numbers_are_json(fixed_values(span, zone)[k]));
        lemma_values_read_back(fixed_values(span, zone)[k]);
    }
}

/// Whoever reads the row of a span by the names of the columns finds in each column what the span
/// holds under that name.
pub proof fn lemma_columns_show_the_span(span: SpanModel, zone: Seq<char>)
    requires
        span_numbers_are_json(span),
    ensures
        ({
            let row = read_object(row_text(span, zone));
            let duration = under(row, "duration_ns"@);
            &&& shows(row, "timestamp"@, Json::String(timestamp_text(span.timestamp, zone)))
            &&& shows(row, "trace_id"@, Json::String(span.trace_id))
            &&& shows(row, "span_id"@, Json::String(span.span_id))
            &&& shows(row, "parent_span_id"@, Json::String(span.parent_span_id))
            &&& shows(row, "trace_state"@, Json::String(span.trace_state))
            &&& shows(row, "span_name"@, Json::String(span.span_name))
            &&& shows(row, "span_kind"@, Json::String(span.span_kind.name()))
            &&& shows(row, "service_name"@, Json::String(span.service_name))
            &&& duration is Some && number_of(duration->0) == span.duration_ns
            &&& shows(row, "status_code"@, Json::String(span.status_code.name()))
            &&& shows(row, "status_message"@, Json::String(span.status_message))
            &&& shows(row, "scope_name"@, Json::String(span.scope_name))
            &&& shows(row, "scope_version"@, Json::String(span.scope_version))
            &&& shows(row, "resource_attributes"@, Json::Object(span.resource_attributes))
            &&& shows(row, "span_attributes"@, Json::Object(span.span_attributes))
        }),
{
    assert(fixed_names().len() == fixed_values(span, zone).len());
    lemma_column(span, zone, 0);
    lemma_column(span, zone, 1);
    lemma_column(span, zone, 2);
    lemma_column(span, zone, 3);
    lemma_column(span, zone, 4);
    lemma_column(span, zone, 5);
    lemma_column(span, zone, 6);
    lemma_column(span, zone, 7);
    lemma_column(span, zone, 8);
    lemma_column(span, zone, 9);
    lemma_column(span, zone, 10);
    lemma_column(span, zone, 11);
    lemma_column(span, zone, 12);
    lemma_column(span, zone, 13);
    lemma_column(span, zone, 14);
    lemma_decimal_reads_back(span.duration_ns as nat);
}

/// The columns of the timed events and of the links hold one item for each of them, in their
/// order: item `i` of every such column belongs to event or link `i`.
pub proof fn lemma_columns_show_events_and_links(span: SpanModel, zone: Seq<char>)
    requires
        span_numbers_are_json(span),
    ensures
        ({
            let row = read_object(row_text(span, zone));
            let times = event_column(
                span.events,
                |e: EventModel| timestamp_text(e.timestamp, zone),
            );
            let names = event_column(span.events, |e: EventModel| e.name);
            let event_maps = event_column(span.events, |e: EventModel| e.attributes);
            let traces = link_column(span.links, |l: LinkModel| l.trace_id);
            let spans = link_column(span.links, |l: LinkModel| l.span_id);
            let states = link_column(span.links, |l: LinkModel| l.trace_state);
            let link_maps = link_column(span.links, |l: LinkModel| l.attributes);
            &&& shows(row, "events.timestamp"@, strings(times))
            &&& shows(row, "events.name"@, strings(names))
            &&& shows(row, "events.attributes"@, maps(event_maps))
            &&& shows(row, "links.trace_id"@, strings(traces))
            &&& shows(row, "links.span_id"@, strings(spans))
            &&& shows(row, "links.trace_state"@, strings(states))
            &&& shows(row, "links.attributes"@, maps(link_maps))
        }),
{
    assert(fixed_names().len() == fixed_values(span, zone).len());
    lemma_column(span, zone, 15);
    lemma_column(span, zone, 16);
    lemma_column(span, zone, 17);
    lemma_column(span, zone, 18);
    lemma_column(span, zone, 19);
    lemma_column(span, zone, 20);
    lemma_column(span, zone, 21);
}

/// Whoever reads the row of a span by the name of one of its fields finds the value that the span
/// has for it, unless a column has that name; and there is no other member.
pub proof fn lemma_columns_show_the_fields(span: SpanModel, zone: Seq<char>, key: Seq<char>)
    requires
        span_numbers_are_json(span),
        ordered(span.fields),
        span.shared is Some ==> ordered(span.shared->0),
        forall|i: int|
            0 <= i < base_cells(span, zone).len() ==> (#[trigger] base_cells(span, zone)[i]).0
                != key,
    ensures
        ({
            let row = read_object(row_text(span, zone));
            match field_of(span, key) {
                Some(value) => shows(row, key, value),
                None => under(row, key) is None,
            }
        }),
{
    let row = read_object(row_text(span, zone));
    lemma_row_reads_back(span, zone);
    lemma_row_has_each_field_once(span, zone, key);
    if field_of(span, key) is Some {
        let i = choose|i: int| 0 <= i < row.len() && (#[trigger] row[i]).0 == key;
        assert(is_first(row, key, i));
        lemma_under(row, key, i);
        lemma_field_numbers(span, key);
        lemma_values_read_back(field_of(span, key)->0);
    } else if under(row, key) is Some {
        let i = choose|i: int| is_first(row, key, i);
        assert(row[i].0 == key);
    }
}

// ---------------------------------------------------------------------------------------------
// Fields and attributes
// ---------------------------------------------------------------------------------------------

/// A field is one of the span itself, else one that it shares; an attribute is one of the span
/// itself, else one of its resource. There is none exactly if neither has it.
pub proof fn lemma_the_nearest_counts(span: SpanModel, key: Seq<char>)
    ensures
        lookup(span.fields, key) is Some ==> field_of(span, key) == lookup(span.fields, key),
        lookup(span.fields, key) is None && span.shared is Some ==> field_of(span, key) == lookup(
            span.shared->0,
            key,
        ),
        lookup(span.fields, key) is None && span.shared is None ==> field_of(span, key) is None,
        lookup(span.span_attributes, key) is Some ==> attribute_of(span, key) == lookup(
            span.span_attributes,
            key,
        ),
        lookup(span.span_attributes, key) is None ==> attribute_of(span, key) == lookup(
            span.resource_attributes,
            key,
        ),
{
}

/// A row has the columns that every row has, one member for each field of the span, one for each
/// field that it shares and has none of its own for, and no others.
pub proof fn lemma_members_are_counted(span: SpanModel, zone: Seq<char>)
    requires
        span_numbers_are_json(span),
    ensures
        read_object(row_text(span, zone)).len() == 22 + span.fields.len() + match span.shared {
            Some(shared) => shared.filter(
                |entry: (Seq<char>, Json)| !has_key(span.fields, entry.0),
            ).len(),
            None => 0,
        },
{
    lemma_row_reads_back(span, zone);
    if span.shared is Some {
        lemma_shared_cells_are_counted(span.shared->0, span.fields);
    }
}

proof fn lemma_shared_cells_are_counted(shared: Entries, fields: Entries)
    ensures
        shared_cells(shared, fields).len() == shared.filter(
            |entry: (Seq<char>, Json)| !has_key(fields, entry.0),
        ).len(),
    decreases shared.len(),
{
    reveal(Seq::filter);
    if shared.len() > 0 {
        lemma_shared_cells_are_counted(shared.drop_last(), fields);
    }
}

} // verus!
