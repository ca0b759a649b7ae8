//! What holds of the statements that create the table and bring it up to date, taken one by one.

use vstd::prelude::*;

use crate::clock::{is_zone_char, is_zone_text};
use crate::sink::clickhouse::{
    add_columns, alter_actions, alter_text, alteration, base_columns, column_line, column_lines,
    creation, ddl_text, distribution, index_lines, indexes, local_name, modify_timestamps,
    on_cluster_text, qualified, scope_text, statements, storage_text, storing_table, table_body,
    table_columns, table_layout, timestamp_type, widest, with_columns, Pairs, SinkModel,
};
use crate::text::{join, lemma_split_at, lemma_split_none, split};

verus! {

/// `s` begins with `head`.
pub open spec fn begins(s: Seq<char>, head: Seq<char>) -> bool {
    head.len() <= s.len() && s.take(head.len() as int) == head
}

/// An action that does nothing where it has been done: it adds a column or an index that may be
/// there, or it gives a column of times the type that it is to have. Indexes and types come only
/// where they are wanted.
pub open spec fn is_repeatable(action: Seq<char>, with_index: bool, with_zone: bool) -> bool {
    ||| begins(action, "ADD COLUMN IF NOT EXISTS `"@)
    ||| with_index && begins(action, "ADD INDEX IF NOT EXISTS `"@)
    ||| with_zone && begins(action, "MODIFY COLUMN `"@)
}

proof fn lemma_begins(head: Seq<char>, a: Seq<char>, b: Seq<char>, c: Seq<char>)
    ensures
        begins(head + a, head),
        begins(head + a + b, head),
        begins(head + a + b + c, head),
{
    assert((head + a).take(head.len() as int) =~= head);
    assert((head + a + b).take(head.len() as int) =~= head);
    assert((head + a + b + c).take(head.len() as int) =~= head);
}

proof fn lemma_additions_begin(columns: Pairs)
    ensures
        forall|i: int|
            0 <= i < add_columns(columns).len() ==> begins(
                #[trigger] add_columns(columns)[i],
                "ADD COLUMN IF NOT EXISTS `"@,
            ),
    decreases columns.len(),
{
    if columns.len() > 0 {
        let front = columns.drop_last();
        let last = columns.last();
        lemma_additions_begin(front);
        lemma_begins("ADD COLUMN IF NOT EXISTS `"@, last.0, "` "@, last.1);
        assert forall|i: int| 0 <= i < add_columns(columns).len() implies begins(
            #[trigger] add_columns(columns)[i],
            "ADD COLUMN IF NOT EXISTS `"@,
        ) by {
            if i < add_columns(front).len() {
                assert(add_columns(columns)[i] == add_columns(front)[i]);
            }
        }
    }
}

proof fn lemma_index_lines_begin(start: Seq<char>)
    ensures
        forall|i: int|
            0 <= i < index_lines(start).len() ==> begins(#[trigger] index_lines(start)[i], start),
{
    assert forall|i: int| 0 <= i < index_lines(start).len() implies begins(
        #[trigger] index_lines(start)[i],
        start,
    ) by {
        let index = indexes()[i];
        lemma_begins(start, index.0, "` "@, index.1);
        assert(index_lines(start)[i] == start + index.0 + "` "@ + index.1);
    }
}

proof fn lemma_modifications_begin(zone: Option<Seq<char>>)
    ensures
        zone is None ==> modify_timestamps(zone).len() == 0,
        forall|i: int|
            0 <= i < modify_timestamps(zone).len() ==> begins(
                #[trigger] modify_timestamps(zone)[i],
                "MODIFY COLUMN `"@,
            ),
{
    reveal_strlit("MODIFY COLUMN `");
    reveal_strlit("MODIFY COLUMN `timestamp` ");
    reveal_strlit("MODIFY COLUMN `events.timestamp` Array(");
    let head = "MODIFY COLUMN `"@;
    let time = timestamp_type(zone);
    let first = "MODIFY COLUMN `timestamp` "@ + time;
    let second = "MODIFY COLUMN `events.timestamp` Array("@ + time + ")"@;
    assert(first.take(head.len() as int) =~= head);
    assert(second.take(head.len() as int) =~= head);
}

/// Each action that brings a table up to date does nothing where it has been done.
pub proof fn lemma_actions_are_repeatable(
    columns: Pairs,
    zone: Option<Seq<char>>,
    with_index: bool,
)
    ensures
        forall|i: int|
            0 <= i < alter_actions(columns, zone, with_index).len() ==> is_repeatable(
                #[trigger] alter_actions(columns, zone, with_index)[i],
                with_index,
                zone is Some,
            ),
{
    let added = add_columns(columns);
    let indexed: Seq<Seq<char>> = if with_index {
        index_lines("ADD INDEX IF NOT EXISTS `"@)
    } else {
        Seq::empty()
    };
    let modified = modify_timestamps(zone);
    let all = alter_actions(columns, zone, with_index);
    lemma_additions_begin(columns);
    lemma_index_lines_begin("ADD INDEX IF NOT EXISTS `"@);
    lemma_modifications_begin(zone);
    assert forall|i: int| 0 <= i < all.len() implies is_repeatable(
        #[trigger] all[i],
        with_index,
        zone is Some,
    ) by {
        if i < added.len() {
            assert(all[i] == added[i]);
        } else if i < added.len() + indexed.len() {
            assert(all[i] == indexed[i - added.len()]);
        } else {
            assert(all[i] == modified[i - added.len() - indexed.len()]);
        }
    }
}

/// The statement creates a table only where there is none.
pub open spec fn creates_if_missing(statement: Seq<char>) -> bool {
    begins(statement, "CREATE TABLE IF NOT EXISTS "@)
}

/// The statement changes a table by actions each of which does nothing where it has been done.
pub open spec fn alters_repeatably(
    statement: Seq<char>,
    sink: SinkModel,
    columns: Pairs,
    table: Seq<char>,
    with_index: bool,
) -> bool {
    let actions = alter_actions(columns, sink.zone, with_index);
    &&& statement == alter_text(qualified(sink.database, table), scope_text(sink), actions)
    &&& forall|i: int|
        0 <= i < actions.len() ==> is_repeatable(
            #[trigger] actions[i],
            with_index,
            sink.zone is Some,
        )
}

/// The statements may be run again and again: first a table is created where there is none, and
/// on a cluster the one that distributes the rows too; then what a table lacks is added to it.
/// Only the table that holds the rows gets indexes, and types are changed only where there is a
/// zone.
pub proof fn lemma_ddl_may_be_run_again(sink: SinkModel, extra: Pairs)
    ensures
        ({
            let columns = table_columns(sink, extra);
            let all = statements(sink, columns);
            match sink.cluster {
                None => {
                    &&& all.len() == 2
                    &&& creates_if_missing(all[0])
                    &&& alters_repeatably(all[1], sink, columns, sink.table, true)
                },
                Some(_) => {
                    &&& all.len() == 4
                    &&& creates_if_missing(all[0])
                    &&& creates_if_missing(all[1])
                    &&& alters_repeatably(all[2], sink, columns, local_name(sink.table), true)
                    &&& alters_repeatably(all[3], sink, columns, sink.table, false)
                },
            }
        }),
{
    let columns = table_columns(sink, extra);
    let head = "CREATE TABLE IF NOT EXISTS "@;
    lemma_actions_are_repeatable(columns, sink.zone, true);
    lemma_actions_are_repeatable(columns, sink.zone, false);
    assert(creation(sink, columns).take(head.len() as int) =~= head);
    if sink.cluster is Some {
        let other = distribution(sink, sink.cluster->Some_0);
        assert(other.take(head.len() as int) =~= head);
    }
}

// ---------------------------------------------------------------------------------------------
// Taking the statements apart
// ---------------------------------------------------------------------------------------------

/// There is no semicolon in `s`.
pub open spec fn no_semicolon(s: Seq<char>) -> bool {
    forall|i: int| 0 <= i < s.len() ==> #[trigger] s[i] != ';'
}

/// There is no semicolon in any name or text of the list.
pub open spec fn none_in(list: Pairs) -> bool {
    forall|i: int|
        0 <= i < list.len() ==> no_semicolon((#[trigger] list[i]).0) && no_semicolon(list[i].1)
}

/// There is no semicolon in the names and types that the sink is given.
pub open spec fn names_are_plain(sink: SinkModel, extra: Pairs) -> bool {
    &&& no_semicolon(sink.database)
    &&& no_semicolon(sink.table)
    &&& sink.cluster matches Some(cluster) ==> no_semicolon(cluster)
    &&& none_in(extra)
}

/// The zone of the sink, if it has one, has a name such as zones have.
pub open spec fn zone_is_named(sink: SinkModel) -> bool {
    sink.zone matches Some(zone) ==> is_zone_text(zone)
}

/// What statements come apart into where they are cut at the semicolons between them.
pub open spec fn cut(all: Seq<Seq<char>>) -> Seq<Seq<char>> {
    Seq::new(
        all.len(),
        |i: int|
            if i == 0 {
                all[0]
            } else {
                "\n\n"@ + all[i]
            },
    )
}

/// There is no semicolon in anything that goes into the statements from outside.
spec fn is_plain(sink: SinkModel) -> bool {
    &&& names_are_plain(sink, Seq::empty())
    &&& sink.zone matches Some(zone) ==> no_semicolon(zone)
}

proof fn lemma_join_plain(parts: Seq<Seq<char>>, separator: Seq<char>)
    requires
        no_semicolon(separator),
        forall|i: int| 0 <= i < parts.len() ==> no_semicolon(#[trigger] parts[i]),
    ensures
        no_semicolon(join(parts, separator)),
    decreases parts.len(),
{
    if parts.len() > 1 {
        let front = parts.drop_last();
        assert forall|i: int| 0 <= i < front.len() implies no_semicolon(#[trigger] front[i]) by {
            assert(front[i] == parts[i]);
        }
        lemma_join_plain(front, separator);
        assert(no_semicolon(parts[parts.len() - 1]));
    } else if parts.len() == 1 {
        assert(no_semicolon(parts[0]));
    }
}

proof fn lemma_types_plain()
    ensures
        no_semicolon("String"@),
        no_semicolon("LowCardinality(String)"@),
        no_semicolon("UInt64"@),
        no_semicolon("Map(LowCardinality(String), String)"@),
        no_semicolon("Array(LowCardinality(String))"@),
        no_semicolon("Array(Map(LowCardinality(String), String))"@),
        no_semicolon("Array(String)"@),
        no_semicolon("Array("@),
        no_semicolon(")"@),
        no_semicolon("DateTime64(9, '"@),
        no_semicolon("')"@),
        no_semicolon("DateTime64(9)"@),
{
    reveal_strlit("String");
    reveal_strlit("LowCardinality(String)");
    reveal_strlit("UInt64");
    reveal_strlit("Map(LowCardinality(String), String)");
    reveal_strlit("Array(LowCardinality(String))");
    reveal_strlit("Array(Map(LowCardinality(String), String))");
    reveal_strlit("Array(String)");
    reveal_strlit("Array(");
    reveal_strlit(")");
    reveal_strlit("DateTime64(9, '");
    reveal_strlit("')");
    reveal_strlit("DateTime64(9)");
}

proof fn lemma_names_plain()
    ensures
        no_semicolon("timestamp"@),
        no_semicolon("trace_id"@),
        no_semicolon("span_id"@),
        no_semicolon("parent_span_id"@),
        no_semicolon("trace_state"@),
        no_semicolon("span_name"@),
        no_semicolon("span_kind"@),
        no_semicolon("service_name"@),
        no_semicolon("duration_ns"@),
        no_semicolon("status_code"@),
        no_semicolon("status_message"@),
        no_semicolon("scope_name"@),
        no_semicolon("scope_version"@),
        no_semicolon("resource_attributes"@),
        no_semicolon("span_attributes"@),
        no_semicolon("events.timestamp"@),
        no_semicolon("events.name"@),
        no_semicolon("events.attributes"@),
        no_semicolon("links.trace_id"@),
        no_semicolon("links.span_id"@),
        no_semicolon("links.trace_state"@),
        no_semicolon("links.attributes"@),
{
    reveal_strlit("timestamp");
    reveal_strlit("trace_id");
    reveal_strlit("span_id");
    reveal_strlit("parent_span_id");
    reveal_strlit("trace_state");
    reveal_strlit("span_name");
    reveal_strlit("span_kind");
    reveal_strlit("service_name");
    reveal_strlit("duration_ns");
    reveal_strlit("status_code");
    reveal_strlit("status_message");
    reveal_strlit("scope_name");
    reveal_strlit("scope_version");
    reveal_strlit("resource_attributes");
    reveal_strlit("span_attributes");
    reveal_strlit("events.timestamp");
    reveal_strlit("events.name");
    reveal_strlit("events.attributes");
    reveal_strlit("links.trace_id");
    reveal_strlit("links.span_id");
    reveal_strlit("links.trace_state");
    reveal_strlit("links.attributes");
}

proof fn lemma_times_plain(zone: Option<Seq<char>>)
    requires
        zone matches Some(name) ==> no_semicolon(name),
    ensures
        no_semicolon(timestamp_type(zone)),
        no_semicolon("Array("@ + timestamp_type(zone) + ")"@),
{
    lemma_types_plain();
}

proof fn lemma_base_columns_plain(zone: Option<Seq<char>>)
    requires
        zone matches Some(name) ==> no_semicolon(name),
    ensures
        none_in(base_columns(zone)),
{
    lemma_names_plain();
    lemma_types_plain();
    lemma_times_plain(zone);
}

proof fn lemma_indexes_plain()
    ensures
        none_in(indexes()),
{
    reveal_strlit("idx_trace_id");
    reveal_strlit("idx_res_attr_key");
    reveal_strlit("idx_res_attr_value");
    reveal_strlit("idx_span_attr_key");
    reveal_strlit("idx_span_attr_value");
    reveal_strlit("idx_duration");
    reveal_strlit("`trace_id` TYPE bloom_filter GRANULARITY 4");
    reveal_strlit("mapKeys(`resource_attributes`) TYPE bloom_filter(0.01) GRANULARITY 1");
    reveal_strlit("mapValues(`resource_attributes`) TYPE bloom_filter(0.01) GRANULARITY 1");
    reveal_strlit("mapKeys(`span_attributes`) TYPE bloom_filter(0.01) GRANULARITY 1");
    reveal_strlit("mapValues(`span_attributes`) TYPE bloom_filter(0.01) GRANULARITY 1");
    reveal_strlit("`duration_ns` TYPE minmax GRANULARITY 1");
}

proof fn lemma_with_columns_plain(columns: Pairs, extra: Pairs)
    requires
        none_in(columns),
        none_in(extra),
    ensures
        none_in(with_columns(columns, extra)),
    decreases extra.len(),
{
    if extra.len() > 0 {
        let front = extra.drop_last();
        assert forall|i: int| 0 <= i < front.len() implies no_semicolon((#[trigger] front[i]).0)
            && no_semicolon(front[i].1) by {
            assert(front[i] == extra[i]);
        }
        lemma_with_columns_plain(columns, front);
        assert(no_semicolon(extra[extra.len() - 1].0));
    }
}

proof fn lemma_index_lines_plain(start: Seq<char>)
    requires
        no_semicolon(start),
    ensures
        forall|i: int|
            0 <= i < index_lines(start).len() ==> no_semicolon(#[trigger] index_lines(start)[i]),
{
    lemma_indexes_plain();
    reveal_strlit("` ");
    assert forall|i: int| 0 <= i < index_lines(start).len() implies no_semicolon(
        #[trigger] index_lines(start)[i],
    ) by {
        let index = indexes()[i];
        assert(index_lines(start)[i] == start + index.0 + "` "@ + index.1);
    }
}

proof fn lemma_body_plain(columns: Pairs)
    requires
        none_in(columns),
    ensures
        no_semicolon(table_body(columns)),
{
    let lines = column_lines(columns, widest(columns));
    let more = index_lines("    INDEX `"@);
    reveal_strlit("    INDEX `");
    reveal_strlit(",\n");
    reveal_strlit("    `");
    reveal_strlit("`");
    reveal_strlit(" ");
    lemma_index_lines_plain("    INDEX `"@);
    let all = lines + more;
    assert forall|i: int| 0 <= i < all.len() implies no_semicolon(#[trigger] all[i]) by {
        if i < lines.len() {
            let (name, kind) = columns[i];
            assert(no_semicolon(columns[i].0) && no_semicolon(columns[i].1));
            assert(all[i] == column_line(name, kind, widest(columns)));
        } else {
            assert(all[i] == more[i - lines.len()]);
        }
    }
    lemma_join_plain(all, ",\n"@);
}

proof fn lemma_additions_plain(columns: Pairs)
    requires
        none_in(columns),
    ensures
        forall|i: int|
            0 <= i < add_columns(columns).len() ==> no_semicolon(#[trigger] add_columns(columns)[i]),
    decreases columns.len(),
{
    if columns.len() > 0 {
        let front = columns.drop_last();
        assert forall|i: int| 0 <= i < front.len() implies no_semicolon((#[trigger] front[i]).0)
            && no_semicolon(front[i].1) by {
            assert(front[i] == columns[i]);
        }
        lemma_additions_plain(front);
        reveal_strlit("ADD COLUMN IF NOT EXISTS `");
        reveal_strlit("` ");
        let last = columns[columns.len() - 1];
        assert(no_semicolon(last.0) && no_semicolon(last.1));
        assert forall|i: int| 0 <= i < add_columns(columns).len() implies no_semicolon(
            #[trigger] add_columns(columns)[i],
        ) by {
            if i < add_columns(front).len() {
                assert(add_columns(columns)[i] == add_columns(front)[i]);
            }
        }
    }
}

proof fn lemma_modifications_plain(zone: Option<Seq<char>>)
    requires
        zone matches Some(name) ==> no_semicolon(name),
    ensures
        forall|i: int|
            0 <= i < modify_timestamps(zone).len() ==> no_semicolon(
                #[trigger] modify_timestamps(zone)[i],
            ),
{
    lemma_times_plain(zone);
    lemma_types_plain();
    reveal_strlit("MODIFY COLUMN `timestamp` ");
    reveal_strlit("MODIFY COLUMN `events.timestamp` Array(");
}

proof fn lemma_places_plain(sink: SinkModel)
    requires
        is_plain(sink),
    ensures
        no_semicolon(local_name(sink.table)),
        no_semicolon(scope_text(sink)),
        no_semicolon(qualified(sink.database, sink.table)),
        no_semicolon(qualified(sink.database, local_name(sink.table))),
{
    reveal_strlit("_local");
    reveal_strlit("");
    reveal_strlit(" ON CLUSTER `");
    reveal_strlit("`");
    reveal_strlit("`.`");
}

proof fn lemma_alteration_plain(
    sink: SinkModel,
    columns: Pairs,
    table: Seq<char>,
    with_index: bool,
)
    requires
        is_plain(sink),
        none_in(columns),
        no_semicolon(qualified(sink.database, table)),
    ensures
        no_semicolon(alteration(sink, columns, table, with_index)),
{
    let added = add_columns(columns);
    let indexed: Seq<Seq<char>> = if with_index {
        index_lines("ADD INDEX IF NOT EXISTS `"@)
    } else {
        Seq::empty()
    };
    let modified = modify_timestamps(sink.zone);
    let all = alter_actions(columns, sink.zone, with_index);
    lemma_additions_plain(columns);
    reveal_strlit("ADD INDEX IF NOT EXISTS `");
    lemma_index_lines_plain("ADD INDEX IF NOT EXISTS `"@);
    lemma_modifications_plain(sink.zone);
    assert forall|i: int| 0 <= i < all.len() implies no_semicolon(#[trigger] all[i]) by {
        if i < added.len() {
            assert(all[i] == added[i]);
        } else if i < added.len() + indexed.len() {
            assert(all[i] == indexed[i - added.len()]);
        } else {
            assert(all[i] == modified[i - added.len() - indexed.len()]);
        }
    }
    reveal_strlit(",\n    ");
    lemma_join_plain(all, ",\n    "@);
    lemma_places_plain(sink);
    reveal_strlit("ALTER TABLE ");
    reveal_strlit("\n    ");
}

proof fn lemma_storage_plain(sink: SinkModel)
    requires
        is_plain(sink),
    ensures
        no_semicolon(storage_text(sink)),
{
    lemma_places_plain(sink);
    reveal_strlit("PARTITION BY toDate(`timestamp`)\nORDER BY (`service_name`, `span_name`, toDateTime(`timestamp`))\nTTL toDateTime(`timestamp`) + INTERVAL 30 DAY");
    assert(no_semicolon(table_layout()));
    reveal_strlit("\n)\nENGINE = MergeTree\n");
    reveal_strlit("\n)\nENGINE = ReplicatedMergeTree('/clickhouse/tables/{shard}/");
    reveal_strlit("/");
    reveal_strlit("', '{replica}')\n");
}

proof fn lemma_creation_plain(sink: SinkModel, columns: Pairs)
    requires
        is_plain(sink),
        none_in(columns),
    ensures
        no_semicolon(creation(sink, columns)),
{
    lemma_places_plain(sink);
    lemma_storage_plain(sink);
    lemma_body_plain(columns);
    reveal_strlit("CREATE TABLE IF NOT EXISTS ");
    reveal_strlit("\n(\n");
    assert(no_semicolon(qualified(sink.database, storing_table(sink))));
}

proof fn lemma_distribution_plain(sink: SinkModel, cluster: Seq<char>)
    requires
        is_plain(sink),
        sink.cluster == Some(cluster),
    ensures
        no_semicolon(distribution(sink, cluster)),
{
    lemma_places_plain(sink);
    assert(no_semicolon(on_cluster_text(cluster)));
    reveal_strlit("CREATE TABLE IF NOT EXISTS ");
    reveal_strlit("\nAS ");
    reveal_strlit("\nENGINE = Distributed(`");
    reveal_strlit("`, `");
    reveal_strlit("`, cityHash64(`trace_id`))");
}

/// Where no name and no type has a semicolon in it, the semicolons are what stands between the
/// statements: cut at them, the text comes apart into the statements, each but the first after a
/// blank line. So there is none at the end.
pub proof fn lemma_ddl_comes_apart(sink: SinkModel, extra: Pairs)
    requires
        names_are_plain(sink, extra),
        zone_is_named(sink),
    ensures
        split(ddl_text(sink, extra), ';') == cut(statements(sink, table_columns(sink, extra))),
{
    if sink.zone is Some {
        let zone = sink.zone->Some_0;
        assert forall|i: int| 0 <= i < zone.len() implies #[trigger] zone[i] != ';' by {
            assert(is_zone_char(zone[i]));
        }
    }
    let columns = table_columns(sink, extra);
    let all = statements(sink, columns);
    lemma_base_columns_plain(sink.zone);
    lemma_with_columns_plain(base_columns(sink.zone), extra);
    lemma_places_plain(sink);
    lemma_creation_plain(sink, columns);
    lemma_alteration_plain(sink, columns, storing_table(sink), true);
    lemma_alteration_plain(sink, columns, sink.table, false);
    if sink.cluster is Some {
        lemma_distribution_plain(sink, sink.cluster->Some_0);
    }
    lemma_statements_come_apart(all);
}

/// The pieces that statements without semicolons come apart into.
proof fn lemma_statements_come_apart(all: Seq<Seq<char>>)
    requires
        all.len() > 0,
        forall|i: int| 0 <= i < all.len() ==> no_semicolon(#[trigger] all[i]),
    ensures
        split(join(all, ";\n\n"@), ';') == cut(all),
    decreases all.len(),
{
    reveal_strlit(";\n\n");
    reveal_strlit("\n\n");
    let pieces = cut(all);
    if all.len() == 1 {
        assert(no_semicolon(all[0]));
        lemma_split_none(all[0], ';');
        assert(pieces =~= seq![all[0]]);
    } else {
        let front = all.drop_last();
        let last = all[all.len() - 1];
        assert(no_semicolon(last));
        assert forall|i: int| 0 <= i < front.len() implies no_semicolon(#[trigger] front[i]) by {
            assert(front[i] == all[i]);
        }
        lemma_statements_come_apart(front);
        let head = join(front, ";\n\n"@);
        let tail = "\n\n"@ + last;
        assert(head + ";\n\n"@ + last =~= head.push(';') + tail);
        lemma_split_at(head, ';', tail);
        lemma_split_none(tail, ';');
        assert(pieces =~= pieces.drop_last() + seq![tail]);
        assert(split(head, ';') =~= pieces.drop_last());
    }
}

} // verus!
