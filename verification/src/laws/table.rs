//! The table: what the statements that create it and bring it up to date say.

use vstd::prelude::*;
use vstd::utf8::encode_utf8;

use crate::sink::clickhouse::{
    add_columns, alter_actions, alteration, base_columns, column_line, column_lines, creation,
    distribution, index_lines, indexes, modify_timestamps, names, statements, storage_text,
    table_body, table_columns, table_layout, widest, with_columns, Pairs, SinkModel,
};
use crate::sink::statements::begins;
use crate::text::{contains, join, lemma_join_contains, spaces};

verus! {

/// `s` ends with `tail`.
pub open spec fn ends(s: Seq<char>, tail: Seq<char>) -> bool {
    tail.len() <= s.len() && s.skip(s.len() - tail.len()) == tail
}

/// What stands in `s` between a beginning and an end of it.
pub open spec fn between(s: Seq<char>, head: Seq<char>, tail: Seq<char>) -> Seq<char> {
    s.subrange(head.len() as int, s.len() - tail.len())
}

proof fn lemma_ends(head: Seq<char>, tail: Seq<char>)
    ensures
        begins(head + tail, head),
        ends(head + tail, tail),
{
    assert((head + tail).take(head.len() as int) =~= head);
    assert((head + tail).skip(head.len() as int) =~= tail);
}

// ---------------------------------------------------------------------------------------------
// The statements
// ---------------------------------------------------------------------------------------------

/// The sink on a single node.
pub open spec fn alone(sink: SinkModel) -> SinkModel {
    SinkModel { cluster: None, ..sink }
}

/// How the statement begins that creates the table that holds the rows.
pub open spec fn creation_head(sink: SinkModel) -> Seq<char> {
    "CREATE TABLE IF NOT EXISTS `"@ + sink.database + "`.`"@ + sink.table + match sink.cluster {
        Some(cluster) => "_local` ON CLUSTER `"@ + cluster + "`\n(\n"@,
        None => "`\n(\n"@,
    }
}

/// How the rows are divided up and sorted, and how long they stay.
pub open spec fn by_day_service_and_name() -> Seq<char> {
    "PARTITION BY toDate(`timestamp`)"@
        + "\nORDER BY (`service_name`, `span_name`, toDateTime(`timestamp`))"@
        + "\nTTL toDateTime(`timestamp`) + INTERVAL 30 DAY"@
}

/// How the statement ends that creates the table that holds the rows.
pub open spec fn creation_tail(sink: SinkModel) -> Seq<char> {
    (match sink.cluster {
        Some(_) => "\n)\nENGINE = ReplicatedMergeTree('/clickhouse/tables/{shard}/"@
            + sink.database + "/"@ + sink.table + "_local', '{replica}')\n"@,
        None => "\n)\nENGINE = MergeTree\n"@,
    }) + by_day_service_and_name()
}

#[verifier::spinoff_prover]
#[verifier::rlimit(40)]
proof fn lemma_layout()
    ensures
        by_day_service_and_name() == table_layout(),
{
    reveal_strlit("PARTITION BY toDate(`timestamp`)");
    reveal_strlit("\nORDER BY (`service_name`, `span_name`, toDateTime(`timestamp`))");
    reveal_strlit("\nTTL toDateTime(`timestamp`) + INTERVAL 30 DAY");
    reveal_strlit(
        "PARTITION BY toDate(`timestamp`)\nORDER BY (`service_name`, `span_name`, toDateTime(`timestamp`))\nTTL toDateTime(`timestamp`) + INTERVAL 30 DAY",
    );
    assert(by_day_service_and_name() =~= table_layout());
}

#[verifier::spinoff_prover]
#[verifier::rlimit(40)]
proof fn lemma_creation_parts(sink: SinkModel, columns: Pairs)
    ensures
        creation(sink, columns) == creation_head(sink) + table_body(columns)
            + creation_tail(sink),
{
    let body = table_body(columns);
    lemma_layout();
    reveal_strlit("CREATE TABLE IF NOT EXISTS ");
    reveal_strlit("CREATE TABLE IF NOT EXISTS `");
    reveal_strlit("`");
    reveal_strlit("_local");
    reveal_strlit("_local` ON CLUSTER `");
    reveal_strlit(" ON CLUSTER `");
    reveal_strlit("`\n(\n");
    reveal_strlit("\n(\n");
    reveal_strlit("', '{replica}')\n");
    reveal_strlit("_local', '{replica}')\n");
    reveal_strlit("");
    assert(storage_text(sink) =~= creation_tail(sink));
    assert(creation(sink, columns) =~= creation_head(sink) + body + creation_tail(sink));
}

/// The first statement creates the table that holds the rows: under its own name on a single node,
/// and under that name with `_local` behind it, on every node, on a cluster.
pub proof fn lemma_the_storing_table_is_created_first(sink: SinkModel, extra: Pairs)
    ensures
        ({
            let first = statements(sink, table_columns(sink, extra))[0];
            begins(first, creation_head(sink))
        }),
{
    let columns = table_columns(sink, extra);
    let body = table_body(columns);
    lemma_creation_parts(sink, columns);
    lemma_ends(creation_head(sink), body + creation_tail(sink));
    assert(creation_head(sink) + body + creation_tail(sink) =~= creation_head(sink) + (body
        + creation_tail(sink)));
}

/// With a cluster or without, the table that holds the rows is divided up by day, sorted by
/// service, name and time, and rows stay in it for 30 days; on a cluster each shard keeps copies.
pub proof fn lemma_the_storing_table_is_laid_out(sink: SinkModel, extra: Pairs)
    ensures
        ({
            let first = statements(sink, table_columns(sink, extra))[0];
            &&& ends(first, by_day_service_and_name())
            &&& sink.cluster is None ==> ends(
                first,
                "\n)\nENGINE = MergeTree\n"@ + by_day_service_and_name(),
            )
            &&& sink.cluster is Some ==> ends(
                first,
                "\n)\nENGINE = ReplicatedMergeTree('/clickhouse/tables/{shard}/"@ + sink.database
                    + "/"@ + sink.table + "_local', '{replica}')\n"@ + by_day_service_and_name(),
            )
        }),
{
    let columns = table_columns(sink, extra);
    let body = table_body(columns);
    let head = creation_head(sink) + body;
    let layout = by_day_service_and_name();
    let tail = creation_tail(sink);
    let engine = tail.take(tail.len() - layout.len());
    lemma_creation_parts(sink, columns);
    lemma_ends(head, tail);
    assert(tail =~= engine + layout);
    assert(head + tail =~= (head + engine) + layout);
    lemma_ends(head + engine, layout);
}

/// A cluster changes nothing about the columns and the indexes of the table that holds the rows:
/// what stands in the brackets of the first statement is the same as on a single node.
pub proof fn lemma_a_cluster_has_the_same_columns(sink: SinkModel, extra: Pairs)
    ensures
        ({
            let here = statements(sink, table_columns(sink, extra))[0];
            let single = statements(alone(sink), table_columns(alone(sink), extra))[0];
            between(here, creation_head(sink), creation_tail(sink)) == between(
                single,
                creation_head(alone(sink)),
                creation_tail(alone(sink)),
            )
        }),
{
    let columns = table_columns(sink, extra);
    let body = table_body(columns);
    lemma_creation_parts(sink, columns);
    lemma_creation_parts(alone(sink), columns);
    assert(between(creation(sink, columns), creation_head(sink), creation_tail(sink)) =~= body);
    assert(between(
        creation(alone(sink), columns),
        creation_head(alone(sink)),
        creation_tail(alone(sink)),
    ) =~= body);
}

/// On a cluster the second statement creates, on every node, the table that distributes the rows:
/// under the name that is configured, like the table that holds them, and among the nodes of the
/// cluster by the hash of the trace, so that a trace stays together.
#[verifier::spinoff_prover]
#[verifier::rlimit(40)]
pub proof fn lemma_rows_are_distributed_by_trace(sink: SinkModel, extra: Pairs)
    requires
        sink.cluster is Some,
    ensures
        ({
            let second = statements(sink, table_columns(sink, extra))[1];
            let cluster = sink.cluster->0;
            &&& begins(
                second,
                "CREATE TABLE IF NOT EXISTS `"@ + sink.database + "`.`"@ + sink.table
                    + "` ON CLUSTER `"@ + cluster + "`\nAS `"@ + sink.database + "`.`"@ + sink.table
                    + "_local`\n"@,
            )
            &&& ends(
                second,
                "_local`\nENGINE = Distributed(`"@ + cluster + "`, `"@ + sink.database + "`, `"@
                    + sink.table + "_local`, cityHash64(`trace_id`))"@,
            )
        }),
{
    let cluster = sink.cluster->0;
    let whole = distribution(sink, cluster);
    let front = "CREATE TABLE IF NOT EXISTS `"@ + sink.database + "`.`"@ + sink.table
        + "` ON CLUSTER `"@ + cluster + "`\nAS `"@ + sink.database + "`.`"@ + sink.table;
    let back = "ENGINE = Distributed(`"@ + cluster + "`, `"@ + sink.database + "`, `"@ + sink.table
        + "_local`, cityHash64(`trace_id`))"@;
    let middle = "_local`\n"@;
    reveal_strlit("CREATE TABLE IF NOT EXISTS ");
    reveal_strlit("CREATE TABLE IF NOT EXISTS `");
    reveal_strlit("`");
    reveal_strlit("_local");
    reveal_strlit("_local`\n");
    reveal_strlit(" ON CLUSTER `");
    reveal_strlit("` ON CLUSTER `");
    reveal_strlit("`\nAS `");
    reveal_strlit("\nAS ");
    reveal_strlit("\nENGINE = Distributed(`");
    reveal_strlit("ENGINE = Distributed(`");
    reveal_strlit("_local`\nENGINE = Distributed(`");
    reveal_strlit("`, cityHash64(`trace_id`))");
    reveal_strlit("_local`, cityHash64(`trace_id`))");
    assert(whole =~= front + middle + back);
    let tail = "_local`\nENGINE = Distributed(`"@ + cluster + "`, `"@ + sink.database + "`, `"@
        + sink.table + "_local`, cityHash64(`trace_id`))"@;
    assert(whole =~= front + tail);
    lemma_ends(front + middle, back);
    lemma_ends(front, tail);
}

/// The name of a table in its database, and where on a cluster a statement is run.
pub open spec fn target(sink: SinkModel, table: Seq<char>) -> Seq<char> {
    "`"@ + sink.database + "`.`"@ + table + match sink.cluster {
        Some(cluster) => "` ON CLUSTER `"@ + cluster + "`"@,
        None => "`"@,
    }
}

/// A statement that brings a table up to date names that table, and runs on every node of the
/// cluster if there is one. What it does then follows, each action on a line of its own.
#[verifier::spinoff_prover]
#[verifier::rlimit(40)]
pub proof fn lemma_alterations_name_their_table(
    sink: SinkModel,
    columns: Pairs,
    table: Seq<char>,
    with_index: bool,
)
    ensures
        alteration(sink, columns, table, with_index) == "ALTER TABLE "@ + target(sink, table)
            + "\n    "@ + join(alter_actions(columns, sink.zone, with_index), ",\n    "@),
{
    reveal_strlit("`");
    reveal_strlit(" ON CLUSTER `");
    reveal_strlit("` ON CLUSTER `");
    reveal_strlit("");
    let actions = join(alter_actions(columns, sink.zone, with_index), ",\n    "@);
    assert(alteration(sink, columns, table, with_index) =~= "ALTER TABLE "@ + target(sink, table)
        + "\n    "@ + actions);
}

/// The last statements bring the tables up to date: the one that holds the rows with its indexes,
/// and on a cluster after it the one that distributes them, which can have none.
pub proof fn lemma_every_table_is_brought_up_to_date(sink: SinkModel, extra: Pairs)
    ensures
        ({
            let columns = table_columns(sink, extra);
            let all = statements(sink, columns);
            match sink.cluster {
                None => all.len() == 2 && all[1] == alteration(sink, columns, sink.table, true),
                Some(_) => {
                    &&& all.len() == 4
                    &&& all[2] == alteration(sink, columns, sink.table + "_local"@, true)
                    &&& all[3] == alteration(sink, columns, sink.table, false)
                },
            }
        }),
{
}

// ---------------------------------------------------------------------------------------------
// Columns
// ---------------------------------------------------------------------------------------------

/// Where the table shows its times in a zone, the columns of times carry its name; all the other
/// columns are what they are without a zone, and each column keeps its name.
#[verifier::spinoff_prover]
#[verifier::rlimit(40)]
pub proof fn lemma_a_zone_changes_only_the_times(zone: Seq<char>, i: int)
    requires
        0 <= i < base_columns(None).len(),
    ensures
        base_columns(Some(zone)).len() == base_columns(None).len(),
        ({
            let (name, kind) = base_columns(Some(zone))[i];
            let (plain_name, plain_kind) = base_columns(None)[i];
            &&& name == plain_name
            &&& if i == 0 {
                name == "timestamp"@ && kind == "DateTime64(9, '"@ + zone + "')"@ && plain_kind
                    == "DateTime64(9)"@
            } else if i == 15 {
                name == "events.timestamp"@ && kind == "Array(DateTime64(9, '"@ + zone + "'))"@
                    && plain_kind == "Array(DateTime64(9))"@
            } else {
                kind == plain_kind
            }
        }),
{
    reveal_strlit("Array(");
    reveal_strlit(")");
    reveal_strlit("')");
    reveal_strlit("'))");
    reveal_strlit("DateTime64(9, '");
    reveal_strlit("DateTime64(9)");
    reveal_strlit("Array(DateTime64(9, '");
    reveal_strlit("Array(DateTime64(9))");
    assert("Array("@ + ("DateTime64(9, '"@ + zone + "')"@) + ")"@ =~= "Array(DateTime64(9, '"@
        + zone + "'))"@);
    assert("Array("@ + "DateTime64(9)"@ + ")"@ =~= "Array(DateTime64(9))"@);
    let shown = base_columns(Some(zone));
    let plain = base_columns(None);
    assert(shown[0].1 == "DateTime64(9, '"@ + zone + "')"@);
    assert(plain[0].1 == "DateTime64(9)"@);
    assert(shown[15].1 == "Array("@ + ("DateTime64(9, '"@ + zone + "')"@) + ")"@);
    assert(plain[15].1 == "Array("@ + "DateTime64(9)"@ + ")"@);
}

/// A column for the timed events or the links of a span is an array of what the column of the same
/// sort is for the span itself.
#[verifier::spinoff_prover]
#[verifier::rlimit(40)]
pub proof fn lemma_nested_columns_are_arrays(zone: Option<Seq<char>>)
    ensures
        ({
            let columns = base_columns(zone);
            &&& columns[15] == ("events.timestamp"@, "Array("@ + columns[0].1 + ")"@)
            &&& columns[16] == ("events.name"@, "Array("@ + columns[5].1 + ")"@)
            &&& columns[17] == ("events.attributes"@, "Array("@ + columns[14].1 + ")"@)
            &&& columns[18] == ("links.trace_id"@, "Array("@ + columns[1].1 + ")"@)
            &&& columns[19] == ("links.span_id"@, "Array("@ + columns[2].1 + ")"@)
            &&& columns[20] == ("links.trace_state"@, "Array("@ + columns[4].1 + ")"@)
            &&& columns[21] == ("links.attributes"@, "Array("@ + columns[14].1 + ")"@)
            &&& columns[13] == ("resource_attributes"@, columns[14].1)
            &&& columns[8] == ("duration_ns"@, "UInt64"@)
        }),
{
    reveal_strlit("Array(");
    reveal_strlit(")");
    reveal_strlit("String");
    reveal_strlit("LowCardinality(String)");
    reveal_strlit("Map(LowCardinality(String), String)");
    reveal_strlit("Array(LowCardinality(String))");
    reveal_strlit("Array(Map(LowCardinality(String), String))");
    reveal_strlit("Array(String)");
    assert("Array("@ + "LowCardinality(String)"@ + ")"@ =~= "Array(LowCardinality(String))"@);
    assert("Array("@ + "Map(LowCardinality(String), String)"@ + ")"@
        =~= "Array(Map(LowCardinality(String), String))"@);
    assert("Array("@ + "String"@ + ")"@ =~= "Array(String)"@);
}

/// The first pair of a list with its name.
pub open spec fn leads(list: Pairs, i: int) -> bool {
    0 <= i < list.len() && forall|j: int| 0 <= j < i ==> (#[trigger] list[j]).0 != list[i].0
}

/// A table has the columns that every table has, in their order, and behind them those for fields,
/// each with its own type: every one whose name no column has yet, and no other.
pub proof fn lemma_columns_for_fields_come_last(base: Pairs, extra: Pairs)
    ensures
        with_columns(base, extra).len() >= base.len(),
        with_columns(base, extra).take(base.len() as int) == base,
        forall|k: int|
            base.len() <= k < with_columns(base, extra).len() ==> extra.contains(
                #[trigger] with_columns(base, extra)[k],
            ) && !names(base, with_columns(base, extra)[k].0),
        forall|i: int|
            #[trigger] leads(extra, i) && !names(base, extra[i].0) ==> with_columns(
                base,
                extra,
            ).contains(extra[i]),
        forall|i: int, j: int|
            base.len() <= i < j < with_columns(base, extra).len() ==> (#[trigger] with_columns(
                base,
                extra,
            )[i]).0 != (#[trigger] with_columns(base, extra)[j]).0,
    decreases extra.len(),
{
    let all = with_columns(base, extra);
    if extra.len() == 0 {
        assert(all.take(base.len() as int) =~= base);
    } else {
        let less = extra.drop_last();
        let sofar = with_columns(base, less);
        let last = extra.last();
        lemma_columns_for_fields_come_last(base, less);
        assert(all.take(base.len() as int) =~= sofar.take(base.len() as int));
        assert forall|k: int| base.len() <= k < all.len() implies extra.contains(
            #[trigger] all[k],
        ) && !names(base, all[k].0) by {
            if k < sofar.len() {
                assert(all[k] == sofar[k]);
                let m = choose|m: int| 0 <= m < less.len() && less[m] == sofar[k];
                assert(extra[m] == all[k]);
            } else {
                assert(extra[extra.len() - 1] == all[k]);
                if names(base, last.0) {
                    let b = choose|b: int| 0 <= b < base.len() && (#[trigger] base[b]).0 == last.0;
                    assert(sofar.take(base.len() as int)[b] == base[b]);
                    assert(sofar[b].0 == last.0);
                }
            }
        }
        assert forall|i: int|
            #[trigger] leads(extra, i) && !names(base, extra[i].0) implies all.contains(
            extra[i],
        ) by {
            if i < less.len() {
                assert forall|j: int| 0 <= j < i implies (#[trigger] less[j]).0 != less[i].0 by {
                    assert(less[j] == extra[j]);
                }
                assert(leads(less, i));
                let m = choose|m: int| 0 <= m < sofar.len() && sofar[m] == less[i];
                assert(all[m] == extra[i]);
            } else if names(sofar, last.0) {
                let m = choose|m: int| 0 <= m < sofar.len() && (#[trigger] sofar[m]).0 == last.0;
                if m < base.len() {
                    assert(sofar.take(base.len() as int)[m] == base[m]);
                    assert(base[m].0 == last.0);
                } else {
                    let n = choose|n: int| 0 <= n < less.len() && less[n] == sofar[m];
                    assert(extra[n].0 == last.0);
                }
            } else {
                assert(all[all.len() - 1] == extra[i]);
            }
        }
        assert forall|i: int, j: int| base.len() <= i < j < all.len() implies (
        #[trigger] all[i]).0 != (#[trigger] all[j]).0 by {
            assert(all[i] == sofar[i]);
            if j < sofar.len() {
                assert(all[j] == sofar[j]);
            }
        }
    }
}

/// The widest name is as wide as some name and no name is wider.
pub proof fn lemma_widest(columns: Pairs)
    ensures
        forall|i: int|
            0 <= i < columns.len() ==> encode_utf8((#[trigger] columns[i]).0).len() <= widest(
                columns,
            ),
        columns.len() > 0 ==> exists|i: int|
            0 <= i < columns.len() && encode_utf8((#[trigger] columns[i]).0).len() == widest(
                columns,
            ),
    decreases columns.len(),
{
    if columns.len() > 0 {
        let front = columns.drop_last();
        lemma_widest(front);
        assert forall|i: int| 0 <= i < columns.len() implies encode_utf8(
            (#[trigger] columns[i]).0,
        ).len() <= widest(columns) by {
            if i < front.len() {
                assert(front[i] == columns[i]);
            }
        }
        let last = columns.len() - 1;
        if encode_utf8(columns[last].0).len() == widest(columns) {
        } else {
            let m = choose|m: int|
                0 <= m < front.len() && encode_utf8((#[trigger] front[m]).0).len() == widest(
                    front,
                );
            assert(columns[m] == front[m]);
        }
    }
}

/// The line of a column begins with its name in quotation marks and ends with its type, and the
/// types of all columns begin in the same place behind the bytes of the names.
pub proof fn lemma_lines_of_columns(name: Seq<char>, kind: Seq<char>, width: nat)
    requires
        encode_utf8(name).len() <= width,
    ensures
        ({
            let line = column_line(name, kind, width);
            &&& begins(line, "    `"@ + name + "` "@)
            &&& ends(line, " "@ + kind)
            &&& line.len() - kind.len() - name.len() + encode_utf8(name).len() == width + 7
            &&& forall|i: int|
                6 + name.len() <= i < line.len() - kind.len() ==> #[trigger] line[i] == ' '
        }),
{
    let line = column_line(name, kind, width);
    let pad = spaces((width - encode_utf8(name).len()) as nat);
    let head = "    `"@ + name + "` "@;
    reveal_strlit("    `");
    reveal_strlit("`");
    reveal_strlit("` ");
    reveal_strlit(" ");
    assert(line.take(head.len() as int) =~= head);
    assert(line =~= ("    `"@ + name + "`"@ + pad) + (" "@ + kind));
    lemma_ends("    `"@ + name + "`"@ + pad, " "@ + kind);
}

/// The statements that bring a table up to date add every column but the first, each once and with
/// its type, in their order.
pub proof fn lemma_additions_are_the_columns(columns: Pairs)
    ensures
        add_columns(columns) == columns.filter(
            |column: (Seq<char>, Seq<char>)| column.0 != "timestamp"@,
        ).map_values(
            |column: (Seq<char>, Seq<char>)|
                "ADD COLUMN IF NOT EXISTS `"@ + column.0 + "` "@ + column.1,
        ),
    decreases columns.len(),
{
    reveal(Seq::filter);
    let keep = |column: (Seq<char>, Seq<char>)| column.0 != "timestamp"@;
    let say = |column: (Seq<char>, Seq<char>)|
        "ADD COLUMN IF NOT EXISTS `"@ + column.0 + "` "@ + column.1;
    if columns.len() > 0 {
        lemma_additions_are_the_columns(columns.drop_last());
    }
    assert(add_columns(columns) =~= columns.filter(keep).map_values(say));
}

/// Whichever index a new table gets, a table that lacks it gets too, and the same one.
pub proof fn lemma_indexes_are_added_as_they_are_created(i: int)
    requires
        0 <= i < indexes().len(),
    ensures
        ({
            let created = index_lines("    INDEX `"@)[i];
            let added = index_lines("ADD INDEX IF NOT EXISTS `"@)[i];
            &&& begins(created, "    INDEX `"@ + indexes()[i].0 + "` "@)
            &&& begins(added, "ADD INDEX IF NOT EXISTS `"@ + indexes()[i].0 + "` "@)
            &&& ends(created, "` "@ + indexes()[i].1)
            &&& created.skip("    INDEX `"@.len() as int) == added.skip(
                "ADD INDEX IF NOT EXISTS `"@.len() as int,
            )
        }),
{
    let (name, text) = indexes()[i];
    let created = index_lines("    INDEX `"@)[i];
    let added = index_lines("ADD INDEX IF NOT EXISTS `"@)[i];
    assert(created =~= "    INDEX `"@ + name + "` "@ + text);
    assert(added =~= "ADD INDEX IF NOT EXISTS `"@ + name + "` "@ + text);
    lemma_ends("    INDEX `"@ + name + "` "@, text);
    lemma_ends("ADD INDEX IF NOT EXISTS `"@ + name + "` "@, text);
    assert(created =~= ("    INDEX `"@ + name) + ("` "@ + text));
    lemma_ends("    INDEX `"@ + name, "` "@ + text);
    assert(created.skip("    INDEX `"@.len() as int) =~= name + "` "@ + text);
    assert(added.skip("ADD INDEX IF NOT EXISTS `"@.len() as int) =~= name + "` "@ + text);
}

/// With a zone the columns of times of a table that is there get the types that they have in a new
/// one; without a zone their types are left alone.
#[verifier::spinoff_prover]
pub proof fn lemma_times_get_the_types_of_a_new_table(zone: Option<Seq<char>>)
    ensures
        zone is None ==> modify_timestamps(zone).len() == 0,
        zone is Some ==> {
            let columns = base_columns(zone);
            modify_timestamps(zone) == seq![
                "MODIFY COLUMN `"@ + columns[0].0 + "` "@ + columns[0].1,
                "MODIFY COLUMN `"@ + columns[15].0 + "` "@ + columns[15].1,
            ]
        },
{
    reveal_strlit("MODIFY COLUMN `timestamp` ");
    reveal_strlit("MODIFY COLUMN `");
    reveal_strlit("timestamp");
    reveal_strlit("events.timestamp");
    reveal_strlit("` ");
    reveal_strlit("MODIFY COLUMN `events.timestamp` Array(");
    reveal_strlit("Array(");
    if zone is Some {
        let columns = base_columns(zone);
        let all = modify_timestamps(zone);
        assert(all[0] =~= "MODIFY COLUMN `"@ + columns[0].0 + "` "@ + columns[0].1);
        assert(all[1] =~= "MODIFY COLUMN `"@ + columns[15].0 + "` "@ + columns[15].1);
        assert(all =~= seq![all[0], all[1]]);
    }
}

/// What brings a table up to date: first the columns, then, where they are wanted, the indexes,
/// then the types of the times.
pub proof fn lemma_actions_in_order(columns: Pairs, zone: Option<Seq<char>>, with_index: bool)
    ensures
        ({
            let actions = alter_actions(columns, zone, with_index);
            let n = add_columns(columns).len() as int;
            let m = n + if with_index {
                indexes().len()
            } else {
                0
            };
            &&& actions.len() == m + modify_timestamps(zone).len()
            &&& actions.take(n) == add_columns(columns)
            &&& with_index ==> actions.subrange(n, m) == index_lines("ADD INDEX IF NOT EXISTS `"@)
            &&& actions.skip(m) == modify_timestamps(zone)
        }),
{
    let actions = alter_actions(columns, zone, with_index);
    let n = add_columns(columns).len() as int;
    let m = n + if with_index {
        indexes().len()
    } else {
        0
    };
    assert(actions.take(n) =~= add_columns(columns));
    if with_index {
        assert(actions.subrange(n, m) =~= index_lines("ADD INDEX IF NOT EXISTS `"@));
    }
    assert(actions.skip(m) =~= modify_timestamps(zone));
}

/// A new table has the lines of its columns, then those of its indexes, with a comma and a line
/// feed between each two.
pub proof fn lemma_brackets_hold_columns_and_indexes(columns: Pairs, i: int)
    ensures
        0 <= i < columns.len() ==> contains(
            table_body(columns),
            column_line(columns[i].0, columns[i].1, widest(columns)),
        ),
        0 <= i < indexes().len() ==> contains(
            table_body(columns),
            "    INDEX `"@ + indexes()[i].0 + "` "@ + indexes()[i].1,
        ),
{
    let columns_part = column_lines(columns, widest(columns));
    let lines = columns_part + index_lines("    INDEX `"@);
    if 0 <= i < columns.len() {
        lemma_join_contains(lines, ",\n"@, i);
        assert(lines[i] == column_line(columns[i].0, columns[i].1, widest(columns)));
    }
    if 0 <= i < indexes().len() {
        lemma_join_contains(lines, ",\n"@, columns.len() + i);
        assert(lines[columns.len() + i] == "    INDEX `"@ + indexes()[i].0 + "` "@
            + indexes()[i].1);
    }
}

} // verus!
