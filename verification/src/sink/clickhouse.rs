//! ClickHouse over HTTP: rows in batches, as one JSON object on each line.
//!
//! The columns of the table are the members of a row. They are laid out like those of the
//! OpenTelemetry collector's exporter.

use std::time::Duration;

use chrono_tz::Tz;
use vstd::prelude::*;
use vstd::utf8::encode_utf8;

use crate::batch::nanos;
use crate::clock::{name_of, utc, zone_name};
use crate::compression::{gzip, gzipped, reads_back};
use crate::error::{io_context, Error, Failure, IoKind};
use crate::event::{base_cells, row_text, span_models, SpanEvent, SpanModel, WithZone};
use crate::json::is_json_line;
use crate::sink::statements::{cut, lemma_ddl_comes_apart, names_are_plain, zone_is_named};
use crate::text::{
    byte_len, bytes_of, chars_of, contains, decimal, join, joined, lemma_contains_in_sum,
    lemma_join_contains, push_decimal, push_spaces, same, spaces, split, split_trimmed, strip_end,
    texts, trim, trimmed, without_end,
};

verus! {

// ---------------------------------------------------------------------------------------------
// Lists
// ---------------------------------------------------------------------------------------------

/// Names, each with something that belongs to it.
pub type Pairs = Seq<(Seq<char>, Seq<char>)>;

/// What a list of pairs stands for.
pub open spec fn pairs(list: Seq<(String, String)>) -> Pairs {
    list.map_values(|pair: (String, String)| (pair.0@, pair.1@))
}

/// Appends a pair.
fn add_pair(list: &mut Vec<(String, String)>, name: &str, text: &str)
    ensures
        pairs(final(list)@) == pairs(old(list)@).push((name@, text@)),
{
    list.push((name.to_owned(), text.to_owned()));
    assert(pairs(list@) =~= pairs(old(list)@).push((name@, text@)));
}

/// Appends a line.
fn add_line(list: &mut Vec<String>, line: String)
    ensures
        texts(final(list)@) == texts(old(list)@).push(line@),
{
    list.push(line);
    assert(texts(list@) =~= texts(old(list)@).push(line@));
}

/// Some pair has the name `name`.
pub open spec fn names(list: Pairs, name: Seq<char>) -> bool {
    exists|i: int| 0 <= i < list.len() && (#[trigger] list[i]).0 == name
}

/// Whether some pair has the name `name`.
fn has_name(list: &Vec<(String, String)>, name: &str) -> (r: bool)
    ensures
        r == names(pairs(list@), name@),
{
    let mut i: usize = 0;
    while i < list.len()
        invariant
            i <= list@.len(),
            forall|k: int| 0 <= k < i ==> (#[trigger] pairs(list@)[k]).0 != name@,
        decreases list@.len() - i,
    {
        if same(list[i].0.as_str(), name) {
            assert(pairs(list@)[i as int].0 == name@);
            return true;
        }
        i += 1;
    }
    false
}

// ---------------------------------------------------------------------------------------------
// The table
// ---------------------------------------------------------------------------------------------

/// What a [`ClickhouseSink`] stands for.
pub ghost struct SinkModel {
    pub endpoint: Seq<char>,
    pub database: Seq<char>,
    pub table: Seq<char>,
    pub cluster: Option<Seq<char>>,
    pub zone: Option<Seq<char>>,
    pub extra: Pairs,
    pub user: Option<Seq<char>>,
    pub password: Option<Seq<char>>,
    pub timeout: nat,
    pub async_insert: bool,
    pub compress: bool,
}

/// The type of a column of times.
pub open spec fn timestamp_type(zone: Option<Seq<char>>) -> Seq<char> {
    match zone {
        Some(name) => "DateTime64(9, '"@ + name + "')"@,
        None => "DateTime64(9)"@,
    }
}

/// The columns that every table has, with their types, in their order.
pub open spec fn base_columns(zone: Option<Seq<char>>) -> Pairs {
    seq![
        ("timestamp"@, timestamp_type(zone)),
        ("trace_id"@, "String"@),
        ("span_id"@, "String"@),
        ("parent_span_id"@, "String"@),
        ("trace_state"@, "String"@),
        ("span_name"@, "LowCardinality(String)"@),
        ("span_kind"@, "LowCardinality(String)"@),
        ("service_name"@, "LowCardinality(String)"@),
        ("duration_ns"@, "UInt64"@),
        ("status_code"@, "LowCardinality(String)"@),
        ("status_message"@, "String"@),
        ("scope_name"@, "LowCardinality(String)"@),
        ("scope_version"@, "LowCardinality(String)"@),
        ("resource_attributes"@, "Map(LowCardinality(String), String)"@),
        ("span_attributes"@, "Map(LowCardinality(String), String)"@),
        ("events.timestamp"@, "Array("@ + timestamp_type(zone) + ")"@),
        ("events.name"@, "Array(LowCardinality(String))"@),
        ("events.attributes"@, "Array(Map(LowCardinality(String), String))"@),
        ("links.trace_id"@, "Array(String)"@),
        ("links.span_id"@, "Array(String)"@),
        ("links.trace_state"@, "Array(String)"@),
        ("links.attributes"@, "Array(Map(LowCardinality(String), String))"@),
    ]
}

/// The indexes that let a query skip what it does not look for: by trace, by the keys and values
/// of attributes and by duration.
pub open spec fn indexes() -> Pairs {
    seq![
        ("idx_trace_id"@, "`trace_id` TYPE bloom_filter GRANULARITY 4"@),
        (
            "idx_res_attr_key"@,
            "mapKeys(`resource_attributes`) TYPE bloom_filter(0.01) GRANULARITY 1"@,
        ),
        (
            "idx_res_attr_value"@,
            "mapValues(`resource_attributes`) TYPE bloom_filter(0.01) GRANULARITY 1"@,
        ),
        (
            "idx_span_attr_key"@,
            "mapKeys(`span_attributes`) TYPE bloom_filter(0.01) GRANULARITY 1"@,
        ),
        (
            "idx_span_attr_value"@,
            "mapValues(`span_attributes`) TYPE bloom_filter(0.01) GRANULARITY 1"@,
        ),
        ("idx_duration"@, "`duration_ns` TYPE minmax GRANULARITY 1"@),
    ]
}

/// The columns and those of `extra` whose names are new.
pub open spec fn with_columns(columns: Pairs, extra: Pairs) -> Pairs
    decreases extra.len(),
{
    if extra.len() == 0 {
        columns
    } else {
        let sofar = with_columns(columns, extra.drop_last());
        if names(sofar, extra.last().0) {
            sofar
        } else {
            sofar.push(extra.last())
        }
    }
}

/// How many bytes the longest of the names has.
pub open spec fn widest(columns: Pairs) -> nat
    decreases columns.len(),
{
    if columns.len() == 0 {
        0
    } else {
        let front = widest(columns.drop_last());
        let last = encode_utf8(columns.last().0).len();
        if last > front {
            last
        } else {
            front
        }
    }
}

/// A column in the list of columns of a table.
pub open spec fn column_line(name: Seq<char>, kind: Seq<char>, width: nat) -> Seq<char> {
    "    `"@ + name + "`"@ + spaces((width - encode_utf8(name).len()) as nat) + " "@ + kind
}

/// The columns in the list of columns of a table.
pub open spec fn column_lines(columns: Pairs, width: nat) -> Seq<Seq<char>> {
    columns.map_values(|column: (Seq<char>, Seq<char>)| column_line(column.0, column.1, width))
}

/// The indexes, each after the given words.
pub open spec fn index_lines(start: Seq<char>) -> Seq<Seq<char>> {
    indexes().map_values(|index: (Seq<char>, Seq<char>)| start + index.0 + "` "@ + index.1)
}

/// The columns and the indexes of a new table.
pub open spec fn table_body(columns: Pairs) -> Seq<char> {
    join(column_lines(columns, widest(columns)) + index_lines("    INDEX `"@), ",\n"@)
}

/// How the table is divided up and sorted, and how long rows stay in it.
pub open spec fn table_layout() -> Seq<char> {
    "PARTITION BY toDate(`timestamp`)\nORDER BY (`service_name`, `span_name`, toDateTime(`timestamp`))\nTTL toDateTime(`timestamp`) + INTERVAL 30 DAY"@
}

/// What adds the columns to a table that lacks them. The first one is never lacking.
pub open spec fn add_columns(columns: Pairs) -> Seq<Seq<char>>
    decreases columns.len(),
{
    if columns.len() == 0 {
        Seq::empty()
    } else {
        let front = add_columns(columns.drop_last());
        if columns.last().0 == "timestamp"@ {
            front
        } else {
            front.push(
                "ADD COLUMN IF NOT EXISTS `"@ + columns.last().0 + "` "@ + columns.last().1,
            )
        }
    }
}

/// What gives the columns of times their zone.
pub open spec fn modify_timestamps(zone: Option<Seq<char>>) -> Seq<Seq<char>> {
    if zone is Some {
        seq![
            "MODIFY COLUMN `timestamp` "@ + timestamp_type(zone),
            "MODIFY COLUMN `events.timestamp` Array("@ + timestamp_type(zone) + ")"@,
        ]
    } else {
        Seq::empty()
    }
}

/// All that brings a table up to date.
pub open spec fn alter_actions(
    columns: Pairs,
    zone: Option<Seq<char>>,
    with_index: bool,
) -> Seq<Seq<char>> {
    add_columns(columns) + (if with_index {
        index_lines("ADD INDEX IF NOT EXISTS `"@)
    } else {
        Seq::empty()
    }) + modify_timestamps(zone)
}

/// A table in its database.
pub open spec fn qualified(database: Seq<char>, table: Seq<char>) -> Seq<char> {
    "`"@ + database + "`.`"@ + table + "`"@
}

/// The statement that brings a table up to date.
pub open spec fn alter_text(
    target: Seq<char>,
    on_cluster: Seq<char>,
    actions: Seq<Seq<char>>,
) -> Seq<char> {
    "ALTER TABLE "@ + target + on_cluster + "\n    "@ + join(actions, ",\n    "@)
}

/// The name of the table that holds the rows, where the other one distributes them.
pub open spec fn local_name(table: Seq<char>) -> Seq<char> {
    table + "_local"@
}

/// What a statement for the whole cluster says.
pub open spec fn on_cluster_text(cluster: Seq<char>) -> Seq<char> {
    " ON CLUSTER `"@ + cluster + "`"@
}

/// The name of the table that holds the rows.
pub open spec fn storing_table(sink: SinkModel) -> Seq<char> {
    match sink.cluster {
        None => sink.table,
        Some(_) => local_name(sink.table),
    }
}

/// What a statement says about where it is to be run.
pub open spec fn scope_text(sink: SinkModel) -> Seq<char> {
    match sink.cluster {
        None => ""@,
        Some(cluster) => on_cluster_text(cluster),
    }
}

/// What follows the columns where the table that holds the rows is created.
pub open spec fn storage_text(sink: SinkModel) -> Seq<char> {
    match sink.cluster {
        None => "\n)\nENGINE = MergeTree\n"@ + table_layout(),
        Some(_) => "\n)\nENGINE = ReplicatedMergeTree('/clickhouse/tables/{shard}/"@
            + sink.database + "/"@ + local_name(sink.table) + "', '{replica}')\n"@
            + table_layout(),
    }
}

/// The statement that creates the table that holds the rows, where there is none.
pub open spec fn creation(sink: SinkModel, columns: Pairs) -> Seq<char> {
    "CREATE TABLE IF NOT EXISTS "@ + qualified(sink.database, storing_table(sink)) + scope_text(
        sink,
    ) + "\n(\n"@ + table_body(columns) + storage_text(sink)
}

/// The statement that creates the table that distributes the rows among the nodes of a cluster,
/// by their trace.
pub open spec fn distribution(sink: SinkModel, cluster: Seq<char>) -> Seq<char> {
    "CREATE TABLE IF NOT EXISTS "@ + qualified(sink.database, sink.table) + on_cluster_text(
        cluster,
    ) + "\nAS "@ + qualified(sink.database, local_name(sink.table))
        + "\nENGINE = Distributed(`"@ + cluster + "`, `"@ + sink.database + "`, `"@ + local_name(
        sink.table,
    ) + "`, cityHash64(`trace_id`))"@
}

/// The statement that brings a table up to date.
pub open spec fn alteration(
    sink: SinkModel,
    columns: Pairs,
    table: Seq<char>,
    with_index: bool,
) -> Seq<char> {
    alter_text(
        qualified(sink.database, table),
        scope_text(sink),
        alter_actions(columns, sink.zone, with_index),
    )
}

/// The statements that create the tables and bring them up to date. On a cluster the table that
/// holds the rows comes first, since the other one refers to it; and only it can have indexes.
pub open spec fn statements(sink: SinkModel, columns: Pairs) -> Seq<Seq<char>> {
    let stored = alteration(sink, columns, storing_table(sink), true);
    match sink.cluster {
        None => seq![creation(sink, columns), stored],
        Some(cluster) => seq![
            creation(sink, columns),
            distribution(sink, cluster),
            stored,
            alteration(sink, columns, sink.table, false),
        ],
    }
}

/// The columns of the table, of which `extra` are for fields.
pub open spec fn table_columns(sink: SinkModel, extra: Pairs) -> Pairs {
    with_columns(base_columns(sink.zone), extra)
}

/// The statements that create the table and bring it up to date, with a semicolon and a blank
/// line between each two.
pub open spec fn ddl_text(sink: SinkModel, extra: Pairs) -> Seq<char> {
    join(statements(sink, table_columns(sink, extra)), ";\n\n"@)
}

/// How spans get into ClickHouse.
pub struct ClickhouseSink {
    endpoint: String,
    database: String,
    table: String,
    cluster: Option<String>,
    timezone: Option<Tz>,
    extra_columns: Vec<(String, String)>,
    user: Option<String>,
    password: Option<String>,
    timeout: Duration,
    async_insert: bool,
    compress: bool,
}

/// What a text that may be missing stands for.
pub open spec fn optional_text(text: Option<String>) -> Option<Seq<char>> {
    match text {
        Some(text) => Some(text@),
        None => None,
    }
}

impl ClickhouseSink {
    pub closed spec fn view(&self) -> SinkModel {
        SinkModel {
            endpoint: self.endpoint@,
            database: self.database@,
            table: self.table@,
            cluster: optional_text(self.cluster),
            zone: match self.timezone {
                Some(tz) => Some(zone_name(tz)),
                None => None,
            },
            extra: pairs(self.extra_columns@),
            user: optional_text(self.user),
            password: optional_text(self.password),
            timeout: nanos(self.timeout),
            async_insert: self.async_insert,
            compress: self.compress,
        }
    }

    /// `endpoint` is an address such as `http://127.0.0.1:8123`.
    pub fn new(endpoint: &str, database: &str, table: &str) -> (r: ClickhouseSink)
        ensures
            r@ == (SinkModel {
                endpoint: without_end(endpoint@, '/'),
                database: database@,
                table: table@,
                cluster: None,
                zone: None,
                extra: Seq::empty(),
                user: None,
                password: None,
                timeout: 30_000_000_000,
                async_insert: false,
                compress: true,
            }),
    {
        let r = ClickhouseSink {
            endpoint: strip_end(endpoint, '/'),
            database: database.to_owned(),
            table: table.to_owned(),
            cluster: None,
            timezone: None,
            extra_columns: Vec::new(),
            user: None,
            password: None,
            timeout: Duration::from_secs(30),
            async_insert: false,
            compress: true,
        };
        assert(r@.extra =~= Seq::empty());
        r
    }

    /// The name of a cluster of ClickHouse. Rows still go to the same table.
    pub fn cluster(self, cluster: &str) -> (r: ClickhouseSink)
        ensures
            r@ == (SinkModel { cluster: Some(cluster@), ..self@ }),
    {
        ClickhouseSink { cluster: Some(cluster.to_owned()), ..self }
    }

    /// The zone in which times are shown. Which instant is stored does not depend on it.
    pub fn timezone(self, timezone: Tz) -> (r: ClickhouseSink)
        ensures
            r@ == (SinkModel { zone: Some(zone_name(timezone)), ..self@ }),
    {
        ClickhouseSink { timezone: Some(timezone), ..self }
    }

    /// Columns for fields, with their types.
    pub fn extra_columns(self, columns: Vec<(String, String)>) -> (r: ClickhouseSink)
        ensures
            r@ == (SinkModel { extra: pairs(columns@), ..self@ }),
    {
        ClickhouseSink { extra_columns: columns, ..self }
    }

    pub fn auth(self, user: &str, password: &str) -> (r: ClickhouseSink)
        ensures
            r@ == (SinkModel { user: Some(user@), password: Some(password@), ..self@ }),
    {
        ClickhouseSink {
            user: Some(user.to_owned()),
            password: Some(password.to_owned()),
            ..self
        }
    }

    /// How long a request may take.
    pub fn timeout(self, timeout: Duration) -> (r: ClickhouseSink)
        ensures
            r@ == (SinkModel { timeout: nanos(timeout), ..self@ }),
    {
        ClickhouseSink { timeout, ..self }
    }

    /// Whether the server collects rows into larger batches once more.
    pub fn async_insert(self, enabled: bool) -> (r: ClickhouseSink)
        ensures
            r@ == (SinkModel { async_insert: enabled, ..self@ }),
    {
        ClickhouseSink { async_insert: enabled, ..self }
    }

    /// Whether rows are sent in gzip.
    pub fn compress(self, enabled: bool) -> (r: ClickhouseSink)
        ensures
            r@ == (SinkModel { compress: enabled, ..self@ }),
    {
        ClickhouseSink { compress: enabled, ..self }
    }

    fn timestamp_type(&self) -> (r: String)
        ensures
            r@ == timestamp_type(self@.zone),
            zone_is_named(self@),
    {
        match self.timezone {
            Some(tz) => {
                let mut text = "DateTime64(9, '".to_owned();
                text.push_str(name_of(tz).as_str());
                text.push_str("')");
                text
            },
            None => "DateTime64(9)".to_owned(),
        }
    }

    /// The columns that every table has, in their order.
    fn base_columns(&self) -> (r: Vec<(String, String)>)
        ensures
            pairs(r@) == base_columns(self@.zone),
            zone_is_named(self@),
    {
        let time = self.timestamp_type();
        let mut times = "Array(".to_owned();
        times.push_str(time.as_str());
        times.push_str(")");
        let mut columns: Vec<(String, String)> = Vec::new();
        assert(pairs(columns@) =~= Seq::empty());
        add_pair(&mut columns, "timestamp", time.as_str());
        add_pair(&mut columns, "trace_id", "String");
        add_pair(&mut columns, "span_id", "String");
        add_pair(&mut columns, "parent_span_id", "String");
        add_pair(&mut columns, "trace_state", "String");
        add_pair(&mut columns, "span_name", "LowCardinality(String)");
        add_pair(&mut columns, "span_kind", "LowCardinality(String)");
        add_pair(&mut columns, "service_name", "LowCardinality(String)");
        add_pair(&mut columns, "duration_ns", "UInt64");
        add_pair(&mut columns, "status_code", "LowCardinality(String)");
        add_pair(&mut columns, "status_message", "String");
        add_pair(&mut columns, "scope_name", "LowCardinality(String)");
        add_pair(&mut columns, "scope_version", "LowCardinality(String)");
        add_pair(&mut columns, "resource_attributes", "Map(LowCardinality(String), String)");
        add_pair(&mut columns, "span_attributes", "Map(LowCardinality(String), String)");
        add_pair(&mut columns, "events.timestamp", times.as_str());
        add_pair(&mut columns, "events.name", "Array(LowCardinality(String))");
        add_pair(
            &mut columns,
            "events.attributes",
            "Array(Map(LowCardinality(String), String))",
        );
        add_pair(&mut columns, "links.trace_id", "Array(String)");
        add_pair(&mut columns, "links.span_id", "Array(String)");
        add_pair(&mut columns, "links.trace_state", "Array(String)");
        add_pair(
            &mut columns,
            "links.attributes",
            "Array(Map(LowCardinality(String), String))",
        );
        columns
    }
}

/// Appends the columns of `extra` whose names are new.
fn add_new_columns(columns: &mut Vec<(String, String)>, extra: &Vec<(String, String)>)
    ensures
        pairs(final(columns)@) == with_columns(pairs(old(columns)@), pairs(extra@)),
{
    let ghost start = pairs(columns@);
    let ghost all = pairs(extra@);
    let mut i: usize = 0;
    while i < extra.len()
        invariant
            all == pairs(extra@),
            i <= all.len(),
            pairs(columns@) == with_columns(start, all.take(i as int)),
        decreases all.len() - i,
    {
        proof {
            assert(all.take(i + 1).drop_last() =~= all.take(i as int));
            assert(all.take(i + 1).last() == all[i as int]);
        }
        if !has_name(columns, extra[i].0.as_str()) {
            add_pair(columns, extra[i].0.as_str(), extra[i].1.as_str());
        }
        i += 1;
    }
    assert(all.take(i as int) =~= all);
}

proof fn lemma_widest(columns: Pairs, i: int)
    requires
        0 <= i < columns.len(),
    ensures
        encode_utf8(columns[i].0).len() <= widest(columns),
    decreases columns.len(),
{
    if i < columns.len() - 1 {
        lemma_widest(columns.drop_last(), i);
    }
}

/// How many bytes the longest of the names has.
fn width_of(columns: &Vec<(String, String)>) -> (r: usize)
    ensures
        r == widest(pairs(columns@)),
{
    let ghost all = pairs(columns@);
    let mut width: usize = 0;
    let mut i: usize = 0;
    while i < columns.len()
        invariant
            all == pairs(columns@),
            i <= all.len(),
            width == widest(all.take(i as int)),
        decreases all.len() - i,
    {
        proof {
            assert(all.take(i + 1).drop_last() =~= all.take(i as int));
            assert(all.take(i + 1).last() == all[i as int]);
        }
        let len = byte_len(columns[i].0.as_str());
        if len > width {
            width = len;
        }
        i += 1;
    }
    assert(all.take(i as int) =~= all);
    width
}

/// The indexes, each after the given words.
fn write_indexes(lines: &mut Vec<String>, start: &str)
    ensures
        texts(final(lines)@) == texts(old(lines)@) + index_lines(start@),
{
    let mut list: Vec<(String, String)> = Vec::new();
    assert(pairs(list@) =~= Seq::empty());
    add_pair(&mut list, "idx_trace_id", "`trace_id` TYPE bloom_filter GRANULARITY 4");
    add_pair(
        &mut list,
        "idx_res_attr_key",
        "mapKeys(`resource_attributes`) TYPE bloom_filter(0.01) GRANULARITY 1",
    );
    add_pair(
        &mut list,
        "idx_res_attr_value",
        "mapValues(`resource_attributes`) TYPE bloom_filter(0.01) GRANULARITY 1",
    );
    add_pair(
        &mut list,
        "idx_span_attr_key",
        "mapKeys(`span_attributes`) TYPE bloom_filter(0.01) GRANULARITY 1",
    );
    add_pair(
        &mut list,
        "idx_span_attr_value",
        "mapValues(`span_attributes`) TYPE bloom_filter(0.01) GRANULARITY 1",
    );
    add_pair(&mut list, "idx_duration", "`duration_ns` TYPE minmax GRANULARITY 1");
    let ghost first = texts(lines@);
    let ghost all = index_lines(start@);
    assert(pairs(list@).len() == list@.len() && indexes().len() == all.len());
    assert(texts(lines@) =~= first + all.take(0));
    let mut i: usize = 0;
    while i < list.len()
        invariant
            pairs(list@) == indexes(),
            all == index_lines(start@),
            list@.len() == all.len(),
            i <= all.len(),
            texts(lines@) == first + all.take(i as int),
        decreases all.len() - i,
    {
        let mut line = start.to_owned();
        line.push_str(list[i].0.as_str());
        line.push_str("` ");
        line.push_str(list[i].1.as_str());
        proof {
            assert(pairs(list@)[i as int] == (list@[i as int].0@, list@[i as int].1@));
            assert(line@ == all[i as int]);
        }
        add_line(lines, line);
        assert(texts(lines@) =~= first + all.take(i + 1));
        i += 1;
    }
    assert(all.take(i as int) =~= all);
}

/// The columns and the indexes of a new table.
fn write_body(columns: &Vec<(String, String)>) -> (r: String)
    ensures
        r@ == table_body(pairs(columns@)),
{
    let width = width_of(columns);
    let ghost list = pairs(columns@);
    let ghost all = column_lines(list, width as nat);
    let mut lines: Vec<String> = Vec::new();
    assert(texts(lines@) =~= all.take(0));
    let mut i: usize = 0;
    while i < columns.len()
        invariant
            list == pairs(columns@),
            width == widest(list),
            all == column_lines(list, width as nat),
            i <= list.len(),
            texts(lines@) == all.take(i as int),
        decreases list.len() - i,
    {
        let name = columns[i].0.as_str();
        proof {
            assert(list[i as int].0 == name@);
            lemma_widest(list, i as int);
        }
        let mut line = "    `".to_owned();
        line.push_str(name);
        line.push_str("`");
        push_spaces(&mut line, width - byte_len(name));
        line.push_str(" ");
        line.push_str(columns[i].1.as_str());
        assert(line@ == all[i as int]);
        add_line(&mut lines, line);
        assert(texts(lines@) =~= all.take(i + 1));
        i += 1;
    }
    assert(all.take(i as int) =~= all);
    write_indexes(&mut lines, "    INDEX `");
    joined(&lines, ",\n")
}

/// A table in its database.
fn qualify(database: &str, table: &str) -> (r: String)
    ensures
        r@ == qualified(database@, table@),
{
    let mut text = "`".to_owned();
    text.push_str(database);
    text.push_str("`.`");
    text.push_str(table);
    text.push_str("`");
    text
}

/// What adds the columns to a table that lacks them.
fn write_additions(columns: &Vec<(String, String)>) -> (r: Vec<String>)
    ensures
        texts(r@) == add_columns(pairs(columns@)),
{
    let ghost list = pairs(columns@);
    let mut lines: Vec<String> = Vec::new();
    assert(texts(lines@) =~= Seq::empty());
    let mut i: usize = 0;
    while i < columns.len()
        invariant
            list == pairs(columns@),
            i <= list.len(),
            texts(lines@) == add_columns(list.take(i as int)),
        decreases list.len() - i,
    {
        proof {
            assert(list.take(i + 1).drop_last() =~= list.take(i as int));
            assert(list.take(i + 1).last() == list[i as int]);
        }
        if !same(columns[i].0.as_str(), "timestamp") {
            let mut line = "ADD COLUMN IF NOT EXISTS `".to_owned();
            line.push_str(columns[i].0.as_str());
            line.push_str("` ");
            line.push_str(columns[i].1.as_str());
            add_line(&mut lines, line);
        }
        i += 1;
    }
    assert(list.take(i as int) =~= list);
    lines
}

impl ClickhouseSink {
    /// The statement that brings a table up to date.
    fn write_alter(
        &self,
        columns: &Vec<(String, String)>,
        table: &str,
        with_index: bool,
    ) -> (r: String)
        ensures
            r@ == alteration(self@, pairs(columns@), table@, with_index),
    {
        let mut actions = write_additions(columns);
        let ghost added = texts(actions@);
        if with_index {
            write_indexes(&mut actions, "ADD INDEX IF NOT EXISTS `");
        } else {
            assert(added + Seq::<Seq<char>>::empty() =~= added);
        }
        let ghost middle = texts(actions@);
        if self.timezone.is_some() {
            let time = self.timestamp_type();
            let mut first = "MODIFY COLUMN `timestamp` ".to_owned();
            first.push_str(time.as_str());
            let mut second = "MODIFY COLUMN `events.timestamp` Array(".to_owned();
            second.push_str(time.as_str());
            second.push_str(")");
            add_line(&mut actions, first);
            add_line(&mut actions, second);
            assert(texts(actions@) =~= middle + modify_timestamps(self@.zone));
        } else {
            assert(middle + modify_timestamps(self@.zone) =~= middle);
        }
        let list = joined(&actions, ",\n    ");
        let mut text = "ALTER TABLE ".to_owned();
        text.push_str(qualify(self.database.as_str(), table).as_str());
        text.push_str(self.write_scope().as_str());
        text.push_str("\n    ");
        text.push_str(list.as_str());
        text
    }

    /// The name of the table that holds the rows on a cluster.
    pub fn local_table(&self) -> (r: String)
        ensures
            r@ == local_name(self@.table),
    {
        let mut name = self.table.clone();
        name.push_str("_local");
        name
    }

    /// The statements that create the table and bring it up to date. They may be run again and
    /// again. Where no name and no type has a semicolon in it, they come apart at the semicolons.
    pub fn create_table_ddl(&self) -> (r: String)
        ensures
            r@ == ddl_text(self@, self@.extra),
            names_are_plain(self@, self@.extra) ==> split(r@, ';') == cut(
                statements(self@, table_columns(self@, self@.extra)),
            ),
    {
        self.create_table_ddl_with(&self.extra_columns)
    }

    /// The same with other columns for fields.
    pub fn create_table_ddl_with(&self, extra: &Vec<(String, String)>) -> (r: String)
        ensures
            r@ == ddl_text(self@, pairs(extra@)),
            names_are_plain(self@, pairs(extra@)) ==> split(r@, ';') == cut(
                statements(self@, table_columns(self@, pairs(extra@))),
            ),
    {
        let mut columns = self.base_columns();
        add_new_columns(&mut columns, extra);
        let mut list: Vec<String> = Vec::new();
        assert(texts(list@) =~= Seq::empty());
        add_line(&mut list, self.write_creation(&columns));
        match &self.cluster {
            None => {
                add_line(&mut list, self.write_alter(&columns, self.table.as_str(), true));
            },
            Some(cluster) => {
                add_line(&mut list, self.write_distribution(cluster.as_str()));
                add_line(&mut list, self.write_alter(&columns, self.local_table().as_str(), true));
                add_line(&mut list, self.write_alter(&columns, self.table.as_str(), false));
            },
        }
        proof {
            assert(texts(list@) == statements(self@, pairs(columns@)));
            if names_are_plain(self@, pairs(extra@)) {
                lemma_ddl_comes_apart(self@, pairs(extra@));
            }
        }
        joined(&list, ";\n\n")
    }

    /// What a statement says about where it is to be run.
    fn write_scope(&self) -> (r: String)
        ensures
            r@ == scope_text(self@),
    {
        match &self.cluster {
            None => "".to_owned(),
            Some(cluster) => write_on_cluster(cluster.as_str()),
        }
    }

    /// What follows the columns where the table that holds the rows is created.
    fn write_storage(&self) -> (r: String)
        ensures
            r@ == storage_text(self@),
    {
        let layout = "PARTITION BY toDate(`timestamp`)\nORDER BY (`service_name`, `span_name`, toDateTime(`timestamp`))\nTTL toDateTime(`timestamp`) + INTERVAL 30 DAY";
        match &self.cluster {
            None => {
                let mut text = "\n)\nENGINE = MergeTree\n".to_owned();
                text.push_str(layout);
                text
            },
            Some(_) => {
                let mut text = "\n)\nENGINE = ReplicatedMergeTree('/clickhouse/tables/{shard}/".to_owned();
                text.push_str(self.database.as_str());
                text.push_str("/");
                text.push_str(self.local_table().as_str());
                text.push_str("', '{replica}')\n");
                text.push_str(layout);
                text
            },
        }
    }

    /// The statement that creates the table that holds the rows.
    fn write_creation(&self, columns: &Vec<(String, String)>) -> (r: String)
        ensures
            r@ == creation(self@, pairs(columns@)),
    {
        let name = match &self.cluster {
            None => self.table.clone(),
            Some(_) => self.local_table(),
        };
        let mut text = "CREATE TABLE IF NOT EXISTS ".to_owned();
        text.push_str(qualify(self.database.as_str(), name.as_str()).as_str());
        text.push_str(self.write_scope().as_str());
        text.push_str("\n(\n");
        text.push_str(write_body(columns).as_str());
        text.push_str(self.write_storage().as_str());
        text
    }

    /// The statement that creates the table that distributes the rows.
    fn write_distribution(&self, cluster: &str) -> (r: String)
        ensures
            r@ == distribution(self@, cluster@),
    {
        let name = self.local_table();
        let mut text = "CREATE TABLE IF NOT EXISTS ".to_owned();
        text.push_str(qualify(self.database.as_str(), self.table.as_str()).as_str());
        text.push_str(write_on_cluster(cluster).as_str());
        text.push_str("\nAS ");
        text.push_str(qualify(self.database.as_str(), name.as_str()).as_str());
        text.push_str("\nENGINE = Distributed(`");
        text.push_str(cluster);
        text.push_str("`, `");
        text.push_str(self.database.as_str());
        text.push_str("`, `");
        text.push_str(name.as_str());
        text.push_str("`, cityHash64(`trace_id`))");
        text
    }
}

/// What a statement for the whole cluster says.
fn write_on_cluster(cluster: &str) -> (r: String)
    ensures
        r@ == on_cluster_text(cluster@),
{
    let mut text = " ON CLUSTER `".to_owned();
    text.push_str(cluster);
    text.push_str("`");
    text
}

/// The words that add a column.
pub open spec fn addition(name: Seq<char>, kind: Seq<char>) -> Seq<char> {
    "ADD COLUMN IF NOT EXISTS `"@ + name + "` "@ + kind
}

proof fn lemma_additions(columns: Pairs, i: int)
    requires
        0 <= i < columns.len(),
        columns[i].0 != "timestamp"@,
    ensures
        add_columns(columns).contains(addition(columns[i].0, columns[i].1)),
    decreases columns.len(),
{
    let line = addition(columns[i].0, columns[i].1);
    let all = add_columns(columns);
    let front = add_columns(columns.drop_last());
    if i < columns.len() - 1 {
        lemma_additions(columns.drop_last(), i);
        let j = choose|j: int| 0 <= j < front.len() && front[j] == line;
        assert(all[j] == line);
    } else {
        assert(all.last() == line);
    }
}

proof fn lemma_alter_adds(
    columns: Pairs,
    zone: Option<Seq<char>>,
    with_index: bool,
    target: Seq<char>,
    on_cluster: Seq<char>,
    i: int,
)
    requires
        0 <= i < columns.len(),
        columns[i].0 != "timestamp"@,
    ensures
        contains(
            alter_text(target, on_cluster, alter_actions(columns, zone, with_index)),
            addition(columns[i].0, columns[i].1),
        ),
{
    let line = addition(columns[i].0, columns[i].1);
    let actions = alter_actions(columns, zone, with_index);
    lemma_additions(columns, i);
    let j = choose|j: int| 0 <= j < add_columns(columns).len() && add_columns(columns)[j] == line;
    assert(actions[j] == line);
    lemma_join_contains(actions, ",\n    "@, j);
    lemma_contains_in_sum(
        "ALTER TABLE "@ + target + on_cluster + "\n    "@,
        join(actions, ",\n    "@),
        line,
    );
}

/// Every column is in the statement that creates the table, and every column but the first, which
/// no table lacks, is in those that bring a table up to date. So whichever columns a table lacks,
/// the statements add them.
pub proof fn lemma_ddl_has_every_column(sink: SinkModel, extra: Pairs, i: int)
    requires
        0 <= i < table_columns(sink, extra).len(),
    ensures
        ({
            let columns = table_columns(sink, extra);
            let (name, kind) = columns[i];
            &&& contains(creation(sink, columns), column_line(name, kind, widest(columns)))
            &&& name != "timestamp"@ ==> forall|table: Seq<char>, with_index: bool|
                contains(
                    #[trigger] alteration(sink, columns, table, with_index),
                    addition(name, kind),
                )
        }),
{
    let columns = table_columns(sink, extra);
    let (name, kind) = columns[i];
    lemma_creation_has_column(sink, columns, i);
    if name != "timestamp"@ {
        assert forall|table: Seq<char>, with_index: bool| contains(
            #[trigger] alteration(sink, columns, table, with_index),
            addition(name, kind),
        ) by {
            lemma_alter_adds(
                columns,
                sink.zone,
                with_index,
                qualified(sink.database, table),
                scope_text(sink),
                i,
            );
        }
    }
}

proof fn lemma_creation_has_column(sink: SinkModel, columns: Pairs, i: int)
    requires
        0 <= i < columns.len(),
    ensures
        contains(
            creation(sink, columns),
            column_line(columns[i].0, columns[i].1, widest(columns)),
        ),
{
    let line = column_line(columns[i].0, columns[i].1, widest(columns));
    let lines = column_lines(columns, widest(columns)) + index_lines("    INDEX `"@);
    let body = table_body(columns);
    let head = "CREATE TABLE IF NOT EXISTS "@ + qualified(sink.database, storing_table(sink))
        + scope_text(sink) + "\n(\n"@;
    assert(lines[i] == line);
    lemma_join_contains(lines, ",\n"@, i);
    lemma_contains_in_sum(head, body, line);
    lemma_contains_in_sum(head + body, storage_text(sink), line);
}

proof fn lemma_with_columns(columns: Pairs, extra: Pairs, name: Seq<char>)
    requires
        names(columns, name) || names(extra, name),
    ensures
        names(with_columns(columns, extra), name),
    decreases extra.len(),
{
    if extra.len() > 0 {
        let sofar = with_columns(columns, extra.drop_last());
        let all = with_columns(columns, extra);
        if names(columns, name) || names(extra.drop_last(), name) {
            lemma_with_columns(columns, extra.drop_last(), name);
            let k = choose|k: int| 0 <= k < sofar.len() && (#[trigger] sofar[k]).0 == name;
            assert(all[k].0 == name);
        } else {
            let k = choose|k: int| 0 <= k < extra.len() && (#[trigger] extra[k]).0 == name;
            if k < extra.len() - 1 {
                assert(extra.drop_last()[k].0 == name);
            }
            if !names(sofar, name) {
                assert(all.last().0 == name);
            }
        }
    }
}

// ---------------------------------------------------------------------------------------------
// Requests
// ---------------------------------------------------------------------------------------------

/// A request to the server.
pub struct Request {
    pub url: String,
    /// The parameters in the address.
    pub query: Vec<(String, String)>,
    pub headers: Vec<(String, String)>,
    pub body: Vec<u8>,
    pub timeout: Duration,
}

/// The parameters of a request: the statement, that times are read in the form in which they are
/// written, and that fields without a column are passed over.
pub open spec fn query_of(sql: Seq<char>, async_insert: bool) -> Pairs {
    let usual = seq![
        ("query"@, sql),
        ("date_time_input_format"@, "best_effort"@),
        ("input_format_skip_unknown_fields"@, "1"@),
    ];
    if async_insert {
        usual.push(("async_insert"@, "1"@)).push(("wait_for_async_insert"@, "1"@))
    } else {
        usual
    }
}

/// The headers of a request. The length is always given, since the server refuses a request
/// without it.
pub open spec fn headers_of(sink: SinkModel, length: nat, compressed: bool) -> Pairs {
    let first = seq![("content-length"@, decimal(length))];
    let second = if compressed {
        first.push(("content-encoding"@, "gzip"@))
    } else {
        first
    };
    match (sink.user, sink.password) {
        (Some(user), Some(password)) => second.push(("X-ClickHouse-User"@, user)).push(
            ("X-ClickHouse-Key"@, password),
        ),
        _ => second,
    }
}

/// What is said about a body that cannot be packed. Packing takes place in memory, so there is no
/// advice to give about permissions or ports.
pub open spec fn packing_failure(cause: Seq<char>) -> Failure {
    Failure::IoContext(io_context("压缩 ClickHouse 请求体失败"@, IoKind::Other), cause)
}

/// Whether a body of so many bytes is sent in gzip.
pub open spec fn packs(sink: SinkModel, length: nat) -> bool {
    sink.compress && length > 0
}

/// `request` carries `body` to the server, in gzip where `compressed`.
pub open spec fn carries(
    request: Request,
    sink: SinkModel,
    sql: Seq<char>,
    body: Seq<u8>,
    compressed: bool,
) -> bool {
    &&& request.url@ == sink.endpoint
    &&& pairs(request.query@) == query_of(sql, sink.async_insert)
    &&& pairs(request.headers@) == headers_of(sink, body.len(), compressed)
    &&& request.body@ == body
    &&& nanos(request.timeout) == sink.timeout
}

impl ClickhouseSink {
    /// The request that carries a body as it is. `compressed` says whether the body is in gzip.
    pub fn frame(&self, sql: &str, body: Vec<u8>, compressed: bool) -> (r: Request)
        ensures
            carries(r, self@, sql@, body@, compressed),
    {
        let mut query: Vec<(String, String)> = Vec::new();
        assert(pairs(query@) =~= Seq::empty());
        add_pair(&mut query, "query", sql);
        add_pair(&mut query, "date_time_input_format", "best_effort");
        add_pair(&mut query, "input_format_skip_unknown_fields", "1");
        if self.async_insert {
            add_pair(&mut query, "async_insert", "1");
            add_pair(&mut query, "wait_for_async_insert", "1");
        }
        let mut length = String::new();
        push_decimal(&mut length, body.len() as u64);
        assert(length@ =~= decimal(body@.len()));
        let mut headers: Vec<(String, String)> = Vec::new();
        assert(pairs(headers@) =~= Seq::empty());
        add_pair(&mut headers, "content-length", length.as_str());
        if compressed {
            add_pair(&mut headers, "content-encoding", "gzip");
        }
        match (&self.user, &self.password) {
            (Some(user), Some(password)) => {
                add_pair(&mut headers, "X-ClickHouse-User", user.as_str());
                add_pair(&mut headers, "X-ClickHouse-Key", password.as_str());
            },
            _ => {},
        }
        assert(pairs(query@) == query_of(sql@, self@.async_insert));
        assert(pairs(headers@) == headers_of(self@, body@.len(), compressed));
        Request {
            url: self.endpoint.clone(),
            query,
            headers,
            body,
            timeout: self.timeout,
        }
    }

    /// The request for a statement with a body. A body is sent in gzip if that is wanted and
    /// there is anything to pack; the server gets back from it what was packed.
    pub fn prepare(&self, sql: &str, body: Vec<u8>) -> (r: Result<Request, Error>)
        ensures
            if self@.compress && body@.len() > 0 {
                match gzipped(body@) {
                    Ok(packed) => r is Ok && carries(r->Ok_0, self@, sql@, packed, true)
                        && reads_back(packed, body@),
                    Err(cause) => r is Err && r->Err_0@ == packing_failure(cause),
                }
            } else {
                r is Ok && carries(r->Ok_0, self@, sql@, body@, false)
            },
            r is Ok ==> carries(
                r->Ok_0,
                self@,
                sql@,
                r->Ok_0.body@,
                packs(self@, body@.len()),
            ),
    {
        if self.compress && body.len() > 0 {
            match gzip(&body) {
                Ok(packed) => Ok(self.frame(sql, packed, true)),
                Err(cause) => Err(
                    Error::io_context(
                        "压缩 ClickHouse 请求体失败",
                        IoKind::Other,
                        cause.as_str(),
                    ),
                ),
            }
        } else {
            Ok(self.frame(sql, body, false))
        }
    }
}

/// What the server said. `status` is the status of its answer, and `status_text` the status as it
/// is shown.
pub fn read_response(status: u16, status_text: &str, text: String) -> (r: Result<String, Error>)
    ensures
        if 200 <= status < 300 {
            r == Ok::<String, Error>(text)
        } else {
            r is Err && r->Err_0@ == Failure::Sink(
                "ClickHouse 返回 "@ + status_text@ + ": "@ + trim(text@),
            )
        },
        match response(status, status_text@, text@) {
            Ok(said) => r is Ok && r->Ok_0@ == said,
            Err(failure) => r is Err && r->Err_0@ == failure,
        },
{
    if 200 <= status && status < 300 {
        Ok(text)
    } else {
        let mut cause = "ClickHouse 返回 ".to_owned();
        cause.push_str(status_text);
        cause.push_str(": ");
        cause.push_str(trimmed(text.as_str()).as_str());
        Err(Error::Sink(cause))
    }
}

// ---------------------------------------------------------------------------------------------
// Rows
// ---------------------------------------------------------------------------------------------

/// The rows of spans, each with a line feed at its end.
pub open spec fn rows_text(spans: Seq<SpanModel>, zone: Seq<char>) -> Seq<char>
    decreases spans.len(),
{
    if spans.len() == 0 {
        Seq::empty()
    } else {
        rows_text(spans.drop_last(), zone) + row_text(spans.last(), zone) + "\n"@
    }
}

/// The zone in which times are written.
pub open spec fn zone_of(sink: SinkModel) -> Seq<char> {
    match sink.zone {
        Some(zone) => zone,
        None => "UTC"@,
    }
}

/// The statement that rows go with.
pub open spec fn insert_text(sink: SinkModel) -> Seq<char> {
    "INSERT INTO "@ + qualified(sink.database, sink.table) + " FORMAT JSONEachRow"@
}

/// What the server said: its text, or an error with its status where that is no success.
pub open spec fn response(status: u16, status_text: Seq<char>, text: Seq<char>) -> Result<
    Seq<char>,
    Failure,
> {
    if 200 <= status < 300 {
        Ok(text)
    } else {
        Err(Failure::Sink("ClickHouse 返回 "@ + status_text + ": "@ + trim(text)))
    }
}

impl ClickhouseSink {
    /// The statement that rows go with.
    pub fn insert_sql(&self) -> (r: String)
        ensures
            r@ == "INSERT INTO "@ + qualified(self@.database, self@.table)
                + " FORMAT JSONEachRow"@,
            r@ == insert_text(self@),
    {
        let mut text = "INSERT INTO ".to_owned();
        text.push_str(qualify(self.database.as_str(), self.table.as_str()).as_str());
        text.push_str(" FORMAT JSONEachRow");
        text
    }

    /// The rows of spans, one on each line.
    pub fn rows(&self, events: &[SpanEvent]) -> (r: String)
        ensures
            r@ == rows_text(span_models(events@), zone_of(self@)),
            forall|i: int|
                0 <= i < events@.len() ==> is_json_line(
                    row_text(#[trigger] span_models(events@)[i], zone_of(self@)),
                ),
    {
        let tz = match self.timezone {
            Some(tz) => tz,
            None => utc(),
        };
        let ghost spans = span_models(events@);
        let ghost zone = zone_of(self@);
        let mut out = String::new();
        let mut i: usize = 0;
        while i < events.len()
            invariant
                spans == span_models(events@),
                zone == zone_name(tz),
                i <= events@.len(),
                out@ == rows_text(spans.take(i as int), zone),
                forall|k: int| 0 <= k < i ==> is_json_line(row_text(#[trigger] spans[k], zone)),
            decreases events@.len() - i,
        {
            let event = &events[i];
            let row = WithZone { event, tz };
            let line = row.to_json_line();
            assert(spans[i as int] == event@);
            out.push_str(line.as_str());
            out.push_str("\n");
            proof {
                let more = spans.take(i + 1);
                assert(more.drop_last() =~= spans.take(i as int));
                assert(more.last() == event@);
                assert(out@ == rows_text(more, zone));
            }
            i += 1;
        }
        assert(spans.take(i as int) =~= spans);
        out
    }

    /// The request that stores spans.
    pub fn prepare_insert(&self, events: &[SpanEvent]) -> (r: Result<Request, Error>)
        ensures
            ({
                let sql = "INSERT INTO "@ + qualified(self@.database, self@.table)
                    + " FORMAT JSONEachRow"@;
                let body = encode_utf8(rows_text(span_models(events@), zone_of(self@)));
                if self@.compress && body.len() > 0 {
                    match gzipped(body) {
                        Ok(packed) => r is Ok && carries(r->Ok_0, self@, sql, packed, true)
                            && reads_back(packed, body),
                        Err(cause) => r is Err && r->Err_0@ == packing_failure(cause),
                    }
                } else {
                    r is Ok && carries(r->Ok_0, self@, sql, body, false)
                }
            }),
            r is Ok ==> pairs(r->Ok_0.query@) == query_of(insert_text(self@), self@.async_insert),
    {
        let rows = self.rows(events);
        self.prepare(self.insert_sql().as_str(), bytes_of(rows.as_str()))
    }
}

/// A row has a member for every column that each table has, in the order of the columns.
#[verifier::spinoff_prover]
pub proof fn lemma_rows_match_the_table(span: SpanModel, zone: Seq<char>, shown: Option<Seq<char>>)
    ensures
        base_cells(span, zone).len() == base_columns(shown).len(),
        forall|i: int|
            0 <= i < base_columns(shown).len() ==> (#[trigger] base_cells(span, zone)[i]).0
                == base_columns(shown)[i].0,
{
    let cells = base_cells(span, zone);
    let columns = base_columns(shown);
    assert(cells.len() == 22 && columns.len() == 22);
    assert(cells[0].0 == columns[0].0 && cells[1].0 == columns[1].0);
    assert(cells[2].0 == columns[2].0 && cells[3].0 == columns[3].0);
    assert(cells[4].0 == columns[4].0 && cells[5].0 == columns[5].0);
    assert(cells[6].0 == columns[6].0 && cells[7].0 == columns[7].0);
    assert(cells[8].0 == columns[8].0 && cells[9].0 == columns[9].0);
    assert(cells[10].0 == columns[10].0 && cells[11].0 == columns[11].0);
    assert(cells[12].0 == columns[12].0 && cells[13].0 == columns[13].0);
    assert(cells[14].0 == columns[14].0 && cells[15].0 == columns[15].0);
    assert(cells[16].0 == columns[16].0 && cells[17].0 == columns[17].0);
    assert(cells[18].0 == columns[18].0 && cells[19].0 == columns[19].0);
    assert(cells[20].0 == columns[20].0 && cells[21].0 == columns[21].0);
}

// ---------------------------------------------------------------------------------------------
// Health
// ---------------------------------------------------------------------------------------------

/// A character as it is written inside a string of a statement.
pub open spec fn literal_char(c: char) -> Seq<char> {
    if c == '\\' {
        seq!['\\', '\\']
    } else if c == '\'' {
        seq!['\\', '\'']
    } else {
        seq![c]
    }
}

/// A text as it is written inside a string of a statement.
pub open spec fn literal(text: Seq<char>) -> Seq<char>
    decreases text.len(),
{
    if text.len() == 0 {
        Seq::empty()
    } else {
        literal(text.drop_last()) + literal_char(text.last())
    }
}

/// A text as it is written inside a string of a statement. It can be read back, and between two
/// quotes it stays one string.
pub fn escape_literal(raw: &str) -> (r: String)
    ensures
        r@ == literal(raw@),
        unliteral(r@) == raw@,
        stays_inside(r@),
{
    let chars = chars_of(raw);
    let mut out = String::new();
    let mut i: usize = 0;
    while i < chars.len()
        invariant
            chars@ == raw@,
            i <= chars@.len(),
            out@ == literal(chars@.take(i as int)),
        decreases chars@.len() - i,
    {
        let ghost sofar = out@;
        if chars[i] == '\\' || chars[i] == '\'' {
            out.push('\\');
        }
        out.push(chars[i]);
        proof {
            assert(chars@.take(i + 1).drop_last() =~= chars@.take(i as int));
            assert(chars@.take(i + 1).last() == chars@[i as int]);
            assert(out@ =~= sofar + literal_char(chars@[i as int]));
        }
        i += 1;
    }
    proof {
        assert(chars@.take(i as int) =~= chars@);
        lemma_literal_reads_back(raw@);
        lemma_literal_stays_inside(raw@);
    }
    out
}

/// The text that is written inside a string of a statement as `text`: from left to right, a
/// backslash makes way for the character behind it.
pub open spec fn unliteral(text: Seq<char>) -> Seq<char>
    decreases text.len(),
{
    if text.len() == 0 {
        Seq::empty()
    } else if text[0] == '\\' && text.len() > 1 {
        seq![text[1]] + unliteral(text.skip(2))
    } else {
        seq![text[0]] + unliteral(text.skip(1))
    }
}

/// How many backslashes stand directly before position `at`.
pub open spec fn backslashes_before(text: Seq<char>, at: int) -> nat
    decreases at,
{
    if 0 < at <= text.len() && text[at - 1] == '\\' {
        backslashes_before(text, at - 1) + 1
    } else {
        0
    }
}

/// What stands before a position does not depend on what stands from there on.
proof fn lemma_backslashes_in_front(a: Seq<char>, b: Seq<char>, at: int)
    requires
        0 <= at <= a.len(),
    ensures
        backslashes_before(a + b, at) == backslashes_before(a, at),
    decreases at,
{
    if at > 0 {
        lemma_backslashes_in_front(a, b, at - 1);
    }
}

/// Reading how a character is written gives the character back, in front of what follows.
proof fn lemma_unliteral_push(c: char, rest: Seq<char>)
    ensures
        unliteral(literal_char(c) + rest) == seq![c] + unliteral(rest),
{
    let whole = literal_char(c) + rest;
    assert(whole.skip(literal_char(c).len() as int) =~= rest);
}

proof fn lemma_literal_first(text: Seq<char>)
    requires
        text.len() > 0,
    ensures
        literal(text) == literal_char(text[0]) + literal(text.skip(1)),
    decreases text.len(),
{
    let front = text.drop_last();
    if front.len() == 0 {
        assert(text.skip(1) =~= Seq::empty());
        assert(literal(front) + literal_char(text.last()) =~= literal_char(text[0]) + literal(
            text.skip(1),
        ));
    } else {
        lemma_literal_first(front);
        assert(text.skip(1).drop_last() =~= front.skip(1));
        assert(literal_char(text[0]) + literal(front.skip(1)) + literal_char(text.last())
            =~= literal_char(text[0]) + (literal(front.skip(1)) + literal_char(text.last())));
    }
}

/// A text that is written inside a string can be read back. A text without quotes and backslashes
/// is written as it is.
pub proof fn lemma_literal_reads_back(text: Seq<char>)
    ensures
        unliteral(literal(text)) == text,
        (forall|i: int| 0 <= i < text.len() ==> text[i] != '\\' && text[i] != '\'') ==> literal(
            text,
        ) == text,
    decreases text.len(),
{
    if text.len() == 0 {
        assert(unliteral(literal(text)) =~= text);
    } else {
        let rest = text.skip(1);
        lemma_literal_reads_back(rest);
        lemma_literal_first(text);
        lemma_unliteral_push(text[0], literal(rest));
        assert(seq![text[0]] + rest =~= text);
    }
}

/// Different texts are written differently.
pub proof fn lemma_literal_tells_apart(a: Seq<char>, b: Seq<char>)
    requires
        literal(a) == literal(b),
    ensures
        a == b,
{
    lemma_literal_reads_back(a);
    lemma_literal_reads_back(b);
}

/// Each quote in the text follows an odd number of backslashes, and an even number of them stands
/// at its end.
pub open spec fn stays_inside(text: Seq<char>) -> bool {
    &&& forall|i: int|
        0 <= i < text.len() && #[trigger] text[i] == '\'' ==> backslashes_before(text, i) % 2 == 1
    &&& backslashes_before(text, text.len() as int) % 2 == 0
}

/// Between two quotes, a text that is written inside a string stays inside: no quote but the last
/// one ends the string.
pub proof fn lemma_literal_stays_inside(text: Seq<char>)
    ensures
        stays_inside(literal(text)),
    decreases text.len(),
{
    let written = literal(text);
    if text.len() > 0 {
        let front = literal(text.drop_last());
        let last = literal_char(text.last());
        let n = front.len() as int;
        lemma_literal_stays_inside(text.drop_last());
        lemma_backslashes_in_front(front, last, n);
        assert forall|i: int| 0 <= i < written.len() && #[trigger] written[i]
            == '\'' implies backslashes_before(written, i) % 2 == 1 by {
            if i < n {
                assert(front[i] == '\'');
                lemma_backslashes_in_front(front, last, i);
            } else {
                assert(written[n] == '\\' && i == n + 1);
                assert(backslashes_before(written, n + 1) == backslashes_before(written, n) + 1);
            }
        }
        if text.last() == '\\' {
            assert(written[n] == '\\' && written[n + 1] == '\\');
            assert(backslashes_before(written, n + 1) == backslashes_before(written, n) + 1);
            assert(backslashes_before(written, n + 2) == backslashes_before(written, n + 1) + 1);
        } else {
            assert(written.last() == text.last());
        }
    }
}

/// The names of the columns that the table has to have.
pub open spec fn expected(sink: SinkModel) -> Seq<Seq<char>> {
    (base_columns(sink.zone) + sink.extra).map_values(|column: (Seq<char>, Seq<char>)| column.0)
}

/// The answer lists the column `name`, on a line of its own.
pub open spec fn listed(answer: Seq<char>, name: Seq<char>) -> bool {
    name.len() > 0 && exists|i: int|
        0 <= i < split(answer, '\n').len() && trim(#[trigger] split(answer, '\n')[i]) == name
}

/// Those of the names that the answer does not list.
pub open spec fn missing(expected: Seq<Seq<char>>, answer: Seq<char>) -> Seq<Seq<char>>
    decreases expected.len(),
{
    if expected.len() == 0 {
        Seq::empty()
    } else {
        let front = missing(expected.drop_last(), answer);
        if listed(answer, expected.last()) {
            front
        } else {
            front.push(expected.last())
        }
    }
}

/// What is asked about the health of the sink.
#[derive(Clone, Copy, Debug, PartialEq, Eq, Structural)]
pub enum Probe {
    /// Does the server answer at all?
    Server,
    /// Is there a table?
    Table,
    /// Which columns does it have?
    Columns,
}

/// The statement that a question is asked with.
pub open spec fn probe_sql(sink: SinkModel, probe: Probe) -> Seq<char> {
    match probe {
        Probe::Server => "SELECT 1"@,
        Probe::Table => "EXISTS TABLE "@ + qualified(sink.database, sink.table),
        Probe::Columns => "SELECT name FROM system.columns WHERE database = '"@ + literal(
            sink.database,
        ) + "' AND table = '"@ + literal(sink.table) + "' FORMAT TSV"@,
    }
}

/// What the answer to a question leads to.
pub enum Health {
    /// The next question.
    Ask(Probe),
    Healthy,
    Unhealthy(Error),
}

/// What a [`Health`] stands for.
pub ghost enum HealthModel {
    Ask(Probe),
    Healthy,
    Unhealthy(Failure),
}

impl Health {
    pub open spec fn view(&self) -> HealthModel {
        match self {
            Health::Ask(probe) => HealthModel::Ask(*probe),
            Health::Healthy => HealthModel::Healthy,
            Health::Unhealthy(error) => HealthModel::Unhealthy(error@),
        }
    }
}

/// What the answer to a question leads to. The questions are asked in their order, and the first
/// one with a bad answer ends it.
pub open spec fn diagnosis(
    sink: SinkModel,
    probe: Probe,
    answer: Result<Seq<char>, Failure>,
) -> HealthModel {
    match answer {
        Err(failure) => HealthModel::Unhealthy(failure),
        Ok(text) => match probe {
            Probe::Server => HealthModel::Ask(Probe::Table),
            Probe::Table => if trim(text) == "1"@ {
                HealthModel::Ask(Probe::Columns)
            } else {
                HealthModel::Unhealthy(
                    Failure::Sink(
                        "表 "@ + sink.database + "."@ + sink.table
                            + " 不存在，执行 `tracepipe --ddl` 输出的语句建表"@,
                    ),
                )
            },
            Probe::Columns => if missing(expected(sink), text).len() == 0 {
                HealthModel::Healthy
            } else {
                HealthModel::Unhealthy(
                    Failure::Sink(
                        "表 "@ + sink.database + "."@ + sink.table + " 缺列 "@ + join(
                            missing(expected(sink), text),
                            ", "@,
                        )
                            + "：表结构没跟上配置，这些字段插入时会被静默丢掉。重跑 `tracepipe --ddl` 输出的语句（ddl Job）即可补齐"@,
                    ),
                )
            },
        },
    }
}

/// Whether one of the lines is `name`.
fn is_listed(lines: &Vec<String>, name: &str, Ghost(answer): Ghost<Seq<char>>) -> (r: bool)
    requires
        texts(lines@) == split(answer, '\n').map_values(|piece: Seq<char>| trim(piece)),
    ensures
        r == listed(answer, name@),
{
    let ghost pieces = split(answer, '\n');
    assert(texts(lines@).len() == pieces.len());
    if name.is_empty() {
        return false;
    }
    let mut i: usize = 0;
    while i < lines.len()
        invariant
            pieces == split(answer, '\n'),
            texts(lines@) == pieces.map_values(|piece: Seq<char>| trim(piece)),
            lines@.len() == pieces.len(),
            name@.len() > 0,
            i <= lines@.len(),
            forall|k: int| 0 <= k < i ==> trim(#[trigger] pieces[k]) != name@,
        decreases lines@.len() - i,
    {
        assert(texts(lines@)[i as int] == trim(pieces[i as int]));
        if same(lines[i].as_str(), name) {
            return true;
        }
        i += 1;
    }
    false
}

impl ClickhouseSink {
    /// The names of the columns that the table has to have.
    fn expected_columns(&self) -> (r: Vec<String>)
        ensures
            texts(r@) == expected(self@),
    {
        let base = self.base_columns();
        let ghost all = pairs(base@) + pairs(self.extra_columns@);
        let ghost names = expected(self@);
        assert(names.len() == base@.len() + self.extra_columns@.len());
        let mut out: Vec<String> = Vec::new();
        assert(texts(out@) =~= names.take(0));
        let mut i: usize = 0;
        while i < base.len()
            invariant
                all == pairs(base@) + pairs(self.extra_columns@),
                names.len() == all.len(),
                forall|k: int| 0 <= k < names.len() ==> #[trigger] names[k] == all[k].0,
                i <= base@.len(),
                texts(out@) == names.take(i as int),
            decreases base@.len() - i,
        {
            let name = base[i].0.clone();
            proof {
                assert(all[i as int] == pairs(base@)[i as int]);
                assert(names[i as int] == name@);
            }
            add_line(&mut out, name);
            assert(texts(out@) =~= names.take(i + 1));
            i += 1;
        }
        let mut j: usize = 0;
        while j < self.extra_columns.len()
            invariant
                all == pairs(base@) + pairs(self.extra_columns@),
                names.len() == all.len(),
                forall|k: int| 0 <= k < names.len() ==> #[trigger] names[k] == all[k].0,
                j <= self.extra_columns@.len(),
                texts(out@) == names.take(base@.len() + j),
            decreases self.extra_columns@.len() - j,
        {
            let name = self.extra_columns[j].0.clone();
            proof {
                let n = base@.len() + j;
                assert(all[n] == pairs(self.extra_columns@)[j as int]);
                assert(names[n] == name@);
            }
            add_line(&mut out, name);
            assert(texts(out@) =~= names.take(base@.len() + j + 1));
            j += 1;
        }
        assert(names.take(names.len() as int) =~= names);
        out
    }

    /// Those of the expected columns that the answer does not list.
    fn missing_columns(&self, answer: &str) -> (r: Vec<String>)
        ensures
            texts(r@) == missing(expected(self@), answer@),
    {
        let lines = split_trimmed(answer, '\n');
        let names = self.expected_columns();
        let ghost all = expected(self@);
        let mut out: Vec<String> = Vec::new();
        assert(texts(out@) =~= Seq::empty());
        let mut i: usize = 0;
        while i < names.len()
            invariant
                texts(lines@) == split(answer@, '\n').map_values(|piece: Seq<char>| trim(piece)),
                all == texts(names@),
                i <= names@.len(),
                texts(out@) == missing(all.take(i as int), answer@),
            decreases names@.len() - i,
        {
            proof {
                assert(all.take(i + 1).drop_last() =~= all.take(i as int));
                assert(all.take(i + 1).last() == names@[i as int]@);
            }
            if !is_listed(&lines, names[i].as_str(), Ghost(answer@)) {
                add_line(&mut out, names[i].clone());
            }
            i += 1;
        }
        assert(all.take(i as int) =~= all);
        out
    }

    /// The statement that a question is asked with.
    pub fn probe_sql(&self, probe: Probe) -> (r: String)
        ensures
            r@ == probe_sql(self@, probe),
    {
        match probe {
            Probe::Server => "SELECT 1".to_owned(),
            Probe::Table => {
                let mut text = "EXISTS TABLE ".to_owned();
                text.push_str(qualify(self.database.as_str(), self.table.as_str()).as_str());
                text
            },
            Probe::Columns => {
                let mut text = "SELECT name FROM system.columns WHERE database = '".to_owned();
                text.push_str(escape_literal(self.database.as_str()).as_str());
                text.push_str("' AND table = '");
                text.push_str(escape_literal(self.table.as_str()).as_str());
                text.push_str("' FORMAT TSV");
                text
            },
        }
    }

    /// What the answer to a question leads to. The first question is about the server.
    pub fn on_probed(&self, probe: Probe, answer: Result<String, Error>) -> (r: Health)
        ensures
            r@ == diagnosis(
                self@,
                probe,
                match answer {
                    Ok(text) => Ok(text@),
                    Err(error) => Err(error@),
                },
            ),
    {
        let text = match answer {
            Ok(text) => text,
            Err(error) => {
                return Health::Unhealthy(error);
            },
        };
        match probe {
            Probe::Server => Health::Ask(Probe::Table),
            Probe::Table => {
                if same(trimmed(text.as_str()).as_str(), "1") {
                    Health::Ask(Probe::Columns)
                } else {
                    let mut cause = "表 ".to_owned();
                    cause.push_str(self.database.as_str());
                    cause.push_str(".");
                    cause.push_str(self.table.as_str());
                    cause.push_str(" 不存在，执行 `tracepipe --ddl` 输出的语句建表");
                    Health::Unhealthy(Error::Sink(cause))
                }
            },
            Probe::Columns => {
                let lacking = self.missing_columns(text.as_str());
                assert(texts(lacking@).len() == lacking@.len());
                if lacking.len() == 0 {
                    Health::Healthy
                } else {
                    let mut cause = "表 ".to_owned();
                    cause.push_str(self.database.as_str());
                    cause.push_str(".");
                    cause.push_str(self.table.as_str());
                    cause.push_str(" 缺列 ");
                    cause.push_str(joined(&lacking, ", ").as_str());
                    cause.push_str(
                        "：表结构没跟上配置，这些字段插入时会被静默丢掉。重跑 `tracepipe --ddl` 输出的语句（ddl Job）即可补齐",
                    );
                    Health::Unhealthy(Error::Sink(cause))
                }
            },
        }
    }
}

/// The sink is healthy exactly if the server answers, says that there is a table and lists every
/// column that the table has to have.
pub proof fn lemma_health(
    sink: SinkModel,
    server: Result<Seq<char>, Failure>,
    table: Result<Seq<char>, Failure>,
    columns: Result<Seq<char>, Failure>,
)
    ensures
        (diagnosis(sink, Probe::Server, server) == HealthModel::Ask(Probe::Table) && diagnosis(
            sink,
            Probe::Table,
            table,
        ) == HealthModel::Ask(Probe::Columns) && diagnosis(sink, Probe::Columns, columns)
            is Healthy) <==> (server is Ok && table is Ok && trim(table->Ok_0) == "1"@ && columns
            is Ok && forall|i: int|
            0 <= i < expected(sink).len() ==> listed(columns->Ok_0, #[trigger] expected(sink)[i])),
{
    if columns is Ok {
        lemma_missing(expected(sink), columns->Ok_0);
    }
}

proof fn lemma_missing(names: Seq<Seq<char>>, answer: Seq<char>)
    ensures
        missing(names, answer).len() == 0 <==> forall|i: int|
            0 <= i < names.len() ==> listed(answer, #[trigger] names[i]),
    decreases names.len(),
{
    if names.len() > 0 {
        let front = names.drop_last();
        lemma_missing(front, answer);
        if forall|i: int| 0 <= i < names.len() ==> listed(answer, #[trigger] names[i]) {
            assert forall|i: int| 0 <= i < front.len() implies listed(
                answer,
                #[trigger] front[i],
            ) by {
                assert(listed(answer, names[i]));
            }
            assert(listed(answer, names[names.len() - 1]));
        }
        if missing(names, answer).len() == 0 {
            assert forall|i: int| 0 <= i < names.len() implies listed(
                answer,
                #[trigger] names[i],
            ) by {
                if i < front.len() {
                    assert(listed(answer, front[i]));
                }
            }
        }
    }
}

/// Every column that the health check looks for is a column of the table that the statements
/// create and bring up to date. So running them is what an unhealthy table needs.
pub proof fn lemma_ddl_covers_the_health_check(sink: SinkModel, i: int)
    requires
        0 <= i < expected(sink).len(),
    ensures
        names(table_columns(sink, sink.extra), expected(sink)[i]),
{
    let base = base_columns(sink.zone);
    let all = base + sink.extra;
    let name = expected(sink)[i];
    assert(name == all[i].0);
    if i < base.len() {
        assert(base[i].0 == name);
    } else {
        assert(sink.extra[i - base.len()].0 == name);
    }
    lemma_with_columns(base, sink.extra, name);
}

} // verus!
