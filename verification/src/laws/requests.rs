//! Requests to ClickHouse: what they carry, and what the answers lead to.

use vstd::prelude::*;

use crate::batch::nanos;
use crate::clock::number_of;
use crate::error::Failure;
use crate::event::{row_text, text_line, SpanModel};
use crate::json::{is_json_line, one_line};
use crate::laws::rows::lemma_decimal_reads_back;
use crate::laws::table::ends;
use crate::laws::words::lemma_split_finds;
use crate::sink::clickhouse::{
    base_columns, carries, diagnosis, expected, headers_of, insert_text, lemma_literal_reads_back,
    listed, literal, missing, packing_failure, packs, pairs, probe_sql, query_of, response,
    rows_text, unliteral, zone_of, HealthModel, Pairs, Probe, Request, SinkModel,
};
use crate::sink::console::{line_of, lines_of, Encoding};
use crate::sink::statements::begins;
use crate::text::{
    contains, decimal, join, lemma_split_at, lemma_split_none, lemma_split_not_empty, occurs_at,
    split, trim,
};

verus! {

/// The texts under a name, in their order.
pub open spec fn all_under(list: Pairs, name: Seq<char>) -> Seq<Seq<char>>
    decreases list.len(),
{
    if list.len() == 0 {
        Seq::empty()
    } else if list.last().0 == name {
        all_under(list.drop_last(), name).push(list.last().1)
    } else {
        all_under(list.drop_last(), name)
    }
}

proof fn lemma_all_under_push(list: Pairs, name: Seq<char>, text: Seq<char>, key: Seq<char>)
    ensures
        all_under(list.push((name, text)), key) == if name == key {
            all_under(list, key).push(text)
        } else {
            all_under(list, key)
        },
{
    assert(list.push((name, text)).drop_last() =~= list);
}

proof fn lemma_names_of_parameters()
    ensures
        "query"@ != "date_time_input_format"@,
        "query"@ != "input_format_skip_unknown_fields"@,
        "query"@ != "async_insert"@,
        "query"@ != "wait_for_async_insert"@,
        "date_time_input_format"@ != "input_format_skip_unknown_fields"@,
        "date_time_input_format"@ != "async_insert"@,
        "date_time_input_format"@ != "wait_for_async_insert"@,
        "input_format_skip_unknown_fields"@ != "async_insert"@,
        "input_format_skip_unknown_fields"@ != "wait_for_async_insert"@,
        "async_insert"@ != "wait_for_async_insert"@,
        "content-length"@ != "content-encoding"@,
        "content-length"@ != "X-ClickHouse-User"@,
        "content-length"@ != "X-ClickHouse-Key"@,
        "content-encoding"@ != "X-ClickHouse-User"@,
        "content-encoding"@ != "X-ClickHouse-Key"@,
        "X-ClickHouse-User"@ != "X-ClickHouse-Key"@,
{
    reveal_strlit("query");
    reveal_strlit("date_time_input_format");
    reveal_strlit("input_format_skip_unknown_fields");
    reveal_strlit("async_insert");
    reveal_strlit("wait_for_async_insert");
    reveal_strlit("content-length");
    reveal_strlit("content-encoding");
    reveal_strlit("X-ClickHouse-User");
    reveal_strlit("X-ClickHouse-Key");
    assert("query"@.len() == 5 && "date_time_input_format"@.len() == 22);
    assert("input_format_skip_unknown_fields"@.len() == 32 && "async_insert"@.len() == 12);
    assert("wait_for_async_insert"@.len() == 21 && "content-length"@.len() == 14);
    assert("content-encoding"@.len() == 16 && "X-ClickHouse-User"@.len() == 17);
    assert("X-ClickHouse-Key"@.len() == 16);
    assert("content-encoding"@[0] == 'c' && "X-ClickHouse-Key"@[0] == 'X');
}

/// A request gives the statement under `query`, lets times be read in the form in which they are
/// written and lets fields without a column be passed over. It asks the server to collect rows,
/// and to answer only once they are stored, exactly if that is wanted.
pub proof fn lemma_parameters_of_a_request(sql: Seq<char>, async_insert: bool)
    ensures
        ({
            let query = query_of(sql, async_insert);
            &&& all_under(query, "query"@) == seq![sql]
            &&& all_under(query, "date_time_input_format"@) == seq!["best_effort"@]
            &&& all_under(query, "input_format_skip_unknown_fields"@) == seq!["1"@]
            &&& all_under(query, "async_insert"@) == if async_insert {
                seq!["1"@]
            } else {
                Seq::empty()
            }
            &&& all_under(query, "wait_for_async_insert"@) == if async_insert {
                seq!["1"@]
            } else {
                Seq::empty()
            }
            &&& query.len() == if async_insert {
                5nat
            } else {
                3nat
            }
        }),
{
    lemma_names_of_parameters();
    let none: Pairs = Seq::empty();
    let a = none.push(("query"@, sql));
    let b = a.push(("date_time_input_format"@, "best_effort"@));
    let c = b.push(("input_format_skip_unknown_fields"@, "1"@));
    let d = c.push(("async_insert"@, "1"@));
    let e = d.push(("wait_for_async_insert"@, "1"@));
    assert(query_of(sql, false) =~= c);
    assert(query_of(sql, true) =~= e);
    assert forall|key: Seq<char>| true implies #[trigger] all_under(c, key) == (if key == "query"@ {
        seq![sql]
    } else if key == "date_time_input_format"@ {
        seq!["best_effort"@]
    } else if key == "input_format_skip_unknown_fields"@ {
        seq!["1"@]
    } else {
        Seq::empty()
    }) by {
        lemma_all_under_push(none, "query"@, sql, key);
        lemma_all_under_push(a, "date_time_input_format"@, "best_effort"@, key);
        lemma_all_under_push(b, "input_format_skip_unknown_fields"@, "1"@, key);
        assert(all_under(none, key) =~= Seq::empty());
    }
    assert forall|key: Seq<char>| true implies #[trigger] all_under(e, key) == (if key
        == "async_insert"@ || key == "wait_for_async_insert"@ {
        seq!["1"@]
    } else {
        all_under(c, key)
    }) by {
        lemma_all_under_push(c, "async_insert"@, "1"@, key);
        lemma_all_under_push(d, "wait_for_async_insert"@, "1"@, key);
    }
}

/// A request gives the length of its body, says that the body is in gzip exactly if it is, and
/// gives the name and the password exactly if the sink has both.
pub proof fn lemma_headers_of_a_request(sink: SinkModel, length: nat, compressed: bool)
    ensures
        ({
            let headers = headers_of(sink, length, compressed);
            let known = sink.user is Some && sink.password is Some;
            &&& all_under(headers, "content-length"@).len() == 1
            &&& number_of(all_under(headers, "content-length"@)[0]) == length
            &&& all_under(headers, "content-encoding"@) == if compressed {
                seq!["gzip"@]
            } else {
                Seq::empty()
            }
            &&& all_under(headers, "X-ClickHouse-User"@) == if known {
                seq![sink.user->0]
            } else {
                Seq::empty()
            }
            &&& all_under(headers, "X-ClickHouse-Key"@) == if known {
                seq![sink.password->0]
            } else {
                Seq::empty()
            }
            &&& headers.len() == 1 + (if compressed {
                1int
            } else {
                0
            }) + (if known {
                2int
            } else {
                0
            })
        }),
{
    lemma_names_of_parameters();
    lemma_decimal_reads_back(length);
    let none: Pairs = Seq::empty();
    let digits = decimal(length);
    let a = none.push(("content-length"@, digits));
    let b = if compressed {
        a.push(("content-encoding"@, "gzip"@))
    } else {
        a
    };
    let headers = headers_of(sink, length, compressed);
    assert forall|key: Seq<char>| true implies #[trigger] all_under(b, key) == (if key
        == "content-length"@ {
        seq![digits]
    } else if compressed && key == "content-encoding"@ {
        seq!["gzip"@]
    } else {
        Seq::empty()
    }) by {
        lemma_all_under_push(none, "content-length"@, digits, key);
        lemma_all_under_push(a, "content-encoding"@, "gzip"@, key);
        assert(all_under(none, key) =~= Seq::empty());
    }
    if sink.user is Some && sink.password is Some {
        let c = b.push(("X-ClickHouse-User"@, sink.user->0));
        let d = c.push(("X-ClickHouse-Key"@, sink.password->0));
        assert(headers =~= d);
        assert forall|key: Seq<char>| true implies #[trigger] all_under(d, key) == (if key
            == "X-ClickHouse-User"@ {
            seq![sink.user->0]
        } else if key == "X-ClickHouse-Key"@ {
            seq![sink.password->0]
        } else {
            all_under(b, key)
        }) by {
            lemma_all_under_push(b, "X-ClickHouse-User"@, sink.user->0, key);
            lemma_all_under_push(c, "X-ClickHouse-Key"@, sink.password->0, key);
        }
    } else {
        assert(headers =~= b);
    }
}

/// Rows go to the table that the sink is given, in the database that it is given.
#[verifier::spinoff_prover]
pub proof fn lemma_rows_go_to_the_table(sink: SinkModel)
    ensures
        insert_text(sink) == "INSERT INTO `"@ + sink.database + "`.`"@ + sink.table
            + "` FORMAT JSONEachRow"@,
{
    reveal_strlit("INSERT INTO ");
    reveal_strlit("INSERT INTO `");
    reveal_strlit("`");
    reveal_strlit(" FORMAT JSONEachRow");
    reveal_strlit("` FORMAT JSONEachRow");
    assert(insert_text(sink) =~= "INSERT INTO `"@ + sink.database + "`.`"@ + sink.table
        + "` FORMAT JSONEachRow"@);
}

/// The body of a request is cut by its line feeds into the rows of the spans, one for each span
/// and in their order, with nothing behind the last one.
pub proof fn lemma_each_span_has_its_line(spans: Seq<SpanModel>, zone: Seq<char>)
    requires
        forall|i: int| 0 <= i < spans.len() ==> is_json_line(row_text(#[trigger] spans[i], zone)),
    ensures
        split(rows_text(spans, zone), '\n') == spans.map_values(
            |span: SpanModel| row_text(span, zone),
        ).push(Seq::empty()),
    decreases spans.len(),
{
    let rows = spans.map_values(|span: SpanModel| row_text(span, zone));
    let none = Seq::<char>::empty();
    if spans.len() == 0 {
        assert(split(rows_text(spans, zone), '\n') =~= rows.push(none));
    } else {
        let front = spans.drop_last();
        let last = spans[spans.len() - 1];
        let before = front.map_values(|span: SpanModel| row_text(span, zone));
        assert forall|i: int| 0 <= i < front.len() implies is_json_line(
            row_text(#[trigger] front[i], zone),
        ) by {
            assert(front[i] == spans[i]);
        }
        lemma_each_span_has_its_line(front, zone);
        lemma_line_is_added(rows_text(front, zone), row_text(last, zone), before);
        assert(before.push(row_text(last, zone)) =~= rows);
    }
}

/// A line with a line feed behind it is one piece more, before the empty one at the end.
proof fn lemma_line_is_added(text: Seq<char>, line: Seq<char>, lines: Seq<Seq<char>>)
    requires
        one_line(line),
        split(text, '\n') == lines.push(Seq::empty()),
    ensures
        split(text + line + "\n"@, '\n') == lines.push(line).push(Seq::empty()),
{
    let none = Seq::<char>::empty();
    reveal_strlit("\n");
    assert(text + line + "\n"@ =~= (text + line).push('\n') + none);
    lemma_split_at(text + line, '\n', none);
    lemma_split_none(none, '\n');
    lemma_split_extends(text, line);
    assert(lines.push(none).drop_last() =~= lines);
    assert(none + line =~= line);
    let pieces = split(text + line, '\n');
    assert(pieces =~= pieces.drop_last().push(pieces.last()));
    assert(pieces =~= lines.push(line));
    assert(split(text + line + "\n"@, '\n') =~= lines.push(line).push(none));
}

proof fn lemma_split_extends(text: Seq<char>, line: Seq<char>)
    requires
        one_line(line),
    ensures
        split(text + line, '\n').drop_last() == split(text, '\n').drop_last(),
        split(text + line, '\n').last() == split(text, '\n').last() + line,
        split(text + line, '\n').len() == split(text, '\n').len(),
    decreases line.len(),
{
    lemma_split_not_empty(text, '\n');
    if line.len() == 0 {
        assert(text + line =~= text);
        assert(split(text, '\n').last() + line =~= split(text, '\n').last());
    } else {
        let less = line.drop_last();
        assert forall|i: int| 0 <= i < less.len() implies less[i] != '\n' && less[i] != '\r' by {
            assert(less[i] == line[i]);
        }
        lemma_split_extends(text, less);
        assert((text + line).drop_last() =~= text + less);
        assert(line[line.len() - 1] != '\n');
        let front = split(text + less, '\n');
        assert(split(text + line, '\n') =~= front.drop_last().push(front.last().push(line.last())));
        assert(split(text + line, '\n').last() =~= split(text, '\n').last() + line);
        assert(split(text + line, '\n').drop_last() =~= front.drop_last());
    }
}

/// Times in the rows are in the zone of the sink, and in UTC where it has none.
pub proof fn lemma_zone_of_the_rows(sink: SinkModel)
    ensures
        sink.zone is Some ==> zone_of(sink) == sink.zone->0,
        sink.zone is None ==> zone_of(sink) == "UTC"@,
{
}

/// What is shown of spans is cut by its line feeds into one line for each span, in their order,
/// with nothing behind the last one, if no name holds a line feed.
pub proof fn lemma_each_span_is_shown_on_its_line(
    encoding: Encoding,
    spans: Seq<SpanModel>,
    millis: Seq<String>,
)
    requires
        forall|i: int|
            0 <= i < spans.len() ==> one_line(line_of(encoding, #[trigger] spans[i], millis[i]@)),
    ensures
        split(lines_of(encoding, spans, millis), '\n') == Seq::new(
            spans.len(),
            |i: int| line_of(encoding, spans[i], millis[i]@),
        ).push(Seq::empty()),
    decreases spans.len(),
{
    let none = Seq::<char>::empty();
    let lines = Seq::new(spans.len(), |i: int| line_of(encoding, spans[i], millis[i]@));
    if spans.len() == 0 {
        assert(split(lines_of(encoding, spans, millis), '\n') =~= lines.push(none));
    } else {
        let front = spans.drop_last();
        let n = spans.len() - 1;
        let before = Seq::new(front.len(), |i: int| line_of(encoding, front[i], millis[i]@));
        assert forall|i: int| 0 <= i < front.len() implies one_line(
            line_of(encoding, #[trigger] front[i], millis[i]@),
        ) by {
            assert(front[i] == spans[i]);
        }
        lemma_each_span_is_shown_on_its_line(encoding, front, millis);
        let last = line_of(encoding, spans[n], millis[n]@);
        lemma_line_is_added(lines_of(encoding, front, millis), last, before);
        assert(before.push(last) =~= lines);
    }
}

// ---------------------------------------------------------------------------------------------
// Health
// ---------------------------------------------------------------------------------------------

/// The question about the table names it with its database; the one about the columns holds, in
/// the places of the two, texts that the server reads as the database and the table.
#[verifier::spinoff_prover]
#[verifier::rlimit(40)]
pub proof fn lemma_questions_name_the_table(sink: SinkModel)
    ensures
        probe_sql(sink, Probe::Server) == "SELECT 1"@,
        probe_sql(sink, Probe::Table) == "EXISTS TABLE `"@ + sink.database + "`.`"@ + sink.table
            + "`"@,
        probe_sql(sink, Probe::Columns)
            == "SELECT name FROM system.columns WHERE database = '"@ + literal(sink.database)
            + "' AND table = '"@ + literal(sink.table) + "' FORMAT TSV"@,
        unliteral(literal(sink.database)) == sink.database,
        unliteral(literal(sink.table)) == sink.table,
{
    lemma_literal_reads_back(sink.database);
    lemma_literal_reads_back(sink.table);
    reveal_strlit("EXISTS TABLE ");
    reveal_strlit("EXISTS TABLE `");
    reveal_strlit("`");
    assert(probe_sql(sink, Probe::Table) =~= "EXISTS TABLE `"@ + sink.database + "`.`"@
        + sink.table + "`"@);
}

/// The columns that a table has to have are those that every table has and those for fields.
pub proof fn lemma_expected_columns(sink: SinkModel)
    ensures
        expected(sink).len() == base_columns(sink.zone).len() + sink.extra.len(),
        forall|i: int|
            0 <= i < base_columns(sink.zone).len() ==> #[trigger] expected(sink)[i]
                == base_columns(sink.zone)[i].0,
        forall|i: int|
            0 <= i < sink.extra.len() ==> expected(sink)[base_columns(sink.zone).len() + i]
                == #[trigger] sink.extra[i].0,
{
    let all = base_columns(sink.zone) + sink.extra;
    assert forall|i: int| 0 <= i < sink.extra.len() implies expected(sink)[base_columns(
        sink.zone,
    ).len() + i] == #[trigger] sink.extra[i].0 by {
        assert(all[base_columns(sink.zone).len() + i] == sink.extra[i]);
    }
}

/// What is missing are the names that the answer does not list, all of them and in their order.
pub proof fn lemma_missing_columns(names: Seq<Seq<char>>, answer: Seq<char>)
    ensures
        missing(names, answer) == names.filter(|name: Seq<char>| !listed(answer, name)),
    decreases names.len(),
{
    reveal(Seq::filter);
    if names.len() > 0 {
        lemma_missing_columns(names.drop_last(), answer);
    }
    assert(missing(names, answer) =~= names.filter(|name: Seq<char>| !listed(answer, name)));
}

/// An answer lists a column whose name stands on a line of its own, with or without white space
/// around it, wherever that line is.
pub proof fn lemma_a_line_lists_its_column(
    front: Seq<char>,
    line: Seq<char>,
    back: Seq<char>,
    name: Seq<char>,
)
    requires
        !line.contains('\n'),
        trim(line) == name,
        name.len() > 0,
    ensures
        listed(front.push('\n') + line.push('\n') + back, name),
{
    let answer = front.push('\n') + line.push('\n') + back;
    lemma_split_finds(front, line, back, '\n');
    let i = choose|i: int| 0 <= i < split(answer, '\n').len() && split(answer, '\n')[i] == line;
    assert(trim(split(answer, '\n')[i]) == name);
}

/// The questions are asked in their order: about the server, about the table, about the columns.
/// An error ends them and is handed on as it is. A table that is not there, and one that lacks
/// columns, are reported by the names of database and table, the latter with every column that it
/// lacks.
pub proof fn lemma_what_an_answer_leads_to(
    sink: SinkModel,
    probe: Probe,
    answer: Result<Seq<char>, Failure>,
)
    ensures
        ({
            let health = diagnosis(sink, probe, answer);
            let about = "表 "@ + sink.database + "."@ + sink.table;
            match answer {
                Err(failure) => health == HealthModel::Unhealthy(failure),
                Ok(text) => {
                    &&& probe is Server ==> health == HealthModel::Ask(Probe::Table)
                    &&& probe is Table && trim(text) == "1"@ ==> health == HealthModel::Ask(
                        Probe::Columns,
                    )
                    &&& probe is Table && trim(text) != "1"@ ==> {
                        &&& health is Unhealthy
                        &&& health->Unhealthy_0 is Sink
                        &&& begins(health->Unhealthy_0->Sink_0, about + " 不存在"@)
                        &&& contains(health->Unhealthy_0->Sink_0, "tracepipe --ddl"@)
                    }
                    &&& probe is Columns ==> {
                        let lacking = expected(sink).filter(
                            |name: Seq<char>| !listed(text, name),
                        );
                        if lacking.len() == 0 {
                            health is Healthy
                        } else {
                            &&& health is Unhealthy
                            &&& health->Unhealthy_0 is Sink
                            &&& begins(
                                health->Unhealthy_0->Sink_0,
                                about + " 缺列 "@ + join(lacking, ", "@) + "："@,
                            )
                            &&& contains(health->Unhealthy_0->Sink_0, "tracepipe --ddl"@)
                        }
                    }
                },
            }
        }),
{
    if let Ok(text) = answer {
        let health = diagnosis(sink, probe, answer);
        let about = "表 "@ + sink.database + "."@ + sink.table;
        lemma_missing_columns(expected(sink), text);
        let lacking = missing(expected(sink), text);
        if probe is Table && trim(text) != "1"@ {
            let said = health->Unhealthy_0->Sink_0;
            lemma_advice_about_the_table(about);
            assert(said =~= about + " 不存在，执行 `tracepipe --ddl` 输出的语句建表"@);
        } else if probe is Columns && lacking.len() > 0 {
            let said = health->Unhealthy_0->Sink_0;
            let named = about + " 缺列 "@ + join(lacking, ", "@);
            lemma_advice_about_columns(named);
            assert(said =~= named
                + "：表结构没跟上配置，这些字段插入时会被静默丢掉。重跑 `tracepipe --ddl` 输出的语句（ddl Job）即可补齐"@);
        }
    }
}

#[verifier::spinoff_prover]
#[verifier::rlimit(40)]
proof fn lemma_advice_about_the_table(about: Seq<char>)
    ensures
        ({
            let said = about + " 不存在，执行 `tracepipe --ddl` 输出的语句建表"@;
            begins(said, about + " 不存在"@) && contains(said, "tracepipe --ddl"@)
        }),
{
    let tail = " 不存在，执行 `tracepipe --ddl` 输出的语句建表"@;
    let said = about + tail;
    reveal_strlit(" 不存在，执行 `tracepipe --ddl` 输出的语句建表");
    reveal_strlit(" 不存在");
    reveal_strlit("tracepipe --ddl");
    assert(said.take((about + " 不存在"@).len() as int) =~= about + " 不存在"@);
    assert(occurs_at(said, "tracepipe --ddl"@, about.len() as int + 9));
}

#[verifier::spinoff_prover]
#[verifier::rlimit(40)]
proof fn lemma_advice_about_columns(named: Seq<char>)
    ensures
        ({
            let said = named
                + "：表结构没跟上配置，这些字段插入时会被静默丢掉。重跑 `tracepipe --ddl` 输出的语句（ddl Job）即可补齐"@;
            begins(said, named + "："@) && contains(said, "tracepipe --ddl"@)
        }),
{
    let tail =
        "：表结构没跟上配置，这些字段插入时会被静默丢掉。重跑 `tracepipe --ddl` 输出的语句（ddl Job）即可补齐"@;
    let said = named + tail;
    reveal_strlit(
        "：表结构没跟上配置，这些字段插入时会被静默丢掉。重跑 `tracepipe --ddl` 输出的语句（ddl Job）即可补齐",
    );
    reveal_strlit("：");
    reveal_strlit("tracepipe --ddl");
    assert(said.take((named + "："@).len() as int) =~= named + "："@);
    assert(occurs_at(said, "tracepipe --ddl"@, named.len() as int + 28));
}

// ---------------------------------------------------------------------------------------------
// Sending
// ---------------------------------------------------------------------------------------------

/// A request goes to the address of the sink, carries the body that it is given and may take as
/// long as the sink allows; its statement, its parameters and its headers are those for that body.
pub proof fn lemma_what_a_request_carries(
    request: Request,
    sink: SinkModel,
    sql: Seq<char>,
    body: Seq<u8>,
    compressed: bool,
)
    requires
        carries(request, sink, sql, body, compressed),
    ensures
        request.url@ == sink.endpoint,
        request.body@ == body,
        nanos(request.timeout) == sink.timeout,
        all_under(pairs(request.query@), "query"@) == seq![sql],
        pairs(request.query@).len() == if sink.async_insert {
            5nat
        } else {
            3nat
        },
        number_of(all_under(pairs(request.headers@), "content-length"@)[0]) == request.body@.len(),
        all_under(pairs(request.headers@), "content-encoding"@).len() == if compressed {
            1nat
        } else {
            0nat
        },
{
    lemma_parameters_of_a_request(sql, sink.async_insert);
    lemma_headers_of_a_request(sink, body.len(), compressed);
}

/// A body is packed exactly if that is wanted and there is anything to pack.
pub proof fn lemma_what_is_packed(sink: SinkModel, length: nat)
    ensures
        packs(sink, length) <==> sink.compress && length != 0,
{
}

/// What the server said is taken exactly if its status is one of success, from 200 to 299. Else the
/// error shows the status and the text without the white space around it.
pub proof fn lemma_only_success_counts(status: u16, status_text: Seq<char>, text: Seq<char>)
    ensures
        status >= 200 && status <= 299 ==> response(status, status_text, text) == Ok::<_, Failure>(
            text,
        ),
        status < 200 || status > 299 ==> {
            let said = response(status, status_text, text);
            &&& said is Err && said->Err_0 is Sink
            &&& begins(said->Err_0->Sink_0, "ClickHouse 返回 "@ + status_text + ": "@)
            &&& ends(said->Err_0->Sink_0, ": "@ + trim(text))
        },
{
    if status < 200 || status > 299 {
        let said = response(status, status_text, text)->Err_0->Sink_0;
        let head = "ClickHouse 返回 "@ + status_text + ": "@;
        let tail = ": "@ + trim(text);
        assert(said.take(head.len() as int) =~= head);
        assert(said.skip(said.len() - tail.len()) =~= tail);
    }
}

/// A body that cannot be packed is reported with the cause, and without advice.
pub proof fn lemma_packing_failed(cause: Seq<char>)
    ensures
        packing_failure(cause) is IoContext,
        packing_failure(cause)->IoContext_0 == "压缩 ClickHouse 请求体失败"@,
        packing_failure(cause)->IoContext_1 == cause,
{
}

/// In JSON a span is shown as its row with its times in UTC, and else in short.
pub proof fn lemma_how_a_span_is_shown(span: SpanModel, millis: Seq<char>)
    ensures
        line_of(Encoding::Json, span, millis) == row_text(span, "UTC"@),
        line_of(Encoding::Text, span, millis) == text_line(span, millis),
{
}

} // verus!
