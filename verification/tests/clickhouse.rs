use std::io::Read;
use std::time::Duration;

use flate2::read::GzDecoder;
use tracepipe::error::Error;
use tracepipe::event::{SpanEvent, TimedEvent};
use tracepipe::sink::clickhouse::{
    escape_literal, read_response, ClickhouseSink, Health, Probe, Request,
};

/// 2026-09-07 03:04:08.914293456 UTC
const START: u64 = 1_788_750_248_914_293_456;

fn span() -> SpanEvent {
    SpanEvent {
        timestamp: START,
        trace_id: "e89a476882236ce0f1186d1522c8f59f".into(),
        span_id: "e8b0e73e2132f21c".into(),
        span_name: "压缩测试".into(),
        events: vec![TimedEvent {
            timestamp: START + 1,
            name: "exception".into(),
            ..Default::default()
        }],
        ..Default::default()
    }
}

fn sink() -> ClickhouseSink {
    ClickhouseSink::new("http://127.0.0.1:8123", "logs", "otel_trace")
}

fn column(name: &str) -> (String, String) {
    (name.to_owned(), "LowCardinality(String)".to_owned())
}

fn header<'a>(request: &'a Request, name: &str) -> Option<&'a str> {
    request
        .headers
        .iter()
        .find(|(key, _)| key == name)
        .map(|(_, value)| value.as_str())
}

fn query<'a>(request: &'a Request, name: &str) -> Option<&'a str> {
    request
        .query
        .iter()
        .find(|(key, _)| key == name)
        .map(|(_, value)| value.as_str())
}

#[test]
fn ddl_lists_every_column_and_index() {
    let ddl = sink().create_table_ddl();
    assert!(
        ddl.starts_with("CREATE TABLE IF NOT EXISTS `logs`.`otel_trace`"),
        "{ddl}"
    );
    assert!(
        ddl.contains("`timestamp`           DateTime64(9),"),
        "{ddl}"
    );
    assert!(
        ddl.contains("`events.timestamp`    Array(DateTime64(9)),"),
        "{ddl}"
    );
    for name in [
        "trace_id",
        "span_id",
        "parent_span_id",
        "trace_state",
        "span_name",
        "span_kind",
        "service_name",
        "duration_ns",
        "status_code",
        "status_message",
        "scope_name",
        "scope_version",
        "resource_attributes",
        "span_attributes",
        "events.name",
        "events.attributes",
        "links.trace_id",
        "links.span_id",
        "links.trace_state",
        "links.attributes",
    ] {
        assert!(ddl.contains(&format!("`{name}`")), "{name}:\n{ddl}");
    }
    for name in [
        "idx_trace_id",
        "idx_res_attr_key",
        "idx_res_attr_value",
        "idx_span_attr_key",
        "idx_span_attr_value",
        "idx_duration",
    ] {
        assert!(ddl.contains(&format!("INDEX `{name}`")), "{ddl}");
        assert!(
            ddl.contains(&format!("ADD INDEX IF NOT EXISTS `{name}`")),
            "{ddl}"
        );
    }
    assert!(ddl.contains("ORDER BY (`service_name`, `span_name`, toDateTime(`timestamp`))"));
    assert!(
        !ddl.contains("ADD COLUMN IF NOT EXISTS `timestamp`"),
        "{ddl}"
    );
    assert!(
        ddl.contains("ADD COLUMN IF NOT EXISTS `events.timestamp`"),
        "{ddl}"
    );
    assert!(!ddl.contains("MODIFY COLUMN"), "{ddl}");
    assert!(!ddl.trim_end().ends_with(';'), "{ddl}");
}

#[test]
fn timezone_changes_both_timestamp_columns() {
    let ddl = sink()
        .timezone(chrono_tz::Asia::Shanghai)
        .create_table_ddl();
    assert!(
        ddl.contains("`timestamp`           DateTime64(9, 'Asia/Shanghai'),"),
        "{ddl}"
    );
    assert!(
        ddl.contains("`events.timestamp`    Array(DateTime64(9, 'Asia/Shanghai')),"),
        "{ddl}"
    );
    assert!(
        ddl.contains("MODIFY COLUMN `timestamp` DateTime64(9, 'Asia/Shanghai')"),
        "{ddl}"
    );
    assert!(
        ddl.contains("MODIFY COLUMN `events.timestamp` Array(DateTime64(9, 'Asia/Shanghai'))"),
        "{ddl}"
    );
}

#[test]
fn cluster_ddl_is_replicated_plus_distributed() {
    let sink = ClickhouseSink::new("http://ck-lb:8123", "logs", "otel_trace")
        .cluster("bj_ck")
        .extra_columns(vec![column("cluster")]);
    let ddl = sink.create_table_ddl();
    assert!(
        ddl.contains("`logs`.`otel_trace_local` ON CLUSTER `bj_ck`"),
        "{ddl}"
    );
    assert!(ddl.contains("ENGINE = ReplicatedMergeTree"), "{ddl}");
    assert!(
        ddl.contains("Distributed(`bj_ck`, `logs`, `otel_trace_local`, cityHash64(`trace_id`))"),
        "{ddl}"
    );
    assert_eq!(ddl.matches("CREATE TABLE").count(), 2, "{ddl}");
    assert_eq!(ddl.matches("ALTER TABLE").count(), 2, "{ddl}");
    assert_eq!(ddl.matches(";\n").count(), 3, "{ddl}");
    assert_eq!(
        ddl.matches("ADD INDEX IF NOT EXISTS `idx_trace_id`")
            .count(),
        1,
        "{ddl}"
    );
    assert_eq!(
        ddl.matches("ADD COLUMN IF NOT EXISTS `cluster`").count(),
        2,
        "{ddl}"
    );
    let local_alter = ddl.find("ALTER TABLE `logs`.`otel_trace_local`").unwrap();
    let dist_alter = ddl.find("ALTER TABLE `logs`.`otel_trace` ON").unwrap();
    assert!(local_alter < dist_alter, "{ddl}");
    assert!(
        ddl.contains("{shard}") && ddl.contains("{replica}"),
        "{ddl}"
    );
    assert_eq!(sink.local_table(), "otel_trace_local");
}

#[test]
fn the_statements_word_for_word() {
    let mut lines: Vec<String> = Vec::new();
    let columns = [
        ("timestamp", "DateTime64(9, 'Asia/Shanghai')"),
        ("trace_id", "String"),
        ("span_id", "String"),
        ("parent_span_id", "String"),
        ("trace_state", "String"),
        ("span_name", "LowCardinality(String)"),
        ("span_kind", "LowCardinality(String)"),
        ("service_name", "LowCardinality(String)"),
        ("duration_ns", "UInt64"),
        ("status_code", "LowCardinality(String)"),
        ("status_message", "String"),
        ("scope_name", "LowCardinality(String)"),
        ("scope_version", "LowCardinality(String)"),
        ("resource_attributes", "Map(LowCardinality(String), String)"),
        ("span_attributes", "Map(LowCardinality(String), String)"),
        ("events.timestamp", "Array(DateTime64(9, 'Asia/Shanghai'))"),
        ("events.name", "Array(LowCardinality(String))"),
        ("events.attributes", "Array(Map(LowCardinality(String), String))"),
        ("links.trace_id", "Array(String)"),
        ("links.span_id", "Array(String)"),
        ("links.trace_state", "Array(String)"),
        ("links.attributes", "Array(Map(LowCardinality(String), String))"),
        ("cluster", "LowCardinality(String)"),
    ];
    for (name, kind) in columns {
        lines.push(format!("    {:<21} {kind}", format!("`{name}`")));
    }
    let indexes = [
        "`idx_trace_id` `trace_id` TYPE bloom_filter GRANULARITY 4",
        "`idx_res_attr_key` mapKeys(`resource_attributes`) TYPE bloom_filter(0.01) GRANULARITY 1",
        "`idx_res_attr_value` mapValues(`resource_attributes`) TYPE bloom_filter(0.01) GRANULARITY 1",
        "`idx_span_attr_key` mapKeys(`span_attributes`) TYPE bloom_filter(0.01) GRANULARITY 1",
        "`idx_span_attr_value` mapValues(`span_attributes`) TYPE bloom_filter(0.01) GRANULARITY 1",
        "`idx_duration` `duration_ns` TYPE minmax GRANULARITY 1",
    ];
    for index in indexes {
        lines.push(format!("    INDEX {index}"));
    }
    let mut actions: Vec<String> = Vec::new();
    for (name, kind) in &columns[1..] {
        actions.push(format!("ADD COLUMN IF NOT EXISTS `{name}` {kind}"));
    }
    for index in indexes {
        actions.push(format!("ADD INDEX IF NOT EXISTS {index}"));
    }
    actions.push("MODIFY COLUMN `timestamp` DateTime64(9, 'Asia/Shanghai')".to_owned());
    actions
        .push("MODIFY COLUMN `events.timestamp` Array(DateTime64(9, 'Asia/Shanghai'))".to_owned());
    let expect = format!(
        "CREATE TABLE IF NOT EXISTS `logs`.`otel_trace`\n(\n{}\n)\nENGINE = MergeTree\n\
         PARTITION BY toDate(`timestamp`)\n\
         ORDER BY (`service_name`, `span_name`, toDateTime(`timestamp`))\n\
         TTL toDateTime(`timestamp`) + INTERVAL 30 DAY;\n\n\
         ALTER TABLE `logs`.`otel_trace`\n    {}",
        lines.join(",\n"),
        actions.join(",\n    ")
    );
    let sink = sink()
        .timezone(chrono_tz::Asia::Shanghai)
        .extra_columns(vec![column("cluster")]);
    assert_eq!(sink.create_table_ddl(), expect);
}

#[test]
fn columns_that_are_there_already_are_not_added() {
    let extra = vec![column("trace_id"), column("env"), column("env")];
    let ddl = sink().create_table_ddl_with(&extra);
    assert_eq!(ddl.matches("    `env`").count(), 1, "{ddl}");
    assert!(ddl.contains("`trace_id`            String,"), "{ddl}");
    let wide = vec![column("a_name_longer_than_all_the_others")];
    let ddl = sink().create_table_ddl_with(&wide);
    assert!(
        ddl.contains("    `timestamp`                         DateTime64(9),"),
        "{ddl}"
    );
}

#[test]
fn empty_body_still_carries_content_length_and_is_not_gzipped() {
    let request = sink().prepare("SELECT 1", Vec::new()).unwrap();
    assert_eq!(request.url, "http://127.0.0.1:8123");
    assert_eq!(query(&request, "query"), Some("SELECT 1"));
    assert_eq!(header(&request, "content-length"), Some("0"));
    assert_eq!(header(&request, "content-encoding"), None);
    assert!(request.body.is_empty());
    assert_eq!(request.timeout, Duration::from_secs(30));
}

#[test]
fn insert_body_is_gzipped_and_round_trips() {
    let request = sink().prepare_insert(&[span()]).unwrap();
    assert_eq!(header(&request, "content-encoding"), Some("gzip"));
    assert_eq!(
        header(&request, "content-length"),
        Some(request.body.len().to_string().as_str())
    );
    assert_eq!(
        query(&request, "query"),
        Some("INSERT INTO `logs`.`otel_trace` FORMAT JSONEachRow")
    );
    assert_eq!(
        query(&request, "date_time_input_format"),
        Some("best_effort")
    );
    assert_eq!(
        query(&request, "input_format_skip_unknown_fields"),
        Some("1")
    );
    assert_eq!(query(&request, "async_insert"), None);

    let mut plain = String::new();
    GzDecoder::new(&request.body[..])
        .read_to_string(&mut plain)
        .unwrap();
    assert!(plain.contains("\"span_name\":\"压缩测试\""), "{plain}");
    assert!(plain.ends_with('\n'), "{plain:?}");
    assert!(
        plain.contains("\"timestamp\":\"2026-09-07 03:04:08.914293456+00:00\""),
        "{plain}"
    );
    assert!(
        plain.contains("\"events.timestamp\":[\"2026-09-07 03:04:08.914293457+00:00\"]"),
        "{plain}"
    );
    assert_eq!(plain, sink().rows(&[span()]));
}

#[test]
fn compression_can_be_turned_off() {
    let request = sink().compress(false).prepare_insert(&[span()]).unwrap();
    assert_eq!(header(&request, "content-encoding"), None);
    assert!(String::from_utf8_lossy(&request.body).contains("\"span_name\":\"压缩测试\""));
}

#[test]
fn timezone_puts_wall_clock_and_offset_on_timestamps() {
    let request = sink()
        .compress(false)
        .timezone(chrono_tz::Asia::Shanghai)
        .prepare_insert(&[span()])
        .unwrap();
    let body = String::from_utf8_lossy(&request.body);
    assert!(
        body.contains("\"timestamp\":\"2026-09-07 11:04:08.914293456+08:00\""),
        "{body}"
    );
    assert!(
        body.contains("\"events.timestamp\":[\"2026-09-07 11:04:08.914293457+08:00\"]"),
        "{body}"
    );
}

#[test]
fn one_row_on_each_line() {
    let rows = sink().rows(&[span(), SpanEvent::default()]);
    let lines: Vec<&str> = rows.lines().collect();
    assert_eq!(lines.len(), 2);
    assert_eq!(lines[0], span().to_json_line().unwrap());
    assert_eq!(lines[1], SpanEvent::default().to_json_line().unwrap());
    assert_eq!(sink().rows(&[]), "");
}

#[test]
fn settings_of_a_request() {
    let request = ClickhouseSink::new("http://x:8123//", "d", "t")
        .async_insert(true)
        .auth("default", "secret")
        .timeout(Duration::from_secs(5))
        .prepare("SELECT 1", Vec::new())
        .unwrap();
    assert_eq!(request.url, "http://x:8123");
    assert_eq!(query(&request, "async_insert"), Some("1"));
    assert_eq!(query(&request, "wait_for_async_insert"), Some("1"));
    assert_eq!(header(&request, "X-ClickHouse-User"), Some("default"));
    assert_eq!(header(&request, "X-ClickHouse-Key"), Some("secret"));
    assert_eq!(request.timeout, Duration::from_secs(5));
    let framed = sink().frame("Q", vec![1, 2, 3], true);
    assert_eq!(header(&framed, "content-length"), Some("3"));
    assert_eq!(header(&framed, "content-encoding"), Some("gzip"));
    assert_eq!(framed.body, [1, 2, 3]);
}

#[test]
fn answers_of_the_server() {
    assert_eq!(
        read_response(200, "200 OK", " 1\n".to_owned()),
        Ok(" 1\n".to_owned())
    );
    assert_eq!(
        read_response(404, "404 Not Found", " no table \n".to_owned()),
        Err(Error::Sink(
            "ClickHouse 返回 404 Not Found: no table".to_owned()
        ))
    );
    assert!(read_response(299, "299", String::new()).is_ok());
    assert!(read_response(300, "300", String::new()).is_err());
}

const ALL_COLUMNS: &str = "timestamp\ntrace_id\nspan_id\nparent_span_id\ntrace_state\nspan_name\nspan_kind\nservice_name\nduration_ns\nstatus_code\nstatus_message\nscope_name\nscope_version\nresource_attributes\nspan_attributes\nevents.timestamp\nevents.name\nevents.attributes\nlinks.trace_id\nlinks.span_id\nlinks.trace_state\nlinks.attributes\n";

/// Answers the questions one after the other; gives what came of it and what was asked.
fn examine(sink: &ClickhouseSink, answers: &[&str]) -> (Result<(), Error>, Vec<String>) {
    let mut queries = Vec::new();
    let mut probe = Probe::Server;
    for answer in answers {
        queries.push(sink.probe_sql(probe));
        match sink.on_probed(probe, Ok((*answer).to_owned())) {
            Health::Ask(next) => probe = next,
            Health::Healthy => return (Ok(()), queries),
            Health::Unhealthy(error) => return (Err(error), queries),
        }
    }
    panic!("there is one question more");
}

#[test]
fn healthcheck_reports_missing_columns() {
    let without_events_ts = ALL_COLUMNS.replace("events.timestamp\n", "");
    let columns = format!("{without_events_ts}cluster\n");
    let sink = sink().extra_columns(vec![column("cluster"), column("env")]);
    let (outcome, queries) = examine(&sink, &["1\n", "1\n", &columns]);
    let msg = outcome.unwrap_err().message();
    assert!(msg.contains("缺列 events.timestamp, env"), "{msg}");
    assert!(msg.contains("--ddl"), "{msg}");
    assert_eq!(queries.len(), 3, "{queries:?}");
    assert!(
        queries[2].contains("system.columns")
            && queries[2].contains("database = 'logs'")
            && queries[2].contains("table = 'otel_trace'"),
        "{}",
        queries[2]
    );
    assert_eq!(queries[0], "SELECT 1");
    assert_eq!(queries[1], "EXISTS TABLE `logs`.`otel_trace`");
}

#[test]
fn healthcheck_passes_when_columns_present() {
    let columns = format!("{ALL_COLUMNS}env\nextra_col\n");
    let sink = sink().extra_columns(vec![column("env")]);
    let (outcome, queries) = examine(&sink, &["1\n", "1\n", &columns]);
    assert_eq!(outcome, Ok(()));
    assert_eq!(queries.len(), 3);
}

#[test]
fn healthcheck_reports_missing_table() {
    let (outcome, _) = examine(&sink(), &["1\n", "0\n"]);
    assert!(outcome.unwrap_err().message().contains("不存在"));
}

#[test]
fn a_question_that_fails_ends_the_health_check() {
    match sink().on_probed(Probe::Server, Err(Error::sink("down"))) {
        Health::Unhealthy(error) => assert_eq!(error, Error::sink("down")),
        _ => panic!("unhealthy"),
    }
}

#[test]
fn names_are_escaped_in_strings_of_statements() {
    let sink = ClickhouseSink::new("http://x", "a'b\\c", "t");
    assert!(sink
        .probe_sql(Probe::Columns)
        .contains("database = 'a\\'b\\\\c' AND"));
}

fn safe_to_run_again(statement: &str, indexed: bool, zoned: bool) -> bool {
    if statement.starts_with("CREATE TABLE IF NOT EXISTS ") {
        return true;
    }
    let mut lines = statement.split('\n');
    let head = lines.next().unwrap();
    assert!(head.starts_with("ALTER TABLE "), "{head}");
    lines.all(|line| {
        let action = line.trim_start();
        action.starts_with("ADD COLUMN IF NOT EXISTS `")
            || (indexed && action.starts_with("ADD INDEX IF NOT EXISTS `"))
            || (zoned && action.starts_with("MODIFY COLUMN `"))
    })
}

#[test]
fn statements_come_apart_and_may_be_run_again() {
    let ddl = sink().create_table_ddl();
    let parts: Vec<&str> = ddl.split(";\n\n").collect();
    assert_eq!(parts.len(), 2);
    assert!(parts[0].starts_with("CREATE TABLE IF NOT EXISTS "));
    assert!(parts[1].starts_with("ALTER TABLE "));
    assert!(parts.iter().all(|part| safe_to_run_again(part, true, false)));
    assert_eq!(ddl.matches(';').count(), 1);

    let ddl = sink()
        .cluster("bj_ck")
        .timezone(chrono_tz::Asia::Shanghai)
        .extra_columns(vec![column("env")])
        .create_table_ddl();
    let parts: Vec<&str> = ddl.split(";\n\n").collect();
    assert_eq!(parts.len(), 4);
    assert!(parts[1].starts_with("CREATE TABLE IF NOT EXISTS `logs`.`otel_trace` ON CLUSTER"));
    assert!(parts[2].starts_with("ALTER TABLE `logs`.`otel_trace_local` "));
    assert!(parts[..3].iter().all(|part| safe_to_run_again(part, true, true)));
    assert!(safe_to_run_again(parts[3], false, true));
    assert_eq!(ddl.matches(';').count(), 3);
}

#[test]
fn names_stay_inside_their_quotes() {
    for name in ["plain", "it's", "back\\slash", "\\'", "''", "end\\", "\\\\'"] {
        let sql = ClickhouseSink::new("http://h", name, "t").probe_sql(Probe::Columns);
        let rest = sql
            .strip_prefix("SELECT name FROM system.columns WHERE database = '")
            .unwrap();
        let mut read = String::new();
        let mut chars = rest.chars();
        let end = loop {
            match chars.next().unwrap() {
                '\'' => break chars.as_str(),
                '\\' => read.push(chars.next().unwrap()),
                c => read.push(c),
            }
        };
        assert_eq!(read, name);
        assert_eq!(
            escape_literal(name),
            name.replace('\\', "\\\\").replace('\'', "\\'")
        );
        assert_eq!(end, " AND table = 't' FORMAT TSV");
    }
}

#[test]
fn names_of_zones_hold_no_signs_that_end_a_string_or_a_statement() {
    for tz in chrono_tz::TZ_VARIANTS {
        let ddl = sink().timezone(tz).create_table_ddl();
        assert!(
            tz.name()
                .chars()
                .all(|c| c.is_ascii_alphanumeric() || "/_-+".contains(c)),
            "{tz}"
        );
        assert!(ddl.contains(&format!("DateTime64(9, '{}')", tz.name())));
        assert_eq!(ddl.split(';').count(), 2);
    }
}
