use std::time::Duration;

use serde::de::Error as DecodingError;
use serde_yaml_ng::{Error as YamlError, Value as Yaml};
use tracepipe::config::{
    address_error, column_type_of, default_batch_lines, default_grpc, default_http, default_initial_backoff_ms,
    default_max_request_bytes, enabled, five, load_failed, read_sections, section, section_error,
    sections, thirty, yes, BatchSettings, Config, ConsoleEncoding, OnErrorSetting,
    OtlpSourceConfig, PipelineSettings, RetrySettings, SinkChoice, SinkConfig, SourceChoice,
    SourceConfig, StdinSourceConfig,
};
use tracepipe::error::Error;
use tracepipe::pipeline::{OnError, Pipeline};
use tracepipe::sink::console::{Encoding, Target};
use tracepipe::source::otlp::Endpoint;
use tracepipe::value::{Value, ValueMap};

fn text_of(value: &Yaml, key: &str) -> Option<String> {
    value.get(key).and_then(Yaml::as_str).map(str::to_owned)
}

fn read_source(value: &Yaml) -> Result<SourceConfig, String> {
    match value.get("type").and_then(Yaml::as_str) {
        Some("otlp") => Ok(SourceConfig::Otlp(OtlpSourceConfig {
            grpc: match value.get("grpc") {
                None => default_grpc(),
                Some(_) => text_of(value, "grpc"),
            },
            http: match value.get("http") {
                None => default_http(),
                Some(_) => text_of(value, "http"),
            },
            max_request_bytes: default_max_request_bytes(),
            enqueue_timeout_secs: five(),
            wait_for_write: false,
        })),
        Some("stdin") => Ok(SourceConfig::Stdin(StdinSourceConfig {
            batch_lines: default_batch_lines(),
        })),
        Some(other) => Err(YamlError::unknown_variant(other, &["otlp", "stdin"]).to_string()),
        None => Err(YamlError::missing_field("type").to_string()),
    }
}

fn read_sink(value: &Yaml) -> Result<SinkConfig, String> {
    match value.get("type").and_then(Yaml::as_str) {
        Some("console") => {
            if value.get("endpoint").is_some() {
                let error = YamlError::unknown_field("endpoint", &["encoding", "stderr"]);
                return Err(error.to_string());
            }
            Ok(SinkConfig::Console {
                encoding: ConsoleEncoding::default(),
                stderr: false,
            })
        }
        Some("clickhouse") => Ok(SinkConfig::Clickhouse {
            endpoint: text_of(value, "endpoint").unwrap(),
            database: text_of(value, "database").unwrap(),
            table: text_of(value, "table").unwrap(),
            cluster: text_of(value, "cluster"),
            timezone: text_of(value, "timezone"),
            user: text_of(value, "user"),
            password: text_of(value, "password"),
            async_insert: false,
            compress: yes(),
            timeout_secs: thirty(),
        }),
        Some(other) => {
            Err(YamlError::unknown_variant(other, &["clickhouse", "console"]).to_string())
        }
        None => Err(YamlError::missing_field("type").to_string()),
    }
}

fn read_fields(value: &Yaml) -> Result<ValueMap, String> {
    let mut map = ValueMap::new();
    for (key, value) in value.as_mapping().unwrap() {
        let value = match value {
            Yaml::String(text) => Value::String(text.clone()),
            Yaml::Number(number) => {
                Value::Number(serde_json::Number::from(number.as_i64().unwrap()))
            }
            _ => Value::Null,
        };
        map.insert(key.as_str().unwrap().to_owned(), value);
    }
    Ok(map)
}

fn parse(text: &str) -> Result<Config, Error> {
    let mapping = read_sections(text)?;
    Config::assemble(
        section(&mapping, "source").map(read_source),
        section(&mapping, "sink").map(read_sink),
        section(&mapping, "batch").map(|_| Ok(BatchSettings::default())),
        section(&mapping, "retry").map(|_| Ok(RetrySettings::default())),
        section(&mapping, "pipeline").map(|_| Ok(PipelineSettings::default())),
        section(&mapping, "fields").map(read_fields),
    )
}

/// An address has a host and a port.
fn valid(address: &Option<String>) -> bool {
    match enabled(address) {
        Some(address) => match address.rsplit_once(':') {
            Some((host, port)) => !host.is_empty() && port.parse::<u16>().is_ok(),
            None => false,
        },
        None => true,
    }
}

fn validity(config: &Config) -> (bool, bool) {
    match &config.source {
        SourceConfig::Otlp(otlp) => (valid(&otlp.grpc), valid(&otlp.http)),
        SourceConfig::Stdin(_) => (true, true),
    }
}

fn check(config: &Config) -> Result<(), Error> {
    let (grpc, http) = validity(config);
    config.check(grpc, http)
}

fn build(config: Config) -> Result<Pipeline<SourceChoice<u8>, SinkChoice, u8>, Error> {
    let (grpc, http) = validity(&config);
    config.build(grpc, http)
}

#[test]
fn otlp_source_needs_no_fields() {
    let config = parse(
        r#"
source:
  type: otlp
sink:
  type: console
"#,
    )
    .unwrap();

    let SourceConfig::Otlp(otlp) = &config.source else {
        panic!("应当是 otlp source");
    };
    assert_eq!(otlp.grpc.as_deref(), Some("0.0.0.0:4317"));
    assert_eq!(otlp.http.as_deref(), Some("0.0.0.0:4318"));
    assert!(!otlp.wait_for_write);
    assert_eq!(config.batch.timeout_secs, 1);
    assert_eq!(config.pipeline.on_error, OnErrorSetting::Stop);
    check(&config).unwrap();
    assert!(build(config).is_ok());
}

#[test]
fn null_or_empty_disables_a_listener() {
    for (yaml, expect_grpc) in [
        ("grpc: null\n", false),
        ("grpc: \"\"\n", false),
        ("http: null\n", true),
    ] {
        let config = parse(&format!(
            "source:\n  type: otlp\n  {yaml}sink:\n  type: console\n"
        ))
        .unwrap();
        let SourceConfig::Otlp(otlp) = &config.source else {
            panic!()
        };
        assert_eq!(enabled(&otlp.grpc).is_some(), expect_grpc, "{yaml}");
        check(&config).unwrap();
    }

    let config =
        parse("source:\n  type: otlp\n  grpc: null\n  http: \"\"\nsink:\n  type: console\n")
            .unwrap();
    let err = check(&config).expect_err("两个都关了应当报错");
    assert!(err.message().contains("至少要开一个"), "{err:?}");
}

#[test]
fn rejects_bad_listen_address() {
    let config =
        parse("source:\n  type: otlp\n  grpc: \"4317\"\nsink:\n  type: console\n").unwrap();
    let err = check(&config).expect_err("没有 host 的地址应当报错");
    assert!(err.message().contains("source.grpc"), "{err:?}");
}

#[test]
fn stdin_source_and_static_fields() {
    let config = parse(
        r#"
source:
  type: stdin
sink:
  type: clickhouse
  endpoint: http://clickhouse:8123
  database: logs
  table: otel_trace
  timezone: Asia/Shanghai
fields:
  cluster: bj-prod
  replica: 3
"#,
    )
    .unwrap();
    assert!(matches!(config.source, SourceConfig::Stdin(_)));
    let ddl = config.ddl().unwrap();
    assert!(
        ddl.contains("`cluster`             LowCardinality(String)"),
        "{ddl}"
    );
    assert!(ddl.contains("`replica`             Int64"), "{ddl}");
    assert!(ddl.contains("DateTime64(9, 'Asia/Shanghai')"), "{ddl}");
    assert!(build(config).is_ok());
}

#[test]
fn rejects_bad_timezone() {
    let config = parse(
        "source:\n  type: otlp\nsink:\n  type: clickhouse\n  endpoint: http://x:8123\n  database: t\n  table: t\n  timezone: Asia/Beijing\n",
    )
    .unwrap();
    let err = check(&config).expect_err("Asia/Beijing 不是 IANA 时区名");
    assert!(err.message().contains("sink.timezone"), "{err:?}");
    assert!(config.ddl().is_err());
    assert!(build(config).is_err());
}

#[test]
fn names_the_section_and_hints_type_mismatch() {
    let err = parse(
        r#"
source:
  type: otlp
sink:
  type: console
  endpoint: http://127.0.0.1:8123
"#,
    )
    .unwrap_err()
    .message();
    assert!(err.contains("`sink` 配置有问题"), "{err}");
    assert!(err.contains("unknown field `endpoint`"), "{err}");
    assert!(err.contains("sink.type"), "{err}");

    let err = parse("source:\n  type: kafka\nsink:\n  type: console\n")
        .unwrap_err()
        .message();
    assert!(err.contains("`source` 配置有问题"), "{err}");
    assert!(!err.contains("source.type"), "{err}");
}

#[test]
fn only_two_sections_get_a_hint() {
    let message = "unknown field `x`";
    assert_eq!(
        section_error("source", message).message(),
        "配置错误: `source` 配置有问题: unknown field `x`；请检查 source.type 和下面的字段是否匹配"
    );
    assert_eq!(
        section_error("batch", message).message(),
        "配置错误: `batch` 配置有问题: unknown field `x`"
    );
}

#[test]
fn rejects_unknown_top_level_section() {
    let err = parse("source:\n  type: otlp\nsink:\n  type: console\nparser: {}\n")
        .unwrap_err()
        .message();
    assert!(err.contains("未知的配置项 `parser`"), "{err}");
    assert!(
        err.ends_with("可用的有: source / sink / batch / retry / pipeline / fields"),
        "{err}"
    );
    let err = parse("1: x\nparser: y\n").unwrap_err().message();
    assert!(err.contains("未知的配置项 ``"), "{err}");
}

#[test]
fn reports_missing_section() {
    let err = parse("source:\n  type: otlp\n").unwrap_err().message();
    assert!(err.contains("缺少 `sink` 配置"), "{err}");
}

#[test]
fn documents_that_are_no_configuration() {
    assert_eq!(
        read_sections("").unwrap_err(),
        Error::config("配置是空的")
    );
    assert_eq!(
        read_sections("- 1\n").unwrap_err(),
        Error::config("配置最外层应当是 key: value 形式")
    );
    let err = read_sections("a: [").unwrap_err().message();
    assert!(err.starts_with("配置错误: YAML 语法错误: "), "{err}");
    assert_eq!(
        sections(Ok(Yaml::Bool(true))).unwrap_err(),
        Error::config("配置最外层应当是 key: value 形式")
    );
    assert_eq!(
        load_failed("/x", "gone").message(),
        "配置错误: 读取配置 /x 失败: gone"
    );
}

#[test]
fn blank_sections_count_as_left_out_where_they_may_be() {
    let mapping = read_sections("source:\nsink: 1\nbatch:\nretry: {}\n").unwrap();
    assert_eq!(section(&mapping, "source"), Some(&Yaml::Null));
    assert!(section(&mapping, "sink").is_some());
    assert_eq!(section(&mapping, "batch"), None);
    assert!(section(&mapping, "retry").is_some());
    assert_eq!(section(&mapping, "pipeline"), None);
}

#[test]
fn the_first_problem_is_reported() {
    let otlp = || SourceConfig::Stdin(StdinSourceConfig { batch_lines: 1 });
    let console = || SinkConfig::Console {
        encoding: ConsoleEncoding::Text,
        stderr: true,
    };
    let bad = || "bad".to_owned();
    let err = Config::assemble(
        Some(Ok(otlp())),
        Some(Ok(console())),
        Some(Ok(BatchSettings::default())),
        Some(Err(bad())),
        Some(Err(bad())),
        Some(Err(bad())),
    )
    .unwrap_err();
    assert_eq!(err, Error::config("`retry` 配置有问题: bad"));
    let err =
        Config::assemble(None, Some(Err(bad())), None, None, None, None).unwrap_err();
    assert_eq!(err, Error::config("缺少 `source` 配置"));
    let config = Config::assemble(
        Some(Ok(otlp())),
        Some(Ok(console())),
        None,
        None,
        None,
        None,
    )
    .unwrap();
    assert_eq!(config.batch, BatchSettings::default());
    assert_eq!(config.retry, RetrySettings::default());
    assert_eq!(config.pipeline, PipelineSettings::default());
    assert!(config.fields.is_empty());
    assert_eq!(
        config.ddl().unwrap_err(),
        Error::config("当前 sink 是 console，没有建表语句")
    );
}

#[test]
fn types_of_columns_for_fields() {
    let number = |n: serde_json::Number| Value::Number(n);
    assert_eq!(column_type_of(&Value::Bool(true)), "UInt8");
    assert_eq!(column_type_of(&number(serde_json::Number::from(-3))), "Int64");
    assert_eq!(
        column_type_of(&number(serde_json::Number::from(u64::MAX))),
        "Int64"
    );
    assert_eq!(
        column_type_of(&number(serde_json::Number::from_f64(1.5).unwrap())),
        "Float64"
    );
    for value in [
        Value::Null,
        Value::String("x".to_owned()),
        Value::Array(vec![]),
        Value::Object(ValueMap::new()),
    ] {
        assert_eq!(column_type_of(&value), "LowCardinality(String)");
    }
}

#[test]
fn a_pipeline_is_what_the_configuration_says() {
    let config = Config {
        source: SourceConfig::Otlp(OtlpSourceConfig {
            grpc: Some(" 127.0.0.1:1 ".to_owned()),
            http: Some("  ".to_owned()),
            max_request_bytes: 1,
            enqueue_timeout_secs: 7,
            wait_for_write: true,
        }),
        sink: SinkConfig::Console {
            encoding: ConsoleEncoding::Text,
            stderr: true,
        },
        batch: BatchSettings {
            max_events: 0,
            max_bytes: 9,
            timeout_secs: 2,
        },
        retry: RetrySettings {
            max_attempts: 0,
            initial_backoff_ms: 3,
            max_backoff_secs: 4,
        },
        pipeline: PipelineSettings {
            buffer: 0,
            require_healthy: true,
            on_error: OnErrorSetting::Drop,
        },
        fields: ValueMap::new(),
    };
    let pipeline = match build(config) {
        Ok(pipeline) => pipeline,
        Err(error) => panic!("{error:?}"),
    };
    match &pipeline.source {
        SourceChoice::Otlp(source) => {
            assert!(matches!(&source.grpc, Some(Endpoint::Addr(a)) if a == "127.0.0.1:1"));
            assert!(source.http.is_none());
            assert_eq!(source.max_request_bytes, 1024);
            assert_eq!(source.enqueue_timeout, Duration::from_secs(7));
            assert!(source.wait_for_write);
            assert!(source.fields.is_none());
        }
        SourceChoice::Stdin(_) => panic!("OTLP"),
    }
    match &pipeline.sink {
        SinkChoice::Console(sink) => {
            assert_eq!(sink.encoding, Encoding::Text);
            assert_eq!(sink.target, Target::Stderr);
        }
        SinkChoice::Clickhouse(_) => panic!("console"),
    }
    assert_eq!(pipeline.batch.max_events, 1);
    assert_eq!(pipeline.batch.max_bytes, 9);
    assert_eq!(pipeline.batch.timeout, Duration::from_secs(2));
    assert_eq!(pipeline.retry.max_attempts, 1);
    assert_eq!(pipeline.retry.initial_backoff, Duration::from_millis(3));
    assert_eq!(pipeline.retry.max_backoff, Duration::from_secs(4));
    assert_eq!(pipeline.buffer, 1);
    assert!(pipeline.require_healthy);
    assert_eq!(pipeline.on_error, OnError::Drop);
    assert_eq!(default_initial_backoff_ms(), 500);
}

#[test]
fn a_sink_is_what_the_configuration_says() {
    let config = Config {
        source: SourceConfig::Stdin(StdinSourceConfig { batch_lines: 0 }),
        sink: SinkConfig::Clickhouse {
            endpoint: "http://x/".to_owned(),
            database: "d".to_owned(),
            table: "t".to_owned(),
            cluster: Some("c".to_owned()),
            timezone: Some("Europe/Berlin".to_owned()),
            user: Some("u".to_owned()),
            password: None,
            async_insert: true,
            compress: false,
            timeout_secs: 3,
        },
        batch: BatchSettings::default(),
        retry: RetrySettings::default(),
        pipeline: PipelineSettings::default(),
        fields: ValueMap::new(),
    };
    let pipeline = match build(config) {
        Ok(pipeline) => pipeline,
        Err(error) => panic!("{error:?}"),
    };
    let SinkChoice::Clickhouse(sink) = &pipeline.sink else {
        panic!("ClickHouse")
    };
    let request = sink.prepare("Q", vec![1]).unwrap();
    assert_eq!(request.url, "http://x");
    assert_eq!(request.body, [1]);
    assert_eq!(request.timeout, Duration::from_secs(3));
    assert_eq!(
        request.headers,
        [
            ("content-length".to_owned(), "1".to_owned()),
            ("X-ClickHouse-User".to_owned(), "u".to_owned()),
            ("X-ClickHouse-Key".to_owned(), String::new()),
        ]
    );
    assert!(sink.create_table_ddl().contains("Europe/Berlin"));
    match &pipeline.source {
        SourceChoice::Stdin(source) => assert_eq!(source.batch_lines, 1),
        SourceChoice::Otlp(_) => panic!("standard input"),
    }
}

#[test]
fn keys_with_tags_are_named_by_what_stands_under_them() {
    let err = parse("!t parser: 1\n").unwrap_err();
    assert!(err.message().contains("未知的配置项 `parser`"), "{}", err.message());
    // A key with a tag is none of the texts that sections are looked up by.
    let err = parse("!t source: {type: otlp}\nsink: {type: console}\n").unwrap_err();
    assert_eq!(err, Error::config("缺少 `source` 配置"));
    let err = parse("1: 2\n").unwrap_err();
    assert!(err.message().contains("未知的配置项 ``"), "{}", err.message());
    assert_eq!(
        address_error("grpc", "x").message(),
        "配置错误: source.grpc `x` 不是合法的监听地址（例：0.0.0.0:4317）"
    );
}
