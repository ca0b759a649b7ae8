//! Configuration, as it is written in a YAML document.

use std::time::Duration;

use serde_json::Number as JsonNumber;
use serde_yaml_ng::value::{Tag, TaggedValue};
use serde_yaml_ng::{Error as YamlError, Mapping, Number as YamlNumber, Value as Yaml};
use vstd::prelude::*;

use crate::batch::{at_least_one, nanos, or_one, BatchConfig, RetryConfig};
use crate::clock::{known_zone, zone_named};
use crate::error::{Error, Failure};
use crate::pipeline::{OnError, Pipeline};
use crate::sink::clickhouse::{ddl_text, optional_text, pairs, Pairs, SinkModel};
use crate::sink::console::{Encoding, Target};
use crate::sink::{ClickhouseSink, ConsoleSink};
use crate::source::otlp::{
    Endpoint, DEFAULT_GRPC_ADDR, DEFAULT_HTTP_ADDR, DEFAULT_MAX_REQUEST_BYTES,
    LEAST_MAX_REQUEST_BYTES,
};
use crate::source::{shares, OtlpSource, StdinSource};
use crate::text::{contains, has_part, same, trim, trimmed, without_end};
use crate::value::{Entries, Json, Value, ValueMap};

verus! {

// ---------------------------------------------------------------------------------------------
// Documents
// ---------------------------------------------------------------------------------------------

/// `serde_yaml_ng`'s value.
#[verifier::external_type_specification]
pub struct ExYaml(Yaml);

/// `serde_yaml_ng`'s number.
#[verifier::external_type_specification]
#[verifier::external_body]
pub struct ExYamlNumber(YamlNumber);

/// `serde_yaml_ng`'s mapping.
#[verifier::external_type_specification]
#[verifier::external_body]
pub struct ExMapping(Mapping);

/// `serde_yaml_ng`'s value with a tag.
#[verifier::external_type_specification]
pub struct ExTaggedValue(TaggedValue);

/// `serde_yaml_ng`'s tag.
#[verifier::external_type_specification]
#[verifier::external_body]
pub struct ExTag(Tag);

/// `serde_yaml_ng`'s error.
#[verifier::external_type_specification]
#[verifier::external_body]
pub struct ExYamlError(YamlError);

/// What a `serde_yaml_ng::Error` displays.
pub uninterp spec fn yaml_error_text(error: YamlError) -> Seq<char>;

/// A `serde_yaml_ng::Error` displayed.
#[verifier::external_body]
fn describe_yaml_error(error: &YamlError) -> (r: String)
    ensures
        r@ == yaml_error_text(*error),
{
    error.to_string()
}

/// What `serde_yaml_ng` reads out of a text.
pub uninterp spec fn yaml_document(text: Seq<char>) -> Result<Yaml, YamlError>;

/// `serde_yaml_ng::from_str` into a value.
#[verifier::external_body]
fn parse_yaml(text: &str) -> (r: Result<Yaml, YamlError>)
    ensures
        r == yaml_document(text@),
{
    serde_yaml_ng::from_str(text)
}

/// The keys of a mapping with their values, in the order of the document.
pub uninterp spec fn mapping_entries(mapping: Mapping) -> Seq<(Yaml, Yaml)>;

/// `serde_yaml_ng::Mapping::keys`: the keys, in the order of the document.
#[verifier::external_body]
fn keys_of(mapping: &Mapping) -> (r: Vec<&Yaml>)
    ensures
        r@.len() == mapping_entries(*mapping).len(),
        forall|i: int| 0 <= i < r@.len() ==> *(#[trigger] r@[i]) == mapping_entries(*mapping)[i].0,
{
    mapping.keys().collect()
}

/// Entry `i` of a mapping has a text as its key, namely `name`.
pub open spec fn is_named(entries: Seq<(Yaml, Yaml)>, name: Seq<char>, i: int) -> bool {
    0 <= i < entries.len() && match entries[i].0 {
        Yaml::String(text) => text@ == name,
        _ => false,
    }
}

/// The value in a mapping whose key is the text `name`.
pub open spec fn named_value(entries: Seq<(Yaml, Yaml)>, name: Seq<char>) -> Option<Yaml> {
    if exists|i: int| #[trigger] is_named(entries, name, i) {
        Some(entries[choose|i: int| #[trigger] is_named(entries, name, i)].1)
    } else {
        None
    }
}

/// `serde_yaml_ng::Mapping::get` with a text: the value whose key is that text. No key occurs
/// twice.
#[verifier::external_body]
fn value_in<'a>(mapping: &'a Mapping, name: &str) -> (r: Option<&'a Yaml>)
    ensures
        match named_value(mapping_entries(*mapping), name@) {
            Some(value) => r is Some && *r->Some_0 == value,
            None => r is None,
        },
{
    mapping.get(name)
}

/// The text that a value is, whether it has tags or not.
pub open spec fn yaml_text(value: Yaml) -> Option<Seq<char>>
    decreases value,
{
    match value {
        Yaml::String(text) => Some(text@),
        Yaml::Tagged(tagged) => yaml_text(tagged.value),
        _ => None,
    }
}

/// The text that a value is, whether it has tags or not.
fn text_in(value: &Yaml) -> (r: Option<&str>)
    ensures
        match yaml_text(*value) {
            Some(text) => r is Some && r->Some_0@ == text,
            None => r is None,
        },
    decreases value,
{
    match value {
        Yaml::String(text) => Some(text.as_str()),
        Yaml::Tagged(tagged) => text_in(&tagged.value),
        _ => None,
    }
}

/// The name that a key has; none where it is no text.
pub open spec fn key_name(key: Yaml) -> Seq<char> {
    match yaml_text(key) {
        Some(text) => text,
        None => Seq::empty(),
    }
}

/// The names of the sections.
pub open spec fn is_section(name: Seq<char>) -> bool {
    ||| is_required(name)
    ||| name == "batch"@
    ||| name == "retry"@
    ||| name == "pipeline"@
    ||| name == "fields"@
}

/// The names of the sections that cannot be left out.
pub open spec fn is_required(name: Seq<char>) -> bool {
    name == "source"@ || name == "sink"@
}

/// The name of the first key that is no section.
pub open spec fn first_unknown(entries: Seq<(Yaml, Yaml)>) -> Option<Seq<char>>
    decreases entries.len(),
{
    if entries.len() == 0 {
        None
    } else {
        match first_unknown(entries.drop_last()) {
            Some(name) => Some(name),
            None => if is_section(key_name(entries.last().0)) {
                None
            } else {
                Some(key_name(entries.last().0))
            },
        }
    }
}

/// Whether this is the name of a section.
fn names_section(name: &str) -> (r: bool)
    ensures
        r == is_section(name@),
{
    same(name, "source") || same(name, "sink") || same(name, "batch") || same(name, "retry")
        || same(name, "pipeline") || same(name, "fields")
}

/// The sections of a document, or what is the matter with it.
pub open spec fn sections_of(document: Result<Yaml, YamlError>) -> Result<Mapping, Failure> {
    match document {
        Err(error) => Err(Failure::Config("YAML 语法错误: "@ + yaml_error_text(error))),
        Ok(Yaml::Null) => Err(Failure::Config("配置是空的"@)),
        Ok(Yaml::Mapping(mapping)) => match first_unknown(mapping_entries(mapping)) {
            Some(name) => Err(
                Failure::Config(
                    "未知的配置项 `"@ + name
                        + "`；可用的有: source / sink / batch / retry / pipeline / fields"@,
                ),
            ),
            None => Ok(mapping),
        },
        Ok(_) => Err(Failure::Config("配置最外层应当是 key: value 形式"@)),
    }
}

/// Looks for a key that is no section.
fn check_keys(mapping: &Mapping) -> (r: Result<(), Error>)
    ensures
        match first_unknown(mapping_entries(*mapping)) {
            Some(name) => r is Err && r->Err_0@ == Failure::Config(
                "未知的配置项 `"@ + name
                    + "`；可用的有: source / sink / batch / retry / pipeline / fields"@,
            ),
            None => r is Ok,
        },
{
    let keys = keys_of(mapping);
    let ghost entries = mapping_entries(*mapping);
    let mut i: usize = 0;
    while i < keys.len()
        invariant
            entries == mapping_entries(*mapping),
            keys@.len() == entries.len(),
            forall|k: int| 0 <= k < keys@.len() ==> *(#[trigger] keys@[k]) == entries[k].0,
            i <= entries.len(),
            first_unknown(entries.take(i as int)) is None,
        decreases entries.len() - i,
    {
        let name = match text_in(keys[i]) {
            Some(text) => text,
            None => "",
        };
        proof {
            reveal_strlit("");
            assert(""@ =~= Seq::<char>::empty());
            assert(*keys@[i as int] == entries[i as int].0);
            assert(name@ == key_name(entries[i as int].0));
            assert(entries.take(i + 1).drop_last() =~= entries.take(i as int));
            assert(entries.take(i + 1).last() == entries[i as int]);
        }
        if !names_section(name) {
            proof {
                lemma_first_unknown_stays(entries, i + 1, name@);
            }
            let mut text = "未知的配置项 `".to_owned();
            text.push_str(name);
            text.push_str("`；可用的有: source / sink / batch / retry / pipeline / fields");
            return Err(Error::Config(text));
        }
        i += 1;
    }
    assert(entries.take(i as int) =~= entries);
    Ok(())
}

proof fn lemma_first_unknown_stays(entries: Seq<(Yaml, Yaml)>, n: int, name: Seq<char>)
    requires
        0 <= n <= entries.len(),
        first_unknown(entries.take(n)) == Some(name),
    ensures
        first_unknown(entries) == Some(name),
    decreases entries.len() - n,
{
    if n < entries.len() {
        assert(entries.take(n + 1).drop_last() =~= entries.take(n));
        lemma_first_unknown_stays(entries, n + 1, name);
    } else {
        assert(entries.take(n) =~= entries);
    }
}

/// The sections of a document that was read, or could not be read.
pub fn sections(document: Result<Yaml, YamlError>) -> (r: Result<Mapping, Error>)
    ensures
        match sections_of(document) {
            Ok(mapping) => r == Ok::<Mapping, Error>(mapping),
            Err(failure) => r is Err && r->Err_0@ == failure,
        },
{
    match document {
        Err(error) => {
            let mut text = "YAML 语法错误: ".to_owned();
            text.push_str(describe_yaml_error(&error).as_str());
            Err(Error::Config(text))
        },
        Ok(Yaml::Null) => Err(Error::config("配置是空的")),
        Ok(Yaml::Mapping(mapping)) => match check_keys(&mapping) {
            Ok(_) => Ok(mapping),
            Err(error) => Err(error),
        },
        Ok(_) => Err(Error::config("配置最外层应当是 key: value 形式")),
    }
}

/// Reads a document into its sections.
pub fn read_sections(text: &str) -> (r: Result<Mapping, Error>)
    ensures
        match sections_of(yaml_document(text@)) {
            Ok(mapping) => r == Ok::<Mapping, Error>(mapping),
            Err(failure) => r is Err && r->Err_0@ == failure,
        },
{
    sections(parse_yaml(text))
}

/// What a section holds, if it is to be read. A section that may be left out may also be left
/// blank.
pub open spec fn section_in(mapping: Mapping, name: Seq<char>) -> Option<Yaml> {
    match named_value(mapping_entries(mapping), name) {
        Some(Yaml::Null) => if is_required(name) {
            Some(Yaml::Null)
        } else {
            None
        },
        found => found,
    }
}

/// What a section holds, if it is to be read.
pub fn section<'a>(mapping: &'a Mapping, name: &str) -> (r: Option<&'a Yaml>)
    ensures
        match section_in(*mapping, name@) {
            Some(value) => r is Some && *r->Some_0 == value,
            None => r is None,
        },
{
    match value_in(mapping, name) {
        Some(value) => match value {
            Yaml::Null => {
                if same(name, "source") || same(name, "sink") {
                    Some(value)
                } else {
                    None
                }
            },
            _ => Some(value),
        },
        None => None,
    }
}

/// What is said about a section that cannot be read. In the two sections whose fields depend on
/// their type, a field that is not known mostly means that they do not fit together.
pub open spec fn section_problem(name: Seq<char>, message: Seq<char>) -> Failure {
    let hint = if is_required(name) && contains(message, "unknown field"@) {
        "；请检查 "@ + name + ".type 和下面的字段是否匹配"@
    } else {
        Seq::empty()
    };
    Failure::Config("`"@ + name + "` 配置有问题: "@ + message + hint)
}

/// A section cannot be read. `message` says why.
pub fn section_error(name: &str, message: &str) -> (r: Error)
    ensures
        r@ == section_problem(name@, message@),
{
    let mut text = "`".to_owned();
    text.push_str(name);
    text.push_str("` 配置有问题: ");
    text.push_str(message);
    let required = same(name, "source") || same(name, "sink");
    if required && has_part(message, "unknown field") {
        let mut hint = "；请检查 ".to_owned();
        hint.push_str(name);
        hint.push_str(".type 和下面的字段是否匹配");
        text.push_str(hint.as_str());
    } else {
        assert(text@ + Seq::<char>::empty() =~= text@);
    }
    Error::Config(text)
}

/// What is made of a section that cannot be left out.
pub open spec fn required<T>(name: Seq<char>, section: Option<Result<T, String>>) -> Result<
    T,
    Failure,
> {
    match section {
        None => Err(Failure::Config("缺少 `"@ + name + "` 配置"@)),
        Some(Ok(value)) => Ok(value),
        Some(Err(message)) => Err(section_problem(name, message@)),
    }
}

/// What is made of a section that cannot be left out. `section` is how reading it went, if it is
/// there.
pub fn required_section<T>(name: &str, section: Option<Result<T, String>>) -> (r: Result<T, Error>)
    ensures
        match required(name@, section) {
            Ok(value) => r == Ok::<T, Error>(value),
            Err(failure) => r is Err && r->Err_0@ == failure,
        },
{
    match section {
        None => {
            let mut text = "缺少 `".to_owned();
            text.push_str(name);
            text.push_str("` 配置");
            Err(Error::Config(text))
        },
        Some(Ok(value)) => Ok(value),
        Some(Err(message)) => Err(section_error(name, message.as_str())),
    }
}

/// What is made of a section that may be left out.
pub open spec fn optional<T>(
    name: Seq<char>,
    section: Option<Result<T, String>>,
    usual: T,
) -> Result<T, Failure> {
    match section {
        None => Ok(usual),
        Some(Ok(value)) => Ok(value),
        Some(Err(message)) => Err(section_problem(name, message@)),
    }
}

/// What is made of a section that may be left out. `section` is how reading it went, if it is
/// there.
pub fn optional_section<T>(
    name: &str,
    section: Option<Result<T, String>>,
    usual: T,
) -> (r: Result<T, Error>)
    ensures
        match optional(name@, section, usual) {
            Ok(value) => r == Ok::<T, Error>(value),
            Err(failure) => r is Err && r->Err_0@ == failure,
        },
{
    match section {
        None => Ok(usual),
        Some(Ok(value)) => Ok(value),
        Some(Err(message)) => Err(section_error(name, message.as_str())),
    }
}

// ---------------------------------------------------------------------------------------------
// Settings
// ---------------------------------------------------------------------------------------------

/// Where spans come from.
#[derive(Debug)]
pub enum SourceConfig {
    /// OTLP over gRPC and HTTP.
    Otlp(OtlpSourceConfig),
    /// OTLP/JSON from standard input, one export request on each line.
    Stdin(StdinSourceConfig),
}

#[derive(Debug)]
pub struct OtlpSourceConfig {
    /// Where to listen for gRPC. Nothing, or a blank text, closes this way in.
    pub grpc: Option<String>,
    /// Where to listen for HTTP. Nothing, or a blank text, closes this way in.
    pub http: Option<String>,
    /// How many bytes a request may have, unpacked.
    pub max_request_bytes: usize,
    /// How long a request waits for room in the queue.
    pub enqueue_timeout_secs: u64,
    /// Whether a sender is told of success only once its spans have been stored.
    pub wait_for_write: bool,
}

#[derive(Debug)]
pub struct StdinSourceConfig {
    /// How many lines go into a batch.
    pub batch_lines: usize,
}

/// Where spans go.
#[derive(Debug)]
pub enum SinkConfig {
    Clickhouse {
        /// An address such as `http://127.0.0.1:8123`.
        endpoint: String,
        database: String,
        table: String,
        /// The name of a cluster of ClickHouse.
        cluster: Option<String>,
        /// The zone in which times are shown, by its IANA name.
        timezone: Option<String>,
        user: Option<String>,
        password: Option<String>,
        async_insert: bool,
        /// Whether rows are sent in gzip.
        compress: bool,
        timeout_secs: u64,
    },
    Console {
        encoding: ConsoleEncoding,
        stderr: bool,
    },
}

#[derive(Clone, Copy, Debug, PartialEq, Eq, Structural)]
pub enum ConsoleEncoding {
    Json,
    Text,
}

impl Default for ConsoleEncoding {
    fn default() -> (r: ConsoleEncoding)
        ensures
            r == ConsoleEncoding::Json,
    {
        ConsoleEncoding::Json
    }
}

#[derive(Clone, Copy, Debug, PartialEq, Eq, Structural)]
pub struct BatchSettings {
    pub max_events: usize,
    pub max_bytes: usize,
    pub timeout_secs: u64,
}

#[derive(Clone, Copy, Debug, PartialEq, Eq, Structural)]
pub struct RetrySettings {
    pub max_attempts: usize,
    pub initial_backoff_ms: u64,
    pub max_backoff_secs: u64,
}

#[derive(Clone, Copy, Debug, PartialEq, Eq, Structural)]
pub struct PipelineSettings {
    /// How many batches the queue between source and sink holds.
    pub buffer: usize,
    /// Whether the pipeline is refused a start where the sink is not healthy.
    pub require_healthy: bool,
    /// What to do with a batch that cannot be stored.
    pub on_error: OnErrorSetting,
}

#[derive(Clone, Copy, Debug, PartialEq, Eq, Structural)]
pub enum OnErrorSetting {
    Stop,
    Drop,
}

impl Default for OnErrorSetting {
    fn default() -> (r: OnErrorSetting)
        ensures
            r == OnErrorSetting::Stop,
    {
        OnErrorSetting::Stop
    }
}

pub fn yes() -> (r: bool)
    ensures
        r,
{
    true
}

pub fn one() -> (r: u64)
    ensures
        r == 1,
{
    1
}

pub fn five() -> (r: u64)
    ensures
        r == 5,
{
    5
}

pub fn five_attempts() -> (r: usize)
    ensures
        r == 5,
{
    5
}

pub fn thirty() -> (r: u64)
    ensures
        r == 30,
{
    30
}

pub fn default_grpc() -> (r: Option<String>)
    ensures
        r is Some,
        r->Some_0@ == DEFAULT_GRPC_ADDR@,
{
    Some(DEFAULT_GRPC_ADDR.to_owned())
}

pub fn default_http() -> (r: Option<String>)
    ensures
        r is Some,
        r->Some_0@ == DEFAULT_HTTP_ADDR@,
{
    Some(DEFAULT_HTTP_ADDR.to_owned())
}

pub fn default_max_request_bytes() -> (r: usize)
    ensures
        r == DEFAULT_MAX_REQUEST_BYTES,
{
    DEFAULT_MAX_REQUEST_BYTES
}

pub fn default_batch_lines() -> (r: usize)
    ensures
        r == 500,
{
    500
}

pub fn default_max_events() -> (r: usize)
    ensures
        r == 10_000,
{
    BatchConfig::default().max_events
}

pub fn default_max_bytes() -> (r: usize)
    ensures
        r == 8 * 1024 * 1024,
{
    BatchConfig::default().max_bytes
}

pub fn default_initial_backoff_ms() -> (r: u64)
    ensures
        r == 500,
{
    RetryConfig::default().initial_backoff.as_millis() as u64
}

pub fn default_buffer() -> (r: usize)
    ensures
        r == 64,
{
    64
}

/// What holds of batches where nothing is said about them.
pub open spec fn usual_batch() -> BatchSettings {
    BatchSettings { max_events: 10_000, max_bytes: 8_388_608, timeout_secs: 1 }
}

/// What holds of retries where nothing is said about them.
pub open spec fn usual_retry() -> RetrySettings {
    RetrySettings { max_attempts: 5, initial_backoff_ms: 500, max_backoff_secs: 30 }
}

/// What holds of the pipeline where nothing is said about it.
pub open spec fn usual_pipeline() -> PipelineSettings {
    PipelineSettings { buffer: 64, require_healthy: false, on_error: OnErrorSetting::Stop }
}

impl Default for BatchSettings {
    fn default() -> (r: BatchSettings)
        ensures
            r == usual_batch(),
    {
        BatchSettings {
            max_events: default_max_events(),
            max_bytes: default_max_bytes(),
            timeout_secs: one(),
        }
    }
}

impl Default for RetrySettings {
    fn default() -> (r: RetrySettings)
        ensures
            r == usual_retry(),
    {
        RetrySettings {
            max_attempts: five_attempts(),
            initial_backoff_ms: default_initial_backoff_ms(),
            max_backoff_secs: thirty(),
        }
    }
}

impl Default for PipelineSettings {
    fn default() -> (r: PipelineSettings)
        ensures
            r == usual_pipeline(),
    {
        PipelineSettings {
            buffer: default_buffer(),
            require_healthy: false,
            on_error: OnErrorSetting::Stop,
        }
    }
}

/// A configuration.
#[derive(Debug)]
pub struct Config {
    pub source: SourceConfig,
    pub sink: SinkConfig,
    pub batch: BatchSettings,
    pub retry: RetrySettings,
    pub pipeline: PipelineSettings,
    /// The fields that every span gets.
    pub fields: ValueMap,
}

/// What is said about a document that cannot be had.
pub fn load_failed(path: &str, cause: &str) -> (r: Error)
    ensures
        r@ == Failure::Config("读取配置 "@ + path@ + " 失败: "@ + cause@),
{
    let mut text = "读取配置 ".to_owned();
    text.push_str(path);
    text.push_str(" 失败: ");
    text.push_str(cause);
    Error::Config(text)
}

/// What is the matter with a section.
pub open spec fn problem<T>(section: Result<T, Failure>) -> Option<Failure> {
    match section {
        Ok(_) => None,
        Err(failure) => Some(failure),
    }
}

/// The first of several problems.
pub open spec fn first_of(a: Option<Failure>, b: Option<Failure>) -> Option<Failure> {
    match a {
        Some(failure) => Some(failure),
        None => b,
    }
}

/// What is the matter with a section that may be left out.
pub open spec fn optional_problem<T>(
    name: Seq<char>,
    section: Option<Result<T, String>>,
) -> Option<Failure> {
    match section {
        Some(Err(message)) => Some(section_problem(name, message@)),
        _ => None,
    }
}

impl Config {
    /// Puts a configuration together. Each argument is how reading a section went, if it is there
    /// and is to be read. Of several problems the first one is reported.
    pub fn assemble(
        source: Option<Result<SourceConfig, String>>,
        sink: Option<Result<SinkConfig, String>>,
        batch: Option<Result<BatchSettings, String>>,
        retry: Option<Result<RetrySettings, String>>,
        pipeline: Option<Result<PipelineSettings, String>>,
        fields: Option<Result<ValueMap, String>>,
    ) -> (r: Result<Config, Error>)
        ensures
            ({
                let trouble = first_of(
                    problem(required("source"@, source)),
                    first_of(
                        problem(required("sink"@, sink)),
                        first_of(
                            optional_problem("batch"@, batch),
                            first_of(
                                optional_problem("retry"@, retry),
                                first_of(
                                    optional_problem("pipeline"@, pipeline),
                                    optional_problem("fields"@, fields),
                                ),
                            ),
                        ),
                    ),
                );
                match trouble {
                    Some(failure) => r is Err && r->Err_0@ == failure,
                    None => {
                        &&& r is Ok
                        &&& Ok::<SourceConfig, Failure>(r->Ok_0.source) == required(
                            "source"@,
                            source,
                        )
                        &&& Ok::<SinkConfig, Failure>(r->Ok_0.sink) == required("sink"@, sink)
                        &&& Ok::<BatchSettings, Failure>(r->Ok_0.batch) == optional(
                            "batch"@,
                            batch,
                            usual_batch(),
                        )
                        &&& Ok::<RetrySettings, Failure>(r->Ok_0.retry) == optional(
                            "retry"@,
                            retry,
                            usual_retry(),
                        )
                        &&& Ok::<PipelineSettings, Failure>(r->Ok_0.pipeline) == optional(
                            "pipeline"@,
                            pipeline,
                            usual_pipeline(),
                        )
                        &&& r->Ok_0.fields@ == match fields {
                            Some(Ok(map)) => map@,
                            _ => Seq::empty(),
                        }
                    },
                }
            }),
    {
        let source = match required_section("source", source) {
            Ok(source) => source,
            Err(error) => {
                return Err(error);
            },
        };
        let sink = match required_section("sink", sink) {
            Ok(sink) => sink,
            Err(error) => {
                return Err(error);
            },
        };
        let batch = match optional_section("batch", batch, BatchSettings::default()) {
            Ok(batch) => batch,
            Err(error) => {
                return Err(error);
            },
        };
        let retry = match optional_section("retry", retry, RetrySettings::default()) {
            Ok(retry) => retry,
            Err(error) => {
                return Err(error);
            },
        };
        let pipeline = match optional_section("pipeline", pipeline, PipelineSettings::default()) {
            Ok(pipeline) => pipeline,
            Err(error) => {
                return Err(error);
            },
        };
        let fields = match optional_section("fields", fields, ValueMap::new()) {
            Ok(fields) => fields,
            Err(error) => {
                return Err(error);
            },
        };
        Ok(Config { source, sink, batch, retry, pipeline, fields })
    }
}

// ---------------------------------------------------------------------------------------------
// Columns for fields
// ---------------------------------------------------------------------------------------------

/// Whether a JSON number is an integer that fits into an `i64`.
pub uninterp spec fn fits_i64(number: JsonNumber) -> bool;

/// `serde_json::Number::is_i64`: whether the number is an integer of that type.
pub assume_specification[ JsonNumber::is_i64 ](number: &JsonNumber) -> (r: bool)
    ensures
        r == fits_i64(*number),
;

/// Whether a JSON number is an integer that fits into a `u64`.
pub uninterp spec fn fits_u64(number: JsonNumber) -> bool;

/// `serde_json::Number::is_u64`: whether the number is an integer of that type.
pub assume_specification[ JsonNumber::is_u64 ](number: &JsonNumber) -> (r: bool)
    ensures
        r == fits_u64(*number),
;

/// The type of the column for a field: one for truth values, one for integers, one for other
/// numbers and one for everything else, which mostly is a text out of a few.
pub open spec fn column_type(value: Json) -> Seq<char> {
    match value {
        Json::Bool(_) => "UInt8"@,
        Json::Number(number) => if fits_i64(number) || fits_u64(number) {
            "Int64"@
        } else {
            "Float64"@
        },
        _ => "LowCardinality(String)"@,
    }
}

/// The type of the column for a field.
pub fn column_type_of(value: &Value) -> (r: String)
    ensures
        r@ == column_type(value@),
{
    match value {
        Value::Bool(_) => "UInt8".to_owned(),
        Value::Number(number) => {
            if number.is_i64() || number.is_u64() {
                "Int64".to_owned()
            } else {
                "Float64".to_owned()
            }
        },
        _ => "LowCardinality(String)".to_owned(),
    }
}

/// The columns for fields.
pub open spec fn field_columns(fields: Entries) -> Pairs {
    fields.map_values(|field: (Seq<char>, Json)| (field.0, column_type(field.1)))
}

// ---------------------------------------------------------------------------------------------
// Building
// ---------------------------------------------------------------------------------------------

/// An address to listen at, if the way in is open.
pub open spec fn open_address(raw: Option<String>) -> Option<Seq<char>> {
    match raw {
        Some(text) => if trim(text@).len() > 0 {
            Some(trim(text@))
        } else {
            None
        },
        None => None,
    }
}

/// An address to listen at, if the way in is open. Nothing and a blank text close it.
pub fn enabled(raw: &Option<String>) -> (r: Option<String>)
    ensures
        optional_text(r) == open_address(*raw),
{
    match raw {
        Some(text) => {
            let address = trimmed(text.as_str());
            if address.as_str().is_empty() {
                None
            } else {
                Some(address)
            }
        },
        None => None,
    }
}

/// What is said about an address that is none.
pub open spec fn bad_address(name: Seq<char>, raw: Seq<char>) -> Failure {
    Failure::Config(
        "source."@ + name + " `"@ + raw + "` 不是合法的监听地址（例：0.0.0.0:4317）"@,
    )
}

/// What is said about an address that is none.
pub fn address_error(name: &str, raw: &str) -> (r: Error)
    ensures
        r@ == bad_address(name@, raw@),
{
    let mut text = "source.".to_owned();
    text.push_str(name);
    text.push_str(" `");
    text.push_str(raw);
    text.push_str("` 不是合法的监听地址（例：0.0.0.0:4317）");
    Error::Config(text)
}

/// What a configuration is built into to receive spans.
pub enum SourceChoice<L> {
    Otlp(OtlpSource<L>),
    Stdin(StdinSource),
}

/// What a configuration is built into to store spans.
pub enum SinkChoice {
    Clickhouse(ClickhouseSink),
    Console(ConsoleSink),
}

/// What is the matter with the part that receives spans. Whether the addresses can be listened at
/// is given.
pub open spec fn source_trouble(
    config: SourceConfig,
    grpc_valid: bool,
    http_valid: bool,
) -> Option<Failure> {
    match config {
        SourceConfig::Stdin(_) => None,
        SourceConfig::Otlp(otlp) => {
            let grpc = open_address(otlp.grpc);
            let http = open_address(otlp.http);
            if grpc is Some && !grpc_valid {
                Some(bad_address("grpc"@, grpc->Some_0))
            } else if http is Some && !http_valid {
                Some(bad_address("http"@, http->Some_0))
            } else if grpc is None && http is None {
                Some(Failure::Config("source.grpc 和 source.http 至少要开一个"@))
            } else {
                None
            }
        },
    }
}

/// Listening where the address says, or not at all.
pub open spec fn opens<L>(endpoint: Option<Endpoint<L>>, address: Option<Seq<char>>) -> bool {
    match (endpoint, address) {
        (Some(Endpoint::Addr(text)), Some(address)) => text@ == address,
        (None, None) => true,
        _ => false,
    }
}

/// The source is what the configuration says.
pub open spec fn source_fits<L>(
    source: SourceChoice<L>,
    config: SourceConfig,
    fields: Entries,
) -> bool {
    match (source, config) {
        (SourceChoice::Otlp(source), SourceConfig::Otlp(otlp)) => {
            &&& opens(source.grpc, open_address(otlp.grpc))
            &&& opens(source.http, open_address(otlp.http))
            &&& source.max_request_bytes == if otlp.max_request_bytes < LEAST_MAX_REQUEST_BYTES {
                LEAST_MAX_REQUEST_BYTES
            } else {
                otlp.max_request_bytes
            }
            &&& nanos(source.enqueue_timeout) == otlp.enqueue_timeout_secs * 1_000_000_000
            &&& source.wait_for_write == otlp.wait_for_write
            &&& shares(source.fields, fields)
        },
        (SourceChoice::Stdin(source), SourceConfig::Stdin(stdin)) => {
            &&& source.batch_lines == at_least_one(stdin.batch_lines)
            &&& nanos(source.flush_interval) == 500_000_000
            &&& shares(source.fields, fields)
        },
        _ => false,
    }
}

/// What stores spans in ClickHouse by the configuration, or what is the matter with it.
pub open spec fn clickhouse_of(config: SinkConfig, fields: Entries) -> Result<SinkModel, Failure> {
    match config {
        SinkConfig::Console { .. } => Err(Failure::Config("sink 不是 clickhouse"@)),
        SinkConfig::Clickhouse {
            endpoint,
            database,
            table,
            cluster,
            timezone,
            user,
            password,
            async_insert,
            compress,
            timeout_secs,
        } => if timezone is Some && !known_zone(timezone->Some_0@) {
            Err(
                Failure::Config(
                    "sink.timezone `"@ + timezone->Some_0@
                        + "` 不是合法的 IANA 时区名（例：Asia/Shanghai）"@,
                ),
            )
        } else {
            Ok(
                SinkModel {
                    endpoint: without_end(endpoint@, '/'),
                    database: database@,
                    table: table@,
                    cluster: optional_text(cluster),
                    zone: optional_text(timezone),
                    extra: field_columns(fields),
                    user: optional_text(user),
                    password: if user is Some {
                        match password {
                            Some(text) => Some(text@),
                            None => Some(Seq::empty()),
                        }
                    } else {
                        None
                    },
                    timeout: (timeout_secs * 1_000_000_000) as nat,
                    async_insert,
                    compress,
                },
            )
        },
    }
}

impl Config {
    /// The columns for fields.
    fn extra_columns(&self) -> (r: Vec<(String, String)>)
        ensures
            pairs(r@) == field_columns(self.fields@),
    {
        let ghost model = self.fields@;
        let ghost all = field_columns(model);
        let mut out: Vec<(String, String)> = Vec::new();
        assert(pairs(out@) =~= all.take(0));
        let mut i: usize = 0;
        while i < self.fields.len()
            invariant
                model == self.fields@,
                all == field_columns(model),
                i <= model.len(),
                pairs(out@) == all.take(i as int),
            decreases model.len() - i,
        {
            let name = self.fields.key_at(i);
            let kind = column_type_of(self.fields.value_at(i));
            let ghost earlier = out@;
            out.push((name.to_owned(), kind));
            assert(pairs(out@) =~= pairs(earlier).push((name@, kind@)));
            assert(pairs(out@) =~= all.take(i + 1));
            i += 1;
        }
        assert(all.take(i as int) =~= all);
        out
    }

    fn build_clickhouse(&self) -> (r: Result<ClickhouseSink, Error>)
        ensures
            match clickhouse_of(self.sink, self.fields@) {
                Ok(model) => r is Ok && r->Ok_0@ == model,
                Err(failure) => r is Err && r->Err_0@ == failure,
            },
    {
        match &self.sink {
            SinkConfig::Console { .. } => Err(Error::config("sink 不是 clickhouse")),
            SinkConfig::Clickhouse {
                endpoint,
                database,
                table,
                cluster,
                timezone,
                user,
                password,
                async_insert,
                compress,
                timeout_secs,
            } => {
                let mut sink = ClickhouseSink::new(
                    endpoint.as_str(),
                    database.as_str(),
                    table.as_str(),
                ).timeout(Duration::from_secs(*timeout_secs)).async_insert(
                    *async_insert,
                ).compress(*compress);
                match cluster {
                    Some(cluster) => {
                        sink = sink.cluster(cluster.as_str());
                    },
                    None => {},
                }
                match timezone {
                    Some(timezone) => {
                        match zone_named(timezone.as_str()) {
                            Some(tz) => {
                                sink = sink.timezone(tz);
                            },
                            None => {
                                let mut text = "sink.timezone `".to_owned();
                                text.push_str(timezone.as_str());
                                text.push_str("` 不是合法的 IANA 时区名（例：Asia/Shanghai）");
                                return Err(Error::Config(text));
                            },
                        }
                    },
                    None => {},
                }
                sink = sink.extra_columns(self.extra_columns());
                match user {
                    Some(user) => {
                        proof {
                            reveal_strlit("");
                            assert(""@ =~= Seq::<char>::empty());
                        }
                        let key = match password {
                            Some(password) => password.as_str(),
                            None => "",
                        };
                        sink = sink.auth(user.as_str(), key);
                    },
                    None => {},
                }
                Ok(sink)
            },
        }
    }

    /// What receives spans. `grpc_valid` and `http_valid` say whether the addresses that are
    /// [`enabled`] can be listened at.
    pub fn build_source<L>(&self, grpc_valid: bool, http_valid: bool) -> (r: Result<
        SourceChoice<L>,
        Error,
    >)
        ensures
            match source_trouble(self.source, grpc_valid, http_valid) {
                Some(failure) => r is Err && r->Err_0@ == failure,
                None => r is Ok && source_fits(r->Ok_0, self.source, self.fields@),
            },
    {
        let fields = self.fields.clone();
        match &self.source {
            SourceConfig::Otlp(otlp) => {
                let grpc = enabled(&otlp.grpc);
                let http = enabled(&otlp.http);
                match &grpc {
                    Some(address) => {
                        if !grpc_valid {
                            return Err(address_error("grpc", address.as_str()));
                        }
                    },
                    None => {},
                }
                match &http {
                    Some(address) => {
                        if !http_valid {
                            return Err(address_error("http", address.as_str()));
                        }
                    },
                    None => {},
                }
                if grpc.is_none() && http.is_none() {
                    return Err(Error::config("source.grpc 和 source.http 至少要开一个"));
                }
                let timeout = Duration::from_secs(otlp.enqueue_timeout_secs);
                let mut source: OtlpSource<L> = OtlpSource::new().no_grpc().no_http()
                    .max_request_bytes(otlp.max_request_bytes).enqueue_timeout(timeout)
                    .wait_for_write(otlp.wait_for_write).fields(fields);
                match grpc {
                    Some(address) => {
                        source = source.grpc(address);
                    },
                    None => {},
                }
                match http {
                    Some(address) => {
                        source = source.http(address);
                    },
                    None => {},
                }
                Ok(SourceChoice::Otlp(source))
            },
            SourceConfig::Stdin(stdin) => Ok(
                SourceChoice::Stdin(
                    StdinSource::new().batch_lines(stdin.batch_lines).fields(fields),
                ),
            ),
        }
    }

    /// The statements that create the table for the configuration, with columns for its fields.
    pub fn ddl(&self) -> (r: Result<String, Error>)
        ensures
            match self.sink {
                SinkConfig::Console { .. } => r is Err && r->Err_0@ == Failure::Config(
                    "当前 sink 是 console，没有建表语句"@,
                ),
                SinkConfig::Clickhouse { .. } => match clickhouse_of(self.sink, self.fields@) {
                    Ok(model) => r is Ok && r->Ok_0@ == ddl_text(model, model.extra),
                    Err(failure) => r is Err && r->Err_0@ == failure,
                },
            },
    {
        match &self.sink {
            SinkConfig::Console { .. } => Err(
                Error::config("当前 sink 是 console，没有建表语句"),
            ),
            SinkConfig::Clickhouse { .. } => match self.build_clickhouse() {
                Ok(sink) => Ok(sink.create_table_ddl()),
                Err(error) => Err(error),
            },
        }
    }

    /// Whether everything can be built. Nothing is listened at and nothing is connected to.
    pub fn check(&self, grpc_valid: bool, http_valid: bool) -> (r: Result<(), Error>)
        ensures
            match build_trouble(*self, grpc_valid, http_valid) {
                Some(failure) => r is Err && r->Err_0@ == failure,
                None => r is Ok,
            },
    {
        let source: Result<SourceChoice<()>, Error> = self.build_source(grpc_valid, http_valid);
        match source {
            Ok(_) => {},
            Err(error) => {
                return Err(error);
            },
        }
        match &self.sink {
            SinkConfig::Console { .. } => Ok(()),
            SinkConfig::Clickhouse { .. } => match self.build_clickhouse() {
                Ok(_) => Ok(()),
                Err(error) => Err(error),
            },
        }
    }

    /// The pipeline for the configuration.
    pub fn build<L, T>(self, grpc_valid: bool, http_valid: bool) -> (r: Result<
        Pipeline<SourceChoice<L>, SinkChoice, T>,
        Error,
    >)
        ensures
            match build_trouble(self, grpc_valid, http_valid) {
                Some(failure) => r is Err && r->Err_0@ == failure,
                None => r is Ok && pipeline_fits(r->Ok_0, self),
            },
    {
        let source: SourceChoice<L> = match self.build_source(grpc_valid, http_valid) {
            Ok(source) => source,
            Err(error) => {
                return Err(error);
            },
        };
        let batch = BatchConfig::default().max_events(self.batch.max_events).max_bytes(
            self.batch.max_bytes,
        ).timeout(Duration::from_secs(self.batch.timeout_secs));
        let retry = RetryConfig {
            max_attempts: or_one(self.retry.max_attempts),
            initial_backoff: Duration::from_millis(self.retry.initial_backoff_ms),
            max_backoff: Duration::from_secs(self.retry.max_backoff_secs),
        };
        let on_error = match self.pipeline.on_error {
            OnErrorSetting::Stop => OnError::Stop,
            OnErrorSetting::Drop => OnError::Drop,
        };
        let sink = match &self.sink {
            SinkConfig::Clickhouse { .. } => match self.build_clickhouse() {
                Ok(sink) => SinkChoice::Clickhouse(sink),
                Err(error) => {
                    return Err(error);
                },
            },
            SinkConfig::Console { encoding, stderr } => {
                let console = ConsoleSink::new(
                    match encoding {
                        ConsoleEncoding::Json => Encoding::Json,
                        ConsoleEncoding::Text => Encoding::Text,
                    },
                );
                SinkChoice::Console(
                    if *stderr {
                        console.stderr()
                    } else {
                        console
                    },
                )
            },
        };
        Pipeline::builder().source(source).batch(batch).retry(retry).buffer(
            self.pipeline.buffer,
        ).require_healthy(self.pipeline.require_healthy).on_error(on_error).sink(sink).build()
    }
}

/// What is the matter with a configuration, if anything.
pub open spec fn build_trouble(
    config: Config,
    grpc_valid: bool,
    http_valid: bool,
) -> Option<Failure> {
    first_of(
        source_trouble(config.source, grpc_valid, http_valid),
        match config.sink {
            SinkConfig::Console { .. } => None,
            SinkConfig::Clickhouse { .. } => problem(clickhouse_of(config.sink, config.fields@)),
        },
    )
}

/// The sink is what the configuration says.
pub open spec fn sink_fits(sink: SinkChoice, config: SinkConfig, fields: Entries) -> bool {
    match (sink, config) {
        (SinkChoice::Clickhouse(sink), SinkConfig::Clickhouse { .. }) => Ok::<SinkModel, Failure>(
            sink@,
        ) == clickhouse_of(config, fields),
        (SinkChoice::Console(sink), SinkConfig::Console { encoding, stderr }) => {
            &&& sink.encoding == match encoding {
                ConsoleEncoding::Json => Encoding::Json,
                ConsoleEncoding::Text => Encoding::Text,
            }
            &&& sink.target == if stderr {
                Target::Stderr
            } else {
                Target::Stdout
            }
        },
        _ => false,
    }
}

/// The pipeline is what the configuration says.
pub open spec fn pipeline_fits<L, T>(
    pipeline: Pipeline<SourceChoice<L>, SinkChoice, T>,
    config: Config,
) -> bool {
    &&& source_fits(pipeline.source, config.source, config.fields@)
    &&& sink_fits(pipeline.sink, config.sink, config.fields@)
    &&& pipeline.transforms@.len() == 0
    &&& pipeline.batch.max_events == at_least_one(config.batch.max_events)
    &&& pipeline.batch.max_bytes == at_least_one(config.batch.max_bytes)
    &&& nanos(pipeline.batch.timeout) == config.batch.timeout_secs * 1_000_000_000
    &&& pipeline.retry.max_attempts == at_least_one(config.retry.max_attempts)
    &&& nanos(pipeline.retry.initial_backoff) == config.retry.initial_backoff_ms * 1_000_000
    &&& nanos(pipeline.retry.max_backoff) == config.retry.max_backoff_secs * 1_000_000_000
    &&& pipeline.buffer == at_least_one(config.pipeline.buffer)
    &&& pipeline.require_healthy == config.pipeline.require_healthy
    &&& pipeline.on_error == match config.pipeline.on_error {
        OnErrorSetting::Stop => OnError::Stop,
        OnErrorSetting::Drop => OnError::Drop,
    }
}

} // verus!
