//! Settings: a pipeline is built as its configuration says.

use serde_yaml_ng::{Error as YamlError, Mapping, Value as Yaml};
use vstd::prelude::*;

use crate::batch::nanos;
use crate::clock::known_zone;
use crate::config::{
    build_trouble, clickhouse_of, first_of, first_unknown, fits_i64, fits_u64, is_section,
    key_name, mapping_entries, named_value, open_address, optional, optional_problem,
    pipeline_fits, problem, required, section_in, section_problem, sections_of, sink_fits,
    source_fits, source_trouble, usual_batch, usual_pipeline, usual_retry, yaml_error_text, Config,
    ConsoleEncoding, SinkChoice, SinkConfig, SourceChoice, SourceConfig,
};
use crate::error::Failure;
use crate::laws::requests::lemma_rows_go_to_the_table;
use crate::laws::table::ends;
use crate::laws::words::{is_bare, is_blank, lemma_trim, lemma_without_end, stands_in};
use crate::pipeline::Pipeline;
use crate::sink::clickhouse::insert_text;
use crate::sink::statements::begins;
use crate::text::{contains, without_end};
use crate::value::Entries;

verus! {

/// The greater of two.
pub open spec fn greatest(a: usize, b: usize) -> usize {
    if a >= b {
        a
    } else {
        b
    }
}

// ---------------------------------------------------------------------------------------------
// ClickHouse
// ---------------------------------------------------------------------------------------------

/// A configuration for ClickHouse gives a sink exactly if the zone that it names, if any, is one;
/// and that sink has each text and number that the configuration has under the same name. The
/// address loses the slashes at its end, and whoever has a name but no password has an empty one.
pub proof fn lemma_the_sink_is_as_configured(config: SinkConfig, fields: Entries)
    ensures
        match config {
            SinkConfig::Clickhouse {
                endpoint,
                database,
                table,
                cluster,
                timezone,
                user,
                password,
                async_insert,
                compress,
                timeout_secs,
            } => {
                let built = clickhouse_of(config, fields);
                let sink = built->Ok_0;
                &&& built is Ok <==> (timezone is Some ==> known_zone(timezone->0@))
                &&& built is Ok ==> {
                    &&& sink.database == database@
                    &&& sink.table == table@
                    &&& begins(endpoint@, sink.endpoint)
                    &&& !ends(sink.endpoint, seq!['/'])
                    &&& forall|i: int|
                        sink.endpoint.len() <= i < endpoint@.len() ==> #[trigger] endpoint@[i]
                            == '/'
                    &&& (cluster is Some <==> sink.cluster is Some)
                    &&& (cluster is Some ==> sink.cluster->0 == cluster->0@)
                    &&& (timezone is Some <==> sink.zone is Some)
                    &&& (timezone is Some ==> sink.zone->0 == timezone->0@)
                    &&& (user is Some <==> sink.user is Some)
                    &&& (user is Some <==> sink.password is Some)
                    &&& (user is Some ==> sink.user->0 == user->0@)
                    &&& (user is Some && password is Some ==> sink.password->0 == password->0@)
                    &&& (user is Some && password is None ==> sink.password->0.len() == 0)
                    &&& sink.timeout == timeout_secs * 1_000_000_000
                    &&& sink.async_insert == async_insert
                    &&& sink.compress == compress
                }
            },
            SinkConfig::Console { .. } => clickhouse_of(config, fields) is Err,
        },
{
    if let SinkConfig::Clickhouse { endpoint, .. } = config {
        lemma_without_end(endpoint@, '/');
        let kept = without_end(endpoint@, '/');
        if ends(kept, seq!['/']) {
            assert(kept.skip(kept.len() - 1)[0] == kept.last());
        }
    }
}

/// Rows go to the table that the configuration names, in the database that it names.
pub proof fn lemma_rows_go_where_the_configuration_says(config: SinkConfig, fields: Entries)
    requires
        config is Clickhouse,
        clickhouse_of(config, fields) is Ok,
    ensures
        insert_text(clickhouse_of(config, fields)->Ok_0) == "INSERT INTO `"@ + config->database@
            + "`.`"@ + config->table@ + "` FORMAT JSONEachRow"@,
{
    lemma_rows_go_to_the_table(clickhouse_of(config, fields)->Ok_0);
}

/// A zone that is none is named in what is said about it.
pub proof fn lemma_an_unknown_zone_is_named(config: SinkConfig, fields: Entries)
    requires
        config is Clickhouse,
        clickhouse_of(config, fields) is Err,
    ensures
        ({
            let failure = clickhouse_of(config, fields)->Err_0;
            let zone = config->timezone->0@;
            &&& failure is Config
            &&& begins(failure->Config_0, "sink.timezone `"@ + zone + "`"@)
        }),
{
    let zone = config->timezone->0@;
    let text = clickhouse_of(config, fields)->Err_0->Config_0;
    reveal_strlit("` 不是合法的 IANA 时区名（例：Asia/Shanghai）");
    reveal_strlit("`");
    let head = "sink.timezone `"@ + zone + "`"@;
    assert(text.take(head.len() as int) =~= head);
}

/// Each field of the configuration has a column under its own name, in their order: one for truth
/// values, one for integers, one for other numbers and one for texts and all else.
pub proof fn lemma_fields_have_columns(config: SinkConfig, fields: Entries)
    requires
        clickhouse_of(config, fields) is Ok,
    ensures
        clickhouse_of(config, fields)->Ok_0.extra.len() == fields.len(),
        forall|i: int|
            0 <= i < fields.len() ==> {
                let (name, kind) = #[trigger] clickhouse_of(config, fields)->Ok_0.extra[i];
                let value = fields[i].1;
                &&& name == fields[i].0
                &&& value is Bool ==> kind == "UInt8"@
                &&& value is Number && (fits_i64(value->Number_0) || fits_u64(value->Number_0))
                    ==> kind == "Int64"@
                &&& value is Number && !fits_i64(value->Number_0) && !fits_u64(value->Number_0)
                    ==> kind == "Float64"@
                &&& !(value is Bool) && !(value is Number) ==> kind == "LowCardinality(String)"@
            },
{
}

// ---------------------------------------------------------------------------------------------
// Sources
// ---------------------------------------------------------------------------------------------

/// A way in is open exactly if its address is given and is not blank; the address is then what is
/// given, without the white space around it.
pub proof fn lemma_a_blank_address_closes_the_way_in(raw: Option<String>)
    ensures
        open_address(raw) is Some <==> raw is Some && !is_blank(raw->0@),
        open_address(raw) is Some ==> is_bare(open_address(raw)->0) && stands_in(
            raw->0@,
            open_address(raw)->0,
        ),
{
    if raw is Some {
        lemma_trim(raw->0@);
    }
}

/// A source is refused exactly if an address that is open cannot be listened at, or if none is
/// open; what is said names the first such address, and gRPC comes first.
pub proof fn lemma_a_source_needs_a_valid_address(
    config: SourceConfig,
    grpc_valid: bool,
    http_valid: bool,
)
    ensures
        match config {
            SourceConfig::Stdin(_) => source_trouble(config, grpc_valid, http_valid) is None,
            SourceConfig::Otlp(otlp) => {
                let grpc = open_address(otlp.grpc);
                let http = open_address(otlp.http);
                let trouble = source_trouble(config, grpc_valid, http_valid);
                &&& trouble is None <==> {
                    &&& grpc is Some || http is Some
                    &&& grpc is Some ==> grpc_valid
                    &&& http is Some ==> http_valid
                }
                &&& trouble is Some ==> trouble->0 is Config
                &&& grpc is Some && !grpc_valid ==> begins(
                    trouble->0->Config_0,
                    "source.grpc `"@ + grpc->0 + "`"@,
                )
                &&& !(grpc is Some && !grpc_valid) && http is Some && !http_valid ==> begins(
                    trouble->0->Config_0,
                    "source.http `"@ + http->0 + "`"@,
                )
                &&& grpc is None && http is None ==> trouble->0->Config_0
                    == "source.grpc 和 source.http 至少要开一个"@
            },
        },
{
    reveal_strlit("source.");
    reveal_strlit("grpc");
    reveal_strlit("http");
    reveal_strlit(" `");
    reveal_strlit("`");
    reveal_strlit("source.grpc `");
    reveal_strlit("source.http `");
    reveal_strlit("` 不是合法的监听地址（例：0.0.0.0:4317）");
    if let SourceConfig::Otlp(otlp) = config {
        let grpc = open_address(otlp.grpc);
        let http = open_address(otlp.http);
        let trouble = source_trouble(config, grpc_valid, http_valid);
        if grpc is Some && !grpc_valid {
            let head = "source.grpc `"@ + grpc->0 + "`"@;
            assert(trouble->0->Config_0.take(head.len() as int) =~= head);
        } else if http is Some && !http_valid {
            let head = "source.http `"@ + http->0 + "`"@;
            assert(trouble->0->Config_0.take(head.len() as int) =~= head);
        }
    }
}

/// A source that fits its configuration listens for gRPC where the address for gRPC says and for
/// HTTP where the address for HTTP says, takes requests of the size that is allowed, but of 1024
/// bytes in any case, waits as long as it is told and gives its spans the fields.
pub proof fn lemma_the_source_is_as_configured<L>(
    source: SourceChoice<L>,
    config: SourceConfig,
    fields: Entries,
)
    requires
        source_fits(source, config, fields),
    ensures
        source is Otlp <==> config is Otlp,
        match (source, config) {
            (SourceChoice::Otlp(source), SourceConfig::Otlp(otlp)) => {
                &&& source.grpc is Some <==> otlp.grpc is Some && !is_blank(otlp.grpc->0@)
                &&& source.grpc is Some ==> source.grpc->0 is Addr && is_bare(
                    source.grpc->0->Addr_0@,
                ) && stands_in(otlp.grpc->0@, source.grpc->0->Addr_0@)
                &&& source.http is Some <==> otlp.http is Some && !is_blank(otlp.http->0@)
                &&& source.http is Some ==> source.http->0 is Addr && is_bare(
                    source.http->0->Addr_0@,
                ) && stands_in(otlp.http->0@, source.http->0->Addr_0@)
                &&& source.max_request_bytes == greatest(otlp.max_request_bytes, 1024)
                &&& nanos(source.enqueue_timeout) == otlp.enqueue_timeout_secs * 1_000_000_000
                &&& source.wait_for_write == otlp.wait_for_write
                &&& source.fields is Some <==> fields.len() > 0
                &&& source.fields is Some ==> (*source.fields->0)@ == fields
            },
            (SourceChoice::Stdin(source), SourceConfig::Stdin(stdin)) => {
                &&& source.batch_lines == greatest(stdin.batch_lines, 1)
                &&& nanos(source.flush_interval) == 500_000_000
                &&& source.fields is Some <==> fields.len() > 0
                &&& source.fields is Some ==> (*source.fields->0)@ == fields
            },
            _ => false,
        },
{
    if let SourceConfig::Otlp(otlp) = config {
        lemma_a_blank_address_closes_the_way_in(otlp.grpc);
        lemma_a_blank_address_closes_the_way_in(otlp.http);
    }
}

// ---------------------------------------------------------------------------------------------
// Pipelines
// ---------------------------------------------------------------------------------------------

/// A console shows rows or lines, on the output that is configured.
pub proof fn lemma_the_console_is_as_configured(
    sink: SinkChoice,
    encoding: ConsoleEncoding,
    stderr: bool,
    fields: Entries,
)
    requires
        sink_fits(sink, SinkConfig::Console { encoding, stderr }, fields),
    ensures
        sink is Console,
        sink->Console_0.encoding is Json <==> encoding is Json,
        sink->Console_0.encoding is Text <==> encoding is Text,
        sink->Console_0.target is Stderr <==> stderr,
        sink->Console_0.target is Stdout <==> !stderr,
{
}

/// A pipeline that fits its configuration has the limits, the waits and the choices that the
/// configuration has under the same names, and at least one of each thing that it counts.
pub proof fn lemma_the_pipeline_is_as_configured<L, T>(
    pipeline: Pipeline<SourceChoice<L>, SinkChoice, T>,
    config: Config,
)
    requires
        pipeline_fits(pipeline, config),
    ensures
        source_fits(pipeline.source, config.source, config.fields@),
        pipeline.transforms@.len() == 0,
        pipeline.batch.max_events == greatest(config.batch.max_events, 1),
        pipeline.batch.max_bytes == greatest(config.batch.max_bytes, 1),
        nanos(pipeline.batch.timeout) == config.batch.timeout_secs * 1_000_000_000,
        pipeline.retry.max_attempts == greatest(config.retry.max_attempts, 1),
        nanos(pipeline.retry.initial_backoff) == config.retry.initial_backoff_ms * 1_000_000,
        nanos(pipeline.retry.max_backoff) == config.retry.max_backoff_secs * 1_000_000_000,
        pipeline.buffer == greatest(config.pipeline.buffer, 1),
        pipeline.require_healthy == config.pipeline.require_healthy,
        pipeline.on_error is Drop <==> config.pipeline.on_error is Drop,
        pipeline.on_error is Stop <==> config.pipeline.on_error is Stop,
        config.sink is Clickhouse <==> pipeline.sink is Clickhouse,
        config.sink is Clickhouse ==> {
            &&& pipeline.sink->Clickhouse_0@.database == config.sink->database@
            &&& pipeline.sink->Clickhouse_0@.table == config.sink->table@
            &&& clickhouse_of(config.sink, config.fields@) == Ok::<_, Failure>(
                pipeline.sink->Clickhouse_0@,
            )
        },
{
    lemma_the_sink_is_as_configured(config.sink, config.fields@);
}

/// Building is refused exactly if the source is or the sink is; of two reasons the one about the
/// source is given.
pub proof fn lemma_what_cannot_be_built(config: Config, grpc_valid: bool, http_valid: bool)
    ensures
        ({
            let source = source_trouble(config.source, grpc_valid, http_valid);
            let trouble = build_trouble(config, grpc_valid, http_valid);
            let sink = clickhouse_of(config.sink, config.fields@);
            &&& source is Some ==> trouble == source
            &&& source is None && config.sink is Console ==> trouble is None
            &&& source is None && config.sink is Clickhouse ==> match sink {
                Ok(_) => trouble is None,
                Err(failure) => trouble == Some(failure),
            }
        }),
{
}

// ---------------------------------------------------------------------------------------------
// Documents
// ---------------------------------------------------------------------------------------------

/// One of the six names that a section can have.
pub open spec fn is_one_of_six(name: Seq<char>) -> bool {
    seq!["source"@, "sink"@, "batch"@, "retry"@, "pipeline"@, "fields"@].contains(name)
}

proof fn lemma_one_of_six(name: Seq<char>)
    ensures
        is_one_of_six(name) <==> is_section(name),
{
    let six = seq!["source"@, "sink"@, "batch"@, "retry"@, "pipeline"@, "fields"@];
    assert(six[0] == "source"@ && six[1] == "sink"@ && six[2] == "batch"@);
    assert(six[3] == "retry"@ && six[4] == "pipeline"@ && six[5] == "fields"@);
    if six.contains(name) {
        let k = choose|k: int| 0 <= k < six.len() && six[k] == name;
        assert(k == 0 || k == 1 || k == 2 || k == 3 || k == 4 || k == 5);
    }
}

/// A key is called by its text, whatever tags it has; one that is no text has no name.
pub proof fn lemma_names_of_keys(key: Yaml)
    ensures
        match key {
            Yaml::String(text) => key_name(key) == text@,
            Yaml::Tagged(tagged) => key_name(key) == key_name(tagged.value),
            _ => key_name(key).len() == 0,
        },
{
}

/// A key that is no section is found exactly if there is one, and it is the first.
pub proof fn lemma_the_first_unknown_key_is_found(entries: Seq<(Yaml, Yaml)>)
    ensures
        match first_unknown(entries) {
            None => forall|i: int|
                0 <= i < entries.len() ==> is_one_of_six(key_name((#[trigger] entries[i]).0)),
            Some(name) => !is_one_of_six(name) && exists|i: int|
                0 <= i < entries.len() && key_name((#[trigger] entries[i]).0) == name && forall|
                    j: int,
                | 0 <= j < i ==> is_one_of_six(key_name((#[trigger] entries[j]).0)),
        },
    decreases entries.len(),
{
    if entries.len() > 0 {
        let front = entries.drop_last();
        let n = entries.len() - 1;
        lemma_the_first_unknown_key_is_found(front);
        lemma_one_of_six(key_name(entries.last().0));
        match first_unknown(front) {
            None => {
                assert forall|i: int| 0 <= i < n implies is_one_of_six(
                    key_name((#[trigger] entries[i]).0),
                ) by {
                    assert(front[i] == entries[i]);
                }
                assert(entries[n] == entries.last());
            },
            Some(name) => {
                let i = choose|i: int|
                    0 <= i < front.len() && key_name((#[trigger] front[i]).0) == name && forall|
                        j: int,
                    | 0 <= j < i ==> is_one_of_six(key_name((#[trigger] front[j]).0));
                assert(entries[i] == front[i]);
                assert forall|j: int| 0 <= j < i implies is_one_of_six(
                    key_name((#[trigger] entries[j]).0),
                ) by {
                    assert(front[j] == entries[j]);
                }
            },
        }
    }
}

/// A document has sections exactly if it can be read, is a mapping and has no key that is no
/// section. Else what is said tells which of these it is, and the unknown key.
pub proof fn lemma_sections_of_a_document(document: Result<Yaml, YamlError>)
    ensures
        match document {
            Err(error) => sections_of(document) is Err && sections_of(document)->Err_0 is Config
                && ends(sections_of(document)->Err_0->Config_0, yaml_error_text(error)),
            Ok(Yaml::Mapping(mapping)) => match first_unknown(mapping_entries(mapping)) {
                None => sections_of(document) == Ok::<Mapping, Failure>(mapping),
                Some(name) => sections_of(document) is Err && sections_of(document)->Err_0 is Config
                    && begins(
                    sections_of(document)->Err_0->Config_0,
                    "未知的配置项 `"@ + name + "`"@,
                ),
            },
            Ok(Yaml::Null) => sections_of(document) == Err::<Mapping, Failure>(
                Failure::Config("配置是空的"@),
            ),
            Ok(_) => sections_of(document) == Err::<Mapping, Failure>(
                Failure::Config("配置最外层应当是 key: value 形式"@),
            ),
        },
{
    reveal_strlit("`；可用的有: source / sink / batch / retry / pipeline / fields");
    reveal_strlit("`");
    match document {
        Err(error) => {
            let text = sections_of(document)->Err_0->Config_0;
            let tail = yaml_error_text(error);
            assert(text.skip(text.len() - tail.len()) =~= tail);
        },
        Ok(Yaml::Mapping(mapping)) => {
            if let Some(name) = first_unknown(mapping_entries(mapping)) {
                let text = sections_of(document)->Err_0->Config_0;
                let head = "未知的配置项 `"@ + name + "`"@;
                assert(text.take(head.len() as int) =~= head);
            }
        },
        _ => {},
    }
}

/// A section holds what the document has under its name. One that is missing holds nothing, and
/// one that is blank counts as missing unless it is the source or the sink.
pub proof fn lemma_blank_sections_count_as_missing(mapping: Mapping, name: Seq<char>)
    ensures
        ({
            let found = named_value(mapping_entries(mapping), name);
            let section = section_in(mapping, name);
            &&& found is None ==> section is None
            &&& found is Some && !(found->0 is Null) ==> section == found
            &&& found is Some && found->0 is Null && (name == "source"@ || name == "sink"@)
                ==> section == found
            &&& found is Some && found->0 is Null && name != "source"@ && name != "sink"@
                ==> section is None
        }),
{
}

/// A section that cannot be left out is what was read, and there is trouble exactly if it is
/// missing or could not be read; the trouble names it.
pub proof fn lemma_a_required_section<T>(name: Seq<char>, section: Option<Result<T, String>>)
    ensures
        section is Some && section->0 is Ok ==> required(name, section) == Ok::<T, Failure>(
            section->0->Ok_0,
        ),
        section is None ==> required(name, section) is Err && required(name, section)->Err_0
            == Failure::Config("缺少 `"@ + name + "` 配置"@),
        section is Some && section->0 is Err ==> required(name, section) is Err && required(
            name,
            section,
        )->Err_0 == section_problem(name, section->0->Err_0@),
{
}

/// A section that may be left out is what was read, or the usual one where it is left out; there
/// is trouble exactly if it could not be read.
pub proof fn lemma_an_optional_section<T>(
    name: Seq<char>,
    section: Option<Result<T, String>>,
    usual: T,
)
    ensures
        section is Some && section->0 is Ok ==> optional(name, section, usual) == Ok::<T, Failure>(
            section->0->Ok_0,
        ),
        section is None ==> optional(name, section, usual) == Ok::<T, Failure>(usual),
        section is Some && section->0 is Err ==> optional(name, section, usual) is Err && optional(
            name,
            section,
            usual,
        )->Err_0 == section_problem(name, section->0->Err_0@),
{
}

/// What is said about a section begins with its name and gives the reason. Advice about its type
/// follows exactly where the section has one and the reason is a field that is not known.
pub proof fn lemma_the_problem_of_a_section(name: Seq<char>, message: Seq<char>)
    ensures
        ({
            let problem = section_problem(name, message);
            let plain = "`"@ + name + "` 配置有问题: "@ + message;
            let advised = (name == "source"@ || name == "sink"@) && contains(
                message,
                "unknown field"@,
            );
            &&& problem is Config
            &&& begins(problem->Config_0, plain)
            &&& !advised ==> problem->Config_0 == plain
            &&& advised ==> problem->Config_0 == plain + ("；请检查 "@ + name
                + ".type 和下面的字段是否匹配"@)
        }),
{
    let problem = section_problem(name, message)->Config_0;
    let plain = "`"@ + name + "` 配置有问题: "@ + message;
    assert(plain + Seq::<char>::empty() =~= plain);
    assert(problem.take(plain.len() as int) =~= plain);
}

/// Of several troubles the first one counts; there is trouble with a section that cannot be left
/// out exactly if it is not there or cannot be read, and with another exactly if it cannot be
/// read.
pub proof fn lemma_the_first_trouble_counts<T>(
    first: Option<Failure>,
    second: Option<Failure>,
    name: Seq<char>,
    section: Option<Result<T, String>>,
)
    ensures
        first is Some ==> first_of(first, second) == first,
        first is None ==> first_of(first, second) == second,
        problem(required(name, section)) is None <==> section is Some && section->0 is Ok,
        problem(required(name, section)) is Some ==> problem(required(name, section))->0
            == required(name, section)->Err_0,
        optional_problem(name, section) is Some <==> section is Some && section->0 is Err,
        optional_problem(name, section) is Some ==> optional_problem(name, section)->0
            == section_problem(name, section->0->Err_0@),
{
}

/// Where nothing is said, a batch is handed on at 10 000 spans, at 8 MiB or after a second; a write
/// is tried five times, with waits from half a second up to half a minute; the queue holds 64
/// batches, an unhealthy sink is no reason not to start, and what cannot be stored stops the run.
pub proof fn lemma_what_is_usual()
    ensures
        usual_batch().max_events == 10_000,
        usual_batch().max_bytes == 8 * 1024 * 1024,
        usual_batch().timeout_secs == 1,
        usual_retry().max_attempts == 5,
        usual_retry().initial_backoff_ms == 500,
        usual_retry().max_backoff_secs == 30,
        usual_pipeline().buffer == 64,
        !usual_pipeline().require_healthy,
        usual_pipeline().on_error is Stop,
{
}

} // verus!
