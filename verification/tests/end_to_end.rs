//! From a request to the sink: what the program does with sockets and tasks is done here step by
//! step.

use std::io::Write;
use std::sync::Arc;
use std::time::Duration;

use opentelemetry_proto::tonic::collector::trace::v1::ExportTraceServiceRequest;
use opentelemetry_proto::tonic::common::v1::any_value::Value as Any;
use opentelemetry_proto::tonic::common::v1::{AnyValue, InstrumentationScope, KeyValue};
use opentelemetry_proto::tonic::resource::v1::Resource;
use opentelemetry_proto::tonic::trace::v1::{span, ResourceSpans, ScopeSpans, Span, Status};
use prost::Message;
use tracepipe::batch::{BatchConfig, RetryConfig};
use tracepipe::error::Error;
use tracepipe::event::{SpanEvent, SpanKind, StatusCode};
use tracepipe::pipeline::{
    apply_all, Action, Happening, OnError, Pipeline, Reception, Run, Transform, Verdict,
    WriteBatch, Writer,
};
use tracepipe::sink::MemorySink;
use tracepipe::source::otlp::{
    accept, close_http, on_enqueued, on_write, open_http, Acceptance, Body, Progress, Queueing,
    Reject, Reply,
};
use tracepipe::source::{Batch, OtlpSource};
use tracepipe::value::{Value, ValueMap};

const TRACE_ID: [u8; 16] = [
    0xe8, 0x9a, 0x47, 0x68, 0x82, 0x23, 0x6c, 0xe0, 0xf1, 0x18, 0x6d, 0x15, 0x22, 0xc8, 0xf5, 0x9f,
];
const SERVER_SPAN: [u8; 8] = [0xe8, 0xb0, 0xe7, 0x3e, 0x21, 0x32, 0xf2, 0x1c];
const CLIENT_SPAN: [u8; 8] = [0x01, 0x02, 0x03, 0x04, 0x05, 0x06, 0x07, 0x08];
/// 2026-09-07 03:04:08.914293456 UTC
const START: u64 = 1_788_750_248_914_293_456;

fn kv(key: &str, value: Any) -> KeyValue {
    KeyValue {
        key: key.to_owned(),
        value: Some(AnyValue { value: Some(value) }),
        ..Default::default()
    }
}

/// One resource, one scope and two spans: a server that failed, and a client below it.
fn sample_request() -> ExportTraceServiceRequest {
    ExportTraceServiceRequest {
        resource_spans: vec![ResourceSpans {
            resource: Some(Resource {
                attributes: vec![
                    kv("service.name", Any::StringValue("order-service".into())),
                    kv(
                        "k8s.pod.name",
                        Any::StringValue("order-service-7d9f8b6c4-abcde".into()),
                    ),
                ],
                ..Default::default()
            }),
            scope_spans: vec![ScopeSpans {
                scope: Some(InstrumentationScope {
                    name: "io.opentelemetry.tomcat-10.0".into(),
                    version: "2.9.0".into(),
                    ..Default::default()
                }),
                spans: vec![
                    Span {
                        trace_id: TRACE_ID.to_vec(),
                        span_id: SERVER_SPAN.to_vec(),
                        name: "GET /orders/{id}".into(),
                        kind: span::SpanKind::Server as i32,
                        start_time_unix_nano: START,
                        end_time_unix_nano: START + 12_345_678,
                        attributes: vec![
                            kv("http.request.method", Any::StringValue("GET".into())),
                            kv("http.response.status_code", Any::IntValue(500)),
                        ],
                        events: vec![span::Event {
                            time_unix_nano: START + 10_000_000,
                            name: "exception".into(),
                            attributes: vec![kv(
                                "exception.type",
                                Any::StringValue("java.lang.IllegalStateException".into()),
                            )],
                            ..Default::default()
                        }],
                        status: Some(Status {
                            code: 2,
                            message: "order closed".into(),
                        }),
                        ..Default::default()
                    },
                    Span {
                        trace_id: TRACE_ID.to_vec(),
                        span_id: CLIENT_SPAN.to_vec(),
                        parent_span_id: SERVER_SPAN.to_vec(),
                        name: "SELECT orders".into(),
                        kind: span::SpanKind::Client as i32,
                        start_time_unix_nano: START + 1_000_000,
                        end_time_unix_nano: START + 3_000_000,
                        links: vec![span::Link {
                            trace_id: TRACE_ID.to_vec(),
                            span_id: SERVER_SPAN.to_vec(),
                            ..Default::default()
                        }],
                        ..Default::default()
                    },
                ],
                ..Default::default()
            }],
            ..Default::default()
        }],
    }
}

fn text(value: &str) -> Value {
    Value::String(value.to_owned())
}

fn assert_sample(events: &[SpanEvent]) {
    assert_eq!(events.len(), 2);
    let server = &events[0];
    assert_eq!(server.trace_id, "e89a476882236ce0f1186d1522c8f59f");
    assert_eq!(server.span_id, "e8b0e73e2132f21c");
    assert_eq!(server.parent_span_id, "");
    assert_eq!(&*server.service_name, "order-service");
    assert_eq!(server.span_name, "GET /orders/{id}");
    assert_eq!(server.span_kind, SpanKind::Server);
    assert_eq!(server.status_code, StatusCode::Error);
    assert_eq!(server.status_message, "order closed");
    assert_eq!(server.timestamp, START);
    assert_eq!(server.duration_ns, 12_345_678);
    assert_eq!(&*server.scope_name, "io.opentelemetry.tomcat-10.0");
    assert_eq!(
        server.attribute("http.response.status_code"),
        Some(&Value::Number(serde_json::Number::from(500)))
    );
    assert_eq!(
        server.attribute("k8s.pod.name"),
        Some(&text("order-service-7d9f8b6c4-abcde"))
    );
    assert_eq!(server.events.len(), 1);
    assert_eq!(server.events[0].name, "exception");
    assert_eq!(
        server.events[0].attributes.get("exception.type"),
        Some(&text("java.lang.IllegalStateException"))
    );

    let client = &events[1];
    assert_eq!(client.parent_span_id, "e8b0e73e2132f21c");
    assert_eq!(client.span_kind, SpanKind::Client);
    assert_eq!(client.status_code, StatusCode::Unset);
    assert_eq!(client.links.len(), 1);
    assert_eq!(client.links[0].span_id, "e8b0e73e2132f21c");
    // The spans of one resource share its attributes.
    assert!(Arc::ptr_eq(
        &server.resource_attributes,
        &client.resource_attributes
    ));
}

/// Keeps what has some status and marks it.
struct OnlyErrors;

impl Transform for OnlyErrors {
    fn transform(&mut self, mut event: SpanEvent) -> Option<SpanEvent> {
        if event.status_code == StatusCode::Error {
            event.insert("env", text("prod"));
            Some(event)
        } else {
            None
        }
    }
}

fn batch() -> BatchConfig {
    BatchConfig::default()
        .max_events(100)
        .timeout(Duration::from_millis(50))
}

fn retry(max_attempts: usize, millis: u64) -> RetryConfig {
    RetryConfig {
        max_attempts,
        initial_backoff: Duration::from_millis(millis),
        max_backoff: Duration::from_millis(2 * millis),
    }
}

fn broken(_: &mut MemorySink, _: &[SpanEvent]) -> Result<(), Error> {
    Err(Error::other("存储挂了"))
}

fn working(sink: &mut MemorySink, events: &[SpanEvent]) -> Result<(), Error> {
    sink.write(events);
    Ok(())
}

type Store = fn(&mut MemorySink, &[SpanEvent]) -> Result<(), Error>;

/// A pipeline and the receiver before it, without sockets, tasks and clocks.
struct Machine {
    limit: usize,
    wait_for_write: bool,
    fields: Option<Arc<ValueMap>>,
    transforms: Vec<OnlyErrors>,
    run: Run<u32>,
    writer: Writer<u32>,
    store: Store,
    sink: MemorySink,
    acknowledged: Vec<u32>,
    /// What the whole came to, if it is over.
    over: Option<Result<(), Error>>,
}

fn machine(
    source: OtlpSource<u8>,
    transforms: Vec<OnlyErrors>,
    retry: RetryConfig,
    on_error: OnError,
    store: Store,
) -> Machine {
    let mut builder = Pipeline::builder()
        .source(source)
        .sink(MemorySink::new())
        .batch(batch())
        .retry(retry)
        .on_error(on_error);
    for transform in transforms {
        builder = builder.transform(transform);
    }
    let pipeline = builder.build().unwrap();
    pipeline.source.check().unwrap();
    Machine {
        limit: pipeline.source.max_request_bytes,
        wait_for_write: pipeline.source.wait_for_write,
        fields: pipeline.source.fields,
        transforms: pipeline.transforms,
        run: Run::new(pipeline.batch),
        writer: Writer::new(pipeline.retry, pipeline.on_error),
        store,
        sink: pipeline.sink,
        acknowledged: Vec::new(),
        over: None,
    }
}

fn ordinary(source: OtlpSource<u8>, store: Store) -> Machine {
    machine(source, Vec::new(), RetryConfig::default(), OnError::Stop, store)
}

impl Machine {
    /// The writer takes a batch to its end. What it stops with, if it stops.
    fn write(&mut self, batch: WriteBatch<u32>) -> Option<Error> {
        match self.writer.on_received(batch) {
            Reception::Acknowledge(acks) => {
                self.acknowledged.extend(acks);
                return None;
            }
            Reception::Write => {}
        }
        loop {
            let outcome = (self.store)(&mut self.sink, self.writer.events().unwrap());
            match self.writer.on_written(outcome) {
                Verdict::Acknowledge(acks) => {
                    self.acknowledged.extend(acks);
                    return None;
                }
                Verdict::Retry(_) => {}
                Verdict::Stop(error) => return Some(error),
                Verdict::Discard(_) => return None,
            }
        }
    }

    /// Does what is to be done until there is something to wait for.
    fn follow(&mut self, action: Action<u32>) {
        let mut action = action;
        loop {
            action = match action {
                Action::Wait(_) => return,
                Action::Deliver(batch) => {
                    let stopped = self.write(batch);
                    let next = self.run.on(Happening::Delivered(true));
                    match stopped {
                        Some(error) => self.run.on(Happening::WriterEnded(Err(error))),
                        None => next,
                    }
                }
                Action::CloseWriter => self.run.on(Happening::WriterEnded(Ok(()))),
                Action::ReleaseSource => self.run.on(Happening::SourceEnded(Ok(()))),
                Action::Finish(result) => {
                    self.over = Some(result);
                    return;
                }
            }
        }
    }

    fn time_up(&mut self) {
        let action = self.run.on(Happening::TimeUp);
        self.follow(action);
    }

    fn stop(&mut self) {
        let action = self.run.on(Happening::SourceClosed);
        self.follow(action);
    }

    /// What an export is answered.
    fn export(&mut self, request: ExportTraceServiceRequest, ack: u32) -> Result<usize, Reject> {
        let events = match accept(request, &self.fields) {
            Acceptance::Nothing => return Ok(0),
            Acceptance::Enqueue(events) => events,
        };
        let count = events.len();
        let kept = apply_all(&mut self.transforms, events);
        let batch = if self.wait_for_write {
            Batch::with_ack(kept, ack)
        } else {
            Batch::new(kept)
        };
        assert!(self.run.fits(&batch.events));
        let action = self.run.on(Happening::Batch(batch));
        self.follow(action);
        match on_enqueued(count, self.wait_for_write, Queueing::Queued) {
            Progress::Answer(answer) => answer,
            Progress::AwaitWrite => {
                assert!(!self.acknowledged.contains(&ack));
                self.time_up();
                on_write(count, self.acknowledged.contains(&ack))
            }
        }
    }

    /// What an HTTP request is answered.
    fn post(&mut self, kind: Option<&str>, packing: Option<&str>, body: Vec<u8>) -> Reply {
        match open_http(kind, packing, body, self.limit) {
            Ok((encoding, request)) => close_http(encoding, self.export(request, 1)),
            Err(reply) => reply,
        }
    }
}

#[test]
fn http_protobuf_and_json_land_in_sink() {
    let mut machine = ordinary(OtlpSource::new(), working);
    let reply = machine.post(
        Some("application/x-protobuf"),
        None,
        sample_request().encode_to_vec(),
    );
    assert_eq!(reply.status, 200);
    machine.time_up();
    assert_eq!(machine.sink.len(), 2);
    assert_sample(machine.sink.events());

    let json = serde_json::to_string(&sample_request()).unwrap();
    assert!(
        json.contains("\"traceId\":\"e89a476882236ce0f1186d1522c8f59f\""),
        "{json}"
    );
    let reply = machine.post(Some("application/json"), None, json.into_bytes());
    assert_eq!(reply.status, 200);
    assert_eq!(reply.body, Body::Bytes(b"{}".to_vec()));
    machine.time_up();
    assert_eq!(machine.sink.len(), 4);
    assert_sample(&machine.sink.events()[2..]);

    machine.stop();
    assert_eq!(machine.over, Some(Ok(())));
}

#[test]
fn http_accepts_gzip_and_rejects_bad_input() {
    let mut machine = ordinary(OtlpSource::new(), working);
    let mut encoder = flate2::write::GzEncoder::new(Vec::new(), flate2::Compression::fast());
    encoder
        .write_all(&sample_request().encode_to_vec())
        .unwrap();
    let reply = machine.post(
        Some("application/x-protobuf"),
        Some("gzip"),
        encoder.finish().unwrap(),
    );
    assert_eq!(reply.status, 200);
    machine.time_up();
    assert_eq!(machine.sink.len(), 2);

    let reply = machine.post(None, None, b"x".to_vec());
    assert_eq!(reply.status, 415);
    let reply = machine.post(Some("application/json"), None, b"{not json".to_vec());
    assert_eq!(reply.status, 400);
    let reply = machine.post(
        Some("application/x-protobuf"),
        Some("gzip"),
        b"plain".to_vec(),
    );
    assert_eq!(reply.status, 400);

    machine.stop();
    assert_eq!(machine.over, Some(Ok(())));
    assert_eq!(machine.sink.len(), 2);
}

#[test]
fn static_fields_and_transform() {
    let mut fields = ValueMap::new();
    fields.insert("cluster".to_owned(), text("bj-prod"));
    let mut machine = machine(
        OtlpSource::new().fields(fields),
        vec![OnlyErrors],
        RetryConfig::default(),
        OnError::Stop,
        working,
    );
    assert_eq!(machine.export(sample_request(), 1), Ok(2));
    machine.time_up();
    assert_eq!(machine.sink.len(), 1);
    machine.stop();

    let events = machine.sink.events();
    assert_eq!(events[0].status_code, StatusCode::Error);
    assert!(events[0].fields.len() == 1);
    let json: serde_json::Value = serde_json::from_str(&events[0].to_json_line().unwrap()).unwrap();
    assert_eq!(json["cluster"], "bj-prod");
    assert_eq!(json["env"], "prod");
    assert_eq!(json["timestamp"], "2026-09-07 03:04:08.914293456+00:00");
}

#[test]
fn write_failure_stops_pipeline_and_reports_root_cause() {
    let mut machine = machine(
        OtlpSource::new(),
        Vec::new(),
        retry(2, 10),
        OnError::Stop,
        broken,
    );
    assert_eq!(machine.export(sample_request(), 1), Ok(2));
    machine.time_up();
    let message = machine.over.unwrap().unwrap_err().message();
    assert!(message.contains("存储挂了"), "{message}");
}

#[test]
fn wait_for_write_surfaces_failure_to_client() {
    let mut machine = machine(
        OtlpSource::new().wait_for_write(true),
        Vec::new(),
        retry(1, 1),
        OnError::Drop,
        broken,
    );
    assert_eq!(
        machine.export(sample_request(), 7),
        Err(Reject::WriteFailed)
    );
    let reply = machine.post(
        Some("application/x-protobuf"),
        None,
        sample_request().encode_to_vec(),
    );
    assert_eq!(reply.status, 503);
    machine.stop();
    assert_eq!(machine.over, Some(Ok(())));
}

#[test]
fn wait_for_write_acks_after_write() {
    let mut machine = ordinary(OtlpSource::new().wait_for_write(true), working);
    let reply = machine.post(
        Some("application/x-protobuf"),
        None,
        sample_request().encode_to_vec(),
    );
    assert_eq!(reply.status, 200);
    assert_eq!(machine.sink.len(), 2);
    machine.stop();
    assert_eq!(machine.over, Some(Ok(())));
}
