use std::io::Write;
use std::sync::Arc;
use std::time::Duration;

use opentelemetry_proto::tonic::collector::trace::v1::ExportTraceServiceRequest;
use opentelemetry_proto::tonic::trace::v1::{ResourceSpans, ScopeSpans, Span};
use prost::Message;
use tracepipe::error::{Error, IoKind};
use tracepipe::event::SpanEvent;
use tracepipe::otlp::convert;
use tracepipe::source::otlp::{
    accept, close_http, decode_body, encoding_of, listen_error, listen_failed, merge_listener, on_enqueued,
    on_write, open_http, readable, service_ended, within_limit, Acceptance, Body, Encoding,
    Endpoint, OtlpSource, Progress, Queueing, Reject, Reply, DEFAULT_GRPC_ADDR,
    DEFAULT_HTTP_ADDR, DEFAULT_MAX_REQUEST_BYTES,
};
use tracepipe::source::stdin::LineReader;
use tracepipe::source::StdinSource;
use tracepipe::value::{Value, ValueMap};

const LIMIT: usize = 1024 * 1024;

fn request(names: &[&str]) -> ExportTraceServiceRequest {
    ExportTraceServiceRequest {
        resource_spans: vec![ResourceSpans {
            scope_spans: vec![ScopeSpans {
                spans: names
                    .iter()
                    .map(|name| Span {
                        name: (*name).to_owned(),
                        trace_id: vec![0xe8; 16],
                        ..Default::default()
                    })
                    .collect(),
                ..Default::default()
            }],
            ..Default::default()
        }],
    }
}

fn names(events: &[SpanEvent]) -> Vec<&str> {
    events.iter().map(|event| event.span_name.as_str()).collect()
}

fn fields() -> ValueMap {
    let mut map = ValueMap::new();
    map.insert("cluster".to_owned(), Value::String("bj-prod".to_owned()));
    map
}

fn gzip(bytes: &[u8]) -> Vec<u8> {
    let mut encoder = flate2::write::GzEncoder::new(Vec::new(), flate2::Compression::fast());
    encoder.write_all(bytes).unwrap();
    encoder.finish().unwrap()
}

fn reply_text(reply: &Reply) -> &str {
    match &reply.body {
        Body::Text(text) => text,
        Body::Bytes(_) => panic!("a text"),
    }
}

#[test]
fn settings_of_the_receiver() {
    let source: OtlpSource<u8> = OtlpSource::default();
    assert!(matches!(&source.grpc, Some(Endpoint::Addr(addr)) if addr == DEFAULT_GRPC_ADDR));
    assert!(matches!(&source.http, Some(Endpoint::Addr(addr)) if addr == DEFAULT_HTTP_ADDR));
    assert_eq!(source.max_request_bytes, DEFAULT_MAX_REQUEST_BYTES);
    assert_eq!(source.enqueue_timeout, Duration::from_secs(5));
    assert!(!source.wait_for_write);
    assert!(source.fields.is_none());
    let source = source
        .grpc("1.2.3.4:5".to_owned())
        .http_listener(9)
        .max_request_bytes(3)
        .enqueue_timeout(Duration::from_secs(1))
        .wait_for_write(true)
        .fields(ValueMap::new());
    assert!(matches!(&source.grpc, Some(Endpoint::Addr(addr)) if addr == "1.2.3.4:5"));
    assert!(matches!(source.http, Some(Endpoint::Bound(9))));
    assert_eq!(source.max_request_bytes, 1024);
    assert_eq!(source.enqueue_timeout, Duration::from_secs(1));
    assert!(source.wait_for_write);
    assert!(source.fields.is_none());
    let source = source.grpc_listener(8).http("h".to_owned()).fields(fields());
    assert!(matches!(source.grpc, Some(Endpoint::Bound(8))));
    assert_eq!(source.fields.as_ref().unwrap().len(), 1);
    assert_eq!(source.max_request_bytes(5000).max_request_bytes, 5000);
}

#[test]
fn one_way_in_has_to_be_open() {
    let source: OtlpSource<u8> = OtlpSource::new().no_grpc();
    assert_eq!(source.check(), Ok(()));
    let error = source.no_http().check().unwrap_err();
    assert!(error.message().contains("至少要开一个"));
}

#[test]
fn an_address_that_is_taken_is_named() {
    let error = listen_failed(
        "OTLP/gRPC",
        "127.0.0.1:4317",
        std::io::Error::new(std::io::ErrorKind::AddrInUse, "Address already in use"),
    );
    assert_eq!(
        error.message(),
        "监听 OTLP/gRPC 127.0.0.1:4317 失败（端口被占用；是不是已经有一个实例在跑）: Address already in use"
    );
    assert_eq!(
        listen_error("OTLP/HTTP", "0.0.0.0:80", IoKind::PermissionDenied, "denied").message(),
        "监听 OTLP/HTTP 0.0.0.0:80 失败（当前用户没有权限；1024 以下的端口需要 root 或 CAP_NET_BIND_SERVICE）: denied"
    );
    assert_eq!(
        listen_error("OTLP/HTTP", "0.0.0.0:80", IoKind::Other, "odd").message(),
        "监听 OTLP/HTTP 0.0.0.0:80 失败: odd"
    );
    assert_eq!(
        service_ended("OTLP/HTTP", "broken").message(),
        "接收失败: OTLP/HTTP 服务退出: broken"
    );
}

#[test]
fn the_first_error_of_the_listeners_counts() {
    let one = merge_listener(Ok(()), Ok(Ok(())));
    assert_eq!(one, Ok(()));
    let two = merge_listener(one, Err("panicked".to_owned()));
    assert_eq!(two, Err(Error::other("监听任务异常退出: panicked")));
    let three = merge_listener(two, Ok(Err(Error::other("later"))));
    assert_eq!(three, Err(Error::other("监听任务异常退出: panicked")));
    assert_eq!(
        merge_listener(Ok(()), Ok(Err(Error::other("x")))),
        Err(Error::other("x"))
    );
}

#[test]
fn spans_of_a_request_go_into_the_queue() {
    assert!(matches!(accept(request(&[]), &None), Acceptance::Nothing));
    let shared = Some(Arc::new(fields()));
    match accept(request(&["a", "b"]), &shared) {
        Acceptance::Enqueue(events) => {
            assert_eq!(names(&events), ["a", "b"]);
            assert!(events[0].fields.is_empty());
            let line = events[1].to_json_line().unwrap();
            assert!(line.ends_with(",\"cluster\":\"bj-prod\"}"), "{line}");
        }
        Acceptance::Nothing => panic!("there are spans"),
    }
}

#[test]
fn a_sender_that_waits_is_told_of_failure() {
    assert_eq!(
        on_enqueued(2, true, Queueing::Queued),
        Progress::AwaitWrite
    );
    assert_eq!(on_write(2, false), Err(Reject::WriteFailed));
    assert_eq!(Reject::WriteFailed.message(), "写入存储失败，稍后重试");
}

#[test]
fn a_sender_that_waits_is_told_of_success_once_stored() {
    assert_eq!(
        on_enqueued(2, true, Queueing::Queued),
        Progress::AwaitWrite
    );
    assert_eq!(on_write(2, true), Ok(2));
    assert_eq!(
        on_enqueued(2, false, Queueing::Queued),
        Progress::Answer(Ok(2))
    );
}

#[test]
fn a_queue_without_room_is_answered_with_later() {
    for wait in [false, true] {
        assert_eq!(
            on_enqueued(2, wait, Queueing::TimedOut),
            Progress::Answer(Err(Reject::Busy))
        );
        assert_eq!(
            on_enqueued(2, wait, Queueing::Closed),
            Progress::Answer(Err(Reject::Closed))
        );
    }
    assert_eq!(Reject::Busy.message(), "下游队列已满，稍后重试");
    assert_eq!(Reject::Closed.message(), "正在退出，稍后重试");
    for encoding in [Encoding::Json, Encoding::Protobuf] {
        let reply = close_http(encoding, Err(Reject::Busy));
        assert_eq!(reply.status, 503);
        assert_eq!(reply.header, Some(("retry-after", "1")));
        assert_eq!(reply_text(&reply), "下游队列已满，稍后重试");
    }
}

#[test]
fn requests_are_read_in_both_encodings() {
    let (encoding, read) = open_http(
        Some("application/x-protobuf"),
        None,
        request(&["a", "b"]).encode_to_vec(),
        LIMIT,
    )
    .unwrap();
    assert_eq!(encoding, Encoding::Protobuf);
    let spans = convert(read, None);
    assert_eq!(names(&spans), ["a", "b"]);
    assert_eq!(spans[0].trace_id, "e8".repeat(16));
    let reply = close_http(encoding, Ok(2));
    assert_eq!(reply.status, 200);
    assert_eq!(
        reply.header,
        Some(("content-type", "application/x-protobuf"))
    );
    assert_eq!(reply.body, Body::Bytes(Vec::new()));

    let json = serde_json::to_string(&request(&["a", "b"])).unwrap();
    let (encoding, read) =
        open_http(Some("application/json"), None, json.into_bytes(), LIMIT).unwrap();
    assert_eq!(encoding, Encoding::Json);
    assert_eq!(read, request(&["a", "b"]));
    let reply = close_http(encoding, Ok(2));
    assert_eq!(reply.status, 200);
    assert_eq!(reply.header, Some(("content-type", "application/json")));
    assert_eq!(reply.body, Body::Bytes(b"{}".to_vec()));
}

#[test]
fn packed_requests_are_read_and_bad_ones_refused() {
    let packed = gzip(&request(&["a", "b"]).encode_to_vec());
    let (_, read) = open_http(
        Some("application/x-protobuf"),
        Some("gzip"),
        packed,
        LIMIT,
    )
    .unwrap();
    assert_eq!(names(&convert(read, None)), ["a", "b"]);

    let reply = open_http(None, None, b"x".to_vec(), LIMIT).unwrap_err();
    assert_eq!(reply.status, 415);
    assert_eq!(
        reply_text(&reply),
        "Content-Type 只支持 application/x-protobuf 或 application/json"
    );
    let reply = open_http(
        Some("application/json"),
        None,
        b"{not json".to_vec(),
        LIMIT,
    )
    .unwrap_err();
    assert_eq!(reply.status, 400);
    assert!(reply_text(&reply).starts_with("JSON 解析失败: "));
    let reply = open_http(
        Some("application/x-protobuf"),
        Some("gzip"),
        b"plain".to_vec(),
        LIMIT,
    )
    .unwrap_err();
    assert_eq!(reply.status, 400);
    assert!(reply_text(&reply).starts_with("gzip 解压失败: "));
    let reply = open_http(
        Some("application/x-protobuf"),
        None,
        vec![0xff, 0xff],
        LIMIT,
    )
    .unwrap_err();
    assert_eq!(reply.status, 400);
    assert!(reply_text(&reply).starts_with("protobuf 解析失败: "));
}

#[test]
fn content_types_with_parameters_and_capitals() {
    assert_eq!(
        encoding_of(Some(" Application/JSON ; charset=utf-8")),
        Some(Encoding::Json)
    );
    assert_eq!(
        encoding_of(Some("application/x-protobuf;")),
        Some(Encoding::Protobuf)
    );
    assert_eq!(encoding_of(Some("text/plain")), None);
    assert_eq!(encoding_of(Some("")), None);
    assert_eq!(encoding_of(None), None);
    assert_eq!(Encoding::Json.content_type(), "application/json");
}

#[test]
fn bodies_are_unpacked_up_to_the_limit() {
    let plain = vec![7u8; 2000];
    assert_eq!(decode_body(None, plain.clone(), 10), Ok(plain.clone()));
    assert_eq!(decode_body(Some(" "), plain.clone(), 10), Ok(plain.clone()));
    assert_eq!(
        decode_body(Some("Identity"), plain.clone(), 10),
        Ok(plain.clone())
    );
    let packed = gzip(&plain);
    assert_eq!(
        decode_body(Some(" GZIP "), packed.clone(), 2000),
        Ok(plain.clone())
    );
    let reply = decode_body(Some("gzip"), packed, 1999).unwrap_err();
    assert_eq!(reply.status, 413);
    assert_eq!(reply_text(&reply), "解压后超过 1999 字节上限");
    let reply = decode_body(Some("br"), plain, 10).unwrap_err();
    assert_eq!(reply.status, 415);
    assert_eq!(
        reply_text(&reply),
        "不支持的 Content-Encoding: br，只认 gzip"
    );
}

#[test]
fn what_is_made_of_what_came_back() {
    assert_eq!(within_limit(Ok(vec![1, 2]), 2), Ok(vec![1, 2]));
    assert_eq!(within_limit(Ok(vec![1, 2, 3]), 2).unwrap_err().status, 413);
    let reply = within_limit(Err("cause".to_owned()), 2).unwrap_err();
    assert_eq!(reply.status, 400);
    assert_eq!(reply_text(&reply), "gzip 解压失败: cause");
    assert_eq!(
        readable(Encoding::Json, Ok(request(&["a"]))),
        Ok(request(&["a"]))
    );
    let reply = readable(Encoding::Protobuf, Err("cause".to_owned())).unwrap_err();
    assert_eq!(reply_text(&reply), "protobuf 解析失败: cause");
}

fn line(names: &[&str]) -> String {
    serde_json::to_string(&request(names)).unwrap()
}

#[test]
fn settings_of_standard_input() {
    let source = StdinSource::default();
    assert_eq!(source.batch_lines, 500);
    assert_eq!(source.flush_interval, Duration::from_millis(500));
    assert!(source.fields.is_none());
    let source = source.batch_lines(0).fields(fields());
    assert_eq!(source.batch_lines, 1);
    assert_eq!(source.fields.unwrap().len(), 1);
}

#[test]
fn lines_are_gathered_into_batches() {
    let mut reader = LineReader::new(StdinSource::new().batch_lines(2).fields(fields()));
    let step = reader.on_line(&line(&["a", "b"]));
    assert!(step.send.is_empty());
    assert!(step.skipped.is_none());
    let step = reader.on_line("  \t");
    assert!(step.send.is_empty());
    assert!(step.skipped.is_none());
    let step = reader.on_line("{not json");
    assert!(step.send.is_empty());
    let skipped = step.skipped.unwrap();
    assert_eq!(skipped.line, 3);
    assert!(matches!(skipped.error, Error::Json(_)));
    let step = reader.on_line(&line(&["c"]));
    assert_eq!(names(&step.send), ["a", "b", "c"]);
    assert!(step.send[0]
        .to_json_line()
        .unwrap()
        .ends_with(",\"cluster\":\"bj-prod\"}"));
    reader.on_line(&line(&["d"]));
    assert_eq!(names(&reader.on_tick()), ["d"]);
    assert!(reader.on_tick().is_empty());
    reader.on_line(&line(&["e"]));
    let step = reader.on_line(&line(&["f"]));
    assert_eq!(names(&step.send), ["e", "f"]);
    reader.on_line(&line(&["g"]));
    assert_eq!(names(&reader.on_end()), ["g"]);
    assert!(reader.on_end().is_empty());
}

#[test]
fn a_body_far_beyond_the_limit_is_too_large() {
    let plain = vec![b'x'; 100_000];
    for limit in [0, 1, 1024, 99_998, 99_999] {
        let reply = decode_body(Some("gzip"), gzip(&plain), limit).unwrap_err();
        assert_eq!(reply.status, 413);
    }
    assert_eq!(decode_body(Some("gzip"), gzip(&plain), 100_000).unwrap(), plain);
    let reply = decode_body(Some("gzip"), plain, 100_000).unwrap_err();
    assert_eq!(reply.status, 400);
}
