use std::sync::Arc;

use opentelemetry_proto::tonic::collector::trace::v1::ExportTraceServiceRequest;
use opentelemetry_proto::tonic::common::v1::any_value::Value as Any;
use opentelemetry_proto::tonic::common::v1::{
    AnyValue, ArrayValue, InstrumentationScope, KeyValue, KeyValueList,
};
use opentelemetry_proto::tonic::resource::v1::Resource;
use opentelemetry_proto::tonic::trace::v1::{span, ResourceSpans, ScopeSpans, Span, Status};
use tracepipe::error::Error;
use tracepipe::event::{SpanEvent, SpanKind, StatusCode};
use tracepipe::otlp::{attribute_value, attributes, convert, decode_json, hex, UNKNOWN_SERVICE};
use tracepipe::value::{Value, ValueMap};

fn kv(key: &str, value: Any) -> KeyValue {
    KeyValue {
        key: key.to_owned(),
        value: Some(AnyValue { value: Some(value) }),
        ..Default::default()
    }
}

fn text(value: &str) -> Value {
    Value::String(value.to_owned())
}

fn integer(value: i64) -> Value {
    Value::Number(serde_json::Number::from(value))
}

fn double(value: f64) -> Value {
    Value::Number(serde_json::Number::from_f64(value).unwrap())
}

#[test]
fn hex_is_lowercase_and_empty_for_missing() {
    assert_eq!(hex(&[0xe8, 0x9a, 0x47, 0x68]), "e89a4768");
    assert_eq!(hex(&[]), "");
    assert_eq!(hex(&[0u8; 16]).len(), 32);
}

#[test]
fn hex_tells_all_bytes_apart() {
    let mut seen = Vec::new();
    for byte in 0..=255u8 {
        let digits = hex(&[byte]);
        assert_eq!(digits, format!("{byte:02x}"));
        assert!(!seen.contains(&digits));
        seen.push(digits);
    }
}

#[test]
fn attribute_values_keep_their_types() {
    let attrs = attributes(vec![
        kv("s", Any::StringValue("x".into())),
        kv("b", Any::BoolValue(true)),
        kv("i", Any::IntValue(-7)),
        kv("d", Any::DoubleValue(1.5)),
        kv("bytes", Any::BytesValue(vec![0xde, 0xad])),
        kv(
            "arr",
            Any::ArrayValue(ArrayValue {
                values: vec![
                    AnyValue {
                        value: Some(Any::IntValue(1)),
                    },
                    AnyValue {
                        value: Some(Any::StringValue("two".into())),
                    },
                ],
            }),
        ),
        kv(
            "obj",
            Any::KvlistValue(KeyValueList {
                values: vec![kv("k", Any::BoolValue(false))],
            }),
        ),
        KeyValue {
            key: "empty".into(),
            value: None,
            ..Default::default()
        },
    ]);
    assert_eq!(attrs.get("s"), Some(&text("x")));
    assert_eq!(attrs.get("b"), Some(&Value::Bool(true)));
    assert_eq!(attrs.get("i"), Some(&integer(-7)));
    assert_eq!(attrs.get("d"), Some(&double(1.5)));
    assert_eq!(attrs.get("bytes"), Some(&text("3q0=")));
    assert_eq!(
        attrs.get("arr"),
        Some(&Value::Array(vec![integer(1), text("two")]))
    );
    let mut object = ValueMap::new();
    object.insert("k".to_owned(), Value::Bool(false));
    assert_eq!(attrs.get("obj"), Some(&Value::Object(object)));
    assert_eq!(attrs.get("empty"), Some(&Value::Null));
    assert_eq!(
        attribute_value(Some(AnyValue {
            value: Some(Any::DoubleValue(f64::NAN))
        })),
        Value::Null
    );
}

#[test]
fn what_json_cannot_write_is_null() {
    for value in [
        Any::DoubleValue(f64::INFINITY),
        Any::DoubleValue(f64::NEG_INFINITY),
        Any::StringValueStrindex(3),
    ] {
        assert_eq!(
            attribute_value(Some(AnyValue { value: Some(value) })),
            Value::Null
        );
    }
    assert_eq!(attribute_value(Some(AnyValue { value: None })), Value::Null);
    assert_eq!(attribute_value(None), Value::Null);
}

#[test]
fn numbers_are_written_in_decimal() {
    let mut event = SpanEvent::default();
    let numbers = attribute_value(Some(AnyValue {
        value: Some(Any::ArrayValue(ArrayValue {
            values: [
                Any::IntValue(i64::MIN),
                Any::IntValue(0),
                Any::IntValue(i64::MAX),
                Any::DoubleValue(1.5),
            ]
            .into_iter()
            .map(|value| AnyValue { value: Some(value) })
            .collect(),
        })),
    }));
    event.insert("n", numbers);
    let line = event.to_json_line().unwrap();
    assert!(
        line.ends_with("\"n\":[-9223372036854775808,0,9223372036854775807,1.5]}"),
        "{line}"
    );
}

#[test]
fn the_last_of_several_attributes_with_one_key_counts() {
    let attrs = attributes(vec![
        kv("k", Any::IntValue(1)),
        kv("a", Any::IntValue(2)),
        kv("k", Any::StringValue("last".into())),
    ]);
    assert_eq!(attrs.len(), 2);
    assert_eq!(attrs.get("k"), Some(&text("last")));
    assert_eq!(attrs.key_at(0), "a");
}

#[test]
fn decodes_otlp_json_with_string_encoded_ids_and_nanos() {
    let request = decode_json(
        r#"{"resourceSpans":[{"resource":{"attributes":[{"key":"service.name","value":{"stringValue":"order-service"}}]},"scopeSpans":[{"scope":{"name":"io.opentelemetry.tomcat","version":"2.9.0"},"spans":[{"traceId":"e89a476882236ce0f1186d1522c8f59f","spanId":"e8b0e73e2132f21c","parentSpanId":"","name":"GET /orders","kind":2,"startTimeUnixNano":"1789000000000000000","endTimeUnixNano":"1789000000012345678","attributes":[{"key":"http.response.status_code","value":{"intValue":"500"}}],"status":{"code":2,"message":"boom"}}]}]}]}"#,
    )
    .unwrap();
    let spans = convert(request, None);
    assert_eq!(spans.len(), 1);
    let span = &spans[0];
    assert_eq!(span.trace_id, "e89a476882236ce0f1186d1522c8f59f");
    assert_eq!(span.span_id, "e8b0e73e2132f21c");
    assert_eq!(span.parent_span_id, "");
    assert_eq!(&*span.service_name, "order-service");
    assert_eq!(&*span.scope_name, "io.opentelemetry.tomcat");
    assert_eq!(span.span_kind, SpanKind::Server);
    assert_eq!(span.status_code, StatusCode::Error);
    assert_eq!(span.status_message, "boom");
    assert_eq!(span.timestamp, 1_789_000_000_000_000_000);
    assert_eq!(span.duration_ns, 12_345_678);
    assert_eq!(
        span.attribute("http.response.status_code"),
        Some(&integer(500))
    );
    assert_eq!(span.attribute("service.name"), Some(&text("order-service")));
}

#[test]
fn text_that_is_no_request_is_an_error() {
    match decode_json("{not json") {
        Err(Error::Json(cause)) => assert!(cause.contains("line 1"), "{cause}"),
        _ => panic!("an error of JSON"),
    }
}

#[test]
fn missing_service_name_and_clock_skew_are_tolerated() {
    let request = ExportTraceServiceRequest {
        resource_spans: vec![ResourceSpans {
            resource: None,
            scope_spans: vec![ScopeSpans {
                scope: None,
                spans: vec![Span {
                    start_time_unix_nano: 100,
                    end_time_unix_nano: 50,
                    ..Default::default()
                }],
                schema_url: String::new(),
            }],
            schema_url: String::new(),
        }],
    };
    let spans = convert(request, None);
    assert_eq!(&*spans[0].service_name, UNKNOWN_SERVICE);
    assert_eq!(spans[0].duration_ns, 0);
    assert_eq!(spans[0].span_kind, SpanKind::Unspecified);
    assert_eq!(spans[0].status_code, StatusCode::Unset);
}

fn resource(attributes: Vec<KeyValue>, scopes: Vec<ScopeSpans>) -> ResourceSpans {
    ResourceSpans {
        resource: Some(Resource {
            attributes,
            ..Default::default()
        }),
        scope_spans: scopes,
        ..Default::default()
    }
}

fn scope(name: &str, spans: &[&str]) -> ScopeSpans {
    ScopeSpans {
        scope: Some(InstrumentationScope {
            name: name.to_owned(),
            version: "1".to_owned(),
            ..Default::default()
        }),
        spans: spans
            .iter()
            .map(|name| Span {
                name: (*name).to_owned(),
                ..Default::default()
            })
            .collect(),
        ..Default::default()
    }
}

#[test]
fn every_span_comes_out_in_order_and_shares() {
    let request = ExportTraceServiceRequest {
        resource_spans: vec![
            resource(
                vec![kv("service.name", Any::StringValue("one".into()))],
                vec![scope("x", &["a", "b"]), scope("y", &[]), scope("z", &["c"])],
            ),
            resource(
                vec![kv("service.name", Any::IntValue(2))],
                vec![scope("x", &["d"])],
            ),
            resource(
                vec![kv("service.name", Any::StringValue(String::new()))],
                vec![scope("x", &["e"])],
            ),
        ],
    };
    let mut fields = ValueMap::new();
    fields.insert("cluster".to_owned(), text("bj-prod"));
    let shared = Arc::new(fields);
    let spans = convert(request, Some(&shared));
    let names: Vec<&str> = spans.iter().map(|span| span.span_name.as_str()).collect();
    assert_eq!(names, ["a", "b", "c", "d", "e"]);
    let services: Vec<&str> = spans.iter().map(|span| &*span.service_name).collect();
    assert_eq!(
        services,
        ["one", "one", "one", UNKNOWN_SERVICE, UNKNOWN_SERVICE]
    );
    let scopes: Vec<&str> = spans.iter().map(|span| &*span.scope_name).collect();
    assert_eq!(scopes, ["x", "x", "z", "x", "x"]);
    assert!(Arc::ptr_eq(
        &spans[0].resource_attributes,
        &spans[2].resource_attributes
    ));
    for span in &spans {
        assert!(span.fields.is_empty());
        assert!(Arc::ptr_eq(span.shared.as_ref().unwrap(), &shared));
    }
}

#[test]
fn events_links_and_status_are_taken_over() {
    let request = ExportTraceServiceRequest {
        resource_spans: vec![resource(
            vec![],
            vec![ScopeSpans {
                spans: vec![Span {
                    trace_id: vec![1; 16],
                    span_id: vec![2; 8],
                    parent_span_id: vec![3; 8],
                    trace_state: "a=b".into(),
                    kind: 4,
                    start_time_unix_nano: 10,
                    end_time_unix_nano: 25,
                    events: vec![span::Event {
                        time_unix_nano: 12,
                        name: "exception".into(),
                        attributes: vec![kv("t", Any::StringValue("E".into()))],
                        ..Default::default()
                    }],
                    links: vec![span::Link {
                        trace_id: vec![0xab; 16],
                        span_id: vec![0xcd; 8],
                        trace_state: "s".into(),
                        attributes: vec![kv("l", Any::BoolValue(true))],
                        ..Default::default()
                    }],
                    status: Some(Status {
                        code: 1,
                        message: "fine".into(),
                    }),
                    ..Default::default()
                }],
                ..Default::default()
            }],
        )],
    };
    let spans = convert(request, None);
    let span = &spans[0];
    assert_eq!(span.trace_id, "01".repeat(16));
    assert_eq!(span.span_id, "02".repeat(8));
    assert_eq!(span.parent_span_id, "03".repeat(8));
    assert_eq!(span.trace_state, "a=b");
    assert_eq!(span.span_kind, SpanKind::Producer);
    assert_eq!(span.duration_ns, 15);
    assert_eq!(span.status_code, StatusCode::Okay);
    assert_eq!(span.status_message, "fine");
    assert_eq!(&*span.scope_name, "");
    assert_eq!(span.events[0].timestamp, 12);
    assert_eq!(span.events[0].name, "exception");
    assert_eq!(span.events[0].attributes.get("t"), Some(&text("E")));
    assert_eq!(span.links[0].trace_id, "ab".repeat(16));
    assert_eq!(span.links[0].span_id, "cd".repeat(8));
    assert_eq!(span.links[0].trace_state, "s");
    assert_eq!(
        span.links[0].attributes.get("l"),
        Some(&Value::Bool(true))
    );
}

#[test]
fn bytes_are_written_in_padded_base64() {
    let cases: [(&[u8], &str); 7] = [
        (b"", ""),
        (b"f", "Zg=="),
        (b"fo", "Zm8="),
        (b"foo", "Zm9v"),
        (b"foob", "Zm9vYg=="),
        (&[0xfb, 0xff, 0xbf], "+/+/"),
        (&[0x00, 0x10, 0x83], "ABCD"),
    ];
    for (bytes, expect) in cases {
        let value = attribute_value(Some(AnyValue {
            value: Some(Any::BytesValue(bytes.to_vec())),
        }));
        assert_eq!(value, text(expect));
    }
}
