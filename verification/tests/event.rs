use std::sync::Arc;

use chrono::{DateTime, TimeZone, Utc};
use chrono_tz::Tz;
use serde_json::Value as Json;
use tracepipe::event::{
    format_timestamp, SpanEvent, SpanKind, SpanLink, StatusCode, TimedEvent, WithZone,
};
use tracepipe::value::{Value, ValueMap};

/// 2026-09-07 03:04:08.914293456 UTC
fn nanos() -> u64 {
    let secs = Utc
        .with_ymd_and_hms(2026, 9, 7, 3, 4, 8)
        .unwrap()
        .timestamp() as u64;
    secs * 1_000_000_000 + 914_293_456
}

fn text(value: &str) -> Value {
    Value::String(value.to_owned())
}

fn integer(value: i64) -> Value {
    Value::Number(serde_json::Number::from(value))
}

fn map(entries: &[(&str, &str)]) -> ValueMap {
    let mut map = ValueMap::new();
    for (key, value) in entries {
        map.insert((*key).to_owned(), text(value));
    }
    map
}

fn millis(event: &SpanEvent) -> String {
    format!("{:.3}", event.duration_ns as f64 / 1_000_000.0)
}

#[test]
fn formats_wall_clock_with_offset() {
    assert_eq!(
        format_timestamp(nanos(), Tz::UTC).as_str(),
        "2026-09-07 03:04:08.914293456+00:00"
    );
    assert_eq!(
        format_timestamp(nanos(), chrono_tz::Asia::Shanghai).as_str(),
        "2026-09-07 11:04:08.914293456+08:00"
    );
    assert_eq!(
        format_timestamp(nanos(), chrono_tz::America::New_York).as_str(),
        "2026-09-06 23:04:08.914293456-04:00"
    );
    let expect = DateTime::<Utc>::from_timestamp(nanos() as i64 / 1_000_000_000, 914_293_456)
        .unwrap()
        .with_timezone(&chrono_tz::Asia::Shanghai)
        .format("%Y-%m-%d %H:%M:%S%.9f%:z")
        .to_string();
    assert_eq!(
        format_timestamp(nanos(), chrono_tz::Asia::Shanghai).as_str(),
        expect
    );
    assert_eq!(
        format_timestamp(0, Tz::UTC).as_str(),
        "1970-01-01 00:00:00.000000000+00:00"
    );
}

#[test]
fn formats_the_last_instant_and_odd_offsets() {
    assert_eq!(
        format_timestamp(u64::MAX, Tz::UTC).as_str(),
        "2554-07-21 23:34:33.709551615+00:00"
    );
    assert_eq!(
        format_timestamp(nanos(), chrono_tz::Asia::Kathmandu).as_str(),
        "2026-09-07 08:49:08.914293456+05:45"
    );
    assert_eq!(
        format_timestamp(0, chrono_tz::America::St_Johns).as_str(),
        "1969-12-31 20:30:00.000000000-03:30"
    );
    // Monrovia was 44 minutes and 30 seconds behind UTC; the seconds of an offset are not written.
    assert_eq!(
        format_timestamp(0, chrono_tz::Africa::Monrovia).as_str(),
        "1969-12-31 23:15:30.000000000-00:44"
    );
}

#[test]
fn serializes_flat_with_nested_arrays() {
    let mut event = SpanEvent {
        timestamp: nanos(),
        trace_id: "e89a476882236ce0f1186d1522c8f59f".into(),
        span_id: "e8b0e73e2132f21c".into(),
        span_name: "GET /orders".into(),
        span_kind: SpanKind::Server,
        service_name: Arc::from("order-service"),
        duration_ns: 12_345_678,
        status_code: StatusCode::Error,
        events: vec![TimedEvent {
            timestamp: nanos() + 1_000,
            name: "exception".into(),
            attributes: map(&[("exception.type", "IllegalStateException")]),
        }],
        ..Default::default()
    };
    event.shared = Some(Arc::new(map(&[("cluster", "bj-prod")])));
    event.insert("env", text("prod"));

    let json: Json = serde_json::from_str(&event.to_json_line().unwrap()).unwrap();
    assert_eq!(json["timestamp"], "2026-09-07 03:04:08.914293456+00:00");
    assert_eq!(json["span_kind"], "Server");
    assert_eq!(json["status_code"], "Error");
    assert_eq!(json["duration_ns"], 12_345_678);
    assert_eq!(
        json["events.timestamp"][0],
        "2026-09-07 03:04:08.914294456+00:00"
    );
    assert_eq!(json["events.name"][0], "exception");
    assert_eq!(
        json["events.attributes"][0]["exception.type"],
        "IllegalStateException"
    );
    assert_eq!(json["links.trace_id"], Json::Array(vec![]));
    assert_eq!(json["cluster"], "bj-prod");
    assert_eq!(json["env"], "prod");
    assert_eq!(event.get("cluster"), Some(&text("bj-prod")));

    let json: Json = serde_json::from_str(
        &WithZone {
            event: &event,
            tz: chrono_tz::Asia::Shanghai,
        }
        .to_json_line(),
    )
    .unwrap();
    assert_eq!(json["timestamp"], "2026-09-07 11:04:08.914293456+08:00");
    assert_eq!(
        json["events.timestamp"][0],
        "2026-09-07 11:04:08.914294456+08:00"
    );
    assert!(event.estimated_size() > SpanEvent::default().estimated_size());
    assert!(event.to_text_line(&millis(&event)).contains("12.346ms"));
}

#[test]
fn the_row_of_an_empty_span() {
    assert_eq!(
        SpanEvent::default().to_json_line().unwrap(),
        concat_row(&[
            "\"timestamp\":\"1970-01-01 00:00:00.000000000+00:00\"",
            "\"trace_id\":\"\"",
            "\"span_id\":\"\"",
            "\"parent_span_id\":\"\"",
            "\"trace_state\":\"\"",
            "\"span_name\":\"\"",
            "\"span_kind\":\"Unspecified\"",
            "\"service_name\":\"\"",
            "\"duration_ns\":0",
            "\"status_code\":\"Unset\"",
            "\"status_message\":\"\"",
            "\"scope_name\":\"\"",
            "\"scope_version\":\"\"",
            "\"resource_attributes\":{}",
            "\"span_attributes\":{}",
            "\"events.timestamp\":[]",
            "\"events.name\":[]",
            "\"events.attributes\":[]",
            "\"links.trace_id\":[]",
            "\"links.span_id\":[]",
            "\"links.trace_state\":[]",
            "\"links.attributes\":[]",
        ])
    );
}

fn concat_row(members: &[&str]) -> String {
    format!("{{{}}}", members.join(","))
}

#[test]
fn a_row_is_one_line_whatever_it_holds() {
    let mut event = SpanEvent {
        span_name: "a\nb\t\"c\"\\\u{1}\u{1f}é".into(),
        ..Default::default()
    };
    let nested = Value::Array(vec![
        Value::Null,
        Value::Bool(true),
        integer(-7),
        Value::Object(map(&[("k\n", "v\r")])),
    ]);
    event.insert("x\ny", nested);
    let line = event.to_json_line().unwrap();
    assert!(!line.contains('\n'));
    assert!(
        line.contains(r#""span_name":"a\nb\t\"c\"\\\u0001\u001fé""#),
        "{line}"
    );
    assert!(
        line.ends_with(r#","x\ny":[null,true,-7,{"k\n":"v\r"}]}"#),
        "{line}"
    );
}

#[test]
fn a_field_of_the_span_hides_a_shared_one() {
    let mut event = SpanEvent {
        shared: Some(Arc::new(map(&[("env", "shared"), ("zone", "a")]))),
        ..Default::default()
    };
    assert_eq!(event.get("env"), Some(&text("shared")));
    assert_eq!(event.insert("env", text("own")), None);
    assert_eq!(event.insert("env", text("newer")), Some(text("own")));
    assert_eq!(event.get("env"), Some(&text("newer")));
    assert_eq!(event.get("nothing"), None);
    let line = event.to_json_line().unwrap();
    assert!(line.ends_with(",\"zone\":\"a\",\"env\":\"newer\"}"), "{line}");
    assert!(!line.contains("shared"));
    let event = SpanEvent::default().with_field("n", integer(3));
    assert!(event.to_json_line().unwrap().ends_with(",\"n\":3}"));
}

#[test]
fn an_attribute_of_the_span_hides_one_of_its_resource() {
    let event = SpanEvent {
        resource_attributes: Arc::new(map(&[("a", "resource"), ("b", "resource")])),
        span_attributes: map(&[("a", "span")]),
        ..Default::default()
    };
    assert_eq!(event.attribute("a"), Some(&text("span")));
    assert_eq!(event.attribute("b"), Some(&text("resource")));
    assert_eq!(event.attribute("c"), None);
}

#[test]
fn sizes_are_reckoned_by_parts() {
    let empty = SpanEvent::default().estimated_size();
    assert_eq!(empty, 404);
    let mut event = SpanEvent {
        span_name: "é".into(),
        ..Default::default()
    };
    assert_eq!(event.estimated_size(), empty + 2);
    event.insert("key", Value::Null);
    assert_eq!(event.estimated_size(), empty + 2 + 3 + 4 + 4);
    event.insert(
        "key",
        Value::Array(vec![
            Value::Bool(true),
            integer(1),
            text("ab"),
            Value::Object(map(&[("k", "v")])),
        ]),
    );
    let array = 2 + (5 + 8 + 4 + (2 + 1 + 3 + 4)) + 4;
    assert_eq!(event.estimated_size(), empty + 2 + 3 + array + 4);
    event.events.push(TimedEvent {
        timestamp: 0,
        name: "boom".into(),
        attributes: ValueMap::new(),
    });
    assert_eq!(event.checked_size(), Some(empty + 2 + 3 + array + 4 + 46));
    event.links.push(SpanLink {
        trace_id: "ab".into(),
        span_id: "c".into(),
        ..Default::default()
    });
    assert_eq!(event.checked_size(), Some(empty + 2 + 3 + array + 4 + 46 + 5));
}

#[test]
fn kinds_and_codes_by_their_numbers() {
    let kinds: Vec<&str> = (-1..7).map(|n| SpanKind::from_otlp(n).as_str()).collect();
    assert_eq!(
        kinds,
        [
            "Unspecified",
            "Unspecified",
            "Internal",
            "Server",
            "Client",
            "Producer",
            "Consumer",
            "Unspecified"
        ]
    );
    let codes: Vec<&str> = (-1..4).map(|n| StatusCode::from_otlp(n).as_str()).collect();
    assert_eq!(codes, ["Unset", "Unset", "Ok", "Error", "Unset"]);
    assert_eq!(SpanKind::default(), SpanKind::Unspecified);
    assert_eq!(StatusCode::default(), StatusCode::Unset);
}

#[test]
fn the_line_for_people_to_read() {
    let event = SpanEvent {
        timestamp: nanos(),
        trace_id: "aa".into(),
        span_id: "bb".into(),
        parent_span_id: "cc".into(),
        span_name: "GET /".into(),
        span_kind: SpanKind::Client,
        service_name: Arc::from("shop"),
        status_code: StatusCode::Okay,
        ..Default::default()
    };
    assert_eq!(
        event.to_text_line("0.500"),
        "2026-09-07 03:04:08.914293456+00:00 shop GET / Client 0.500ms Ok trace=aa span=bb parent=cc"
    );
}

#[test]
fn clones_stand_for_the_same() {
    let mut event = SpanEvent {
        timestamp: 5,
        service_name: Arc::from("s"),
        events: vec![TimedEvent::default()],
        links: vec![SpanLink::default()],
        shared: Some(Arc::new(map(&[("a", "b")]))),
        ..Default::default()
    };
    event.insert("list", Value::Array(vec![Value::Object(map(&[("x", "y")]))]));
    assert_eq!(
        event.clone().to_json_line().unwrap(),
        event.to_json_line().unwrap()
    );
}

#[test]
fn keys_of_a_map_ascend_and_the_last_value_counts() {
    let mut fields = ValueMap::new();
    assert!(fields.is_empty());
    for key in ["b", "a", "é", "B", "ab", "a"] {
        fields.insert(key.to_owned(), text(key));
    }
    fields.insert("b".to_owned(), Value::Bool(false));
    let keys: Vec<&str> = (0..fields.len()).map(|i| fields.key_at(i)).collect();
    assert_eq!(keys, ["B", "a", "ab", "b", "é"]);
    assert_eq!(fields.get("b"), Some(&Value::Bool(false)));
    assert!(fields.contains_key("ab"));
    assert!(!fields.contains_key("abc"));
    assert_eq!(fields.value_at(0).as_str(), Some("B"));
    assert_eq!(Value::Null.as_str(), None);
}

#[test]
fn the_members_of_a_row_can_be_read_whatever_they_hold() {
    let odd = "a,\"b\":{\\\r\n}]\u{1}\u{7f}";
    let mut event = SpanEvent {
        span_name: odd.into(),
        ..Default::default()
    };
    event.insert(odd, text(odd));
    event.insert("n", integer(-7));
    event.shared = Some(Arc::new(map(&[(odd, "hidden"), ("shared", "\r")])));
    let line = event.to_json_line().unwrap();
    assert!(!line.contains('\n') && !line.contains('\r'));
    let json: Json = serde_json::from_str(&line).unwrap();
    let members = json.as_object().unwrap();
    assert_eq!(members.len(), 22 + 3);
    assert_eq!(json["span_name"], odd);
    assert_eq!(json[odd], odd);
    assert_eq!(json["n"], -7);
    assert_eq!(json["shared"], "\r");
}
