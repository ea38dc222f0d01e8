use loopbox::har::{har_export, proxy_event_to_har_entry};
use loopbox::http_meta::ProxyTrafficHeader;
use loopbox::json::JsonValue;
use loopbox::traffic::ProxyTrafficEvent;

fn get<'a>(v: &'a JsonValue, key: &str) -> &'a JsonValue {
    match v {
        JsonValue::Object(members) => {
            &members
                .iter()
                .find(|m| m.key == key)
                .unwrap_or_else(|| panic!("missing member {key}"))
                .value
        }
        _ => panic!("not an object"),
    }
}

fn as_str(v: &JsonValue) -> Option<&str> {
    match v {
        JsonValue::Str(s) => Some(s.as_str()),
        _ => None,
    }
}

fn as_u64(v: &JsonValue) -> Option<u64> {
    match v {
        JsonValue::Number(n) => n.as_u64,
        _ => None,
    }
}

fn sample_event() -> ProxyTrafficEvent {
    ProxyTrafficEvent {
        id: 1,
        started_at_utc: "2026-02-21 10:00:00 UTC".to_string(),
        project_name: "demo".to_string(),
        service_name: "api".to_string(),
        protocol: "http1".to_string(),
        host: "api.demo.localhost".to_string(),
        method: "GET".to_string(),
        path: "/v1/items?token=[redacted]&page=1".to_string(),
        status_code: Some(200),
        stream_id: None,
        grpc_service: None,
        grpc_method: None,
        grpc_status: None,
        grpc_message: None,
        duration_ms: 42,
        request_bytes: 120,
        response_bytes: 256,
        request_header_bytes: 120,
        request_body_bytes: 0,
        response_header_bytes: 64,
        response_body_bytes: 192,
        request_headers: vec![ProxyTrafficHeader {
            name: "accept".to_string(),
            value: "application/json".to_string(),
        }],
        response_headers: vec![ProxyTrafficHeader {
            name: "content-type".to_string(),
            value: "application/json".to_string(),
        }],
        request_body_preview: None,
        response_body_preview: Some("{\"ok\":true}".to_string()),
        request_body_truncated: false,
        response_body_truncated: false,
        request_body_binary: false,
        response_body_binary: false,
        error: None,
    }
}

#[test]
fn har_entry_uses_proxy_event_fields() {
    let event = sample_event();
    let entry = proxy_event_to_har_entry(&event);
    assert_eq!(
        as_str(get(&entry, "startedDateTime")),
        Some("2026-02-21T10:00:00Z")
    );
    assert_eq!(
        as_str(get(get(&entry, "request"), "url")),
        Some("http://api.demo.localhost/v1/items?token=[redacted]&page=1")
    );
    assert_eq!(as_u64(get(get(&entry, "response"), "status")), Some(200));
    assert_eq!(
        as_str(get(get(get(&entry, "response"), "content"), "mimeType")),
        Some("application/json")
    );
}

#[test]
fn har_entry_lists_query_headers_and_missing_preview() {
    let event = sample_event();
    let entry = proxy_event_to_har_entry(&event);
    let request = get(&entry, "request");
    match get(request, "queryString") {
        JsonValue::Array(items) => {
            assert_eq!(items.len(), 2);
            assert_eq!(as_str(get(&items[0], "name")), Some("token"));
            assert_eq!(as_str(get(&items[0], "value")), Some("[redacted]"));
            assert_eq!(as_str(get(&items[1], "name")), Some("page"));
        }
        _ => panic!("queryString should be an array"),
    }
    assert!(matches!(get(request, "postData"), JsonValue::Null));
    assert_eq!(as_str(get(request, "httpVersion")), Some("HTTP/1.1"));
    assert_eq!(as_u64(get(get(&entry, "timings"), "wait")), Some(42));
    assert_eq!(as_str(get(get(&entry, "_loopbox"), "project")), Some("demo"));
    assert!(matches!(get(get(&entry, "_loopbox"), "error"), JsonValue::Null));
}

#[test]
fn har_export_text_is_a_har_log() {
    let events = vec![sample_event()];
    let (doc, text) = har_export(&events, "0.1.0");
    let parsed: serde_json::Value = serde_json::from_str(&text).expect("text is JSON");
    assert_eq!(parsed["log"]["version"].as_str(), Some("1.2"));
    assert_eq!(parsed["log"]["creator"]["name"].as_str(), Some("Loopbox"));
    assert_eq!(parsed["log"]["creator"]["version"].as_str(), Some("0.1.0"));
    assert_eq!(parsed["log"]["entries"].as_array().map(|a| a.len()), Some(1));
    assert_eq!(parsed["log"]["entries"][0]["response"]["content"]["text"].as_str(), Some("{\"ok\":true}"));
    assert_eq!(as_str(get(get(get(&doc, "log"), "creator"), "name")), Some("Loopbox"));
}
