use loopbox::h2_stream::HeaderField;
use loopbox::audit::{
    audit_event_for_exchange, headers_for_audit, AuditedExchange,
    agent_api_audit_events, body_snapshot_for_audit, clear_agent_api_audit_events, count_audit_lines,
    http_version_label, max_event_id, newest_persisted, normalize_agent_api_audit_limit,
    push_agent_api_audit_event, AgentApiAuditBodyEncoding, AgentApiAuditEvent, AgentApiAuditStore, HttpVersion,
};

fn event(id: u64, path: &str) -> AgentApiAuditEvent {
    AgentApiAuditEvent {
        id,
        started_at_unix_ms: 1000,
        duration_ms: 3,
        method: "GET".to_string(),
        path: path.to_string(),
        query: None,
        matched_path: None,
        request_version: "HTTP/1.1".to_string(),
        response_version: "HTTP/1.1".to_string(),
        status_code: 200,
        auth_enabled: true,
        authorization_header_present: false,
        request_headers: vec![],
        request_body: String::new(),
        request_body_encoding: AgentApiAuditBodyEncoding::Utf8,
        request_body_truncated: false,
        request_body_bytes: 0,
        response_headers: vec![],
        response_body: String::new(),
        response_body_encoding: AgentApiAuditBodyEncoding::Utf8,
        response_body_truncated: false,
        response_body_bytes: 0,
    }
}

#[test]
fn audit_limit_defaults_and_clamps() {
    assert_eq!(normalize_agent_api_audit_limit(0), 200);
    assert_eq!(normalize_agent_api_audit_limit(7), 7);
    assert_eq!(normalize_agent_api_audit_limit(9000), 5000);
}

#[test]
fn push_assigns_ids_after_disk_and_drops_oldest() {
    let mut store = AgentApiAuditStore::new();
    let stored = push_agent_api_audit_event(&mut store, event(0, "/a"), 2, true, 41).expect("stored");
    assert_eq!(stored.id, 42);
    push_agent_api_audit_event(&mut store, event(0, "/b"), 2, true, 0);
    push_agent_api_audit_event(&mut store, event(0, "/c"), 2, true, 0);
    let ids: Vec<u64> = store.events.iter().map(|e| e.id).collect();
    assert_eq!(ids, vec![43, 44]);
    assert!(push_agent_api_audit_event(&mut store, event(0, "/d"), 2, false, 0).is_none());
    assert!(push_agent_api_audit_event(&mut store, event(0, "/d"), 0, true, 0).is_none());
    assert_eq!(store.events.len(), 2);
}

#[test]
fn reading_merges_memory_and_disk_newest_first_without_repeats() {
    let mut store = AgentApiAuditStore::new();
    push_agent_api_audit_event(&mut store, event(0, "/a"), 10, true, 0);
    push_agent_api_audit_event(&mut store, event(0, "/b"), 10, true, 0);
    let persisted = vec![event(2, "/b"), event(1, "/a"), event(0, "/old")];
    let events = agent_api_audit_events(&store, &persisted, 0, true).expect("events");
    let paths: Vec<&str> = events.iter().map(|e| e.path.as_str()).collect();
    assert_eq!(paths, vec!["/b", "/a", "/old"]);
    let two = agent_api_audit_events(&store, &persisted, 2, true).expect("events");
    assert_eq!(two.len(), 2);
    assert!(agent_api_audit_events(&store, &persisted, 2, false).expect("events").is_empty());
}

#[test]
fn clearing_counts_memory_and_disk() {
    let mut store = AgentApiAuditStore::new();
    push_agent_api_audit_event(&mut store, event(0, "/a"), 10, true, 0);
    assert_eq!(clear_agent_api_audit_events(&mut store, 3, true), Ok(4));
    assert!(store.events.is_empty());
    assert_eq!(clear_agent_api_audit_events(&mut store, 3, false), Ok(0));
}

#[test]
fn bodies_are_kept_as_text_or_hex() {
    assert_eq!(body_snapshot_for_audit(b""), (String::new(), AgentApiAuditBodyEncoding::Utf8, false));
    assert_eq!(body_snapshot_for_audit(b"{\"ok\":1}"), ("{\"ok\":1}".to_string(), AgentApiAuditBodyEncoding::Utf8, false));
    assert_eq!(body_snapshot_for_audit(&[0xff, 0x00, 0x1a]), ("ff001a".to_string(), AgentApiAuditBodyEncoding::Hex, false));
    let big = vec![b'a'; 300 * 1024];
    let (text, encoding, truncated) = body_snapshot_for_audit(&big);
    assert_eq!(text.len(), 256 * 1024);
    assert_eq!(encoding, AgentApiAuditBodyEncoding::Utf8);
    assert!(truncated);
}

#[test]
fn disk_helpers_order_count_and_find_ids() {
    let newest = newest_persisted(vec![event(1, "/a"), event(2, "/b"), event(3, "/c")], 2);
    let ids: Vec<u64> = newest.iter().map(|e| e.id).collect();
    assert_eq!(ids, vec![3, 2]);
    assert_eq!(max_event_id(&vec![event(5, "/a"), event(9, "/b"), event(2, "/c")]), 9);
    assert_eq!(count_audit_lines(&vec!["{}".to_string(), "  ".to_string(), "{}".to_string()]), 2);
    assert_eq!(http_version_label(HttpVersion::Http2), "HTTP/2.0");
}

fn field(name: &str, value: &[u8]) -> HeaderField {
    HeaderField { name: name.to_string(), value: value.to_vec() }
}

#[test]
fn audit_headers_keep_names_and_decode_values() {
    let headers = headers_for_audit(&[field("x-a", b"one"), field("x-b", &[0x66, 0xff])]);
    assert_eq!(headers.len(), 2);
    assert_eq!(headers[0].name, "x-a");
    assert_eq!(headers[0].value, "one");
    assert_eq!(headers[1].value, "f\u{fffd}");
}

#[test]
fn audit_event_records_the_exchange() {
    let x = AuditedExchange {
        started_at_unix_ms: 1000,
        duration_ms: 7,
        method: "POST".to_string(),
        path: "/api/projects".to_string(),
        query: Some("verbose=1".to_string()),
        matched_path: Some("/api/projects".to_string()),
        request_version: HttpVersion::Http11,
        response_version: HttpVersion::Http2,
        status_code: 201,
        request_headers: vec![field("authorization", b"Bearer t"), field("content-type", b"application/json")],
        request_body: b"{\"a\":1}".to_vec(),
        response_headers: vec![],
        response_body: vec![0xff, 0x00],
    };
    let e = audit_event_for_exchange(true, &x);
    assert_eq!(e.id, 0);
    assert_eq!(e.method, "POST");
    assert_eq!(e.request_version, "HTTP/1.1");
    assert_eq!(e.response_version, "HTTP/2.0");
    assert!(e.authorization_header_present && e.auth_enabled);
    assert_eq!(e.request_headers.len(), 2);
    assert_eq!(e.request_body, "{\"a\":1}");
    assert_eq!(e.request_body_encoding, AgentApiAuditBodyEncoding::Utf8);
    assert_eq!(e.request_body_bytes, 7);
    assert_eq!(e.response_body, "ff00");
    assert_eq!(e.response_body_encoding, AgentApiAuditBodyEncoding::Hex);
    assert_eq!(e.response_body_bytes, 2);
    let no_auth = AuditedExchange { request_headers: vec![], ..x };
    assert!(!audit_event_for_exchange(false, &no_auth).authorization_header_present);
}
