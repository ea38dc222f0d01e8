use loopbox::http_meta::ProxyTrafficHeader;
use loopbox::har::har_export;
use loopbox::traffic::{
    clear_proxy_traffic_events_for_project,
    export_proxy_traffic_har_for_project, next_traffic_eviction, persisted_events_for,
    proxy_traffic_disk_stats, proxy_traffic_events_for_project_with_persisted,
    push_proxy_traffic_event, record_traffic_eviction, retain_traffic_lines, traffic_cleanup_fits,
    traffic_cleanup_plan,
    ProxyTrafficEvent, ProxyTrafficStore,
};

fn event(id: u64, project: &str, service: &str) -> ProxyTrafficEvent {
    ProxyTrafficEvent {
        id,
        started_at_utc: "2026-02-21 10:00:00 UTC".to_string(),
        project_name: project.to_string(),
        service_name: service.to_string(),
        protocol: "http1".to_string(),
        host: "h".to_string(),
        method: "GET".to_string(),
        path: "/".to_string(),
        status_code: Some(200),
        stream_id: None,
        grpc_service: None,
        grpc_method: None,
        grpc_status: None,
        grpc_message: None,
        duration_ms: 1,
        request_bytes: 0,
        response_bytes: 0,
        request_header_bytes: 0,
        request_body_bytes: 0,
        response_header_bytes: 0,
        response_body_bytes: 0,
        request_headers: Vec::<ProxyTrafficHeader>::new(),
        response_headers: Vec::new(),
        request_body_preview: None,
        response_body_preview: None,
        request_body_truncated: false,
        response_body_truncated: false,
        request_body_binary: false,
        response_body_binary: false,
        error: None,
    }
}

#[test]
fn persisted_events_come_newest_day_first_and_newest_line_first() {
    let files = vec![
        (100, vec![event(1, "demo", "api"), event(2, "other", "api"), event(3, "demo", "web")]),
        (102, vec![event(10, "demo", "api"), event(11, "demo", "api")]),
        (101, vec![event(20, "demo", "api")]),
    ];
    let ids: Vec<u64> = persisted_events_for(&files, "demo", None, 10)
        .iter()
        .map(|e| e.id)
        .collect();
    assert_eq!(ids, vec![11, 10, 20, 3, 1]);

    let ids: Vec<u64> = persisted_events_for(&files, "demo", Some("api"), 10)
        .iter()
        .map(|e| e.id)
        .collect();
    assert_eq!(ids, vec![11, 10, 20, 1]);

    let ids: Vec<u64> = persisted_events_for(&files, "demo", None, 3)
        .iter()
        .map(|e| e.id)
        .collect();
    assert_eq!(ids, vec![11, 10, 20]);
    assert!(persisted_events_for(&files, "demo", None, 0).is_empty());
}

#[test]
fn cleanup_expires_old_days_and_evicts_oldest_over_budget() {
    // 2024-01-10 is day 19732.
    let files = vec![
        ("events-2024-01-10.jsonl".to_string(), 700_000),
        ("events-2024-01-01.jsonl".to_string(), 10),
        ("notes.txt".to_string(), 5),
        ("events-2024-01-09.jsonl".to_string(), 600_000),
        ("events-2024-01-08.jsonl".to_string(), 500_000),
    ];
    assert!(traffic_cleanup_fits(&files, 19_732, 7));
    let mut plan = traffic_cleanup_plan(&files, 19_732, 7, 1);
    assert_eq!(plan.expired, vec!["events-2024-01-01.jsonl"]);
    let kept: Vec<&str> = plan.kept.iter().map(|f| f.name.as_str()).collect();
    assert_eq!(
        kept,
        vec!["events-2024-01-08.jsonl", "events-2024-01-09.jsonl", "events-2024-01-10.jsonl"]
    );
    assert_eq!(plan.total_bytes, 1_800_000);
    assert_eq!(plan.max_bytes, 1_048_576);

    assert_eq!(next_traffic_eviction(&plan).as_deref(), Some("events-2024-01-08.jsonl"));
    record_traffic_eviction(&mut plan, true);
    assert_eq!(plan.total_bytes, 1_300_000);
    assert_eq!(next_traffic_eviction(&plan).as_deref(), Some("events-2024-01-09.jsonl"));
    record_traffic_eviction(&mut plan, false);
    assert_eq!(plan.total_bytes, 1_300_000);
    assert_eq!(next_traffic_eviction(&plan), None);
}

#[test]
fn cleanup_sizes_that_overflow_are_reported() {
    let files = vec![
        ("events-2024-01-10.jsonl".to_string(), u64::MAX),
        ("events-2024-01-09.jsonl".to_string(), 1),
    ];
    assert!(!traffic_cleanup_fits(&files, 19_732, 7));
}

fn sample(project: &str, service: &str, path: &str) -> ProxyTrafficEvent {
    let mut e = event(0, project, service);
    e.path = path.to_string();
    e.started_at_utc = "2026-05-05 12:00:00 UTC".to_string();
    e
}

#[test]
fn proxy_traffic_with_persisted_merges_disk_and_memory() {
    let project = "persist-demo";
    let mut store = ProxyTrafficStore::new();
    push_proxy_traffic_event(&mut store, sample(project, "web", "/memory"), 100);
    let persisted = vec![sample(project, "web", "/disk")];
    let events = proxy_traffic_events_for_project_with_persisted(&store, &persisted, project, Some("web"), 20);
    assert!(events.iter().any(|event| event.path == "/memory"));
    assert!(events.iter().any(|event| event.path == "/disk"));
}

#[test]
fn har_export_includes_persisted_events() {
    let store = ProxyTrafficStore::new();
    let persisted = vec![sample("har-demo", "web", "/persisted")];
    let events = export_proxy_traffic_har_for_project(&store, &persisted, "har-demo", Some("web"));
    let (_, exported) = har_export(&events, "1.0.0");
    assert_eq!(events.len(), 1);
    assert!(exported.contains("/persisted"));
}

#[test]
fn merged_traffic_keeps_every_field_of_the_stored_event() {
    let mut stored = sample("demo", "web", "/full");
    stored.duration_ms = 42;
    stored.error = Some("upstream reset".to_string());
    stored.request_headers = vec![ProxyTrafficHeader { name: "accept".to_string(), value: "*/*".to_string() }];
    stored.response_body_preview = Some("ok".to_string());
    stored.grpc_status = Some(3);
    let mut store = ProxyTrafficStore::new();
    push_proxy_traffic_event(&mut store, stored.clone(), 10);
    let events = proxy_traffic_events_for_project_with_persisted(&store, &vec![], "demo", None, 5);
    assert_eq!(events.len(), 1);
    let mut expected = stored;
    expected.id = 1;
    assert_eq!(events[0], expected);
}

#[test]
fn disk_stats_saturate_at_the_maximum() {
    let files = vec![
        ("events-2026-01-01.jsonl".to_string(), u64::MAX - 1),
        ("events-2026-01-02.jsonl".to_string(), 5),
        ("notes.txt".to_string(), 7),
    ];
    let stats = proxy_traffic_disk_stats(3, &files);
    assert_eq!(stats.total_files, 2);
    assert_eq!(stats.total_bytes, u64::MAX);
    assert_eq!(stats.dropped_events, 3);
}

#[test]
fn clear_proxy_traffic_removes_only_selected_project_from_disk() {
    let lines = vec!["{\"event\":\"a\"}".to_string(), "{\"event\":\"b\"}".to_string()];
    let projects = vec![Some("demo-a".to_string()), Some("demo-b".to_string())];
    let (kept, removed) = retain_traffic_lines(&lines, &projects, "demo-a");
    assert_eq!(removed, 1);
    assert_eq!(kept, vec!["{\"event\":\"b\"}".to_string()]);

    let files = vec![(20_000_i64, vec![sample("demo-b", "web", "/b")])];
    assert!(persisted_events_for(&files, "demo-a", None, 20).is_empty());
    assert_eq!(persisted_events_for(&files, "demo-b", None, 20).len(), 1);

    let mut store = ProxyTrafficStore::new();
    push_proxy_traffic_event(&mut store, sample("demo-a", "web", "/a"), 10);
    push_proxy_traffic_event(&mut store, sample("demo-b", "web", "/b"), 10);
    assert_eq!(clear_proxy_traffic_events_for_project(&mut store, "demo-a", removed), 2);
    assert!(proxy_traffic_events_for_project_with_persisted(&store, &vec![], "demo-a", None, 20).is_empty());
    assert_eq!(proxy_traffic_events_for_project_with_persisted(&store, &vec![], "demo-b", None, 20).len(), 1);
}
