use loopbox::config::ProxyCaptureMode;
use loopbox::exchange::{http1_capture_plan, http1_traffic_event, ForwardMetrics};
use loopbox::preview::BodyPreviewResult;
use loopbox::kube::{kubectl_outcome, namespace_from_kubectl_output};
use loopbox::clock::{civil_from_days, days_from_civil, format_day_key, parse_day_key};
use loopbox::exchange::{
    chunk_size_from_line, parse_hex_chars, request_body_framing, response_body_plan, split_preamble,
    BodyFraming, ResponseBodyPlan,
};

#[test]
fn preamble_splits_after_blank_line() {
    let preamble = b"GET / HTTP/1.1\r\nHost: a\r\n\r\nbody";
    assert_eq!(split_preamble(preamble), preamble.len() - 4);
    let partial = b"GET / HTTP/1.1\r\nHost: a\r\n";
    assert_eq!(split_preamble(partial), partial.len());
}

#[test]
fn request_framing_prefers_content_length() {
    assert_eq!(
        request_body_framing(b"POST / HTTP/1.1\r\nContent-Length: 12\r\nTransfer-Encoding: chunked\r\n\r\n"),
        BodyFraming::Length(12)
    );
    assert_eq!(
        request_body_framing(b"POST / HTTP/1.1\r\nTransfer-Encoding: gzip, chunked\r\n\r\n"),
        BodyFraming::Chunked
    );
    assert_eq!(request_body_framing(b"GET / HTTP/1.1\r\nHost: a\r\n\r\n"), BodyFraming::NoBody);
}

#[test]
fn response_plans_follow_status_method_and_headers() {
    let (status, plan) = response_body_plan(b"HTTP/1.1 101 Switching Protocols\r\nUpgrade: websocket\r\n\r\n", "GET", 0);
    assert_eq!(status, Some(101));
    assert_eq!(plan, ResponseBodyPlan::Upgrade);

    let (_, plan) = response_body_plan(b"HTTP/1.1 200 OK\r\nContent-Length: 5\r\n\r\n", "head", 0);
    assert_eq!(plan, ResponseBodyPlan::NoBody);

    let (_, plan) = response_body_plan(b"HTTP/1.1 304 Not Modified\r\n\r\n", "GET", 3);
    assert_eq!(plan, ResponseBodyPlan::NoBody);

    let (_, plan) = response_body_plan(b"HTTP/1.1 200 OK\r\nContent-Length: 5\r\n\r\n", "GET", 0);
    assert_eq!(plan, ResponseBodyPlan::Length(5));

    let (_, plan) = response_body_plan(b"HTTP/1.1 200 OK\r\nTransfer-Encoding: chunked\r\n\r\n", "GET", 0);
    assert_eq!(plan, ResponseBodyPlan::Chunked);

    let (_, plan) = response_body_plan(b"HTTP/1.1 200 OK\r\nConnection: close\r\n\r\n", "GET", 0);
    assert_eq!(plan, ResponseBodyPlan::UntilClose(true));

    let (_, plan) = response_body_plan(b"HTTP/1.1 200 OK\r\n\r\n", "GET", 7);
    assert_eq!(plan, ResponseBodyPlan::UntilClose(false));

    let (_, plan) = response_body_plan(b"HTTP/1.1 200 OK\r\n\r\n", "GET", 0);
    assert_eq!(plan, ResponseBodyPlan::Done);
}

#[test]
fn chunk_size_lines_are_read_in_hex() {
    assert_eq!(chunk_size_from_line(b"1a\r\n"), Some(26));
    assert_eq!(chunk_size_from_line(b"FF;name=value\r\n"), Some(255));
    assert_eq!(chunk_size_from_line(b"  0  \r\n"), Some(0));
    assert_eq!(chunk_size_from_line(b"+10\r\n"), Some(16));
    assert_eq!(chunk_size_from_line(b"\r\n"), None);
    assert_eq!(chunk_size_from_line(b"zz\r\n"), None);
    assert_eq!(chunk_size_from_line(b"\xff\xfe\r\n"), None);
    assert_eq!(chunk_size_from_line(b"1ffffffffffffffff\r\n"), None);
    assert_eq!(parse_hex_chars(&"ffffffffffffffff".chars().collect::<Vec<char>>()), Some(usize::MAX));
}

#[test]
fn day_numbers_round_trip_through_dates_and_keys() {
    for days in [-719_468i64, -1, 0, 1, 59, 10_957, 19_782, 20_000, 2_932_896] {
        let (y, m, d) = civil_from_days(days);
        assert!((1..=12).contains(&m) && (1..=31).contains(&d));
        assert_eq!(days_from_civil(y, m, d), days);
        assert_eq!(parse_day_key(&format_day_key(y, m, d)), Some(days));
    }
    assert_eq!(civil_from_days(0), (1970, 1, 1));
    assert_eq!(civil_from_days(19_782), (2024, 2, 29));
    assert_eq!(format_day_key(2024, 2, 29), "2024-02-29");
}

#[test]
fn error_responses_count_body_bytes() {
    let r = loopbox::exchange::http_error_response("502 Bad Gateway", "No route configured for host 'é'.");
    assert!(r.starts_with("HTTP/1.1 502 Bad Gateway\r\nContent-Type: text/plain; charset=utf-8\r\n"));
    let body = "No route configured for host 'é'.\n";
    assert!(r.contains(&format!("Content-Length: {}\r\n", body.len())));
    assert!(r.ends_with(&format!("Connection: close\r\n\r\n{body}")));
}

#[test]
fn kubectl_outcomes_keep_output_or_report_errors() {
    assert_eq!(kubectl_outcome(true, "{}", "warn", "x"), Ok("{}".to_string()));
    assert_eq!(kubectl_outcome(false, "", "  boom \n", "x"), Err("boom".to_string()));
    assert_eq!(kubectl_outcome(false, "", "   ", "fallback"), Err("fallback".to_string()));
    assert_eq!(namespace_from_kubectl_output("  apps\n"), "apps");
    assert_eq!(namespace_from_kubectl_output(" \n"), "default");
}

fn capture_route(mode: ProxyCaptureMode, enabled: bool) -> loopbox::routes::ProxyRoute {
    loopbox::routes::ProxyRoute {
        project_name: "demo".to_string(),
        service_name: "api".to_string(),
        target_ip: "127.0.0.2".to_string(),
        target_port: 3000,
        capture_enabled: enabled,
        capture_mode: mode,
        capture_text_only: true,
        redacted_header_names: vec!["authorization".to_string()],
        redacted_query_keys: vec!["token".to_string()],
        request_body_preview_max_bytes: 256,
        response_body_preview_max_bytes: 256,
    }
}

#[test]
fn capture_plan_follows_mode_and_redacts() {
    let preamble = b"GET /a?token=s3cret&x=1 HTTP/1.1\r\nHost: api.demo.localhost\r\nAuthorization: Bearer abc\r\n\r\n";
    let plan = http1_capture_plan(
        &capture_route(ProxyCaptureMode::Headers, true),
        "/a?token=s3cret&x=1",
        preamble,
    );
    assert!(plan.capture_headers);
    assert!(!plan.capture_body_preview);
    assert_eq!(plan.path, "/a?token=[redacted]&x=1");
    let auth = plan
        .request_headers
        .iter()
        .find(|h| h.name.eq_ignore_ascii_case("authorization"))
        .expect("authorization header is kept");
    assert_eq!(auth.value, "[redacted]");

    let plan = http1_capture_plan(
        &capture_route(ProxyCaptureMode::Metadata, true),
        "/a",
        preamble,
    );
    assert!(!plan.capture_headers);
    assert!(plan.request_headers.is_empty());
}

#[test]
fn traffic_events_record_metrics_or_failures() {
    let preamble = b"POST /p HTTP/1.1\r\nHost: h\r\n\r\nbody";
    let route = capture_route(ProxyCaptureMode::BodyPreview, true);
    let plan = http1_capture_plan(&route, "/p", preamble);
    let metrics = ForwardMetrics {
        status_code: Some(201),
        request_header_bytes: 10,
        request_body_bytes: 4,
        response_header_bytes: u64::MAX,
        response_body_bytes: 1,
        response_headers: Vec::new(),
        request_body: BodyPreviewResult { preview: Some("body".to_string()), truncated: false, binary: false },
        response_body: BodyPreviewResult { preview: None, truncated: true, binary: true },
    };
    let event = http1_traffic_event(
        route.clone(),
        plan,
        "h".to_string(),
        "POST".to_string(),
        preamble,
        "2026-01-01 00:00:00 UTC".to_string(),
        7,
        Ok(metrics),
    )
    .expect("capturing route records");
    assert_eq!(event.protocol, "http1");
    assert_eq!(event.status_code, Some(201));
    assert_eq!(event.request_bytes, 14);
    assert_eq!(event.response_bytes, u64::MAX);
    assert_eq!(event.request_body_preview.as_deref(), Some("body"));
    assert!(event.response_body_truncated);

    let plan = http1_capture_plan(&route, "/p", preamble);
    let failed = http1_traffic_event(
        route,
        plan,
        "h".to_string(),
        "POST".to_string(),
        preamble,
        "t".to_string(),
        1,
        Err("boom".to_string()),
    )
    .unwrap();
    assert_eq!(failed.status_code, None);
    assert_eq!(failed.request_bytes, preamble.len() as u64);
    assert_eq!(failed.request_body_bytes, 4);
    assert_eq!(failed.request_header_bytes, preamble.len() as u64 - 4);
    assert_eq!(failed.error.as_deref(), Some("boom"));

    let quiet = capture_route(ProxyCaptureMode::Metadata, false);
    let plan = http1_capture_plan(&quiet, "/p", preamble);
    assert!(http1_traffic_event(quiet, plan, "h".into(), "GET".into(), preamble, "t".into(), 0, Err("x".into())).is_none());
}
