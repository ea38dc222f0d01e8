use loopbox::config::{ProxyCaptureMode, ProxyEndpointProtocol};
use loopbox::h2_stream::{
    estimate_http2_header_bytes, grpc_capture_plan, grpc_message_field, grpc_message_from_decoded, grpc_request_authority,
    grpc_stream_error_text, grpc_traffic_event, header_map_to_redacted_headers, parse_grpc_status,
    GrpcResponseHead, GrpcStreamRecord, HeaderField,
};
use loopbox::preview::BodyPreviewResult;
use loopbox::routes::ProxyEndpointRoute;

fn field(name: &str, value: &[u8]) -> HeaderField {
    HeaderField { name: name.to_string(), value: value.to_vec() }
}

fn route(capture_mode: ProxyCaptureMode, capture_enabled: bool) -> ProxyEndpointRoute {
    ProxyEndpointRoute {
        name: "api".to_string(),
        protocol: ProxyEndpointProtocol::GrpcH2c,
        upstream_host: "127.0.0.10".to_string(),
        upstream_port: 50051,
        authority: None,
        project_name: "demo".to_string(),
        service_name: "api".to_string(),
        grpc_proto_paths: vec![],
        capture_enabled,
        capture_mode,
        capture_text_only: true,
        redacted_header_names: vec!["authorization".to_string()],
        redacted_query_keys: vec!["token".to_string()],
        request_body_preview_max_bytes: 64,
        response_body_preview_max_bytes: 32,
    }
}

fn empty_preview() -> BodyPreviewResult {
    BodyPreviewResult { preview: None, truncated: false, binary: false }
}

#[test]
fn h2_fields_are_recorded_redacted_and_trimmed() {
    let fields = vec![
        field("content-type", b"  application/grpc "),
        field("", b"ignored"),
        field("Authorization", b"Bearer secret"),
        field("x-bin", &[0xff, b'a']),
    ];
    let names = vec!["authorization".to_string()];
    let recorded = header_map_to_redacted_headers(&fields, &names);
    assert_eq!(recorded.len(), 3);
    assert_eq!(recorded[0].name, "content-type");
    assert_eq!(recorded[0].value, "application/grpc");
    assert_eq!(recorded[1].name, "Authorization");
    assert_eq!(recorded[1].value, "[redacted]");
    assert_eq!(recorded[2].value, "\u{fffd}a");
}

#[test]
fn h2_field_records_stop_at_the_limit() {
    let fields: Vec<HeaderField> = (0..200).map(|i| field(&format!("x-{i}"), b"v")).collect();
    let recorded = header_map_to_redacted_headers(&fields, &[]);
    assert_eq!(recorded.len(), 128);
    assert_eq!(recorded[127].name, "x-127");
}

#[test]
fn h2_header_bytes_count_name_value_and_four() {
    let fields = vec![field("te", b"trailers"), field("content-type", b"application/grpc")];
    assert_eq!(estimate_http2_header_bytes(&fields), (2 + 8 + 4) + (12 + 16 + 4));
    assert_eq!(estimate_http2_header_bytes(&[]), 0);
}

#[test]
fn grpc_status_is_read_from_the_first_field() {
    assert_eq!(parse_grpc_status(&[field("grpc-status", b" 5 ")]), Some(5));
    assert_eq!(parse_grpc_status(&[field("grpc-status", b"0"), field("grpc-status", b"3")]), Some(0));
    assert_eq!(parse_grpc_status(&[field("grpc-status", b"-2")]), Some(-2));
    assert_eq!(parse_grpc_status(&[field("grpc-status", b"abc")]), None);
    assert_eq!(parse_grpc_status(&[field("grpc-status", &[0xc3, 0xa9])]), None);
    assert_eq!(parse_grpc_status(&[field("content-type", b"application/grpc")]), None);
}

#[test]
fn grpc_authority_prefers_the_uri() {
    let host = vec![field("host", b"Gateway.Localhost:7443")];
    assert_eq!(grpc_request_authority(Some("API.localhost"), &host), Some("api.localhost".to_string()));
    assert_eq!(grpc_request_authority(None, &host), Some("gateway.localhost:7443".to_string()));
    assert_eq!(grpc_request_authority(None, &[]), None);
    assert_eq!(grpc_request_authority(Some("  "), &host), None);
}

#[test]
fn grpc_stream_error_prefers_the_relay_failure() {
    assert_eq!(
        grpc_stream_error_text(Some("upstream gone".to_string()), Some(5), &Some("x".to_string())),
        Some("upstream gone".to_string())
    );
    assert_eq!(
        grpc_stream_error_text(None, Some(5), &Some("  not found ".to_string())),
        Some("gRPC status 5: not found".to_string())
    );
    assert_eq!(grpc_stream_error_text(None, Some(14), &Some("   ".to_string())), Some("gRPC status 14".to_string()));
    assert_eq!(grpc_stream_error_text(None, Some(0), &Some("ok".to_string())), None);
    assert_eq!(grpc_stream_error_text(None, None, &None), None);
}

#[test]
fn grpc_capture_plan_follows_capture_mode() {
    let headers = vec![field("authorization", b"Bearer t"), field("te", b"trailers")];
    let plan = grpc_capture_plan(&route(ProxyCaptureMode::BodyPreview, true), "/pkg.Greeter/Hello?token=abc", &headers);
    assert!(plan.capture_headers && plan.capture_body_preview);
    assert_eq!(plan.path, "/pkg.Greeter/Hello?token=[redacted]");
    assert_eq!(plan.grpc_service.as_deref(), Some("pkg.Greeter"));
    assert_eq!(plan.grpc_method.as_deref(), Some("Hello"));
    assert_eq!(plan.request_headers.len(), 2);
    assert_eq!(plan.request_headers[0].value, "[redacted]");
    assert_eq!(plan.request_header_bytes, (13 + 8 + 4) + (2 + 8 + 4));
    assert_eq!(plan.request_preview.as_ref().map(|p| p.max_bytes), Some(64));
    assert_eq!(plan.response_preview.as_ref().map(|p| p.text_only), Some(false));

    let metadata = grpc_capture_plan(&route(ProxyCaptureMode::Metadata, true), "/pkg.Greeter/Hello", &headers);
    assert!(!metadata.capture_headers && !metadata.capture_body_preview);
    assert!(metadata.request_headers.is_empty());
    assert!(metadata.request_preview.is_none());
}

#[test]
fn grpc_traffic_event_takes_status_from_trailers() {
    let r = route(ProxyCaptureMode::Headers, true);
    let plan = grpc_capture_plan(&r, "/pkg.Greeter/Hello", &[field("te", b"trailers")]);
    let record = GrpcStreamRecord {
        request_trailers: None,
        response_head: Some(GrpcResponseHead {
            status: 200,
            headers: vec![field("grpc-status", b"0"), field("content-type", b"application/grpc")],
        }),
        response_trailers: Some(vec![field("grpc-status", b"7")]),
        request_body_bytes: 10,
        response_body_bytes: 20,
        request_body: empty_preview(),
        response_body: empty_preview(),
        grpc_message: Some("denied".to_string()),
        relay_error: None,
    };
    let event = grpc_traffic_event(r, plan, None, Some(1), "2024-01-01T00:00:00Z".to_string(), 5, record)
        .expect("captured");
    assert_eq!(event.protocol, "grpc_h2c");
    assert_eq!(event.method, "GRPC");
    assert_eq!(event.host, "127.0.0.10:50051");
    assert_eq!(event.status_code, Some(200));
    assert_eq!(event.stream_id, Some(1));
    assert_eq!(event.grpc_status, Some(7));
    assert_eq!(event.error.as_deref(), Some("gRPC status 7: denied"));
    assert_eq!(event.request_header_bytes, 2 + 8 + 4);
    assert_eq!(event.response_header_bytes, (11 + 1 + 4) + (12 + 16 + 4) + (11 + 1 + 4));
    assert_eq!(event.request_bytes, 14 + 10);
    assert_eq!(event.response_bytes, 64 + 20);
    assert_eq!(event.response_headers.len(), 3);
    assert_eq!(event.grpc_service.as_deref(), Some("pkg.Greeter"));
}

#[test]
fn grpc_traffic_event_is_skipped_without_capture() {
    let r = route(ProxyCaptureMode::Metadata, false);
    let plan = grpc_capture_plan(&r, "/a/b", &[]);
    let record = GrpcStreamRecord {
        request_trailers: None,
        response_head: None,
        response_trailers: None,
        request_body_bytes: 0,
        response_body_bytes: 0,
        request_body: empty_preview(),
        response_body: empty_preview(),
        grpc_message: None,
        relay_error: Some("refused".to_string()),
    };
    assert!(grpc_traffic_event(r, plan, Some("a.localhost".to_string()), None, String::new(), 0, record).is_none());
}

#[test]
fn grpc_message_is_read_trimmed_and_shortened() {
    assert_eq!(grpc_message_field(&[field("grpc-message", b"  not%20found ")]).as_deref(), Some("not%20found"));
    assert_eq!(grpc_message_field(&[field("grpc-message", b"   ")]), None);
    assert_eq!(grpc_message_field(&[field("grpc-status", b"5")]), None);
    assert_eq!(grpc_message_from_decoded("  not found "), Some("not found".to_string()));
    assert_eq!(grpc_message_from_decoded(" \t"), None);
    let long = "x".repeat(5000);
    let recorded = grpc_message_from_decoded(&long).unwrap();
    assert!(recorded.starts_with(&"x".repeat(4096)) && recorded.ends_with("...(truncated)"));
}
