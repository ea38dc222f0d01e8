use loopbox::clock::{parse_day_from_traffic_filename, parse_day_key};
use loopbox::config::{
    GlobalConfig, LoopboxConfig, ProjectConfig, ProjectMap, ProxyCaptureMode, ProxyEndpointConfig,
    ProxyEndpointProtocol, ProxyTrafficSettings, ServiceConfig, ServiceRuntimeKind,
};
use loopbox::features::{project_proxy_traffic_capture_mode, project_proxy_traffic_enabled};
use loopbox::http_meta::{
    has_header_terminator, parse_and_redact_headers, parse_request_host, parse_request_line,
    parse_response_status, redact_path_query, strip_host_port,
};
use loopbox::limits::{
    sanitize_proxy_max_storage_mb, sanitize_proxy_retention_days, sanitize_proxy_writer_queue_size,
};
use loopbox::grpc::{render_grpc_preview, split_grpc_frames};
use loopbox::preview::PreviewCapture;
use loopbox::proto::beautify_protoc_text_output;
use loopbox::routes::{
    build_proxy_endpoint_routes, build_proxy_routes, endpoint_bind_failure_note,
    endpoint_connection_plan, endpoint_listener_start, EndpointListenerStart,
    select_grpc_route_for_authority, EndpointConnectionPlan, ProxyEndpointKey, ProxyEndpointRoute,
};

fn service(name: &str, port: Option<u16>, protocol: ProxyEndpointProtocol, command: &str, dir: &str) -> ServiceConfig {
    ServiceConfig {
        name: name.to_string(),
        runtime: ServiceRuntimeKind::Process,
        container: None,
        ports: vec![],
        port,
        protocol,
        command: command.to_string(),
        workdir: dir.to_string(),
        env_files: vec![],
        depends_on: vec![],
        autostart: false,
        health_path: None,
    }
}

fn project(dir: &str, ip: &str, services: Vec<ServiceConfig>, default_open: Option<&str>, endpoints: Vec<ProxyEndpointConfig>) -> ProjectConfig {
    ProjectConfig {
        dir: dir.to_string(),
        ip: ip.to_string(),
        services,
        default_open_service: default_open.map(|s| s.to_string()),
        proxy_traffic_capture_enabled: None,
        proxy_traffic_capture_mode: None,
        grpc_proto_paths: vec![],
        proxy_endpoints: endpoints,
    }
}

#[test]
fn tests_host_parser_extracts_host_without_port() {
    let request =
        b"GET / HTTP/1.1\r\nHost: web.vereinsapp.localhost:3000\r\nConnection: close\r\n\r\n";
    assert_eq!(
        parse_request_host(request).as_deref(),
        Some("web.vereinsapp.localhost")
    );
}

#[test]
fn tests_strip_host_port_handles_ipv6_style_hosts() {
    assert_eq!(strip_host_port("[::1]:8080"), "::1");
    assert_eq!(
        strip_host_port("frontend.app.niklasschmidt.dev:5173"),
        "frontend.app.niklasschmidt.dev"
    );
}

#[test]
fn tests_header_terminator_detection_works() {
    assert!(has_header_terminator(
        b"GET / HTTP/1.1\r\nHost: demo.localhost\r\n\r\n"
    ));
    assert!(!has_header_terminator(
        b"GET / HTTP/1.1\r\nHost: demo.localhost\r\n"
    ));
}

#[test]
fn tests_request_line_parser_extracts_method_and_path() {
    let request = b"POST /api/items?status=open HTTP/1.1\r\nHost: demo.localhost\r\n\r\n";
    let (method, path) = parse_request_line(request);
    assert_eq!(method, "POST");
    assert_eq!(path, "/api/items?status=open");
}

#[test]
fn tests_response_status_parser_extracts_status_code() {
    let response = b"HTTP/1.1 201 Created\r\nContent-Length: 0\r\n\r\n";
    assert_eq!(parse_response_status(response), Some(201));
}

fn default_redacted_headers() -> Vec<String> {
    vec![
        "authorization".to_string(),
        "cookie".to_string(),
        "set-cookie".to_string(),
        "x-api-key".to_string(),
        "proxy-authorization".to_string(),
    ]
}

#[test]
fn header_parser_redacts_sensitive_headers() {
    let request = b"GET / HTTP/1.1\r\nHost: demo.localhost\r\nAuthorization: Bearer abc123\r\nCookie: session=topsecret\r\nX-Api-Key: secret-key\r\nUser-Agent: curl/8.6.0\r\n\r\n";
    let redacted_headers = default_redacted_headers();
    let headers = parse_and_redact_headers(request, &redacted_headers);
    assert!(headers
        .iter()
        .any(|header| header.name.eq_ignore_ascii_case("host") && header.value == "demo.localhost"));
    assert!(headers
        .iter()
        .any(|header| header.name.eq_ignore_ascii_case("authorization")
            && header.value == "[redacted]"));
    assert!(headers
        .iter()
        .any(|header| header.name.eq_ignore_ascii_case("cookie") && header.value == "[redacted]"));
    assert!(headers.iter().any(
        |header| header.name.eq_ignore_ascii_case("x-api-key") && header.value == "[redacted]"
    ));
}

#[test]
fn header_parser_keeps_duplicate_headers() {
    let response = b"HTTP/1.1 200 OK\r\nSet-Cookie: a=1\r\nSet-Cookie: b=2\r\nContent-Type: text/plain\r\n\r\nhello";
    let redacted_headers = default_redacted_headers();
    let headers = parse_and_redact_headers(response, &redacted_headers);
    let cookie_count = headers
        .iter()
        .filter(|header| header.name.eq_ignore_ascii_case("set-cookie"))
        .count();
    assert_eq!(cookie_count, 2);
    assert!(headers.iter().all(|header| {
        if header.name.eq_ignore_ascii_case("set-cookie") {
            header.value == "[redacted]"
        } else {
            true
        }
    }));
}

#[test]
fn route_builder_skips_portless_services() {
    let config = LoopboxConfig {
        global: GlobalConfig {
            domain_suffix: "niklasschmidt.dev".to_string(),
            ..GlobalConfig::default()
        },
        projects: ProjectMap::from_entries(vec![(
            "app".to_string(),
            project(
                "/tmp/niklasschmidt.dev",
                "127.0.0.30",
                vec![
                    service("frontend", Some(3000), ProxyEndpointProtocol::Http1, "pnpm dev", "/tmp/niklasschmidt.dev"),
                    service("worker", None, ProxyEndpointProtocol::Http1, "pnpm run worker", "/tmp/niklasschmidt.dev"),
                ],
                Some("frontend"),
                vec![],
            ),
        )]),
    };

    let routes = build_proxy_routes(&config);
    assert_eq!(routes.len(), 1);
    assert!(routes.contains_key("frontend.app.niklasschmidt.dev"));
    assert!(!routes.contains_key("worker.app.niklasschmidt.dev"));
    let route = routes
        .get("frontend.app.niklasschmidt.dev")
        .expect("route should exist");
    assert_eq!(route.capture_mode, ProxyCaptureMode::Metadata);
}

fn skybrid_config(port: u16, endpoints: Vec<ProxyEndpointConfig>, suffix: Option<&str>) -> LoopboxConfig {
    let global = match suffix {
        Some(s) => GlobalConfig { domain_suffix: s.to_string(), ..GlobalConfig::default() },
        None => GlobalConfig::default(),
    };
    LoopboxConfig {
        global,
        projects: ProjectMap::from_entries(vec![(
            "skybrid".to_string(),
            project(
                "/tmp/skybrid",
                "127.0.0.30",
                vec![service("gateway", Some(port), ProxyEndpointProtocol::GrpcH2c, "go run ./cmd/gateway", "/tmp/skybrid")],
                Some("gateway"),
                endpoints,
            ),
        )]),
    }
}

#[test]
fn tests_route_builder_skips_non_http_service_protocols() {
    let config = skybrid_config(50051, vec![], Some("localhost"));
    let routes = build_proxy_routes(&config);
    assert!(!routes.contains_key("gateway.skybrid.localhost"));
}

#[test]
fn tests_endpoint_route_builder_includes_project_proxy_endpoints() {
    let config = skybrid_config(
        50052,
        vec![ProxyEndpointConfig {
            name: "gateway".to_string(),
            listen_host: "127.0.0.1".to_string(),
            listen_port: 50051,
            protocol: ProxyEndpointProtocol::GrpcH2c,
            upstream_host: "127.0.0.30".to_string(),
            upstream_port: 50052,
            authority: Some("gateway.skybrid.localhost".to_string()),
            project_name: None,
            service_name: None,
        }],
        None,
    );

    let routes = build_proxy_endpoint_routes(&config);
    assert_eq!(routes.len(), 2);
    let route = routes
        .entries
        .iter()
        .flat_map(|(_, route_set)| route_set.iter())
        .find(|route| route.name == "gateway")
        .expect("project endpoint route should exist");
    assert_eq!(route.project_name, "skybrid");
    assert_eq!(route.service_name, "gateway");
    assert_eq!(route.authority.as_deref(), Some("gateway.skybrid.localhost"));
}

#[test]
fn tests_endpoint_route_builder_auto_includes_grpc_service_listener() {
    let config = skybrid_config(50051, vec![], Some("localhost"));
    let routes = build_proxy_endpoint_routes(&config);
    let key = ProxyEndpointKey {
        listen_host: "127.0.0.1".to_string(),
        listen_port: 50051,
    };
    let route_set = routes
        .get(&key)
        .expect("auto grpc listener should exist for service port");
    let route = route_set
        .iter()
        .find(|route| route.service_name == "gateway")
        .expect("auto grpc route should exist");
    assert_eq!(route.protocol, ProxyEndpointProtocol::GrpcH2c);
    assert_eq!(route.upstream_host, "127.0.0.30");
    assert_eq!(route.upstream_port, 50051);
    assert_eq!(route.authority.as_deref(), Some("gateway.skybrid.localhost"));
}

fn global_endpoints() -> Vec<ProxyEndpointConfig> {
    vec![
        ProxyEndpointConfig {
            name: "gateway".to_string(),
            listen_host: "127.0.0.1".to_string(),
            listen_port: 50051,
            protocol: ProxyEndpointProtocol::GrpcH2c,
            upstream_host: "127.0.0.30".to_string(),
            upstream_port: 50052,
            authority: None,
            project_name: None,
            service_name: None,
        },
        ProxyEndpointConfig {
            name: "internal-tcp".to_string(),
            listen_host: "127.0.0.1".to_string(),
            listen_port: 15000,
            protocol: ProxyEndpointProtocol::TcpPassthrough,
            upstream_host: "127.0.0.40".to_string(),
            upstream_port: 15001,
            authority: None,
            project_name: None,
            service_name: None,
        },
    ]
}

#[test]
fn tests_endpoint_route_builder_includes_global_proxy_endpoints() {
    let config = LoopboxConfig {
        global: GlobalConfig {
            proxy_endpoints: global_endpoints(),
            ..GlobalConfig::default()
        },
        projects: ProjectMap::new(),
    };

    let routes = build_proxy_endpoint_routes(&config);
    assert_eq!(routes.len(), 2);
    let grpc_route = routes
        .entries
        .iter()
        .flat_map(|(_, route_set)| route_set.iter())
        .find(|route| route.name == "gateway")
        .expect("grpc endpoint route should exist");
    assert_eq!(grpc_route.protocol, ProxyEndpointProtocol::GrpcH2c);
    assert_eq!(grpc_route.upstream_host, "127.0.0.30");
    assert_eq!(grpc_route.upstream_port, 50052);
}

fn endpoint_route(name: &str, upstream: &str, authority: Option<&str>, project: &str, service: &str, capture: bool) -> ProxyEndpointRoute {
    ProxyEndpointRoute {
        name: name.to_string(),
        protocol: ProxyEndpointProtocol::GrpcH2c,
        upstream_host: upstream.to_string(),
        upstream_port: 50051,
        authority: authority.map(|a| a.to_string()),
        project_name: project.to_string(),
        service_name: service.to_string(),
        grpc_proto_paths: vec![],
        capture_enabled: capture,
        capture_mode: ProxyCaptureMode::Metadata,
        capture_text_only: true,
        redacted_header_names: vec![],
        redacted_query_keys: vec![],
        request_body_preview_max_bytes: 1024,
        response_body_preview_max_bytes: 1024,
    }
}

#[test]
fn tests_grpc_authority_route_selection_prefers_matching_route() {
    let routes = vec![
        endpoint_route("default", "127.0.0.10", None, "demo", "default", false),
        endpoint_route("skybrid", "127.0.0.30", Some("gateway.skybrid.localhost"), "skybrid", "gateway", true),
    ];

    let matched = select_grpc_route_for_authority(&routes, Some("gateway.skybrid.localhost"))
        .expect("route should match");
    assert_eq!(matched.name, "skybrid");

    let fallback = select_grpc_route_for_authority(&routes, Some("unknown.localhost"))
        .expect("default route should match");
    assert_eq!(fallback.name, "default");
}

fn demo_config(settings: ProxyTrafficSettings) -> LoopboxConfig {
    LoopboxConfig {
        global: GlobalConfig {
            proxy_traffic: settings,
            ..GlobalConfig::default()
        },
        projects: ProjectMap::from_entries(vec![(
            "demo".to_string(),
            project("/tmp/demo", "127.0.0.20", vec![], None, vec![]),
        )]),
    }
}

#[test]
fn project_capture_setting_falls_back_to_global_default() {
    let config = demo_config(ProxyTrafficSettings {
        capture_enabled_by_default: true,
        ..ProxyTrafficSettings::default()
    });
    assert!(project_proxy_traffic_enabled(&config, "demo"));
}

#[test]
fn project_capture_mode_falls_back_to_global_default() {
    let config = demo_config(ProxyTrafficSettings {
        capture_mode_default: ProxyCaptureMode::Headers,
        ..ProxyTrafficSettings::default()
    });
    assert_eq!(
        project_proxy_traffic_capture_mode(&config, "demo"),
        ProxyCaptureMode::Headers
    );
}

#[test]
fn query_key_redaction_works() {
    let path = redact_path_query(
        "/callback?code=abc123&state=ok&token=secret",
        &["token".to_string(), "code".to_string()],
    );
    assert_eq!(path, "/callback?code=[redacted]&state=ok&token=[redacted]");
}

#[test]
fn writer_queue_limit_is_clamped() {
    assert_eq!(sanitize_proxy_writer_queue_size(0), 10_000);
    assert_eq!(sanitize_proxy_writer_queue_size(1), 100);
    assert_eq!(sanitize_proxy_writer_queue_size(500_000), 100_000);
}

#[test]
fn retention_and_storage_limits_are_clamped() {
    assert_eq!(sanitize_proxy_retention_days(0), 7);
    assert_eq!(sanitize_proxy_retention_days(255), 90);
    assert_eq!(sanitize_proxy_max_storage_mb(0), 500);
    assert_eq!(sanitize_proxy_max_storage_mb(9), 50);
    assert_eq!(sanitize_proxy_max_storage_mb(50_000), 10_000);
}

#[test]
fn day_parsers_validate_values() {
    assert!(parse_day_key("2026-02-21").is_some());
    assert!(parse_day_key("2026-02-30").is_none());
    assert!(parse_day_from_traffic_filename("events-2026-02-21.jsonl").is_some());
    assert!(parse_day_from_traffic_filename("events-bad.jsonl").is_none());
}

#[test]
fn body_preview_marks_binary_payload() {
    let mut capture = PreviewCapture::new(16, true);
    capture.ingest(&[0x00, 0xFF, 0x01, 0x02]);
    let result = capture.finish();
    assert!(result.binary);
    assert!(result.preview.is_none());
}

#[test]
fn body_preview_marks_truncated_text() {
    let mut capture = PreviewCapture::new(5, true);
    capture.ingest(b"hello-world");
    let result = capture.finish();
    assert!(result.truncated);
    assert!(!result.binary);
    assert_eq!(result.preview.as_deref(), Some("hello"));
}

#[test]
fn grpc_preview_renders_unframed_payload_text() {
    let payload = br#"{"ok":true}"#;
    let mut frame = Vec::new();
    frame.push(0_u8);
    frame.extend_from_slice(&(payload.len() as u32).to_be_bytes());
    frame.extend_from_slice(payload);

    let rendered = render_grpc_preview(&frame, &vec![]);
    let rendered = rendered.expect("gRPC preview should render when traffic capture is enabled");
    assert!(rendered.contains(r#"{"ok":true}"#));
}

#[test]
fn split_grpc_frames_marks_incomplete_frame() {
    let payload = b"abcdef";
    let mut frame = Vec::new();
    frame.push(0_u8);
    frame.extend_from_slice(&10_u32.to_be_bytes());
    frame.extend_from_slice(payload);

    let (frames, trailing) = split_grpc_frames(&frame);
    assert!(!trailing);
    assert_eq!(frames.len(), 1);
    assert_eq!(frames[0].1, payload);
    assert!(!frames[0].0.complete);
    assert_eq!(frames[0].0.declared_len, 10);
}

#[test]
fn beautify_protoc_output_formats_json_string_field() {
    let input = r#"items: "[{\"name\":\"demo\",\"ok\":true}]" "#.trim();
    let output = beautify_protoc_text_output(input);
    assert!(output.contains("items:"));
    assert!(output.contains("\"name\": \"demo\""));
    assert!(output.contains("\"ok\": true"));
}

#[test]
fn beautify_protoc_output_keeps_normal_fields() {
    let input = "kubernetes_version: \"v1.34.4+k3s1\"";
    let output = beautify_protoc_text_output(input);
    assert_eq!(output, input);
}

#[test]
fn host_parser_extracts_host_without_port() {
    let request =
        b"GET / HTTP/1.1\r\nHost: web.vereinsapp.localhost:3000\r\nConnection: close\r\n\r\n";
    assert_eq!(
        parse_request_host(request).as_deref(),
        Some("web.vereinsapp.localhost")
    );
}

#[test]
fn strip_host_port_handles_ipv6_style_hosts() {
    assert_eq!(strip_host_port("[::1]:8080"), "::1");
    assert_eq!(
        strip_host_port("frontend.app.niklasschmidt.dev:5173"),
        "frontend.app.niklasschmidt.dev"
    );
}

#[test]
fn header_terminator_detection_works() {
    assert!(has_header_terminator(
        b"GET / HTTP/1.1\r\nHost: demo.localhost\r\n\r\n"
    ));
    assert!(!has_header_terminator(
        b"GET / HTTP/1.1\r\nHost: demo.localhost\r\n"
    ));
}

#[test]
fn request_line_parser_extracts_method_and_path() {
    let request = b"POST /api/items?status=open HTTP/1.1\r\nHost: demo.localhost\r\n\r\n";
    let (method, path) = parse_request_line(request);
    assert_eq!(method, "POST");
    assert_eq!(path, "/api/items?status=open");
}

#[test]
fn response_status_parser_extracts_status_code() {
    let response = b"HTTP/1.1 201 Created\r\nContent-Length: 0\r\n\r\n";
    assert_eq!(parse_response_status(response), Some(201));
}

#[test]
fn route_builder_skips_non_http_service_protocols() {
    let config = skybrid_config(50051, vec![], Some("localhost"));
    let routes = build_proxy_routes(&config);
    assert!(!routes.contains_key("gateway.skybrid.localhost"));
}

#[test]
fn endpoint_route_builder_includes_project_proxy_endpoints() {
    let config = skybrid_config(
        50052,
        vec![ProxyEndpointConfig {
            name: "gateway".to_string(),
            listen_host: "127.0.0.1".to_string(),
            listen_port: 50051,
            protocol: ProxyEndpointProtocol::GrpcH2c,
            upstream_host: "127.0.0.30".to_string(),
            upstream_port: 50052,
            authority: Some("gateway.skybrid.localhost".to_string()),
            project_name: None,
            service_name: None,
        }],
        None,
    );

    let routes = build_proxy_endpoint_routes(&config);
    assert_eq!(routes.len(), 2);
    let route = routes
        .entries
        .iter()
        .flat_map(|(_, route_set)| route_set.iter())
        .find(|route| route.name == "gateway")
        .expect("project endpoint route should exist");
    assert_eq!(route.project_name, "skybrid");
    assert_eq!(route.service_name, "gateway");
    assert_eq!(route.authority.as_deref(), Some("gateway.skybrid.localhost"));
}

#[test]
fn endpoint_route_builder_auto_includes_grpc_service_listener() {
    let config = skybrid_config(50051, vec![], Some("localhost"));
    let routes = build_proxy_endpoint_routes(&config);
    let key = ProxyEndpointKey {
        listen_host: "127.0.0.1".to_string(),
        listen_port: 50051,
    };
    let route_set = routes
        .get(&key)
        .expect("auto grpc listener should exist for service port");
    let route = route_set
        .iter()
        .find(|route| route.service_name == "gateway")
        .expect("auto grpc route should exist");
    assert_eq!(route.protocol, ProxyEndpointProtocol::GrpcH2c);
    assert_eq!(route.upstream_host, "127.0.0.30");
    assert_eq!(route.upstream_port, 50051);
    assert_eq!(route.authority.as_deref(), Some("gateway.skybrid.localhost"));
}

#[test]
fn endpoint_route_builder_includes_global_proxy_endpoints() {
    let config = LoopboxConfig {
        global: GlobalConfig {
            proxy_endpoints: global_endpoints(),
            ..GlobalConfig::default()
        },
        projects: ProjectMap::new(),
    };

    let routes = build_proxy_endpoint_routes(&config);
    assert_eq!(routes.len(), 2);
    let grpc_route = routes
        .entries
        .iter()
        .flat_map(|(_, route_set)| route_set.iter())
        .find(|route| route.name == "gateway")
        .expect("grpc endpoint route should exist");
    assert_eq!(grpc_route.protocol, ProxyEndpointProtocol::GrpcH2c);
    assert_eq!(grpc_route.upstream_host, "127.0.0.30");
    assert_eq!(grpc_route.upstream_port, 50052);
}

#[test]
fn grpc_authority_route_selection_prefers_matching_route() {
    let routes = vec![
        endpoint_route("default", "127.0.0.10", None, "demo", "default", false),
        endpoint_route("skybrid", "127.0.0.30", Some("gateway.skybrid.localhost"), "skybrid", "gateway", true),
    ];

    let matched = select_grpc_route_for_authority(&routes, Some("gateway.skybrid.localhost"))
        .expect("route should match");
    assert_eq!(matched.name, "skybrid");

    let fallback = select_grpc_route_for_authority(&routes, Some("unknown.localhost"))
        .expect("default route should match");
    assert_eq!(fallback.name, "default");
}

#[test]
fn endpoint_connection_plan_follows_route_protocols() {
    let key = ProxyEndpointKey { listen_host: "127.0.0.1".to_string(), listen_port: 7443 };
    let grpc = vec![
        endpoint_route("a", "127.0.0.10", None, "demo", "a", false),
        endpoint_route("b", "127.0.0.11", Some("b.localhost"), "demo", "b", false),
    ];
    assert_eq!(endpoint_connection_plan(false, &key, Some(&grpc)), Ok(EndpointConnectionPlan::Refuse));
    assert_eq!(endpoint_connection_plan(false, &key, None), Ok(EndpointConnectionPlan::Refuse));
    assert_eq!(endpoint_connection_plan(true, &key, Some(&grpc)), Ok(EndpointConnectionPlan::GrpcH2c));
    assert_eq!(
        endpoint_connection_plan(true, &key, None),
        Err("No proxy endpoint route configured for 127.0.0.1:7443.".to_string())
    );
    assert_eq!(
        endpoint_connection_plan(true, &key, Some(&vec![])),
        Err("No proxy endpoint route configured for 127.0.0.1:7443.".to_string())
    );

    let mut tcp = endpoint_route("db", "127.0.0.20", None, "demo", "db", false);
    tcp.protocol = ProxyEndpointProtocol::TcpPassthrough;
    assert_eq!(
        endpoint_connection_plan(true, &key, Some(&vec![tcp])),
        Ok(EndpointConnectionPlan::Tunnel)
    );

    let mut tcp_a = endpoint_route("db", "127.0.0.20", None, "demo", "db", false);
    tcp_a.protocol = ProxyEndpointProtocol::TcpPassthrough;
    let mut tcp_b = endpoint_route("cache", "127.0.0.21", None, "demo", "cache", false);
    tcp_b.protocol = ProxyEndpointProtocol::TcpPassthrough;
    assert_eq!(
        endpoint_connection_plan(true, &key, Some(&vec![tcp_a, tcp_b])),
        Err("Multiple endpoint routes on 127.0.0.1:7443 require protocol grpc_h2c with authority matching.".to_string())
    );

    let mut mixed_b = endpoint_route("web", "127.0.0.22", None, "demo", "web", false);
    mixed_b.protocol = ProxyEndpointProtocol::Http1;
    let mixed = vec![endpoint_route("a", "127.0.0.10", None, "demo", "a", false), mixed_b];
    assert_eq!(
        endpoint_connection_plan(true, &key, Some(&mixed)),
        Err("Mixed endpoint protocols configured for 127.0.0.1:7443.".to_string())
    );
}

#[test]
fn endpoint_listeners_start_only_when_consistent_and_new() {
    let key = ProxyEndpointKey { listen_host: "127.0.0.1".to_string(), listen_port: 7443 };
    let grpc = vec![endpoint_route("a", "127.0.0.10", None, "demo", "a", false)];
    assert_eq!(endpoint_listener_start(&key, &grpc, false), EndpointListenerStart::Bind);
    assert_eq!(endpoint_listener_start(&key, &grpc, true), EndpointListenerStart::Skip);
    assert_eq!(endpoint_listener_start(&key, &vec![], false), EndpointListenerStart::Skip);
    let mut web = endpoint_route("web", "127.0.0.11", None, "demo", "web", false);
    web.protocol = ProxyEndpointProtocol::Http1;
    let mixed = vec![endpoint_route("a", "127.0.0.10", None, "demo", "a", false), web];
    assert_eq!(
        endpoint_listener_start(&key, &mixed, false),
        EndpointListenerStart::Refuse(
            "Failed to start proxy endpoint listener on 127.0.0.1:7443 (mixed protocols are not supported on the same listener).".to_string()
        )
    );
    assert_eq!(
        endpoint_bind_failure_note(&key, &grpc, "address in use"),
        "Failed to bind proxy endpoint 'a' on 127.0.0.1:7443 (address in use)."
    );
    assert_eq!(
        endpoint_bind_failure_note(&key, &vec![], "x"),
        "Failed to bind proxy endpoint 'endpoint' on 127.0.0.1:7443 (x)."
    );
}
