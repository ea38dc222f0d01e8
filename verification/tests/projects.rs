use loopbox::config::{LoopboxConfig, ProjectConfig, ProxyEndpointProtocol, ServiceConfig, ServiceRuntimeKind};
use loopbox::projects::{
    add_project, add_project_with_hash, allocate_ip_from_hash, generated_service_hosts, open_url_for,
    project_env_exports, project_primary_host, remove_project, update_project, validate_project_ip,
    AddProjectInput, OpenTarget, ServiceEntry, ServicePortEntry, UpdateProjectInput,
};
use loopbox::status::ReverseProxyStatus;

fn entry(name: &str, port: &str, protocol: &str, command: &str, workdir: &str) -> ServiceEntry {
    ServiceEntry {
        name: name.to_string(),
        ports: vec![],
        port: port.to_string(),
        protocol: protocol.to_string(),
        command: command.to_string(),
        workdir: workdir.to_string(),
        env_files: String::new(),
        depends_on: String::new(),
        autostart: false,
        health_path: String::new(),
        runtime: "process".to_string(),
        container_image: String::new(),
        container_args: String::new(),
        container_env: String::new(),
        container_volumes: String::new(),
        container_auto_remove: false,
    }
}

fn service(name: &str, port: Option<u16>, command: &str) -> ServiceConfig {
    ServiceConfig {
        name: name.to_string(),
        runtime: ServiceRuntimeKind::Process,
        container: None,
        ports: vec![],
        port,
        protocol: ProxyEndpointProtocol::Http1,
        command: command.to_string(),
        workdir: "/tmp/niklasschmidt.dev".to_string(),
        env_files: vec![],
        depends_on: vec![],
        autostart: false,
        health_path: None,
    }
}

#[test]
fn generated_service_hosts_only_returns_service_entries() {
    let services = vec![service("backend", Some(8080), "npm run dev"), service("frontend", Some(3000), "npm run dev")];

    let hosts = generated_service_hosts("showcase", &services, "niklasschmidt.dev");

    assert_eq!(
        hosts,
        vec!["backend.showcase.niklasschmidt.dev".to_string(), "frontend.showcase.niklasschmidt.dev".to_string()]
    );
    assert!(!hosts.iter().any(|host| host == "showcase.niklasschmidt.dev"));
}

#[test]
fn update_project_preserves_default_service_when_it_still_exists() {
    let mut config = LoopboxConfig::default();
    config.projects.insert(
        "niklasschmidt.dev".to_string(),
        ProjectConfig {
            dir: "/tmp/niklasschmidt.dev".to_string(),
            ip: "127.0.0.30".to_string(),
            services: vec![service("backend", Some(8080), "pnpm backend"), service("frontend", Some(3000), "pnpm frontend")],
            default_open_service: Some("backend".to_string()),
            proxy_traffic_capture_enabled: None,
            proxy_traffic_capture_mode: None,
            grpc_proto_paths: vec![],
            proxy_endpoints: vec![],
        },
    );

    let input = UpdateProjectInput {
        dir: "/tmp/niklasschmidt.dev-new".to_string(),
        ip: String::new(),
        services: vec![
            entry("backend", "8088", "http1", "pnpm backend", "/tmp/niklasschmidt.dev-new"),
            entry("gateway", "8081", "http1", "pnpm gateway", "/tmp/niklasschmidt.dev-new"),
        ],
    };

    update_project(&mut config, "niklasschmidt.dev", &input, None).expect("update should succeed");

    let project = config.projects.get("niklasschmidt.dev").expect("project should still exist");

    assert_eq!(project.dir, "/tmp/niklasschmidt.dev-new");
    assert_eq!(project.ip, "127.0.0.30");
    assert_eq!(project.services.len(), 2);
    assert_eq!(project.services[0].name, "backend");
    assert_eq!(project.services[0].port, Some(8088));
    assert_eq!(project.services[1].name, "gateway");
    assert_eq!(project.default_open_service, Some("backend".to_string()));
}

fn add_input(name: &str, dir: &str, ip: &str, services: Vec<ServiceEntry>) -> AddProjectInput {
    AddProjectInput { name: name.to_string(), dir: dir.to_string(), ip: ip.to_string(), services }
}

#[test]
fn add_project_allows_service_without_port() {
    let mut config = LoopboxConfig::default();
    let input = add_input("tools", "/tmp/tools", "127.0.0.40", vec![entry("convex", "", "http1", "pnpm run dev:convex", "/tmp/tools")]);

    let project_name = add_project(&mut config, &input, None).expect("project should be added");
    let project = config.projects.get(&project_name).expect("project should exist");
    assert_eq!(project.services[0].port, None);
}

#[test]
fn default_open_service_prefers_service_with_port() {
    let mut config = LoopboxConfig::default();
    let input = add_input(
        "mixed",
        "/tmp/mixed",
        "127.0.0.41",
        vec![entry("worker", "", "http1", "pnpm worker", "/tmp/mixed"), entry("frontend", "3000", "http1", "pnpm dev", "/tmp/mixed")],
    );

    let project_name = add_project(&mut config, &input, None).expect("project should be added");
    let project = config.projects.get(&project_name).expect("project should exist");
    assert_eq!(project.default_open_service.as_deref(), Some("frontend"));
}

#[test]
fn add_project_rejects_unknown_dependencies() {
    let mut config = LoopboxConfig::default();
    let mut server = entry("server", "8080", "http1", "pnpm dev", "/tmp/deps");
    server.depends_on = "gateway".to_string();
    let input = add_input("deps", "/tmp/deps", "127.0.0.42", vec![server]);

    let err = add_project(&mut config, &input, None).expect_err("unknown dependency must fail");
    assert!(err.contains("depends on unknown service"));
}

#[test]
fn add_project_normalizes_dependency_list() {
    let mut config = LoopboxConfig::default();
    let mut server = entry("server", "8080", "http1", "pnpm server", "/tmp/depsnorm");
    server.depends_on = "gateway, SERVER, gateway".to_string();
    let input = add_input(
        "depsnorm",
        "/tmp/depsnorm",
        "127.0.0.43",
        vec![entry("gateway", "8081", "http1", "pnpm gateway", "/tmp/depsnorm"), server],
    );

    let project_name = add_project(&mut config, &input, None).expect("project should be added");
    let project = config.projects.get(&project_name).expect("project should exist");
    let server = project.services.iter().find(|service| service.name == "server").expect("server service");
    assert_eq!(server.depends_on, vec!["gateway".to_string()]);
}

#[test]
fn add_project_parses_service_protocol() {
    let mut config = LoopboxConfig::default();
    let input = add_input("grpc", "/tmp/grpc", "127.0.0.44", vec![entry("gateway", "50051", "grpc_h2c", "go run ./cmd/gateway", "/tmp/grpc")]);

    let project_name = add_project(&mut config, &input, None).expect("project should be added");
    let project = config.projects.get(&project_name).expect("project should exist");
    assert_eq!(project.services[0].protocol, ProxyEndpointProtocol::GrpcH2c);
}

#[test]
fn add_project_parses_container_runtime_service() {
    let mut config = LoopboxConfig::default();
    let mut db = entry("db", "5432", "tcp_passthrough", "", "/tmp/containers");
    db.runtime = "container".to_string();
    db.container_image = "postgres:16".to_string();
    db.container_args = "-c max_connections=200".to_string();
    db.container_env = "POSTGRES_DB=app\nPOSTGRES_PASSWORD=secret".to_string();
    db.container_volumes = "/tmp/pg:/var/lib/postgresql/data".to_string();
    db.container_auto_remove = true;
    let input = add_input("containers", "/tmp/containers", "127.0.0.45", vec![db]);

    let project_name = add_project(&mut config, &input, None).expect("project should be added");
    let project = config.projects.get(&project_name).expect("project should exist");
    let service = &project.services[0];
    assert_eq!(service.runtime, ServiceRuntimeKind::Container);
    assert_eq!(service.container.as_ref().map(|container| container.image.as_str()), Some("postgres:16"));
    assert_eq!(service.command, "");
}

#[test]
fn add_project_rejects_container_runtime_without_image() {
    let mut config = LoopboxConfig::default();
    let mut db = entry("db", "5432", "tcp_passthrough", "", "/tmp/containers");
    db.runtime = "container".to_string();
    let input = add_input("missing-image", "/tmp/containers", "127.0.0.46", vec![db]);

    let err = add_project(&mut config, &input, None).expect_err("missing image must fail");
    assert!(err.contains("requires an image"));
}

#[test]
fn add_project_rejects_unknown_service_protocol() {
    let mut config = LoopboxConfig::default();
    let input = add_input("badproto", "/tmp/badproto", "127.0.0.45", vec![entry("api", "8080", "weird", "pnpm dev", "/tmp/badproto")]);

    let err = add_project(&mut config, &input, None).expect_err("unknown protocol must fail");
    assert!(err.contains("invalid protocol"));
}

#[test]
fn add_project_normalizes_smart_dashes_in_command() {
    let mut config = LoopboxConfig::default();
    let input = add_input(
        "smart-dash",
        "/tmp/smart-dash",
        "127.0.0.47",
        vec![entry("mobile", "8081", "http1", "npx expo run:ios \u{2014}device 'iPhone von Niklas'", "/tmp/smart-dash")],
    );

    let project_name = add_project(&mut config, &input, None).expect("project should be added");
    let project = config.projects.get(&project_name).expect("project should exist");
    assert_eq!(project.services[0].command, "npx expo run:ios --device 'iPhone von Niklas'");
}

#[test]
fn add_then_remove_leaves_no_project() {
    let mut config = LoopboxConfig::default();
    let input = add_input("Demo App", "/tmp/demo", "", vec![entry("Web", "3000", "", "npm run dev", "")]);
    let name = add_project_with_hash(&mut config, &input, None, 7).expect("added");
    assert_eq!(name, "demo-app");
    let project = config.projects.get("demo-app").expect("stored");
    assert!(validate_project_ip(&config.global, &project.ip).is_ok());
    assert_eq!(project.services[0].name, "web");
    assert_eq!(project.services[0].workdir, "/tmp/demo");
    assert_eq!(add_project_with_hash(&mut config, &input, None, 7), Err("Project 'demo-app' already exists.".to_string()));
    assert_eq!(remove_project(&mut config, "demo-app"), Ok(()));
    assert!(config.projects.get("demo-app").is_none());
    assert_eq!(remove_project(&mut config, "demo-app"), Err("Project 'demo-app' does not exist.".to_string()));
}

#[test]
fn ip_checks_reject_bad_and_taken_addresses() {
    let mut config = LoopboxConfig::default();
    let g = config.global.clone();
    assert!(validate_project_ip(&g, "127.0.0.20").is_ok());
    assert_eq!(validate_project_ip(&g, "10.0.0.5"), Err(format!("IP 10.0.0.5 must start with '{}'.", g.ip_base)));
    assert!(validate_project_ip(&g, "127.0.0.x").unwrap_err().contains("invalid last octet"));
    let first = add_input("one", "/tmp/one", "127.0.0.20", vec![entry("a", "3000", "", "run", "")]);
    add_project(&mut config, &first, None).expect("first");
    let second = add_input("two", "/tmp/two", " 127.0.0.20 ", vec![entry("b", "3000", "", "run", "")]);
    assert_eq!(
        add_project(&mut config, &second, None),
        Err("IP 127.0.0.20 is already assigned to another project.".to_string())
    );
}

#[test]
fn allocation_walks_range_from_hash_and_skips_used_octets() {
    let mut config = LoopboxConfig::default();
    config.global.ip_range_start = 10;
    config.global.ip_range_end = 12;
    let base = config.global.ip_base.clone();
    assert_eq!(allocate_ip_from_hash(&config, 4), Ok(format!("{base}11")));
    let first = add_input("one", "/tmp/one", &format!("{base}11"), vec![entry("a", "3000", "", "run", "")]);
    add_project(&mut config, &first, None).expect("first");
    assert_eq!(allocate_ip_from_hash(&config, 4), Ok(format!("{base}12")));
    config.global.ip_range_start = 13;
    assert_eq!(allocate_ip_from_hash(&config, 0), Err("Invalid IP range configuration.".to_string()));
}

#[test]
fn hosts_urls_and_exports_describe_a_project() {
    let mut config = LoopboxConfig::default();
    let input = add_input(
        "shop",
        "/tmp/shop",
        "127.0.0.50",
        vec![entry("api", "8080", "", "run \"api\"", ""), entry("worker", "", "", "work", "")],
    );
    add_project(&mut config, &input, None).expect("added");
    assert_eq!(project_primary_host(&config, "shop"), "api.shop.localhost");
    assert_eq!(project_primary_host(&config, "none"), "none.localhost");
    let stopped = ReverseProxyStatus::default();
    assert_eq!(
        open_url_for(&config, "shop", OpenTarget::Service("api".to_string()), &stopped),
        Ok("http://127.0.0.50:8080".to_string())
    );
    assert_eq!(
        open_url_for(&config, "shop", OpenTarget::Service("db".to_string()), &stopped),
        Err("Service 'db' not found in project 'shop'.".to_string())
    );
    let exports = project_env_exports(&config, "shop", &stopped).expect("exports");
    assert!(exports.contains("export LOOPBOX_PROJECT=\"shop\"\n"));
    assert!(exports.contains("export LOOPBOX_PORT_API=\"8080\"\n"));
    assert!(exports.contains("export LOOPBOX_CMD_API=\"run \\\"api\\\"\"\n"));
    assert!(exports.contains("export LOOPBOX_PORTS_WORKER=\"\"\n"));
    assert!(exports.ends_with('\n'));
}

#[test]
fn hostnames_of_other_projects_are_refused() {
    let mut config = LoopboxConfig::default();
    let first = add_input("shop", "/tmp/shop", "127.0.0.50", vec![entry("api", "8080", "", "run", "")]);
    add_project(&mut config, &first, None).expect("first");
    let port_entry = ServicePortEntry {
        port: "9000".to_string(),
        protocol: "grpc".to_string(),
        health_path: " /health ".to_string(),
        health_check_interval_secs: String::new(),
    };
    let mut svc = entry("api", "", "", "run", "");
    svc.ports = vec![port_entry];
    let mut second = add_input("shop2", "/tmp/shop2", "127.0.0.51", vec![svc]);
    add_project(&mut config, &second, None).expect("different project, different host");
    let stored = config.projects.get("shop2").expect("shop2");
    assert_eq!(stored.services[0].port, Some(9000));
    assert_eq!(stored.services[0].protocol, ProxyEndpointProtocol::GrpcH2c);
    assert_eq!(stored.services[0].health_path.as_deref(), Some("/health"));
    second.name = "SHOP".to_string();
    assert_eq!(add_project(&mut config, &second, None), Err("Project 'shop' already exists.".to_string()));
}

#[test]
fn failed_removal_leaves_the_configuration_unchanged() {
    let mut config = LoopboxConfig::default();
    let input = add_input("kept", "/tmp/kept", "", vec![entry("web", "3000", "", "run", "")]);
    add_project_with_hash(&mut config, &input, None, 3).expect("added");
    let before = config.clone();
    assert_eq!(remove_project(&mut config, "missing"), Err("Project 'missing' does not exist.".to_string()));
    assert_eq!(config, before);
}
