use loopbox::config::{
    KubernetesClusterConfig, KubernetesProvider, LoopboxConfig, WireGuardMode, WireGuardTunnelConfig,
};
use loopbox::kube::{
    build_kubernetes_topology, cluster_connectivity_state, cluster_snapshot, import_kubernetes_clusters,
    kubectl_invocation, normalize_cluster_name, parse_context_names, start_cluster_wireguard,
    unique_cluster_name, wg_quick_outcome, wireguard_probe_interface, wireguard_active_from_show_output, ClusterFetch,
    KubernetesClusterImport, KubernetesClusterSnapshot, KubernetesConnectivityState,
    KubernetesEndpointSliceSnapshot, KubernetesEventSnapshot, KubernetesIngressSnapshot,
    KubernetesPodSnapshot, KubernetesServiceSnapshot, KubernetesTopologySnapshot,
    KubernetesWorkloadSnapshot, WorkloadFetch,
};

fn test_cluster() -> KubernetesClusterConfig {
    KubernetesClusterConfig {
        name: "prod".to_string(),
        provider: KubernetesProvider::Remote,
        kubeconfig_path: Some("/tmp/prod-kubeconfig".to_string()),
        context: "prod-context".to_string(),
        default_namespace: "apps".to_string(),
        wireguard: Some(WireGuardTunnelConfig {
            name: "prod-wg".to_string(),
            mode: WireGuardMode::WgQuick,
            interface: Some("wg-prod0".to_string()),
            config_path: Some("/etc/wireguard/prod.conf".to_string()),
            required: true,
        }),
    }
}

fn strings(items: &[&str]) -> Vec<String> {
    items.iter().map(|s| s.to_string()).collect()
}

#[test]
fn kubectl_invocation_includes_context_namespace_and_kubeconfig_env() {
    let invocation = kubectl_invocation(&test_cluster(), Some("observability"), &strings(&["get", "pods", "-o", "json"]));

    assert_eq!(invocation.program, "kubectl");
    assert_eq!(invocation.kubeconfig_env.as_deref(), Some("/tmp/prod-kubeconfig"));
    assert_eq!(
        invocation.args,
        vec!["--context", "prod-context", "--namespace", "observability", "get", "pods", "-o", "json"]
    );
}

#[test]
fn kubectl_invocation_skips_blank_namespace() {
    let invocation = kubectl_invocation(&test_cluster(), Some("   "), &strings(&["get", "nodes"]));
    assert_eq!(invocation.args, vec!["--context", "prod-context", "get", "nodes"]);
}

#[test]
fn wireguard_show_output_detects_active_interface() {
    assert_eq!(wireguard_active_from_show_output(true, "interface: wg-prod0\n", ""), Ok(true));
    assert_eq!(wireguard_active_from_show_output(false, "", "Unable to access interface"), Ok(false));
}

#[test]
fn wireguard_show_output_reports_other_errors() {
    assert_eq!(wireguard_active_from_show_output(true, "  \n", ""), Ok(false));
    assert_eq!(
        wireguard_active_from_show_output(false, "", "  Operation not permitted\n"),
        Err("Operation not permitted".to_string())
    );
}

#[test]
fn context_name_parser_trims_blank_lines() {
    assert_eq!(parse_context_names("\nkind-loopbox\n  prod-eu  \n\n"), vec!["kind-loopbox", "prod-eu"]);
}

#[test]
fn import_kubernetes_clusters_adds_new_contexts_and_skips_duplicates() {
    let mut config = LoopboxConfig::default();
    config.global.kubernetes.clusters.push(KubernetesClusterConfig {
        name: "existing".to_string(),
        provider: KubernetesProvider::KubeconfigContext,
        kubeconfig_path: Some("/tmp/kube".to_string()),
        context: "prod".to_string(),
        default_namespace: "apps".to_string(),
        wireguard: None,
    });

    let added = import_kubernetes_clusters(
        &mut config,
        &vec![
            KubernetesClusterImport {
                name: None,
                provider: KubernetesProvider::KubeconfigContext,
                kubeconfig_path: Some("/tmp/kube".to_string()),
                context: "prod".to_string(),
                default_namespace: Some("apps".to_string()),
            },
            KubernetesClusterImport {
                name: None,
                provider: KubernetesProvider::KubeconfigContext,
                kubeconfig_path: Some("/tmp/local".to_string()),
                context: "kind-loopbox".to_string(),
                default_namespace: None,
            },
        ],
    )
    .expect("import should succeed");

    assert_eq!(added, 1);
    assert_eq!(config.global.kubernetes.clusters.len(), 2);
    let imported = &config.global.kubernetes.clusters[1];
    assert_eq!(imported.name, "kind-loopbox");
    assert_eq!(imported.context, "kind-loopbox");
    assert_eq!(imported.default_namespace, "default");
    assert_eq!(imported.kubeconfig_path.as_deref(), Some("/tmp/local"));
}

#[test]
fn importing_the_same_requests_twice_adds_nothing_more() {
    let mut config = LoopboxConfig::default();
    let imports = vec![KubernetesClusterImport {
        name: Some("  My Cluster!! ".to_string()),
        provider: KubernetesProvider::Remote,
        kubeconfig_path: Some("  /tmp/kube  ".to_string()),
        context: " ctx ".to_string(),
        default_namespace: Some("  ".to_string()),
    }];
    assert_eq!(import_kubernetes_clusters(&mut config, &imports), Ok(1));
    assert_eq!(config.global.kubernetes.clusters[0].name, "my-cluster");
    assert_eq!(config.global.kubernetes.clusters[0].kubeconfig_path.as_deref(), Some("/tmp/kube"));
    assert_eq!(config.global.kubernetes.clusters[0].context, "ctx");
    assert_eq!(config.global.kubernetes.clusters[0].default_namespace, "default");
    assert_eq!(import_kubernetes_clusters(&mut config, &imports), Ok(0));
    assert_eq!(config.global.kubernetes.clusters.len(), 1);
}

#[test]
fn cluster_names_are_normalized_and_made_unique() {
    assert_eq!(normalize_cluster_name("  Kind_Loopbox  "), "kind-loopbox");
    assert_eq!(normalize_cluster_name("---"), "cluster");
    let mut config = LoopboxConfig::default();
    config.global.kubernetes.clusters.push(KubernetesClusterConfig {
        name: "kind".to_string(),
        provider: KubernetesProvider::KubeconfigContext,
        kubeconfig_path: None,
        context: "kind".to_string(),
        default_namespace: "default".to_string(),
        wireguard: None,
    });
    let taken = vec!["kind-2".to_string()];
    assert_eq!(unique_cluster_name(&config.global.kubernetes.clusters, &taken, "kind"), "kind-3");
    assert_eq!(unique_cluster_name(&config.global.kubernetes.clusters, &taken, "other"), "other");
}

#[test]
fn wireguard_commands_follow_tunnel_mode() {
    let mut config = LoopboxConfig::default();
    config.global.kubernetes.clusters.push(test_cluster());
    let cmd = start_cluster_wireguard(&config, "prod").expect("wg-quick up");
    assert_eq!(cmd.action, "up");
    assert_eq!(cmd.target, "/etc/wireguard/prod.conf");
    assert_eq!(
        start_cluster_wireguard(&config, "missing").unwrap_err(),
        "Kubernetes cluster 'missing' not found."
    );
    config.global.kubernetes.clusters[0].wireguard.as_mut().unwrap().mode = WireGuardMode::Manual;
    assert_eq!(
        start_cluster_wireguard(&config, "prod").unwrap_err(),
        "WireGuard tunnel 'prod-wg' is manual and cannot be controlled by Loopbox."
    );
    assert_eq!(wg_quick_outcome("up", false, " \n"), Err("wg-quick up exited with a non-zero status".to_string()));
}

#[test]
fn connectivity_reads_wg_show_outcome() {
    let cluster = test_cluster();
    assert_eq!(
        cluster_connectivity_state(&cluster, &Ok((true, "interface: wg-prod0".to_string(), String::new()))),
        KubernetesConnectivityState::Active
    );
    assert_eq!(
        cluster_connectivity_state(&cluster, &Err("not found".to_string())),
        KubernetesConnectivityState::Error("Failed to run wg: not found".to_string())
    );
    let mut bare = test_cluster();
    bare.wireguard = None;
    assert_eq!(cluster_connectivity_state(&bare, &Err(String::new())), KubernetesConnectivityState::NotConfigured);
}

fn workload(name: &str, ready: Option<u64>, desired: Option<u64>) -> KubernetesWorkloadSnapshot {
    KubernetesWorkloadSnapshot {
        kind: "deployment".to_string(),
        name: name.to_string(),
        namespace: "apps".to_string(),
        desired_replicas: desired,
        ready_replicas: ready,
        available_replicas: ready,
    }
}

fn pod(name: &str, owner: Option<&str>, phase: &str, labels: &[&str]) -> KubernetesPodSnapshot {
    KubernetesPodSnapshot {
        name: name.to_string(),
        namespace: "apps".to_string(),
        phase: phase.to_string(),
        ready_containers: 1,
        total_containers: 1,
        restart_count: 2,
        owner_kind: owner.map(|_| "ReplicaSet".to_string()),
        owner_name: owner.map(|o| o.to_string()),
        node_name: Some("node-a".to_string()),
        pod_ip: None,
        images: vec![],
        labels: strings(labels),
        warning_reason: None,
    }
}

fn service(name: &str, selector: &[&str]) -> KubernetesServiceSnapshot {
    KubernetesServiceSnapshot {
        name: name.to_string(),
        namespace: "apps".to_string(),
        service_type: "ClusterIP".to_string(),
        cluster_ip: None,
        ports: vec![],
        selector: strings(selector),
        external_ips: vec![],
        endpoint_count: 0,
        target_pods: vec![],
        ingress_routes: vec![],
    }
}

#[test]
fn topology_links_namespace_workloads_pods_services_and_ingresses() {
    let snapshot = KubernetesClusterSnapshot {
        name: "prod".to_string(),
        provider: KubernetesProvider::Remote,
        context: "prod-context".to_string(),
        default_namespace: "apps".to_string(),
        selected_namespace: "apps".to_string(),
        connectivity: KubernetesConnectivityState::NotConfigured,
        namespaces: vec![],
        workloads: vec![workload("api", Some(0), Some(2))],
        services: vec![KubernetesServiceSnapshot { target_pods: strings(&["api-1"]), endpoint_count: 1, ..service("api", &[]) }],
        nodes: vec![],
        pods: vec![pod("api-1", Some("api-7f9d"), "Running", &[]), pod("job-1", None, "Pending", &[])],
        ingresses: vec![KubernetesIngressSnapshot {
            name: "web".to_string(),
            namespace: "apps".to_string(),
            class_name: None,
            hosts: strings(&["app.example.test", "www.example.test"]),
            service_backends: strings(&["api"]),
            tls_hosts: vec![],
        }],
        endpoint_slices: vec![],
        events: vec![KubernetesEventSnapshot {
            namespace: "apps".to_string(),
            involved_kind: "Pod".to_string(),
            involved_name: "api-1".to_string(),
            event_type: "WARNING".to_string(),
            reason: "BackOff".to_string(),
            message: String::new(),
            count: 1,
            first_timestamp: None,
            last_timestamp: None,
        }],
        topology: KubernetesTopologySnapshot::default(),
        warnings: vec![],
        last_error: None,
    };
    let topology = build_kubernetes_topology(&snapshot);
    assert_eq!(topology.nodes.len(), 6);
    assert_eq!(topology.nodes[0].id, "namespace:apps");
    assert_eq!(topology.nodes[0].subtitle, "2 pod(s), 1 service(s)");
    assert_eq!(topology.nodes[0].badges, vec!["1 events"]);
    assert_eq!(topology.nodes[1].id, "workload:deployment:apps:api");
    assert_eq!(topology.nodes[1].status, "error");
    assert_eq!(topology.nodes[1].badges, vec!["0/2 ready"]);
    assert_eq!(topology.nodes[2].badges, vec!["1/1 ready", "2 restarts"]);
    assert_eq!(topology.nodes[3].status, "warning");
    assert_eq!(topology.nodes[5].subtitle, "app.example.test, www.example.test");
    let edges: Vec<(String, String, String)> =
        topology.edges.iter().map(|e| (e.from.clone(), e.to.clone(), e.kind.clone())).collect();
    assert_eq!(
        edges,
        vec![
            ("namespace:apps".to_string(), "workload:deployment:apps:api".to_string(), "contains".to_string()),
            ("workload:deployment:apps:api".to_string(), "pod:apps:api-1".to_string(), "owns".to_string()),
            ("namespace:apps".to_string(), "pod:apps:job-1".to_string(), "contains".to_string()),
            ("namespace:apps".to_string(), "service:apps:api".to_string(), "contains".to_string()),
            ("service:apps:api".to_string(), "pod:apps:api-1".to_string(), "targets".to_string()),
            ("namespace:apps".to_string(), "ingress:apps:web".to_string(), "contains".to_string()),
            ("ingress:apps:web".to_string(), "service:apps:api".to_string(), "routes".to_string()),
        ]
    );
}

#[test]
fn snapshot_collects_errors_enriches_services_and_draws_topology() {
    let mut config = LoopboxConfig::default();
    config.global.kubernetes.clusters.push(test_cluster());
    let fetch = ClusterFetch {
        namespaces: Err("forbidden".to_string()),
        nodes: Ok(vec![]),
        workloads: vec![
            WorkloadFetch { resource: "deployments".to_string(), result: Ok(vec![workload("api", Some(1), Some(1))]) },
            WorkloadFetch { resource: "jobs".to_string(), result: Err("no jobs".to_string()) },
        ],
        pods: Ok(vec![pod("api-b", Some("api-x"), "Running", &["app=api"]), pod("api-a", Some("api-x"), "Running", &["app=api"])]),
        services: Ok(vec![service("api", &["app=api"])]),
        endpoint_slices: Ok(vec![KubernetesEndpointSliceSnapshot {
            name: "api-1".to_string(),
            namespace: "apps".to_string(),
            service_name: Some("api".to_string()),
            ready_endpoints: 1,
            total_endpoints: 1,
            addresses: vec![],
            target_pods: strings(&["api-b"]),
        }]),
        ingresses: Ok(vec![]),
        events: Err("timeout".to_string()),
    };
    let snap = cluster_snapshot(&config, "prod", KubernetesConnectivityState::Inactive, fetch).expect("snapshot");
    assert_eq!(snap.selected_namespace, "apps");
    assert_eq!(snap.last_error.as_deref(), Some("forbidden"));
    assert_eq!(snap.warnings, vec!["jobs: no jobs", "events: timeout"]);
    assert_eq!(snap.services[0].target_pods, vec!["api-a", "api-b"]);
    assert_eq!(snap.services[0].endpoint_count, 2);
    assert_eq!(snap.topology.nodes.len(), 1 + 1 + 2 + 1);
    assert!(cluster_snapshot(&config, "nope", KubernetesConnectivityState::Inactive, ClusterFetch {
        namespaces: Ok(vec![]),
        nodes: Ok(vec![]),
        workloads: vec![],
        pods: Ok(vec![]),
        services: Ok(vec![]),
        endpoint_slices: Ok(vec![]),
        ingresses: Ok(vec![]),
        events: Ok(vec![]),
    })
    .is_err());
}

#[test]
fn wireguard_interface_falls_back_to_the_config_file_stem() {
    let with_path = |path: &str| {
        let mut cluster = test_cluster();
        if let Some(w) = cluster.wireguard.as_mut() {
            w.interface = None;
            w.config_path = Some(path.to_string());
        }
        wireguard_probe_interface(&cluster)
    };
    assert_eq!(wireguard_probe_interface(&test_cluster()).as_deref(), Some("wg-prod0"));
    assert_eq!(with_path("/etc/wireguard/prod.conf").as_deref(), Some("prod"));
    assert_eq!(with_path("tunnels/wg0.tar.conf/").as_deref(), Some("wg0.tar"));
    assert_eq!(with_path("/etc/.hidden").as_deref(), Some(".hidden"));
    assert_eq!(with_path("/etc/wg/./").as_deref(), Some("wg"));
    assert_eq!(with_path("/etc/wireguard/.."), None);
    assert_eq!(with_path("/"), None);
}
