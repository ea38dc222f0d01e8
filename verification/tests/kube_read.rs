use loopbox::kube_read::{
    parse_endpoint_slice_snapshots, parse_event_snapshots, parse_ingress_snapshots,
    parse_namespace_names, parse_node_snapshots, parse_pod_snapshots, parse_pod_snapshots_checked,
    parse_service_snapshots, parse_workload_snapshots, sort_dedup, sort_strings,
};

#[test]
fn parse_namespace_names_reads_kubectl_json_items() {
    let namespaces = parse_namespace_names(
        r#"{
          "items": [
            { "metadata": { "name": "default" } },
            { "metadata": { "name": "apps" } }
          ]
        }"#,
    )
    .expect("namespaces should parse");

    assert_eq!(namespaces, vec!["default", "apps"]);
}

#[test]
fn parse_workload_snapshots_reads_deployment_readiness() {
    let workloads = parse_workload_snapshots(
        "deployment",
        r#"{
          "items": [
            {
              "metadata": { "name": "api", "namespace": "apps" },
              "spec": { "replicas": 3 },
              "status": { "readyReplicas": 2, "availableReplicas": 1 }
            }
          ]
        }"#,
    )
    .expect("workloads should parse");

    assert_eq!(workloads.len(), 1);
    assert_eq!(workloads[0].kind, "deployment");
    assert_eq!(workloads[0].name, "api");
    assert_eq!(workloads[0].namespace, "apps");
    assert_eq!(workloads[0].desired_replicas, Some(3));
    assert_eq!(workloads[0].ready_replicas, Some(2));
    assert_eq!(workloads[0].available_replicas, Some(1));
}

#[test]
fn parse_service_snapshots_reads_cluster_ips_and_ports() {
    let services = parse_service_snapshots(
        r#"{
          "items": [
            {
              "metadata": { "name": "api", "namespace": "apps" },
              "spec": {
                "type": "ClusterIP",
                "clusterIP": "10.43.10.20",
                "ports": [
                  { "name": "http", "port": 80, "targetPort": 8080, "protocol": "TCP" }
                ]
              }
            }
          ]
        }"#,
    )
    .expect("services should parse");

    assert_eq!(services.len(), 1);
    assert_eq!(services[0].name, "api");
    assert_eq!(services[0].namespace, "apps");
    assert_eq!(services[0].service_type, "ClusterIP");
    assert_eq!(services[0].cluster_ip.as_deref(), Some("10.43.10.20"));
    assert_eq!(services[0].ports, vec!["http:80->8080/TCP"]);
}

#[test]
fn parse_pod_snapshots_reads_readiness_restarts_owner_and_images() {
    let pods = parse_pod_snapshots(
        r#"{
          "items": [{
            "metadata": {
              "name": "api-7f9d",
              "namespace": "apps",
              "labels": { "app": "api" },
              "ownerReferences": [{ "kind": "ReplicaSet", "name": "api-7f9d" }]
            },
            "spec": {
              "nodeName": "node-a",
              "containers": [{ "image": "ghcr.io/acme/api:v1" }, { "image": "sidecar:v2" }]
            },
            "status": {
              "phase": "Running",
              "podIP": "10.1.0.15",
              "containerStatuses": [
                { "ready": true, "restartCount": 1 },
                { "ready": false, "restartCount": 2, "state": { "waiting": { "reason": "CrashLoopBackOff" } } }
              ]
            }
          }]
        }"#,
    )
    .expect("pods should parse");

    assert_eq!(pods.len(), 1);
    assert_eq!(pods[0].ready_containers, 1);
    assert_eq!(pods[0].total_containers, 2);
    assert_eq!(pods[0].restart_count, 3);
    assert_eq!(pods[0].owner_kind.as_deref(), Some("ReplicaSet"));
    assert_eq!(pods[0].node_name.as_deref(), Some("node-a"));
    assert_eq!(pods[0].warning_reason.as_deref(), Some("CrashLoopBackOff"));
    assert_eq!(pods[0].labels, vec!["app=api"]);
}

#[test]
fn parse_node_snapshots_reads_ready_condition_addresses_and_allocatable() {
    let nodes = parse_node_snapshots(
        r#"{
          "items": [{
            "metadata": {
              "name": "node-a",
              "labels": { "node-role.kubernetes.io/control-plane": "" }
            },
            "spec": { "taints": [{ "key": "node-role.kubernetes.io/control-plane", "effect": "NoSchedule" }] },
            "status": {
              "nodeInfo": { "kubeletVersion": "v1.30.0" },
              "allocatable": { "cpu": "4", "memory": "8123456Ki", "pods": "110" },
              "addresses": [
                { "type": "InternalIP", "address": "192.168.64.2" },
                { "type": "ExternalIP", "address": "203.0.113.10" }
              ],
              "conditions": [{ "type": "Ready", "status": "True" }]
            }
          }]
        }"#,
    )
    .expect("nodes should parse");

    assert_eq!(nodes.len(), 1);
    assert!(nodes[0].ready);
    assert_eq!(nodes[0].roles, vec!["control-plane"]);
    assert_eq!(nodes[0].internal_ip.as_deref(), Some("192.168.64.2"));
    assert_eq!(nodes[0].allocatable_cpu.as_deref(), Some("4"));
    assert_eq!(
        nodes[0].taints,
        vec!["node-role.kubernetes.io/control-plane=NoSchedule"]
    );
}

#[test]
fn parse_ingress_endpoint_slice_and_events_feed_diagnosis() {
    let ingresses = parse_ingress_snapshots(
        r#"{
          "items": [{
            "metadata": { "name": "web", "namespace": "apps" },
            "spec": {
              "ingressClassName": "nginx",
              "tls": [{ "hosts": ["app.example.test"] }],
              "rules": [{
                "host": "app.example.test",
                "http": { "paths": [{ "backend": { "service": { "name": "api" } } }] }
              }]
            }
          }]
        }"#,
    )
    .expect("ingress should parse");
    assert_eq!(ingresses[0].hosts, vec!["app.example.test"]);
    assert_eq!(ingresses[0].service_backends, vec!["api"]);

    let slices = parse_endpoint_slice_snapshots(
        r#"{
          "items": [{
            "metadata": {
              "name": "api-abc",
              "namespace": "apps",
              "labels": { "kubernetes.io/service-name": "api" }
            },
            "endpoints": [{
              "addresses": ["10.1.0.15"],
              "conditions": { "ready": true },
              "targetRef": { "kind": "Pod", "name": "api-7f9d" }
            }]
          }]
        }"#,
    )
    .expect("endpoint slices should parse");
    assert_eq!(slices[0].service_name.as_deref(), Some("api"));
    assert_eq!(slices[0].ready_endpoints, 1);
    assert_eq!(slices[0].target_pods, vec!["api-7f9d"]);

    let events = parse_event_snapshots(
        r#"{
          "items": [{
            "metadata": { "namespace": "apps" },
            "involvedObject": { "kind": "Pod", "name": "api-7f9d", "namespace": "apps" },
            "type": "Warning",
            "reason": "BackOff",
            "message": "Back-off restarting failed container",
            "count": 4,
            "lastTimestamp": "2026-05-12T10:00:00Z"
          }]
        }"#,
    )
    .expect("events should parse");
    assert_eq!(events[0].event_type, "Warning");
    assert_eq!(events[0].reason, "BackOff");
    assert_eq!(events[0].count, 4);
}

#[test]
fn invalid_kubectl_output_is_reported_with_its_error() {
    let err = parse_namespace_names("not json").unwrap_err();
    assert!(err.starts_with("Invalid kubectl JSON: "));
    assert!(err.len() > "Invalid kubectl JSON: ".len());
}

#[test]
fn items_without_names_are_skipped_and_defaults_apply() {
    let workloads = parse_workload_snapshots(
        "statefulset",
        r#"{ "items": [ { "spec": {} }, { "metadata": { "name": "db" } } ] }"#,
    )
    .unwrap();
    assert_eq!(workloads.len(), 1);
    assert_eq!(workloads[0].name, "db");
    assert_eq!(workloads[0].namespace, "default");
    assert_eq!(workloads[0].desired_replicas, Some(1));
    assert_eq!(workloads[0].ready_replicas, None);

    let none = parse_namespace_names(r#"{ "kind": "List" }"#).unwrap();
    assert!(none.is_empty());
}

#[test]
fn service_ports_labels_and_external_addresses() {
    let services = parse_service_snapshots(
        r#"{ "items": [ {
            "metadata": { "name": "lb" },
            "spec": {
              "clusterIP": "None",
              "ports": [ { "port": 443, "targetPort": "https" }, { "port": 53, "protocol": "UDP" }, { "name": "x" } ],
              "selector": { "tier": "web", "app": "lb" },
              "externalIPs": ["203.0.113.9", "198.51.100.1"]
            },
            "status": { "loadBalancer": { "ingress": [ { "hostname": "lb.example.test" }, { "ip": "203.0.113.9" } ] } }
        } ] }"#,
    )
    .unwrap();
    let s = &services[0];
    assert_eq!(s.service_type, "ClusterIP");
    assert_eq!(s.cluster_ip, None);
    assert_eq!(s.ports, vec!["443->https/TCP", "53->53/UDP"]);
    assert_eq!(s.selector, vec!["app=lb", "tier=web"]);
    assert_eq!(s.external_ips, vec!["198.51.100.1", "203.0.113.9", "lb.example.test"]);
    assert_eq!(s.endpoint_count, 0);
}

#[test]
fn node_without_roles_is_a_worker_and_events_fall_back() {
    let nodes = parse_node_snapshots(
        r#"{ "items": [ { "metadata": { "name": "n1", "labels": { "kubernetes.io/os": "linux" } },
            "spec": { "taints": [ { "key": "gpu" }, { "effect": "NoExecute" } ] },
            "status": { "conditions": [ { "type": "Ready", "status": "False" } ] } } ] }"#,
    )
    .unwrap();
    assert!(!nodes[0].ready);
    assert_eq!(nodes[0].roles, vec!["worker"]);
    assert_eq!(nodes[0].taints, vec!["gpu=NoSchedule"]);
    assert_eq!(nodes[0].internal_ip, None);

    let events = parse_event_snapshots(
        r#"{ "items": [
            { "regarding": { "kind": "Node", "name": "n1" }, "note": "rebooted", "eventTime": "2026-01-01T00:00:00Z" },
            { "involvedObject": { "kind": "Pod" } }
        ] }"#,
    )
    .unwrap();
    assert_eq!(events.len(), 1);
    assert_eq!(events[0].namespace, "default");
    assert_eq!(events[0].involved_kind, "Node");
    assert_eq!(events[0].event_type, "Normal");
    assert_eq!(events[0].reason, "Unknown");
    assert_eq!(events[0].message, "rebooted");
    assert_eq!(events[0].count, 1);
    assert_eq!(events[0].first_timestamp.as_deref(), Some("2026-01-01T00:00:00Z"));
    assert_eq!(events[0].last_timestamp.as_deref(), Some("2026-01-01T00:00:00Z"));
}

#[test]
fn pods_whose_restart_counts_overflow_are_refused_by_the_checked_reader() {
    let text = r#"{ "items": [ { "metadata": { "name": "p" }, "status": { "containerStatuses": [
        { "restartCount": 18446744073709551615 }, { "restartCount": 1 } ] } } ] }"#;
    assert!(parse_pod_snapshots_checked(text).is_none());
    let ok = parse_pod_snapshots_checked(r#"{ "items": [] }"#).unwrap().unwrap();
    assert!(ok.is_empty());
}

#[test]
fn string_lists_are_sorted_with_and_without_repeats() {
    let input = vec!["b".to_string(), "a".to_string(), "b".to_string()];
    assert_eq!(sort_strings(input.clone()), vec!["a", "b", "b"]);
    assert_eq!(sort_dedup(input), vec!["a", "b"]);
}
