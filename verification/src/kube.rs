//! Kubernetes clusters: the snapshot model that kubectl output is read into,
//! the topology graph drawn from a snapshot, how clusters are imported and
//! named, and the decisions around kubectl and WireGuard tunnels.

use vstd::prelude::*;
use crate::config::{
    KubernetesClusterConfig, KubernetesProvider, LoopboxConfig, WireGuardMode, WireGuardTunnelConfig,
};
use crate::routes::opt_view;
use crate::proto::{insert_sorted, sorted_strict};
use crate::config::{key_lt, key_lt_chars, lemma_key_lt_total, lemma_key_lt_transitive, lemma_key_lt_irreflexive};
use crate::text::{
    ascii_lower, ascii_lower_chars, chars_of, contains_str, contains_sub, dec_chars,
    is_ascii_alnum, is_ascii_alnum_char, join, join_chars, lines, lines_chars, lower_ascii,
    lower_ascii_char, starts_with, starts_with_chars, str_eq_chars, str_views, string_of,
    trim, trim_char, trim_char_chars, trim_chars, trim_str, u64_chars, views, split_char_chars,
    split_pred, is_char, copy_range,
};

verus! {

/// Whether the WireGuard tunnel of a cluster is up.
#[derive(Debug, Clone, PartialEq, Eq)]
pub enum KubernetesConnectivityState {
    NotConfigured,
    Active,
    Inactive,
    Error(String),
}

#[derive(Debug, Clone, PartialEq, Eq)]
pub struct KubernetesNamespaceSnapshot {
    pub name: String,
}

#[derive(Debug, Clone, PartialEq, Eq)]
pub struct KubernetesWorkloadSnapshot {
    pub kind: String,
    pub name: String,
    pub namespace: String,
    pub desired_replicas: Option<u64>,
    pub ready_replicas: Option<u64>,
    pub available_replicas: Option<u64>,
}

#[derive(Debug, Clone, PartialEq, Eq)]
pub struct KubernetesServiceSnapshot {
    pub name: String,
    pub namespace: String,
    pub service_type: String,
    pub cluster_ip: Option<String>,
    pub ports: Vec<String>,
    pub selector: Vec<String>,
    pub external_ips: Vec<String>,
    pub endpoint_count: u64,
    pub target_pods: Vec<String>,
    pub ingress_routes: Vec<String>,
}

#[derive(Debug, Clone, PartialEq, Eq)]
pub struct KubernetesNodeSnapshot {
    pub name: String,
    pub ready: bool,
    pub roles: Vec<String>,
    pub kubernetes_version: Option<String>,
    pub internal_ip: Option<String>,
    pub external_ip: Option<String>,
    pub allocatable_cpu: Option<String>,
    pub allocatable_memory: Option<String>,
    pub allocatable_pods: Option<String>,
    pub taints: Vec<String>,
}

#[derive(Debug, Clone, PartialEq, Eq)]
pub struct KubernetesPodSnapshot {
    pub name: String,
    pub namespace: String,
    pub phase: String,
    pub ready_containers: u64,
    pub total_containers: u64,
    pub restart_count: u64,
    pub owner_kind: Option<String>,
    pub owner_name: Option<String>,
    pub node_name: Option<String>,
    pub pod_ip: Option<String>,
    pub images: Vec<String>,
    pub labels: Vec<String>,
    pub warning_reason: Option<String>,
}

#[derive(Debug, Clone, PartialEq, Eq)]
pub struct KubernetesIngressSnapshot {
    pub name: String,
    pub namespace: String,
    pub class_name: Option<String>,
    pub hosts: Vec<String>,
    pub service_backends: Vec<String>,
    pub tls_hosts: Vec<String>,
}

#[derive(Debug, Clone, PartialEq, Eq)]
pub struct KubernetesEndpointSliceSnapshot {
    pub name: String,
    pub namespace: String,
    pub service_name: Option<String>,
    pub ready_endpoints: u64,
    pub total_endpoints: u64,
    pub addresses: Vec<String>,
    pub target_pods: Vec<String>,
}

#[derive(Debug, Clone, PartialEq, Eq)]
pub struct KubernetesEventSnapshot {
    pub namespace: String,
    pub involved_kind: String,
    pub involved_name: String,
    pub event_type: String,
    pub reason: String,
    pub message: String,
    pub count: u64,
    pub first_timestamp: Option<String>,
    pub last_timestamp: Option<String>,
}

/// A box of the topology graph.
#[derive(Debug, Clone, PartialEq, Eq)]
pub struct KubernetesTopologyNode {
    pub id: String,
    pub kind: String,
    pub label: String,
    pub subtitle: String,
    pub status: String,
    pub badges: Vec<String>,
    pub column: usize,
    pub row: usize,
}

/// An arrow of the topology graph.
#[derive(Debug, Clone, PartialEq, Eq)]
pub struct KubernetesTopologyEdge {
    pub from: String,
    pub to: String,
    pub kind: String,
    pub label: String,
    pub status: String,
}

#[derive(Debug, Clone, PartialEq, Eq)]
pub struct KubernetesTopologySnapshot {
    pub nodes: Vec<KubernetesTopologyNode>,
    pub edges: Vec<KubernetesTopologyEdge>,
}

impl Default for KubernetesTopologySnapshot {
    fn default() -> (r: Self)
        ensures
            r.nodes@.len() == 0,
            r.edges@.len() == 0,
    {
        KubernetesTopologySnapshot { nodes: Vec::new(), edges: Vec::new() }
    }
}

/// Everything read from one cluster for one namespace.
#[derive(Debug, Clone, PartialEq, Eq)]
pub struct KubernetesClusterSnapshot {
    pub name: String,
    pub provider: KubernetesProvider,
    pub context: String,
    pub default_namespace: String,
    pub selected_namespace: String,
    pub connectivity: KubernetesConnectivityState,
    pub namespaces: Vec<KubernetesNamespaceSnapshot>,
    pub workloads: Vec<KubernetesWorkloadSnapshot>,
    pub services: Vec<KubernetesServiceSnapshot>,
    pub nodes: Vec<KubernetesNodeSnapshot>,
    pub pods: Vec<KubernetesPodSnapshot>,
    pub ingresses: Vec<KubernetesIngressSnapshot>,
    pub endpoint_slices: Vec<KubernetesEndpointSliceSnapshot>,
    pub events: Vec<KubernetesEventSnapshot>,
    pub topology: KubernetesTopologySnapshot,
    pub warnings: Vec<String>,
    pub last_error: Option<String>,
}

/// A kubeconfig context found on this machine.
#[derive(Debug, Clone, PartialEq, Eq)]
pub struct KubernetesClusterDiscovery {
    pub name: String,
    pub provider: KubernetesProvider,
    pub kubeconfig_path: Option<String>,
    pub context: String,
    pub default_namespace: String,
    pub already_configured: bool,
    pub reachable: bool,
    pub error: Option<String>,
}

/// A request to add a cluster to the configuration.
#[derive(Debug, Clone, PartialEq, Eq)]
pub struct KubernetesClusterImport {
    pub name: Option<String>,
    pub provider: KubernetesProvider,
    pub kubeconfig_path: Option<String>,
    pub context: String,
    pub default_namespace: Option<String>,
}

/// A kubectl command line: the program, its arguments and the kubeconfig
/// file to point `KUBECONFIG` at.
#[derive(Debug, Clone, PartialEq, Eq)]
pub struct KubectlInvocation {
    pub program: String,
    pub args: Vec<String>,
    pub kubeconfig_env: Option<String>,
}

// ---------------------------------------------------------------------------
// Text helpers
// ---------------------------------------------------------------------------

/// `s` followed by `t`.
pub(crate) fn cat(s: &str, t: &str) -> (r: String)
    ensures
        r@ == s@ + t@,
{
    let mut r = s.to_owned();
    r.append(t);
    r
}

/// The decimal text of `n`.
pub(crate) fn dec_string(n: u64) -> (r: String)
    ensures
        r@ == dec_chars(n as nat),
{
    string_of(&u64_chars(n))
}


/// A stored copy of a string list.
fn clone_strings(v: &Vec<String>) -> (r: Vec<String>)
    ensures
        r@ == v@,
{
    let mut r: Vec<String> = Vec::new();
    let mut i: usize = 0;
    while i < v.len()
        invariant
            i <= v.len(),
            r@ == v@.take(i as int),
        decreases v.len() - i,
    {
        r.push(v[i].clone());
        assert(r@ =~= v@.take(i + 1));
        i = i + 1;
    }
    assert(v@.take(v.len() as int) =~= v@);
    r
}

// ---------------------------------------------------------------------------
// Topology: what the graph holds
// ---------------------------------------------------------------------------

/// A topology box as plain values.
pub struct TopologyNodeView {
    pub id: Seq<char>,
    pub kind: Seq<char>,
    pub label: Seq<char>,
    pub subtitle: Seq<char>,
    pub status: Seq<char>,
    pub badges: Seq<Seq<char>>,
    pub column: usize,
    pub row: usize,
}

impl View for KubernetesTopologyNode {
    type V = TopologyNodeView;

    open spec fn view(&self) -> TopologyNodeView {
        TopologyNodeView {
            id: self.id@,
            kind: self.kind@,
            label: self.label@,
            subtitle: self.subtitle@,
            status: self.status@,
            badges: str_views(self.badges@),
            column: self.column,
            row: self.row,
        }
    }
}

/// A topology arrow as plain values.
pub struct TopologyEdgeView {
    pub from: Seq<char>,
    pub to: Seq<char>,
    pub kind: Seq<char>,
    pub label: Seq<char>,
    pub status: Seq<char>,
}

impl View for KubernetesTopologyEdge {
    type V = TopologyEdgeView;

    open spec fn view(&self) -> TopologyEdgeView {
        TopologyEdgeView {
            from: self.from@,
            to: self.to@,
            kind: self.kind@,
            label: self.label@,
            status: self.status@,
        }
    }
}

pub open spec fn node_views(v: Seq<KubernetesTopologyNode>) -> Seq<TopologyNodeView> {
    v.map_values(|n: KubernetesTopologyNode| n@)
}

pub open spec fn edge_views(v: Seq<KubernetesTopologyEdge>) -> Seq<TopologyEdgeView> {
    v.map_values(|e: KubernetesTopologyEdge| e@)
}

pub open spec fn namespace_node_id(ns: Seq<char>) -> Seq<char> {
    "namespace:"@ + ns
}

pub open spec fn workload_node_id(w: KubernetesWorkloadSnapshot) -> Seq<char> {
    "workload:"@ + w.kind@ + ":"@ + w.namespace@ + ":"@ + w.name@
}

pub open spec fn pod_node_id(ns: Seq<char>, name: Seq<char>) -> Seq<char> {
    "pod:"@ + ns + ":"@ + name
}

pub open spec fn service_node_id(ns: Seq<char>, name: Seq<char>) -> Seq<char> {
    "service:"@ + ns + ":"@ + name
}

pub open spec fn ingress_node_id(ns: Seq<char>, name: Seq<char>) -> Seq<char> {
    "ingress:"@ + ns + ":"@ + name
}

/// An event whose type is "warning", in any letter case.
pub open spec fn is_warning_event(e: KubernetesEventSnapshot) -> bool {
    ascii_lower(e.event_type@) == "warning"@
}

pub open spec fn warning_event_count(events: Seq<KubernetesEventSnapshot>) -> nat
    decreases events.len(),
{
    if events.len() == 0 {
        0
    } else {
        warning_event_count(events.drop_last()) + if is_warning_event(events.last()) {
            1nat
        } else {
            0nat
        }
    }
}

/// A replica count, or "n/a" when unknown.
pub open spec fn count_text(v: Option<u64>) -> Seq<char> {
    match v {
        Some(n) => dec_chars(n as nat),
        None => "n/a"@,
    }
}

/// "ready/desired ready".
pub open spec fn workload_ready_label(w: KubernetesWorkloadSnapshot) -> Seq<char> {
    count_text(w.ready_replicas) + "/"@ + count_text(w.desired_replicas) + " ready"@
}

/// No replica ready of a wanted set is an error, fewer than wanted a warning.
pub open spec fn workload_status(w: KubernetesWorkloadSnapshot) -> Seq<char> {
    match (w.ready_replicas, w.desired_replicas) {
        (Some(ready), Some(desired)) => if desired > 0 && ready == 0 {
            "error"@
        } else if ready < desired {
            "warning"@
        } else {
            "healthy"@
        },
        _ => "healthy"@,
    }
}

/// A failed pod or one with a warning is an error; one not running or not
/// fully ready a warning.
pub open spec fn pod_status(p: KubernetesPodSnapshot) -> Seq<char> {
    if p.phase@ == "Failed"@ || p.warning_reason is Some {
        "error"@
    } else if p.phase@ != "Running"@ || p.ready_containers < p.total_containers {
        "warning"@
    } else {
        "healthy"@
    }
}

/// The workload is in the pod's namespace and the pod's owner is named by it
/// or after it.
pub open spec fn owns_pod(w: KubernetesWorkloadSnapshot, p: KubernetesPodSnapshot) -> bool {
    &&& p.owner_name is Some
    &&& w.namespace@ == p.namespace@
    &&& (w.name@ == p.owner_name.unwrap()@ || starts_with(p.owner_name.unwrap()@, w.name@))
}

/// The first workload that owns the pod.
pub open spec fn pod_owner_index(ws: Seq<KubernetesWorkloadSnapshot>, p: KubernetesPodSnapshot) -> Option<int> {
    if exists|k: int| 0 <= k < ws.len() && owns_pod(ws[k], p) && forall|j: int| 0 <= j < k ==> !owns_pod(#[trigger] ws[j], p) {
        Some(choose|k: int| 0 <= k < ws.len() && owns_pod(ws[k], p) && forall|j: int| 0 <= j < k ==> !owns_pod(#[trigger] ws[j], p))
    } else {
        None
    }
}

pub open spec fn namespace_node(s: KubernetesClusterSnapshot) -> TopologyNodeView {
    TopologyNodeView {
        id: namespace_node_id(s.selected_namespace@),
        kind: "namespace"@,
        label: s.selected_namespace@,
        subtitle: dec_chars(s.pods@.len()) + " pod(s), "@ + dec_chars(s.services@.len()) + " service(s)"@,
        status: if s.warnings@.len() == 0 { "healthy"@ } else { "warning"@ },
        badges: seq![dec_chars(warning_event_count(s.events@)) + " events"@],
        column: 0,
        row: 0,
    }
}

pub open spec fn workload_node(w: KubernetesWorkloadSnapshot, row: int) -> TopologyNodeView {
    TopologyNodeView {
        id: workload_node_id(w),
        kind: "workload"@,
        label: w.name@,
        subtitle: w.kind@ + " - "@ + w.namespace@,
        status: workload_status(w),
        badges: seq![workload_ready_label(w)],
        column: 1,
        row: row as usize,
    }
}

pub open spec fn pod_node(p: KubernetesPodSnapshot, row: int) -> TopologyNodeView {
    TopologyNodeView {
        id: pod_node_id(p.namespace@, p.name@),
        kind: "pod"@,
        label: p.name@,
        subtitle: match p.node_name {
            Some(n) => n@,
            None => p.phase@,
        },
        status: pod_status(p),
        badges: seq![
            dec_chars(p.ready_containers as nat) + "/"@ + dec_chars(p.total_containers as nat) + " ready"@,
            dec_chars(p.restart_count as nat) + " restarts"@,
        ],
        column: 2,
        row: row as usize,
    }
}

pub open spec fn service_node(sv: KubernetesServiceSnapshot, row: int) -> TopologyNodeView {
    TopologyNodeView {
        id: service_node_id(sv.namespace@, sv.name@),
        kind: "service"@,
        label: sv.name@,
        subtitle: sv.service_type@ + " - "@ + sv.namespace@,
        status: if sv.endpoint_count == 0 { "warning"@ } else { "healthy"@ },
        badges: seq![dec_chars(sv.endpoint_count as nat) + " endpoint(s)"@],
        column: 3,
        row: row as usize,
    }
}

pub open spec fn ingress_node(g: KubernetesIngressSnapshot, row: int) -> TopologyNodeView {
    TopologyNodeView {
        id: ingress_node_id(g.namespace@, g.name@),
        kind: "ingress"@,
        label: g.name@,
        subtitle: join(str_views(g.hosts@), ", "@),
        status: "healthy"@,
        badges: str_views(g.service_backends@),
        column: 4,
        row: row as usize,
    }
}

/// The boxes: the namespace, then workloads, pods, services and ingresses,
/// each kind in a column of its own, in the order of the snapshot.
pub open spec fn topology_nodes(s: KubernetesClusterSnapshot) -> Seq<TopologyNodeView> {
    seq![namespace_node(s)]
        + Seq::new(s.workloads@.len(), |i: int| workload_node(s.workloads@[i], i))
        + Seq::new(s.pods@.len(), |i: int| pod_node(s.pods@[i], i))
        + Seq::new(s.services@.len(), |i: int| service_node(s.services@[i], i))
        + Seq::new(s.ingresses@.len(), |i: int| ingress_node(s.ingresses@[i], i))
}

pub open spec fn edge_of(from: Seq<char>, to: Seq<char>, kind: Seq<char>, status: Seq<char>) -> TopologyEdgeView {
    TopologyEdgeView { from, to, kind, label: kind, status }
}

pub open spec fn workload_edge(ns_id: Seq<char>, w: KubernetesWorkloadSnapshot) -> TopologyEdgeView {
    edge_of(ns_id, workload_node_id(w), "contains"@, "normal"@)
}

/// A pod hangs under its owning workload, else under the namespace.
pub open spec fn pod_edge(s: KubernetesClusterSnapshot, p: KubernetesPodSnapshot) -> TopologyEdgeView {
    match pod_owner_index(s.workloads@, p) {
        Some(k) => edge_of(workload_node_id(s.workloads@[k]), pod_node_id(p.namespace@, p.name@), "owns"@, pod_status(p)),
        None => edge_of(namespace_node_id(s.selected_namespace@), pod_node_id(p.namespace@, p.name@), "contains"@, pod_status(p)),
    }
}

pub open spec fn service_edges(ns_id: Seq<char>, sv: KubernetesServiceSnapshot) -> Seq<TopologyEdgeView> {
    seq![edge_of(ns_id, service_node_id(sv.namespace@, sv.name@), "contains"@, "normal"@)]
        + sv.target_pods@.map_values(|t: String| edge_of(service_node_id(sv.namespace@, sv.name@), pod_node_id(sv.namespace@, t@), "targets"@, "normal"@))
}

pub open spec fn all_service_edges(ns_id: Seq<char>, svs: Seq<KubernetesServiceSnapshot>) -> Seq<TopologyEdgeView>
    decreases svs.len(),
{
    if svs.len() == 0 {
        seq![]
    } else {
        all_service_edges(ns_id, svs.drop_last()) + service_edges(ns_id, svs.last())
    }
}

pub open spec fn ingress_edges(ns_id: Seq<char>, g: KubernetesIngressSnapshot) -> Seq<TopologyEdgeView> {
    seq![edge_of(ns_id, ingress_node_id(g.namespace@, g.name@), "contains"@, "normal"@)]
        + g.service_backends@.map_values(|b: String| edge_of(ingress_node_id(g.namespace@, g.name@), service_node_id(g.namespace@, b@), "routes"@, "normal"@))
}

pub open spec fn all_ingress_edges(ns_id: Seq<char>, gs: Seq<KubernetesIngressSnapshot>) -> Seq<TopologyEdgeView>
    decreases gs.len(),
{
    if gs.len() == 0 {
        seq![]
    } else {
        all_ingress_edges(ns_id, gs.drop_last()) + ingress_edges(ns_id, gs.last())
    }
}

/// The arrows: the namespace contains each workload; each pod hangs under
/// its owner or the namespace; each service and ingress hangs under the
/// namespace and points at the pods it targets and the services it routes to.
pub open spec fn topology_edges(s: KubernetesClusterSnapshot) -> Seq<TopologyEdgeView> {
    let ns_id = namespace_node_id(s.selected_namespace@);
    Seq::new(s.workloads@.len(), |i: int| workload_edge(ns_id, s.workloads@[i]))
        + Seq::new(s.pods@.len(), |i: int| pod_edge(s, s.pods@[i]))
        + all_service_edges(ns_id, s.services@)
        + all_ingress_edges(ns_id, s.ingresses@)
}


// ---------------------------------------------------------------------------
// Topology: building the graph
// ---------------------------------------------------------------------------

proof fn lemma_node_views_add(a: Seq<KubernetesTopologyNode>, b: Seq<KubernetesTopologyNode>)
    ensures
        node_views(a + b) == node_views(a) + node_views(b),
{
    assert(node_views(a + b) =~= node_views(a) + node_views(b));
}

proof fn lemma_edge_views_add(a: Seq<KubernetesTopologyEdge>, b: Seq<KubernetesTopologyEdge>)
    ensures
        edge_views(a + b) == edge_views(a) + edge_views(b),
{
    assert(edge_views(a + b) =~= edge_views(a) + edge_views(b));
}

proof fn lemma_node_views_push(a: Seq<KubernetesTopologyNode>, x: KubernetesTopologyNode)
    ensures
        node_views(a.push(x)) == node_views(a).push(x@),
{
    assert(node_views(a.push(x)) =~= node_views(a).push(x@));
}

proof fn lemma_edge_views_push(a: Seq<KubernetesTopologyEdge>, x: KubernetesTopologyEdge)
    ensures
        edge_views(a.push(x)) == edge_views(a).push(x@),
{
    assert(edge_views(a.push(x)) =~= edge_views(a).push(x@));
}

fn namespace_id(ns: &str) -> (r: String)
    ensures
        r@ == namespace_node_id(ns@),
{
    cat("namespace:", ns)
}

fn workload_id(w: &KubernetesWorkloadSnapshot) -> (r: String)
    ensures
        r@ == workload_node_id(*w),
{
    let mut r = "workload:".to_owned();
    r.append(w.kind.as_str());
    r.append(":");
    r.append(w.namespace.as_str());
    r.append(":");
    r.append(w.name.as_str());
    r
}

/// `prefix`, the namespace, a colon and the name.
fn scoped_id(prefix: &str, ns: &str, name: &str) -> (r: String)
    ensures
        r@ == prefix@ + ns@ + ":"@ + name@,
{
    let mut r = prefix.to_owned();
    r.append(ns);
    r.append(":");
    r.append(name);
    r
}

fn count_warning_events(events: &Vec<KubernetesEventSnapshot>) -> (n: usize)
    ensures
        n == warning_event_count(events@),
{
    let mut n: usize = 0;
    let mut i: usize = 0;
    while i < events.len()
        invariant
            i <= events.len(),
            n <= i,
            n == warning_event_count(events@.take(i as int)),
        decreases events.len() - i,
    {
        assert(events@.take(i + 1).drop_last() =~= events@.take(i as int));
        let lowered = ascii_lower_chars(&chars_of(events[i].event_type.as_str()));
        if str_eq_chars("warning", &lowered) {
            n = n + 1;
        }
        i = i + 1;
    }
    assert(events@.take(events.len() as int) =~= events@);
    n
}

fn count_text_of(v: Option<u64>) -> (r: String)
    ensures
        r@ == count_text(v),
{
    match v {
        Some(n) => dec_string(n),
        None => "n/a".to_owned(),
    }
}

fn ready_label_of(w: &KubernetesWorkloadSnapshot) -> (r: String)
    ensures
        r@ == workload_ready_label(*w),
{
    let mut r = count_text_of(w.ready_replicas);
    r.append("/");
    let desired = count_text_of(w.desired_replicas);
    r.append(desired.as_str());
    r.append(" ready");
    r
}

fn workload_topology_status(w: &KubernetesWorkloadSnapshot) -> (r: String)
    ensures
        r@ == workload_status(*w),
{
    match (w.ready_replicas, w.desired_replicas) {
        (Some(ready), Some(desired)) => {
            if desired > 0 && ready == 0 {
                "error".to_owned()
            } else if ready < desired {
                "warning".to_owned()
            } else {
                "healthy".to_owned()
            }
        },
        _ => "healthy".to_owned(),
    }
}

fn pod_topology_status(p: &KubernetesPodSnapshot) -> (r: String)
    ensures
        r@ == pod_status(*p),
{
    let phase = chars_of(p.phase.as_str());
    if str_eq_chars("Failed", &phase) || p.warning_reason.is_some() {
        "error".to_owned()
    } else if !str_eq_chars("Running", &phase) || p.ready_containers < p.total_containers {
        "warning".to_owned()
    } else {
        "healthy".to_owned()
    }
}

/// The index of the first workload that owns the pod.
fn find_pod_owner(ws: &Vec<KubernetesWorkloadSnapshot>, p: &KubernetesPodSnapshot) -> (r: Option<usize>)
    ensures
        match r {
            Some(k) => k < ws@.len() && pod_owner_index(ws@, *p) == Some(k as int),
            None => pod_owner_index(ws@, *p) is None,
        },
{
    let owner = match &p.owner_name {
        Some(o) => chars_of(o.as_str()),
        None => {
            assert forall|k: int| 0 <= k < ws@.len() implies !owns_pod(#[trigger] ws@[k], *p) by {}
            return None;
        },
    };
    let mut i: usize = 0;
    while i < ws.len()
        invariant
            i <= ws@.len(),
            p.owner_name is Some,
            owner@ == p.owner_name.unwrap()@,
            forall|j: int| 0 <= j < i ==> !owns_pod(#[trigger] ws@[j], *p),
        decreases ws.len() - i,
    {
        let w = &ws[i];
        let name = chars_of(w.name.as_str());
        if w.namespace == p.namespace && (str_eq_chars(w.name.as_str(), &owner) || starts_with_chars(&owner, &name)) {
            assert(owns_pod(ws@[i as int], *p));
            proof {
                let k = choose|k: int| 0 <= k < ws@.len() && owns_pod(ws@[k], *p) && forall|j: int| 0 <= j < k ==> !owns_pod(#[trigger] ws@[j], *p);
                if k < i {
                    assert(!owns_pod(ws@[k], *p));
                }
                if k > i {
                    assert(!owns_pod(ws@[i as int], *p));
                }
            }
            return Some(i);
        }
        i = i + 1;
    }
    None
}

fn namespace_node_of(s: &KubernetesClusterSnapshot) -> (r: KubernetesTopologyNode)
    ensures
        r@ == namespace_node(*s),
{
    let mut subtitle = dec_string(s.pods.len() as u64);
    subtitle.append(" pod(s), ");
    let services = dec_string(s.services.len() as u64);
    subtitle.append(services.as_str());
    subtitle.append(" service(s)");
    let mut badge = dec_string(count_warning_events(&s.events) as u64);
    badge.append(" events");
    let badges = vec![badge];
    let r = KubernetesTopologyNode {
        id: namespace_id(s.selected_namespace.as_str()),
        kind: "namespace".to_owned(),
        label: s.selected_namespace.clone(),
        subtitle,
        status: if s.warnings.len() == 0 { "healthy".to_owned() } else { "warning".to_owned() },
        badges,
        column: 0,
        row: 0,
    };
    assert(r@.badges =~= namespace_node(*s).badges);
    r
}

fn workload_node_of(w: &KubernetesWorkloadSnapshot, row: usize) -> (r: KubernetesTopologyNode)
    ensures
        r@ == workload_node(*w, row as int),
{
    let mut subtitle = w.kind.clone();
    subtitle.append(" - ");
    subtitle.append(w.namespace.as_str());
    let badges = vec![ready_label_of(w)];
    let r = KubernetesTopologyNode {
        id: workload_id(w),
        kind: "workload".to_owned(),
        label: w.name.clone(),
        subtitle,
        status: workload_topology_status(w),
        badges,
        column: 1,
        row,
    };
    assert(r@.badges =~= workload_node(*w, row as int).badges);
    r
}

fn pod_node_of(p: &KubernetesPodSnapshot, row: usize) -> (r: KubernetesTopologyNode)
    ensures
        r@ == pod_node(*p, row as int),
{
    let subtitle = match &p.node_name {
        Some(n) => n.clone(),
        None => p.phase.clone(),
    };
    let mut ready = dec_string(p.ready_containers);
    ready.append("/");
    let total = dec_string(p.total_containers);
    ready.append(total.as_str());
    ready.append(" ready");
    let mut restarts = dec_string(p.restart_count);
    restarts.append(" restarts");
    let badges = vec![ready, restarts];
    let r = KubernetesTopologyNode {
        id: scoped_id("pod:", p.namespace.as_str(), p.name.as_str()),
        kind: "pod".to_owned(),
        label: p.name.clone(),
        subtitle,
        status: pod_topology_status(p),
        badges,
        column: 2,
        row,
    };
    assert(r@.badges =~= pod_node(*p, row as int).badges);
    r
}

fn service_node_of(sv: &KubernetesServiceSnapshot, row: usize) -> (r: KubernetesTopologyNode)
    ensures
        r@ == service_node(*sv, row as int),
{
    let mut subtitle = sv.service_type.clone();
    subtitle.append(" - ");
    subtitle.append(sv.namespace.as_str());
    let mut badge = dec_string(sv.endpoint_count);
    badge.append(" endpoint(s)");
    let badges = vec![badge];
    let r = KubernetesTopologyNode {
        id: scoped_id("service:", sv.namespace.as_str(), sv.name.as_str()),
        kind: "service".to_owned(),
        label: sv.name.clone(),
        subtitle,
        status: if sv.endpoint_count == 0 { "warning".to_owned() } else { "healthy".to_owned() },
        badges,
        column: 3,
        row,
    };
    assert(r@.badges =~= service_node(*sv, row as int).badges);
    r
}

fn ingress_node_of(g: &KubernetesIngressSnapshot, row: usize) -> (r: KubernetesTopologyNode)
    ensures
        r@ == ingress_node(*g, row as int),
{
    let mut hosts: Vec<Vec<char>> = Vec::new();
    let mut i: usize = 0;
    while i < g.hosts.len()
        invariant
            i <= g.hosts@.len(),
            views(hosts@) == str_views(g.hosts@).take(i as int),
        decreases g.hosts.len() - i,
    {
        let ghost before = hosts@;
        let h = chars_of(g.hosts[i].as_str());
        hosts.push(h);
        assert(views(hosts@) =~= views(before).push(h@));
        assert(str_views(g.hosts@).take(i + 1) =~= str_views(g.hosts@).take(i as int).push(g.hosts@[i as int]@));
        i = i + 1;
    }
    assert(str_views(g.hosts@).take(g.hosts@.len() as int) =~= str_views(g.hosts@));
    let sep = chars_of(", ");
    let subtitle = string_of(&join_chars(&hosts, &sep));
    let r = KubernetesTopologyNode {
        id: scoped_id("ingress:", g.namespace.as_str(), g.name.as_str()),
        kind: "ingress".to_owned(),
        label: g.name.clone(),
        subtitle,
        status: "healthy".to_owned(),
        badges: clone_strings(&g.service_backends),
        column: 4,
        row,
    };
    r
}

fn edge_between(from: String, to: String, kind: &str, status: String) -> (r: KubernetesTopologyEdge)
    ensures
        r@ == edge_of(from@, to@, kind@, status@),
{
    KubernetesTopologyEdge { from, to, kind: kind.to_owned(), label: kind.to_owned(), status }
}

fn workload_section(s: &KubernetesClusterSnapshot, ns_id: &String) -> (r: (Vec<KubernetesTopologyNode>, Vec<KubernetesTopologyEdge>))
    ensures
        node_views(r.0@) == Seq::new(s.workloads@.len(), |i: int| workload_node(s.workloads@[i], i)),
        edge_views(r.1@) == Seq::new(s.workloads@.len(), |i: int| workload_edge(ns_id@, s.workloads@[i])),
{
    let mut nodes: Vec<KubernetesTopologyNode> = Vec::new();
    let mut edges: Vec<KubernetesTopologyEdge> = Vec::new();
    let mut i: usize = 0;
    while i < s.workloads.len()
        invariant
            i <= s.workloads@.len(),
            node_views(nodes@) == Seq::new(i as nat, |k: int| workload_node(s.workloads@[k], k)),
            edge_views(edges@) == Seq::new(i as nat, |k: int| workload_edge(ns_id@, s.workloads@[k])),
        decreases s.workloads.len() - i,
    {
        let w = &s.workloads[i];
        let node = workload_node_of(w, i);
        let edge = edge_between(ns_id.clone(), workload_id(w), "contains", "normal".to_owned());
        proof {
            lemma_node_views_push(nodes@, node);
            lemma_edge_views_push(edges@, edge);
        }
        nodes.push(node);
        edges.push(edge);
        assert(node_views(nodes@) =~= Seq::new((i + 1) as nat, |k: int| workload_node(s.workloads@[k], k)));
        assert(edge_views(edges@) =~= Seq::new((i + 1) as nat, |k: int| workload_edge(ns_id@, s.workloads@[k])));
        i = i + 1;
    }
    (nodes, edges)
}

fn pod_section(s: &KubernetesClusterSnapshot, ns_id: &String) -> (r: (Vec<KubernetesTopologyNode>, Vec<KubernetesTopologyEdge>))
    requires
        ns_id@ == namespace_node_id(s.selected_namespace@),
    ensures
        node_views(r.0@) == Seq::new(s.pods@.len(), |i: int| pod_node(s.pods@[i], i)),
        edge_views(r.1@) == Seq::new(s.pods@.len(), |i: int| pod_edge(*s, s.pods@[i])),
{
    let mut nodes: Vec<KubernetesTopologyNode> = Vec::new();
    let mut edges: Vec<KubernetesTopologyEdge> = Vec::new();
    let mut i: usize = 0;
    while i < s.pods.len()
        invariant
            i <= s.pods@.len(),
            ns_id@ == namespace_node_id(s.selected_namespace@),
            node_views(nodes@) == Seq::new(i as nat, |k: int| pod_node(s.pods@[k], k)),
            edge_views(edges@) == Seq::new(i as nat, |k: int| pod_edge(*s, s.pods@[k])),
        decreases s.pods.len() - i,
    {
        let p = &s.pods[i];
        let node = pod_node_of(p, i);
        proof {
            lemma_node_views_push(nodes@, node);
        }
        nodes.push(node);
        let id = scoped_id("pod:", p.namespace.as_str(), p.name.as_str());
        let edge = match find_pod_owner(&s.workloads, p) {
            Some(k) => edge_between(workload_id(&s.workloads[k]), id, "owns", pod_topology_status(p)),
            None => edge_between(ns_id.clone(), id, "contains", pod_topology_status(p)),
        };
        assert(edge@ == pod_edge(*s, s.pods@[i as int]));
        proof {
            lemma_edge_views_push(edges@, edge);
        }
        edges.push(edge);
        assert(node_views(nodes@) =~= Seq::new((i + 1) as nat, |k: int| pod_node(s.pods@[k], k)));
        assert(edge_views(edges@) =~= Seq::new((i + 1) as nat, |k: int| pod_edge(*s, s.pods@[k])));
        i = i + 1;
    }
    (nodes, edges)
}

fn service_edges_of(ns_id: &String, sv: &KubernetesServiceSnapshot) -> (r: Vec<KubernetesTopologyEdge>)
    ensures
        edge_views(r@) == service_edges(ns_id@, *sv),
{
    let id = scoped_id("service:", sv.namespace.as_str(), sv.name.as_str());
    let mut edges: Vec<KubernetesTopologyEdge> = Vec::new();
    edges.push(edge_between(ns_id.clone(), id.clone(), "contains", "normal".to_owned()));
    let ghost head = edge_of(ns_id@, service_node_id(sv.namespace@, sv.name@), "contains"@, "normal"@);
    let ghost tail = sv.target_pods@.map_values(|t: String| edge_of(service_node_id(sv.namespace@, sv.name@), pod_node_id(sv.namespace@, t@), "targets"@, "normal"@));
    let mut i: usize = 0;
    while i < sv.target_pods.len()
        invariant
            i <= sv.target_pods@.len(),
            id@ == service_node_id(sv.namespace@, sv.name@),
            tail == sv.target_pods@.map_values(|t: String| edge_of(service_node_id(sv.namespace@, sv.name@), pod_node_id(sv.namespace@, t@), "targets"@, "normal"@)),
            edge_views(edges@) == seq![head] + tail.take(i as int),
        decreases sv.target_pods.len() - i,
    {
        let to = scoped_id("pod:", sv.namespace.as_str(), sv.target_pods[i].as_str());
        let edge = edge_between(id.clone(), to, "targets", "normal".to_owned());
        proof {
            lemma_edge_views_push(edges@, edge);
            assert(tail.take(i + 1) =~= tail.take(i as int).push(tail[i as int]));
        }
        edges.push(edge);
        assert(edge_views(edges@) =~= seq![head] + tail.take(i + 1));
        i = i + 1;
    }
    assert(tail.take(sv.target_pods@.len() as int) =~= tail);
    edges
}

fn service_section(s: &KubernetesClusterSnapshot, ns_id: &String) -> (r: (Vec<KubernetesTopologyNode>, Vec<KubernetesTopologyEdge>))
    ensures
        node_views(r.0@) == Seq::new(s.services@.len(), |i: int| service_node(s.services@[i], i)),
        edge_views(r.1@) == all_service_edges(ns_id@, s.services@),
{
    let mut nodes: Vec<KubernetesTopologyNode> = Vec::new();
    let mut edges: Vec<KubernetesTopologyEdge> = Vec::new();
    let mut i: usize = 0;
    while i < s.services.len()
        invariant
            i <= s.services@.len(),
            node_views(nodes@) == Seq::new(i as nat, |k: int| service_node(s.services@[k], k)),
            edge_views(edges@) == all_service_edges(ns_id@, s.services@.take(i as int)),
        decreases s.services.len() - i,
    {
        let sv = &s.services[i];
        let node = service_node_of(sv, i);
        proof {
            lemma_node_views_push(nodes@, node);
        }
        nodes.push(node);
        let mut more = service_edges_of(ns_id, sv);
        let ghost before = edges@;
        let ghost added = more@;
        edges.append(&mut more);
        proof {
            lemma_edge_views_add(before, added);
            assert(s.services@.take(i + 1).drop_last() =~= s.services@.take(i as int));
        }
        assert(node_views(nodes@) =~= Seq::new((i + 1) as nat, |k: int| service_node(s.services@[k], k)));
        i = i + 1;
    }
    assert(s.services@.take(s.services.len() as int) =~= s.services@);
    (nodes, edges)
}

fn ingress_edges_of(ns_id: &String, g: &KubernetesIngressSnapshot) -> (r: Vec<KubernetesTopologyEdge>)
    ensures
        edge_views(r@) == ingress_edges(ns_id@, *g),
{
    let id = scoped_id("ingress:", g.namespace.as_str(), g.name.as_str());
    let mut edges: Vec<KubernetesTopologyEdge> = Vec::new();
    edges.push(edge_between(ns_id.clone(), id.clone(), "contains", "normal".to_owned()));
    let ghost head = edge_of(ns_id@, ingress_node_id(g.namespace@, g.name@), "contains"@, "normal"@);
    let ghost tail = g.service_backends@.map_values(|b: String| edge_of(ingress_node_id(g.namespace@, g.name@), service_node_id(g.namespace@, b@), "routes"@, "normal"@));
    let mut i: usize = 0;
    while i < g.service_backends.len()
        invariant
            i <= g.service_backends@.len(),
            id@ == ingress_node_id(g.namespace@, g.name@),
            tail == g.service_backends@.map_values(|b: String| edge_of(ingress_node_id(g.namespace@, g.name@), service_node_id(g.namespace@, b@), "routes"@, "normal"@)),
            edge_views(edges@) == seq![head] + tail.take(i as int),
        decreases g.service_backends.len() - i,
    {
        let to = scoped_id("service:", g.namespace.as_str(), g.service_backends[i].as_str());
        let edge = edge_between(id.clone(), to, "routes", "normal".to_owned());
        proof {
            lemma_edge_views_push(edges@, edge);
            assert(tail.take(i + 1) =~= tail.take(i as int).push(tail[i as int]));
        }
        edges.push(edge);
        assert(edge_views(edges@) =~= seq![head] + tail.take(i + 1));
        i = i + 1;
    }
    assert(tail.take(g.service_backends@.len() as int) =~= tail);
    edges
}

fn ingress_section(s: &KubernetesClusterSnapshot, ns_id: &String) -> (r: (Vec<KubernetesTopologyNode>, Vec<KubernetesTopologyEdge>))
    ensures
        node_views(r.0@) == Seq::new(s.ingresses@.len(), |i: int| ingress_node(s.ingresses@[i], i)),
        edge_views(r.1@) == all_ingress_edges(ns_id@, s.ingresses@),
{
    let mut nodes: Vec<KubernetesTopologyNode> = Vec::new();
    let mut edges: Vec<KubernetesTopologyEdge> = Vec::new();
    let mut i: usize = 0;
    while i < s.ingresses.len()
        invariant
            i <= s.ingresses@.len(),
            node_views(nodes@) == Seq::new(i as nat, |k: int| ingress_node(s.ingresses@[k], k)),
            edge_views(edges@) == all_ingress_edges(ns_id@, s.ingresses@.take(i as int)),
        decreases s.ingresses.len() - i,
    {
        let g = &s.ingresses[i];
        let node = ingress_node_of(g, i);
        proof {
            lemma_node_views_push(nodes@, node);
        }
        nodes.push(node);
        let mut more = ingress_edges_of(ns_id, g);
        let ghost before = edges@;
        let ghost added = more@;
        edges.append(&mut more);
        proof {
            lemma_edge_views_add(before, added);
            assert(s.ingresses@.take(i + 1).drop_last() =~= s.ingresses@.take(i as int));
        }
        assert(node_views(nodes@) =~= Seq::new((i + 1) as nat, |k: int| ingress_node(s.ingresses@[k], k)));
        i = i + 1;
    }
    assert(s.ingresses@.take(s.ingresses.len() as int) =~= s.ingresses@);
    (nodes, edges)
}

/// The graph drawn for a cluster snapshot: the selected namespace, its
/// workloads, pods, services and ingresses as boxes in five columns, and the
/// arrows between them.
pub fn build_kubernetes_topology(snapshot: &KubernetesClusterSnapshot) -> (r: KubernetesTopologySnapshot)
    ensures
        node_views(r.nodes@) == topology_nodes(*snapshot),
        edge_views(r.edges@) == topology_edges(*snapshot),
{
    let ns_id = namespace_id(snapshot.selected_namespace.as_str());
    let mut nodes = vec![namespace_node_of(snapshot)];
    let mut edges: Vec<KubernetesTopologyEdge> = Vec::new();
    let (mut wn, mut we) = workload_section(snapshot, &ns_id);
    let (mut pn, mut pe) = pod_section(snapshot, &ns_id);
    let (mut sn, mut se) = service_section(snapshot, &ns_id);
    let (mut gn, mut ge) = ingress_section(snapshot, &ns_id);
    let ghost n0 = nodes@;
    let ghost (n1, n2, n3, n4) = (wn@, pn@, sn@, gn@);
    let ghost (e1, e2, e3, e4) = (we@, pe@, se@, ge@);
    nodes.append(&mut wn);
    nodes.append(&mut pn);
    nodes.append(&mut sn);
    nodes.append(&mut gn);
    edges.append(&mut we);
    edges.append(&mut pe);
    edges.append(&mut se);
    edges.append(&mut ge);
    proof {
        lemma_node_views_add(n0, n1);
        lemma_node_views_add(n0 + n1, n2);
        lemma_node_views_add(n0 + n1 + n2, n3);
        lemma_node_views_add(n0 + n1 + n2 + n3, n4);
        assert(node_views(n0) =~= seq![namespace_node(*snapshot)]);
        lemma_edge_views_add(e1, e2);
        lemma_edge_views_add(e1 + e2, e3);
        lemma_edge_views_add(e1 + e2 + e3, e4);
        assert(Seq::<KubernetesTopologyEdge>::empty() + e1 =~= e1);
    }
    KubernetesTopologySnapshot { nodes, edges }
}


// ---------------------------------------------------------------------------
// kubectl and `wg show`
// ---------------------------------------------------------------------------

/// The error texts of `wg show` that mean the interface is simply not up.
pub open spec fn wg_interface_absent(detail: Seq<char>) -> bool {
    ||| detail.len() == 0
    ||| contains_sub(detail, "Unable to access interface"@)
    ||| contains_sub(detail, "No such device"@)
    ||| contains_sub(detail, "does not exist"@)
}

/// Reads the outcome of `wg show <interface>`: after a success the tunnel is
/// active when anything was printed; after a failure it is inactive when the
/// error says the interface is missing, and any other error is reported.
pub fn wireguard_active_from_show_output(success: bool, stdout: &str, stderr: &str) -> (r: Result<bool, String>)
    ensures
        success ==> r == Ok::<bool, String>(trim(stdout@).len() > 0),
        !success && wg_interface_absent(trim(stderr@)) ==> r == Ok::<bool, String>(false),
        !success && !wg_interface_absent(trim(stderr@)) ==> r is Err && r->Err_0@ == trim(stderr@),
{
    if success {
        let out = trim_str(stdout);
        return Ok(out.len() > 0);
    }
    let detail = trim_str(stderr);
    if detail.len() == 0 || contains_str(&detail, "Unable to access interface") || contains_str(
        &detail,
        "No such device",
    ) || contains_str(&detail, "does not exist") {
        return Ok(false);
    }
    Err(string_of(&detail))
}

/// The arguments of a kubectl call: the context, the namespace when one is
/// given and not blank (trimmed), then the rest.
pub open spec fn kubectl_args(context: Seq<char>, namespace: Option<Seq<char>>, trailing: Seq<Seq<char>>) -> Seq<Seq<char>> {
    seq!["--context"@, context] + match namespace {
        Some(n) => if trim(n).len() > 0 {
            seq!["--namespace"@, trim(n)]
        } else {
            seq![]
        },
        None => seq![],
    } + trailing
}

/// How kubectl is run for a cluster.
pub fn kubectl_invocation(cluster: &KubernetesClusterConfig, namespace: Option<&str>, trailing: &Vec<String>) -> (r: KubectlInvocation)
    ensures
        r.program@ == "kubectl"@,
        str_views(r.args@) == kubectl_args(
            cluster.context@,
            match namespace {
                Some(n) => Some(n@),
                None => None,
            },
            str_views(trailing@),
        ),
        r.kubeconfig_env == cluster.kubeconfig_path,
{
    let mut args: Vec<String> = Vec::new();
    args.push("--context".to_owned());
    args.push(cluster.context.clone());
    let ghost head = str_views(args@);
    match namespace {
        Some(n) => {
            let t = trim_str(n);
            if t.len() > 0 {
                args.push("--namespace".to_owned());
                args.push(string_of(&t));
            }
        },
        None => {},
    }
    let ghost mid = str_views(args@);
    let mut i: usize = 0;
    while i < trailing.len()
        invariant
            i <= trailing@.len(),
            str_views(args@) == mid + str_views(trailing@).take(i as int),
        decreases trailing.len() - i,
    {
        let ghost before = args@;
        args.push(trailing[i].clone());
        assert(str_views(args@) =~= str_views(before).push(trailing@[i as int]@));
        assert(str_views(trailing@).take(i + 1) =~= str_views(trailing@).take(i as int).push(trailing@[i as int]@));
        i = i + 1;
    }
    assert(str_views(trailing@).take(trailing@.len() as int) =~= str_views(trailing@));
    let ghost ns_view = match namespace {
        Some(n) => Some(n@),
        None => None,
    };
    assert(mid == seq!["--context"@, cluster.context@] + match ns_view {
        Some(n) => if trim(n).len() > 0 {
            seq!["--namespace"@, trim(n)]
        } else {
            seq![]
        },
        None => seq![],
    });
    KubectlInvocation {
        program: "kubectl".to_owned(),
        args,
        kubeconfig_env: match &cluster.kubeconfig_path {
            Some(p) => Some(p.clone()),
            None => None,
        },
    }
}

/// The lines, trimmed, blank ones left out.
pub open spec fn nonblank_trimmed(ls: Seq<Seq<char>>) -> Seq<Seq<char>>
    decreases ls.len(),
{
    if ls.len() == 0 {
        seq![]
    } else {
        let prev = nonblank_trimmed(ls.drop_last());
        if trim(ls.last()).len() > 0 {
            prev.push(trim(ls.last()))
        } else {
            prev
        }
    }
}

/// The context names kubectl lists: one per line, trimmed, blank lines left out.
pub open spec fn context_names(stdout: Seq<char>) -> Seq<Seq<char>> {
    nonblank_trimmed(lines(stdout))
}

/// Reads the output of `kubectl config get-contexts -o name`.
pub fn parse_context_names(stdout: &str) -> (r: Vec<String>)
    ensures
        str_views(r@) == context_names(stdout@),
{
    let ls = lines_chars(&chars_of(stdout));
    let ghost all = lines(stdout@);
    let mut out: Vec<String> = Vec::new();
    let mut i: usize = 0;
    while i < ls.len()
        invariant
            i <= ls@.len(),
            views(ls@) == all,
            all == lines(stdout@),
            str_views(out@) == nonblank_trimmed(all.take(i as int)),
        decreases ls.len() - i,
    {
        let t = trim_chars(&ls[i]);
        assert(all[i as int] == ls@[i as int]@);
        assert(all.take(i + 1).drop_last() =~= all.take(i as int));
        assert(all.take(i + 1).last() == ls@[i as int]@);
        if t.len() > 0 {
            let ghost before = out@;
            out.push(string_of(&t));
            assert(str_views(out@) =~= str_views(before).push(t@));
        }
        i = i + 1;
    }
    assert(all.take(ls@.len() as int) =~= all);
    out
}

// ---------------------------------------------------------------------------
// Which clusters are configured, and their names
// ---------------------------------------------------------------------------

/// A kubeconfig path, trimmed; a blank one counts as none.
pub open spec fn normalized_path(p: Option<Seq<char>>) -> Option<Seq<char>> {
    match p {
        Some(x) => if trim(x).len() > 0 {
            Some(trim(x))
        } else {
            None
        },
        None => None,
    }
}

/// A configured cluster as plain values.
pub struct ClusterView {
    pub name: Seq<char>,
    pub provider: KubernetesProvider,
    pub kubeconfig_path: Option<Seq<char>>,
    pub context: Seq<char>,
    pub default_namespace: Seq<char>,
    pub wireguard: Option<WireGuardTunnelConfig>,
}

pub open spec fn cluster_view(c: KubernetesClusterConfig) -> ClusterView {
    ClusterView {
        name: c.name@,
        provider: c.provider,
        kubeconfig_path: opt_view(c.kubeconfig_path),
        context: c.context@,
        default_namespace: c.default_namespace@,
        wireguard: c.wireguard,
    }
}

pub open spec fn cluster_views(cs: Seq<KubernetesClusterConfig>) -> Seq<ClusterView> {
    cs.map_values(|c: KubernetesClusterConfig| cluster_view(c))
}

/// A cluster with this context and kubeconfig path (both compared trimmed)
/// is already configured.
pub open spec fn is_configured(clusters: Seq<ClusterView>, path: Option<Seq<char>>, context: Seq<char>) -> bool {
    exists|i: int|
        0 <= i < clusters.len() && (#[trigger] clusters[i]).context == context && normalized_path(
            clusters[i].kubeconfig_path,
        ) == normalized_path(path)
}

fn normalized_path_of(p: &Option<String>) -> (r: Option<Vec<char>>)
    ensures
        match r {
            Some(v) => normalized_path(opt_view(*p)) == Some(v@),
            None => normalized_path(opt_view(*p)) is None,
        },
{
    match p {
        Some(x) => {
            let t = trim_str(x.as_str());
            if t.len() > 0 {
                Some(t)
            } else {
                None
            }
        },
        None => None,
    }
}

fn same_path(a: &Option<Vec<char>>, b: &Option<Vec<char>>) -> (r: bool)
    ensures
        r == (match a {
            Some(x) => Some(x@),
            None => None::<Seq<char>>,
        } == match b {
            Some(x) => Some(x@),
            None => None::<Seq<char>>,
        }),
{
    match (a, b) {
        (Some(x), Some(y)) => crate::text::chars_eq(x, y),
        (None, None) => true,
        _ => false,
    }
}

fn configured_in(clusters: &Vec<KubernetesClusterConfig>, path: &Option<String>, context: &str) -> (r: bool)
    ensures
        r == is_configured(cluster_views(clusters@), opt_view(*path), context@),
{
    let want = normalized_path_of(path);
    let ghost cv = cluster_views(clusters@);
    let mut i: usize = 0;
    while i < clusters.len()
        invariant
            i <= clusters@.len(),
            cv == cluster_views(clusters@),
            match want {
                Some(v) => normalized_path(opt_view(*path)) == Some(v@),
                None => normalized_path(opt_view(*path)) is None,
            },
            forall|j: int|
                0 <= j < i ==> !((#[trigger] cv[j]).context == context@ && normalized_path(cv[j].kubeconfig_path)
                    == normalized_path(opt_view(*path))),
        decreases clusters.len() - i,
    {
        let c = &clusters[i];
        assert(cv[i as int] == cluster_view(clusters@[i as int]));
        let have = normalized_path_of(&c.kubeconfig_path);
        if str_eq_chars(context, &chars_of(c.context.as_str())) && same_path(&have, &want) {
            assert(cv[i as int].context == context@);
            return true;
        }
        i = i + 1;
    }
    false
}

/// Whether the configuration already holds a cluster with this context and
/// kubeconfig path.
pub fn cluster_already_configured(config: &LoopboxConfig, kubeconfig_path: &Option<String>, context: &str) -> (r: bool)
    ensures
        r == is_configured(cluster_views(config.global.kubernetes.clusters@), opt_view(*kubeconfig_path), context@),
{
    configured_in(&config.global.kubernetes.clusters, kubeconfig_path, context)
}

/// Lower-cased ASCII letters and digits, each run of other characters
/// turned into one dash.
pub open spec fn dash_runs(s: Seq<char>) -> Seq<char>
    decreases s.len(),
{
    if s.len() == 0 {
        seq![]
    } else {
        let prev = dash_runs(s.drop_last());
        let c = s.last();
        if is_ascii_alnum(c) {
            prev.push(lower_ascii(c))
        } else if prev.len() > 0 && prev.last() == '-' {
            prev
        } else {
            prev.push('-')
        }
    }
}

/// A cluster name made from any text: lower-case letters, digits and single
/// dashes, no dash at either end, and "cluster" when nothing is left.
pub open spec fn normalized_cluster_name(raw: Seq<char>) -> Seq<char> {
    let cleaned = trim_char(dash_runs(trim(raw)), '-');
    if cleaned.len() == 0 {
        "cluster"@
    } else {
        cleaned
    }
}

pub fn normalize_cluster_name(raw: &str) -> (r: String)
    ensures
        r@ == normalized_cluster_name(raw@),
{
    let t = trim_str(raw);
    let mut out: Vec<char> = Vec::new();
    let mut i: usize = 0;
    while i < t.len()
        invariant
            i <= t@.len(),
            out@ == dash_runs(t@.take(i as int)),
        decreases t.len() - i,
    {
        assert(t@.take(i + 1).drop_last() =~= t@.take(i as int));
        let c = t[i];
        if is_ascii_alnum_char(c) {
            out.push(lower_ascii_char(c));
        } else if out.len() > 0 && out[out.len() - 1] == '-' {
        } else {
            out.push('-');
        }
        i = i + 1;
    }
    assert(t@.take(t@.len() as int) =~= t@);
    let cleaned = trim_char_chars(&out, '-');
    if cleaned.len() == 0 {
        "cluster".to_owned()
    } else {
        string_of(&cleaned)
    }
}

/// The names in use: those of the configured clusters, then those given.
pub open spec fn used_names(clusters: Seq<KubernetesClusterConfig>, taken: Seq<Seq<char>>) -> Seq<Seq<char>> {
    clusters.map_values(|c: KubernetesClusterConfig| c.name@) + taken
}

/// `base-k`.
pub open spec fn numbered_name(base: Seq<char>, k: nat) -> Seq<char> {
    base + "-"@ + dec_chars(k)
}

/// The first of `base-k`, `base-(k+1)`, ... `base-999` not in use, else
/// `base-import`.
pub open spec fn first_free_name(base: Seq<char>, used: Seq<Seq<char>>, k: nat) -> Seq<char>
    decreases 1000 - k,
{
    if k > 999 {
        base + "-import"@
    } else if !used.contains(numbered_name(base, k)) {
        numbered_name(base, k)
    } else {
        first_free_name(base, used, k + 1)
    }
}

/// The normalized context name, or the first numbered variant not in use.
pub open spec fn unique_name(context: Seq<char>, used: Seq<Seq<char>>) -> Seq<char> {
    let base = normalized_cluster_name(context);
    if !used.contains(base) {
        base
    } else {
        first_free_name(base, used, 2)
    }
}

fn name_in_use(clusters: &Vec<KubernetesClusterConfig>, taken: &Vec<String>, cand: &Vec<char>) -> (r: bool)
    ensures
        r == used_names(clusters@, str_views(taken@)).contains(cand@),
{
    let ghost used = used_names(clusters@, str_views(taken@));
    let mut i: usize = 0;
    while i < clusters.len()
        invariant
            i <= clusters@.len(),
            used == used_names(clusters@, str_views(taken@)),
            forall|j: int| 0 <= j < i ==> used[j] != cand@,
        decreases clusters.len() - i,
    {
        assert(used[i as int] == clusters@[i as int].name@);
        if str_eq_chars(clusters[i].name.as_str(), cand) {
            assert(used.contains(cand@));
            return true;
        }
        i = i + 1;
    }
    let mut k: usize = 0;
    while k < taken.len()
        invariant
            k <= taken@.len(),
            used == used_names(clusters@, str_views(taken@)),
            used.len() == clusters@.len() + taken@.len(),
            forall|j: int| 0 <= j < clusters@.len() + k ==> used[j] != cand@,
        decreases taken.len() - k,
    {
        assert(used[clusters@.len() + k] == taken@[k as int]@);
        if str_eq_chars(taken[k].as_str(), cand) {
            assert(used.contains(cand@));
            return true;
        }
        k = k + 1;
    }
    false
}

fn numbered_name_of(base: &Vec<char>, k: u64) -> (r: Vec<char>)
    ensures
        r@ == numbered_name(base@, k as nat),
{
    let mut r = crate::text::copy_range(base, 0, base.len());
    r.push('-');
    let digits = u64_chars(k);
    crate::text::append_chars(&mut r, &digits);
    proof {
        reveal_strlit("-");
    }
    assert(base@.subrange(0, base@.len() as int) =~= base@);
    assert(r@ =~= base@ + "-"@ + dec_chars(k as nat));
    r
}

/// A name for a cluster of this context that no configured cluster and no
/// name in `taken` has.
pub fn unique_cluster_name(clusters: &Vec<KubernetesClusterConfig>, taken: &Vec<String>, context: &str) -> (r: String)
    ensures
        r@ == unique_name(context@, used_names(clusters@, str_views(taken@))),
{
    let ghost used = used_names(clusters@, str_views(taken@));
    let base = chars_of(normalize_cluster_name(context).as_str());
    if !name_in_use(clusters, taken, &base) {
        return string_of(&base);
    }
    let mut k: u64 = 2;
    while k <= 999
        invariant
            2 <= k <= 1000,
            base@ == normalized_cluster_name(context@),
            used == used_names(clusters@, str_views(taken@)),
            used.contains(base@),
            first_free_name(base@, used, 2) == first_free_name(base@, used, k as nat),
        decreases 1000 - k,
    {
        let cand = numbered_name_of(&base, k);
        if !name_in_use(clusters, taken, &cand) {
            return string_of(&cand);
        }
        k = k + 1;
    }
    let mut r = base;
    crate::text::append_str(&mut r, "-import");
    string_of(&r)
}


// ---------------------------------------------------------------------------
// Importing clusters
// ---------------------------------------------------------------------------

pub open spec fn cluster_names(cs: Seq<ClusterView>) -> Seq<Seq<char>> {
    cs.map_values(|c: ClusterView| c.name)
}

/// The kubeconfig path an import stores: trimmed, none when blank.
pub open spec fn import_path(imp: KubernetesClusterImport) -> Option<Seq<char>> {
    normalized_path(opt_view(imp.kubeconfig_path))
}

/// The name an import gets: the one it asks for, normalized, else a unique
/// name made from its context.
pub open spec fn import_name(cs: Seq<ClusterView>, imp: KubernetesClusterImport) -> Seq<char> {
    match imp.name {
        Some(n) => if trim(n@).len() > 0 {
            normalized_cluster_name(trim(n@))
        } else {
            unique_name(trim(imp.context@), cluster_names(cs))
        },
        None => unique_name(trim(imp.context@), cluster_names(cs)),
    }
}

/// The namespace an import gets: the one it asks for, trimmed, else "default".
pub open spec fn import_namespace(imp: KubernetesClusterImport) -> Seq<char> {
    match imp.default_namespace {
        Some(n) => if trim(n@).len() > 0 {
            trim(n@)
        } else {
            "default"@
        },
        None => "default"@,
    }
}

/// One import: skipped when its context is blank or the cluster is already
/// configured, else appended.
pub open spec fn import_step(cs: Seq<ClusterView>, imp: KubernetesClusterImport) -> Seq<ClusterView> {
    let ctx = trim(imp.context@);
    if ctx.len() == 0 || is_configured(cs, import_path(imp), ctx) {
        cs
    } else {
        cs.push(
            ClusterView {
                name: import_name(cs, imp),
                provider: imp.provider,
                kubeconfig_path: import_path(imp),
                context: ctx,
                default_namespace: import_namespace(imp),
                wireguard: None,
            },
        )
    }
}

/// The imports applied in order.
pub open spec fn import_all(cs: Seq<ClusterView>, imps: Seq<KubernetesClusterImport>) -> Seq<ClusterView>
    decreases imps.len(),
{
    if imps.len() == 0 {
        cs
    } else {
        import_step(import_all(cs, imps.drop_last()), imps.last())
    }
}

/// The configuration is the same but for its Kubernetes clusters.
pub open spec fn same_except_clusters(a: LoopboxConfig, b: LoopboxConfig) -> bool {
    &&& a.projects == b.projects
    &&& a.global.domain_suffix == b.global.domain_suffix
    &&& a.global.ip_base == b.global.ip_base
    &&& a.global.ip_range_start == b.global.ip_range_start
    &&& a.global.ip_range_end == b.global.ip_range_end
    &&& a.global.proxy_traffic == b.global.proxy_traffic
    &&& a.global.proxy_endpoints == b.global.proxy_endpoints
}

proof fn lemma_cluster_views_push(cs: Seq<KubernetesClusterConfig>, c: KubernetesClusterConfig)
    ensures
        cluster_views(cs.push(c)) == cluster_views(cs).push(cluster_view(c)),
        used_names(cs, seq![]) == cluster_names(cluster_views(cs)),
{
    assert(cluster_views(cs.push(c)) =~= cluster_views(cs).push(cluster_view(c)));
    assert(used_names(cs, seq![]) =~= cluster_names(cluster_views(cs)));
}

fn trimmed_or_none(o: &Option<String>) -> (r: Option<String>)
    ensures
        opt_view(r) == normalized_path(opt_view(*o)),
{
    match normalized_path_of(o) {
        Some(v) => Some(string_of(&v)),
        None => None,
    }
}

/// Adds the requested clusters to the configuration, in order. A request
/// with a blank context, or for a context and kubeconfig path that is
/// already configured (also by an earlier request of the same call), is
/// skipped. Returns how many were added.
pub fn import_kubernetes_clusters(config: &mut LoopboxConfig, imports: &Vec<KubernetesClusterImport>) -> (r: Result<usize, String>)
    ensures
        cluster_views(final(config).global.kubernetes.clusters@) == import_all(
            cluster_views(old(config).global.kubernetes.clusters@),
            imports@,
        ),
        final(config).global.kubernetes.clusters@.len() >= old(config).global.kubernetes.clusters@.len(),
        final(config).global.kubernetes.clusters@.take(old(config).global.kubernetes.clusters@.len() as int)
            == old(config).global.kubernetes.clusters@,
        r == Ok::<usize, String>(
            (final(config).global.kubernetes.clusters@.len() - old(config).global.kubernetes.clusters@.len()) as usize,
        ),
        same_except_clusters(*final(config), *old(config)),
{
    let ghost start = old(config).global.kubernetes.clusters@;
    let mut added: usize = 0;
    let mut i: usize = 0;
    while i < imports.len()
        invariant
            i <= imports@.len(),
            start == old(config).global.kubernetes.clusters@,
            cluster_views(config.global.kubernetes.clusters@) == import_all(cluster_views(start), imports@.take(i as int)),
            config.global.kubernetes.clusters@.len() >= start.len(),
            config.global.kubernetes.clusters@.take(start.len() as int) == start,
            added == config.global.kubernetes.clusters@.len() - start.len(),
            added <= i,
            same_except_clusters(*config, *old(config)),
        decreases imports.len() - i,
    {
        let imp = &imports[i];
        assert(imports@.take(i + 1).drop_last() =~= imports@.take(i as int));
        let ctx = trim_str(imp.context.as_str());
        if ctx.len() > 0 {
            let path = trimmed_or_none(&imp.kubeconfig_path);
            let context = string_of(&ctx);
            if !configured_in(&config.global.kubernetes.clusters, &path, context.as_str()) {
                let empty: Vec<String> = Vec::new();
                proof {
                    assert(str_views(empty@) =~= seq![]);
                    assert(used_names(config.global.kubernetes.clusters@, seq![]) =~= cluster_names(
                        cluster_views(config.global.kubernetes.clusters@),
                    ));
                }
                let name = match &imp.name {
                    Some(n) => {
                        let t = trim_str(n.as_str());
                        if t.len() > 0 {
                            normalize_cluster_name(string_of(&t).as_str())
                        } else {
                            unique_cluster_name(&config.global.kubernetes.clusters, &empty, context.as_str())
                        }
                    },
                    None => unique_cluster_name(&config.global.kubernetes.clusters, &empty, context.as_str()),
                };
                let namespace = match &imp.default_namespace {
                    Some(n) => {
                        let t = trim_str(n.as_str());
                        if t.len() > 0 {
                            string_of(&t)
                        } else {
                            "default".to_owned()
                        }
                    },
                    None => "default".to_owned(),
                };
                let cluster = KubernetesClusterConfig {
                    name,
                    provider: imp.provider,
                    kubeconfig_path: path,
                    context,
                    default_namespace: namespace,
                    wireguard: None,
                };
                let ghost before = config.global.kubernetes.clusters@;
                proof {
                    lemma_cluster_views_push(before, cluster);
                }
                config.global.kubernetes.clusters.push(cluster);
                assert(config.global.kubernetes.clusters@.take(start.len() as int) =~= before.take(start.len() as int));
                added = added + 1;
            }
        }
        i = i + 1;
    }
    assert(imports@.take(imports@.len() as int) =~= imports@);
    Ok(added)
}

/// No two clusters share a context and a kubeconfig path.
pub open spec fn clusters_distinct(cs: Seq<ClusterView>) -> bool {
    forall|i: int, j: int|
        0 <= i < j < cs.len() ==> !((#[trigger] cs[i]).context == (#[trigger] cs[j]).context
            && normalized_path(cs[i].kubeconfig_path) == normalized_path(cs[j].kubeconfig_path))
}

/// Importing never configures a context and kubeconfig path twice: when no
/// two configured clusters share them before, none do after.
pub proof fn law_import_keeps_clusters_distinct(cs: Seq<ClusterView>, imps: Seq<KubernetesClusterImport>)
    requires
        clusters_distinct(cs),
    ensures
        clusters_distinct(import_all(cs, imps)),
    decreases imps.len(),
{
    if imps.len() > 0 {
        law_import_keeps_clusters_distinct(cs, imps.drop_last());
        let prev = import_all(cs, imps.drop_last());
        let next = import_all(cs, imps);
        let imp = imps.last();
        let ctx = trim(imp.context@);
        if !(ctx.len() == 0 || is_configured(prev, import_path(imp), ctx)) {
            assert forall|i: int, j: int| 0 <= i < j < next.len() implies !((#[trigger] next[i]).context
                == (#[trigger] next[j]).context && normalized_path(next[i].kubeconfig_path)
                == normalized_path(next[j].kubeconfig_path)) by {
                if j == next.len() - 1 {
                    assert(next[i] == prev[i]);
                    if next[i].context == next[j].context && normalized_path(next[i].kubeconfig_path)
                        == normalized_path(next[j].kubeconfig_path) {
                        assert(prev[i].context == ctx);
                        assert(is_configured(prev, import_path(imp), ctx));
                    }
                } else {
                    assert(next[i] == prev[i] && next[j] == prev[j]);
                }
            }
        }
    }
}

/// Importing only adds: the clusters there before stay, in order, and at
/// most one cluster is added per request.
pub proof fn law_import_only_appends(cs: Seq<ClusterView>, imps: Seq<KubernetesClusterImport>)
    ensures
        cs.len() <= import_all(cs, imps).len() <= cs.len() + imps.len(),
        import_all(cs, imps).take(cs.len() as int) == cs,
    decreases imps.len(),
{
    if imps.len() > 0 {
        law_import_only_appends(cs, imps.drop_last());
        let prev = import_all(cs, imps.drop_last());
        let next = import_all(cs, imps);
        assert(next == prev || next == prev.push(next.last()));
        assert(next.take(cs.len() as int) =~= prev.take(cs.len() as int));
    } else {
        assert(cs.take(cs.len() as int) =~= cs);
    }
}


proof fn lemma_import_all_concat(cs: Seq<ClusterView>, a: Seq<KubernetesClusterImport>, b: Seq<KubernetesClusterImport>)
    ensures
        import_all(cs, a + b) == import_all(import_all(cs, a), b),
    decreases b.len(),
{
    if b.len() == 0 {
        assert(a + b =~= a);
    } else {
        lemma_import_all_concat(cs, a, b.drop_last());
        assert((a + b).drop_last() =~= a + b.drop_last());
        assert((a + b).last() == b.last());
    }
}

proof fn lemma_import_prefix(cs: Seq<ClusterView>, imps: Seq<KubernetesClusterImport>, k: int)
    requires
        0 <= k <= imps.len(),
    ensures
        import_all(cs, imps.take(k)).len() <= import_all(cs, imps).len(),
        import_all(cs, imps).take(import_all(cs, imps.take(k)).len() as int) == import_all(cs, imps.take(k)),
{
    lemma_import_all_concat(cs, imps.take(k), imps.skip(k));
    assert(imps.take(k) + imps.skip(k) =~= imps);
    law_import_only_appends(import_all(cs, imps.take(k)), imps.skip(k));
}

proof fn lemma_import_stable(cs: Seq<ClusterView>, imps: Seq<KubernetesClusterImport>, k: int)
    requires
        0 <= k <= imps.len(),
    ensures
        import_all(import_all(cs, imps), imps.take(k)) == import_all(cs, imps),
    decreases k,
{
    let all = import_all(cs, imps);
    if k == 0 {
        assert(imps.take(0) =~= seq![]);
    } else {
        lemma_import_stable(cs, imps, k - 1);
        let imp = imps[k - 1];
        let prev = import_all(cs, imps.take(k - 1));
        let next = import_all(cs, imps.take(k));
        assert(imps.take(k).drop_last() =~= imps.take(k - 1));
        assert(imps.take(k).last() == imp);
        lemma_import_prefix(cs, imps, k - 1);
        lemma_import_prefix(cs, imps, k);
        let ctx = trim(imp.context@);
        if ctx.len() > 0 {
            if is_configured(prev, import_path(imp), ctx) {
                let i = choose|i: int|
                    0 <= i < prev.len() && (#[trigger] prev[i]).context == ctx && normalized_path(prev[i].kubeconfig_path)
                        == normalized_path(import_path(imp));
                assert(all[i] == prev[i]);
                assert(is_configured(all, import_path(imp), ctx));
            } else {
                let j = prev.len() as int;
                assert(next[j] == all[j]);
                assert(all[j].context == ctx && all[j].kubeconfig_path == import_path(imp));
                assert(is_configured(all, import_path(imp), ctx));
            }
        }
    }
}

/// Importing is idempotent: importing the same requests again adds nothing.
pub proof fn law_import_idempotent(cs: Seq<ClusterView>, imps: Seq<KubernetesClusterImport>)
    ensures
        import_all(import_all(cs, imps), imps) == import_all(cs, imps),
{
    lemma_import_stable(cs, imps, imps.len() as int);
    assert(imps.take(imps.len() as int) =~= imps);
}

// ---------------------------------------------------------------------------
// Finding a cluster, and its WireGuard tunnel
// ---------------------------------------------------------------------------

/// The first configured cluster with this name.
pub open spec fn cluster_index(cs: Seq<KubernetesClusterConfig>, name: Seq<char>) -> Option<int> {
    if exists|k: int| 0 <= k < cs.len() && cs[k].name@ == name && forall|j: int| 0 <= j < k ==> (#[trigger] cs[j]).name@ != name {
        Some(choose|k: int| 0 <= k < cs.len() && cs[k].name@ == name && forall|j: int| 0 <= j < k ==> (#[trigger] cs[j]).name@ != name)
    } else {
        None
    }
}

pub open spec fn cluster_not_found_message(name: Seq<char>) -> Seq<char> {
    "Kubernetes cluster '"@ + name + "' not found."@
}

/// `before`, `name` and `after`.
fn quoted(before: &str, name: &str, after: &str) -> (r: String)
    ensures
        r@ == before@ + name@ + after@,
{
    let mut r = before.to_owned();
    r.append(name);
    r.append(after);
    r
}

fn find_cluster_index(clusters: &Vec<KubernetesClusterConfig>, name: &str) -> (r: Option<usize>)
    ensures
        match r {
            Some(k) => k < clusters@.len() && cluster_index(clusters@, name@) == Some(k as int),
            None => cluster_index(clusters@, name@) is None,
        },
{
    let mut i: usize = 0;
    while i < clusters.len()
        invariant
            i <= clusters@.len(),
            forall|j: int| 0 <= j < i ==> (#[trigger] clusters@[j]).name@ != name@,
        decreases clusters.len() - i,
    {
        if str_eq_chars(name, &chars_of(clusters[i].name.as_str())) {
            proof {
                let k = choose|k: int| 0 <= k < clusters@.len() && clusters@[k].name@ == name@ && forall|j: int| 0 <= j < k ==> (#[trigger] clusters@[j]).name@ != name@;
                if k < i {
                    assert(clusters@[k].name@ != name@);
                }
                if k > i {
                    assert(clusters@[i as int].name@ != name@);
                }
            }
            return Some(i);
        }
        i = i + 1;
    }
    None
}

/// The configured cluster of this name (the first, if several have it).
pub fn find_cluster<'a>(config: &'a LoopboxConfig, cluster_name: &str) -> (r: Result<&'a KubernetesClusterConfig, String>)
    ensures
        match cluster_index(config.global.kubernetes.clusters@, cluster_name@) {
            Some(k) => r is Ok && *r->Ok_0 == config.global.kubernetes.clusters@[k],
            None => r is Err && r->Err_0@ == cluster_not_found_message(cluster_name@),
        },
{
    match find_cluster_index(&config.global.kubernetes.clusters, cluster_name) {
        Some(k) => Ok(&config.global.kubernetes.clusters[k]),
        None => Err(quoted("Kubernetes cluster '", cluster_name, "' not found.")),
    }
}

/// A `wg-quick` call: `wg-quick <action> <target>`.
#[derive(Debug, Clone, PartialEq, Eq)]
pub struct WgQuickCommand {
    pub action: String,
    pub target: String,
}

/// What `wg-quick` is pointed at: the config file, else the interface.
pub open spec fn wg_quick_target(w: WireGuardTunnelConfig) -> Option<Seq<char>> {
    match w.config_path {
        Some(p) => Some(p@),
        None => opt_view(w.interface),
    }
}

/// The `wg-quick` call for a tunnel, or why there is none: a manual tunnel
/// is not driven, and one with neither config file nor interface cannot be.
pub open spec fn wg_quick_plan(w: WireGuardTunnelConfig, action: Seq<char>) -> Result<(Seq<char>, Seq<char>), Seq<char>> {
    if w.mode != WireGuardMode::WgQuick {
        Err("WireGuard tunnel '"@ + w.name@ + "' is manual and cannot be controlled by Loopbox."@)
    } else {
        match wg_quick_target(w) {
            Some(t) => Ok((action, t)),
            None => Err("WireGuard tunnel '"@ + w.name@ + "' needs config_path or interface."@),
        }
    }
}

/// The `wg-quick` call that brings a cluster's tunnel up or down.
pub open spec fn cluster_wg_quick_plan(cs: Seq<KubernetesClusterConfig>, name: Seq<char>, action: Seq<char>) -> Result<(Seq<char>, Seq<char>), Seq<char>> {
    match cluster_index(cs, name) {
        None => Err(cluster_not_found_message(name)),
        Some(k) => match cs[k].wireguard {
            None => Err("Kubernetes cluster '"@ + name + "' has no WireGuard tunnel."@),
            Some(w) => wg_quick_plan(w, action),
        },
    }
}

pub open spec fn command_view(r: Result<WgQuickCommand, String>) -> Result<(Seq<char>, Seq<char>), Seq<char>> {
    match r {
        Ok(c) => Ok((c.action@, c.target@)),
        Err(e) => Err(e@),
    }
}

fn wg_quick_command(w: &WireGuardTunnelConfig, action: &str) -> (r: Result<WgQuickCommand, String>)
    ensures
        command_view(r) == wg_quick_plan(*w, action@),
{
    if w.mode != WireGuardMode::WgQuick {
        return Err(quoted("WireGuard tunnel '", w.name.as_str(), "' is manual and cannot be controlled by Loopbox."));
    }
    let target = match &w.config_path {
        Some(p) => p.clone(),
        None => match &w.interface {
            Some(i) => i.clone(),
            None => {
                return Err(quoted("WireGuard tunnel '", w.name.as_str(), "' needs config_path or interface."));
            },
        },
    };
    Ok(WgQuickCommand { action: action.to_owned(), target })
}

fn cluster_wg_quick_command(config: &LoopboxConfig, cluster_name: &str, action: &str) -> (r: Result<WgQuickCommand, String>)
    ensures
        command_view(r) == cluster_wg_quick_plan(config.global.kubernetes.clusters@, cluster_name@, action@),
{
    let cluster = match find_cluster(config, cluster_name) {
        Ok(c) => c,
        Err(e) => {
            return Err(e);
        },
    };
    match &cluster.wireguard {
        Some(w) => wg_quick_command(w, action),
        None => Err(quoted("Kubernetes cluster '", cluster_name, "' has no WireGuard tunnel.")),
    }
}

/// The `wg-quick up` call that starts a cluster's tunnel.
pub fn start_cluster_wireguard(config: &LoopboxConfig, cluster_name: &str) -> (r: Result<WgQuickCommand, String>)
    ensures
        command_view(r) == cluster_wg_quick_plan(config.global.kubernetes.clusters@, cluster_name@, "up"@),
{
    cluster_wg_quick_command(config, cluster_name, "up")
}

/// The `wg-quick down` call that stops a cluster's tunnel.
pub fn stop_cluster_wireguard(config: &LoopboxConfig, cluster_name: &str) -> (r: Result<WgQuickCommand, String>)
    ensures
        command_view(r) == cluster_wg_quick_plan(config.global.kubernetes.clusters@, cluster_name@, "down"@),
{
    cluster_wg_quick_command(config, cluster_name, "down")
}

/// Reads the outcome of a `wg-quick` call: the error output, trimmed, or a
/// stock text when there is none.
pub fn wg_quick_outcome(action: &str, success: bool, stderr: &str) -> (r: Result<(), String>)
    ensures
        success ==> r is Ok,
        !success ==> r is Err && r->Err_0@ == if trim(stderr@).len() == 0 {
            "wg-quick "@ + action@ + " exited with a non-zero status"@
        } else {
            trim(stderr@)
        },
{
    if success {
        return Ok(());
    }
    let detail = trim_str(stderr);
    if detail.len() == 0 {
        Err(quoted("wg-quick ", action, " exited with a non-zero status"))
    } else {
        Err(string_of(&detail))
    }
}

/// The outcome of a kubectl call: its output on success, else its error
/// output trimmed, or `fallback` when that is blank.
pub fn kubectl_outcome(success: bool, stdout: &str, stderr: &str, fallback: &str) -> (r: Result<String, String>)
    ensures
        success ==> r is Ok && r->Ok_0@ == stdout@,
        !success ==> r is Err && r->Err_0@ == if trim(stderr@).len() == 0 {
            fallback@
        } else {
            trim(stderr@)
        },
{
    if success {
        return Ok(stdout.to_owned());
    }
    let detail = trim_str(stderr);
    if detail.len() == 0 {
        Err(fallback.to_owned())
    } else {
        Err(string_of(&detail))
    }
}

/// The namespace a kubeconfig context selects, from the output of
/// `kubectl config view --minify -o jsonpath={..namespace}`: the trimmed
/// text, or `default` when blank.
pub fn namespace_from_kubectl_output(stdout: &str) -> (r: String)
    ensures
        r@ == if trim(stdout@).len() == 0 {
            "default"@
        } else {
            trim(stdout@)
        },
{
    let t = trim_str(stdout);
    if t.len() == 0 {
        "default".to_owned()
    } else {
        string_of(&t)
    }
}

/// The file name of a path, read as `/`-separated pieces (empty and `.`
/// pieces skipped): the last piece; none when there is none or it is `..`.
pub open spec fn last_named(ps: Seq<Seq<char>>) -> Option<Seq<char>>
    decreases ps.len(),
{
    if ps.len() == 0 {
        None
    } else if ps.last().len() == 0 || ps.last() == "."@ {
        last_named(ps.drop_last())
    } else if ps.last() == ".."@ {
        None
    } else {
        Some(ps.last())
    }
}

/// Where the last `.` of a text stands.
pub open spec fn last_dot(s: Seq<char>) -> Option<int>
    decreases s.len(),
{
    if s.len() == 0 {
        None
    } else if s.last() == '.' {
        Some(s.len() - 1)
    } else {
        last_dot(s.drop_last())
    }
}

/// The stem of a path: its file name up to the last `.`; the whole name
/// when it has no `.` or only a leading one.
pub open spec fn path_file_stem(path: Seq<char>) -> Option<Seq<char>> {
    match last_named(split_pred(path, is_char('/'))) {
        Some(name) => match last_dot(name) {
            Some(i) => if i == 0 {
                Some(name)
            } else {
                Some(name.take(i))
            },
            None => Some(name),
        },
        None => None,
    }
}

fn last_named_in(ps: &Vec<Vec<char>>, n: usize) -> (r: Option<usize>)
    requires
        n <= ps@.len(),
    ensures
        match r {
            Some(k) => k < n && last_named(views(ps@).take(n as int)) == Some(ps@[k as int]@),
            None => last_named(views(ps@).take(n as int)) is None,
        },
    decreases n,
{
    if n == 0 {
        return None;
    }
    let ghost t = views(ps@).take(n as int);
    assert(t.last() == ps@[n - 1]@);
    assert(t.drop_last() =~= views(ps@).take(n - 1));
    let p = &ps[n - 1];
    if p.len() == 0 || str_eq_chars(".", p) {
        return last_named_in(ps, n - 1);
    }
    if str_eq_chars("..", p) {
        return None;
    }
    Some(n - 1)
}

fn last_dot_in(v: &Vec<char>, n: usize) -> (r: Option<usize>)
    requires
        n <= v@.len(),
    ensures
        match r {
            Some(i) => i < n && last_dot(v@.take(n as int)) == Some(i as int),
            None => last_dot(v@.take(n as int)) is None,
        },
    decreases n,
{
    if n == 0 {
        return None;
    }
    assert(v@.take(n as int).drop_last() =~= v@.take(n - 1));
    if v[n - 1] == '.' {
        return Some(n - 1);
    }
    last_dot_in(v, n - 1)
}

/// The stem of a path (see [`path_file_stem`]).
fn file_stem_of(path: &str) -> (r: Option<String>)
    ensures
        opt_view(r) == path_file_stem(path@),
{
    let pieces = split_char_chars(&chars_of(path), '/');
    assert(views(pieces@).take(pieces@.len() as int) =~= views(pieces@));
    match last_named_in(&pieces, pieces.len()) {
        Some(k) => {
            let name = &pieces[k];
            assert(views(pieces@)[k as int] == name@);
            assert(name@.take(name@.len() as int) =~= name@);
            match last_dot_in(name, name.len()) {
                Some(i) => if i == 0 {
                    Some(string_of(name))
                } else {
                    let stem = copy_range(name, 0, i);
                    assert(stem@ =~= name@.take(i as int));
                    Some(string_of(&stem))
                },
                None => Some(string_of(name)),
            }
        },
        None => None,
    }
}

/// The interface a tunnel runs on: the one configured, else the stem of its
/// config file (when not empty).
pub open spec fn wireguard_interface(w: WireGuardTunnelConfig) -> Option<Seq<char>> {
    match w.interface {
        Some(i) => Some(i@),
        None => match w.config_path {
            Some(p) => match path_file_stem(p@) {
                Some(stem) => if stem.len() > 0 {
                    Some(stem)
                } else {
                    None
                },
                None => None,
            },
            None => None,
        },
    }
}

fn wireguard_interface_of(w: &WireGuardTunnelConfig) -> (r: Option<String>)
    ensures
        opt_view(r) == wireguard_interface(*w),
{
    match &w.interface {
        Some(i) => Some(i.clone()),
        None => match &w.config_path {
            Some(p) => match file_stem_of(p.as_str()) {
                Some(stem) => if !stem.as_str().is_empty() {
                    Some(stem)
                } else {
                    None
                },
                None => None,
            },
            None => None,
        },
    }
}

/// The interface to run `wg show` on for a cluster, when it has a tunnel
/// with a known interface.
pub fn wireguard_probe_interface(cluster: &KubernetesClusterConfig) -> (r: Option<String>)
    ensures
        opt_view(r) == match cluster.wireguard {
            Some(w) => wireguard_interface(w),
            None => None,
        },
{
    match &cluster.wireguard {
        Some(w) => wireguard_interface_of(w),
        None => None,
    }
}

/// The state of a cluster's tunnel. `show` is what running `wg show` on
/// the interface gave: the exit status and the two outputs, or the reason it
/// could not be run; it is only read when there is an interface to probe.
pub fn cluster_connectivity_state(cluster: &KubernetesClusterConfig, show: &Result<(bool, String, String), String>) -> (r: KubernetesConnectivityState)
    ensures
        match cluster.wireguard {
            None => r == KubernetesConnectivityState::NotConfigured,
            Some(w) => match wireguard_interface(w) {
                None => r is Error && r->Error_0@ == "WireGuard tunnel '"@ + w.name@ + "' has no interface or config_path."@,
                Some(_) => match show {
                    Err(e) => r is Error && r->Error_0@ == "Failed to run wg: "@ + e@,
                    Ok((success, out, err)) => if *success {
                        if trim(out@).len() > 0 {
                            r == KubernetesConnectivityState::Active
                        } else {
                            r == KubernetesConnectivityState::Inactive
                        }
                    } else if wg_interface_absent(trim(err@)) {
                        r == KubernetesConnectivityState::Inactive
                    } else {
                        r is Error && r->Error_0@ == trim(err@)
                    },
                },
            },
        },
{
    let w = match &cluster.wireguard {
        Some(w) => w,
        None => {
            return KubernetesConnectivityState::NotConfigured;
        },
    };
    match wireguard_interface_of(w) {
        None => KubernetesConnectivityState::Error(
            quoted("WireGuard tunnel '", w.name.as_str(), "' has no interface or config_path."),
        ),
        Some(_) => match show {
            Err(e) => KubernetesConnectivityState::Error(cat("Failed to run wg: ", e.as_str())),
            Ok((success, out, err)) => match wireguard_active_from_show_output(*success, out.as_str(), err.as_str()) {
                Ok(true) => KubernetesConnectivityState::Active,
                Ok(false) => KubernetesConnectivityState::Inactive,
                Err(e) => KubernetesConnectivityState::Error(e),
            },
        },
    }
}


// ---------------------------------------------------------------------------
// Which pods and routes a service reaches
// ---------------------------------------------------------------------------

/// A selector matches when it is not empty and every item is among the labels.
pub open spec fn selector_matches(selector: Seq<String>, labels: Seq<String>) -> bool {
    selector.len() > 0 && forall|i: int| 0 <= i < selector.len() ==> str_views(labels).contains(#[trigger] selector[i]@)
}

/// An endpoint slice of the service: same namespace, naming the service.
pub open spec fn slice_of_service(sl: KubernetesEndpointSliceSnapshot, sv: KubernetesServiceSnapshot) -> bool {
    sl.namespace@ == sv.namespace@ && opt_view(sl.service_name) == Some(sv.name@)
}

/// A pod the service's selector picks: same namespace, labels matching.
pub open spec fn pod_selected(p: KubernetesPodSnapshot, sv: KubernetesServiceSnapshot) -> bool {
    p.namespace@ == sv.namespace@ && selector_matches(sv.selector@, p.labels@)
}

/// An ingress routing to the service: same namespace, naming it as a backend.
pub open spec fn ingress_routes_to(g: KubernetesIngressSnapshot, sv: KubernetesServiceSnapshot) -> bool {
    g.namespace@ == sv.namespace@ && str_views(g.service_backends@).contains(sv.name@)
}

/// The routes an ingress stands for: its hosts, or its name when it has none.
pub open spec fn ingress_route_names(g: KubernetesIngressSnapshot) -> Seq<Seq<char>> {
    if g.hosts@.len() == 0 {
        seq![g.name@]
    } else {
        str_views(g.hosts@)
    }
}

/// `y` is a target pod of one of the first `n` slices of the service.
pub open spec fn endpoint_pod_upto(slices: Seq<KubernetesEndpointSliceSnapshot>, sv: KubernetesServiceSnapshot, y: Seq<char>, n: int) -> bool {
    exists|k: int| 0 <= k < n && slice_of_service(#[trigger] slices[k], sv) && str_views(slices[k].target_pods@).contains(y)
}

/// `y` names one of the first `n` pods that the service selects.
pub open spec fn selected_pod_upto(pods: Seq<KubernetesPodSnapshot>, sv: KubernetesServiceSnapshot, y: Seq<char>, n: int) -> bool {
    exists|k: int| 0 <= k < n && pod_selected(#[trigger] pods[k], sv) && pods[k].name@ == y
}

/// `y` is a route of one of the first `n` ingresses that route to the service.
pub open spec fn ingress_route_upto(ings: Seq<KubernetesIngressSnapshot>, sv: KubernetesServiceSnapshot, y: Seq<char>, n: int) -> bool {
    exists|k: int| 0 <= k < n && ingress_routes_to(#[trigger] ings[k], sv) && ingress_route_names(ings[k]).contains(y)
}

/// The pods a service reaches: named by its endpoint slices or picked by its
/// selector.
pub open spec fn service_target_pod(pods: Seq<KubernetesPodSnapshot>, slices: Seq<KubernetesEndpointSliceSnapshot>, sv: KubernetesServiceSnapshot, y: Seq<char>) -> bool {
    endpoint_pod_upto(slices, sv, y, slices.len() as int) || selected_pod_upto(pods, sv, y, pods.len() as int)
}

/// The ready endpoints of the service's slices, added up.
pub open spec fn ready_endpoint_sum(slices: Seq<KubernetesEndpointSliceSnapshot>, sv: KubernetesServiceSnapshot) -> nat
    decreases slices.len(),
{
    if slices.len() == 0 {
        0
    } else {
        ready_endpoint_sum(slices.drop_last(), sv) + if slice_of_service(slices.last(), sv) {
            slices.last().ready_endpoints as nat
        } else {
            0nat
        }
    }
}

/// What enriching does to one service: its target pods and ingress routes
/// become the sorted lists, without repeats, of what reaches it, and its
/// endpoint count the larger of its slices' ready endpoints and its target
/// pods; nothing else changes.
pub open spec fn service_enriched(
    before: KubernetesServiceSnapshot,
    after: KubernetesServiceSnapshot,
    pods: Seq<KubernetesPodSnapshot>,
    slices: Seq<KubernetesEndpointSliceSnapshot>,
    ings: Seq<KubernetesIngressSnapshot>,
) -> bool {
    &&& after.name == before.name
    &&& after.namespace == before.namespace
    &&& after.service_type == before.service_type
    &&& after.cluster_ip == before.cluster_ip
    &&& after.ports == before.ports
    &&& after.selector == before.selector
    &&& after.external_ips == before.external_ips
    &&& sorted_strict(str_views(after.target_pods@))
    &&& forall|y: Seq<char>| str_views(after.target_pods@).contains(y) <==> service_target_pod(pods, slices, before, y)
    &&& after.endpoint_count == if ready_endpoint_sum(slices, before) >= after.target_pods@.len() {
        ready_endpoint_sum(slices, before)
    } else {
        after.target_pods@.len() as nat
    }
    &&& sorted_strict(str_views(after.ingress_routes@))
    &&& forall|y: Seq<char>| str_views(after.ingress_routes@).contains(y) <==> ingress_route_upto(ings, before, y, ings.len() as int)
}

fn list_contains(v: &Vec<String>, x: &String) -> (r: bool)
    ensures
        r == str_views(v@).contains(x@),
{
    let mut i: usize = 0;
    while i < v.len()
        invariant
            i <= v@.len(),
            forall|j: int| 0 <= j < i ==> str_views(v@)[j] != x@,
        decreases v.len() - i,
    {
        assert(str_views(v@)[i as int] == v@[i as int]@);
        if v[i] == *x {
            assert(str_views(v@)[i as int] == x@);
            return true;
        }
        i = i + 1;
    }
    false
}

/// Whether a service selector picks a pod with these labels.
pub fn selector_matches_labels(selector: &Vec<String>, labels: &Vec<String>) -> (r: bool)
    ensures
        r == selector_matches(selector@, labels@),
{
    if selector.len() == 0 {
        return false;
    }
    let mut i: usize = 0;
    while i < selector.len()
        invariant
            i <= selector@.len(),
            forall|j: int| 0 <= j < i ==> str_views(labels@).contains(#[trigger] selector@[j]@),
        decreases selector.len() - i,
    {
        if !list_contains(labels, &selector[i]) {
            return false;
        }
        i = i + 1;
    }
    true
}

fn is_slice_of(sl: &KubernetesEndpointSliceSnapshot, sv: &KubernetesServiceSnapshot) -> (r: bool)
    ensures
        r == slice_of_service(*sl, *sv),
{
    sl.namespace == sv.namespace && match &sl.service_name {
        Some(n) => *n == sv.name,
        None => false,
    }
}

/// Inserts every string of `items` into the sorted list.
fn insert_all_sorted(out: &mut Vec<String>, items: &Vec<String>)
    requires
        sorted_strict(str_views(old(out)@)),
    ensures
        sorted_strict(str_views(final(out)@)),
        forall|y: Seq<char>| str_views(final(out)@).contains(y) <==> (str_views(old(out)@).contains(y) || str_views(items@).contains(y)),
{
    let ghost start = str_views(out@);
    let mut j: usize = 0;
    while j < items.len()
        invariant
            j <= items@.len(),
            sorted_strict(str_views(out@)),
            forall|y: Seq<char>| #[trigger] str_views(out@).contains(y) <==> (start.contains(y) || str_views(items@).take(j as int).contains(y)),
        decreases items.len() - j,
    {
        let ghost a = str_views(items@).take(j as int);
        let ghost b = str_views(items@).take(j + 1);
        let ghost x = items@[j as int]@;
        let ghost before = str_views(out@);
        let item = items[j].clone();
        assert(item@ == x);
        insert_sorted(out, item);
        proof {
            assert(b =~= a.push(x));
            assert forall|y: Seq<char>| str_views(out@).contains(y) <==> (start.contains(y) || b.contains(y)) by {
                assert(str_views(out@).contains(y) <==> (before.contains(y) || y == x));
                assert(before.contains(y) <==> (start.contains(y) || a.contains(y)));
                if b.contains(y) && y != x {
                    let w = choose|w: int| 0 <= w < b.len() && #[trigger] b[w] == y;
                    assert(a[w] == y);
                }
                if a.contains(y) {
                    let w = choose|w: int| 0 <= w < a.len() && #[trigger] a[w] == y;
                    assert(b[w] == y);
                }
                if y == x {
                    assert(b[j as int] == y);
                }
            }
        }
        j = j + 1;
    }
    assert(str_views(items@).take(items@.len() as int) =~= str_views(items@));
}

fn service_targets(sv: &KubernetesServiceSnapshot, pods: &Vec<KubernetesPodSnapshot>, slices: &Vec<KubernetesEndpointSliceSnapshot>) -> (r: Vec<String>)
    ensures
        sorted_strict(str_views(r@)),
        forall|y: Seq<char>| str_views(r@).contains(y) <==> service_target_pod(pods@, slices@, *sv, y),
{
    let mut out: Vec<String> = Vec::new();
    let mut k: usize = 0;
    while k < slices.len()
        invariant
            k <= slices@.len(),
            sorted_strict(str_views(out@)),
            forall|y: Seq<char>| #[trigger] str_views(out@).contains(y) <==> endpoint_pod_upto(slices@, *sv, y, k as int),
        decreases slices.len() - k,
    {
        let matches = is_slice_of(&slices[k], sv);
        let ghost before = str_views(out@);
        if matches {
            insert_all_sorted(&mut out, &slices[k].target_pods);
        }
        proof {
            assert forall|y: Seq<char>| str_views(out@).contains(y) <==> endpoint_pod_upto(slices@, *sv, y, k + 1) by {
                if endpoint_pod_upto(slices@, *sv, y, k + 1) && !endpoint_pod_upto(slices@, *sv, y, k as int) {
                    let w = choose|w: int| 0 <= w < k + 1 && slice_of_service(#[trigger] slices@[w], *sv) && str_views(slices@[w].target_pods@).contains(y);
                    assert(w == k);
                }
                if matches && str_views(slices@[k as int].target_pods@).contains(y) {
                    assert(slice_of_service(slices@[k as int], *sv));
                }
            }
        }
        k = k + 1;
    }
    let mut p: usize = 0;
    while p < pods.len()
        invariant
            p <= pods@.len(),
            sorted_strict(str_views(out@)),
            forall|y: Seq<char>| #[trigger] str_views(out@).contains(y) <==> (endpoint_pod_upto(slices@, *sv, y, slices@.len() as int) || selected_pod_upto(pods@, *sv, y, p as int)),
        decreases pods.len() - p,
    {
        let pod = &pods[p];
        let picked = pod.namespace == sv.namespace && selector_matches_labels(&sv.selector, &pod.labels);
        let ghost before = str_views(out@);
        if picked {
            insert_sorted(&mut out, pod.name.clone());
        }
        proof {
            assert forall|y: Seq<char>| str_views(out@).contains(y) <==> (endpoint_pod_upto(slices@, *sv, y, slices@.len() as int) || selected_pod_upto(pods@, *sv, y, p + 1)) by {
                if selected_pod_upto(pods@, *sv, y, p + 1) && !selected_pod_upto(pods@, *sv, y, p as int) {
                    let w = choose|w: int| 0 <= w < p + 1 && pod_selected(#[trigger] pods@[w], *sv) && pods@[w].name@ == y;
                    assert(w == p);
                }
                if picked && y == pod.name@ {
                    assert(pod_selected(pods@[p as int], *sv));
                }
            }
        }
        p = p + 1;
    }
    out
}

fn service_routes(sv: &KubernetesServiceSnapshot, ings: &Vec<KubernetesIngressSnapshot>) -> (r: Vec<String>)
    ensures
        sorted_strict(str_views(r@)),
        forall|y: Seq<char>| str_views(r@).contains(y) <==> ingress_route_upto(ings@, *sv, y, ings@.len() as int),
{
    let mut out: Vec<String> = Vec::new();
    let mut k: usize = 0;
    while k < ings.len()
        invariant
            k <= ings@.len(),
            sorted_strict(str_views(out@)),
            forall|y: Seq<char>| #[trigger] str_views(out@).contains(y) <==> ingress_route_upto(ings@, *sv, y, k as int),
        decreases ings.len() - k,
    {
        let g = &ings[k];
        let routes_here = g.namespace == sv.namespace && list_contains(&g.service_backends, &sv.name);
        let ghost before = str_views(out@);
        if routes_here {
            if g.hosts.len() == 0 {
                insert_sorted(&mut out, g.name.clone());
                assert(ingress_route_names(*g) =~= seq![g.name@]);
            } else {
                insert_all_sorted(&mut out, &g.hosts);
            }
        }
        proof {
            assert forall|y: Seq<char>| str_views(out@).contains(y) <==> ingress_route_upto(ings@, *sv, y, k + 1) by {
                assert(before.contains(y) <==> ingress_route_upto(ings@, *sv, y, k as int));
                if g.hosts@.len() == 0 {
                    if ingress_route_names(*g).contains(y) {
                        let w = choose|w: int| 0 <= w < ingress_route_names(*g).len() && #[trigger] ingress_route_names(*g)[w] == y;
                        assert(w == 0);
                    }
                    if y == g.name@ {
                        assert(ingress_route_names(*g)[0] == y);
                    }
                }
                if ingress_route_upto(ings@, *sv, y, k + 1) && !ingress_route_upto(ings@, *sv, y, k as int) {
                    let w = choose|w: int| 0 <= w < k + 1 && ingress_routes_to(#[trigger] ings@[w], *sv) && ingress_route_names(ings@[w]).contains(y);
                    assert(w == k);
                    if g.hosts@.len() == 0 {
                        assert(ingress_route_names(*g)[0] == g.name@);
                    }
                }
                if routes_here && ingress_route_names(*g).contains(y) {
                    assert(ingress_routes_to(ings@[k as int], *sv));
                }
            }
        }
        k = k + 1;
    }
    out
}

fn ready_sum(sv: &KubernetesServiceSnapshot, slices: &Vec<KubernetesEndpointSliceSnapshot>) -> (r: u64)
    requires
        ready_endpoint_sum(slices@, *sv) <= u64::MAX,
    ensures
        r == ready_endpoint_sum(slices@, *sv),
{
    let mut total: u64 = 0;
    let mut k: usize = 0;
    while k < slices.len()
        invariant
            k <= slices@.len(),
            ready_endpoint_sum(slices@, *sv) <= u64::MAX,
            total == ready_endpoint_sum(slices@.take(k as int), *sv),
        decreases slices.len() - k,
    {
        proof {
            assert(slices@.take(k + 1).drop_last() =~= slices@.take(k as int));
            lemma_ready_sum_prefix(slices@, *sv, k + 1);
        }
        if is_slice_of(&slices[k], sv) {
            total = total + slices[k].ready_endpoints;
        }
        k = k + 1;
    }
    assert(slices@.take(slices@.len() as int) =~= slices@);
    total
}

proof fn lemma_ready_sum_prefix(slices: Seq<KubernetesEndpointSliceSnapshot>, sv: KubernetesServiceSnapshot, n: int)
    requires
        0 <= n <= slices.len(),
    ensures
        ready_endpoint_sum(slices.take(n), sv) <= ready_endpoint_sum(slices, sv),
    decreases slices.len(),
{
    if n < slices.len() {
        assert(slices.drop_last().take(n) =~= slices.take(n));
        lemma_ready_sum_prefix(slices.drop_last(), sv, n);
    } else {
        assert(slices.take(n) =~= slices);
    }
}

fn enrich_service(sv: &mut KubernetesServiceSnapshot, pods: &Vec<KubernetesPodSnapshot>, slices: &Vec<KubernetesEndpointSliceSnapshot>, ings: &Vec<KubernetesIngressSnapshot>)
    requires
        ready_endpoint_sum(slices@, *old(sv)) <= u64::MAX,
    ensures
        service_enriched(*old(sv), *final(sv), pods@, slices@, ings@),
{
    let targets = service_targets(sv, pods, slices);
    let sum = ready_sum(sv, slices);
    let routes = service_routes(sv, ings);
    let count = targets.len() as u64;
    sv.endpoint_count = if sum >= count { sum } else { count };
    sv.target_pods = targets;
    sv.ingress_routes = routes;
}

/// Fills in, for each service, the pods it reaches (through its endpoint
/// slices or its selector), its endpoint count and the ingress routes that
/// lead to it. The ready endpoints of a service's slices must add up to a
/// number that fits in `u64`.
pub fn enrich_service_relationships(
    services: &mut Vec<KubernetesServiceSnapshot>,
    pods: &Vec<KubernetesPodSnapshot>,
    endpoint_slices: &Vec<KubernetesEndpointSliceSnapshot>,
    ingresses: &Vec<KubernetesIngressSnapshot>,
)
    requires
        forall|i: int| 0 <= i < old(services)@.len() ==> ready_endpoint_sum(endpoint_slices@, #[trigger] old(services)@[i]) <= u64::MAX,
    ensures
        final(services)@.len() == old(services)@.len(),
        forall|i: int|
            0 <= i < old(services)@.len() ==> service_enriched(
                #[trigger] old(services)@[i],
                final(services)@[i],
                pods@,
                endpoint_slices@,
                ingresses@,
            ),
{
    let ghost start = old(services)@;
    let mut i: usize = 0;
    while i < services.len()
        invariant
            i <= services@.len(),
            services@.len() == start.len(),
            start == old(services)@,
            forall|j: int| 0 <= j < start.len() ==> ready_endpoint_sum(endpoint_slices@, #[trigger] start[j]) <= u64::MAX,
            forall|j: int| 0 <= j < i ==> service_enriched(#[trigger] start[j], services@[j], pods@, endpoint_slices@, ingresses@),
            forall|j: int| i <= j < start.len() ==> #[trigger] services@[j] == start[j],
        decreases services.len() - i,
    {
        let ghost before = services@;
        let mut sv = services.remove(i);
        assert(sv == start[i as int]);
        enrich_service(&mut sv, pods, endpoint_slices, ingresses);
        services.insert(i, sv);
        assert(services@ =~= before.update(i as int, sv));
        i = i + 1;
    }
}


// ---------------------------------------------------------------------------
// Assembling a cluster snapshot from what kubectl returned
// ---------------------------------------------------------------------------

/// The workload kinds read from a namespace, each with the kubectl resource
/// that lists it, in the order they are read.
pub fn workload_resources() -> (r: Vec<(String, String)>)
    ensures
        r@.len() == 6,
        r@[0].0@ == "deployment"@ && r@[0].1@ == "deployments"@,
        r@[1].0@ == "statefulset"@ && r@[1].1@ == "statefulsets"@,
        r@[2].0@ == "daemonset"@ && r@[2].1@ == "daemonsets"@,
        r@[3].0@ == "replicaset"@ && r@[3].1@ == "replicasets"@,
        r@[4].0@ == "job"@ && r@[4].1@ == "jobs"@,
        r@[5].0@ == "cronjob"@ && r@[5].1@ == "cronjobs"@,
{
    let mut r: Vec<(String, String)> = Vec::new();
    r.push(("deployment".to_owned(), "deployments".to_owned()));
    r.push(("statefulset".to_owned(), "statefulsets".to_owned()));
    r.push(("daemonset".to_owned(), "daemonsets".to_owned()));
    r.push(("replicaset".to_owned(), "replicasets".to_owned()));
    r.push(("job".to_owned(), "jobs".to_owned()));
    r.push(("cronjob".to_owned(), "cronjobs".to_owned()));
    r
}

/// The workloads of one resource kind as kubectl returned them, or the error.
pub struct WorkloadFetch {
    pub resource: String,
    pub result: Result<Vec<KubernetesWorkloadSnapshot>, String>,
}

/// What kubectl returned for each part of a snapshot, read already, or the
/// error for that part.
pub struct ClusterFetch {
    pub namespaces: Result<Vec<String>, String>,
    pub nodes: Result<Vec<KubernetesNodeSnapshot>, String>,
    pub workloads: Vec<WorkloadFetch>,
    pub pods: Result<Vec<KubernetesPodSnapshot>, String>,
    pub services: Result<Vec<KubernetesServiceSnapshot>, String>,
    pub endpoint_slices: Result<Vec<KubernetesEndpointSliceSnapshot>, String>,
    pub ingresses: Result<Vec<KubernetesIngressSnapshot>, String>,
    pub events: Result<Vec<KubernetesEventSnapshot>, String>,
}

pub open spec fn ok_or_empty<T>(r: Result<Vec<T>, String>) -> Seq<T> {
    match r {
        Ok(v) => v@,
        Err(_) => seq![],
    }
}

pub open spec fn err_text<T>(r: Result<T, String>) -> Option<Seq<char>> {
    match r {
        Ok(_) => None,
        Err(e) => Some(e@),
    }
}

/// The first of two optional texts that is there.
pub open spec fn first_of(a: Option<Seq<char>>, b: Option<Seq<char>>) -> Option<Seq<char>> {
    if a is Some {
        a
    } else {
        b
    }
}

/// "label: error" for a part that failed.
pub open spec fn part_warning<T>(label: Seq<char>, r: Result<T, String>) -> Seq<Seq<char>> {
    match r {
        Ok(_) => seq![],
        Err(e) => seq![label + ": "@ + e@],
    }
}

pub open spec fn workload_items(ws: Seq<WorkloadFetch>) -> Seq<KubernetesWorkloadSnapshot>
    decreases ws.len(),
{
    if ws.len() == 0 {
        seq![]
    } else {
        workload_items(ws.drop_last()) + ok_or_empty(ws.last().result)
    }
}

pub open spec fn workload_first_error(ws: Seq<WorkloadFetch>) -> Option<Seq<char>>
    decreases ws.len(),
{
    if ws.len() == 0 {
        None
    } else {
        first_of(workload_first_error(ws.drop_last()), err_text(ws.last().result))
    }
}

pub open spec fn workload_warnings(ws: Seq<WorkloadFetch>) -> Seq<Seq<char>>
    decreases ws.len(),
{
    if ws.len() == 0 {
        seq![]
    } else {
        workload_warnings(ws.drop_last()) + part_warning(ws.last().resource@, ws.last().result)
    }
}

pub open spec fn connectivity_error(c: KubernetesConnectivityState) -> Option<Seq<char>> {
    match c {
        KubernetesConnectivityState::Error(e) => Some(e@),
        _ => None,
    }
}

/// The error a snapshot reports: that of the tunnel, else the first of the
/// namespace list, the workload lists and the service list that failed.
pub open spec fn snapshot_last_error(conn: KubernetesConnectivityState, f: ClusterFetch) -> Option<Seq<char>> {
    first_of(
        connectivity_error(conn),
        first_of(err_text(f.namespaces), first_of(workload_first_error(f.workloads@), err_text(f.services))),
    )
}

/// A warning for each part but the namespace list that failed, in the order
/// the parts are read.
pub open spec fn snapshot_warnings(f: ClusterFetch) -> Seq<Seq<char>> {
    part_warning("nodes"@, f.nodes) + workload_warnings(f.workloads@) + part_warning("pods"@, f.pods)
        + part_warning("services"@, f.services) + part_warning("endpointslices"@, f.endpoint_slices)
        + part_warning("ingresses"@, f.ingresses) + part_warning("events"@, f.events)
}

/// The namespace shown: the one asked for (trimmed, when not blank), else
/// the cluster's default.
pub open spec fn selected_namespace(cluster: KubernetesClusterConfig, requested: Option<Seq<char>>) -> Seq<char> {
    match requested {
        Some(o) => if trim(o).len() > 0 {
            trim(o)
        } else {
            cluster.default_namespace@
        },
        None => cluster.default_namespace@,
    }
}

/// The endpoint counts of the fetched services fit in `u64`.
pub open spec fn fetch_sums_fit(f: ClusterFetch) -> bool {
    match (f.services, f.endpoint_slices) {
        (Ok(svs), Ok(sls)) => forall|i: int| 0 <= i < svs@.len() ==> ready_endpoint_sum(sls@, #[trigger] svs@[i]) <= u64::MAX,
        _ => true,
    }
}

fn ready_sum_fits(sv: &KubernetesServiceSnapshot, slices: &Vec<KubernetesEndpointSliceSnapshot>) -> (r: bool)
    ensures
        r == (ready_endpoint_sum(slices@, *sv) <= u64::MAX),
{
    let mut total: u64 = 0;
    let mut k: usize = 0;
    while k < slices.len()
        invariant
            k <= slices@.len(),
            total == ready_endpoint_sum(slices@.take(k as int), *sv),
        decreases slices.len() - k,
    {
        proof {
            assert(slices@.take(k + 1).drop_last() =~= slices@.take(k as int));
        }
        if is_slice_of(&slices[k], sv) {
            if slices[k].ready_endpoints > u64::MAX - total {
                proof {
                    lemma_ready_sum_prefix(slices@, *sv, k + 1);
                }
                return false;
            }
            total = total + slices[k].ready_endpoints;
        }
        k = k + 1;
    }
    assert(slices@.take(slices@.len() as int) =~= slices@);
    true
}

/// Whether the ready endpoints of each fetched service's slices add up to a
/// `u64`, as building a snapshot needs.
pub fn fetch_sums_fit_in(fetch: &ClusterFetch) -> (r: bool)
    ensures
        r == fetch_sums_fit(*fetch),
{
    match (&fetch.services, &fetch.endpoint_slices) {
        (Ok(svs), Ok(sls)) => {
            let mut i: usize = 0;
            while i < svs.len()
                invariant
                    i <= svs@.len(),
                    fetch_sums_fit(*fetch) == forall|j: int|
                        0 <= j < svs@.len() ==> ready_endpoint_sum(sls@, #[trigger] svs@[j]) <= u64::MAX,
                    forall|j: int| 0 <= j < i ==> ready_endpoint_sum(sls@, #[trigger] svs@[j]) <= u64::MAX,
                decreases svs.len() - i,
            {
                if !ready_sum_fits(&svs[i], sls) {
                    assert(ready_endpoint_sum(sls@, svs@[i as int]) > u64::MAX);
                    return false;
                }
                i = i + 1;
            }
            true
        },
        _ => true,
    }
}

/// The snapshot of a cluster built from what was fetched.
pub open spec fn snapshot_assembled(
    r: KubernetesClusterSnapshot,
    cluster: KubernetesClusterConfig,
    requested: Option<Seq<char>>,
    conn: KubernetesConnectivityState,
    f: ClusterFetch,
) -> bool {
    &&& r.name == cluster.name
    &&& r.provider == cluster.provider
    &&& r.context == cluster.context
    &&& r.default_namespace == cluster.default_namespace
    &&& r.selected_namespace@ == selected_namespace(cluster, requested)
    &&& r.connectivity == conn
    &&& r.namespaces@ == ok_or_empty(f.namespaces).map_values(|n: String| KubernetesNamespaceSnapshot { name: n })
    &&& r.nodes@ == ok_or_empty(f.nodes)
    &&& r.workloads@ == workload_items(f.workloads@)
    &&& r.pods@ == ok_or_empty(f.pods)
    &&& r.endpoint_slices@ == ok_or_empty(f.endpoint_slices)
    &&& r.ingresses@ == ok_or_empty(f.ingresses)
    &&& r.events@ == ok_or_empty(f.events)
    &&& r.services@.len() == ok_or_empty(f.services).len()
    &&& forall|i: int| 0 <= i < r.services@.len() ==> service_enriched(
        #[trigger] ok_or_empty(f.services)[i],
        r.services@[i],
        r.pods@,
        r.endpoint_slices@,
        r.ingresses@,
    )
    &&& str_views(r.warnings@) == snapshot_warnings(f)
    &&& opt_view(r.last_error) == snapshot_last_error(conn, f)
    &&& node_views(r.topology.nodes@) == topology_nodes(r)
    &&& edge_views(r.topology.edges@) == topology_edges(r)
}

fn take_list<T>(r: Result<Vec<T>, String>) -> (out: Vec<T>)
    ensures
        out@ == ok_or_empty(r),
{
    match r {
        Ok(v) => v,
        Err(_) => Vec::new(),
    }
}

fn push_part_warning<T>(warnings: &mut Vec<String>, label: &str, r: &Result<T, String>)
    ensures
        str_views(final(warnings)@) == str_views(old(warnings)@) + part_warning(label@, *r),
{
    let ghost before = str_views(warnings@);
    match r {
        Ok(_) => {
            assert(str_views(warnings@) =~= before + seq![]);
        },
        Err(e) => {
            warnings.push(quoted(label, ": ", e.as_str()));
            assert(str_views(warnings@) =~= before + part_warning(label@, *r));
        },
    }
}

fn namespace_snapshots(names: &Vec<String>) -> (r: Vec<KubernetesNamespaceSnapshot>)
    ensures
        r@ == names@.map_values(|n: String| KubernetesNamespaceSnapshot { name: n }),
{
    let mut r: Vec<KubernetesNamespaceSnapshot> = Vec::new();
    let mut i: usize = 0;
    while i < names.len()
        invariant
            i <= names@.len(),
            r@ == names@.take(i as int).map_values(|n: String| KubernetesNamespaceSnapshot { name: n }),
        decreases names.len() - i,
    {
        r.push(KubernetesNamespaceSnapshot { name: names[i].clone() });
        assert(r@ =~= names@.take(i + 1).map_values(|n: String| KubernetesNamespaceSnapshot { name: n }));
        i = i + 1;
    }
    assert(names@.take(names@.len() as int) =~= names@);
    r
}

/// Collects the workload lists, the first workload error and the warnings
/// of the failed kinds.
fn gather_workloads(workloads: Vec<WorkloadFetch>, warnings: &mut Vec<String>) -> (r: (Vec<KubernetesWorkloadSnapshot>, Option<String>))
    ensures
        r.0@ == workload_items(workloads@),
        opt_view(r.1) == workload_first_error(workloads@),
        str_views(final(warnings)@) == str_views(old(warnings)@) + workload_warnings(workloads@),
{
    let ghost all = workloads@;
    let ghost start = str_views(warnings@);
    let n = workloads.len();
    let mut rest = workloads;
    let mut items: Vec<KubernetesWorkloadSnapshot> = Vec::new();
    let mut first: Option<String> = None;
    let mut i: usize = 0;
    while rest.len() > 0
        invariant
            i <= all.len(),
            all.len() == n,
            rest@ == all.skip(i as int),
            items@ == workload_items(all.take(i as int)),
            opt_view(first) == workload_first_error(all.take(i as int)),
            str_views(warnings@) == start + workload_warnings(all.take(i as int)),
        decreases rest.len(),
    {
        let wf = rest.remove(0);
        assert(wf == all[i as int]);
        assert(all.take(i + 1).drop_last() =~= all.take(i as int));
        assert(rest@ =~= all.skip(i + 1));
        let ghost w_before = str_views(warnings@);
        push_part_warning(warnings, wf.resource.as_str(), &wf.result);
        assert(str_views(warnings@) =~= start + workload_warnings(all.take(i + 1)));
        match wf.result {
            Ok(v) => {
                let mut v = v;
                items.append(&mut v);
            },
            Err(e) => {
                if first.is_none() {
                    first = Some(e);
                }
            },
        }
        i = i + 1;
    }
    assert(all.take(i as int) =~= all);
    (items, first)
}

/// The namespace a snapshot shows: the one asked for, trimmed, when it is
/// not blank; else the cluster's default.
pub fn requested_namespace(cluster: &KubernetesClusterConfig, requested: Option<&str>) -> (r: String)
    ensures
        r@ == selected_namespace(
            *cluster,
            match requested {
                Some(o) => Some(o@),
                None => None,
            },
        ),
{
    match requested {
        Some(o) => {
            let t = trim_str(o);
            if t.len() > 0 {
                string_of(&t)
            } else {
                cluster.default_namespace.clone()
            }
        },
        None => cluster.default_namespace.clone(),
    }
}

fn assemble_snapshot(
    cluster: &KubernetesClusterConfig,
    requested: Option<&str>,
    connectivity: KubernetesConnectivityState,
    fetch: ClusterFetch,
) -> (r: KubernetesClusterSnapshot)
    requires
        fetch_sums_fit(fetch),
    ensures
        snapshot_assembled(
            r,
            *cluster,
            match requested {
                Some(o) => Some(o@),
                None => None,
            },
            connectivity,
            fetch,
        ),
{
    let ghost f = fetch;
    let ghost conn = connectivity;
    let mut last_error: Option<String> = match &connectivity {
        KubernetesConnectivityState::Error(e) => Some(e.clone()),
        _ => None,
    };
    let ClusterFetch { namespaces, nodes, workloads, pods, services, endpoint_slices, ingresses, events } = fetch;
    let namespace_list = match &namespaces {
        Ok(names) => namespace_snapshots(names),
        Err(e) => {
            if last_error.is_none() {
                last_error = Some(e.clone());
            }
            Vec::new()
        },
    };
    let selected = requested_namespace(cluster, requested);
    let mut warnings: Vec<String> = Vec::new();
    let ghost w0 = str_views(warnings@);
    push_part_warning(&mut warnings, "nodes", &nodes);
    let node_list = take_list(nodes);
    let (workload_list, workload_error) = gather_workloads(workloads, &mut warnings);
    if last_error.is_none() {
        last_error = workload_error;
    }
    push_part_warning(&mut warnings, "pods", &pods);
    let pod_list = take_list(pods);
    push_part_warning(&mut warnings, "services", &services);
    match &services {
        Ok(_) => {},
        Err(e) => {
            if last_error.is_none() {
                last_error = Some(e.clone());
            }
        },
    }
    let ghost service_input = ok_or_empty(services);
    let mut service_list = take_list(services);
    push_part_warning(&mut warnings, "endpointslices", &endpoint_slices);
    let slice_list = take_list(endpoint_slices);
    push_part_warning(&mut warnings, "ingresses", &ingresses);
    let ingress_list = take_list(ingresses);
    push_part_warning(&mut warnings, "events", &events);
    let event_list = take_list(events);
    proof {
        assert(w0 =~= seq![]);
        if service_input.len() > 0 {
            assert(f.services is Ok);
            if f.endpoint_slices is Err {
                assert(slice_list@ =~= seq![]);
            }
        }
        assert forall|i: int| 0 <= i < service_list@.len() implies ready_endpoint_sum(slice_list@, #[trigger] service_list@[i]) <= u64::MAX by {
            if f.endpoint_slices is Err {
                assert(slice_list@ =~= seq![]);
                assert(ready_endpoint_sum(slice_list@, service_list@[i]) == 0);
            }
        }
    }
    enrich_service_relationships(&mut service_list, &pod_list, &slice_list, &ingress_list);
    let mut snapshot = KubernetesClusterSnapshot {
        name: cluster.name.clone(),
        provider: cluster.provider,
        context: cluster.context.clone(),
        default_namespace: cluster.default_namespace.clone(),
        selected_namespace: selected,
        connectivity,
        namespaces: namespace_list,
        workloads: workload_list,
        services: service_list,
        nodes: node_list,
        pods: pod_list,
        ingresses: ingress_list,
        endpoint_slices: slice_list,
        events: event_list,
        topology: KubernetesTopologySnapshot::default(),
        warnings,
        last_error,
    };
    let topology = build_kubernetes_topology(&snapshot);
    snapshot.topology = topology;
    let ghost rq = match requested {
        Some(o) => Some(o@),
        None => None,
    };
    assert(snapshot.name == cluster.name);
    assert(snapshot.selected_namespace@ == selected_namespace(*cluster, rq));
    assert(snapshot.namespaces@ == ok_or_empty(f.namespaces).map_values(|n: String| KubernetesNamespaceSnapshot { name: n }));
    assert(snapshot.nodes@ == ok_or_empty(f.nodes));
    assert(snapshot.workloads@ == workload_items(f.workloads@));
    assert(str_views(snapshot.warnings@) == snapshot_warnings(f));
    assert(opt_view(snapshot.last_error) == snapshot_last_error(conn, f));
    assert(node_views(snapshot.topology.nodes@) == topology_nodes(snapshot));
    assert(edge_views(snapshot.topology.edges@) == topology_edges(snapshot));
    assert(snapshot.pods@ == ok_or_empty(f.pods));
    assert(snapshot.endpoint_slices@ == ok_or_empty(f.endpoint_slices));
    assert(snapshot.ingresses@ == ok_or_empty(f.ingresses));
    assert(snapshot.events@ == ok_or_empty(f.events));
    assert(snapshot.services@.len() == ok_or_empty(f.services).len());
    assert(snapshot.connectivity == conn);
    snapshot
}

pub open spec fn requested_view(o: Option<&str>) -> Option<Seq<char>> {
    match o {
        Some(s) => Some(s@),
        None => None,
    }
}

/// The snapshot of the named cluster for a namespace (its default one when
/// none, or a blank one, is asked for), built from what kubectl returned for
/// it and the state of its tunnel.
pub fn cluster_snapshot_for_namespace(
    config: &LoopboxConfig,
    cluster_name: &str,
    namespace_override: Option<&str>,
    connectivity: KubernetesConnectivityState,
    fetch: ClusterFetch,
) -> (r: Result<KubernetesClusterSnapshot, String>)
    requires
        fetch_sums_fit(fetch),
    ensures
        match cluster_index(config.global.kubernetes.clusters@, cluster_name@) {
            None => r is Err && r->Err_0@ == cluster_not_found_message(cluster_name@),
            Some(k) => r is Ok && snapshot_assembled(
                r->Ok_0,
                config.global.kubernetes.clusters@[k],
                requested_view(namespace_override),
                connectivity,
                fetch,
            ),
        },
{
    let cluster = match find_cluster(config, cluster_name) {
        Ok(c) => c,
        Err(e) => {
            return Err(e);
        },
    };
    Ok(assemble_snapshot(cluster, namespace_override, connectivity, fetch))
}

/// The snapshot of the named cluster for its default namespace.
pub fn cluster_snapshot(
    config: &LoopboxConfig,
    cluster_name: &str,
    connectivity: KubernetesConnectivityState,
    fetch: ClusterFetch,
) -> (r: Result<KubernetesClusterSnapshot, String>)
    requires
        fetch_sums_fit(fetch),
    ensures
        match cluster_index(config.global.kubernetes.clusters@, cluster_name@) {
            None => r is Err && r->Err_0@ == cluster_not_found_message(cluster_name@),
            Some(k) => r is Ok && snapshot_assembled(
                r->Ok_0,
                config.global.kubernetes.clusters@[k],
                None,
                connectivity,
                fetch,
            ),
        },
{
    cluster_snapshot_for_namespace(config, cluster_name, None, connectivity, fetch)
}


proof fn lemma_cluster_index_found(cs: Seq<KubernetesClusterConfig>, name: Seq<char>, i: int)
    requires
        0 <= i < cs.len(),
        cs[i].name@ == name,
    ensures
        cluster_index(cs, name) is Some,
        cluster_index(cs, name).unwrap() <= i,
    decreases i,
{
    if exists|j: int| 0 <= j < i && (#[trigger] cs[j]).name@ == name {
        let j = choose|j: int| 0 <= j < i && (#[trigger] cs[j]).name@ == name;
        lemma_cluster_index_found(cs, name, j);
    } else {
        assert(forall|j: int| 0 <= j < i ==> (#[trigger] cs[j]).name@ != name);
        let k = choose|k: int| 0 <= k < cs.len() && cs[k].name@ == name && forall|j: int| 0 <= j < k ==> (#[trigger] cs[j]).name@ != name;
        if k > i {
            assert(cs[i].name@ != name);
        }
    }
}

/// The snapshots of all configured clusters, in order. `inputs` holds, for
/// each configured cluster, the state of its tunnel and what was fetched for
/// it (for the first cluster of its name, as that is the one a name finds).
pub fn cluster_summaries(config: &LoopboxConfig, inputs: Vec<(KubernetesConnectivityState, ClusterFetch)>) -> (r: Result<Vec<KubernetesClusterSnapshot>, String>)
    requires
        inputs@.len() == config.global.kubernetes.clusters@.len(),
        forall|i: int| 0 <= i < inputs@.len() ==> fetch_sums_fit(#[trigger] inputs@[i].1),
    ensures
        r is Ok,
        r->Ok_0@.len() == config.global.kubernetes.clusters@.len(),
        forall|i: int|
            0 <= i < r->Ok_0@.len() ==> snapshot_assembled(
                #[trigger] r->Ok_0@[i],
                config.global.kubernetes.clusters@[cluster_index(
                    config.global.kubernetes.clusters@,
                    config.global.kubernetes.clusters@[i].name@,
                ).unwrap()],
                None,
                inputs@[i].0,
                inputs@[i].1,
            ),
{
    let ghost all = inputs@;
    let ghost cs = config.global.kubernetes.clusters@;
    let n = inputs.len();
    let mut rest = inputs;
    let mut out: Vec<KubernetesClusterSnapshot> = Vec::new();
    let mut i: usize = 0;
    while rest.len() > 0
        invariant
            i <= all.len(),
            all.len() == n,
            n == cs.len(),
            cs == config.global.kubernetes.clusters@,
            rest@ == all.skip(i as int),
            out@.len() == i,
            forall|j: int| 0 <= j < all.len() ==> fetch_sums_fit(#[trigger] all[j].1),
            forall|j: int|
                0 <= j < i ==> snapshot_assembled(
                    #[trigger] out@[j],
                    cs[cluster_index(cs, cs[j].name@).unwrap()],
                    None,
                    all[j].0,
                    all[j].1,
                ),
        decreases rest.len(),
    {
        let (conn, fetch) = rest.remove(0);
        assert(rest@ =~= all.skip(i + 1));
        assert(all[i as int] == (conn, fetch));
        proof {
            lemma_cluster_index_found(cs, cs[i as int].name@, i as int);
        }
        let name = &config.global.kubernetes.clusters[i].name;
        match cluster_snapshot(config, name.as_str(), conn, fetch) {
            Ok(snap) => {
                out.push(snap);
            },
            Err(_) => {
                assert(false);
            },
        }
        i = i + 1;
    }
    Ok(out)
}

// ---------------------------------------------------------------------------
// Discovering kubeconfig contexts
// ---------------------------------------------------------------------------

/// What was learnt of one kubeconfig context: its name, its default
/// namespace and whether it answers.
pub struct ContextProbe {
    pub context: String,
    pub default_namespace: Result<String, String>,
    pub reachable: Result<(), String>,
}

/// The contexts of one kubeconfig file (none: kubectl's default), or why they
/// could not be listed.
pub struct KubeconfigProbe {
    pub kubeconfig_path: Option<String>,
    pub contexts: Result<Vec<ContextProbe>, String>,
}

/// A discovered context as plain values.
pub struct DiscoveryView {
    pub name: Seq<char>,
    pub provider: KubernetesProvider,
    pub kubeconfig_path: Option<Seq<char>>,
    pub context: Seq<char>,
    pub default_namespace: Seq<char>,
    pub already_configured: bool,
    pub reachable: bool,
    pub error: Option<Seq<char>>,
}

pub open spec fn discovery_view(d: KubernetesClusterDiscovery) -> DiscoveryView {
    DiscoveryView {
        name: d.name@,
        provider: d.provider,
        kubeconfig_path: opt_view(d.kubeconfig_path),
        context: d.context@,
        default_namespace: d.default_namespace@,
        already_configured: d.already_configured,
        reachable: d.reachable,
        error: opt_view(d.error),
    }
}

pub open spec fn discovery_views(ds: Seq<KubernetesClusterDiscovery>) -> Seq<DiscoveryView> {
    ds.map_values(|d: KubernetesClusterDiscovery| discovery_view(d))
}

/// A context found in a kubeconfig file.
pub struct FoundContext {
    pub path: Option<Seq<char>>,
    pub context: Seq<char>,
    pub default_namespace: Option<Seq<char>>,
    pub reach_error: Option<Option<Seq<char>>>,
}

pub open spec fn found_context(path: Option<String>, cp: ContextProbe) -> FoundContext {
    FoundContext {
        path: opt_view(path),
        context: cp.context@,
        default_namespace: match cp.default_namespace {
            Ok(n) => Some(n@),
            Err(_) => None,
        },
        reach_error: match cp.reachable {
            Ok(_) => None,
            Err(e) => Some(Some(e@)),
        },
    }
}

/// All contexts found, file after file.
pub open spec fn found_contexts(probes: Seq<KubeconfigProbe>) -> Seq<FoundContext>
    decreases probes.len(),
{
    if probes.len() == 0 {
        seq![]
    } else {
        found_contexts(probes.drop_last()) + match probes.last().contexts {
            Ok(cps) => cps@.map_values(|cp: ContextProbe| found_context(probes.last().kubeconfig_path, cp)),
            Err(_) => seq![],
        }
    }
}

/// The first file whose contexts could not be listed, with its error.
pub open spec fn first_listing_error(probes: Seq<KubeconfigProbe>) -> Option<Seq<char>>
    decreases probes.len(),
{
    if probes.len() == 0 {
        None
    } else {
        first_of(first_listing_error(probes.drop_last()), err_text(probes.last().contexts))
    }
}

/// The key that makes a context unique: its file (or nothing), a bar, its name.
pub open spec fn discovery_key(f: FoundContext) -> Seq<char> {
    let file = match f.path {
        Some(p) => p,
        None => seq![],
    };
    file + "|"@ + f.context
}

/// Each new context in turn, named so that no configured cluster and no
/// context before it has its name; a context whose key came before is left out.
pub open spec fn discovered(config_clusters: Seq<KubernetesClusterConfig>, found: Seq<FoundContext>) -> Seq<DiscoveryView>
    decreases found.len(),
{
    if found.len() == 0 {
        seq![]
    } else {
        let prev = discovered(config_clusters, found.drop_last());
        let f = found.last();
        if exists|j: int| 0 <= j < found.len() - 1 && discovery_key(#[trigger] found[j]) == discovery_key(f) {
            prev
        } else {
            prev.push(
                DiscoveryView {
                    name: unique_name(f.context, used_names(config_clusters, prev.map_values(|d: DiscoveryView| d.name))),
                    provider: KubernetesProvider::KubeconfigContext,
                    kubeconfig_path: f.path,
                    context: f.context,
                    default_namespace: match f.default_namespace {
                        Some(n) => n,
                        None => "default"@,
                    },
                    already_configured: is_configured(cluster_views(config_clusters), f.path, f.context),
                    reachable: f.reach_error is None,
                    error: match f.reach_error {
                        Some(e) => e,
                        None => None,
                    },
                },
            )
        }
    }
}

/// `x` placed after every element whose name is not after its own.
pub open spec fn insert_by_name(sorted: Seq<DiscoveryView>, x: DiscoveryView) -> Seq<DiscoveryView>
    decreases sorted.len(),
{
    if sorted.len() == 0 {
        seq![x]
    } else if key_lt(x.name, sorted.last().name) {
        insert_by_name(sorted.drop_last(), x).push(sorted.last())
    } else {
        sorted.push(x)
    }
}

/// A stable sort by name.
pub open spec fn sort_by_name(s: Seq<DiscoveryView>) -> Seq<DiscoveryView>
    decreases s.len(),
{
    if s.len() == 0 {
        s
    } else {
        insert_by_name(sort_by_name(s.drop_last()), s.last())
    }
}

proof fn lemma_insert_by_name(sorted: Seq<DiscoveryView>, x: DiscoveryView, pos: int)
    requires
        0 <= pos <= sorted.len(),
        forall|j: int| pos <= j < sorted.len() ==> key_lt(x.name, #[trigger] sorted[j].name),
        pos == 0 || !key_lt(x.name, sorted[pos - 1].name),
    ensures
        insert_by_name(sorted, x) == sorted.take(pos).push(x) + sorted.skip(pos),
    decreases sorted.len(),
{
    if sorted.len() == 0 {
        assert(sorted.take(pos).push(x) + sorted.skip(pos) =~= seq![x]);
    } else if pos == sorted.len() {
        assert(sorted.take(pos).push(x) + sorted.skip(pos) =~= sorted.push(x));
    } else {
        lemma_insert_by_name(sorted.drop_last(), x, pos);
        assert(sorted.drop_last().take(pos) =~= sorted.take(pos));
        assert((sorted.take(pos).push(x) + sorted.drop_last().skip(pos)).push(sorted.last()) =~= sorted.take(pos).push(x)
            + sorted.skip(pos));
    }
}

/// Names never decrease along the list.
pub open spec fn sorted_by_name(s: Seq<DiscoveryView>) -> bool {
    forall|i: int, j: int| 0 <= i < j < s.len() ==> !key_lt((#[trigger] s[j]).name, (#[trigger] s[i]).name)
}

proof fn lemma_not_lt_trans(a: Seq<char>, b: Seq<char>, c: Seq<char>)
    requires
        !key_lt(b, a),
        !key_lt(c, b),
    ensures
        !key_lt(c, a),
{
    lemma_key_lt_total(a, b);
    lemma_key_lt_total(b, c);
    if key_lt(c, a) {
        if key_lt(a, b) {
            lemma_key_lt_transitive(c, a, b);
            if key_lt(b, c) {
                lemma_key_lt_transitive(c, b, c);
                lemma_key_lt_irreflexive(c);
            }
        }
    }
}

proof fn lemma_insert_by_name_parts(sorted: Seq<DiscoveryView>, x: DiscoveryView)
    ensures
        insert_by_name(sorted, x).len() == sorted.len() + 1,
        forall|i: int| 0 <= i < insert_by_name(sorted, x).len() ==> (#[trigger] insert_by_name(sorted, x)[i] == x
            || sorted.contains(insert_by_name(sorted, x)[i])),
        insert_by_name(sorted, x).to_multiset() == sorted.to_multiset().insert(x),
    decreases sorted.len(),
{
    broadcast use vstd::seq_lib::group_to_multiset_ensures;
    if sorted.len() > 0 && key_lt(x.name, sorted.last().name) {
        lemma_insert_by_name_parts(sorted.drop_last(), x);
        let r = insert_by_name(sorted, x);
        let inner = insert_by_name(sorted.drop_last(), x);
        assert forall|i: int| 0 <= i < r.len() implies (#[trigger] r[i] == x || sorted.contains(r[i])) by {
            if i < inner.len() {
                if inner[i] != x {
                    let w = choose|w: int| 0 <= w < sorted.drop_last().len() && sorted.drop_last()[w] == inner[i];
                    assert(sorted[w] == inner[i]);
                }
            } else {
                assert(r[i] == sorted[sorted.len() - 1]);
            }
        }
        assert(sorted =~= sorted.drop_last().push(sorted.last()));
    }
}

proof fn lemma_insert_by_name_sorted(sorted: Seq<DiscoveryView>, x: DiscoveryView)
    requires
        sorted_by_name(sorted),
    ensures
        sorted_by_name(insert_by_name(sorted, x)),
    decreases sorted.len(),
{
    let r = insert_by_name(sorted, x);
    if sorted.len() == 0 {
    } else if key_lt(x.name, sorted.last().name) {
        let last = sorted.last();
        let inner = insert_by_name(sorted.drop_last(), x);
        lemma_insert_by_name_sorted(sorted.drop_last(), x);
        lemma_insert_by_name_parts(sorted.drop_last(), x);
        assert forall|i: int, j: int| 0 <= i < j < r.len() implies !key_lt((#[trigger] r[j]).name, (#[trigger] r[i]).name) by {
            if j == r.len() - 1 {
                assert(r[j] == last);
                assert(r[i] == inner[i]);
                if inner[i] == x {
                    lemma_key_lt_total(x.name, last.name);
                    if key_lt(last.name, x.name) {
                        lemma_key_lt_transitive(x.name, last.name, x.name);
                        lemma_key_lt_irreflexive(x.name);
                    }
                } else {
                    let w = choose|w: int| 0 <= w < sorted.drop_last().len() && sorted.drop_last()[w] == inner[i];
                    assert(sorted[w] == inner[i]);
                    assert(!key_lt(sorted[sorted.len() - 1].name, sorted[w].name));
                }
            } else {
                assert(r[i] == inner[i] && r[j] == inner[j]);
            }
        }
    } else {
        assert forall|i: int, j: int| 0 <= i < j < r.len() implies !key_lt((#[trigger] r[j]).name, (#[trigger] r[i]).name) by {
            if j == r.len() - 1 {
                assert(r[j] == x);
                if i < sorted.len() - 1 {
                    assert(!key_lt(sorted[sorted.len() - 1].name, sorted[i].name));
                    lemma_not_lt_trans(sorted[i].name, sorted.last().name, x.name);
                }
            } else {
                assert(r[i] == sorted[i] && r[j] == sorted[j]);
            }
        }
    }
}

/// Discovered contexts come out sorted by name, and are the same contexts
/// as before sorting, each as often.
pub proof fn law_discovery_sorted(s: Seq<DiscoveryView>)
    ensures
        sorted_by_name(sort_by_name(s)),
        sort_by_name(s).to_multiset() == s.to_multiset(),
    decreases s.len(),
{
    broadcast use vstd::seq_lib::group_to_multiset_ensures;
    if s.len() > 0 {
        law_discovery_sorted(s.drop_last());
        lemma_insert_by_name_sorted(sort_by_name(s.drop_last()), s.last());
        lemma_insert_by_name_parts(sort_by_name(s.drop_last()), s.last());
        assert(s =~= s.drop_last().push(s.last()));
    }
}

fn insert_discovery(out: &mut Vec<KubernetesClusterDiscovery>, d: KubernetesClusterDiscovery)
    ensures
        discovery_views(final(out)@) == insert_by_name(discovery_views(old(out)@), discovery_view(d)),
{
    let ghost sv = discovery_views(out@);
    let name = chars_of(d.name.as_str());
    let mut pos: usize = out.len();
    let mut done = false;
    while pos > 0 && !done
        invariant
            pos <= out@.len(),
            sv == discovery_views(out@),
            name@ == d.name@,
            forall|j: int| pos <= j < out@.len() ==> key_lt(d.name@, #[trigger] sv[j].name),
            done ==> pos > 0 && !key_lt(d.name@, sv[pos - 1].name),
        decreases pos * 2 + if done {
            0int
        } else {
            1int
        },
    {
        let other = chars_of(out[pos - 1].name.as_str());
        assert(sv[pos - 1].name == other@);
        if key_lt_chars(&name, &other) {
            pos = pos - 1;
        } else {
            done = true;
        }
    }
    proof {
        if pos > 0 {
            assert(sv[pos - 1].name == out@[pos - 1].name@);
        }
        lemma_insert_by_name(sv, discovery_view(d), pos as int);
    }
    let ghost before = out@;
    out.insert(pos, d);
    assert(discovery_views(out@) =~= sv.take(pos as int).push(discovery_view(d)) + sv.skip(pos as int));
}

fn key_of(path: &Option<String>, context: &String) -> (r: Vec<char>)
    ensures
        r@ == discovery_key(FoundContext { path: opt_view(*path), context: context@, default_namespace: None, reach_error: None }),
{
    let mut r: Vec<char> = match path {
        Some(p) => chars_of(p.as_str()),
        None => Vec::new(),
    };
    crate::text::append_str(&mut r, "|");
    crate::text::append_str(&mut r, context.as_str());
    r
}

fn key_seen(seen: &Vec<Vec<char>>, key: &Vec<char>) -> (r: bool)
    ensures
        r == views(seen@).contains(key@),
{
    let mut i: usize = 0;
    while i < seen.len()
        invariant
            i <= seen@.len(),
            forall|j: int| 0 <= j < i ==> views(seen@)[j] != key@,
        decreases seen.len() - i,
    {
        if crate::text::chars_eq(&seen[i], key) {
            assert(views(seen@)[i as int] == key@);
            return true;
        }
        i = i + 1;
    }
    false
}

/// The contexts of the kubeconfig files, each once (by file and name), with
/// a unique cluster name, whether it is already configured, its default
/// namespace ("default" when it could not be read) and whether it answers;
/// sorted by name. The first file whose contexts could not be listed fails
/// the whole discovery.
pub fn discover_kubernetes_clusters(config: &LoopboxConfig, probes: Vec<KubeconfigProbe>) -> (r: Result<Vec<KubernetesClusterDiscovery>, String>)
    ensures
        match first_listing_error(probes@) {
            Some(e) => r is Err && r->Err_0@ == e,
            None => r is Ok && discovery_views(r->Ok_0@) == sort_by_name(
                discovered(config.global.kubernetes.clusters@, found_contexts(probes@)),
            ),
        },
{
    let ghost all = probes@;
    let ghost cs = config.global.kubernetes.clusters@;
    let n = probes.len();
    let mut rest = probes;
    let mut found_list: Vec<KubernetesClusterDiscovery> = Vec::new();
    let mut seen: Vec<Vec<char>> = Vec::new();
    let mut names: Vec<String> = Vec::new();
    let mut i: usize = 0;
    while rest.len() > 0
        invariant
            i <= all.len(),
            all.len() == n,
            all == probes@,
            cs == config.global.kubernetes.clusters@,
            rest@ == all.skip(i as int),
            first_listing_error(all.take(i as int)) is None,
            discovery_views(found_list@) == discovered(cs, found_contexts(all.take(i as int))),
            str_views(names@) == discovery_views(found_list@).map_values(|d: DiscoveryView| d.name),
            forall|y: Seq<char>| views(seen@).contains(y) <==> exists|j: int| 0 <= j < found_contexts(all.take(i as int)).len() && discovery_key(#[trigger] found_contexts(all.take(i as int))[j]) == y,
        decreases rest.len(),
    {
        let probe = rest.remove(0);
        assert(rest@ =~= all.skip(i + 1));
        assert(all[i as int] == probe);
        assert(all.take(i + 1).drop_last() =~= all.take(i as int));
        let cps = match probe.contexts {
            Ok(v) => v,
            Err(e) => {
                assert(first_listing_error(all.take(i + 1)) == Some(e@));
                proof {
                    lemma_first_listing_error_prefix(all, i as int + 1);
                }
                assert(first_listing_error(probes@) == Some(e@));
                return Err(e);
            },
        };
        let ghost base = found_contexts(all.take(i as int));
        let ghost added = cps@.map_values(|cp: ContextProbe| found_context(probe.kubeconfig_path, cp));
        let mut k: usize = 0;
        while k < cps.len()
            invariant
                k <= cps@.len(),
                cs == config.global.kubernetes.clusters@,
                added == cps@.map_values(|cp: ContextProbe| found_context(probe.kubeconfig_path, cp)),
                discovery_views(found_list@) == discovered(cs, base + added.take(k as int)),
                str_views(names@) == discovery_views(found_list@).map_values(|d: DiscoveryView| d.name),
                forall|y: Seq<char>| views(seen@).contains(y) <==> exists|j: int| 0 <= j < (base + added.take(k as int)).len() && discovery_key(#[trigger] (base + added.take(k as int))[j]) == y,
            decreases cps.len() - k,
        {
            let cp = &cps[k];
            let ghost prefix = base + added.take(k as int);
            let ghost next = base + added.take(k + 1);
            assert(next =~= prefix.push(found_context(probe.kubeconfig_path, cps@[k as int])));
            assert(next.drop_last() =~= prefix);
            let key = key_of(&probe.kubeconfig_path, &cp.context);
            assert(key@ == discovery_key(next.last()));
            if key_seen(&seen, &key) {
                proof {
                    let j = choose|j: int| 0 <= j < prefix.len() && discovery_key(#[trigger] prefix[j]) == key@;
                    assert(next[j] == prefix[j]);
                    assert forall|y: Seq<char>| views(seen@).contains(y) implies exists|j: int| 0 <= j < next.len() && discovery_key(#[trigger] next[j]) == y by {
                        let w = choose|w: int| 0 <= w < prefix.len() && discovery_key(#[trigger] prefix[w]) == y;
                        assert(next[w] == prefix[w]);
                    }
                    assert forall|y: Seq<char>| (exists|j: int| 0 <= j < next.len() && discovery_key(#[trigger] next[j]) == y) implies views(seen@).contains(y) by {
                        let w = choose|w: int| 0 <= w < next.len() && discovery_key(#[trigger] next[w]) == y;
                        if w < prefix.len() {
                            assert(prefix[w] == next[w]);
                        }
                    }
                }
            } else {
                proof {
                    assert(!exists|j: int| 0 <= j < next.len() - 1 && discovery_key(#[trigger] next[j]) == discovery_key(next.last())) by {
                        if exists|j: int| 0 <= j < next.len() - 1 && discovery_key(#[trigger] next[j]) == discovery_key(next.last()) {
                            let j = choose|j: int| 0 <= j < next.len() - 1 && discovery_key(#[trigger] next[j]) == discovery_key(next.last());
                            assert(prefix[j] == next[j]);
                        }
                    }
                }
                let ghost seen_before = views(seen@);
                seen.push(key);
                let already = cluster_already_configured(config, &probe.kubeconfig_path, cp.context.as_str());
                let namespace = match &cp.default_namespace {
                    Ok(ns) => ns.clone(),
                    Err(_) => "default".to_owned(),
                };
                let (reachable, error) = match &cp.reachable {
                    Ok(()) => (true, None),
                    Err(e) => (false, Some(e.clone())),
                };
                proof {
                    assert(used_names(cs, str_views(names@)) == used_names(cs, discovered(cs, prefix).map_values(|d: DiscoveryView| d.name)));
                }
                let name = unique_cluster_name(&config.global.kubernetes.clusters, &names, cp.context.as_str());
                let d = KubernetesClusterDiscovery {
                    name,
                    provider: KubernetesProvider::KubeconfigContext,
                    kubeconfig_path: match &probe.kubeconfig_path {
                        Some(p) => Some(p.clone()),
                        None => None,
                    },
                    context: cp.context.clone(),
                    default_namespace: namespace,
                    already_configured: already,
                    reachable,
                    error,
                };
                let ghost old_found = found_list@;
                let ghost old_names = names@;
                names.push(d.name.clone());
                found_list.push(d);
                proof {
                    assert(discovery_views(found_list@) =~= discovery_views(old_found).push(discovery_view(d)));
                    assert(str_views(names@) =~= str_views(old_names).push(d.name@));
                    assert(discovery_views(found_list@).map_values(|dv: DiscoveryView| dv.name) =~= discovery_views(old_found).map_values(|dv: DiscoveryView| dv.name).push(d.name@));
                    assert forall|y: Seq<char>| views(seen@).contains(y) <==> exists|j: int| 0 <= j < next.len() && discovery_key(#[trigger] next[j]) == y by {
                        assert(views(seen@) =~= seen_before.push(key@));
                        if views(seen@).contains(y) {
                            let w = choose|w: int| 0 <= w < views(seen@).len() && #[trigger] views(seen@)[w] == y;
                            if w < seen_before.len() {
                                assert(seen_before[w] == y);
                                assert(seen_before.contains(y));
                                let v = choose|v: int| 0 <= v < prefix.len() && discovery_key(#[trigger] prefix[v]) == y;
                                assert(next[v] == prefix[v]);
                            } else {
                                assert(discovery_key(next[next.len() - 1]) == y);
                            }
                        }
                        if exists|j: int| 0 <= j < next.len() && discovery_key(#[trigger] next[j]) == y {
                            let w = choose|w: int| 0 <= w < next.len() && discovery_key(#[trigger] next[w]) == y;
                            if w < prefix.len() {
                                assert(prefix[w] == next[w]);
                                assert(seen_before.contains(y));
                                let v = choose|v: int| 0 <= v < seen_before.len() && #[trigger] seen_before[v] == y;
                                assert(views(seen@)[v] == y);
                            } else {
                                assert(views(seen@)[seen_before.len() as int] == y);
                            }
                        }
                    }
                }
            }
            k = k + 1;
        }
        proof {
            assert(added.take(cps@.len() as int) =~= added);
            assert(found_contexts(all.take(i + 1)) == base + added);
            assert(first_listing_error(all.take(i + 1)) is None);
        }
        i = i + 1;
    }
    assert(all.take(i as int) =~= all);
    let mut sorted: Vec<KubernetesClusterDiscovery> = Vec::new();
    let ghost unsorted = discovery_views(found_list@);
    let total = found_list.len();
    let mut left = found_list;
    let mut m: usize = 0;
    while left.len() > 0
        invariant
            m <= total,
            unsorted.len() == total,
            discovery_views(left@) == unsorted.skip(m as int),
            discovery_views(sorted@) == sort_by_name(unsorted.take(m as int)),
        decreases left.len(),
    {
        let ghost old_left = left@;
        assert(discovery_views(old_left).len() == old_left.len());
        assert(m < total);
        let d = left.remove(0);
        proof {
            assert(discovery_views(old_left)[0] == discovery_view(d));
            assert(discovery_views(left@) =~= discovery_views(old_left).skip(1));
            assert(unsorted.skip(m as int).skip(1) =~= unsorted.skip(m + 1));
            assert(unsorted.take(m + 1).drop_last() =~= unsorted.take(m as int));
            assert(unsorted.skip(m as int)[0] == discovery_view(d));
        }
        insert_discovery(&mut sorted, d);
        m = m + 1;
    }
    assert(unsorted.take(m as int) =~= unsorted);
    Ok(sorted)
}

proof fn lemma_first_listing_error_prefix(all: Seq<KubeconfigProbe>, n: int)
    requires
        0 <= n <= all.len(),
        first_listing_error(all.take(n)) is Some,
    ensures
        first_listing_error(all) == first_listing_error(all.take(n)),
    decreases all.len(),
{
    if n < all.len() {
        assert(all.drop_last().take(n) =~= all.take(n));
        lemma_first_listing_error_prefix(all.drop_last(), n);
    } else {
        assert(all.take(n) =~= all);
    }
}

} // verus!
