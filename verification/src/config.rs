//! The Loopbox configuration model: projects, services, ports, proxy endpoints
//! and traffic-capture settings, with the ordered project map that holds them.

use vstd::prelude::*;
use crate::text::{chars_of, chars_eq, str_eq_chars, trim, trim_chars, string_of};

verus! {

/// How much of each proxied exchange is captured.
#[derive(Debug, Clone, Copy, PartialEq, Eq, Structural)]
pub enum ProxyCaptureMode {
    Metadata,
    Headers,
    BodyPreview,
}

/// The protocol a proxy listener or a service port speaks.
#[derive(Debug, Clone, Copy, PartialEq, Eq, Structural, Hash)]
pub enum ProxyEndpointProtocol {
    Http1,
    GrpcH2c,
    TcpPassthrough,
}

/// How a service runs.
#[derive(Debug, Clone, Copy, PartialEq, Eq, Structural)]
pub enum ServiceRuntimeKind {
    Process,
    Container,
}

/// Where a Kubernetes cluster entry came from.
#[derive(Debug, Clone, Copy, PartialEq, Eq, Structural)]
pub enum KubernetesProvider {
    KubeconfigContext,
    Remote,
}

/// Whether Loopbox drives a WireGuard tunnel with `wg-quick` or leaves it alone.
#[derive(Debug, Clone, Copy, PartialEq, Eq, Structural)]
pub enum WireGuardMode {
    WgQuick,
    Manual,
}

/// Traffic-capture settings shared by all projects.
#[derive(Debug, Clone, PartialEq)]
pub struct ProxyTrafficSettings {
    pub capture_enabled_by_default: bool,
    pub capture_mode_default: ProxyCaptureMode,
    pub capture_text_only: bool,
    pub redact_headers: Vec<String>,
    pub redact_query_keys: Vec<String>,
    pub retention_days: u16,
    pub max_storage_mb: usize,
    pub writer_queue_size: usize,
    pub capture_body_preview: bool,
    pub request_body_preview_max_bytes: usize,
    pub response_body_preview_max_bytes: usize,
    pub max_events: usize,
}

/// A TCP or gRPC listener that forwards to an upstream.
#[derive(Debug, Clone, PartialEq, Eq)]
pub struct ProxyEndpointConfig {
    pub name: String,
    pub listen_host: String,
    pub listen_port: u16,
    pub protocol: ProxyEndpointProtocol,
    pub upstream_host: String,
    pub upstream_port: u16,
    pub authority: Option<String>,
    pub project_name: Option<String>,
    pub service_name: Option<String>,
}

/// A WireGuard tunnel that gives access to a cluster.
#[derive(Debug, Clone, PartialEq, Eq)]
pub struct WireGuardTunnelConfig {
    pub name: String,
    pub mode: WireGuardMode,
    pub interface: Option<String>,
    pub config_path: Option<String>,
    pub required: bool,
}

/// A configured Kubernetes cluster.
#[derive(Debug, Clone, PartialEq, Eq)]
pub struct KubernetesClusterConfig {
    pub name: String,
    pub provider: KubernetesProvider,
    pub kubeconfig_path: Option<String>,
    pub context: String,
    pub default_namespace: String,
    pub wireguard: Option<WireGuardTunnelConfig>,
}

/// The configured Kubernetes clusters.
#[derive(Debug, Clone, PartialEq, Eq)]
pub struct KubernetesConfig {
    pub clusters: Vec<KubernetesClusterConfig>,
}

/// Settings that hold for every project.
#[derive(Debug, Clone, PartialEq)]
pub struct GlobalConfig {
    pub domain_suffix: String,
    pub ip_base: String,
    pub ip_range_start: u8,
    pub ip_range_end: u8,
    pub proxy_traffic: ProxyTrafficSettings,
    pub proxy_endpoints: Vec<ProxyEndpointConfig>,
    pub kubernetes: KubernetesConfig,
}

/// A container image and how it is started.
#[derive(Debug, Clone, PartialEq, Eq)]
pub struct ContainerServiceConfig {
    pub image: String,
    pub args: Vec<String>,
    pub env: Vec<String>,
    pub volumes: Vec<String>,
    pub auto_remove: bool,
}

/// One port of a service.
#[derive(Debug, Clone, PartialEq, Eq)]
pub struct ServicePortConfig {
    pub port: u16,
    pub protocol: ProxyEndpointProtocol,
    pub health_path: Option<String>,
}

/// A service of a project.
#[derive(Debug, Clone, PartialEq)]
pub struct ServiceConfig {
    pub name: String,
    pub runtime: ServiceRuntimeKind,
    pub container: Option<ContainerServiceConfig>,
    pub ports: Vec<ServicePortConfig>,
    pub port: Option<u16>,
    pub protocol: ProxyEndpointProtocol,
    pub command: String,
    pub workdir: String,
    pub env_files: Vec<String>,
    pub depends_on: Vec<String>,
    pub autostart: bool,
    pub health_path: Option<String>,
}

/// A project: a directory, a loopback IP and its services.
#[derive(Debug, Clone, PartialEq)]
pub struct ProjectConfig {
    pub dir: String,
    pub ip: String,
    pub services: Vec<ServiceConfig>,
    pub default_open_service: Option<String>,
    pub proxy_traffic_capture_enabled: Option<bool>,
    pub proxy_traffic_capture_mode: Option<ProxyCaptureMode>,
    pub grpc_proto_paths: Vec<String>,
    pub proxy_endpoints: Vec<ProxyEndpointConfig>,
}

/// The whole configuration.
#[derive(Debug, Clone, PartialEq)]
pub struct LoopboxConfig {
    pub global: GlobalConfig,
    pub projects: ProjectMap,
}

// ---------------------------------------------------------------------------
// Defaults
// ---------------------------------------------------------------------------

pub fn default_domain_suffix() -> (r: String)
    ensures
        r@ == "localhost"@,
{
    string_of(&chars_of("localhost"))
}

fn owned(s: &str) -> (r: String)
    ensures
        r@ == s@,
{
    string_of(&chars_of(s))
}

impl Default for ProxyTrafficSettings {
    fn default() -> (r: Self)
        ensures
            !r.capture_enabled_by_default,
            r.capture_mode_default == ProxyCaptureMode::Metadata,
            r.capture_text_only,
            r.redact_headers@.len() == 5,
            r.redact_headers@[0]@ == "authorization"@,
            r.redact_headers@[1]@ == "cookie"@,
            r.redact_headers@[2]@ == "set-cookie"@,
            r.redact_headers@[3]@ == "x-api-key"@,
            r.redact_headers@[4]@ == "proxy-authorization"@,
            r.redact_query_keys@.len() == 5,
            r.redact_query_keys@[0]@ == "token"@,
            r.redact_query_keys@[1]@ == "key"@,
            r.redact_query_keys@[2]@ == "secret"@,
            r.redact_query_keys@[3]@ == "password"@,
            r.redact_query_keys@[4]@ == "code"@,
            r.retention_days == 7,
            r.max_storage_mb == 500,
            r.writer_queue_size == 10_000,
            !r.capture_body_preview,
            r.request_body_preview_max_bytes == 64 * 1024,
            r.response_body_preview_max_bytes == 128 * 1024,
            r.max_events == 2_000,
    {
        let mut redact_headers: Vec<String> = Vec::new();
        redact_headers.push(owned("authorization"));
        redact_headers.push(owned("cookie"));
        redact_headers.push(owned("set-cookie"));
        redact_headers.push(owned("x-api-key"));
        redact_headers.push(owned("proxy-authorization"));
        let mut redact_query_keys: Vec<String> = Vec::new();
        redact_query_keys.push(owned("token"));
        redact_query_keys.push(owned("key"));
        redact_query_keys.push(owned("secret"));
        redact_query_keys.push(owned("password"));
        redact_query_keys.push(owned("code"));
        ProxyTrafficSettings {
            capture_enabled_by_default: false,
            capture_mode_default: ProxyCaptureMode::Metadata,
            capture_text_only: true,
            redact_headers,
            redact_query_keys,
            retention_days: 7,
            max_storage_mb: 500,
            writer_queue_size: 10_000,
            capture_body_preview: false,
            request_body_preview_max_bytes: 64 * 1024,
            response_body_preview_max_bytes: 128 * 1024,
            max_events: 2_000,
        }
    }
}

impl Default for KubernetesConfig {
    fn default() -> (r: Self)
        ensures
            r.clusters@.len() == 0,
    {
        KubernetesConfig { clusters: Vec::new() }
    }
}

impl Default for GlobalConfig {
    fn default() -> (r: Self)
        ensures
            r.domain_suffix@ == "localhost"@,
            r.ip_base@ == "127.0.0."@,
            r.ip_range_start == 2,
            r.ip_range_end == 254,
            r.proxy_endpoints@.len() == 0,
            r.kubernetes.clusters@.len() == 0,
            !r.proxy_traffic.capture_enabled_by_default,
            r.proxy_traffic.capture_mode_default == ProxyCaptureMode::Metadata,
    {
        GlobalConfig {
            domain_suffix: default_domain_suffix(),
            ip_base: owned("127.0.0."),
            ip_range_start: 2,
            ip_range_end: 254,
            proxy_traffic: ProxyTrafficSettings::default(),
            proxy_endpoints: Vec::new(),
            kubernetes: KubernetesConfig::default(),
        }
    }
}

impl Default for LoopboxConfig {
    fn default() -> (r: Self)
        ensures
            r.global.domain_suffix@ == "localhost"@,
            r.global.ip_base@ == "127.0.0."@,
            r.global.ip_range_start == 2,
            r.global.ip_range_end == 254,
            r.projects.entries@.len() == 0,
    {
        LoopboxConfig { global: GlobalConfig::default(), projects: ProjectMap::new() }
    }
}

// ---------------------------------------------------------------------------
// The project map
// ---------------------------------------------------------------------------

/// Lexicographic order of character sequences by code point, the order in
/// which `String` keys of a `BTreeMap` are kept.
pub open spec fn key_lt(a: Seq<char>, b: Seq<char>) -> bool
    decreases a.len(),
{
    if a.len() == 0 {
        b.len() > 0
    } else if b.len() == 0 {
        false
    } else if a[0] != b[0] {
        a[0] < b[0]
    } else {
        key_lt(a.drop_first(), b.drop_first())
    }
}

pub proof fn lemma_key_lt_irreflexive(a: Seq<char>)
    ensures
        !key_lt(a, a),
    decreases a.len(),
{
    if a.len() > 0 {
        lemma_key_lt_irreflexive(a.drop_first());
    }
}

pub proof fn lemma_key_lt_transitive(a: Seq<char>, b: Seq<char>, c: Seq<char>)
    requires
        key_lt(a, b),
        key_lt(b, c),
    ensures
        key_lt(a, c),
    decreases a.len(),
{
    if a.len() > 0 && b.len() > 0 && c.len() > 0 {
        if a[0] == b[0] && b[0] == c[0] {
            lemma_key_lt_transitive(a.drop_first(), b.drop_first(), c.drop_first());
        }
    }
}

pub proof fn lemma_key_lt_total(a: Seq<char>, b: Seq<char>)
    ensures
        key_lt(a, b) || key_lt(b, a) || a == b,
    decreases a.len(),
{
    if a.len() > 0 && b.len() > 0 {
        if a[0] == b[0] {
            lemma_key_lt_total(a.drop_first(), b.drop_first());
            if a.drop_first() == b.drop_first() {
                assert(a =~= seq![a[0]] + a.drop_first());
                assert(b =~= seq![b[0]] + b.drop_first());
            }
        }
    } else if a.len() == 0 && b.len() == 0 {
        assert(a =~= b);
    }
}

/// `key_lt` computed on character vectors.
pub fn key_lt_chars(a: &Vec<char>, b: &Vec<char>) -> (r: bool)
    ensures
        r == key_lt(a@, b@),
{
    let mut i: usize = 0;
    assert(a@.skip(0) == a@ && b@.skip(0) == b@);
    while i < a.len() && i < b.len() && a[i] == b[i]
        invariant
            i <= a.len(),
            i <= b.len(),
            key_lt(a@, b@) == key_lt(a@.skip(i as int), b@.skip(i as int)),
        decreases a.len() - i,
    {
        assert(a@.skip(i as int).drop_first() == a@.skip(i + 1));
        assert(b@.skip(i as int).drop_first() == b@.skip(i + 1));
        i = i + 1;
    }
    if i == a.len() {
        i < b.len()
    } else if i == b.len() {
        false
    } else {
        a[i] < b[i]
    }
}

/// Projects by name, kept in ascending name order with each name once.
#[derive(Debug, Clone, PartialEq)]
pub struct ProjectMap {
    pub entries: Vec<(String, ProjectConfig)>,
}

impl ProjectMap {
    /// The names, in stored order.
    pub open spec fn keys(&self) -> Seq<Seq<char>> {
        self.entries@.map_values(|e: (String, ProjectConfig)| e.0@)
    }

    /// Names strictly ascending (hence each at most once).
    pub open spec fn wf(&self) -> bool {
        forall|i: int, j: int|
            0 <= i < j < self.entries@.len() ==> key_lt(
                #[trigger] self.entries@[i].0@,
                #[trigger] self.entries@[j].0@,
            )
    }

    /// Whether the name `k` is at position `i`, and at no earlier one.
    pub open spec fn first_at(&self, k: Seq<char>, i: int) -> bool {
        0 <= i < self.entries@.len() && self.entries@[i].0@ == k && forall|j: int|
            0 <= j < i ==> self.entries@[j].0@ != k
    }

    pub open spec fn contains(&self, k: Seq<char>) -> bool {
        exists|i: int| 0 <= i < self.entries@.len() && self.entries@[i].0@ == k
    }

    /// The project stored under `k`.
    pub open spec fn lookup(&self, k: Seq<char>) -> Option<ProjectConfig> {
        if self.contains(k) {
            Some(self.entries@[choose|i: int| self.first_at(k, i)].1)
        } else {
            None
        }
    }

    pub proof fn lemma_first_exists(&self, k: Seq<char>)
        requires
            self.contains(k),
        ensures
            exists|i: int| self.first_at(k, i),
    {
        let w = choose|i: int| 0 <= i < self.entries@.len() && self.entries@[i].0@ == k;
        self.lemma_first_from(k, w);
    }

    proof fn lemma_first_from(&self, k: Seq<char>, w: int)
        requires
            0 <= w < self.entries@.len(),
            self.entries@[w].0@ == k,
        ensures
            exists|i: int| self.first_at(k, i),
        decreases w,
    {
        if forall|j: int| 0 <= j < w ==> self.entries@[j].0@ != k {
            assert(self.first_at(k, w));
        } else {
            let j = choose|j: int| 0 <= j < w && self.entries@[j].0@ == k;
            self.lemma_first_from(k, j);
        }
    }

    pub proof fn lemma_first_unique(&self, k: Seq<char>, i: int, j: int)
        requires
            self.first_at(k, i),
            self.first_at(k, j),
        ensures
            i == j,
    {
    }

    /// An empty map.
    pub fn new() -> (m: Self)
        ensures
            m.entries@.len() == 0,
            m.wf(),
    {
        ProjectMap { entries: Vec::new() }
    }

    pub fn len(&self) -> (n: usize)
        ensures
            n == self.entries@.len(),
    {
        self.entries.len()
    }

    pub fn is_empty(&self) -> (b: bool)
        ensures
            b == (self.entries@.len() == 0),
    {
        self.entries.len() == 0
    }

    /// Position of the name `k`, if stored.
    pub fn position(&self, k: &Vec<char>) -> (r: Option<usize>)
        ensures
            match r {
                Some(i) => self.first_at(k@, i as int),
                None => !self.contains(k@),
            },
    {
        let mut i: usize = 0;
        while i < self.entries.len()
            invariant
                i <= self.entries@.len(),
                forall|j: int| 0 <= j < i ==> self.entries@[j].0@ != k@,
            decreases self.entries.len() - i,
        {
            let name = chars_of(self.entries[i].0.as_str());
            if chars_eq(&name, k) {
                return Some(i);
            }
            i = i + 1;
        }
        None
    }

    /// The project named `k`.
    pub fn get(&self, k: &str) -> (r: Option<&ProjectConfig>)
        ensures
            match r {
                Some(p) => self.lookup(k@) == Some(*p),
                None => self.lookup(k@) is None,
            },
    {
        let kv = chars_of(k);
        match self.position(&kv) {
            Some(i) => {
                proof {
                    self.lemma_first_exists(k@);
                    let c = choose|j: int| self.first_at(k@, j);
                    self.lemma_first_unique(k@, c, i as int);
                }
                Some(&self.entries[i].1)
            },
            None => None,
        }
    }

    pub fn contains_key(&self, k: &str) -> (b: bool)
        ensures
            b == self.contains(k@),
    {
        let kv = chars_of(k);
        self.position(&kv).is_some()
    }

    /// The name and project at position `i`.
    pub fn entry_at(&self, i: usize) -> (r: (&String, &ProjectConfig))
        requires
            i < self.entries@.len(),
        ensures
            *r.0 == self.entries@[i as int].0,
            *r.1 == self.entries@[i as int].1,
    {
        (&self.entries[i].0, &self.entries[i].1)
    }

    /// Stores `v` under `k`, returning what was stored there before.
    pub fn insert(&mut self, k: String, v: ProjectConfig) -> (r: Option<ProjectConfig>)
        requires
            old(self).wf(),
        ensures
            final(self).wf(),
            r == old(self).lookup(k@),
            final(self).lookup(k@) == Some(v),
            forall|k2: Seq<char>| k2 != k@ ==> final(self).lookup(k2) == old(self).lookup(k2),
    {
        let kv = chars_of(k.as_str());
        let n = self.entries.len();
        let mut i: usize = 0;
        let mut done = false;
        while i < n && !done
            invariant
                n == self.entries@.len(),
                self == old(self),
                i <= n,
                forall|j: int| 0 <= j < i ==> key_lt(#[trigger] self.entries@[j].0@, kv@),
                done ==> i < n && !key_lt(self.entries@[i as int].0@, kv@),
            decreases (n - i) * 2 + (if done { 0int } else { 1int }),
        {
            let name = chars_of(self.entries[i].0.as_str());
            if !key_lt_chars(&name, &kv) {
                done = true;
            } else {
                i = i + 1;
            }
        }
        proof {
            lemma_key_lt_irreflexive(kv@);
        }
        let ghost old_self = *self;
        if i < n {
            let name = chars_of(self.entries[i].0.as_str());
            if chars_eq(&name, &kv) {
                proof {
                    assert(old_self.first_at(k@, i as int));
                    old_self.lemma_first_exists(k@);
                    let c = choose|j: int| old_self.first_at(k@, j);
                    old_self.lemma_first_unique(k@, c, i as int);
                }
                let mut entry = (k, v);
                std::mem::swap(&mut entry, &mut self.entries[i]);
                proof {
                    assert(self.entries@ == old_self.entries@.update(i as int, (k, v)));
                    assert(self.first_at(k@, i as int));
                    self.lemma_first_exists(k@);
                    let c = choose|j: int| self.first_at(k@, j);
                    self.lemma_first_unique(k@, c, i as int);
                    assert forall|k2: Seq<char>| k2 != k@ implies self.lookup(k2) == old_self.lookup(
                        k2,
                    ) by {
                        assert forall|j: int| 0 <= j < self.entries@.len() implies (
                        self.entries@[j].0@ == k2) == (old_self.entries@[j].0@ == k2) by {}
                        if old_self.contains(k2) {
                            let w = choose|j: int|
                                0 <= j < old_self.entries@.len() && old_self.entries@[j].0@ == k2;
                            assert(self.entries@[w].0@ == k2);
                            old_self.lemma_first_exists(k2);
                            self.lemma_first_exists(k2);
                            let a = choose|j: int| old_self.first_at(k2, j);
                            let b = choose|j: int| self.first_at(k2, j);
                            assert(old_self.first_at(k2, b));
                            old_self.lemma_first_unique(k2, a, b);
                        } else {
                            assert(!self.contains(k2));
                        }
                    }
                    assert forall|a: int, b: int|
                        0 <= a < b < self.entries@.len() implies key_lt(
                        #[trigger] self.entries@[a].0@,
                        #[trigger] self.entries@[b].0@,
                    ) by {
                        assert(old_self.entries@[a].0@ == self.entries@[a].0@);
                        assert(old_self.entries@[b].0@ == self.entries@[b].0@);
                    }
                }
                return Some(entry.1);
            }
        }
        self.entries.insert(i, (k, v));
        proof {
            let oe = old_self.entries@;
            let ne = self.entries@;
            assert(ne == oe.insert(i as int, (k, v)));
            // every earlier name is smaller, every later one larger
            assert forall|j: int| i < j < ne.len() implies key_lt(kv@, #[trigger] ne[j].0@) by {
                assert(ne[j] == oe[j - 1]);
                lemma_key_lt_total(oe[i as int].0@, kv@);
                if j - 1 > i {
                    assert(key_lt(oe[i as int].0@, oe[j - 1].0@));
                    if key_lt(kv@, oe[i as int].0@) {
                        lemma_key_lt_transitive(kv@, oe[i as int].0@, oe[j - 1].0@);
                    }
                }
            }
            assert forall|a: int, b: int|
                0 <= a < b < ne.len() implies key_lt(#[trigger] ne[a].0@, #[trigger] ne[b].0@) by {
                if b < i {
                    assert(ne[a] == oe[a] && ne[b] == oe[b]);
                } else if b == i {
                    assert(ne[a] == oe[a]);
                } else if a < i {
                    assert(ne[a] == oe[a]);
                    assert(key_lt(ne[a].0@, kv@));
                    lemma_key_lt_transitive(ne[a].0@, kv@, ne[b].0@);
                } else if a == i {
                } else {
                    assert(ne[a] == oe[a - 1] && ne[b] == oe[b - 1]);
                }
            }
            assert(self.first_at(k@, i as int));
            self.lemma_first_exists(k@);
            let c = choose|j: int| self.first_at(k@, j);
            self.lemma_first_unique(k@, c, i as int);
            assert(!old_self.contains(k@)) by {
                if old_self.contains(k@) {
                    let w = choose|j: int| 0 <= j < oe.len() && oe[j].0@ == k@;
                    if w < i {
                        assert(key_lt(oe[w].0@, kv@));
                    } else {
                        assert(ne[w + 1] == oe[w]);
                        assert(key_lt(kv@, ne[w + 1].0@));
                    }
                }
            }
            assert forall|k2: Seq<char>| k2 != k@ implies self.lookup(k2) == old_self.lookup(k2) by {
                if old_self.contains(k2) {
                    let w = choose|j: int| 0 <= j < oe.len() && oe[j].0@ == k2;
                    let w2 = if w < i {
                        w
                    } else {
                        w + 1
                    };
                    assert(ne[w2] == oe[w]);
                    old_self.lemma_first_exists(k2);
                    self.lemma_first_exists(k2);
                    let a = choose|j: int| old_self.first_at(k2, j);
                    let b = choose|j: int| self.first_at(k2, j);
                    let a2 = if a < i {
                        a
                    } else {
                        a + 1
                    };
                    assert(ne[a2] == oe[a]);
                    assert(self.first_at(k2, a2)) by {
                        assert forall|j: int| 0 <= j < a2 implies ne[j].0@ != k2 by {
                            if j < i {
                                assert(ne[j] == oe[j]);
                            } else if j > i {
                                assert(ne[j] == oe[j - 1]);
                            }
                        }
                    }
                    self.lemma_first_unique(k2, a2, b);
                } else {
                    assert(!self.contains(k2)) by {
                        if self.contains(k2) {
                            let w = choose|j: int| 0 <= j < ne.len() && ne[j].0@ == k2;
                            if w < i {
                                assert(ne[w] == oe[w]);
                            } else if w > i {
                                assert(ne[w] == oe[w - 1]);
                            }
                        }
                    }
                }
            }
        }
        None
    }

    /// Removes the project named `k`, returning it.
    pub fn remove(&mut self, k: &str) -> (r: Option<ProjectConfig>)
        requires
            old(self).wf(),
        ensures
            final(self).wf(),
            r == old(self).lookup(k@),
            final(self).lookup(k@) is None,
            forall|k2: Seq<char>| k2 != k@ ==> final(self).lookup(k2) == old(self).lookup(k2),
            r is None ==> *final(self) == *old(self),
    {
        let kv = chars_of(k);
        let ghost old_self = *self;
        match self.position(&kv) {
            None => {
                None
            },
            Some(i) => {
                proof {
                    old_self.lemma_first_exists(k@);
                    let c = choose|j: int| old_self.first_at(k@, j);
                    old_self.lemma_first_unique(k@, c, i as int);
                }
                let removed = self.entries.remove(i);
                proof {
                    let oe = old_self.entries@;
                    let ne = self.entries@;
                    assert(ne == oe.remove(i as int));
                    assert forall|a: int, b: int|
                        0 <= a < b < ne.len() implies key_lt(
                        #[trigger] ne[a].0@,
                        #[trigger] ne[b].0@,
                    ) by {
                        let a2 = if a < i {
                            a
                        } else {
                            a + 1
                        };
                        let b2 = if b < i {
                            b
                        } else {
                            b + 1
                        };
                        assert(ne[a] == oe[a2] && ne[b] == oe[b2]);
                    }
                    assert(!self.contains(k@)) by {
                        if self.contains(k@) {
                            let w = choose|j: int| 0 <= j < ne.len() && ne[j].0@ == k@;
                            let w2 = if w < i {
                                w
                            } else {
                                w + 1
                            };
                            assert(ne[w] == oe[w2]);
                            lemma_key_lt_irreflexive(k@);
                            if w2 < i {
                                assert(key_lt(oe[w2].0@, oe[i as int].0@));
                            } else {
                                assert(key_lt(oe[i as int].0@, oe[w2].0@));
                            }
                        }
                    }
                    assert forall|k2: Seq<char>| k2 != k@ implies self.lookup(k2) == old_self.lookup(
                        k2,
                    ) by {
                        if old_self.contains(k2) {
                            old_self.lemma_first_exists(k2);
                            let a = choose|j: int| old_self.first_at(k2, j);
                            assert(a != i);
                            let a2 = if a < i {
                                a
                            } else {
                                a - 1
                            };
                            assert(ne[a2] == oe[a]);
                            assert(self.first_at(k2, a2)) by {
                                assert forall|j: int| 0 <= j < a2 implies ne[j].0@ != k2 by {
                                    if j < i {
                                        assert(ne[j] == oe[j]);
                                    } else {
                                        assert(ne[j] == oe[j + 1]);
                                    }
                                }
                            }
                            self.lemma_first_exists(k2);
                            let b = choose|j: int| self.first_at(k2, j);
                            self.lemma_first_unique(k2, a2, b);
                        } else {
                            assert(!self.contains(k2)) by {
                                if self.contains(k2) {
                                    let w = choose|j: int| 0 <= j < ne.len() && ne[j].0@ == k2;
                                    let w2 = if w < i {
                                        w
                                    } else {
                                        w + 1
                                    };
                                    assert(ne[w] == oe[w2]);
                                }
                            }
                        }
                    }
                }
                Some(removed.1)
            },
        }
    }

    /// A map holding the given entries; a later entry replaces an earlier one
    /// with the same name.
    pub fn from_entries(entries: Vec<(String, ProjectConfig)>) -> (m: Self)
        ensures
            m.wf(),
    {
        let mut m = ProjectMap::new();
        for e in entries
            invariant
                m.wf(),
        {
            m.insert(e.0, e.1);
        }
        m
    }
}

// ---------------------------------------------------------------------------
// Ports of a service
// ---------------------------------------------------------------------------

/// A port as the proxy sees it: number, protocol and trimmed health path.
pub struct PortSpec {
    pub port: u16,
    pub protocol: ProxyEndpointProtocol,
    pub health_path: Option<Seq<char>>,
}

/// A health path, trimmed, with an empty one treated as absent.
pub open spec fn trimmed_path(p: Option<String>) -> Option<Seq<char>> {
    match p {
        Some(s) => if trim(s@).len() > 0 {
            Some(trim(s@))
        } else {
            None
        },
        None => None,
    }
}

pub open spec fn port_spec(p: ServicePortConfig) -> PortSpec {
    PortSpec { port: p.port, protocol: p.protocol, health_path: match p.health_path {
        Some(s) => Some(s@),
        None => None,
    } }
}

pub open spec fn port_specs(v: Seq<ServicePortConfig>) -> Seq<PortSpec> {
    v.map_values(|p: ServicePortConfig| port_spec(p))
}

/// The listed ports in order, without port 0 and without repeats of a port.
pub open spec fn listed_ports(entries: Seq<ServicePortConfig>) -> Seq<PortSpec>
    decreases entries.len(),
{
    if entries.len() == 0 {
        seq![]
    } else {
        let prev = listed_ports(entries.drop_last());
        let e = entries.last();
        if e.port == 0 || exists|k: int| 0 <= k < prev.len() && prev[k].port == e.port {
            prev
        } else {
            prev.push(PortSpec { port: e.port, protocol: e.protocol, health_path: trimmed_path(e.health_path) })
        }
    }
}

/// The effective ports of a service: the listed ones, or else the single
/// legacy `port` when it is set and not 0.
pub open spec fn effective_ports(s: ServiceConfig) -> Seq<PortSpec> {
    let listed = listed_ports(s.ports@);
    if listed.len() > 0 {
        listed
    } else {
        match s.port {
            Some(p) => if p > 0 {
                seq![PortSpec { port: p, protocol: s.protocol, health_path: trimmed_path(s.health_path) }]
            } else {
                seq![]
            },
            None => seq![],
        }
    }
}

/// A trimmed, non-empty optional path.
pub fn trimmed_path_of(p: &Option<String>) -> (r: Option<String>)
    ensures
        match r {
            Some(s) => trimmed_path(*p) == Some(s@),
            None => trimmed_path(*p) is None,
        },
{
    match p {
        Some(s) => {
            let t = trim_chars(&chars_of(s.as_str()));
            if t.len() > 0 {
                Some(string_of(&t))
            } else {
                None
            }
        },
        None => None,
    }
}

fn has_port(v: &Vec<ServicePortConfig>, port: u16) -> (b: bool)
    ensures
        b == exists|k: int| 0 <= k < v@.len() && v@[k].port == port,
{
    let mut i: usize = 0;
    while i < v.len()
        invariant
            i <= v@.len(),
            forall|k: int| 0 <= k < i ==> v@[k].port != port,
        decreases v.len() - i,
    {
        if v[i].port == port {
            return true;
        }
        i = i + 1;
    }
    false
}

/// The effective ports of a service (see [`effective_ports`]).
pub fn service_ports(service: &ServiceConfig) -> (r: Vec<ServicePortConfig>)
    ensures
        port_specs(r@) == effective_ports(*service),
{
    let mut result: Vec<ServicePortConfig> = Vec::new();
    let mut i: usize = 0;
    while i < service.ports.len()
        invariant
            i <= service.ports@.len(),
            port_specs(result@) == listed_ports(service.ports@.take(i as int)),
        decreases service.ports.len() - i,
    {
        let entry = &service.ports[i];
        let ghost pre = service.ports@.take(i as int);
        assert(service.ports@.take(i + 1).drop_last() == pre);
        assert(service.ports@.take(i + 1).last() == *entry);
        if entry.port != 0 && !has_port(&result, entry.port) {
            let health_path = trimmed_path_of(&entry.health_path);
            let ghost before = result@;
            result.push(ServicePortConfig { port: entry.port, protocol: entry.protocol, health_path });
            assert(port_specs(result@) =~= port_specs(before).push(port_spec(result@.last())));
        } else {
            proof {
                if entry.port != 0 {
                    let k = choose|k: int| 0 <= k < result@.len() && result@[k].port == entry.port;
                    assert(port_specs(result@)[k].port == entry.port);
                }
            }
        }
        proof {
            let prev = listed_ports(pre);
            if !(entry.port == 0 || exists|k: int| 0 <= k < prev.len() && prev[k].port == entry.port) {
                assert(!(exists|k: int| 0 <= k < result@.len() - 1 && result@[k].port == entry.port)) by {
                    if exists|k: int| 0 <= k < result@.len() - 1 && result@[k].port == entry.port {
                        let k = choose|k: int| 0 <= k < result@.len() - 1 && result@[k].port == entry.port;
                        assert(prev[k].port == entry.port);
                    }
                }
            }
        }
        i = i + 1;
    }
    assert(service.ports@.take(service.ports@.len() as int) == service.ports@);
    if result.len() == 0 {
        if let Some(port) = service.port {
            if port > 0 {
                let health_path = trimmed_path_of(&service.health_path);
                result.push(ServicePortConfig { port, protocol: service.protocol, health_path });
                assert(port_specs(result@) =~= effective_ports(*service));
            }
        }
    }
    result
}

} // verus!
