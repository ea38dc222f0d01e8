//! The routing tables of the reverse proxy: which host goes to which service
//! (HTTP), and which listener forwards to which upstreams (gRPC and TCP).
//! Both are computed from the configuration alone.

use vstd::prelude::*;
use crate::config::{
    effective_ports, listed_ports, port_specs, service_ports, LoopboxConfig, PortSpec, ProjectConfig,
    ProxyCaptureMode, ProxyEndpointProtocol, ServiceConfig, ServicePortConfig,
};
use crate::features::{capture_enabled_for, capture_mode_for};
use crate::limits::{
    sanitize_proxy_body_preview_limit, sanitized, DEFAULT_PROXY_REQUEST_BODY_PREVIEW_MAX_BYTES,
    DEFAULT_PROXY_RESPONSE_BODY_PREVIEW_MAX_BYTES, MAX_PROXY_BODY_PREVIEW_MAX_BYTES,
    MIN_PROXY_BODY_PREVIEW_MAX_BYTES,
};
use crate::redact::{sanitize_redaction_list, sanitized_list};
use crate::http_meta::{host_without_port, strip_host_port};
use crate::text::{
    append_chars, append_str, chars_of, chars_eq, str_views, string_of, to_lowercase_chars, trim,
    trim_chars, trim_start_char, trim_start_char_chars, unicode_lower, u64_chars, dec_chars,
    eq_ignore_case, occurs_at, occurs_at_chars, contains_sub, copy_range, split_pred, is_char,
    split_char_chars, views, trim_start,
};

verus! {

// ---------------------------------------------------------------------------
// Keyed tables
// ---------------------------------------------------------------------------

/// The first position of key `k` in an association list.
pub open spec fn key_index<K, V>(t: Seq<(K, V)>, k: K) -> Option<int>
    decreases t.len(),
{
    if t.len() == 0 {
        None
    } else if t[0].0 == k {
        Some(0)
    } else {
        match key_index(t.drop_first(), k) {
            Some(i) => Some(i + 1),
            None => None,
        }
    }
}

pub proof fn lemma_key_index<K, V>(t: Seq<(K, V)>, k: K)
    ensures
        match key_index(t, k) {
            Some(i) => 0 <= i < t.len() && t[i].0 == k && forall|j: int| 0 <= j < i ==> t[j].0 != k,
            None => forall|j: int| 0 <= j < t.len() ==> t[j].0 != k,
        },
    decreases t.len(),
{
    if t.len() > 0 && t[0].0 != k {
        lemma_key_index(t.drop_first(), k);
        assert forall|j: int| 1 <= j < t.len() implies t[j] == t.drop_first()[j - 1] by {}
    }
}

pub proof fn lemma_key_index_of<K, V>(t: Seq<(K, V)>, k: K, i: int)
    requires
        0 <= i < t.len(),
        t[i].0 == k,
        forall|j: int| 0 <= j < i ==> t[j].0 != k,
    ensures
        key_index(t, k) == Some(i),
{
    lemma_key_index(t, k);
    match key_index(t, k) {
        Some(x) => {
            if x < i {
                assert(t[x].0 == k);
            } else if x > i {
                assert(t[i].0 != k);
            }
        },
        None => {
            assert(t[i].0 != k);
        },
    }
}

pub proof fn lemma_key_index_none<K, V>(t: Seq<(K, V)>, k: K)
    requires
        forall|j: int| 0 <= j < t.len() ==> t[j].0 != k,
    ensures
        key_index(t, k) is None,
{
    lemma_key_index(t, k);
    match key_index(t, k) {
        Some(x) => {
            assert(t[x].0 == k);
        },
        None => {},
    }
}

/// `HashMap::insert`: the value of an existing key is replaced, a new key is
/// added.
pub open spec fn keyed_insert<K, V>(t: Seq<(K, V)>, k: K, v: V) -> Seq<(K, V)> {
    match key_index(t, k) {
        Some(i) => t.update(i, (k, v)),
        None => t.push((k, v)),
    }
}

/// Inserting the pairs of `c` in order.
pub open spec fn keyed_insert_all<K, V>(t: Seq<(K, V)>, c: Seq<(K, V)>) -> Seq<(K, V)>
    decreases c.len(),
{
    if c.len() == 0 {
        t
    } else {
        keyed_insert(keyed_insert_all(t, c.drop_last()), c.last().0, c.last().1)
    }
}

/// No key occurs twice.
pub open spec fn keys_unique<K, V>(t: Seq<(K, V)>) -> bool {
    forall|i: int, j: int| 0 <= i < j < t.len() ==> #[trigger] t[i].0 != #[trigger] t[j].0
}

/// Inserting keeps keys unique, and the inserted key then maps to the value.
pub proof fn law_keyed_insert<K, V>(t: Seq<(K, V)>, k: K, v: V)
    requires
        keys_unique(t),
    ensures
        keys_unique(keyed_insert(t, k, v)),
        key_index(keyed_insert(t, k, v), k) is Some,
        keyed_insert(t, k, v)[key_index(keyed_insert(t, k, v), k).unwrap()].1 == v,
{
    lemma_key_index(t, k);
    let r = keyed_insert(t, k, v);
    match key_index(t, k) {
        Some(i) => {
            assert forall|a: int, b: int| 0 <= a < b < r.len() implies #[trigger] r[a].0
                != #[trigger] r[b].0 by {
                assert(t[a].0 != t[b].0);
            }
            lemma_key_index_of(r, k, i);
        },
        None => {
            assert forall|a: int, b: int| 0 <= a < b < r.len() implies #[trigger] r[a].0
                != #[trigger] r[b].0 by {
                if b < t.len() {
                    assert(t[a].0 != t[b].0);
                }
            }
            assert forall|j: int| 0 <= j < t.len() implies r[j].0 != k by {}
            lemma_key_index_of(r, k, t.len() as int);
        },
    }
}

/// A table built by inserts has each key once.
pub proof fn law_keyed_insert_all_unique<K, V>(c: Seq<(K, V)>)
    ensures
        keys_unique(keyed_insert_all(Seq::<(K, V)>::empty(), c)),
    decreases c.len(),
{
    if c.len() > 0 {
        law_keyed_insert_all_unique(c.drop_last());
        law_keyed_insert(keyed_insert_all(Seq::<(K, V)>::empty(), c.drop_last()), c.last().0, c.last().1);
    }
}

// ---------------------------------------------------------------------------
// HTTP routes
// ---------------------------------------------------------------------------

/// Where requests for one host go, and how they are recorded.
#[derive(Debug, Clone, PartialEq, Eq)]
pub struct ProxyRoute {
    pub project_name: String,
    pub service_name: String,
    pub target_ip: String,
    pub target_port: u16,
    pub capture_enabled: bool,
    pub capture_mode: ProxyCaptureMode,
    pub capture_text_only: bool,
    pub redacted_header_names: Vec<String>,
    pub redacted_query_keys: Vec<String>,
    pub request_body_preview_max_bytes: usize,
    pub response_body_preview_max_bytes: usize,
}

/// A route as plain values.
pub struct RouteView {
    pub project_name: Seq<char>,
    pub service_name: Seq<char>,
    pub target_ip: Seq<char>,
    pub target_port: u16,
    pub capture_enabled: bool,
    pub capture_mode: ProxyCaptureMode,
    pub capture_text_only: bool,
    pub redacted_header_names: Seq<Seq<char>>,
    pub redacted_query_keys: Seq<Seq<char>>,
    pub request_body_preview_max_bytes: usize,
    pub response_body_preview_max_bytes: usize,
}

impl View for ProxyRoute {
    type V = RouteView;

    open spec fn view(&self) -> RouteView {
        RouteView {
            project_name: self.project_name@,
            service_name: self.service_name@,
            target_ip: self.target_ip@,
            target_port: self.target_port,
            capture_enabled: self.capture_enabled,
            capture_mode: self.capture_mode,
            capture_text_only: self.capture_text_only,
            redacted_header_names: str_views(self.redacted_header_names@),
            redacted_query_keys: str_views(self.redacted_query_keys@),
            request_body_preview_max_bytes: self.request_body_preview_max_bytes,
            response_body_preview_max_bytes: self.response_body_preview_max_bytes,
        }
    }
}

/// The HTTP routing table: host to route, each host once.
#[derive(Debug, Clone)]
pub struct RouteTable {
    pub entries: Vec<(String, ProxyRoute)>,
}

impl RouteTable {
    pub open spec fn table(&self) -> Seq<(Seq<char>, RouteView)> {
        self.entries@.map_values(|e: (String, ProxyRoute)| (e.0@, e.1@))
    }

    pub fn new() -> (t: Self)
        ensures
            t.table() == Seq::<(Seq<char>, RouteView)>::empty(),
    {
        let t = RouteTable { entries: Vec::new() };
        assert(t.table() =~= Seq::<(Seq<char>, RouteView)>::empty());
        t
    }

    pub fn len(&self) -> (n: usize)
        ensures
            n == self.table().len(),
    {
        self.entries.len()
    }

    fn find(&self, host: &Vec<char>) -> (r: Option<usize>)
        ensures
            match r {
                Some(i) => key_index(self.table(), host@) == Some(i as int) && i < self.entries@.len(),
                None => key_index(self.table(), host@) is None,
            },
    {
        let mut i: usize = 0;
        while i < self.entries.len()
            invariant
                i <= self.entries@.len(),
                forall|j: int| 0 <= j < i ==> self.table()[j].0 != host@,
            decreases self.entries.len() - i,
        {
            let k = chars_of(self.entries[i].0.as_str());
            if chars_eq(&k, host) {
                proof {
                    lemma_key_index_of(self.table(), host@, i as int);
                }
                return Some(i);
            }
            i = i + 1;
        }
        proof {
            lemma_key_index_none(self.table(), host@);
        }
        None
    }

    /// Sets the route of `host`, replacing an earlier one.
    pub fn insert(&mut self, host: String, route: ProxyRoute)
        ensures
            final(self).table() == keyed_insert(old(self).table(), host@, route@),
    {
        let hv = chars_of(host.as_str());
        let ghost hk = host@;
        let ghost rv = route@;
        match self.find(&hv) {
            Some(i) => {
                self.entries.set(i, (host, route));
                assert(self.table() =~= old(self).table().update(i as int, (hk, rv)));
            },
            None => {
                self.entries.push((host, route));
                assert(self.table() =~= old(self).table().push((hk, rv)));
            },
        }
    }

    /// The route of `host`.
    pub fn get(&self, host: &str) -> (r: Option<&ProxyRoute>)
        ensures
            match r {
                Some(x) => key_index(self.table(), host@) is Some && self.table()[key_index(
                    self.table(),
                    host@,
                ).unwrap()].1 == x@,
                None => key_index(self.table(), host@) is None,
            },
    {
        let hv = chars_of(host);
        match self.find(&hv) {
            Some(i) => Some(&self.entries[i].1),
            None => None,
        }
    }

    pub fn contains_key(&self, host: &str) -> (b: bool)
        ensures
            b == key_index(self.table(), host@) is Some,
    {
        let hv = chars_of(host);
        self.find(&hv).is_some()
    }

    /// The hosts, in table order.
    pub fn hosts(&self) -> (r: Vec<String>)
        ensures
            str_views(r@) == self.table().map_values(|e: (Seq<char>, RouteView)| e.0),
    {
        let mut r: Vec<String> = Vec::new();
        let mut i: usize = 0;
        while i < self.entries.len()
            invariant
                i <= self.entries@.len(),
                r@.len() == i,
                forall|j: int| 0 <= j < i ==> #[trigger] r@[j]@ == self.entries@[j].0@,
            decreases self.entries.len() - i,
        {
            r.push(self.entries[i].0.clone());
            i = i + 1;
        }
        assert(str_views(r@) =~= self.table().map_values(|e: (Seq<char>, RouteView)| e.0));
        r
    }
}

/// A copy of a list of strings.
pub fn clone_strings(v: &Vec<String>) -> (r: Vec<String>)
    ensures
        str_views(r@) == str_views(v@),
{
    let mut r: Vec<String> = Vec::new();
    let mut i: usize = 0;
    while i < v.len()
        invariant
            i <= v@.len(),
            r@.len() == i,
            forall|j: int| 0 <= j < i ==> #[trigger] r@[j]@ == v@[j]@,
        decreases v.len() - i,
    {
        r.push(v[i].clone());
        i = i + 1;
    }
    assert(str_views(r@) =~= str_views(v@));
    r
}

/// The capture settings all routes share.
pub struct RouteCommon {
    pub capture_text_only: bool,
    pub redacted_header_names: Vec<String>,
    pub redacted_query_keys: Vec<String>,
    pub request_body_preview_max_bytes: usize,
    pub response_body_preview_max_bytes: usize,
}

/// The header names hidden in recordings.
pub open spec fn redacted_headers_of(config: LoopboxConfig) -> Seq<Seq<char>> {
    sanitized_list(str_views(config.global.proxy_traffic.redact_headers@))
}

/// The query keys hidden in recordings.
pub open spec fn redacted_keys_of(config: LoopboxConfig) -> Seq<Seq<char>> {
    sanitized_list(str_views(config.global.proxy_traffic.redact_query_keys@))
}

pub open spec fn request_limit_of(config: LoopboxConfig) -> int {
    sanitized(
        config.global.proxy_traffic.request_body_preview_max_bytes as int,
        DEFAULT_PROXY_REQUEST_BODY_PREVIEW_MAX_BYTES as int,
        MIN_PROXY_BODY_PREVIEW_MAX_BYTES as int,
        MAX_PROXY_BODY_PREVIEW_MAX_BYTES as int,
    )
}

pub open spec fn response_limit_of(config: LoopboxConfig) -> int {
    sanitized(
        config.global.proxy_traffic.response_body_preview_max_bytes as int,
        DEFAULT_PROXY_RESPONSE_BODY_PREVIEW_MAX_BYTES as int,
        MIN_PROXY_BODY_PREVIEW_MAX_BYTES as int,
        MAX_PROXY_BODY_PREVIEW_MAX_BYTES as int,
    )
}

pub open spec fn common_ok(c: RouteCommon, config: LoopboxConfig) -> bool {
    &&& c.capture_text_only == config.global.proxy_traffic.capture_text_only
    &&& str_views(c.redacted_header_names@) == redacted_headers_of(config)
    &&& str_views(c.redacted_query_keys@) == redacted_keys_of(config)
    &&& c.request_body_preview_max_bytes as int == request_limit_of(config)
    &&& c.response_body_preview_max_bytes as int == response_limit_of(config)
}

fn route_common(config: &LoopboxConfig) -> (c: RouteCommon)
    ensures
        common_ok(c, *config),
{
    RouteCommon {
        capture_text_only: config.global.proxy_traffic.capture_text_only,
        redacted_header_names: sanitize_redaction_list(
            config.global.proxy_traffic.redact_headers.as_slice(),
        ),
        redacted_query_keys: sanitize_redaction_list(
            config.global.proxy_traffic.redact_query_keys.as_slice(),
        ),
        request_body_preview_max_bytes: sanitize_proxy_body_preview_limit(
            config.global.proxy_traffic.request_body_preview_max_bytes,
            DEFAULT_PROXY_REQUEST_BODY_PREVIEW_MAX_BYTES,
        ),
        response_body_preview_max_bytes: sanitize_proxy_body_preview_limit(
            config.global.proxy_traffic.response_body_preview_max_bytes,
            DEFAULT_PROXY_RESPONSE_BODY_PREVIEW_MAX_BYTES,
        ),
    }
}

/// The configured domain suffix, trimmed and without leading dots.
pub open spec fn domain_suffix(config: LoopboxConfig) -> Seq<char> {
    trim_start_char(trim(config.global.domain_suffix@), '.')
}

/// The first HTTP port of a service.
pub open spec fn http_port(ports: Seq<PortSpec>) -> Option<u16>
    decreases ports.len(),
{
    if ports.len() == 0 {
        None
    } else if ports[0].protocol == ProxyEndpointProtocol::Http1 {
        Some(ports[0].port)
    } else {
        http_port(ports.drop_first())
    }
}

/// `<service>.<project>.<suffix>`, lowercased.
pub open spec fn route_host(config: LoopboxConfig, pname: Seq<char>, s: ServiceConfig) -> Seq<
    char,
> {
    unicode_lower(
        unicode_lower(trim(s.name@)) + "."@ + unicode_lower(trim(pname)) + "."@ + domain_suffix(
            config,
        ),
    )
}

/// The HTTP route of a service of a project.
pub open spec fn http_route(
    config: LoopboxConfig,
    pname: Seq<char>,
    p: ProjectConfig,
    s: ServiceConfig,
    port: u16,
) -> RouteView {
    RouteView {
        project_name: pname,
        service_name: s.name@,
        target_ip: trim(p.ip@),
        target_port: port,
        capture_enabled: capture_enabled_for(config, p),
        capture_mode: capture_mode_for(config, p),
        capture_text_only: config.global.proxy_traffic.capture_text_only,
        redacted_header_names: redacted_headers_of(config),
        redacted_query_keys: redacted_keys_of(config),
        request_body_preview_max_bytes: request_limit_of(config) as usize,
        response_body_preview_max_bytes: response_limit_of(config) as usize,
    }
}

/// The host-route pairs of the given services, in order.
pub open spec fn service_http_pairs(
    config: LoopboxConfig,
    pname: Seq<char>,
    p: ProjectConfig,
    services: Seq<ServiceConfig>,
) -> Seq<(Seq<char>, RouteView)>
    decreases services.len(),
{
    if services.len() == 0 {
        seq![]
    } else {
        let s = services.last();
        service_http_pairs(config, pname, p, services.drop_last()) + match http_port(
            effective_ports(s),
        ) {
            Some(port) => seq![(route_host(config, pname, s), http_route(config, pname, p, s, port))],
            None => seq![],
        }
    }
}

/// The host-route pairs of the given projects, in order.
pub open spec fn project_http_pairs(
    config: LoopboxConfig,
    entries: Seq<(String, ProjectConfig)>,
) -> Seq<(Seq<char>, RouteView)>
    decreases entries.len(),
{
    if entries.len() == 0 {
        seq![]
    } else {
        let e = entries.last();
        project_http_pairs(config, entries.drop_last()) + service_http_pairs(
            config,
            e.0@,
            e.1,
            e.1.services@,
        )
    }
}

/// What `build_proxy_routes` returns: the pairs of all projects, a later host
/// replacing an earlier one.
pub open spec fn http_routes(config: LoopboxConfig) -> Seq<(Seq<char>, RouteView)> {
    keyed_insert_all(Seq::empty(), project_http_pairs(config, config.projects.entries@))
}

fn first_http_port(ports: &Vec<ServicePortConfig>) -> (r: Option<u16>)
    ensures
        r == http_port(port_specs(ports@)),
{
    let mut i: usize = 0;
    let ghost ps = port_specs(ports@);
    assert(ps.skip(0) == ps);
    while i < ports.len()
        invariant
            i <= ports@.len(),
            ps == port_specs(ports@),
            http_port(ps) == http_port(ps.skip(i as int)),
        decreases ports.len() - i,
    {
        assert(ps.skip(i as int)[0] == ps[i as int]);
        assert(ps.skip(i as int).drop_first() == ps.skip(i + 1));
        if ports[i].protocol == ProxyEndpointProtocol::Http1 {
            return Some(ports[i].port);
        }
        i = i + 1;
    }
    None
}

/// Lowercased, trimmed copy of a text.
fn lower_trim(s: &str) -> (r: Vec<char>)
    ensures
        r@ == unicode_lower(trim(s@)),
{
    to_lowercase_chars(&trim_chars(&chars_of(s)))
}

fn capture_of(config: &LoopboxConfig, p: &ProjectConfig) -> (r: (bool, ProxyCaptureMode))
    ensures
        r.0 == capture_enabled_for(*config, *p),
        r.1 == capture_mode_for(*config, *p),
{
    let enabled = match p.proxy_traffic_capture_enabled {
        Some(b) => b,
        None => config.global.proxy_traffic.capture_enabled_by_default,
    };
    let mode = match p.proxy_traffic_capture_mode {
        Some(m) => m,
        None => config.global.proxy_traffic.capture_mode_default,
    };
    (crate::features::supports_traffic_capture() && enabled, crate::features::enforce_traffic_capture_mode(mode))
}

/// The HTTP routing table of a configuration.
pub fn build_proxy_routes(config: &LoopboxConfig) -> (r: RouteTable)
    ensures
        r.table() == http_routes(*config),
{
    let mut routes = RouteTable::new();
    let suffix = trim_start_char_chars(
        &trim_chars(&chars_of(config.global.domain_suffix.as_str())),
        '.',
    );
    let common = route_common(config);
    let entries = &config.projects.entries;
    let ghost all = entries@;
    let mut i: usize = 0;
    while i < entries.len()
        invariant
            i <= all.len(),
            entries == &config.projects.entries,
            all == entries@,
            suffix@ == domain_suffix(*config),
            common_ok(common, *config),
            routes.table() == keyed_insert_all(
                Seq::empty(),
                project_http_pairs(*config, all.take(i as int)),
            ),
        decreases entries.len() - i,
    {
        let pname = &entries[i].0;
        let project = &entries[i].1;
        let (capture_enabled, capture_mode) = capture_of(config, project);
        let project_clean = lower_trim(pname.as_str());
        let ghost before = project_http_pairs(*config, all.take(i as int));
        let mut j: usize = 0;
        assert(project.services@.take(0) =~= Seq::<ServiceConfig>::empty());
        assert(before + service_http_pairs(*config, pname@, *project, project.services@.take(0))
            =~= before);
        while j < project.services.len()
            invariant
                j <= project.services@.len(),
                i < all.len(),
                entries == &config.projects.entries,
                all == entries@,
                pname == &all[i as int].0,
                project == &all[i as int].1,
                capture_enabled == capture_enabled_for(*config, *project),
                capture_mode == capture_mode_for(*config, *project),
                project_clean@ == unicode_lower(trim(pname@)),
                suffix@ == domain_suffix(*config),
                common_ok(common, *config),
                before == project_http_pairs(*config, all.take(i as int)),
                routes.table() == keyed_insert_all(
                    Seq::empty(),
                    before + service_http_pairs(
                        *config,
                        pname@,
                        *project,
                        project.services@.take(j as int),
                    ),
                ),
            decreases project.services.len() - j,
        {
            let service = &project.services[j];
            let ghost prefix = before + service_http_pairs(
                *config,
                pname@,
                *project,
                project.services@.take(j as int),
            );
            assert(project.services@.take(j + 1).drop_last() =~= project.services@.take(j as int));
            assert(project.services@.take(j + 1).last() == *service);
            let ports = service_ports(service);
            match first_http_port(&ports) {
                Some(port) => {
                    let mut host = lower_trim(service.name.as_str());
                    append_str(&mut host, ".");
                    append_chars(&mut host, &project_clean);
                    append_str(&mut host, ".");
                    append_chars(&mut host, &suffix);
                    let host = to_lowercase_chars(&host);
                    let route = ProxyRoute {
                        project_name: pname.clone(),
                        service_name: service.name.clone(),
                        target_ip: string_of(&trim_chars(&chars_of(project.ip.as_str()))),
                        target_port: port,
                        capture_enabled,
                        capture_mode,
                        capture_text_only: common.capture_text_only,
                        redacted_header_names: clone_strings(&common.redacted_header_names),
                        redacted_query_keys: clone_strings(&common.redacted_query_keys),
                        request_body_preview_max_bytes: common.request_body_preview_max_bytes,
                        response_body_preview_max_bytes: common.response_body_preview_max_bytes,
                    };
                    let ghost pair = (host@, route@);
                    proof {
                        assert(host@ == route_host(*config, pname@, *service));
                        assert(route@ == http_route(*config, pname@, *project, *service, port));
                        assert(prefix + seq![pair] =~= before + service_http_pairs(
                            *config,
                            pname@,
                            *project,
                            project.services@.take(j + 1),
                        ));
                        assert((prefix + seq![pair]).drop_last() =~= prefix);
                    }
                    routes.insert(string_of(&host), route);
                },
                None => {
                    assert(prefix + seq![] =~= before + service_http_pairs(
                        *config,
                        pname@,
                        *project,
                        project.services@.take(j + 1),
                    ));
                },
            }
            j = j + 1;
        }
        proof {
            assert(project.services@.take(project.services@.len() as int) =~= project.services@);
            assert(all.take(i + 1).drop_last() =~= all.take(i as int));
            assert(all.take(i + 1).last() == all[i as int]);
        }
        i = i + 1;
    }
    assert(all.take(all.len() as int) =~= all);
    routes
}


// ---------------------------------------------------------------------------
// Endpoint routes (gRPC and TCP listeners)
// ---------------------------------------------------------------------------

/// A listener address.
#[derive(Debug, Clone, PartialEq, Eq, Hash)]
pub struct ProxyEndpointKey {
    pub listen_host: String,
    pub listen_port: u16,
}

pub struct KeyView {
    pub listen_host: Seq<char>,
    pub listen_port: u16,
}

impl View for ProxyEndpointKey {
    type V = KeyView;

    open spec fn view(&self) -> KeyView {
        KeyView { listen_host: self.listen_host@, listen_port: self.listen_port }
    }
}

/// Where a listener forwards, and how the traffic is recorded.
#[derive(Debug, Clone, PartialEq, Eq)]
pub struct ProxyEndpointRoute {
    pub name: String,
    pub protocol: ProxyEndpointProtocol,
    pub upstream_host: String,
    pub upstream_port: u16,
    pub authority: Option<String>,
    pub project_name: String,
    pub service_name: String,
    pub grpc_proto_paths: Vec<String>,
    pub capture_enabled: bool,
    pub capture_mode: ProxyCaptureMode,
    pub capture_text_only: bool,
    pub redacted_header_names: Vec<String>,
    pub redacted_query_keys: Vec<String>,
    pub request_body_preview_max_bytes: usize,
    pub response_body_preview_max_bytes: usize,
}

pub struct EndpointRouteView {
    pub name: Seq<char>,
    pub protocol: ProxyEndpointProtocol,
    pub upstream_host: Seq<char>,
    pub upstream_port: u16,
    pub authority: Option<Seq<char>>,
    pub project_name: Seq<char>,
    pub service_name: Seq<char>,
    pub grpc_proto_paths: Seq<Seq<char>>,
    pub capture_enabled: bool,
    pub capture_mode: ProxyCaptureMode,
    pub capture_text_only: bool,
    pub redacted_header_names: Seq<Seq<char>>,
    pub redacted_query_keys: Seq<Seq<char>>,
    pub request_body_preview_max_bytes: usize,
    pub response_body_preview_max_bytes: usize,
}

pub open spec fn opt_view(o: Option<String>) -> Option<Seq<char>> {
    match o {
        Some(s) => Some(s@),
        None => None,
    }
}

impl View for ProxyEndpointRoute {
    type V = EndpointRouteView;

    open spec fn view(&self) -> EndpointRouteView {
        EndpointRouteView {
            name: self.name@,
            protocol: self.protocol,
            upstream_host: self.upstream_host@,
            upstream_port: self.upstream_port,
            authority: opt_view(self.authority),
            project_name: self.project_name@,
            service_name: self.service_name@,
            grpc_proto_paths: str_views(self.grpc_proto_paths@),
            capture_enabled: self.capture_enabled,
            capture_mode: self.capture_mode,
            capture_text_only: self.capture_text_only,
            redacted_header_names: str_views(self.redacted_header_names@),
            redacted_query_keys: str_views(self.redacted_query_keys@),
            request_body_preview_max_bytes: self.request_body_preview_max_bytes,
            response_body_preview_max_bytes: self.response_body_preview_max_bytes,
        }
    }
}

pub open spec fn route_views(v: Seq<ProxyEndpointRoute>) -> Seq<EndpointRouteView> {
    v.map_values(|r: ProxyEndpointRoute| r@)
}

/// The authority a route is matched by when routes are compared: trimmed,
/// lowercased, empty when absent.
pub open spec fn authority_key(a: Option<Seq<char>>) -> Seq<char> {
    match a {
        Some(s) => unicode_lower(trim(s)),
        None => unicode_lower(trim(seq![])),
    }
}

/// `insert_proxy_endpoint_route` on the routes of one listener: a route whose
/// protocol differs from the routes already there is dropped; a gRPC route is
/// added unless one with the same authority is there; any other route is
/// added only to an empty listener.
pub open spec fn add_to_listener(rs: Seq<EndpointRouteView>, r: EndpointRouteView) -> Seq<
    EndpointRouteView,
> {
    if exists|j: int| 0 <= j < rs.len() && #[trigger] rs[j].protocol != r.protocol {
        rs
    } else if r.protocol == ProxyEndpointProtocol::GrpcH2c {
        if exists|j: int|
            0 <= j < rs.len() && authority_key(#[trigger] rs[j].authority) == authority_key(
                r.authority,
            ) {
            rs
        } else {
            rs.push(r)
        }
    } else if rs.len() == 0 {
        rs.push(r)
    } else {
        rs
    }
}

/// `insert_proxy_endpoint_route` on the whole table: the listener is created
/// when missing.
pub open spec fn endpoint_insert(
    t: Seq<(KeyView, Seq<EndpointRouteView>)>,
    k: KeyView,
    r: EndpointRouteView,
) -> Seq<(KeyView, Seq<EndpointRouteView>)> {
    match key_index(t, k) {
        Some(i) => t.update(i, (k, add_to_listener(t[i].1, r))),
        None => t.push((k, add_to_listener(seq![], r))),
    }
}

pub open spec fn endpoint_insert_all(
    t: Seq<(KeyView, Seq<EndpointRouteView>)>,
    c: Seq<(KeyView, EndpointRouteView)>,
) -> Seq<(KeyView, Seq<EndpointRouteView>)>
    decreases c.len(),
{
    if c.len() == 0 {
        t
    } else {
        endpoint_insert(endpoint_insert_all(t, c.drop_last()), c.last().0, c.last().1)
    }
}

/// The routes of one listener agree: one protocol; several only for gRPC,
/// and then with distinct authorities.
pub open spec fn listener_ok(rs: Seq<EndpointRouteView>) -> bool {
    &&& rs.len() > 0
    &&& forall|a: int, b: int|
        0 <= a < rs.len() && 0 <= b < rs.len() ==> #[trigger] rs[a].protocol
            == #[trigger] rs[b].protocol
    &&& (rs[0].protocol != ProxyEndpointProtocol::GrpcH2c ==> rs.len() == 1)
    &&& forall|a: int, b: int|
        0 <= a < b < rs.len() ==> authority_key(#[trigger] rs[a].authority) != authority_key(
            #[trigger] rs[b].authority,
        )
}

/// Every listener of the table is consistent and listed once.
pub open spec fn endpoint_table_ok(t: Seq<(KeyView, Seq<EndpointRouteView>)>) -> bool {
    &&& keys_unique(t)
    &&& forall|i: int| 0 <= i < t.len() ==> listener_ok(#[trigger] t[i].1)
}

proof fn lemma_add_to_listener_ok(rs: Seq<EndpointRouteView>, r: EndpointRouteView)
    requires
        rs.len() == 0 || listener_ok(rs),
    ensures
        listener_ok(add_to_listener(rs, r)),
{
    let out = add_to_listener(rs, r);
    if rs.len() == 0 {
        assert(out =~= seq![r]);
    } else if !(exists|j: int| 0 <= j < rs.len() && #[trigger] rs[j].protocol != r.protocol) {
        if r.protocol == ProxyEndpointProtocol::GrpcH2c && out.len() == rs.len() + 1 {
            assert(rs[0].protocol == r.protocol);
            assert forall|a: int, b: int| 0 <= a < out.len() && 0 <= b < out.len() implies #[trigger] out[a].protocol
                == #[trigger] out[b].protocol by {
                if a < rs.len() {
                    assert(rs[a].protocol == r.protocol);
                }
                if b < rs.len() {
                    assert(rs[b].protocol == r.protocol);
                }
            }
            assert forall|a: int, b: int| 0 <= a < b < out.len() implies authority_key(
                #[trigger] out[a].authority,
            ) != authority_key(#[trigger] out[b].authority) by {
                if b == rs.len() {
                    assert(out[a] == rs[a]);
                }
            }
        }
    }
}

/// Inserting a route keeps every listener consistent.
pub proof fn law_endpoint_insert_ok(
    t: Seq<(KeyView, Seq<EndpointRouteView>)>,
    k: KeyView,
    r: EndpointRouteView,
)
    requires
        endpoint_table_ok(t),
    ensures
        endpoint_table_ok(endpoint_insert(t, k, r)),
        key_index(endpoint_insert(t, k, r), k) is Some,
{
    lemma_key_index(t, k);
    let out = endpoint_insert(t, k, r);
    match key_index(t, k) {
        Some(i) => {
            lemma_add_to_listener_ok(t[i].1, r);
            assert forall|a: int, b: int| 0 <= a < b < out.len() implies #[trigger] out[a].0
                != #[trigger] out[b].0 by {
                assert(t[a].0 != t[b].0);
            }
            assert forall|j: int| 0 <= j < out.len() implies listener_ok(#[trigger] out[j].1) by {
                if j != i {
                    assert(out[j] == t[j]);
                }
            }
            lemma_key_index_of(out, k, i);
        },
        None => {
            lemma_add_to_listener_ok(seq![], r);
            assert forall|a: int, b: int| 0 <= a < b < out.len() implies #[trigger] out[a].0
                != #[trigger] out[b].0 by {
                if b < t.len() {
                    assert(t[a].0 != t[b].0);
                }
            }
            assert forall|j: int| 0 <= j < out.len() implies listener_ok(#[trigger] out[j].1) by {
                if j < t.len() {
                    assert(out[j] == t[j]);
                }
            }
            assert forall|j: int| 0 <= j < t.len() implies out[j].0 != k by {}
            lemma_key_index_of(out, k, t.len() as int);
        },
    }
}

/// A table built by inserting routes has each listener once, and the routes
/// of each listener share one protocol, with distinct authorities.
pub proof fn law_endpoint_table_ok(c: Seq<(KeyView, EndpointRouteView)>)
    ensures
        endpoint_table_ok(endpoint_insert_all(Seq::empty(), c)),
    decreases c.len(),
{
    if c.len() > 0 {
        law_endpoint_table_ok(c.drop_last());
        law_endpoint_insert_ok(endpoint_insert_all(Seq::empty(), c.drop_last()), c.last().0, c.last().1);
    }
}

/// The endpoint routing table: listener to routes.
#[derive(Debug, Clone)]
pub struct EndpointRouteTable {
    pub entries: Vec<(ProxyEndpointKey, Vec<ProxyEndpointRoute>)>,
}

impl EndpointRouteTable {
    pub open spec fn table(&self) -> Seq<(KeyView, Seq<EndpointRouteView>)> {
        self.entries@.map_values(
            |e: (ProxyEndpointKey, Vec<ProxyEndpointRoute>)| (e.0@, route_views(e.1@)),
        )
    }

    pub fn new() -> (t: Self)
        ensures
            t.table() == Seq::<(KeyView, Seq<EndpointRouteView>)>::empty(),
    {
        let t = EndpointRouteTable { entries: Vec::new() };
        assert(t.table() =~= Seq::<(KeyView, Seq<EndpointRouteView>)>::empty());
        t
    }

    pub fn len(&self) -> (n: usize)
        ensures
            n == self.table().len(),
    {
        self.entries.len()
    }

    fn find(&self, key: &ProxyEndpointKey) -> (r: Option<usize>)
        ensures
            match r {
                Some(i) => key_index(self.table(), key@) == Some(i as int) && i
                    < self.entries@.len(),
                None => key_index(self.table(), key@) is None,
            },
    {
        let kh = chars_of(key.listen_host.as_str());
        let mut i: usize = 0;
        while i < self.entries.len()
            invariant
                i <= self.entries@.len(),
                kh@ == key.listen_host@,
                forall|j: int| 0 <= j < i ==> self.table()[j].0 != key@,
            decreases self.entries.len() - i,
        {
            let h = chars_of(self.entries[i].0.listen_host.as_str());
            if self.entries[i].0.listen_port == key.listen_port && chars_eq(&h, &kh) {
                proof {
                    lemma_key_index_of(self.table(), key@, i as int);
                }
                return Some(i);
            }
            i = i + 1;
        }
        proof {
            lemma_key_index_none(self.table(), key@);
        }
        None
    }

    /// The routes of a listener.
    pub fn get(&self, key: &ProxyEndpointKey) -> (r: Option<&Vec<ProxyEndpointRoute>>)
        ensures
            match r {
                Some(x) => key_index(self.table(), key@) is Some && self.table()[key_index(
                    self.table(),
                    key@,
                ).unwrap()].1 == route_views(x@),
                None => key_index(self.table(), key@) is None,
            },
    {
        match self.find(key) {
            Some(i) => Some(&self.entries[i].1),
            None => None,
        }
    }

    /// Adds a route to the listener `key` (see [`add_to_listener`]).
    pub fn insert(&mut self, key: ProxyEndpointKey, route: ProxyEndpointRoute)
        ensures
            final(self).table() == endpoint_insert(old(self).table(), key@, route@),
    {
        let ghost kv = key@;
        let ghost rv = route@;
        let idx = match self.find(&key) {
            Some(i) => i,
            None => {
                let ghost t0 = self.table();
                let empty: Vec<ProxyEndpointRoute> = Vec::new();
                assert(route_views(empty@) =~= Seq::<EndpointRouteView>::empty());
                self.entries.push((key, empty));
                assert(self.table() =~= t0.push((kv, Seq::<EndpointRouteView>::empty())));
                self.entries.len() - 1
            },
        };
        let ghost mid = self.table();
        assert(mid[idx as int].1 == match key_index(old(self).table(), kv) {
            Some(i) => old(self).table()[i].1,
            None => Seq::<EndpointRouteView>::empty(),
        });
        let mut slot = (ProxyEndpointKey { listen_host: String::new(), listen_port: 0 }, Vec::new());
        std::mem::swap(&mut slot, &mut self.entries[idx]);
        let ghost rs = route_views(slot.1@);
        let mut mixed = false;
        let mut dup = false;
        let akey = authority_key_of(&route.authority);
        let mut j: usize = 0;
        while j < slot.1.len()
            invariant
                j <= slot.1@.len(),
                rs == route_views(slot.1@),
                akey@ == authority_key(rv.authority),
                rv == route@,
                mixed == exists|a: int| 0 <= a < j && #[trigger] rs[a].protocol != rv.protocol,
                dup == exists|a: int|
                    0 <= a < j && authority_key(#[trigger] rs[a].authority) == authority_key(
                        rv.authority,
                    ),
            decreases slot.1.len() - j,
        {
            assert(rs[j as int] == slot.1@[j as int]@);
            let ghost m0 = mixed;
            let ghost d0 = dup;
            if slot.1[j].protocol != route.protocol {
                mixed = true;
            }
            let ak = authority_key_of(&slot.1[j].authority);
            if chars_eq(&ak, &akey) {
                dup = true;
            }
            proof {
                if rs[j as int].protocol != rv.protocol {
                    assert(mixed);
                } else {
                    assert(mixed == m0);
                }
                assert((exists|a: int| 0 <= a < j + 1 && #[trigger] rs[a].protocol != rv.protocol)
                    == ((exists|a: int| 0 <= a < j && #[trigger] rs[a].protocol != rv.protocol)
                    || rs[j as int].protocol != rv.protocol));
                assert((exists|a: int|
                    0 <= a < j + 1 && authority_key(#[trigger] rs[a].authority) == authority_key(
                        rv.authority,
                    )) == ((exists|a: int|
                    0 <= a < j && authority_key(#[trigger] rs[a].authority) == authority_key(
                        rv.authority,
                    )) || authority_key(rs[j as int].authority) == authority_key(rv.authority)));
            }
            j = j + 1;
        }
        let ghost before_push = slot.1@;
        if !mixed {
            match route.protocol {
                ProxyEndpointProtocol::GrpcH2c => {
                    if !dup {
                        slot.1.push(route);
                    }
                },
                _ => {
                    if slot.1.len() == 0 {
                        slot.1.push(route);
                    }
                },
            }
        }
        assert(route_views(slot.1@) =~= add_to_listener(rs, rv));
        std::mem::swap(&mut slot, &mut self.entries[idx]);
        proof {
            let t = old(self).table();
            lemma_key_index(t, kv);
            assert(self.table() =~= endpoint_insert(t, kv, rv));
        }
    }
}

fn authority_key_of(a: &Option<String>) -> (r: Vec<char>)
    ensures
        r@ == authority_key(opt_view(*a)),
{
    match a {
        Some(s) => to_lowercase_chars(&trim_chars(&chars_of(s.as_str()))),
        None => to_lowercase_chars(&trim_chars(&Vec::new())),
    }
}


// ---------------------------------------------------------------------------
// Matching endpoints to services
// ---------------------------------------------------------------------------

/// The service has an effective port `port`.
pub open spec fn has_effective_port(s: ServiceConfig, port: u16) -> bool {
    exists|k: int| 0 <= k < effective_ports(s).len() && #[trigger] effective_ports(s)[k].port == port
}

/// The name of the first service with the effective port `port`.
pub open spec fn service_with_port(services: Seq<ServiceConfig>, port: u16) -> Option<Seq<char>>
    decreases services.len(),
{
    if services.len() == 0 {
        None
    } else if has_effective_port(services[0], port) {
        Some(services[0].name@)
    } else {
        service_with_port(services.drop_first(), port)
    }
}

/// The service of a project that an upstream address points at: the project's
/// IP must equal the host (ignoring ASCII case, both trimmed).
pub open spec fn service_for_endpoint(p: ProjectConfig, host: Seq<char>, port: u16) -> Option<
    Seq<char>,
> {
    if !eq_ignore_case(trim(p.ip@), trim(host)) {
        None
    } else {
        service_with_port(p.services@, port)
    }
}

/// The first project, in name order, with a service that an upstream address
/// points at.
pub open spec fn project_service_for_endpoint(
    entries: Seq<(String, ProjectConfig)>,
    host: Seq<char>,
    port: u16,
) -> Option<(Seq<char>, Seq<char>)>
    decreases entries.len(),
{
    if entries.len() == 0 {
        None
    } else {
        match service_for_endpoint(entries[0].1, host, port) {
            Some(s) => Some((entries[0].0@, s)),
            None => project_service_for_endpoint(entries.drop_first(), host, port),
        }
    }
}

fn has_port_exec(s: &ServiceConfig, port: u16) -> (r: bool)
    ensures
        r == has_effective_port(*s, port),
{
    let ports = service_ports(s);
    let mut k: usize = 0;
    while k < ports.len()
        invariant
            k <= ports@.len(),
            port_specs(ports@) == effective_ports(*s),
            forall|a: int| 0 <= a < k ==> ports@[a].port != port,
        decreases ports.len() - k,
    {
        assert(port_specs(ports@)[k as int].port == ports@[k as int].port);
        if ports[k].port == port {
            return true;
        }
        k = k + 1;
    }
    proof {
        if has_effective_port(*s, port) {
            let k = choose|k: int| 0 <= k < effective_ports(*s).len() && #[trigger] effective_ports(*s)[k].port == port;
            assert(port_specs(ports@)[k].port == ports@[k].port);
        }
    }
    false
}

fn service_with_port_exec(services: &Vec<ServiceConfig>, port: u16) -> (r: Option<String>)
    ensures
        opt_view(r) == service_with_port(services@, port),
{
    let mut i: usize = 0;
    assert(services@.skip(0) == services@);
    while i < services.len()
        invariant
            i <= services@.len(),
            service_with_port(services@, port) == service_with_port(services@.skip(i as int), port),
        decreases services.len() - i,
    {
        assert(services@.skip(i as int)[0] == services@[i as int]);
        assert(services@.skip(i as int).drop_first() == services@.skip(i + 1));
        if has_port_exec(&services[i], port) {
            return Some(services[i].name.clone());
        }
        i = i + 1;
    }
    None
}

/// The service of `project` that the upstream address points at.
pub fn find_service_for_endpoint_in_project(
    project: &ProjectConfig,
    upstream_host: &str,
    upstream_port: u16,
) -> (r: Option<String>)
    ensures
        opt_view(r) == service_for_endpoint(*project, upstream_host@, upstream_port),
{
    let ip = trim_chars(&chars_of(project.ip.as_str()));
    let host = trim_chars(&chars_of(upstream_host));
    if !crate::text::eq_ignore_case_chars(&ip, &host) {
        return None;
    }
    service_with_port_exec(&project.services, upstream_port)
}

/// The project and service that the upstream address points at.
pub fn find_project_service_for_endpoint(
    config: &LoopboxConfig,
    upstream_host: &str,
    upstream_port: u16,
) -> (r: Option<(String, String)>)
    ensures
        match r {
            Some((a, b)) => project_service_for_endpoint(
                config.projects.entries@,
                upstream_host@,
                upstream_port,
            ) == Some((a@, b@)),
            None => project_service_for_endpoint(
                config.projects.entries@,
                upstream_host@,
                upstream_port,
            ) is None,
        },
{
    let entries = &config.projects.entries;
    let mut i: usize = 0;
    assert(entries@.skip(0) == entries@);
    while i < entries.len()
        invariant
            i <= entries@.len(),
            entries == &config.projects.entries,
            project_service_for_endpoint(entries@, upstream_host@, upstream_port)
                == project_service_for_endpoint(entries@.skip(i as int), upstream_host@, upstream_port),
        decreases entries.len() - i,
    {
        assert(entries@.skip(i as int)[0] == entries@[i as int]);
        assert(entries@.skip(i as int).drop_first() == entries@.skip(i + 1));
        match find_service_for_endpoint_in_project(&entries[i].1, upstream_host, upstream_port) {
            Some(s) => {
                return Some((entries[i].0.clone(), s));
            },
            None => {},
        }
        i = i + 1;
    }
    None
}

// ---------------------------------------------------------------------------
// The routes each listener gets
// ---------------------------------------------------------------------------

/// The listener address: the trimmed host, `127.0.0.1` when blank.
pub open spec fn endpoint_key(listen_host: Seq<char>, port: u16) -> KeyView {
    KeyView {
        listen_host: if trim(listen_host).len() == 0 {
            "127.0.0.1"@
        } else {
            trim(listen_host)
        },
        listen_port: port,
    }
}

/// An endpoint is used when both ports are set and the upstream host is not
/// blank.
pub open spec fn endpoint_usable(e: crate::config::ProxyEndpointConfig) -> bool {
    e.listen_port != 0 && e.upstream_port != 0 && trim(e.upstream_host@).len() > 0
}

/// A configured name, trimmed and lowercased, when that is not empty.
pub open spec fn nonempty_lower(o: Option<String>) -> Option<Seq<char>> {
    match o {
        Some(v) => if unicode_lower(trim(v@)).len() > 0 {
            Some(unicode_lower(trim(v@)))
        } else {
            None
        },
        None => None,
    }
}

/// A configured authority, trimmed and lowercased.
pub open spec fn lower_authority(o: Option<String>) -> Option<Seq<char>> {
    match o {
        Some(v) => Some(unicode_lower(trim(v@))),
        None => None,
    }
}

/// The route of an endpoint configured in project `pname`.
pub open spec fn project_endpoint_route(
    config: LoopboxConfig,
    pname: Seq<char>,
    p: ProjectConfig,
    e: crate::config::ProxyEndpointConfig,
) -> EndpointRouteView {
    EndpointRouteView {
        name: trim(e.name@),
        protocol: e.protocol,
        upstream_host: trim(e.upstream_host@),
        upstream_port: e.upstream_port,
        authority: lower_authority(e.authority),
        project_name: pname,
        service_name: match nonempty_lower(e.service_name) {
            Some(s) => s,
            None => match service_for_endpoint(p, trim(e.upstream_host@), e.upstream_port) {
                Some(s) => s,
                None => trim(e.name@),
            },
        },
        grpc_proto_paths: str_views(p.grpc_proto_paths@),
        capture_enabled: capture_enabled_for(config, p),
        capture_mode: capture_mode_for(config, p),
        capture_text_only: config.global.proxy_traffic.capture_text_only,
        redacted_header_names: redacted_headers_of(config),
        redacted_query_keys: redacted_keys_of(config),
        request_body_preview_max_bytes: request_limit_of(config) as usize,
        response_body_preview_max_bytes: response_limit_of(config) as usize,
    }
}

pub open spec fn endpoint_pairs(
    config: LoopboxConfig,
    pname: Seq<char>,
    p: ProjectConfig,
    es: Seq<crate::config::ProxyEndpointConfig>,
) -> Seq<(KeyView, EndpointRouteView)>
    decreases es.len(),
{
    if es.len() == 0 {
        seq![]
    } else {
        let e = es.last();
        endpoint_pairs(config, pname, p, es.drop_last()) + if endpoint_usable(e) {
            seq![(endpoint_key(e.listen_host@, e.listen_port), project_endpoint_route(config, pname, p, e))]
        } else {
            seq![]
        }
    }
}

pub open spec fn project_endpoint_pairs(
    config: LoopboxConfig,
    entries: Seq<(String, ProjectConfig)>,
) -> Seq<(KeyView, EndpointRouteView)>
    decreases entries.len(),
{
    if entries.len() == 0 {
        seq![]
    } else {
        let e = entries.last();
        project_endpoint_pairs(config, entries.drop_last()) + endpoint_pairs(
            config,
            e.0@,
            e.1,
            e.1.proxy_endpoints@,
        )
    }
}

/// The project and service a global endpoint is attributed to: the configured
/// names, or when either is missing, the project and service its upstream
/// points at.
pub open spec fn global_endpoint_owner(config: LoopboxConfig, e: crate::config::ProxyEndpointConfig) -> (
    Option<Seq<char>>,
    Option<Seq<char>>,
) {
    let pn = nonempty_lower(e.project_name);
    let sn = nonempty_lower(e.service_name);
    if pn is None || sn is None {
        match project_service_for_endpoint(
            config.projects.entries@,
            trim(e.upstream_host@),
            e.upstream_port,
        ) {
            Some((a, b)) => (Some(a), Some(b)),
            None => (pn, sn),
        }
    } else {
        (pn, sn)
    }
}

/// The route of a globally configured endpoint.
pub open spec fn global_endpoint_route(config: LoopboxConfig, e: crate::config::ProxyEndpointConfig) -> EndpointRouteView {
    let owner = global_endpoint_owner(config, e);
    let project_name = match owner.0 {
        Some(x) => x,
        None => "legacy-global"@,
    };
    let service_name = match owner.1 {
        Some(x) => if x.len() > 0 {
            x
        } else {
            trim(e.name@)
        },
        None => trim(e.name@),
    };
    let proj = config.projects.lookup(project_name);
    EndpointRouteView {
        name: trim(e.name@),
        protocol: e.protocol,
        upstream_host: trim(e.upstream_host@),
        upstream_port: e.upstream_port,
        authority: lower_authority(e.authority),
        project_name: project_name,
        service_name: service_name,
        grpc_proto_paths: match proj {
            Some(p) => str_views(p.grpc_proto_paths@),
            None => seq![],
        },
        capture_enabled: match proj {
            Some(p) => capture_enabled_for(config, p),
            None => config.global.proxy_traffic.capture_enabled_by_default,
        },
        capture_mode: match proj {
            Some(p) => capture_mode_for(config, p),
            None => config.global.proxy_traffic.capture_mode_default,
        },
        capture_text_only: config.global.proxy_traffic.capture_text_only,
        redacted_header_names: redacted_headers_of(config),
        redacted_query_keys: redacted_keys_of(config),
        request_body_preview_max_bytes: request_limit_of(config) as usize,
        response_body_preview_max_bytes: response_limit_of(config) as usize,
    }
}

pub open spec fn global_endpoint_pairs(
    config: LoopboxConfig,
    es: Seq<crate::config::ProxyEndpointConfig>,
) -> Seq<(KeyView, EndpointRouteView)>
    decreases es.len(),
{
    if es.len() == 0 {
        seq![]
    } else {
        let e = es.last();
        global_endpoint_pairs(config, es.drop_last()) + if endpoint_usable(e) {
            seq![(endpoint_key(e.listen_host@, e.listen_port), global_endpoint_route(config, e))]
        } else {
            seq![]
        }
    }
}

/// The authority of an automatic gRPC route: `<service>.<project>.<suffix>`,
/// lowercased, when the suffix is not empty.
pub open spec fn auto_authority(config: LoopboxConfig, pname: Seq<char>, s: ServiceConfig) -> Option<
    Seq<char>,
> {
    let suffix = unicode_lower(domain_suffix(config));
    if suffix.len() == 0 {
        None
    } else {
        Some(unicode_lower(trim(s.name@)) + "."@ + unicode_lower(trim(pname)) + "."@ + suffix)
    }
}

/// `auto-<project>-<service>-grpc-<port>` or `auto-<project>-<service>-tcp-<port>`.
pub open spec fn auto_name(pname: Seq<char>, s: ServiceConfig, kind: Seq<char>, port: u16) -> Seq<char> {
    "auto-"@ + unicode_lower(trim(pname)) + "-"@ + unicode_lower(trim(s.name@)) + kind + dec_chars(
        port as nat,
    )
}

/// The automatic route of a gRPC or TCP port of a service.
pub open spec fn auto_route(
    config: LoopboxConfig,
    pname: Seq<char>,
    p: ProjectConfig,
    s: ServiceConfig,
    port: PortSpec,
) -> EndpointRouteView {
    let grpc = port.protocol == ProxyEndpointProtocol::GrpcH2c;
    EndpointRouteView {
        name: auto_name(
            pname,
            s,
            if grpc {
                "-grpc-"@
            } else {
                "-tcp-"@
            },
            port.port,
        ),
        protocol: port.protocol,
        upstream_host: trim(p.ip@),
        upstream_port: port.port,
        authority: if grpc {
            auto_authority(config, pname, s)
        } else {
            None
        },
        project_name: pname,
        service_name: s.name@,
        grpc_proto_paths: str_views(p.grpc_proto_paths@),
        capture_enabled: capture_enabled_for(config, p),
        capture_mode: capture_mode_for(config, p),
        capture_text_only: config.global.proxy_traffic.capture_text_only,
        redacted_header_names: redacted_headers_of(config),
        redacted_query_keys: redacted_keys_of(config),
        request_body_preview_max_bytes: request_limit_of(config) as usize,
        response_body_preview_max_bytes: response_limit_of(config) as usize,
    }
}

pub open spec fn port_auto_pairs(
    config: LoopboxConfig,
    pname: Seq<char>,
    p: ProjectConfig,
    s: ServiceConfig,
    ports: Seq<PortSpec>,
) -> Seq<(KeyView, EndpointRouteView)>
    decreases ports.len(),
{
    if ports.len() == 0 {
        seq![]
    } else {
        let port = ports.last();
        port_auto_pairs(config, pname, p, s, ports.drop_last()) + if port.protocol
            != ProxyEndpointProtocol::Http1 {
            seq![(KeyView { listen_host: "127.0.0.1"@, listen_port: port.port }, auto_route(config, pname, p, s, port))]
        } else {
            seq![]
        }
    }
}

pub open spec fn service_auto_pairs(
    config: LoopboxConfig,
    pname: Seq<char>,
    p: ProjectConfig,
    services: Seq<ServiceConfig>,
) -> Seq<(KeyView, EndpointRouteView)>
    decreases services.len(),
{
    if services.len() == 0 {
        seq![]
    } else {
        let s = services.last();
        service_auto_pairs(config, pname, p, services.drop_last()) + port_auto_pairs(
            config,
            pname,
            p,
            s,
            effective_ports(s),
        )
    }
}

pub open spec fn project_auto_pairs(
    config: LoopboxConfig,
    entries: Seq<(String, ProjectConfig)>,
) -> Seq<(KeyView, EndpointRouteView)>
    decreases entries.len(),
{
    if entries.len() == 0 {
        seq![]
    } else {
        let e = entries.last();
        project_auto_pairs(config, entries.drop_last()) + service_auto_pairs(
            config,
            e.0@,
            e.1,
            e.1.services@,
        )
    }
}

/// What `build_proxy_endpoint_routes` returns: the endpoints of the projects,
/// then the global endpoints, then the automatic gRPC and TCP listeners of the
/// services, inserted in that order.
pub open spec fn endpoint_routes(config: LoopboxConfig) -> Seq<(KeyView, Seq<EndpointRouteView>)> {
    endpoint_insert_all(
        Seq::empty(),
        project_endpoint_pairs(config, config.projects.entries@) + global_endpoint_pairs(
            config,
            config.global.proxy_endpoints@,
        ) + project_auto_pairs(config, config.projects.entries@),
    )
}

/// A listener address and route that can be served: a listen port, a
/// non-blank listen host, and an upstream port.
pub open spec fn pair_ok(p: (KeyView, EndpointRouteView)) -> bool {
    &&& p.0.listen_port != 0
    &&& trim(p.0.listen_host).len() > 0
    &&& p.1.upstream_port != 0
}

pub open spec fn all_pairs_ok(c: Seq<(KeyView, EndpointRouteView)>) -> bool {
    forall|i: int| 0 <= i < c.len() ==> pair_ok(#[trigger] c[i])
}

/// A listener of the table that can be served: its address has a port and
/// a non-blank host, and each of its routes has an upstream port.
pub open spec fn entry_ok(e: (KeyView, Seq<EndpointRouteView>)) -> bool {
    &&& e.0.listen_port != 0
    &&& trim(e.0.listen_host).len() > 0
    &&& forall|j: int| 0 <= j < e.1.len() ==> (#[trigger] e.1[j]).upstream_port != 0
}

proof fn lemma_all_pairs_concat(a: Seq<(KeyView, EndpointRouteView)>, b: Seq<(KeyView, EndpointRouteView)>)
    requires
        all_pairs_ok(a),
        all_pairs_ok(b),
    ensures
        all_pairs_ok(a + b),
{
    assert forall|i: int| 0 <= i < (a + b).len() implies pair_ok(#[trigger] (a + b)[i]) by {
        if i < a.len() {
            assert((a + b)[i] == a[i]);
        } else {
            assert((a + b)[i] == b[i - a.len()]);
        }
    }
}

proof fn lemma_endpoint_key_ok(h: Seq<char>, port: u16)
    ensures
        trim(endpoint_key(h, port).listen_host).len() > 0,
{
    if trim(h).len() == 0 {
        reveal_strlit("127.0.0.1");
        assert("127.0.0.1"@[0] == '1');
        assert(trim_start("127.0.0.1"@) == "127.0.0.1"@);
        assert("127.0.0.1"@.last() == '1');
    } else {
        crate::text::lemma_trim_idempotent(h);
    }
}

proof fn lemma_endpoint_pairs_ok(
    config: LoopboxConfig,
    pname: Seq<char>,
    p: ProjectConfig,
    es: Seq<crate::config::ProxyEndpointConfig>,
)
    ensures
        all_pairs_ok(endpoint_pairs(config, pname, p, es)),
    decreases es.len(),
{
    if es.len() > 0 {
        let e = es.last();
        lemma_endpoint_pairs_ok(config, pname, p, es.drop_last());
        lemma_endpoint_key_ok(e.listen_host@, e.listen_port);
        let tail = if endpoint_usable(e) {
            seq![(endpoint_key(e.listen_host@, e.listen_port), project_endpoint_route(config, pname, p, e))]
        } else {
            seq![]
        };
        assert(all_pairs_ok(tail));
        lemma_all_pairs_concat(endpoint_pairs(config, pname, p, es.drop_last()), tail);
    }
}

proof fn lemma_project_endpoint_pairs_ok(config: LoopboxConfig, entries: Seq<(String, ProjectConfig)>)
    ensures
        all_pairs_ok(project_endpoint_pairs(config, entries)),
    decreases entries.len(),
{
    if entries.len() > 0 {
        let e = entries.last();
        lemma_project_endpoint_pairs_ok(config, entries.drop_last());
        lemma_endpoint_pairs_ok(config, e.0@, e.1, e.1.proxy_endpoints@);
        lemma_all_pairs_concat(
            project_endpoint_pairs(config, entries.drop_last()),
            endpoint_pairs(config, e.0@, e.1, e.1.proxy_endpoints@),
        );
    }
}

proof fn lemma_global_endpoint_pairs_ok(config: LoopboxConfig, es: Seq<crate::config::ProxyEndpointConfig>)
    ensures
        all_pairs_ok(global_endpoint_pairs(config, es)),
    decreases es.len(),
{
    if es.len() > 0 {
        let e = es.last();
        lemma_global_endpoint_pairs_ok(config, es.drop_last());
        lemma_endpoint_key_ok(e.listen_host@, e.listen_port);
        let tail = if endpoint_usable(e) {
            seq![(endpoint_key(e.listen_host@, e.listen_port), global_endpoint_route(config, e))]
        } else {
            seq![]
        };
        assert(all_pairs_ok(tail));
        lemma_all_pairs_concat(global_endpoint_pairs(config, es.drop_last()), tail);
    }
}

proof fn lemma_listed_ports_nonzero(entries: Seq<crate::config::ServicePortConfig>)
    ensures
        forall|i: int| 0 <= i < listed_ports(entries).len() ==> (#[trigger] listed_ports(entries)[i]).port != 0,
    decreases entries.len(),
{
    if entries.len() > 0 {
        lemma_listed_ports_nonzero(entries.drop_last());
    }
}

proof fn lemma_port_auto_pairs_ok(
    config: LoopboxConfig,
    pname: Seq<char>,
    p: ProjectConfig,
    s: ServiceConfig,
    ports: Seq<PortSpec>,
)
    requires
        forall|i: int| 0 <= i < ports.len() ==> (#[trigger] ports[i]).port != 0,
    ensures
        all_pairs_ok(port_auto_pairs(config, pname, p, s, ports)),
    decreases ports.len(),
{
    if ports.len() > 0 {
        let port = ports.last();
        assert(port.port != 0);
        lemma_port_auto_pairs_ok(config, pname, p, s, ports.drop_last());
        lemma_endpoint_key_ok(seq![], port.port);
        let tail = if port.protocol != ProxyEndpointProtocol::Http1 {
            seq![(KeyView { listen_host: "127.0.0.1"@, listen_port: port.port }, auto_route(config, pname, p, s, port))]
        } else {
            seq![]
        };
        assert(trim(seq![]).len() == 0);
        assert(endpoint_key(seq![], port.port).listen_host == "127.0.0.1"@);
        assert(all_pairs_ok(tail));
        lemma_all_pairs_concat(port_auto_pairs(config, pname, p, s, ports.drop_last()), tail);
    }
}

proof fn lemma_service_auto_pairs_ok(
    config: LoopboxConfig,
    pname: Seq<char>,
    p: ProjectConfig,
    services: Seq<ServiceConfig>,
)
    ensures
        all_pairs_ok(service_auto_pairs(config, pname, p, services)),
    decreases services.len(),
{
    if services.len() > 0 {
        let s = services.last();
        lemma_service_auto_pairs_ok(config, pname, p, services.drop_last());
        lemma_listed_ports_nonzero(s.ports@);
        lemma_port_auto_pairs_ok(config, pname, p, s, effective_ports(s));
        lemma_all_pairs_concat(
            service_auto_pairs(config, pname, p, services.drop_last()),
            port_auto_pairs(config, pname, p, s, effective_ports(s)),
        );
    }
}

proof fn lemma_project_auto_pairs_ok(config: LoopboxConfig, entries: Seq<(String, ProjectConfig)>)
    ensures
        all_pairs_ok(project_auto_pairs(config, entries)),
    decreases entries.len(),
{
    if entries.len() > 0 {
        let e = entries.last();
        lemma_project_auto_pairs_ok(config, entries.drop_last());
        lemma_service_auto_pairs_ok(config, e.0@, e.1, e.1.services@);
        lemma_all_pairs_concat(
            project_auto_pairs(config, entries.drop_last()),
            service_auto_pairs(config, e.0@, e.1, e.1.services@),
        );
    }
}

proof fn lemma_insert_all_entries_ok(
    t: Seq<(KeyView, Seq<EndpointRouteView>)>,
    c: Seq<(KeyView, EndpointRouteView)>,
)
    requires
        forall|i: int| 0 <= i < t.len() ==> entry_ok(#[trigger] t[i]),
        all_pairs_ok(c),
    ensures
        forall|i: int| 0 <= i < endpoint_insert_all(t, c).len() ==> entry_ok(
            #[trigger] endpoint_insert_all(t, c)[i],
        ),
    decreases c.len(),
{
    if c.len() > 0 {
        assert(all_pairs_ok(c.drop_last())) by {
            assert forall|i: int| 0 <= i < c.drop_last().len() implies pair_ok(#[trigger] c.drop_last()[i]) by {
                assert(c.drop_last()[i] == c[i]);
            }
        }
        lemma_insert_all_entries_ok(t, c.drop_last());
        let t1 = endpoint_insert_all(t, c.drop_last());
        let k = c.last().0;
        let r = c.last().1;
        assert(pair_ok(c[c.len() - 1]));
        let out = endpoint_insert(t1, k, r);
        assert forall|i: int| 0 <= i < out.len() implies entry_ok(#[trigger] out[i]) by {
            match key_index(t1, k) {
                Some(x) => {
                    lemma_key_index(t1, k);
                    if i == x {
                        let rs = add_to_listener(t1[x].1, r);
                        assert(out[i] == (k, rs));
                        assert(entry_ok(t1[x]));
                        assert forall|j: int| 0 <= j < rs.len() implies (#[trigger] rs[j]).upstream_port != 0 by {
                            if j < t1[x].1.len() {
                                assert(rs[j] == t1[x].1[j]);
                            }
                        }
                    } else {
                        assert(out[i] == t1[i]);
                    }
                },
                None => {
                    if i < t1.len() {
                        assert(out[i] == t1[i]);
                    } else {
                        let rs = add_to_listener(seq![], r);
                        assert(out[i] == (k, rs));
                        assert forall|j: int| 0 <= j < rs.len() implies (#[trigger] rs[j]).upstream_port != 0 by {
                        }
                    }
                },
            }
        }
    }
}

/// Every listener of the endpoint table has a port and a non-blank host, and
/// every route in it has an upstream port.
pub proof fn law_endpoint_routes_addresses(config: LoopboxConfig)
    ensures
        forall|i: int| 0 <= i < endpoint_routes(config).len() ==> entry_ok(
            #[trigger] endpoint_routes(config)[i],
        ),
{
    let a = project_endpoint_pairs(config, config.projects.entries@);
    let b = global_endpoint_pairs(config, config.global.proxy_endpoints@);
    let c = project_auto_pairs(config, config.projects.entries@);
    lemma_project_endpoint_pairs_ok(config, config.projects.entries@);
    lemma_global_endpoint_pairs_ok(config, config.global.proxy_endpoints@);
    lemma_project_auto_pairs_ok(config, config.projects.entries@);
    lemma_all_pairs_concat(a, b);
    lemma_all_pairs_concat(a + b, c);
    lemma_insert_all_entries_ok(Seq::empty(), a + b + c);
}

/// Inserting `a` and then `b` is inserting `a + b`.
pub proof fn lemma_endpoint_insert_all_concat(
    t: Seq<(KeyView, Seq<EndpointRouteView>)>,
    a: Seq<(KeyView, EndpointRouteView)>,
    b: Seq<(KeyView, EndpointRouteView)>,
)
    ensures
        endpoint_insert_all(endpoint_insert_all(t, a), b) == endpoint_insert_all(t, a + b),
    decreases b.len(),
{
    if b.len() == 0 {
        assert(a + b =~= a);
    } else {
        lemma_endpoint_insert_all_concat(t, a, b.drop_last());
        assert((a + b).drop_last() =~= a + b.drop_last());
        assert((a + b).last() == b.last());
    }
}


// ---------------------------------------------------------------------------
// Building the endpoint table
// ---------------------------------------------------------------------------

fn make_key(listen_host: &str, port: u16) -> (k: ProxyEndpointKey)
    ensures
        k@ == endpoint_key(listen_host@, port),
{
    let h = trim_chars(&chars_of(listen_host));
    let host = if h.len() == 0 {
        string_of(&chars_of("127.0.0.1"))
    } else {
        string_of(&h)
    };
    ProxyEndpointKey { listen_host: host, listen_port: port }
}

fn opt_nonempty_lower(o: &Option<String>) -> (r: Option<Vec<char>>)
    ensures
        match r {
            Some(v) => nonempty_lower(*o) == Some(v@),
            None => nonempty_lower(*o) is None,
        },
{
    match o {
        Some(v) => {
            let l = lower_trim(v.as_str());
            if l.len() > 0 {
                Some(l)
            } else {
                None
            }
        },
        None => None,
    }
}

fn opt_lower_authority(o: &Option<String>) -> (r: Option<String>)
    ensures
        opt_view(r) == lower_authority(*o),
{
    match o {
        Some(v) => Some(string_of(&lower_trim(v.as_str()))),
        None => None,
    }
}

/// The capture settings of a route from its owner's.
struct RouteCapture {
    grpc_proto_paths: Vec<String>,
    capture_enabled: bool,
    capture_mode: ProxyCaptureMode,
}

fn fill_route(
    name: String,
    protocol: ProxyEndpointProtocol,
    upstream_host: String,
    upstream_port: u16,
    authority: Option<String>,
    project_name: String,
    service_name: String,
    capture: RouteCapture,
    common: &RouteCommon,
) -> (r: ProxyEndpointRoute)
    ensures
        r@ == (EndpointRouteView {
            name: name@,
            protocol,
            upstream_host: upstream_host@,
            upstream_port,
            authority: opt_view(authority),
            project_name: project_name@,
            service_name: service_name@,
            grpc_proto_paths: str_views(capture.grpc_proto_paths@),
            capture_enabled: capture.capture_enabled,
            capture_mode: capture.capture_mode,
            capture_text_only: common.capture_text_only,
            redacted_header_names: str_views(common.redacted_header_names@),
            redacted_query_keys: str_views(common.redacted_query_keys@),
            request_body_preview_max_bytes: common.request_body_preview_max_bytes,
            response_body_preview_max_bytes: common.response_body_preview_max_bytes,
        }),
{
    ProxyEndpointRoute {
        name,
        protocol,
        upstream_host,
        upstream_port,
        authority,
        project_name,
        service_name,
        grpc_proto_paths: capture.grpc_proto_paths,
        capture_enabled: capture.capture_enabled,
        capture_mode: capture.capture_mode,
        capture_text_only: common.capture_text_only,
        redacted_header_names: clone_strings(&common.redacted_header_names),
        redacted_query_keys: clone_strings(&common.redacted_query_keys),
        request_body_preview_max_bytes: common.request_body_preview_max_bytes,
        response_body_preview_max_bytes: common.response_body_preview_max_bytes,
    }
}

fn project_capture(config: &LoopboxConfig, p: &ProjectConfig) -> (c: RouteCapture)
    ensures
        str_views(c.grpc_proto_paths@) == str_views(p.grpc_proto_paths@),
        c.capture_enabled == capture_enabled_for(*config, *p),
        c.capture_mode == capture_mode_for(*config, *p),
{
    let (capture_enabled, capture_mode) = capture_of(config, p);
    RouteCapture {
        grpc_proto_paths: clone_strings(&p.grpc_proto_paths),
        capture_enabled,
        capture_mode,
    }
}

fn add_project_endpoint_routes(
    table: &mut EndpointRouteTable,
    config: &LoopboxConfig,
    common: &RouteCommon,
)
    requires
        common_ok(*common, *config),
    ensures
        final(table).table() == endpoint_insert_all(
            old(table).table(),
            project_endpoint_pairs(*config, config.projects.entries@),
        ),
{
    let ghost t0 = old(table).table();
    let entries = &config.projects.entries;
    let ghost all = entries@;
    let mut i: usize = 0;
    assert(all.take(0) =~= Seq::<(String, ProjectConfig)>::empty());
    while i < entries.len()
        invariant
            i <= all.len(),
            entries == &config.projects.entries,
            all == entries@,
            common_ok(*common, *config),
            table.table() == endpoint_insert_all(t0, project_endpoint_pairs(*config, all.take(i as int))),
        decreases entries.len() - i,
    {
        let pname = &entries[i].0;
        let project = &entries[i].1;
        let es = &project.proxy_endpoints;
        let ghost before = project_endpoint_pairs(*config, all.take(i as int));
        let mut j: usize = 0;
        assert(es@.take(0) =~= Seq::<crate::config::ProxyEndpointConfig>::empty());
        assert(before + endpoint_pairs(*config, pname@, *project, es@.take(0)) =~= before);
        while j < es.len()
            invariant
                j <= es@.len(),
                i < all.len(),
                entries == &config.projects.entries,
                all == entries@,
                pname == &all[i as int].0,
                project == &all[i as int].1,
                es == &project.proxy_endpoints,
                common_ok(*common, *config),
                before == project_endpoint_pairs(*config, all.take(i as int)),
                table.table() == endpoint_insert_all(
                    t0,
                    before + endpoint_pairs(*config, pname@, *project, es@.take(j as int)),
                ),
            decreases es.len() - j,
        {
            let e = &es[j];
            let ghost prefix = before + endpoint_pairs(*config, pname@, *project, es@.take(j as int));
            assert(es@.take(j + 1).drop_last() =~= es@.take(j as int));
            assert(es@.take(j + 1).last() == *e);
            let upstream = trim_chars(&chars_of(e.upstream_host.as_str()));
            if e.listen_port != 0 && e.upstream_port != 0 && upstream.len() > 0 {
                let key = make_key(e.listen_host.as_str(), e.listen_port);
                let upstream_s = string_of(&upstream);
                let name_s = string_of(&trim_chars(&chars_of(e.name.as_str())));
                let service_name = match opt_nonempty_lower(&e.service_name) {
                    Some(v) => string_of(&v),
                    None => match find_service_for_endpoint_in_project(
                        project,
                        upstream_s.as_str(),
                        e.upstream_port,
                    ) {
                        Some(s) => s,
                        None => name_s.clone(),
                    },
                };
                let route = fill_route(
                    name_s,
                    e.protocol,
                    upstream_s,
                    e.upstream_port,
                    opt_lower_authority(&e.authority),
                    pname.clone(),
                    service_name,
                    project_capture(config, project),
                    common,
                );
                let ghost pair = (key@, route@);
                proof {
                    assert(route@ == project_endpoint_route(*config, pname@, *project, *e));
                    assert(prefix + seq![pair] =~= before + endpoint_pairs(
                        *config,
                        pname@,
                        *project,
                        es@.take(j + 1),
                    ));
                    assert((prefix + seq![pair]).drop_last() =~= prefix);
                }
                table.insert(key, route);
            } else {
                assert(prefix + seq![] =~= before + endpoint_pairs(
                    *config,
                    pname@,
                    *project,
                    es@.take(j + 1),
                ));
            }
            j = j + 1;
        }
        proof {
            assert(es@.take(es@.len() as int) =~= es@);
            assert(all.take(i + 1).drop_last() =~= all.take(i as int));
            assert(all.take(i + 1).last() == all[i as int]);
        }
        i = i + 1;
    }
    assert(all.take(all.len() as int) =~= all);
}

fn add_global_endpoint_routes(
    table: &mut EndpointRouteTable,
    config: &LoopboxConfig,
    common: &RouteCommon,
)
    requires
        common_ok(*common, *config),
        config.projects.wf(),
    ensures
        final(table).table() == endpoint_insert_all(
            old(table).table(),
            global_endpoint_pairs(*config, config.global.proxy_endpoints@),
        ),
{
    let ghost t0 = old(table).table();
    let es = &config.global.proxy_endpoints;
    let mut j: usize = 0;
    assert(es@.take(0) =~= Seq::<crate::config::ProxyEndpointConfig>::empty());
    while j < es.len()
        invariant
            j <= es@.len(),
            es == &config.global.proxy_endpoints,
            common_ok(*common, *config),
            config.projects.wf(),
            table.table() == endpoint_insert_all(t0, global_endpoint_pairs(*config, es@.take(j as int))),
        decreases es.len() - j,
    {
        let e = &es[j];
        let ghost prefix = global_endpoint_pairs(*config, es@.take(j as int));
        assert(es@.take(j + 1).drop_last() =~= es@.take(j as int));
        assert(es@.take(j + 1).last() == *e);
        let upstream = trim_chars(&chars_of(e.upstream_host.as_str()));
        if e.listen_port != 0 && e.upstream_port != 0 && upstream.len() > 0 {
            let key = make_key(e.listen_host.as_str(), e.listen_port);
            let upstream_s = string_of(&upstream);
            let name_s = string_of(&trim_chars(&chars_of(e.name.as_str())));
            let mut pn = opt_nonempty_lower(&e.project_name);
            let mut sn = opt_nonempty_lower(&e.service_name);
            if pn.is_none() || sn.is_none() {
                match find_project_service_for_endpoint(config, upstream_s.as_str(), e.upstream_port) {
                    Some((a, b)) => {
                        pn = Some(chars_of(a.as_str()));
                        sn = Some(chars_of(b.as_str()));
                    },
                    None => {},
                }
            }
            let project_name = match pn {
                Some(v) => string_of(&v),
                None => string_of(&chars_of("legacy-global")),
            };
            let service_name = match sn {
                Some(v) => if v.len() > 0 {
                    string_of(&v)
                } else {
                    name_s.clone()
                },
                None => name_s.clone(),
            };
            let capture = match config.projects.get(project_name.as_str()) {
                Some(p) => project_capture(config, p),
                None => RouteCapture {
                    grpc_proto_paths: Vec::new(),
                    capture_enabled: crate::features::supports_traffic_capture()
                        && config.global.proxy_traffic.capture_enabled_by_default,
                    capture_mode: config.global.proxy_traffic.capture_mode_default,
                },
            };
            let route = fill_route(
                name_s,
                e.protocol,
                upstream_s,
                e.upstream_port,
                opt_lower_authority(&e.authority),
                project_name,
                service_name,
                capture,
                common,
            );
            let ghost pair = (key@, route@);
            proof {
                assert(str_views(Seq::<String>::empty()) =~= Seq::<Seq<char>>::empty());
                assert(route@ == global_endpoint_route(*config, *e));
                assert(prefix + seq![pair] =~= global_endpoint_pairs(*config, es@.take(j + 1)));
                assert((prefix + seq![pair]).drop_last() =~= prefix);
            }
            table.insert(key, route);
        } else {
            assert(prefix + seq![] =~= global_endpoint_pairs(*config, es@.take(j + 1)));
        }
        j = j + 1;
    }
    assert(es@.take(es@.len() as int) =~= es@);
}


fn add_auto_routes(table: &mut EndpointRouteTable, config: &LoopboxConfig, common: &RouteCommon)
    requires
        common_ok(*common, *config),
    ensures
        final(table).table() == endpoint_insert_all(
            old(table).table(),
            project_auto_pairs(*config, config.projects.entries@),
        ),
{
    let ghost t0 = old(table).table();
    let suffix = to_lowercase_chars(
        &trim_start_char_chars(&trim_chars(&chars_of(config.global.domain_suffix.as_str())), '.'),
    );
    let entries = &config.projects.entries;
    let ghost all = entries@;
    let mut i: usize = 0;
    assert(all.take(0) =~= Seq::<(String, ProjectConfig)>::empty());
    while i < entries.len()
        invariant
            i <= all.len(),
            entries == &config.projects.entries,
            all == entries@,
            suffix@ == unicode_lower(domain_suffix(*config)),
            common_ok(*common, *config),
            table.table() == endpoint_insert_all(t0, project_auto_pairs(*config, all.take(i as int))),
        decreases entries.len() - i,
    {
        let pname = &entries[i].0;
        let project = &entries[i].1;
        let project_clean = lower_trim(pname.as_str());
        let ip = string_of(&trim_chars(&chars_of(project.ip.as_str())));
        let services = &project.services;
        let ghost before = project_auto_pairs(*config, all.take(i as int));
        let mut j: usize = 0;
        assert(services@.take(0) =~= Seq::<ServiceConfig>::empty());
        assert(before + service_auto_pairs(*config, pname@, *project, services@.take(0)) =~= before);
        while j < services.len()
            invariant
                j <= services@.len(),
                i < all.len(),
                entries == &config.projects.entries,
                all == entries@,
                pname == &all[i as int].0,
                project == &all[i as int].1,
                services == &project.services,
                project_clean@ == unicode_lower(trim(pname@)),
                ip@ == trim(project.ip@),
                suffix@ == unicode_lower(domain_suffix(*config)),
                common_ok(*common, *config),
                before == project_auto_pairs(*config, all.take(i as int)),
                table.table() == endpoint_insert_all(
                    t0,
                    before + service_auto_pairs(*config, pname@, *project, services@.take(j as int)),
                ),
            decreases services.len() - j,
        {
            let service = &services[j];
            let ghost sprefix = before + service_auto_pairs(*config, pname@, *project, services@.take(j as int));
            assert(services@.take(j + 1).drop_last() =~= services@.take(j as int));
            assert(services@.take(j + 1).last() == *service);
            let service_clean = lower_trim(service.name.as_str());
            let ports = service_ports(service);
            let ghost ps = port_specs(ports@);
            let mut k: usize = 0;
            assert(ps.take(0) =~= Seq::<PortSpec>::empty());
            assert(sprefix + port_auto_pairs(*config, pname@, *project, *service, ps.take(0)) =~= sprefix);
            while k < ports.len()
                invariant
                    k <= ports@.len(),
                    ps == port_specs(ports@),
                    ps == effective_ports(*service),
                    i < all.len(),
                    entries == &config.projects.entries,
                    all == entries@,
                    pname == &all[i as int].0,
                    project == &all[i as int].1,
                    project_clean@ == unicode_lower(trim(pname@)),
                    service_clean@ == unicode_lower(trim(service.name@)),
                    ip@ == trim(project.ip@),
                    suffix@ == unicode_lower(domain_suffix(*config)),
                    common_ok(*common, *config),
                    table.table() == endpoint_insert_all(
                        t0,
                        sprefix + port_auto_pairs(*config, pname@, *project, *service, ps.take(k as int)),
                    ),
                decreases ports.len() - k,
            {
                let port = &ports[k];
                let ghost pprefix = sprefix + port_auto_pairs(*config, pname@, *project, *service, ps.take(k as int));
                assert(ps.take(k + 1).drop_last() =~= ps.take(k as int));
                assert(ps.take(k + 1).last() == ps[k as int]);
                assert(ps[k as int].port == port.port && ps[k as int].protocol == port.protocol);
                match port.protocol {
                    ProxyEndpointProtocol::Http1 => {
                        assert(pprefix + seq![] =~= sprefix + port_auto_pairs(
                            *config,
                            pname@,
                            *project,
                            *service,
                            ps.take(k + 1),
                        ));
                    },
                    _ => {
                        let grpc = match port.protocol {
                            ProxyEndpointProtocol::GrpcH2c => true,
                            _ => false,
                        };
                        let key = ProxyEndpointKey {
                            listen_host: string_of(&chars_of("127.0.0.1")),
                            listen_port: port.port,
                        };
                        let mut name = chars_of("auto-");
                        append_chars(&mut name, &project_clean);
                        append_str(&mut name, "-");
                        append_chars(&mut name, &service_clean);
                        if grpc {
                            append_str(&mut name, "-grpc-");
                        } else {
                            append_str(&mut name, "-tcp-");
                        }
                        append_chars(&mut name, &u64_chars(port.port as u64));
                        let authority = if grpc && suffix.len() > 0 {
                            let mut a = copy_chars(&service_clean);
                            append_str(&mut a, ".");
                            append_chars(&mut a, &project_clean);
                            append_str(&mut a, ".");
                            append_chars(&mut a, &suffix);
                            Some(string_of(&a))
                        } else {
                            None
                        };
                        let route = fill_route(
                            string_of(&name),
                            port.protocol,
                            ip.clone(),
                            port.port,
                            authority,
                            pname.clone(),
                            service.name.clone(),
                            project_capture(config, project),
                            common,
                        );
                        let ghost pair = (key@, route@);
                        proof {
                            assert(route@ == auto_route(*config, pname@, *project, *service, ps[k as int]));
                            assert(pprefix + seq![pair] =~= sprefix + port_auto_pairs(
                                *config,
                                pname@,
                                *project,
                                *service,
                                ps.take(k + 1),
                            ));
                            assert((pprefix + seq![pair]).drop_last() =~= pprefix);
                        }
                        table.insert(key, route);
                    },
                }
                k = k + 1;
            }
            proof {
                assert(ps.take(ps.len() as int) =~= ps);
                assert(sprefix + port_auto_pairs(*config, pname@, *project, *service, ps) =~= before
                    + service_auto_pairs(*config, pname@, *project, services@.take(j + 1)));
            }
            j = j + 1;
        }
        proof {
            assert(services@.take(services@.len() as int) =~= services@);
            assert(all.take(i + 1).drop_last() =~= all.take(i as int));
            assert(all.take(i + 1).last() == all[i as int]);
        }
        i = i + 1;
    }
    assert(all.take(all.len() as int) =~= all);
}

fn copy_chars(v: &Vec<char>) -> (r: Vec<char>)
    ensures
        r@ == v@,
{
    crate::text::copy_range(v, 0, v.len())
}

/// The endpoint routing table of a configuration.
pub fn build_proxy_endpoint_routes(config: &LoopboxConfig) -> (r: EndpointRouteTable)
    requires
        config.projects.wf(),
    ensures
        r.table() == endpoint_routes(*config),
        endpoint_table_ok(r.table()),
        forall|i: int| 0 <= i < r.table().len() ==> entry_ok(#[trigger] r.table()[i]),
{
    let common = route_common(config);
    let mut table = EndpointRouteTable::new();
    let ghost t0 = table.table();
    add_project_endpoint_routes(&mut table, config, &common);
    let ghost t1 = table.table();
    add_global_endpoint_routes(&mut table, config, &common);
    let ghost t2 = table.table();
    add_auto_routes(&mut table, config, &common);
    proof {
        let a = project_endpoint_pairs(*config, config.projects.entries@);
        let b = global_endpoint_pairs(*config, config.global.proxy_endpoints@);
        let c = project_auto_pairs(*config, config.projects.entries@);
        lemma_endpoint_insert_all_concat(t0, a, b);
        lemma_endpoint_insert_all_concat(t0, a + b, c);
        law_endpoint_table_ok(a + b + c);
        law_endpoint_routes_addresses(*config);
    }
    table
}

/// Adds a route to the listener `key` of a table (see [`add_to_listener`]).
pub fn insert_proxy_endpoint_route(
    routes: &mut EndpointRouteTable,
    key: ProxyEndpointKey,
    route: ProxyEndpointRoute,
)
    ensures
        final(routes).table() == endpoint_insert(old(routes).table(), key@, route@),
{
    routes.insert(key, route);
}


// ---------------------------------------------------------------------------
// Choosing a gRPC route by authority
// ---------------------------------------------------------------------------

/// The last position before `n` at which `t` occurs in `s`.
pub open spec fn last_occurrence(s: Seq<char>, t: Seq<char>, n: int) -> Option<int>
    decreases n,
{
    if n <= 0 {
        None
    } else if occurs_at(s, t, n - 1) {
        Some(n - 1)
    } else {
        last_occurrence(s, t, n - 1)
    }
}

/// What follows the last `t` in `s`, or `s` when `t` does not occur; for a
/// pattern that cannot overlap itself (such as `://`) this is the last piece
/// of `str::split`.
pub open spec fn after_last(s: Seq<char>, t: Seq<char>) -> Seq<char> {
    match last_occurrence(s, t, s.len() + 1int) {
        Some(i) => s.skip(i + t.len()),
        None => s,
    }
}

/// `normalize_authority`: lowercased, without scheme and path.
pub open spec fn authority_norm(v: Seq<char>) -> Option<Seq<char>> {
    let trimmed = unicode_lower(trim(v));
    if trimmed.len() == 0 {
        None
    } else {
        let without_scheme = trim(after_last(trimmed, "://"@));
        let authority_only = trim(split_pred(without_scheme, is_char('/'))[0]);
        if authority_only.len() == 0 {
            None
        } else {
            Some(authority_only)
        }
    }
}

fn after_last_chars(v: &Vec<char>, t: &Vec<char>) -> (r: Vec<char>)
    ensures
        r@ == after_last(v@, t@),
{
    let mut n: usize = v.len();
    loop
        invariant
            n <= v@.len(),
            last_occurrence(v@, t@, v@.len() + 1int) == last_occurrence(v@, t@, n + 1int),
        decreases n,
    {
        if occurs_at_chars(v, t, n) {
            let start = n + t.len();
            let r = copy_range(v, start, v.len());
            assert(r@ == v@.skip(start as int));
            return r;
        }
        if n == 0 {
            assert(last_occurrence(v@, t@, 0) is None);
            assert(last_occurrence(v@, t@, 1) is None);
            let r = copy_range(v, 0, v.len());
            assert(r@ =~= v@);
            return r;
        }
        n = n - 1;
    }
}

/// The authority of a gRPC request or route pattern, normalized.
pub fn normalize_authority(value: &str) -> (r: Option<String>)
    ensures
        opt_view(r) == authority_norm(value@),
{
    let trimmed = lower_trim(value);
    if trimmed.len() == 0 {
        return None;
    }
    let sep = chars_of("://");
    let without_scheme = trim_chars(&after_last_chars(&trimmed, &sep));
    let parts = split_char_chars(&without_scheme, '/');
    assert(views(parts@)[0] == parts@[0]@);
    let authority_only = trim_chars(&parts[0]);
    if authority_only.len() == 0 {
        return None;
    }
    Some(string_of(&authority_only))
}

/// How often `c` occurs in `s`.
pub open spec fn count_char(s: Seq<char>, c: char) -> nat
    decreases s.len(),
{
    if s.len() == 0 {
        0
    } else {
        count_char(s.drop_last(), c) + if s.last() == c {
            1nat
        } else {
            0nat
        }
    }
}

/// An authority names a port: `[...]:port` for a bracketed host, otherwise
/// exactly one `:`.
pub open spec fn explicit_port(a: Seq<char>) -> bool {
    if a.len() > 0 && a[0] == '[' {
        contains_sub(a, "]:"@)
    } else {
        count_char(a, ':') == 1
    }
}

/// Whether an authority names a port.
pub fn authority_has_explicit_port(authority: &str) -> (r: bool)
    ensures
        r == explicit_port(authority@),
{
    let a = chars_of(authority);
    if a.len() > 0 && a[0] == '[' {
        return crate::text::contains_str(&a, "]:");
    }
    let mut count: usize = 0;
    let mut i: usize = 0;
    while i < a.len()
        invariant
            i <= a@.len(),
            count == count_char(a@.take(i as int), ':'),
            count <= i,
        decreases a.len() - i,
    {
        assert(a@.take(i + 1).drop_last() =~= a@.take(i as int));
        if a[i] == ':' {
            count = count + 1;
        }
        i = i + 1;
    }
    assert(a@.take(a@.len() as int) =~= a@);
    count == 1
}

/// A route pattern matches an incoming authority: equal after normalizing,
/// or, when the pattern names no port, equal hosts ignoring ASCII case.
pub open spec fn authority_match(pattern: Seq<char>, incoming: Seq<char>) -> bool {
    match (authority_norm(pattern), authority_norm(incoming)) {
        (Some(p), Some(i)) => p == i || (!explicit_port(p) && eq_ignore_case(
            host_without_port(p),
            host_without_port(i),
        )),
        _ => false,
    }
}

/// Whether the route pattern `pattern` accepts the authority `incoming`.
pub fn authority_matches(pattern: &str, incoming: &str) -> (r: bool)
    ensures
        r == authority_match(pattern@, incoming@),
{
    let p = match normalize_authority(pattern) {
        Some(v) => v,
        None => return false,
    };
    let i = match normalize_authority(incoming) {
        Some(v) => v,
        None => return false,
    };
    if chars_eq(&chars_of(p.as_str()), &chars_of(i.as_str())) {
        return true;
    }
    if authority_has_explicit_port(p.as_str()) {
        return false;
    }
    let hp = strip_host_port(p.as_str());
    let hi = strip_host_port(i.as_str());
    crate::text::eq_ignore_case_chars(&chars_of(hp.as_str()), &chars_of(hi.as_str()))
}

/// The first route from `i` on whose pattern matches `a`.
pub open spec fn first_authority_match(rs: Seq<EndpointRouteView>, a: Seq<char>, i: int) -> Option<int>
    decreases rs.len() - i,
{
    if i < 0 || i >= rs.len() {
        None
    } else if rs[i].authority is Some && authority_match(rs[i].authority.unwrap(), a) {
        Some(i)
    } else {
        first_authority_match(rs, a, i + 1)
    }
}

/// The first route from `i` on without a pattern.
pub open spec fn first_without_authority(rs: Seq<EndpointRouteView>, i: int) -> Option<int>
    decreases rs.len() - i,
{
    if i < 0 || i >= rs.len() {
        None
    } else if rs[i].authority is None {
        Some(i)
    } else {
        first_without_authority(rs, i + 1)
    }
}

/// Which route of a listener serves a request: the only one; else the first
/// whose pattern matches the request's authority; else the first without a
/// pattern.
pub open spec fn selected_route(rs: Seq<EndpointRouteView>, a: Option<Seq<char>>) -> Option<int> {
    if rs.len() == 0 {
        None
    } else if rs.len() == 1 {
        Some(0)
    } else {
        match a {
            Some(x) => match first_authority_match(rs, x, 0) {
                Some(i) => Some(i),
                None => first_without_authority(rs, 0),
            },
            None => first_without_authority(rs, 0),
        }
    }
}

/// A route pattern without a port accepts any authority on the same host,
/// whatever its port and the ASCII case of its host; a pattern accepts an
/// authority that normalises to the same text.
pub proof fn law_authority_match_ignores_port(pattern: Seq<char>, incoming: Seq<char>, p: Seq<char>, i: Seq<char>)
    requires
        authority_norm(pattern) == Some(p),
        authority_norm(incoming) == Some(i),
        p == i || (!explicit_port(p) && crate::text::ascii_lower(host_without_port(p))
            == crate::text::ascii_lower(host_without_port(i))),
    ensures
        authority_match(pattern, incoming),
{
}

proof fn lemma_count_char_none(s: Seq<char>, c: char)
    requires
        forall|k: int| 0 <= k < s.len() ==> s[k] != c,
    ensures
        count_char(s, c) == 0,
    decreases s.len(),
{
    if s.len() > 0 {
        lemma_count_char_none(s.drop_last(), c);
    }
}

/// A pattern naming a host and no port accepts that host with any port: if
/// the pattern normalises to `h` (no `:` in it, not bracketed) and the
/// request's authority to `h:port`, the pattern matches.
pub proof fn law_portless_pattern_accepts_any_port(
    pattern: Seq<char>,
    incoming: Seq<char>,
    h: Seq<char>,
    port: Seq<char>,
)
    requires
        authority_norm(pattern) == Some(h),
        authority_norm(incoming) == Some(h + ":"@ + port),
        h.len() > 0,
        h[0] != '[',
        forall|k: int| 0 <= k < h.len() ==> h[k] != ':',
    ensures
        authority_match(pattern, incoming),
{
    reveal_strlit(":");
    lemma_count_char_none(h, ':');
    crate::text::lemma_find_pred_none(h, is_char(':'));
    let i = h + ":"@ + port;
    assert(i[h.len() as int] == ':');
    assert forall|j: int| 0 <= j < h.len() implies !is_char(':')(i[j]) by {
        assert(i[j] == h[j]);
    }
    crate::text::lemma_find_pred_some(i, is_char(':'), h.len());
    assert(i.take(h.len() as int) =~= h);
    assert(split_pred(h, is_char(':'))[0] == h);
    assert(split_pred(i, is_char(':'))[0] == h);
    assert(host_without_port(h) == host_without_port(i));
}

/// A pattern accepts nothing else: a pattern naming a port accepts only the
/// authority that normalises to the same text, and any pattern rejects an
/// authority on another host (comparing hosts in ASCII lowercase).
pub proof fn law_authority_match_only_same_host(pattern: Seq<char>, incoming: Seq<char>, p: Seq<char>, i: Seq<char>)
    requires
        authority_norm(pattern) == Some(p),
        authority_norm(incoming) == Some(i),
        authority_match(pattern, incoming),
    ensures
        explicit_port(p) ==> p == i,
        p == i || crate::text::ascii_lower(host_without_port(p)) == crate::text::ascii_lower(
            host_without_port(i),
        ),
{
}

/// A pattern or an authority that does not normalise (blank) matches
/// nothing.
pub proof fn law_blank_authority_matches_nothing(pattern: Seq<char>, incoming: Seq<char>)
    requires
        authority_norm(pattern) is None || authority_norm(incoming) is None,
    ensures
        !authority_match(pattern, incoming),
{
}

/// Selection prefers a pattern that accepts the request's authority: when
/// some route's pattern accepts it, the route chosen (on a listener with
/// several routes) is the first such route, never one without a pattern
/// that comes after it.
pub proof fn law_selected_route_prefers_match(rs: Seq<EndpointRouteView>, a: Seq<char>, j: int)
    requires
        rs.len() > 1,
        0 <= j < rs.len(),
        rs[j].authority is Some,
        authority_match(rs[j].authority.unwrap(), a),
    ensures
        selected_route(rs, Some(a)) matches Some(k) && k <= j && rs[k].authority is Some
            && authority_match(rs[k].authority.unwrap(), a),
{
    lemma_first_authority_match(rs, a, 0, j);
}

proof fn lemma_first_authority_match(rs: Seq<EndpointRouteView>, a: Seq<char>, i: int, j: int)
    requires
        0 <= i <= j < rs.len(),
        rs[j].authority is Some,
        authority_match(rs[j].authority.unwrap(), a),
    ensures
        first_authority_match(rs, a, i) matches Some(k) && i <= k <= j && rs[k].authority is Some
            && authority_match(rs[k].authority.unwrap(), a),
    decreases j - i,
{
    if !(rs[i].authority is Some && authority_match(rs[i].authority.unwrap(), a)) {
        lemma_first_authority_match(rs, a, i + 1, j);
    }
}

/// The route of a listener that serves a request with the given authority.
pub fn select_grpc_route_for_authority<'a>(
    routes: &'a [ProxyEndpointRoute],
    authority: Option<&str>,
) -> (r: Option<&'a ProxyEndpointRoute>)
    ensures
        match selected_route(route_views(routes@), match authority {
            Some(a) => Some(a@),
            None => None,
        }) {
            Some(i) => r is Some && 0 <= i < routes@.len() && r.unwrap() == &routes@[i],
            None => r is None,
        },
{
    let ghost rs = route_views(routes@);
    if routes.len() == 0 {
        return None;
    }
    if routes.len() == 1 {
        return Some(&routes[0]);
    }
    match authority {
        Some(a) => {
            let mut i: usize = 0;
            while i < routes.len()
                invariant
                    i <= routes@.len(),
                    routes@.len() > 1,
                    authority == Some(a),
                    rs == route_views(routes@),
                    first_authority_match(rs, a@, 0) == first_authority_match(rs, a@, i as int),
                decreases routes.len() - i,
            {
                assert(rs[i as int] == routes@[i as int]@);
                match &routes[i].authority {
                    Some(pattern) => {
                        if authority_matches(pattern.as_str(), a) {
                            return Some(&routes[i]);
                        }
                    },
                    None => {},
                }
                i = i + 1;
            }
        },
        None => {},
    }
    let mut i: usize = 0;
    while i < routes.len()
        invariant
            i <= routes@.len(),
            routes@.len() > 1,
            match authority {
                Some(x) => first_authority_match(rs, x@, 0) is None,
                None => true,
            },
            rs == route_views(routes@),
            first_without_authority(rs, 0) == first_without_authority(rs, i as int),
        decreases routes.len() - i,
    {
        assert(rs[i as int] == routes@[i as int]@);
        if routes[i].authority.is_none() {
            return Some(&routes[i]);
        }
        i = i + 1;
    }
    None
}

// ---------------------------------------------------------------------------
// Serving a listener's connection
// ---------------------------------------------------------------------------

/// What a connection to a proxy endpoint listener gets.
#[derive(Debug, Clone, Copy, PartialEq, Eq, Structural)]
pub enum EndpointConnectionPlan {
    /// Closed without a word: the client is not on this machine.
    Refuse,
    /// Served as gRPC over h2c, each stream routed by authority.
    GrpcH2c,
    /// Relayed both ways to the listener's one upstream.
    Tunnel,
}

/// `No proxy endpoint route configured for host:port.` and the like.
pub open spec fn endpoint_error(prefix: Seq<char>, key: KeyView, suffix: Seq<char>) -> Seq<char> {
    prefix + key.listen_host + ":"@ + crate::text::dec_chars(key.listen_port as nat) + suffix
}

fn endpoint_error_text(prefix: &str, key: &ProxyEndpointKey, suffix: &str) -> (r: String)
    ensures
        r@ == endpoint_error(prefix@, key@, suffix@),
{
    let a = crate::kube::cat(prefix, key.listen_host.as_str());
    let b = crate::kube::cat(a.as_str(), ":");
    let c = crate::kube::cat(b.as_str(), crate::kube::dec_string(key.listen_port as u64).as_str());
    crate::kube::cat(c.as_str(), suffix)
}

/// How a connection to a listener is served: refused for a client that is
/// not on loopback; an error when the listener has no route or routes of
/// mixed protocols; gRPC when its routes speak gRPC; else a tunnel to its
/// one route (an error when there are several).
pub open spec fn endpoint_plan(loopback_peer: bool, key: KeyView, routes: Option<Seq<EndpointRouteView>>) -> Result<
    EndpointConnectionPlan,
    Seq<char>,
> {
    if !loopback_peer {
        Ok(EndpointConnectionPlan::Refuse)
    } else {
        match routes {
            None => Err(endpoint_error("No proxy endpoint route configured for "@, key, "."@)),
            Some(rs) => if rs.len() == 0 {
                Err(endpoint_error("No proxy endpoint route configured for "@, key, "."@))
            } else if exists|j: int| 0 <= j < rs.len() && (#[trigger] rs[j]).protocol != rs[0].protocol {
                Err(endpoint_error("Mixed endpoint protocols configured for "@, key, "."@))
            } else if rs[0].protocol == ProxyEndpointProtocol::GrpcH2c {
                Ok(EndpointConnectionPlan::GrpcH2c)
            } else if rs.len() > 1 {
                Err(
                    endpoint_error(
                        "Multiple endpoint routes on "@,
                        key,
                        " require protocol grpc_h2c with authority matching."@,
                    ),
                )
            } else {
                Ok(EndpointConnectionPlan::Tunnel)
            },
        }
    }
}

/// Decides how a connection to a listener is served.
pub fn endpoint_connection_plan(
    loopback_peer: bool,
    key: &ProxyEndpointKey,
    routes: Option<&Vec<ProxyEndpointRoute>>,
) -> (r: Result<EndpointConnectionPlan, String>)
    ensures
        match endpoint_plan(
            loopback_peer,
            key@,
            match routes {
                Some(v) => Some(route_views(v@)),
                None => None,
            },
        ) {
            Ok(p) => r == Ok::<EndpointConnectionPlan, String>(p),
            Err(e) => r matches Err(x) && x@ == e,
        },
{
    if !loopback_peer {
        return Ok(EndpointConnectionPlan::Refuse);
    }
    let rs = match routes {
        None => {
            return Err(endpoint_error_text("No proxy endpoint route configured for ", key, "."));
        },
        Some(v) => v,
    };
    let ghost views = route_views(rs@);
    if rs.len() == 0 {
        return Err(endpoint_error_text("No proxy endpoint route configured for ", key, "."));
    }
    let protocol = rs[0].protocol;
    assert(views[0].protocol == protocol);
    let mut i: usize = 0;
    while i < rs.len()
        invariant
            i <= rs@.len(),
            views == route_views(rs@),
            routes == Some(rs),
            loopback_peer,
            rs@.len() > 0,
            protocol == views[0].protocol,
            forall|j: int| 0 <= j < i ==> (#[trigger] views[j]).protocol == protocol,
        decreases rs.len() - i,
    {
        assert(views[i as int].protocol == rs@[i as int].protocol);
        if rs[i].protocol != protocol {
            assert(views[i as int].protocol != views[0].protocol);
            return Err(endpoint_error_text("Mixed endpoint protocols configured for ", key, "."));
        }
        i = i + 1;
    }
    match protocol {
        ProxyEndpointProtocol::GrpcH2c => Ok(EndpointConnectionPlan::GrpcH2c),
        _ => {
            if rs.len() > 1 {
                Err(
                    endpoint_error_text(
                        "Multiple endpoint routes on ",
                        key,
                        " require protocol grpc_h2c with authority matching.",
                    ),
                )
            } else {
                Ok(EndpointConnectionPlan::Tunnel)
            }
        },
    }
}

// ---------------------------------------------------------------------------
// Starting a listener
// ---------------------------------------------------------------------------

/// What syncing does with a listener of the endpoint table.
#[derive(Debug, Clone, PartialEq, Eq)]
pub enum EndpointListenerStart {
    /// Nothing: it has no routes or already runs.
    Skip,
    /// It is not started; the note says why.
    Refuse(String),
    /// It is bound and started.
    Bind,
}

/// A listener with no routes is skipped; one whose routes mix protocols is
/// refused with a note; one already running is skipped; else it is bound.
pub open spec fn listener_start(key: KeyView, rs: Seq<EndpointRouteView>, running: bool) -> Result<bool, Seq<char>> {
    if rs.len() == 0 {
        Ok(false)
    } else if exists|j: int| 0 <= j < rs.len() && (#[trigger] rs[j]).protocol != rs[0].protocol {
        Err(
            endpoint_error(
                "Failed to start proxy endpoint listener on "@,
                key,
                " (mixed protocols are not supported on the same listener)."@,
            ),
        )
    } else {
        Ok(!running)
    }
}

/// Decides what syncing does with a listener (`running`: it was started
/// before).
pub fn endpoint_listener_start(key: &ProxyEndpointKey, routes: &Vec<ProxyEndpointRoute>, running: bool) -> (r:
    EndpointListenerStart)
    ensures
        match listener_start(key@, route_views(routes@), running) {
            Ok(true) => r is Bind,
            Ok(false) => r is Skip,
            Err(note) => r matches EndpointListenerStart::Refuse(n) && n@ == note,
        },
{
    let ghost views = route_views(routes@);
    if routes.len() == 0 {
        return EndpointListenerStart::Skip;
    }
    let protocol = routes[0].protocol;
    assert(views[0].protocol == protocol);
    let mut i: usize = 0;
    while i < routes.len()
        invariant
            i <= routes@.len(),
            views == route_views(routes@),
            routes@.len() > 0,
            protocol == views[0].protocol,
            forall|j: int| 0 <= j < i ==> (#[trigger] views[j]).protocol == protocol,
        decreases routes.len() - i,
    {
        assert(views[i as int].protocol == routes@[i as int].protocol);
        if routes[i].protocol != protocol {
            assert(views[i as int].protocol != views[0].protocol);
            return EndpointListenerStart::Refuse(
                endpoint_error_text(
                    "Failed to start proxy endpoint listener on ",
                    key,
                    " (mixed protocols are not supported on the same listener).",
                ),
            );
        }
        i = i + 1;
    }
    if running {
        EndpointListenerStart::Skip
    } else {
        EndpointListenerStart::Bind
    }
}

/// The note when a listener could not be bound: `Failed to bind proxy
/// endpoint '<first route's name>' on <host>:<port> (<error>).`
pub fn endpoint_bind_failure_note(key: &ProxyEndpointKey, routes: &Vec<ProxyEndpointRoute>, error: &str) -> (r:
    String)
    ensures
        r@ == endpoint_error(
            "Failed to bind proxy endpoint '"@ + (if routes@.len() > 0 {
                routes@[0].name@
            } else {
                "endpoint"@
            }) + "' on "@,
            key@,
            " ("@ + error@ + ")."@,
        ),
{
    let mut prefix = chars_of("Failed to bind proxy endpoint '");
    if routes.len() > 0 {
        append_str(&mut prefix, routes[0].name.as_str());
    } else {
        append_str(&mut prefix, "endpoint");
    }
    append_str(&mut prefix, "' on ");
    let mut suffix = chars_of(" (");
    append_str(&mut suffix, error);
    append_str(&mut suffix, ").");
    let p = string_of(&prefix);
    let q = string_of(&suffix);
    endpoint_error_text(p.as_str(), key, q.as_str())
}

} // verus!
