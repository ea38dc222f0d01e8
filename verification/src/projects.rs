//! Adding, changing and removing projects: how the entries of a project form
//! are read into services and ports, how host names and loopback IPs are
//! chosen and checked, and the URLs and environment a project exposes.

use vstd::prelude::*;
use std::hash::BuildHasher;
use crate::config::{
    effective_ports, port_spec, port_specs, service_ports, ContainerServiceConfig, GlobalConfig,
    LoopboxConfig, PortSpec, ProjectConfig, ProxyEndpointProtocol, ServiceConfig,
    ServicePortConfig, ServiceRuntimeKind,
};
use crate::kube::nonblank_trimmed;
use crate::proto::joined_path;
use crate::routes::opt_view;
use crate::config::ProjectMap;
use crate::status::{url_for, ReverseProxyStatus};
use crate::text::{
    all_ascii, ascii_lower, chars_of, dec_chars, in_set, is_ascii_alnum, replace_char,
    replace_char_chars, split_any_chars, split_pred, str_eq_chars, str_views, string_of,
    to_lowercase_chars, trim, trim_chars, trim_str, unicode_lower, views,
};

verus! {

/// One port of a service as entered in a project form.
#[derive(Debug, Clone, PartialEq, Eq)]
pub struct ServicePortEntry {
    pub port: String,
    pub protocol: String,
    pub health_path: String,
    pub health_check_interval_secs: String,
}

/// A service as entered in a project form.
#[derive(Debug, Clone, PartialEq, Eq)]
pub struct ServiceEntry {
    pub name: String,
    pub ports: Vec<ServicePortEntry>,
    pub port: String,
    pub protocol: String,
    pub command: String,
    pub workdir: String,
    pub env_files: String,
    pub depends_on: String,
    pub autostart: bool,
    pub health_path: String,
    pub runtime: String,
    pub container_image: String,
    pub container_args: String,
    pub container_env: String,
    pub container_volumes: String,
    pub container_auto_remove: bool,
}

/// The form that adds a project.
#[derive(Debug, Clone, PartialEq, Eq)]
pub struct AddProjectInput {
    pub name: String,
    pub dir: String,
    pub ip: String,
    pub services: Vec<ServiceEntry>,
}

/// The form that changes a project.
#[derive(Debug, Clone, PartialEq, Eq)]
pub struct UpdateProjectInput {
    pub dir: String,
    pub ip: String,
    pub services: Vec<ServiceEntry>,
}

/// What to open of a project.
#[derive(Debug, Clone, PartialEq, Eq)]
pub enum OpenTarget {
    Service(String),
}

// ---------------------------------------------------------------------------
// Small text steps
// ---------------------------------------------------------------------------

/// `before`, `middle` and `after`.
fn text3(before: &str, middle: &str, after: &str) -> (r: String)
    ensures
        r@ == before@ + middle@ + after@,
{
    let mut r = before.to_owned();
    r.append(middle);
    r.append(after);
    r
}

fn lowercase_of(s: &str) -> (r: Vec<char>)
    ensures
        r@ == unicode_lower(s@),
{
    to_lowercase_chars(&chars_of(s))
}

/// A letter or digit of ASCII, a dash or an underscore.
pub open spec fn name_char(c: char) -> bool {
    is_ascii_alnum(c) || c == '-' || c == '_'
}

pub open spec fn all_name_chars(s: Seq<char>) -> bool {
    forall|i: int| 0 <= i < s.len() ==> name_char(#[trigger] s[i])
}

fn all_name_chars_of(v: &Vec<char>) -> (r: bool)
    ensures
        r == all_name_chars(v@),
{
    let mut i: usize = 0;
    while i < v.len()
        invariant
            i <= v@.len(),
            forall|j: int| 0 <= j < i ==> name_char(#[trigger] v@[j]),
        decreases v.len() - i,
    {
        let c = v[i];
        if !(crate::text::is_ascii_alnum_char(c) || c == '-' || c == '_') {
            return false;
        }
        i = i + 1;
    }
    true
}

/// The domain suffix of host names: trimmed, lower-cased, without leading
/// dots; "localhost" when blank.
pub open spec fn domain_suffix_of(raw: Seq<char>) -> Seq<char> {
    let lowered = unicode_lower(trim(raw));
    if lowered.len() == 0 {
        "localhost"@
    } else {
        crate::text::trim_start_char(lowered, '.')
    }
}

pub fn normalize_domain_suffix(raw: &str) -> (r: String)
    ensures
        r@ == domain_suffix_of(raw@),
{
    let lowered = to_lowercase_chars(&trim_str(raw));
    if lowered.len() == 0 {
        return crate::config::default_domain_suffix();
    }
    string_of(&crate::text::trim_start_char_chars(&lowered, '.'))
}

/// A project name: trimmed, lower-cased, spaces made dashes; only letters,
/// digits, '-' and '_' are accepted.
pub open spec fn project_name_result(raw: Seq<char>) -> Result<Seq<char>, Seq<char>> {
    if trim(raw).len() == 0 {
        Err("Project name is required."@)
    } else {
        let normalized = replace_char(unicode_lower(trim(raw)), ' ', "-"@);
        if all_name_chars(normalized) {
            Ok(normalized)
        } else {
            Err("Project name may only contain letters, numbers, '-' and '_'."@)
        }
    }
}

pub open spec fn text_result(r: Result<String, String>) -> Result<Seq<char>, Seq<char>> {
    match r {
        Ok(s) => Ok(s@),
        Err(e) => Err(e@),
    }
}

pub fn normalize_project_name(raw: &str) -> (r: Result<String, String>)
    ensures
        text_result(r) == project_name_result(raw@),
{
    let t = trim_str(raw);
    if t.len() == 0 {
        return Err("Project name is required.".to_owned());
    }
    let dash = chars_of("-");
    let normalized = replace_char_chars(&to_lowercase_chars(&t), ' ', &dash);
    if !all_name_chars_of(&normalized) {
        return Err("Project name may only contain letters, numbers, '-' and '_'.".to_owned());
    }
    Ok(string_of(&normalized))
}

/// A service name: trimmed and lower-cased; only letters, digits, '-' and
/// '_' are accepted.
pub open spec fn service_name_result(raw: Seq<char>) -> Result<Seq<char>, Seq<char>> {
    let lowered = unicode_lower(trim(raw));
    if lowered.len() == 0 {
        Err("Service name is required."@)
    } else if all_name_chars(lowered) {
        Ok(lowered)
    } else {
        Err("Service '"@ + lowered + "' may only contain letters, numbers, '-' and '_'."@)
    }
}

pub fn normalize_service_name(raw: &str) -> (r: Result<String, String>)
    ensures
        text_result(r) == service_name_result(raw@),
{
    let lowered = to_lowercase_chars(&trim_str(raw));
    if lowered.len() == 0 {
        return Err("Service name is required.".to_owned());
    }
    let name = string_of(&lowered);
    if !all_name_chars_of(&lowered) {
        return Err(text3("Service '", name.as_str(), "' may only contain letters, numbers, '-' and '_'."));
    }
    Ok(name)
}

/// A command with typographic dashes made plain: an em dash becomes "--",
/// an en dash or a minus sign "-".
pub open spec fn plain_command(raw: Seq<char>) -> Seq<char> {
    replace_char(replace_char(replace_char(raw, '\u{2014}', "--"@), '\u{2013}', "-"@), '\u{2212}', "-"@)
}

pub fn normalize_service_command(raw: &str) -> (r: String)
    ensures
        r@ == plain_command(raw@),
{
    let double = chars_of("--");
    let single = chars_of("-");
    let a = replace_char_chars(&chars_of(raw), '\u{2014}', &double);
    let b = replace_char_chars(&a, '\u{2013}', &single);
    let c = replace_char_chars(&b, '\u{2212}', &single);
    string_of(&c)
}

/// The characters that separate items of an env-file or dependency list:
/// a comma or ASCII whitespace.
pub open spec fn list_separators() -> Seq<char> {
    seq![',', ' ', '\t', '\n', '\x0C', '\r']
}

/// The characters that separate the items of a container list.
pub open spec fn container_list_separators() -> Seq<char> {
    seq!['\n', ',', ';']
}

fn list_separator_chars() -> (r: Vec<char>)
    ensures
        r@ == list_separators(),
{
    let r = vec![',', ' ', '\t', '\n', '\x0C', '\r'];
    assert(r@ =~= list_separators());
    r
}

/// The non-blank items of a list, trimmed.
fn list_items(raw: &str, seps: &Vec<char>) -> (r: Vec<Vec<char>>)
    ensures
        views(r@) == nonblank_trimmed(split_pred(raw@, in_set(seps@))),
{
    let parts = split_any_chars(&chars_of(raw), seps);
    let ghost all = views(parts@);
    let mut out: Vec<Vec<char>> = Vec::new();
    let mut i: usize = 0;
    while i < parts.len()
        invariant
            i <= parts@.len(),
            all == views(parts@),
            views(out@) == nonblank_trimmed(all.take(i as int)),
        decreases parts.len() - i,
    {
        assert(all.take(i + 1).drop_last() =~= all.take(i as int));
        assert(all.take(i + 1).last() == parts@[i as int]@);
        let t = trim_chars(&parts[i]);
        if t.len() > 0 {
            let ghost before = views(out@);
            out.push(t);
            assert(views(out@) =~= before.push(out@.last()@));
        }
        i = i + 1;
    }
    assert(all.take(parts@.len() as int) =~= all);
    out
}

/// The items of a container argument, environment or volume list: split at
/// newlines, commas and semicolons, trimmed, blank ones left out.
pub open spec fn container_list(raw: Seq<char>) -> Seq<Seq<char>> {
    nonblank_trimmed(split_pred(raw, in_set(container_list_separators())))
}

pub fn parse_container_string_list(raw: &str) -> (r: Vec<String>)
    ensures
        str_views(r@) == container_list(raw@),
{
    let seps = vec!['\n', ',', ';'];
    assert(seps@ =~= container_list_separators());
    let items = list_items(raw, &seps);
    let mut out: Vec<String> = Vec::new();
    let mut i: usize = 0;
    while i < items.len()
        invariant
            i <= items@.len(),
            str_views(out@) == views(items@).take(i as int),
        decreases items.len() - i,
    {
        let ghost before = out@;
        let item = string_of(&items[i]);
        out.push(item);
        assert(str_views(out@) =~= str_views(before).push(item@));
        assert(views(items@).take(i + 1) =~= views(items@).take(i as int).push(items@[i as int]@));
        i = i + 1;
    }
    assert(views(items@).take(items@.len() as int) =~= views(items@));
    out
}

/// `~`, `~/` and `~/rest` expanded with the home directory, when it is known.
pub open spec fn home_expanded(path: Seq<char>, home: Option<Seq<char>>) -> Seq<char> {
    if (path == "~"@ || crate::text::starts_with(path, "~/"@)) && home is Some {
        if path.len() > 2 {
            joined_path(home.unwrap(), path.skip(2))
        } else {
            home.unwrap()
        }
    } else {
        path
    }
}

pub open spec fn home_view(home: Option<&str>) -> Option<Seq<char>> {
    match home {
        Some(h) => Some(h@),
        None => None,
    }
}

/// Expands a leading `~` with the home directory (`$HOME`, read by the caller).
pub fn expand_tilde(path: &str, home: Option<&str>) -> (r: String)
    ensures
        r@ == home_expanded(path@, home_view(home)),
{
    let v = chars_of(path);
    proof {
        reveal_strlit("~");
        reveal_strlit("~/");
    }
    let tilde = str_eq_chars("~", &v);
    let tilde_slash = crate::text::starts_with_str(&v, "~/");
    if tilde || tilde_slash {
        match home {
            Some(h) => {
                if v.len() > 2 {
                    let rest = string_of(&crate::text::copy_range(&v, 2, v.len()));
                    assert(rest@ == v@.skip(2));
                    let mut arg = "~/".to_owned();
                    arg.append(rest.as_str());
                    assert(arg@.skip(2) =~= rest@);
                    assert(arg@.take(2) =~= "~/"@);
                    return crate::proto::expand_tilde(arg.as_str(), Some(h));
                } else {
                    return h.to_owned();
                }
            },
            None => {},
        }
    }
    string_of(&v)
}

/// The env files of a service: the list items, each with `~` expanded.
pub open spec fn env_file_list(raw: Seq<char>, home: Option<Seq<char>>) -> Seq<Seq<char>> {
    nonblank_trimmed(split_pred(raw, in_set(list_separators()))).map_values(|p: Seq<char>| home_expanded(p, home))
}

pub fn parse_env_files(raw: &str, home: Option<&str>) -> (r: Vec<String>)
    ensures
        str_views(r@) == env_file_list(raw@, home_view(home)),
{
    let items = list_items(raw, &list_separator_chars());
    let ghost want = views(items@).map_values(|p: Seq<char>| home_expanded(p, home_view(home)));
    let mut out: Vec<String> = Vec::new();
    let mut i: usize = 0;
    while i < items.len()
        invariant
            i <= items@.len(),
            want == views(items@).map_values(|p: Seq<char>| home_expanded(p, home_view(home))),
            str_views(out@) == want.take(i as int),
        decreases items.len() - i,
    {
        let item = string_of(&items[i]);
        let ghost before = out@;
        let expanded = expand_tilde(item.as_str(), home);
        out.push(expanded);
        assert(str_views(out@) =~= str_views(before).push(expanded@));
        assert(want.take(i + 1) =~= want.take(i as int).push(want[i as int]));
        i = i + 1;
    }
    assert(want.take(items@.len() as int) =~= want);
    out
}

/// The items in order, each kept only the first time it occurs.
pub open spec fn first_occurrences(s: Seq<Seq<char>>) -> Seq<Seq<char>>
    decreases s.len(),
{
    if s.len() == 0 {
        seq![]
    } else {
        let prev = first_occurrences(s.drop_last());
        if prev.contains(s.last()) {
            prev
        } else {
            prev.push(s.last())
        }
    }
}

/// The items other than `x`.
pub open spec fn without_item(s: Seq<Seq<char>>, x: Seq<char>) -> Seq<Seq<char>>
    decreases s.len(),
{
    if s.len() == 0 {
        seq![]
    } else {
        let prev = without_item(s.drop_last(), x);
        if s.last() == x {
            prev
        } else {
            prev.push(s.last())
        }
    }
}

/// The dependencies of a service: the list items lower-cased, without the
/// service itself, each once.
pub open spec fn dependency_list(raw: Seq<char>, service: Seq<char>) -> Seq<Seq<char>> {
    first_occurrences(
        without_item(
            nonblank_trimmed(split_pred(raw, in_set(list_separators()))).map_values(|p: Seq<char>| unicode_lower(p)),
            service,
        ),
    )
}

fn list_has(v: &Vec<String>, x: &Vec<char>) -> (r: bool)
    ensures
        r == str_views(v@).contains(x@),
{
    let mut i: usize = 0;
    while i < v.len()
        invariant
            i <= v@.len(),
            forall|j: int| 0 <= j < i ==> str_views(v@)[j] != x@,
        decreases v.len() - i,
    {
        if str_eq_chars(v[i].as_str(), x) {
            assert(str_views(v@)[i as int] == x@);
            return true;
        }
        i = i + 1;
    }
    false
}

pub fn parse_depends_on(raw: &str, service_name: &str) -> (r: Vec<String>)
    ensures
        str_views(r@) == dependency_list(raw@, service_name@),
{
    let items = list_items(raw, &list_separator_chars());
    let ghost lowered = views(items@).map_values(|p: Seq<char>| unicode_lower(p));
    let me = chars_of(service_name);
    let mut out: Vec<String> = Vec::new();
    let mut i: usize = 0;
    while i < items.len()
        invariant
            i <= items@.len(),
            me@ == service_name@,
            lowered == views(items@).map_values(|p: Seq<char>| unicode_lower(p)),
            str_views(out@) == first_occurrences(without_item(lowered.take(i as int), service_name@)),
        decreases items.len() - i,
    {
        let dep = to_lowercase_chars(&items[i]);
        assert(lowered.take(i + 1).drop_last() =~= lowered.take(i as int));
        assert(lowered.take(i + 1).last() == dep@);
        if !crate::text::chars_eq(&dep, &me) {
            let ghost w = without_item(lowered.take(i + 1), service_name@);
            assert(w.drop_last() == without_item(lowered.take(i as int), service_name@));
            assert(w.last() == dep@);
            if !list_has(&out, &dep) {
                let ghost before = out@;
                out.push(string_of(&dep));
                assert(str_views(out@) =~= str_views(before).push(dep@));
            }
        }
        i = i + 1;
    }
    assert(lowered.take(items@.len() as int) =~= lowered);
    out
}


// ---------------------------------------------------------------------------
// Runtime, protocol and ports of a service
// ---------------------------------------------------------------------------

pub open spec fn runtime_result(raw: Seq<char>, name: Seq<char>) -> Result<ServiceRuntimeKind, Seq<char>> {
    let n = ascii_lower(trim(raw));
    if n == ""@ || n == "process"@ {
        Ok(ServiceRuntimeKind::Process)
    } else if n == "container"@ {
        Ok(ServiceRuntimeKind::Container)
    } else {
        Err("Service '"@ + name + "' has invalid runtime '"@ + raw + "'. Supported values: process, container."@)
    }
}

pub open spec fn kind_result<T>(r: Result<T, String>) -> Result<T, Seq<char>> {
    match r {
        Ok(k) => Ok(k),
        Err(e) => Err(e@),
    }
}

pub fn parse_service_runtime(raw: &str, service_name: &str) -> (r: Result<ServiceRuntimeKind, String>)
    ensures
        kind_result(r) == runtime_result(raw@, service_name@),
{
    let n = crate::text::ascii_lower_chars(&trim_str(raw));
    if str_eq_chars("", &n) || str_eq_chars("process", &n) {
        Ok(ServiceRuntimeKind::Process)
    } else if str_eq_chars("container", &n) {
        Ok(ServiceRuntimeKind::Container)
    } else {
        let mut m = text3("Service '", service_name, "' has invalid runtime '");
        m.append(raw);
        m.append("'. Supported values: process, container.");
        Err(m)
    }
}

pub open spec fn protocol_result(raw: Seq<char>, name: Seq<char>) -> Result<ProxyEndpointProtocol, Seq<char>> {
    let n = unicode_lower(trim(raw));
    if n == ""@ || n == "http1"@ || n == "http"@ {
        Ok(ProxyEndpointProtocol::Http1)
    } else if n == "grpc_h2c"@ || n == "grpc"@ {
        Ok(ProxyEndpointProtocol::GrpcH2c)
    } else if n == "tcp_passthrough"@ || n == "tcp"@ {
        Ok(ProxyEndpointProtocol::TcpPassthrough)
    } else {
        Err("Service '"@ + name + "' has invalid protocol '"@ + raw + "'. Supported values: http1, grpc_h2c, tcp_passthrough."@)
    }
}

pub fn parse_service_protocol(raw: &str, service_name: &str) -> (r: Result<ProxyEndpointProtocol, String>)
    ensures
        kind_result(r) == protocol_result(raw@, service_name@),
{
    let n = to_lowercase_chars(&trim_str(raw));
    if str_eq_chars("", &n) || str_eq_chars("http1", &n) || str_eq_chars("http", &n) {
        Ok(ProxyEndpointProtocol::Http1)
    } else if str_eq_chars("grpc_h2c", &n) || str_eq_chars("grpc", &n) {
        Ok(ProxyEndpointProtocol::GrpcH2c)
    } else if str_eq_chars("tcp_passthrough", &n) || str_eq_chars("tcp", &n) {
        Ok(ProxyEndpointProtocol::TcpPassthrough)
    } else {
        let mut m = text3("Service '", service_name, "' has invalid protocol '");
        m.append(raw);
        m.append("'. Supported values: http1, grpc_h2c, tcp_passthrough.");
        Err(m)
    }
}

/// A port field: blank is no port; otherwise a number from 1 to 65535.
pub open spec fn optional_port_result(raw: Seq<char>, label: Seq<char>) -> Result<Option<u16>, Seq<char>> {
    let t = trim(raw);
    if t.len() == 0 {
        Ok(None)
    } else {
        match crate::text::parse_uint(t, 65535) {
            None => Err(label + " port must be a number between 1 and 65535."@),
            Some(p) => if p == 0 {
                Err(label + " port must be > 0."@)
            } else {
                Ok(Some(p as u16))
            },
        }
    }
}

pub fn parse_optional_port(raw: &str, label: &str) -> (r: Result<Option<u16>, String>)
    ensures
        kind_result(r) == optional_port_result(raw@, label@),
{
    let t = trim_str(raw);
    if t.len() == 0 {
        return Ok(None);
    }
    match crate::text::parse_u16_chars(&t) {
        None => {
            let mut m = label.to_owned();
            m.append(" port must be a number between 1 and 65535.");
            Err(m)
        },
        Some(p) => {
            if p == 0 {
                let mut m = label.to_owned();
                m.append(" port must be > 0.");
                Err(m)
            } else {
                Ok(Some(p))
            }
        },
    }
}

/// A text field, trimmed; blank is none.
pub open spec fn option_trimmed(raw: Seq<char>) -> Option<Seq<char>> {
    if trim(raw).len() > 0 {
        Some(trim(raw))
    } else {
        None
    }
}

fn option_trimmed_of(raw: &str) -> (r: Option<String>)
    ensures
        opt_view(r) == option_trimmed(raw@),
{
    let t = trim_str(raw);
    if t.len() == 0 {
        None
    } else {
        Some(string_of(&t))
    }
}

/// The listed ports of a service form: blank ones skipped, each port once,
/// the first error met reported.
pub open spec fn listed_port_entries(entries: Seq<ServicePortEntry>, name: Seq<char>) -> Result<Seq<PortSpec>, Seq<char>>
    decreases entries.len(),
{
    if entries.len() == 0 {
        Ok(seq![])
    } else {
        match listed_port_entries(entries.drop_last(), name) {
            Err(m) => Err(m),
            Ok(prev) => {
                let e = entries.last();
                match optional_port_result(e.port@, name) {
                    Err(m) => Err(m),
                    Ok(None) => Ok(prev),
                    Ok(Some(p)) => if exists|k: int| 0 <= k < prev.len() && (#[trigger] prev[k]).port == p {
                        Err("Service '"@ + name + "' defines port "@ + dec_chars(p as nat) + " more than once."@)
                    } else {
                        match protocol_result(e.protocol@, name) {
                            Err(m) => Err(m),
                            Ok(protocol) => Ok(prev.push(PortSpec { port: p, protocol, health_path: option_trimmed(e.health_path@) })),
                        }
                    },
                }
            },
        }
    }
}

/// The ports of a service form: the listed ones, else the single port field.
pub open spec fn entry_ports_result(e: ServiceEntry, name: Seq<char>) -> Result<Seq<PortSpec>, Seq<char>> {
    match listed_port_entries(e.ports@, name) {
        Err(m) => Err(m),
        Ok(listed) => if listed.len() > 0 {
            Ok(listed)
        } else {
            match optional_port_result(e.port@, name) {
                Err(m) => Err(m),
                Ok(None) => Ok(seq![]),
                Ok(Some(p)) => match protocol_result(e.protocol@, name) {
                    Err(m) => Err(m),
                    Ok(protocol) => Ok(seq![PortSpec { port: p, protocol, health_path: option_trimmed(e.health_path@) }]),
                },
            }
        },
    }
}

pub open spec fn ports_result(r: Result<Vec<ServicePortConfig>, String>) -> Result<Seq<PortSpec>, Seq<char>> {
    match r {
        Ok(v) => Ok(port_specs(v@)),
        Err(e) => Err(e@),
    }
}

fn has_port_number(v: &Vec<ServicePortConfig>, port: u16) -> (b: bool)
    ensures
        b == exists|k: int| 0 <= k < port_specs(v@).len() && (#[trigger] port_specs(v@)[k]).port == port,
{
    let mut i: usize = 0;
    while i < v.len()
        invariant
            i <= v@.len(),
            forall|k: int| 0 <= k < i ==> (#[trigger] port_specs(v@)[k]).port != port,
        decreases v.len() - i,
    {
        if v[i].port == port {
            assert(port_specs(v@)[i as int].port == port);
            return true;
        }
        i = i + 1;
    }
    false
}

pub fn parse_service_ports(entry: &ServiceEntry, service_name: &str) -> (r: Result<Vec<ServicePortConfig>, String>)
    ensures
        ports_result(r) == entry_ports_result(*entry, service_name@),
{
    let mut parsed: Vec<ServicePortConfig> = Vec::new();
    let mut i: usize = 0;
    assert(entry.ports@.take(0) =~= seq![]);
    assert(port_specs(parsed@) =~= seq![]);
    while i < entry.ports.len()
        invariant
            i <= entry.ports@.len(),
            listed_port_entries(entry.ports@.take(i as int), service_name@) == Ok::<Seq<PortSpec>, Seq<char>>(port_specs(parsed@)),
        decreases entry.ports.len() - i,
    {
        let pe = &entry.ports[i];
        assert(entry.ports@.take(i + 1).drop_last() =~= entry.ports@.take(i as int));
        assert(entry.ports@.take(i + 1).last() == *pe);
        let port = match parse_optional_port(pe.port.as_str(), service_name) {
            Err(e) => {
                proof {
                    lemma_listed_ports_error_persists(entry.ports@, service_name@, i as int + 1);
                }
                return Err(e);
            },
            Ok(None) => {
                i = i + 1;
                continue;
            },
            Ok(Some(p)) => p,
        };
        if has_port_number(&parsed, port) {
            let mut m = text3("Service '", service_name, "' defines port ");
            let digits = string_of(&crate::text::u64_chars(port as u64));
            m.append(digits.as_str());
            m.append(" more than once.");
            proof {
                lemma_listed_ports_error_persists(entry.ports@, service_name@, i as int + 1);
            }
            return Err(m);
        }
        let protocol = match parse_service_protocol(pe.protocol.as_str(), service_name) {
            Err(e) => {
                proof {
                    lemma_listed_ports_error_persists(entry.ports@, service_name@, i as int + 1);
                }
                return Err(e);
            },
            Ok(p) => p,
        };
        let health_path = option_trimmed_of(pe.health_path.as_str());
        let ghost before = parsed@;
        parsed.push(ServicePortConfig { port, protocol, health_path });
        assert(port_specs(parsed@) =~= port_specs(before).push(port_spec(parsed@.last())));
        i = i + 1;
    }
    assert(entry.ports@.take(entry.ports@.len() as int) =~= entry.ports@);
    if parsed.len() > 0 {
        return Ok(parsed);
    }
    let fallback = match parse_optional_port(entry.port.as_str(), service_name) {
        Err(e) => {
            return Err(e);
        },
        Ok(f) => f,
    };
    match fallback {
        Some(port) => {
            let protocol = match parse_service_protocol(entry.protocol.as_str(), service_name) {
                Err(e) => {
                    return Err(e);
                },
                Ok(p) => p,
            };
            let health_path = option_trimmed_of(entry.health_path.as_str());
            let mut out: Vec<ServicePortConfig> = Vec::new();
            out.push(ServicePortConfig { port, protocol, health_path });
            assert(port_specs(out@) =~= seq![PortSpec { port, protocol, health_path: option_trimmed(entry.health_path@) }]);
            Ok(out)
        },
        None => {
            let out: Vec<ServicePortConfig> = Vec::new();
            assert(port_specs(out@) =~= seq![]);
            Ok(out)
        },
    }
}

proof fn lemma_listed_ports_error_persists(entries: Seq<ServicePortEntry>, name: Seq<char>, n: int)
    requires
        0 <= n <= entries.len(),
        listed_port_entries(entries.take(n), name) is Err,
    ensures
        listed_port_entries(entries, name) == listed_port_entries(entries.take(n), name),
    decreases entries.len(),
{
    if n < entries.len() {
        assert(entries.drop_last().take(n) =~= entries.take(n));
        lemma_listed_ports_error_persists(entries.drop_last(), name, n);
    } else {
        assert(entries.take(n) =~= entries);
    }
}

// ---------------------------------------------------------------------------
// Container settings and directories
// ---------------------------------------------------------------------------

/// Container settings as plain values.
pub struct ContainerView {
    pub image: Seq<char>,
    pub args: Seq<Seq<char>>,
    pub env: Seq<Seq<char>>,
    pub volumes: Seq<Seq<char>>,
    pub auto_remove: bool,
}

pub open spec fn container_view(c: ContainerServiceConfig) -> ContainerView {
    ContainerView {
        image: c.image@,
        args: str_views(c.args@),
        env: str_views(c.env@),
        volumes: str_views(c.volumes@),
        auto_remove: c.auto_remove,
    }
}

/// The container settings of a service form: none for a process; a
/// container needs an image.
pub open spec fn container_result(e: ServiceEntry, name: Seq<char>, runtime: ServiceRuntimeKind) -> Result<Option<ContainerView>, Seq<char>> {
    if runtime == ServiceRuntimeKind::Process {
        Ok(None)
    } else if trim(e.container_image@).len() == 0 {
        Err("Service '"@ + name + "' runtime 'container' requires an image."@)
    } else {
        Ok(
            Some(
                ContainerView {
                    image: trim(e.container_image@),
                    args: container_list(e.container_args@),
                    env: container_list(e.container_env@),
                    volumes: container_list(e.container_volumes@),
                    auto_remove: e.container_auto_remove,
                },
            ),
        )
    }
}

pub open spec fn container_config_result(r: Result<Option<ContainerServiceConfig>, String>) -> Result<Option<ContainerView>, Seq<char>> {
    match r {
        Ok(Some(c)) => Ok(Some(container_view(c))),
        Ok(None) => Ok(None),
        Err(e) => Err(e@),
    }
}

pub fn parse_container_service_config(entry: &ServiceEntry, service_name: &str, runtime: &ServiceRuntimeKind) -> (r: Result<Option<ContainerServiceConfig>, String>)
    ensures
        container_config_result(r) == container_result(*entry, service_name@, *runtime),
{
    match runtime {
        ServiceRuntimeKind::Process => {
            return Ok(None);
        },
        ServiceRuntimeKind::Container => {},
    }
    let image = trim_str(entry.container_image.as_str());
    if image.len() == 0 {
        return Err(text3("Service '", service_name, "' runtime 'container' requires an image."));
    }
    Ok(
        Some(
            ContainerServiceConfig {
                image: string_of(&image),
                args: parse_container_string_list(entry.container_args.as_str()),
                env: parse_container_string_list(entry.container_env.as_str()),
                volumes: parse_container_string_list(entry.container_volumes.as_str()),
                auto_remove: entry.container_auto_remove,
            },
        ),
    )
}

/// A directory field: required, trimmed, `~` expanded.
pub open spec fn directory_result(raw: Seq<char>, home: Option<Seq<char>>) -> Result<Seq<char>, Seq<char>> {
    if trim(raw).len() == 0 {
        Err("Project directory is required."@)
    } else {
        Ok(home_expanded(trim(raw), home))
    }
}

pub fn normalize_directory(raw: &str, home: Option<&str>) -> (r: Result<String, String>)
    ensures
        text_result(r) == directory_result(raw@, home_view(home)),
{
    let t = trim_str(raw);
    if t.len() == 0 {
        return Err("Project directory is required.".to_owned());
    }
    Ok(expand_tilde(string_of(&t).as_str(), home))
}


// ---------------------------------------------------------------------------
// Services of a project form
// ---------------------------------------------------------------------------

/// A service as plain values.
pub struct ServiceView {
    pub name: Seq<char>,
    pub runtime: ServiceRuntimeKind,
    pub container: Option<ContainerView>,
    pub ports: Seq<PortSpec>,
    pub port: Option<u16>,
    pub protocol: ProxyEndpointProtocol,
    pub command: Seq<char>,
    pub workdir: Seq<char>,
    pub env_files: Seq<Seq<char>>,
    pub depends_on: Seq<Seq<char>>,
    pub autostart: bool,
    pub health_path: Option<Seq<char>>,
}

pub open spec fn service_view(s: ServiceConfig) -> ServiceView {
    ServiceView {
        name: s.name@,
        runtime: s.runtime,
        container: match s.container {
            Some(c) => Some(container_view(c)),
            None => None,
        },
        ports: port_specs(s.ports@),
        port: s.port,
        protocol: s.protocol,
        command: s.command@,
        workdir: s.workdir@,
        env_files: str_views(s.env_files@),
        depends_on: str_views(s.depends_on@),
        autostart: s.autostart,
        health_path: opt_view(s.health_path),
    }
}

pub open spec fn service_views(v: Seq<ServiceConfig>) -> Seq<ServiceView> {
    v.map_values(|s: ServiceConfig| service_view(s))
}

pub open spec fn service_names(v: Seq<ServiceView>) -> Seq<Seq<char>> {
    v.map_values(|s: ServiceView| s.name)
}

/// A working directory field: the project's directory when blank.
pub open spec fn workdir_result(raw: Seq<char>, dir: Seq<char>, home: Option<Seq<char>>) -> Result<Seq<char>, Seq<char>> {
    if trim(raw).len() == 0 {
        Ok(dir)
    } else {
        directory_result(raw, home)
    }
}

/// The service a form entry describes, none for an entry without a name, or
/// the first thing wrong with it. `seen` holds the names of the services
/// before it.
pub open spec fn entry_result(e: ServiceEntry, dir: Seq<char>, home: Option<Seq<char>>, seen: Seq<Seq<char>>) -> Result<Option<ServiceView>, Seq<char>> {
    if trim(e.name@).len() == 0 {
        Ok(None)
    } else {
        match service_name_result(trim(e.name@)) {
            Err(m) => Err(m),
            Ok(name) => if seen.contains(name) {
                Err("Service '"@ + name + "' is defined more than once."@)
            } else {
                match entry_ports_result(e, name) {
                    Err(m) => Err(m),
                    Ok(ports) => match runtime_result(e.runtime@, name) {
                        Err(m) => Err(m),
                        Ok(runtime) => {
                            let command = plain_command(trim(e.command@));
                            if runtime == ServiceRuntimeKind::Process && command.len() == 0 {
                                Err("Service '"@ + name + "' command is required (e.g. 'npm run dev')."@)
                            } else {
                                match container_result(e, name, runtime) {
                                    Err(m) => Err(m),
                                    Ok(container) => match workdir_result(e.workdir@, dir, home) {
                                        Err(m) => Err(m),
                                        Ok(workdir) => Ok(
                                            Some(
                                                ServiceView {
                                                    name,
                                                    runtime,
                                                    container,
                                                    ports,
                                                    port: if ports.len() > 0 {
                                                        Some(ports[0].port)
                                                    } else {
                                                        None
                                                    },
                                                    protocol: if ports.len() > 0 {
                                                        ports[0].protocol
                                                    } else {
                                                        ProxyEndpointProtocol::Http1
                                                    },
                                                    command,
                                                    workdir,
                                                    env_files: env_file_list(e.env_files@, home),
                                                    depends_on: dependency_list(e.depends_on@, name),
                                                    autostart: e.autostart,
                                                    health_path: if ports.len() > 0 {
                                                        ports[0].health_path
                                                    } else {
                                                        None
                                                    },
                                                },
                                            ),
                                        ),
                                    },
                                }
                            }
                        },
                    },
                }
            },
        }
    }
}

/// The entries read in order; the first error stops the reading.
pub open spec fn entries_result(entries: Seq<ServiceEntry>, dir: Seq<char>, home: Option<Seq<char>>) -> Result<Seq<ServiceView>, Seq<char>>
    decreases entries.len(),
{
    if entries.len() == 0 {
        Ok(seq![])
    } else {
        match entries_result(entries.drop_last(), dir, home) {
            Err(m) => Err(m),
            Ok(prev) => match entry_result(entries.last(), dir, home, service_names(prev)) {
                Err(m) => Err(m),
                Ok(None) => Ok(prev),
                Ok(Some(v)) => Ok(prev.push(v)),
            },
        }
    }
}

/// The first dependency in the list that is not among the names.
pub open spec fn first_missing(deps: Seq<Seq<char>>, names: Seq<Seq<char>>) -> Option<Seq<char>>
    decreases deps.len(),
{
    if deps.len() == 0 {
        None
    } else {
        match first_missing(deps.drop_last(), names) {
            Some(d) => Some(d),
            None => if names.contains(deps.last()) {
                None
            } else {
                Some(deps.last())
            },
        }
    }
}

/// The first service, with its first dependency, that depends on a service
/// not among the names.
pub open spec fn first_unknown_dependency(svs: Seq<ServiceView>, names: Seq<Seq<char>>) -> Option<(Seq<char>, Seq<char>)>
    decreases svs.len(),
{
    if svs.len() == 0 {
        None
    } else {
        match first_unknown_dependency(svs.drop_last(), names) {
            Some(p) => Some(p),
            None => match first_missing(svs.last().depends_on, names) {
                Some(d) => Some((svs.last().name, d)),
                None => None,
            },
        }
    }
}

/// The services of a project form: the entries read, at least one service,
/// and every dependency one of them.
pub open spec fn services_result(entries: Seq<ServiceEntry>, dir: Seq<char>, home: Option<Seq<char>>) -> Result<Seq<ServiceView>, Seq<char>> {
    match entries_result(entries, dir, home) {
        Err(m) => Err(m),
        Ok(svs) => if svs.len() == 0 {
            Err("At least one service is required."@)
        } else {
            match first_unknown_dependency(svs, service_names(svs)) {
                Some((s, d)) => Err("Service '"@ + s + "' depends on unknown service '"@ + d + "'."@),
                None => Ok(svs),
            }
        },
    }
}

pub open spec fn services_view_result(r: Result<Vec<ServiceConfig>, String>) -> Result<Seq<ServiceView>, Seq<char>> {
    match r {
        Ok(v) => Ok(service_views(v@)),
        Err(e) => Err(e@),
    }
}

pub open spec fn entry_view_result(r: Result<Option<ServiceConfig>, String>) -> Result<Option<ServiceView>, Seq<char>> {
    match r {
        Ok(Some(s)) => Ok(Some(service_view(s))),
        Ok(None) => Ok(None),
        Err(e) => Err(e@),
    }
}

fn names_of(services: &Vec<ServiceConfig>) -> (r: Vec<String>)
    ensures
        str_views(r@) == service_names(service_views(services@)),
{
    let mut r: Vec<String> = Vec::new();
    let mut i: usize = 0;
    while i < services.len()
        invariant
            i <= services@.len(),
            str_views(r@) == service_names(service_views(services@)).take(i as int),
        decreases services.len() - i,
    {
        let ghost before = r@;
        let n = services[i].name.clone();
        r.push(n);
        assert(str_views(r@) =~= str_views(before).push(n@));
        assert(service_names(service_views(services@)).take(i + 1) =~= service_names(service_views(services@)).take(i as int).push(services@[i as int].name@));
        i = i + 1;
    }
    assert(service_names(service_views(services@)).take(services@.len() as int) =~= service_names(service_views(services@)));
    r
}

fn parse_service_entry(entry: &ServiceEntry, project_dir: &str, home: Option<&str>, seen: &Vec<String>) -> (r: Result<Option<ServiceConfig>, String>)
    ensures
        entry_view_result(r) == entry_result(*entry, project_dir@, home_view(home), str_views(seen@)),
{
    let trimmed = trim_str(entry.name.as_str());
    if trimmed.len() == 0 {
        return Ok(None);
    }
    let name = match normalize_service_name(string_of(&trimmed).as_str()) {
        Err(e) => {
            return Err(e);
        },
        Ok(n) => n,
    };
    if list_has(seen, &chars_of(name.as_str())) {
        return Err(text3("Service '", name.as_str(), "' is defined more than once."));
    }
    let ports = match parse_service_ports(entry, name.as_str()) {
        Err(e) => {
            return Err(e);
        },
        Ok(p) => p,
    };
    let runtime = match parse_service_runtime(entry.runtime.as_str(), name.as_str()) {
        Err(e) => {
            return Err(e);
        },
        Ok(r) => r,
    };
    let command = normalize_service_command(string_of(&trim_str(entry.command.as_str())).as_str());
    if runtime == ServiceRuntimeKind::Process && command.as_str().is_empty() {
        return Err(text3("Service '", name.as_str(), "' command is required (e.g. 'npm run dev')."));
    }
    let container = match parse_container_service_config(entry, name.as_str(), &runtime) {
        Err(e) => {
            return Err(e);
        },
        Ok(c) => c,
    };
    let workdir = if trim_str(entry.workdir.as_str()).len() == 0 {
        project_dir.to_owned()
    } else {
        match normalize_directory(entry.workdir.as_str(), home) {
            Err(e) => {
                return Err(e);
            },
            Ok(d) => d,
        }
    };
    let env_files = parse_env_files(entry.env_files.as_str(), home);
    let depends_on = parse_depends_on(entry.depends_on.as_str(), name.as_str());
    let (port, protocol, health_path) = if ports.len() > 0 {
        (Some(ports[0].port), ports[0].protocol, match &ports[0].health_path {
            Some(h) => Some(h.clone()),
            None => None,
        })
    } else {
        (None, ProxyEndpointProtocol::Http1, None)
    };
    let svc = ServiceConfig {
        name,
        runtime,
        container,
        ports,
        port,
        protocol,
        command,
        workdir,
        env_files,
        depends_on,
        autostart: entry.autostart,
        health_path,
    };
    proof {
        if svc.ports@.len() > 0 {
            assert(port_specs(svc.ports@)[0] == port_spec(svc.ports@[0]));
        }
    }
    Ok(Some(svc))
}

proof fn lemma_entries_error_persists(entries: Seq<ServiceEntry>, dir: Seq<char>, home: Option<Seq<char>>, n: int)
    requires
        0 <= n <= entries.len(),
        entries_result(entries.take(n), dir, home) is Err,
    ensures
        entries_result(entries, dir, home) == entries_result(entries.take(n), dir, home),
    decreases entries.len(),
{
    if n < entries.len() {
        assert(entries.drop_last().take(n) =~= entries.take(n));
        lemma_entries_error_persists(entries.drop_last(), dir, home, n);
    } else {
        assert(entries.take(n) =~= entries);
    }
}

/// The first dependency of the list not among the names.
fn missing_dependency(deps: &Vec<String>, names: &Vec<String>) -> (r: Option<usize>)
    ensures
        match r {
            Some(k) => k < deps@.len() && first_missing(str_views(deps@), str_views(names@)) == Some(deps@[k as int]@),
            None => first_missing(str_views(deps@), str_views(names@)) is None,
        },
{
    let mut i: usize = 0;
    while i < deps.len()
        invariant
            i <= deps@.len(),
            first_missing(str_views(deps@).take(i as int), str_views(names@)) is None,
        decreases deps.len() - i,
    {
        assert(str_views(deps@).take(i + 1).drop_last() =~= str_views(deps@).take(i as int));
        if !list_has(names, &chars_of(deps[i].as_str())) {
            proof {
                lemma_first_missing_prefix(str_views(deps@), str_views(names@), i as int + 1);
            }
            return Some(i);
        }
        i = i + 1;
    }
    assert(str_views(deps@).take(deps@.len() as int) =~= str_views(deps@));
    None
}

proof fn lemma_first_missing_prefix(deps: Seq<Seq<char>>, names: Seq<Seq<char>>, n: int)
    requires
        0 <= n <= deps.len(),
        first_missing(deps.take(n), names) is Some,
    ensures
        first_missing(deps, names) == first_missing(deps.take(n), names),
    decreases deps.len(),
{
    if n < deps.len() {
        assert(deps.drop_last().take(n) =~= deps.take(n));
        lemma_first_missing_prefix(deps.drop_last(), names, n);
    } else {
        assert(deps.take(n) =~= deps);
    }
}

proof fn lemma_first_unknown_prefix(svs: Seq<ServiceView>, names: Seq<Seq<char>>, n: int)
    requires
        0 <= n <= svs.len(),
        first_unknown_dependency(svs.take(n), names) is Some,
    ensures
        first_unknown_dependency(svs, names) == first_unknown_dependency(svs.take(n), names),
    decreases svs.len(),
{
    if n < svs.len() {
        assert(svs.drop_last().take(n) =~= svs.take(n));
        lemma_first_unknown_prefix(svs.drop_last(), names, n);
    } else {
        assert(svs.take(n) =~= svs);
    }
}

/// Reads the service entries of a project form (see [`services_result`]).
/// `home` is the home directory for `~` in paths.
pub fn parse_services(entries: &Vec<ServiceEntry>, project_dir: &str, home: Option<&str>) -> (r: Result<Vec<ServiceConfig>, String>)
    ensures
        services_view_result(r) == services_result(entries@, project_dir@, home_view(home)),
{
    let mut services: Vec<ServiceConfig> = Vec::new();
    let mut names: Vec<String> = Vec::new();
    let mut i: usize = 0;
    assert(entries@.take(0) =~= seq![]);
    assert(service_views(services@) =~= seq![]);
    while i < entries.len()
        invariant
            i <= entries@.len(),
            entries_result(entries@.take(i as int), project_dir@, home_view(home)) == Ok::<Seq<ServiceView>, Seq<char>>(service_views(services@)),
            str_views(names@) == service_names(service_views(services@)),
        decreases entries.len() - i,
    {
        assert(entries@.take(i + 1).drop_last() =~= entries@.take(i as int));
        assert(entries@.take(i + 1).last() == entries@[i as int]);
        match parse_service_entry(&entries[i], project_dir, home, &names) {
            Err(e) => {
                proof {
                    lemma_entries_error_persists(entries@, project_dir@, home_view(home), i as int + 1);
                }
                return Err(e);
            },
            Ok(None) => {},
            Ok(Some(svc)) => {
                let ghost before = services@;
                let ghost names_before = names@;
                let n = svc.name.clone();
                names.push(n);
                services.push(svc);
                assert(service_views(services@) =~= service_views(before).push(service_view(svc)));
                assert(str_views(names@) =~= str_views(names_before).push(n@));
                assert(service_names(service_views(services@)) =~= service_names(service_views(before)).push(n@));
            },
        }
        i = i + 1;
    }
    assert(entries@.take(entries@.len() as int) =~= entries@);
    if services.len() == 0 {
        return Err("At least one service is required.".to_owned());
    }
    let ghost svs = service_views(services@);
    let mut k: usize = 0;
    while k < services.len()
        invariant
            k <= services@.len(),
            svs == service_views(services@),
            svs.len() > 0,
            entries_result(entries@, project_dir@, home_view(home)) == Ok::<Seq<ServiceView>, Seq<char>>(svs),
            str_views(names@) == service_names(svs),
            first_unknown_dependency(svs.take(k as int), service_names(svs)) is None,
        decreases services.len() - k,
    {
        assert(svs.take(k + 1).drop_last() =~= svs.take(k as int));
        assert(svs.take(k + 1).last() == service_view(services@[k as int]));
        match missing_dependency(&services[k].depends_on, &names) {
            Some(d) => {
                let ghost dep = services@[k as int].depends_on@[d as int]@;
                let ghost nm = services@[k as int].name@;
                proof {
                    assert(svs[k as int].depends_on == str_views(services@[k as int].depends_on@));
                    assert(first_missing(svs[k as int].depends_on, service_names(svs)) == Some(dep));
                    assert(first_unknown_dependency(svs.take(k + 1), service_names(svs)) == Some((nm, dep)));
                    lemma_first_unknown_prefix(svs, service_names(svs), k as int + 1);
                }
                let mut m = text3("Service '", services[k].name.as_str(), "' depends on unknown service '");
                m.append(services[k].depends_on[d].as_str());
                m.append("'.");
                assert(m@ =~= "Service '"@ + nm + "' depends on unknown service '"@ + dep + "'."@);
                return Err(m);
            },
            None => {},
        }
        k = k + 1;
    }
    assert(svs.take(services@.len() as int) =~= svs);
    Ok(services)
}


// ---------------------------------------------------------------------------
// Host names
// ---------------------------------------------------------------------------

/// `project.suffix`, with the project name trimmed and lower-cased.
pub open spec fn project_host(project: Seq<char>, suffix: Seq<char>) -> Seq<char> {
    unicode_lower(trim(project)) + "."@ + domain_suffix_of(suffix)
}

/// `service.project.suffix`, or the project's host for a blank service name.
pub open spec fn service_host(project: Seq<char>, service: Seq<char>, suffix: Seq<char>) -> Seq<char> {
    let clean_project = unicode_lower(trim(project));
    let clean_service = unicode_lower(trim(service));
    if clean_service.len() == 0 {
        project_host(clean_project, suffix)
    } else {
        clean_service + "."@ + project_host(clean_project, suffix)
    }
}

pub fn project_host_for(project_name: &str, suffix: &str) -> (r: String)
    ensures
        r@ == project_host(project_name@, suffix@),
{
    let clean = string_of(&to_lowercase_chars(&trim_str(project_name)));
    let suffix_part = normalize_domain_suffix(suffix);
    text3(clean.as_str(), ".", suffix_part.as_str())
}

pub fn service_host_for(project_name: &str, service_name: &str, suffix: &str) -> (r: String)
    ensures
        r@ == service_host(project_name@, service_name@, suffix@),
{
    let clean_project = string_of(&to_lowercase_chars(&trim_str(project_name)));
    let clean_service = string_of(&to_lowercase_chars(&trim_str(service_name)));
    let host = project_host_for(clean_project.as_str(), suffix);
    if clean_service.as_str().is_empty() {
        host
    } else {
        text3(clean_service.as_str(), ".", host.as_str())
    }
}

/// The hosts trimmed and lower-cased, blank ones left out, each once.
pub open spec fn cleaned_hosts(hosts: Seq<Seq<char>>) -> Seq<Seq<char>>
    decreases hosts.len(),
{
    if hosts.len() == 0 {
        seq![]
    } else {
        let prev = cleaned_hosts(hosts.drop_last());
        let c = unicode_lower(trim(hosts.last()));
        if c.len() == 0 || prev.contains(c) {
            prev
        } else {
            prev.push(c)
        }
    }
}

pub fn dedupe_hosts(hosts: Vec<String>) -> (r: Vec<String>)
    ensures
        str_views(r@) == cleaned_hosts(str_views(hosts@)),
{
    let ghost all = str_views(hosts@);
    let mut out: Vec<String> = Vec::new();
    let mut i: usize = 0;
    while i < hosts.len()
        invariant
            i <= hosts@.len(),
            all == str_views(hosts@),
            str_views(out@) == cleaned_hosts(all.take(i as int)),
        decreases hosts.len() - i,
    {
        assert(all.take(i + 1).drop_last() =~= all.take(i as int));
        assert(all.take(i + 1).last() == hosts@[i as int]@);
        let c = to_lowercase_chars(&trim_str(hosts[i].as_str()));
        if c.len() > 0 && !list_has(&out, &c) {
            let ghost before = out@;
            out.push(string_of(&c));
            assert(str_views(out@) =~= str_views(before).push(c@));
        }
        i = i + 1;
    }
    assert(all.take(hosts@.len() as int) =~= all);
    out
}

/// The hosts of a project's services.
pub open spec fn generated_hosts(project: Seq<char>, names: Seq<Seq<char>>, suffix: Seq<char>) -> Seq<Seq<char>> {
    cleaned_hosts(names.map_values(|n: Seq<char>| service_host(project, n, suffix)))
}

pub open spec fn config_service_names(services: Seq<ServiceConfig>) -> Seq<Seq<char>> {
    services.map_values(|s: ServiceConfig| s.name@)
}

/// The host names of the services of a project, each once.
pub fn generated_service_hosts(project_name: &str, services: &Vec<ServiceConfig>, suffix: &str) -> (r: Vec<String>)
    ensures
        str_views(r@) == generated_hosts(project_name@, config_service_names(services@), suffix@),
{
    let ghost want = config_service_names(services@).map_values(|n: Seq<char>| service_host(project_name@, n, suffix@));
    let mut generated: Vec<String> = Vec::new();
    let mut i: usize = 0;
    while i < services.len()
        invariant
            i <= services@.len(),
            want == config_service_names(services@).map_values(|n: Seq<char>| service_host(project_name@, n, suffix@)),
            str_views(generated@) == want.take(i as int),
        decreases services.len() - i,
    {
        let h = service_host_for(project_name, services[i].name.as_str(), suffix);
        let ghost before = generated@;
        generated.push(h);
        assert(str_views(generated@) =~= str_views(before).push(h@));
        assert(want.take(i + 1) =~= want.take(i as int).push(want[i as int]));
        i = i + 1;
    }
    assert(want.take(services@.len() as int) =~= want);
    dedupe_hosts(generated)
}

/// The hosts a project stands for, lower-cased as they are compared.
pub open spec fn project_hosts(name: Seq<char>, project: ProjectConfig, suffix: Seq<char>) -> Seq<Seq<char>> {
    generated_hosts(name, config_service_names(project.services@), suffix).map_values(|h: Seq<char>| unicode_lower(h))
}

/// The last project (in the map's order, leaving out `skip`) that has the
/// host `key`: the one whose claim on it is remembered.
pub open spec fn host_owner(entries: Seq<(String, ProjectConfig)>, suffix: Seq<char>, key: Seq<char>, skip: Option<Seq<char>>) -> Option<Seq<char>>
    decreases entries.len(),
{
    if entries.len() == 0 {
        None
    } else {
        let e = entries.last();
        if skip != Some(e.0@) && project_hosts(e.0@, e.1, suffix).contains(key) {
            Some(e.0@)
        } else {
            host_owner(entries.drop_last(), suffix, key, skip)
        }
    }
}

/// The first candidate host some project already has, with that project.
pub open spec fn first_host_conflict(candidates: Seq<Seq<char>>, entries: Seq<(String, ProjectConfig)>, suffix: Seq<char>, skip: Option<Seq<char>>) -> Option<(Seq<char>, Seq<char>)>
    decreases candidates.len(),
{
    if candidates.len() == 0 {
        None
    } else {
        match first_host_conflict(candidates.drop_last(), entries, suffix, skip) {
            Some(c) => Some(c),
            None => match host_owner(entries, suffix, unicode_lower(candidates.last()), skip) {
                Some(owner) => Some((candidates.last(), owner)),
                None => None,
            },
        }
    }
}

pub open spec fn unique_hosts_result(candidates: Seq<Seq<char>>, entries: Seq<(String, ProjectConfig)>, suffix: Seq<char>, skip: Option<Seq<char>>) -> Result<(), Seq<char>> {
    match first_host_conflict(candidates, entries, suffix, skip) {
        Some((h, owner)) => Err("Hostname '"@ + h + "' is already used by project '"@ + owner + "'."@),
        None => Ok(()),
    }
}

pub open spec fn unit_result(r: Result<(), String>) -> Result<(), Seq<char>> {
    match r {
        Ok(_) => Ok(()),
        Err(e) => Err(e@),
    }
}

fn lowered_project_hosts(name: &String, project: &ProjectConfig, suffix: &String) -> (r: Vec<String>)
    ensures
        str_views(r@) == project_hosts(name@, *project, suffix@),
{
    let hosts = generated_service_hosts(name.as_str(), &project.services, suffix.as_str());
    let ghost want = str_views(hosts@).map_values(|h: Seq<char>| unicode_lower(h));
    let mut out: Vec<String> = Vec::new();
    let mut i: usize = 0;
    while i < hosts.len()
        invariant
            i <= hosts@.len(),
            want == str_views(hosts@).map_values(|h: Seq<char>| unicode_lower(h)),
            str_views(out@) == want.take(i as int),
        decreases hosts.len() - i,
    {
        let l = string_of(&lowercase_of(hosts[i].as_str()));
        let ghost before = out@;
        out.push(l);
        assert(str_views(out@) =~= str_views(before).push(l@));
        assert(want.take(i + 1) =~= want.take(i as int).push(want[i as int]));
        i = i + 1;
    }
    assert(want.take(hosts@.len() as int) =~= want);
    out
}

fn owner_of_host(projects: &ProjectMap, suffix: &String, key: &Vec<char>, skip: Option<&str>) -> (r: Option<String>)
    ensures
        opt_view(r) == host_owner(projects.entries@, suffix@, key@, home_view(skip)),
{
    let ghost es = projects.entries@;
    let mut owner: Option<String> = None;
    let mut i: usize = 0;
    while i < projects.entries.len()
        invariant
            i <= es.len(),
            es == projects.entries@,
            opt_view(owner) == host_owner(es.take(i as int), suffix@, key@, home_view(skip)),
        decreases projects.entries.len() - i,
    {
        let (name, project) = projects.entry_at(i);
        assert(es.take(i + 1).drop_last() =~= es.take(i as int));
        assert(es.take(i + 1).last() == es[i as int]);
        let skipped = match skip {
            Some(sk) => str_eq_chars(sk, &chars_of(name.as_str())),
            None => false,
        };
        if !skipped {
            let hosts = lowered_project_hosts(name, project, suffix);
            if list_has(&hosts, key) {
                owner = Some(name.clone());
            }
        }
        i = i + 1;
    }
    assert(es.take(es.len() as int) =~= es);
    owner
}

fn check_unique_hosts(config: &LoopboxConfig, candidates: &Vec<String>, skip: Option<&str>) -> (r: Result<(), String>)
    ensures
        unit_result(r) == unique_hosts_result(str_views(candidates@), config.projects.entries@, config.global.domain_suffix@, home_view(skip)),
{
    let ghost cs = str_views(candidates@);
    let mut i: usize = 0;
    while i < candidates.len()
        invariant
            i <= candidates@.len(),
            cs == str_views(candidates@),
            first_host_conflict(cs.take(i as int), config.projects.entries@, config.global.domain_suffix@, home_view(skip)) is None,
        decreases candidates.len() - i,
    {
        assert(cs.take(i + 1).drop_last() =~= cs.take(i as int));
        assert(cs.take(i + 1).last() == candidates@[i as int]@);
        let key = lowercase_of(candidates[i].as_str());
        match owner_of_host(&config.projects, &config.global.domain_suffix, &key, skip) {
            Some(owner) => {
                proof {
                    lemma_conflict_prefix(cs, config.projects.entries@, config.global.domain_suffix@, home_view(skip), i as int + 1);
                }
                let mut m = text3("Hostname '", candidates[i].as_str(), "' is already used by project '");
                m.append(owner.as_str());
                m.append("'.");
                return Err(m);
            },
            None => {},
        }
        i = i + 1;
    }
    assert(cs.take(candidates@.len() as int) =~= cs);
    Ok(())
}

proof fn lemma_conflict_prefix(cs: Seq<Seq<char>>, es: Seq<(String, ProjectConfig)>, suffix: Seq<char>, skip: Option<Seq<char>>, n: int)
    requires
        0 <= n <= cs.len(),
        first_host_conflict(cs.take(n), es, suffix, skip) is Some,
    ensures
        first_host_conflict(cs, es, suffix, skip) == first_host_conflict(cs.take(n), es, suffix, skip),
    decreases cs.len(),
{
    if n < cs.len() {
        assert(cs.drop_last().take(n) =~= cs.take(n));
        lemma_conflict_prefix(cs.drop_last(), es, suffix, skip, n);
    } else {
        assert(cs.take(n) =~= cs);
    }
}

/// Fails with the first candidate host that a project already has.
pub fn ensure_unique_hosts(config: &LoopboxConfig, candidate_hosts: &Vec<String>) -> (r: Result<(), String>)
    ensures
        unit_result(r) == unique_hosts_result(str_views(candidate_hosts@), config.projects.entries@, config.global.domain_suffix@, None),
{
    check_unique_hosts(config, candidate_hosts, None)
}

/// Fails with the first candidate host that a project other than
/// `project_name` already has.
pub fn ensure_unique_hosts_for_update(config: &LoopboxConfig, project_name: &str, candidate_hosts: &Vec<String>) -> (r: Result<(), String>)
    ensures
        unit_result(r) == unique_hosts_result(str_views(candidate_hosts@), config.projects.entries@, config.global.domain_suffix@, Some(project_name@)),
{
    check_unique_hosts(config, candidate_hosts, Some(project_name))
}

// ---------------------------------------------------------------------------
// Primary service, ports and URLs
// ---------------------------------------------------------------------------

/// The port a service is opened on: its first HTTP/1 port, else its first port.
pub open spec fn url_port(ports: Seq<PortSpec>) -> Option<u16> {
    if exists|k: int| 0 <= k < ports.len() && (#[trigger] ports[k]).protocol == ProxyEndpointProtocol::Http1 {
        Some(ports[choose|k: int| 0 <= k < ports.len() && (#[trigger] ports[k]).protocol == ProxyEndpointProtocol::Http1 && forall|j: int| 0 <= j < k ==> (#[trigger] ports[j]).protocol != ProxyEndpointProtocol::Http1].port)
    } else if ports.len() > 0 {
        Some(ports[0].port)
    } else {
        None
    }
}

proof fn lemma_first_http(ports: Seq<PortSpec>, i: int)
    requires
        0 <= i < ports.len(),
        ports[i].protocol == ProxyEndpointProtocol::Http1,
        forall|j: int| 0 <= j < i ==> (#[trigger] ports[j]).protocol != ProxyEndpointProtocol::Http1,
    ensures
        url_port(ports) == Some(ports[i].port),
{
    let k = choose|k: int| 0 <= k < ports.len() && (#[trigger] ports[k]).protocol == ProxyEndpointProtocol::Http1 && forall|j: int| 0 <= j < k ==> (#[trigger] ports[j]).protocol != ProxyEndpointProtocol::Http1;
    if k < i {
        assert(ports[k].protocol != ProxyEndpointProtocol::Http1);
    }
    if k > i {
        assert(ports[i].protocol != ProxyEndpointProtocol::Http1);
    }
}

pub fn primary_url_port(service: &ServiceConfig) -> (r: Option<u16>)
    ensures
        r == url_port(effective_ports(*service)),
{
    let ports = service_ports(service);
    let ghost ps = port_specs(ports@);
    let mut i: usize = 0;
    while i < ports.len()
        invariant
            i <= ports@.len(),
            ps == port_specs(ports@),
            ps == effective_ports(*service),
            forall|j: int| 0 <= j < i ==> (#[trigger] ps[j]).protocol != ProxyEndpointProtocol::Http1,
        decreases ports.len() - i,
    {
        assert(ps[i as int] == port_spec(ports@[i as int]));
        if ports[i].protocol == ProxyEndpointProtocol::Http1 {
            proof {
                lemma_first_http(ps, i as int);
            }
            return Some(ports[i].port);
        }
        i = i + 1;
    }
    if ports.len() > 0 {
        assert(ps[0] == port_spec(ports@[0]));
        Some(ports[0].port)
    } else {
        None
    }
}

/// The first port of a service.
pub open spec fn first_port(ports: Seq<PortSpec>) -> Option<u16> {
    if ports.len() > 0 {
        Some(ports[0].port)
    } else {
        None
    }
}

pub fn primary_service_port(service: &ServiceConfig) -> (r: Option<u16>)
    ensures
        r == first_port(effective_ports(*service)),
{
    let ports = service_ports(service);
    if ports.len() > 0 {
        assert(port_specs(ports@)[0] == port_spec(ports@[0]));
        Some(ports[0].port)
    } else {
        None
    }
}

/// The first service of this name.
pub open spec fn first_named(svcs: Seq<ServiceConfig>, name: Seq<char>) -> Option<int> {
    if exists|k: int| 0 <= k < svcs.len() && (#[trigger] svcs[k]).name@ == name {
        Some(choose|k: int| 0 <= k < svcs.len() && (#[trigger] svcs[k]).name@ == name && forall|j: int| 0 <= j < k ==> (#[trigger] svcs[j]).name@ != name)
    } else {
        None
    }
}

#[verifier::opaque]
pub open spec fn has_url_port(s: ServiceConfig) -> bool {
    url_port(effective_ports(s)) is Some
}

/// The first service with a port to open.
pub open spec fn first_with_url_port(svcs: Seq<ServiceConfig>) -> Option<int> {
    if exists|k: int| 0 <= k < svcs.len() && has_url_port(#[trigger] svcs[k]) {
        Some(choose|k: int| 0 <= k < svcs.len() && has_url_port(#[trigger] svcs[k]) && forall|j: int| 0 <= j < k ==> !has_url_port(#[trigger] svcs[j]))
    } else {
        None
    }
}

/// The service a project opens: its default one when it still exists, else
/// the first with a URL port, else the first.
pub open spec fn primary_service_index(project: ProjectConfig) -> Option<int> {
    let svcs = project.services@;
    let by_default = match project.default_open_service {
        Some(d) => first_named(svcs, d@),
        None => None,
    };
    if by_default is Some {
        by_default
    } else if first_with_url_port(svcs) is Some {
        first_with_url_port(svcs)
    } else if svcs.len() > 0 {
        Some(0)
    } else {
        None
    }
}

fn find_named(svcs: &Vec<ServiceConfig>, name: &String) -> (r: Option<usize>)
    ensures
        match r {
            Some(k) => k < svcs@.len() && first_named(svcs@, name@) == Some(k as int),
            None => first_named(svcs@, name@) is None,
        },
{
    let ghost all = svcs@;
    let mut i: usize = 0;
    while i < svcs.len()
        invariant
            i <= all.len(),
            all == svcs@,
            forall|j: int| 0 <= j < i ==> (#[trigger] all[j]).name@ != name@,
        decreases svcs.len() - i,
    {
        if svcs[i].name == *name {
            proof {
                let k = choose|k: int| 0 <= k < all.len() && (#[trigger] all[k]).name@ == name@ && forall|j: int| 0 <= j < k ==> (#[trigger] all[j]).name@ != name@;
                if k < i {
                    assert(all[k].name@ != name@);
                }
                if k > i {
                    assert(all[i as int].name@ != name@);
                }
            }
            return Some(i);
        }
        i = i + 1;
    }
    None
}

fn find_with_url_port(svcs: &Vec<ServiceConfig>) -> (r: Option<usize>)
    ensures
        match r {
            Some(k) => k < svcs@.len() && first_with_url_port(svcs@) == Some(k as int),
            None => first_with_url_port(svcs@) is None,
        },
{
    let ghost all = svcs@;
    let mut i: usize = 0;
    while i < svcs.len()
        invariant
            i <= all.len(),
            all == svcs@,
            forall|j: int| 0 <= j < i ==> !has_url_port(#[trigger] all[j]),
        decreases svcs.len() - i,
    {
        let found = primary_url_port(&svcs[i]).is_some();
        proof {
            reveal(has_url_port);
        }
        if found {
            proof {
                assert(has_url_port(all[i as int]));
                let k = choose|k: int| 0 <= k < all.len() && has_url_port(#[trigger] all[k]) && forall|j: int| 0 <= j < k ==> !has_url_port(#[trigger] all[j]);
                if k < i {
                    assert(!has_url_port(all[k]));
                }
                if k > i {
                    assert(!has_url_port(all[i as int]));
                }
            }
            return Some(i);
        }
        i = i + 1;
    }
    None
}

pub fn primary_service(project: &ProjectConfig) -> (r: Option<usize>)
    ensures
        match r {
            Some(k) => k < project.services@.len() && primary_service_index(*project) == Some(k as int),
            None => primary_service_index(*project) is None,
        },
{
    match &project.default_open_service {
        Some(d) => match find_named(&project.services, d) {
            Some(k) => {
                return Some(k);
            },
            None => {},
        },
        None => {},
    }
    match find_with_url_port(&project.services) {
        Some(k) => Some(k),
        None => if project.services.len() > 0 {
            Some(0)
        } else {
            None
        },
    }
}

/// `http://host`, with `:port` unless the port is 80 or none.
pub open spec fn http_url(host: Seq<char>, port: Option<u16>) -> Seq<char> {
    match port {
        Some(p) => if p == 80 {
            "http://"@ + host
        } else {
            "http://"@ + host + ":"@ + dec_chars(p as nat)
        },
        None => "http://"@ + host,
    }
}

pub fn format_http_url(host: &str, port: Option<u16>) -> (r: String)
    ensures
        r@ == http_url(host@, port),
{
    match port {
        Some(p) => {
            if p == 80 {
                let mut r = "http://".to_owned();
                r.append(host);
                r
            } else {
                let mut r = text3("http://", host, ":");
                let digits = string_of(&crate::text::u64_chars(p as u64));
                r.append(digits.as_str());
                r
            }
        },
        None => {
            let mut r = "http://".to_owned();
            r.append(host);
            r
        },
    }
}

/// The URL of a service: through the proxy when it runs and the service has
/// a port, else directly on the project's IP and port, else by host name.
pub open spec fn service_url(status: ReverseProxyStatus, host: Seq<char>, port: Option<u16>, direct_ip: Option<Seq<char>>) -> Seq<char> {
    if port is Some && url_for(status, host) is Some {
        url_for(status, host).unwrap()
    } else if port is Some && direct_ip is Some {
        http_url(direct_ip.unwrap(), port)
    } else {
        http_url(host, port)
    }
}

pub fn format_service_url(status: &ReverseProxyStatus, host: &str, port: Option<u16>, direct_ip: Option<&str>) -> (r: String)
    ensures
        r@ == service_url(*status, host@, port, home_view(direct_ip)),
{
    if port.is_some() {
        match crate::status::reverse_proxy_url_for_host(status, host) {
            Some(url) => {
                return url;
            },
            None => {},
        }
        match direct_ip {
            Some(ip) => {
                return format_http_url(ip, port);
            },
            None => {},
        }
    }
    format_http_url(host, port)
}


// ---------------------------------------------------------------------------
// Loopback IPs
// ---------------------------------------------------------------------------

/// The last octet of a project IP: the IP (trimmed) must be the configured
/// base followed by a number up to 255.
pub open spec fn ip_octet_result(base: Seq<char>, ip: Seq<char>) -> Result<u8, Seq<char>> {
    let t = trim(ip);
    if !crate::text::starts_with(t, base) {
        Err("IP "@ + t + " must start with '"@ + base + "'."@)
    } else if t.skip(base.len() as int).contains('.') {
        Err("IP "@ + t + " is not within '"@ + base + "X' format."@)
    } else {
        match crate::text::parse_uint(t.skip(base.len() as int), 255) {
            Some(v) => Ok(v as u8),
            None => Err("IP "@ + t + " has an invalid last octet."@),
        }
    }
}

pub open spec fn octet_result(r: Result<u8, String>) -> Result<u8, Seq<char>> {
    match r {
        Ok(v) => Ok(v),
        Err(e) => Err(e@),
    }
}

fn has_char(v: &Vec<char>, c: char) -> (r: bool)
    ensures
        r == v@.contains(c),
{
    let mut i: usize = 0;
    while i < v.len()
        invariant
            i <= v@.len(),
            forall|j: int| 0 <= j < i ==> v@[j] != c,
        decreases v.len() - i,
    {
        if v[i] == c {
            return true;
        }
        i = i + 1;
    }
    false
}

pub fn ip_octet(global: &GlobalConfig, ip: &str) -> (r: Result<u8, String>)
    ensures
        octet_result(r) == ip_octet_result(global.ip_base@, ip@),
{
    let t = trim_str(ip);
    let base = chars_of(global.ip_base.as_str());
    let ts = string_of(&t);
    if !crate::text::starts_with_chars(&t, &base) {
        let mut m = text3("IP ", ts.as_str(), " must start with '");
        m.append(global.ip_base.as_str());
        m.append("'.");
        return Err(m);
    }
    let suffix = crate::text::copy_range(&t, base.len(), t.len());
    assert(suffix@ =~= t@.skip(base@.len() as int));
    if has_char(&suffix, '.') {
        let mut m = text3("IP ", ts.as_str(), " is not within '");
        m.append(global.ip_base.as_str());
        m.append("X' format.");
        return Err(m);
    }
    match crate::text::parse_uint_chars(&suffix, 255) {
        Some(v) => Ok(v as u8),
        None => Err(text3("IP ", ts.as_str(), " has an invalid last octet.")),
    }
}

/// One part of a dotted IPv4 address: one to three digits, no leading zero,
/// at most 255.
pub open spec fn ipv4_part_ok(p: Seq<char>) -> bool {
    &&& 1 <= p.len() <= 3
    &&& crate::text::all_digits(p)
    &&& !(p.len() > 1 && p[0] == '0')
    &&& crate::text::dec_value(p) <= 255
}

/// What parsing a dotted IPv4 address tells: none when the text is not one,
/// else whether it is a loopback address (first part 127).
pub open spec fn ipv4_loopback(s: Seq<char>) -> Option<bool> {
    let parts = split_pred(s, crate::text::is_char('.'));
    if parts.len() == 4 && forall|i: int| 0 <= i < 4 ==> ipv4_part_ok(#[trigger] parts[i]) {
        Some(crate::text::dec_value(parts[0]) == 127)
    } else {
        None
    }
}

fn ipv4_part_ok_of(p: &Vec<char>) -> (r: bool)
    ensures
        r == ipv4_part_ok(p@),
{
    if p.len() < 1 || p.len() > 3 {
        return false;
    }
    if p.len() > 1 && p[0] == '0' {
        return false;
    }
    match crate::text::parse_uint_chars(p, 255) {
        Some(_) => {
            if p[0] == '+' {
                assert(!crate::text::is_digit(p@[0]));
                false
            } else {
                assert(crate::text::unsigned_digits(p@) == p@);
                true
            }
        },
        None => {
            if p[0] != '+' {
                assert(crate::text::unsigned_digits(p@) == p@);
            } else {
                assert(!crate::text::is_digit(p@[0]));
            }
            false
        },
    }
}

fn parse_ipv4_loopback(s: &Vec<char>) -> (r: Option<bool>)
    ensures
        r == ipv4_loopback(s@),
{
    let parts = crate::text::split_char_chars(s, '.');
    let ghost ps = views(parts@);
    if parts.len() != 4 {
        return None;
    }
    let mut i: usize = 0;
    while i < 4
        invariant
            i <= 4,
            parts@.len() == 4,
            ps == views(parts@),
            ps == split_pred(s@, crate::text::is_char('.')),
            forall|j: int| 0 <= j < i ==> ipv4_part_ok(#[trigger] ps[j]),
        decreases 4 - i,
    {
        assert(ps[i as int] == parts@[i as int]@);
        if !ipv4_part_ok_of(&parts[i]) {
            return None;
        }
        i = i + 1;
    }
    assert(ps[0] == parts@[0]@);
    match crate::text::parse_uint_chars(&parts[0], 255) {
        Some(v) => {
            assert(crate::text::unsigned_digits(parts@[0]@) == parts@[0]@);
            Some(v == 127)
        },
        None => {
            assert(crate::text::unsigned_digits(parts@[0]@) == parts@[0]@);
            None
        },
    }
}

/// A project IP: its last octet in the configured range, and a valid
/// loopback IPv4 address.
pub open spec fn project_ip_result(g: GlobalConfig, ip: Seq<char>) -> Result<(), Seq<char>> {
    match ip_octet_result(g.ip_base@, ip) {
        Err(m) => Err(m),
        Ok(o) => if o < g.ip_range_start || o > g.ip_range_end {
            Err(
                "IP "@ + ip + " is outside configured range "@ + g.ip_base@ + dec_chars(g.ip_range_start as nat) + ".."@
                    + dec_chars(g.ip_range_end as nat) + "."@,
            )
        } else {
            match ipv4_loopback(trim(ip)) {
                None => Err("IP "@ + ip + " is not a valid IPv4 address."@),
                Some(false) => Err("IP "@ + ip + " is not in loopback space."@),
                Some(true) => Ok(()),
            }
        },
    }
}

/// `base`, `a`, "..", `b` and ".".
fn range_text(prefix: &str, base: &str, a: u8, b: u8) -> (r: String)
    ensures
        r@ == prefix@ + base@ + dec_chars(a as nat) + ".."@ + dec_chars(b as nat) + "."@,
{
    let mut r = text3(prefix, base, "");
    proof {
        reveal_strlit("");
    }
    let da = string_of(&crate::text::u64_chars(a as u64));
    let db = string_of(&crate::text::u64_chars(b as u64));
    r.append(da.as_str());
    r.append("..");
    r.append(db.as_str());
    r.append(".");
    assert(r@ =~= prefix@ + base@ + dec_chars(a as nat) + ".."@ + dec_chars(b as nat) + "."@);
    r
}

pub fn validate_project_ip(global: &GlobalConfig, ip: &str) -> (r: Result<(), String>)
    ensures
        unit_result(r) == project_ip_result(*global, ip@),
{
    let octet = match ip_octet(global, ip) {
        Err(e) => {
            return Err(e);
        },
        Ok(o) => o,
    };
    if octet < global.ip_range_start || octet > global.ip_range_end {
        let head = text3("IP ", ip, " is outside configured range ");
        return Err(range_text(head.as_str(), global.ip_base.as_str(), global.ip_range_start, global.ip_range_end));
    }
    match parse_ipv4_loopback(&trim_str(ip)) {
        None => Err(text3("IP ", ip, " is not a valid IPv4 address.")),
        Some(false) => Err(text3("IP ", ip, " is not in loopback space.")),
        Some(true) => Ok(()),
    }
}

/// Some project's IP has this last octet.
pub open spec fn octet_used(entries: Seq<(String, ProjectConfig)>, base: Seq<char>, o: u8) -> bool {
    exists|k: int| 0 <= k < entries.len() && ip_octet_result(base, (#[trigger] entries[k]).1.ip@) == Ok::<u8, Seq<char>>(o)
}

/// The position reached after `k` steps from `offset`, counting up and
/// wrapping from `span - 1` to 0.
pub open spec fn step_position(offset: nat, k: nat, span: nat) -> nat
    decreases k,
{
    if k == 0 {
        offset
    } else {
        let p = step_position(offset, (k - 1) as nat, span);
        if p + 1 == span {
            0
        } else {
            p + 1
        }
    }
}

/// The first octet from position `k` on (of `span` in all) that no project uses.
pub open spec fn free_octet_from(entries: Seq<(String, ProjectConfig)>, base: Seq<char>, start: u8, span: nat, offset: nat, k: nat) -> Option<u8>
    decreases span - k,
{
    if k >= span {
        None
    } else {
        let o = (start + step_position(offset, k, span)) as u8;
        if !octet_used(entries, base, o) {
            Some(o)
        } else {
            free_octet_from(entries, base, start, span, offset, k + 1)
        }
    }
}

/// The IP handed out for a hash of the seed: walking the range from the
/// hashed position, the first octet that no project uses.
pub open spec fn allocate_result(config: LoopboxConfig, hash: u64) -> Result<Seq<char>, Seq<char>> {
    let g = config.global;
    if g.ip_range_start > g.ip_range_end {
        Err("Invalid IP range configuration."@)
    } else {
        let span = (g.ip_range_end - g.ip_range_start + 1) as nat;
        match free_octet_from(config.projects.entries@, g.ip_base@, g.ip_range_start, span, (hash % (span as u64)) as nat, 0) {
            Some(o) => Ok(g.ip_base@ + dec_chars(o as nat)),
            None => Err(
                "No free loopback IPs left in "@ + g.ip_base@ + dec_chars(g.ip_range_start as nat) + ".."@
                    + dec_chars(g.ip_range_end as nat) + "."@,
            ),
        }
    }
}

fn used_octets(config: &LoopboxConfig) -> (r: Vec<u8>)
    ensures
        forall|o: u8| r@.contains(o) <==> octet_used(config.projects.entries@, config.global.ip_base@, o),
{
    let ghost es = config.projects.entries@;
    let ghost base = config.global.ip_base@;
    let mut out: Vec<u8> = Vec::new();
    let mut i: usize = 0;
    while i < config.projects.entries.len()
        invariant
            i <= es.len(),
            es == config.projects.entries@,
            base == config.global.ip_base@,
            forall|o: u8| #[trigger] out@.contains(o) <==> exists|k: int| 0 <= k < i && ip_octet_result(base, (#[trigger] es[k]).1.ip@) == Ok::<u8, Seq<char>>(o),
        decreases config.projects.entries.len() - i,
    {
        let (_, project) = config.projects.entry_at(i);
        let ghost before = out@;
        match ip_octet(&config.global, project.ip.as_str()) {
            Ok(o) => {
                out.push(o);
            },
            Err(_) => {},
        }
        proof {
            assert forall|o: u8| #[trigger] out@.contains(o) <==> exists|k: int| 0 <= k < i + 1 && ip_octet_result(base, (#[trigger] es[k]).1.ip@) == Ok::<u8, Seq<char>>(o) by {
                if out@.contains(o) && !before.contains(o) {
                    assert(out@ == before.push(o));
                    assert(ip_octet_result(base, es[i as int].1.ip@) == Ok::<u8, Seq<char>>(o));
                }
                if before.contains(o) {
                    let w = choose|w: int| 0 <= w < before.len() && before[w] == o;
                    assert(out@[w] == o);
                }
                if exists|k: int| 0 <= k < i + 1 && ip_octet_result(base, (#[trigger] es[k]).1.ip@) == Ok::<u8, Seq<char>>(o) {
                    let k = choose|k: int| 0 <= k < i + 1 && ip_octet_result(base, (#[trigger] es[k]).1.ip@) == Ok::<u8, Seq<char>>(o);
                    if k == i {
                        assert(out@[out@.len() - 1] == o);
                    }
                }
            }
        }
        i = i + 1;
    }
    out
}

fn octet_in(v: &Vec<u8>, o: u8) -> (r: bool)
    ensures
        r == v@.contains(o),
{
    let mut i: usize = 0;
    while i < v.len()
        invariant
            i <= v@.len(),
            forall|j: int| 0 <= j < i ==> v@[j] != o,
        decreases v.len() - i,
    {
        if v[i] == o {
            return true;
        }
        i = i + 1;
    }
    false
}

proof fn lemma_step_position_bound(offset: nat, k: nat, span: nat)
    requires
        offset < span,
    ensures
        step_position(offset, k, span) < span,
    decreases k,
{
    if k > 0 {
        lemma_step_position_bound(offset, (k - 1) as nat, span);
    }
}

/// Hands out the IP for a hash of the seed (see [`allocate_result`]).
pub fn allocate_ip_from_hash(config: &LoopboxConfig, hash: u64) -> (r: Result<String, String>)
    ensures
        text_result(r) == allocate_result(*config, hash),
{
    let start = config.global.ip_range_start;
    let end = config.global.ip_range_end;
    if start > end {
        return Err("Invalid IP range configuration.".to_owned());
    }
    let span: u16 = (end as u16 - start as u16) + 1;
    let used = used_octets(config);
    let offset: u16 = (hash % (span as u64)) as u16;
    let ghost es = config.projects.entries@;
    let ghost base = config.global.ip_base@;
    assert((end - start + 1) as nat == span as nat);
    assert((hash % (span as u64)) as nat == offset as nat);
    let mut pos: u16 = offset;
    let mut k: u16 = 0;
    while k < span
        invariant
            start <= end,
            start == config.global.ip_range_start,
            end == config.global.ip_range_end,
            span == end - start + 1,
            offset < span,
            (hash % (span as u64)) as nat == offset as nat,
            k <= span,
            es == config.projects.entries@,
            base == config.global.ip_base@,
            pos as nat == step_position(offset as nat, k as nat, span as nat),
            pos < span,
            forall|o: u8| used@.contains(o) <==> octet_used(es, base, o),
            free_octet_from(es, base, start, span as nat, offset as nat, 0) == free_octet_from(es, base, start, span as nat, offset as nat, k as nat),
        decreases span - k,
    {
        let octet: u8 = (start as u16 + pos) as u8;
        if !octet_in(&used, octet) {
            assert(octet == (start + step_position(offset as nat, k as nat, span as nat)) as u8);
            assert(free_octet_from(es, base, start, span as nat, offset as nat, k as nat) == Some(octet));
            let digits = string_of(&crate::text::u64_chars(octet as u64));
            let mut ip = config.global.ip_base.clone();
            ip.append(digits.as_str());
            assert(ip@ == base + dec_chars(octet as nat));
            return Ok(ip);
        }
        if pos + 1 == span {
            pos = 0;
        } else {
            pos = pos + 1;
        }
        k = k + 1;
    }
    let head = "No free loopback IPs left in ";
    Err(range_text(head, config.global.ip_base.as_str(), start, end))
}

/// A number from the seed text by `DefaultHasher` (its fixed keys). Which
/// number comes out is not stated: the algorithm may change between Rust
/// releases.
#[verifier::external_body]
fn seed_hash(seed: &str) -> u64 {
    std::hash::BuildHasherDefault::<std::collections::hash_map::DefaultHasher>::default().hash_one(seed)
}

/// Hands out a free IP of the configured range for a project, starting at a
/// position drawn from the seed's hash.
pub fn allocate_ip(config: &LoopboxConfig, seed: &str) -> (r: Result<String, String>)
    ensures
        exists|h: u64| text_result(r) == allocate_result(*config, h),
{
    let h = seed_hash(seed);
    allocate_ip_from_hash(config, h)
}

/// An allocated IP is the base followed by an octet of the range that no
/// project uses.
pub proof fn law_allocated_ip_is_free(config: LoopboxConfig, hash: u64)
    requires
        allocate_result(config, hash) is Ok,
    ensures
        exists|o: u8|
            config.global.ip_range_start <= o <= config.global.ip_range_end
                && !octet_used(config.projects.entries@, config.global.ip_base@, o)
                && allocate_result(config, hash) == Ok::<Seq<char>, Seq<char>>(config.global.ip_base@ + dec_chars(o as nat)),
{
    let g = config.global;
    let span = (g.ip_range_end - g.ip_range_start + 1) as nat;
    let offset = (hash % (span as u64)) as nat;
    lemma_free_octet_found(config.projects.entries@, g.ip_base@, g.ip_range_start, span, offset, 0);
}

proof fn lemma_free_octet_found(entries: Seq<(String, ProjectConfig)>, base: Seq<char>, start: u8, span: nat, offset: nat, k: nat)
    requires
        offset < span,
        start + span <= 256,
    ensures
        match free_octet_from(entries, base, start, span, offset, k) {
            Some(o) => start <= o < start + span && !octet_used(entries, base, o),
            None => true,
        },
    decreases span - k,
{
    if k < span {
        lemma_step_position_bound(offset, k, span);
        lemma_free_octet_found(entries, base, start, span, offset, k + 1);
    }
}


// ---------------------------------------------------------------------------
// Adding, changing and removing projects
// ---------------------------------------------------------------------------

#[verifier::opaque]
pub open spec fn has_ports(s: ServiceConfig) -> bool {
    effective_ports(s).len() > 0
}

/// The first service with a port.
pub open spec fn first_with_ports(svcs: Seq<ServiceConfig>) -> Option<int> {
    if exists|k: int| 0 <= k < svcs.len() && has_ports(#[trigger] svcs[k]) {
        Some(choose|k: int| 0 <= k < svcs.len() && has_ports(#[trigger] svcs[k]) && forall|j: int| 0 <= j < k ==> !has_ports(#[trigger] svcs[j]))
    } else {
        None
    }
}

/// The service a project opens by default: the first with a port, else the
/// first.
pub open spec fn default_service_of(svcs: Seq<ServiceConfig>) -> Option<Seq<char>> {
    match first_with_ports(svcs) {
        Some(k) => Some(svcs[k].name@),
        None => if svcs.len() > 0 {
            Some(svcs[0].name@)
        } else {
            None
        },
    }
}

fn default_service(svcs: &Vec<ServiceConfig>) -> (r: Option<String>)
    ensures
        opt_view(r) == default_service_of(svcs@),
{
    let ghost all = svcs@;
    let mut i: usize = 0;
    while i < svcs.len()
        invariant
            i <= all.len(),
            all == svcs@,
            forall|j: int| 0 <= j < i ==> !has_ports(#[trigger] all[j]),
        decreases svcs.len() - i,
    {
        let ports = service_ports(&svcs[i]);
        proof {
            reveal(has_ports);
            assert(port_specs(ports@).len() == ports@.len());
        }
        if ports.len() > 0 {
            proof {
                assert(has_ports(all[i as int]));
                let k = choose|k: int| 0 <= k < all.len() && has_ports(#[trigger] all[k]) && forall|j: int| 0 <= j < k ==> !has_ports(#[trigger] all[j]);
                if k < i {
                    assert(!has_ports(all[k]));
                }
                if k > i {
                    assert(!has_ports(all[i as int]));
                }
            }
            return Some(svcs[i].name.clone());
        }
        i = i + 1;
    }
    if svcs.len() > 0 {
        Some(svcs[0].name.clone())
    } else {
        None
    }
}

/// Another project (not `skip`) already has this IP.
pub open spec fn ip_taken(entries: Seq<(String, ProjectConfig)>, ip: Seq<char>, skip: Option<Seq<char>>) -> bool {
    exists|k: int| 0 <= k < entries.len() && skip != Some((#[trigger] entries[k]).0@) && entries[k].1.ip@ == ip
}

/// An IP typed into a form: trimmed, valid, and not another project's.
pub open spec fn requested_ip_result(config: LoopboxConfig, raw: Seq<char>, skip: Option<Seq<char>>) -> Result<Seq<char>, Seq<char>> {
    let req = trim(raw);
    match project_ip_result(config.global, req) {
        Err(m) => Err(m),
        Ok(_) => if ip_taken(config.projects.entries@, req, skip) {
            Err("IP "@ + req + " is already assigned to another project."@)
        } else {
            Ok(req)
        },
    }
}

fn ip_taken_in(projects: &ProjectMap, ip: &Vec<char>, skip: Option<&str>) -> (r: bool)
    ensures
        r == ip_taken(projects.entries@, ip@, home_view(skip)),
{
    let ghost es = projects.entries@;
    let mut i: usize = 0;
    while i < projects.entries.len()
        invariant
            i <= es.len(),
            es == projects.entries@,
            forall|k: int| 0 <= k < i ==> !(home_view(skip) != Some((#[trigger] es[k]).0@) && es[k].1.ip@ == ip@),
        decreases projects.entries.len() - i,
    {
        let (name, project) = projects.entry_at(i);
        let skipped = match skip {
            Some(sk) => str_eq_chars(sk, &chars_of(name.as_str())),
            None => false,
        };
        if !skipped && str_eq_chars(project.ip.as_str(), ip) {
            assert(home_view(skip) != Some(es[i as int].0@) && es[i as int].1.ip@ == ip@);
            return true;
        }
        i = i + 1;
    }
    false
}

fn requested_ip(config: &LoopboxConfig, raw: &str, skip: Option<&str>) -> (r: Result<String, String>)
    ensures
        text_result(r) == requested_ip_result(*config, raw@, home_view(skip)),
{
    let req = string_of(&trim_str(raw));
    match validate_project_ip(&config.global, req.as_str()) {
        Err(e) => {
            return Err(e);
        },
        Ok(()) => {},
    }
    if ip_taken_in(&config.projects, &chars_of(req.as_str()), skip) {
        return Err(text3("IP ", req.as_str(), " is already assigned to another project."));
    }
    Ok(req)
}

/// What adding a project from a form gives: its name, directory, services
/// and IP, or the first thing wrong. `hash` is the hash of the seed from
/// which a blank IP is allocated.
pub open spec fn add_result(config: LoopboxConfig, input: AddProjectInput, home: Option<Seq<char>>, hash: u64) -> Result<(Seq<char>, Seq<char>, Seq<ServiceView>, Seq<char>), Seq<char>> {
    match project_name_result(input.name@) {
        Err(m) => Err(m),
        Ok(name) => if config.projects.contains(name) {
            Err("Project '"@ + name + "' already exists."@)
        } else {
            match directory_result(input.dir@, home) {
                Err(m) => Err(m),
                Ok(dir) => match services_result(input.services@, dir, home) {
                    Err(m) => Err(m),
                    Ok(svs) => match unique_hosts_result(
                        generated_hosts(name, service_names(svs), config.global.domain_suffix@),
                        config.projects.entries@,
                        config.global.domain_suffix@,
                        None,
                    ) {
                        Err(m) => Err(m),
                        Ok(_) => {
                            let ip = if trim(input.ip@).len() == 0 {
                                allocate_result(config, hash)
                            } else {
                                requested_ip_result(config, input.ip@, None)
                            };
                            match ip {
                                Err(m) => Err(m),
                                Ok(ip) => Ok((name, dir, svs, ip)),
                            }
                        },
                    },
                },
            }
        },
    }
}

/// The seed a blank IP is allocated from: `name:dir`.
pub open spec fn ip_seed(name: Seq<char>, dir: Seq<char>) -> Seq<char> {
    name + ":"@ + dir
}

/// The project a form describes, as it is stored.
pub open spec fn new_project_matches(p: ProjectConfig, dir: Seq<char>, svs: Seq<ServiceView>, ip: Seq<char>) -> bool {
    &&& p.dir@ == dir
    &&& p.ip@ == ip
    &&& service_views(p.services@) == svs
    &&& opt_view(p.default_open_service) == default_service_of(p.services@)
    &&& p.proxy_traffic_capture_enabled is None
    &&& p.proxy_traffic_capture_mode is None
    &&& p.grpc_proto_paths@.len() == 0
    &&& p.proxy_endpoints@.len() == 0
}

pub open spec fn preview_matches(r: Result<(String, ProjectConfig), String>, expected: Result<(Seq<char>, Seq<char>, Seq<ServiceView>, Seq<char>), Seq<char>>) -> bool {
    match expected {
        Err(m) => r is Err && r->Err_0@ == m,
        Ok((name, dir, svs, ip)) => r is Ok && r->Ok_0.0@ == name && new_project_matches(r->Ok_0.1, dir, svs, ip),
    }
}

/// The project a form would add, without adding it; a blank IP is allocated
/// from `hash`.
pub fn preview_add_project_with_hash(config: &LoopboxConfig, input: &AddProjectInput, home: Option<&str>, hash: u64) -> (r: Result<(String, ProjectConfig), String>)
    ensures
        preview_matches(r, add_result(*config, *input, home_view(home), hash)),
{
    let name = match normalize_project_name(input.name.as_str()) {
        Err(e) => {
            return Err(e);
        },
        Ok(n) => n,
    };
    if config.projects.contains_key(name.as_str()) {
        return Err(text3("Project '", name.as_str(), "' already exists."));
    }
    let dir = match normalize_directory(input.dir.as_str(), home) {
        Err(e) => {
            return Err(e);
        },
        Ok(d) => d,
    };
    let services = match parse_services(&input.services, dir.as_str(), home) {
        Err(e) => {
            return Err(e);
        },
        Ok(s) => s,
    };
    let candidates = generated_service_hosts(name.as_str(), &services, config.global.domain_suffix.as_str());
    proof {
        assert(config_service_names(services@) =~= service_names(service_views(services@)));
    }
    match ensure_unique_hosts(config, &candidates) {
        Err(e) => {
            return Err(e);
        },
        Ok(()) => {},
    }
    let ip = if trim_str(input.ip.as_str()).len() == 0 {
        allocate_ip_from_hash(config, hash)
    } else {
        requested_ip(config, input.ip.as_str(), None)
    };
    let ip = match ip {
        Err(e) => {
            return Err(e);
        },
        Ok(ip) => ip,
    };
    let default_open_service = default_service(&services);
    let project = ProjectConfig {
        dir,
        ip,
        services,
        default_open_service,
        proxy_traffic_capture_enabled: None,
        proxy_traffic_capture_mode: None,
        grpc_proto_paths: Vec::new(),
        proxy_endpoints: Vec::new(),
    };
    Ok((name, project))
}

/// The project a form would add, without adding it.
pub fn preview_add_project(config: &LoopboxConfig, input: &AddProjectInput, home: Option<&str>) -> (r: Result<(String, ProjectConfig), String>)
    ensures
        exists|h: u64| preview_matches(r, #[trigger] add_result(*config, *input, home_view(home), h)),
{
    let (name, dir) = match (normalize_project_name(input.name.as_str()), normalize_directory(input.dir.as_str(), home)) {
        (Ok(n), Ok(d)) => (n, d),
        _ => (String::new(), String::new()),
    };
    let seed = text3(name.as_str(), ":", dir.as_str());
    let h = seed_hash(seed.as_str());
    let r = preview_add_project_with_hash(config, input, home, h);
    assert(preview_matches(r, add_result(*config, *input, home_view(home), h)));
    r
}

/// Adds a project from a form and returns its name; nothing changes when
/// the form is refused. A blank IP is allocated from `hash`.
pub fn add_project_with_hash(config: &mut LoopboxConfig, input: &AddProjectInput, home: Option<&str>, hash: u64) -> (r: Result<String, String>)
    requires
        old(config).projects.wf(),
    ensures
        final(config).projects.wf(),
        final(config).global == old(config).global,
        match add_result(*old(config), *input, home_view(home), hash) {
            Err(m) => r is Err && r->Err_0@ == m && final(config).projects == old(config).projects,
            Ok((name, dir, svs, ip)) => {
                &&& r is Ok
                &&& r->Ok_0@ == name
                &&& final(config).projects.lookup(name) is Some
                &&& new_project_matches(final(config).projects.lookup(name).unwrap(), dir, svs, ip)
                &&& forall|k: Seq<char>| k != name ==> final(config).projects.lookup(k) == old(config).projects.lookup(k)
            },
        },
{
    match preview_add_project_with_hash(config, input, home, hash) {
        Err(e) => Err(e),
        Ok((name, project)) => {
            let key = name.clone();
            config.projects.insert(key, project);
            Ok(name)
        },
    }
}

/// Adds a project from a form and returns its name; nothing changes when
/// the form is refused. A blank IP is allocated from the hash of the name
/// and directory.
pub fn add_project(config: &mut LoopboxConfig, input: &AddProjectInput, home: Option<&str>) -> (r: Result<String, String>)
    requires
        old(config).projects.wf(),
    ensures
        final(config).projects.wf(),
        final(config).global == old(config).global,
        exists|h: u64|
            match #[trigger] add_result(*old(config), *input, home_view(home), h) {
                Err(m) => r is Err && r->Err_0@ == m && final(config).projects == old(config).projects,
                Ok((name, dir, svs, ip)) => {
                    &&& r is Ok
                    &&& r->Ok_0@ == name
                    &&& final(config).projects.lookup(name) is Some
                    &&& new_project_matches(final(config).projects.lookup(name).unwrap(), dir, svs, ip)
                    &&& forall|k: Seq<char>| k != name ==> final(config).projects.lookup(k) == old(config).projects.lookup(k)
                },
            },
{
    let (name, dir) = match (normalize_project_name(input.name.as_str()), normalize_directory(input.dir.as_str(), home)) {
        (Ok(n), Ok(d)) => (n, d),
        _ => (String::new(), String::new()),
    };
    let seed = text3(name.as_str(), ":", dir.as_str());
    let h = seed_hash(seed.as_str());
    let r = add_project_with_hash(config, input, home, h);
    assert(match add_result(*old(config), *input, home_view(home), h) {
        Err(m) => r is Err && r->Err_0@ == m && final(config).projects == old(config).projects,
        Ok((name, dir, svs, ip)) => {
            &&& r is Ok
            &&& r->Ok_0@ == name
            &&& final(config).projects.lookup(name) is Some
            &&& new_project_matches(final(config).projects.lookup(name).unwrap(), dir, svs, ip)
            &&& forall|k: Seq<char>| k != name ==> final(config).projects.lookup(k) == old(config).projects.lookup(k)
        },
    });
    r
}


/// The default service kept by an update: the old one while a service of
/// that name remains, else the default of the new services.
pub open spec fn kept_default_service(old_default: Option<String>, svcs: Seq<ServiceConfig>) -> Option<Seq<char>> {
    match old_default {
        Some(d) => if first_named(svcs, d@) is Some {
            Some(d@)
        } else {
            default_service_of(svcs)
        },
        None => default_service_of(svcs),
    }
}

/// What changing a project from a form gives: its directory, services and
/// IP, or the first thing wrong.
pub open spec fn update_result(config: LoopboxConfig, name: Seq<char>, input: UpdateProjectInput, home: Option<Seq<char>>) -> Result<(Seq<char>, Seq<ServiceView>, Seq<char>), Seq<char>> {
    let project_name = trim(name);
    match config.projects.lookup(project_name) {
        None => Err("Project '"@ + project_name + "' does not exist."@),
        Some(existing) => match directory_result(input.dir@, home) {
            Err(m) => Err(m),
            Ok(dir) => match services_result(input.services@, dir, home) {
                Err(m) => Err(m),
                Ok(svs) => match unique_hosts_result(
                    generated_hosts(project_name, service_names(svs), config.global.domain_suffix@),
                    config.projects.entries@,
                    config.global.domain_suffix@,
                    Some(project_name),
                ) {
                    Err(m) => Err(m),
                    Ok(_) => {
                        let ip = if trim(input.ip@).len() == 0 {
                            Ok(existing.ip@)
                        } else {
                            requested_ip_result(config, input.ip@, Some(project_name))
                        };
                        match ip {
                            Err(m) => Err(m),
                            Ok(ip) => Ok((dir, svs, ip)),
                        }
                    },
                },
            },
        },
    }
}

/// Changes a project from a form: its directory, services and IP are
/// replaced (a blank IP keeps the old one), its default service kept while
/// it still exists, its capture and proxy settings kept; nothing changes when
/// the form is refused.
pub fn update_project(config: &mut LoopboxConfig, name: &str, input: &UpdateProjectInput, home: Option<&str>) -> (r: Result<(), String>)
    requires
        old(config).projects.wf(),
    ensures
        final(config).projects.wf(),
        final(config).global == old(config).global,
        match update_result(*old(config), name@, *input, home_view(home)) {
            Err(m) => r is Err && r->Err_0@ == m && final(config).projects == old(config).projects,
            Ok((dir, svs, ip)) => {
                let key = trim(name@);
                let before = old(config).projects.lookup(key).unwrap();
                let after = final(config).projects.lookup(key);
                &&& r is Ok
                &&& after is Some
                &&& after.unwrap().dir@ == dir
                &&& after.unwrap().ip@ == ip
                &&& service_views(after.unwrap().services@) == svs
                &&& opt_view(after.unwrap().default_open_service) == kept_default_service(before.default_open_service, after.unwrap().services@)
                &&& after.unwrap().proxy_traffic_capture_enabled == before.proxy_traffic_capture_enabled
                &&& after.unwrap().proxy_traffic_capture_mode == before.proxy_traffic_capture_mode
                &&& str_views(after.unwrap().grpc_proto_paths@) == str_views(before.grpc_proto_paths@)
                &&& after.unwrap().proxy_endpoints@ == before.proxy_endpoints@
                &&& forall|k: Seq<char>| k != key ==> final(config).projects.lookup(k) == old(config).projects.lookup(k)
            },
        },
{
    let project_name = string_of(&trim_str(name));
    let existing = match config.projects.get(project_name.as_str()) {
        None => {
            return Err(text3("Project '", project_name.as_str(), "' does not exist."));
        },
        Some(p) => p,
    };
    let dir = match normalize_directory(input.dir.as_str(), home) {
        Err(e) => {
            return Err(e);
        },
        Ok(d) => d,
    };
    let services = match parse_services(&input.services, dir.as_str(), home) {
        Err(e) => {
            return Err(e);
        },
        Ok(s) => s,
    };
    let candidates = generated_service_hosts(project_name.as_str(), &services, config.global.domain_suffix.as_str());
    proof {
        assert(config_service_names(services@) =~= service_names(service_views(services@)));
    }
    match ensure_unique_hosts_for_update(config, project_name.as_str(), &candidates) {
        Err(e) => {
            return Err(e);
        },
        Ok(()) => {},
    }
    let ip = if trim_str(input.ip.as_str()).len() == 0 {
        existing.ip.clone()
    } else {
        match requested_ip(config, input.ip.as_str(), Some(project_name.as_str())) {
            Err(e) => {
                return Err(e);
            },
            Ok(ip) => ip,
        }
    };
    let default_open_service = match &existing.default_open_service {
        Some(d) => match find_named(&services, d) {
            Some(_) => Some(d.clone()),
            None => default_service(&services),
        },
        None => default_service(&services),
    };
    let updated = ProjectConfig {
        dir,
        ip,
        services,
        default_open_service,
        proxy_traffic_capture_enabled: existing.proxy_traffic_capture_enabled,
        proxy_traffic_capture_mode: existing.proxy_traffic_capture_mode,
        grpc_proto_paths: crate::routes::clone_strings(&existing.grpc_proto_paths),
        proxy_endpoints: clone_endpoints(&existing.proxy_endpoints),
    };
    config.projects.insert(project_name, updated);
    Ok(())
}

fn clone_endpoints(v: &Vec<crate::config::ProxyEndpointConfig>) -> (r: Vec<crate::config::ProxyEndpointConfig>)
    ensures
        r@ == v@,
{
    let mut r: Vec<crate::config::ProxyEndpointConfig> = Vec::new();
    let mut i: usize = 0;
    while i < v.len()
        invariant
            i <= v@.len(),
            r@ == v@.take(i as int),
        decreases v.len() - i,
    {
        let e = &v[i];
        let copy = crate::config::ProxyEndpointConfig {
            name: e.name.clone(),
            listen_host: e.listen_host.clone(),
            listen_port: e.listen_port,
            protocol: e.protocol,
            upstream_host: e.upstream_host.clone(),
            upstream_port: e.upstream_port,
            authority: match &e.authority {
                Some(a) => Some(a.clone()),
                None => None,
            },
            project_name: match &e.project_name {
                Some(a) => Some(a.clone()),
                None => None,
            },
            service_name: match &e.service_name {
                Some(a) => Some(a.clone()),
                None => None,
            },
        };
        r.push(copy);
        assert(r@ =~= v@.take(i + 1));
        i = i + 1;
    }
    assert(v@.take(v@.len() as int) =~= v@);
    r
}

/// Removes a project; fails when there is none of that name.
pub fn remove_project(config: &mut LoopboxConfig, name: &str) -> (r: Result<(), String>)
    requires
        old(config).projects.wf(),
    ensures
        final(config).projects.wf(),
        final(config).global == old(config).global,
        final(config).projects.lookup(name@) is None,
        forall|k: Seq<char>| k != name@ ==> final(config).projects.lookup(k) == old(config).projects.lookup(k),
        old(config).projects.contains(name@) ==> r is Ok,
        !old(config).projects.contains(name@) ==> r is Err && r->Err_0@ == "Project '"@ + name@ + "' does not exist."@,
        r is Err ==> *final(config) == *old(config),
{
    match config.projects.remove(name) {
        Some(_) => Ok(()),
        None => Err(text3("Project '", name, "' does not exist.")),
    }
}

// ---------------------------------------------------------------------------
// Host, environment and URL of a project
// ---------------------------------------------------------------------------

/// The host a project is reached under: that of its primary service, else
/// the project's own.
#[verifier::opaque]
pub open spec fn primary_host(config: LoopboxConfig, name: Seq<char>) -> Seq<char> {
    let suffix = config.global.domain_suffix@;
    match config.projects.lookup(name) {
        Some(p) => match primary_service_index(p) {
            Some(k) => service_host(name, p.services@[k].name@, suffix),
            None => project_host(name, suffix),
        },
        None => project_host(name, suffix),
    }
}

pub fn project_primary_host(config: &LoopboxConfig, name: &str) -> (r: String)
    ensures
        r@ == primary_host(*config, name@),
{
    proof {
        reveal(primary_host);
    }
    match config.projects.get(name) {
        Some(project) => match primary_service(project) {
            Some(k) => {
                return service_host_for(name, project.services[k].name.as_str(), config.global.domain_suffix.as_str());
            },
            None => {},
        },
        None => {},
    }
    project_host_for(name, config.global.domain_suffix.as_str())
}

/// A value with its double quotes escaped.
pub open spec fn quote_escaped(s: Seq<char>) -> Seq<char> {
    replace_char(s, '"', "\\\""@)
}

/// `export VAR="value"`.
pub open spec fn export_line(var: Seq<char>, value: Seq<char>) -> Seq<char> {
    "export "@ + var + "=\""@ + value + "\""@
}

/// The ports of a service joined by commas.
pub open spec fn port_list(ports: Seq<PortSpec>) -> Seq<char> {
    crate::text::join(ports.map_values(|p: PortSpec| dec_chars(p.port as nat)), ","@)
}

/// The export lines of one service.
pub open spec fn service_exports(status: ReverseProxyStatus, name: Seq<char>, project: ProjectConfig, suffix: Seq<char>, s: ServiceConfig) -> Seq<Seq<char>> {
    let key = crate::text::unicode_upper(s.name@);
    let ports = effective_ports(s);
    seq![
        export_line("LOOPBOX_PORT_"@ + key, match first_port(ports) {
            Some(p) => dec_chars(p as nat),
            None => seq![],
        }),
        export_line("LOOPBOX_PORTS_"@ + key, port_list(ports)),
        export_line("LOOPBOX_URL_"@ + key, service_url(status, service_host(name, s.name@, suffix), url_port(ports), Some(project.ip@))),
        export_line("LOOPBOX_CMD_"@ + key, quote_escaped(s.command@)),
        export_line("LOOPBOX_WORKDIR_"@ + key, quote_escaped(s.workdir@)),
    ]
}

pub open spec fn all_service_exports(status: ReverseProxyStatus, name: Seq<char>, project: ProjectConfig, suffix: Seq<char>, svcs: Seq<ServiceConfig>) -> Seq<Seq<char>>
    decreases svcs.len(),
{
    if svcs.len() == 0 {
        seq![]
    } else {
        all_service_exports(status, name, project, suffix, svcs.drop_last()) + service_exports(status, name, project, suffix, svcs.last())
    }
}

/// The shell lines that describe a project: its name, directory, IP and
/// host, then per service its ports, URL, command and working directory,
/// and a final newline.
pub open spec fn env_exports(status: ReverseProxyStatus, config: LoopboxConfig, name: Seq<char>) -> Result<Seq<char>, Seq<char>> {
    match config.projects.lookup(name) {
        None => Err("Project '"@ + name + "' not found."@),
        Some(p) => {
            let suffix = config.global.domain_suffix@;
            let lines = seq![
                export_line("LOOPBOX_PROJECT"@, name),
                export_line("LOOPBOX_DIR"@, p.dir@),
                export_line("LOOPBOX_IP"@, p.ip@),
                export_line("LOOPBOX_HOST"@, primary_host(config, name)),
            ] + all_service_exports(status, name, p, suffix, p.services@) + seq![seq![]];
            Ok(crate::text::join(lines, "\n"@))
        },
    }
}

fn export_of(var_prefix: &str, key: &str, value: &str) -> (r: Vec<char>)
    ensures
        r@ == export_line(var_prefix@ + key@, value@),
{
    let mut r = chars_of("export ");
    crate::text::append_str(&mut r, var_prefix);
    crate::text::append_str(&mut r, key);
    crate::text::append_str(&mut r, "=\"");
    crate::text::append_str(&mut r, value);
    crate::text::append_str(&mut r, "\"");
    assert(r@ =~= export_line(var_prefix@ + key@, value@));
    r
}

fn port_list_of(ports: &Vec<ServicePortConfig>) -> (r: String)
    ensures
        r@ == port_list(port_specs(ports@)),
{
    let mut pieces: Vec<Vec<char>> = Vec::new();
    let ghost want = port_specs(ports@).map_values(|p: PortSpec| dec_chars(p.port as nat));
    let mut i: usize = 0;
    while i < ports.len()
        invariant
            i <= ports@.len(),
            want == port_specs(ports@).map_values(|p: PortSpec| dec_chars(p.port as nat)),
            views(pieces@) == want.take(i as int),
        decreases ports.len() - i,
    {
        let d = crate::text::u64_chars(ports[i].port as u64);
        let ghost before = pieces@;
        pieces.push(d);
        assert(views(pieces@) =~= views(before).push(d@));
        assert(want.take(i + 1) =~= want.take(i as int).push(want[i as int]));
        i = i + 1;
    }
    assert(want.take(ports@.len() as int) =~= want);
    let comma = chars_of(",");
    string_of(&crate::text::join_chars(&pieces, &comma))
}

fn escaped(s: &str) -> (r: String)
    ensures
        r@ == quote_escaped(s@),
{
    let rep = chars_of("\\\"");
    string_of(&replace_char_chars(&chars_of(s), '"', &rep))
}

fn service_export_lines(status: &ReverseProxyStatus, name: &str, project: &ProjectConfig, suffix: &String, s: &ServiceConfig) -> (r: Vec<Vec<char>>)
    ensures
        views(r@) == service_exports(*status, name@, *project, suffix@, *s),
{
    let key = string_of(&crate::text::to_uppercase_chars(&chars_of(s.name.as_str())));
    let ports = service_ports(s);
    let host = service_host_for(name, s.name.as_str(), suffix.as_str());
    let primary = match primary_service_port(s) {
        Some(p) => string_of(&crate::text::u64_chars(p as u64)),
        None => String::new(),
    };
    let url = format_service_url(status, host.as_str(), primary_url_port(s), Some(project.ip.as_str()));
    let all_ports = port_list_of(&ports);
    let mut r: Vec<Vec<char>> = Vec::new();
    r.push(export_of("LOOPBOX_PORT_", key.as_str(), primary.as_str()));
    r.push(export_of("LOOPBOX_PORTS_", key.as_str(), all_ports.as_str()));
    r.push(export_of("LOOPBOX_URL_", key.as_str(), url.as_str()));
    let cmd = escaped(s.command.as_str());
    r.push(export_of("LOOPBOX_CMD_", key.as_str(), cmd.as_str()));
    let wd = escaped(s.workdir.as_str());
    r.push(export_of("LOOPBOX_WORKDIR_", key.as_str(), wd.as_str()));
    assert(views(r@) =~= service_exports(*status, name@, *project, suffix@, *s));
    r
}

fn all_service_export_lines(status: &ReverseProxyStatus, name: &str, project: &ProjectConfig, suffix: &String) -> (r: Vec<Vec<char>>)
    ensures
        views(r@) == all_service_exports(*status, name@, *project, suffix@, project.services@),
{
    let mut lines: Vec<Vec<char>> = Vec::new();
    let mut i: usize = 0;
    while i < project.services.len()
        invariant
            i <= project.services@.len(),
            views(lines@) == all_service_exports(*status, name@, *project, suffix@, project.services@.take(i as int)),
        decreases project.services.len() - i,
    {
        let mut more = service_export_lines(status, name, project, suffix, &project.services[i]);
        let ghost before = lines@;
        let ghost added = more@;
        lines.append(&mut more);
        proof {
            assert(views(lines@) =~= views(before) + views(added));
            assert(project.services@.take(i + 1).drop_last() =~= project.services@.take(i as int));
        }
        i = i + 1;
    }
    assert(project.services@.take(project.services@.len() as int) =~= project.services@);
    lines
}

/// The shell lines that describe a project (see [`env_exports`]); the proxy
/// status decides its URLs.
pub fn project_env_exports(config: &LoopboxConfig, name: &str, status: &ReverseProxyStatus) -> (r: Result<String, String>)
    ensures
        text_result(r) == env_exports(*status, *config, name@),
{
    let project = match config.projects.get(name) {
        None => {
            return Err(text3("Project '", name, "' not found."));
        },
        Some(p) => p,
    };
    let host = project_primary_host(config, name);
    proof {
        reveal_strlit("");
    }
    let mut lines: Vec<Vec<char>> = Vec::new();
    lines.push(export_of("LOOPBOX_PROJECT", "", name));
    lines.push(export_of("LOOPBOX_DIR", "", project.dir.as_str()));
    lines.push(export_of("LOOPBOX_IP", "", project.ip.as_str()));
    lines.push(export_of("LOOPBOX_HOST", "", host.as_str()));
    let ghost head = views(lines@);
    assert(head =~= seq![
        export_line("LOOPBOX_PROJECT"@, name@),
        export_line("LOOPBOX_DIR"@, project.dir@),
        export_line("LOOPBOX_IP"@, project.ip@),
        export_line("LOOPBOX_HOST"@, primary_host(*config, name@)),
    ]);
    let mut more = all_service_export_lines(status, name, project, &config.global.domain_suffix);
    let ghost middle = views(more@);
    lines.append(&mut more);
    lines.push(Vec::new());
    let ghost want = head + middle + seq![seq![]];
    assert(views(lines@) =~= want);
    let nl = chars_of("\n");
    let text = string_of(&crate::text::join_chars(&lines, &nl));
    Ok(text)
}

/// The URL that opens a service of a project.
pub open spec fn open_url(status: ReverseProxyStatus, config: LoopboxConfig, name: Seq<char>, service: Seq<char>) -> Result<Seq<char>, Seq<char>> {
    match config.projects.lookup(name) {
        None => Err("Project '"@ + name + "' not found."@),
        Some(p) => match first_named(p.services@, service) {
            None => Err("Service '"@ + service + "' not found in project '"@ + name + "'."@),
            Some(k) => Ok(
                service_url(
                    status,
                    service_host(name, service, config.global.domain_suffix@),
                    url_port(effective_ports(p.services@[k])),
                    Some(p.ip@),
                ),
            ),
        },
    }
}

/// The URL that opens a service of a project; the proxy status decides
/// whether it goes through the proxy.
pub fn open_url_for(config: &LoopboxConfig, name: &str, target: OpenTarget, status: &ReverseProxyStatus) -> (r: Result<String, String>)
    ensures
        text_result(r) == open_url(*status, *config, name@, match target {
            OpenTarget::Service(s) => s@,
        }),
{
    let project = match config.projects.get(name) {
        None => {
            return Err(text3("Project '", name, "' not found."));
        },
        Some(p) => p,
    };
    let OpenTarget::Service(service_name) = target;
    let k = match find_named(&project.services, &service_name) {
        None => {
            let mut m = text3("Service '", service_name.as_str(), "' not found in project '");
            m.append(name);
            m.append("'.");
            return Err(m);
        },
        Some(k) => k,
    };
    let host = service_host_for(name, service_name.as_str(), config.global.domain_suffix.as_str());
    Ok(format_service_url(status, host.as_str(), primary_url_port(&project.services[k]), Some(project.ip.as_str())))
}


// ---------------------------------------------------------------------------
// What every accepted project form gives
// ---------------------------------------------------------------------------

/// No two items are equal.
pub open spec fn all_distinct(s: Seq<Seq<char>>) -> bool {
    forall|i: int, j: int| 0 <= i < j < s.len() ==> (#[trigger] s[i]) != (#[trigger] s[j])
}

proof fn lemma_entries_names_distinct(entries: Seq<ServiceEntry>, dir: Seq<char>, home: Option<Seq<char>>)
    ensures
        entries_result(entries, dir, home) is Ok ==> all_distinct(service_names(entries_result(entries, dir, home)->Ok_0)),
    decreases entries.len(),
{
    if entries.len() > 0 {
        lemma_entries_names_distinct(entries.drop_last(), dir, home);
        match entries_result(entries.drop_last(), dir, home) {
            Ok(prev) => {
                match entry_result(entries.last(), dir, home, service_names(prev)) {
                    Ok(Some(v)) => {
                        let next = prev.push(v);
                        assert(!service_names(prev).contains(v.name));
                        assert forall|i: int, j: int| 0 <= i < j < next.len() implies (#[trigger] service_names(next)[i])
                            != (#[trigger] service_names(next)[j]) by {
                            if j == next.len() - 1 {
                                assert(service_names(next)[i] == service_names(prev)[i]);
                                if service_names(prev)[i] == v.name {
                                    assert(service_names(prev).contains(v.name));
                                }
                            } else {
                                assert(service_names(next)[i] == service_names(prev)[i]);
                                assert(service_names(next)[j] == service_names(prev)[j]);
                            }
                        }
                    },
                    _ => {},
                }
            },
            Err(_) => {},
        }
    }
}

/// An accepted project form never has two services of one name.
pub proof fn law_service_names_distinct(entries: Seq<ServiceEntry>, dir: Seq<char>, home: Option<Seq<char>>)
    requires
        services_result(entries, dir, home) is Ok,
    ensures
        all_distinct(service_names(services_result(entries, dir, home)->Ok_0)),
{
    lemma_entries_names_distinct(entries, dir, home);
}

proof fn lemma_first_missing_none(deps: Seq<Seq<char>>, names: Seq<Seq<char>>)
    requires
        first_missing(deps, names) is None,
    ensures
        forall|k: int| 0 <= k < deps.len() ==> names.contains(#[trigger] deps[k]),
    decreases deps.len(),
{
    if deps.len() > 0 {
        lemma_first_missing_none(deps.drop_last(), names);
        assert forall|k: int| 0 <= k < deps.len() implies names.contains(#[trigger] deps[k]) by {
            if k < deps.len() - 1 {
                assert(deps[k] == deps.drop_last()[k]);
            }
        }
    }
}

proof fn lemma_first_unknown_none(svs: Seq<ServiceView>, names: Seq<Seq<char>>)
    requires
        first_unknown_dependency(svs, names) is None,
    ensures
        forall|i: int, k: int| 0 <= i < svs.len() && 0 <= k < svs[i].depends_on.len() ==> names.contains(#[trigger] svs[i].depends_on[k]),
    decreases svs.len(),
{
    if svs.len() > 0 {
        lemma_first_unknown_none(svs.drop_last(), names);
        lemma_first_missing_none(svs.last().depends_on, names);
        assert forall|i: int, k: int| 0 <= i < svs.len() && 0 <= k < svs[i].depends_on.len() implies names.contains(#[trigger] svs[i].depends_on[k]) by {
            if i < svs.len() - 1 {
                assert(svs[i] == svs.drop_last()[i]);
            }
        }
    }
}

proof fn lemma_without_item(s: Seq<Seq<char>>, x: Seq<char>)
    ensures
        !without_item(s, x).contains(x),
    decreases s.len(),
{
    if s.len() > 0 {
        lemma_without_item(s.drop_last(), x);
        let prev = without_item(s.drop_last(), x);
        if s.last() != x {
            assert forall|k: int| 0 <= k < prev.push(s.last()).len() implies prev.push(s.last())[k] != x by {
                if k < prev.len() {
                    assert(prev.push(s.last())[k] == prev[k]);
                }
            }
        }
    }
}

proof fn lemma_first_occurrences_subset(s: Seq<Seq<char>>, x: Seq<char>)
    requires
        !s.contains(x),
    ensures
        !first_occurrences(s).contains(x),
    decreases s.len(),
{
    if s.len() > 0 {
        assert(!s.drop_last().contains(x)) by {
            if s.drop_last().contains(x) {
                let k = choose|k: int| 0 <= k < s.drop_last().len() && s.drop_last()[k] == x;
                assert(s[k] == x);
            }
        }
        lemma_first_occurrences_subset(s.drop_last(), x);
        let prev = first_occurrences(s.drop_last());
        if !prev.contains(s.last()) {
            assert(s.last() != x) by {
                assert(s[s.len() - 1] == s.last());
            }
            assert forall|k: int| 0 <= k < prev.push(s.last()).len() implies prev.push(s.last())[k] != x by {
                if k < prev.len() {
                    assert(prev.push(s.last())[k] == prev[k]);
                }
            }
        }
    }
}

proof fn lemma_entries_no_self_dependency(entries: Seq<ServiceEntry>, dir: Seq<char>, home: Option<Seq<char>>)
    ensures
        entries_result(entries, dir, home) is Ok ==> forall|i: int| 0 <= i < entries_result(entries, dir, home)->Ok_0.len() ==> !(
        #[trigger] entries_result(entries, dir, home)->Ok_0[i]).depends_on.contains(entries_result(entries, dir, home)->Ok_0[i].name),
    decreases entries.len(),
{
    if entries.len() > 0 {
        lemma_entries_no_self_dependency(entries.drop_last(), dir, home);
        match entries_result(entries.drop_last(), dir, home) {
            Ok(prev) => {
                match entry_result(entries.last(), dir, home, service_names(prev)) {
                    Ok(Some(v)) => {
                        let raw = nonblank_trimmed(split_pred(entries.last().depends_on@, in_set(list_separators()))).map_values(
                            |p: Seq<char>| unicode_lower(p),
                        );
                        lemma_without_item(raw, v.name);
                        lemma_first_occurrences_subset(without_item(raw, v.name), v.name);
                        let next = prev.push(v);
                        assert forall|i: int| 0 <= i < next.len() implies !(#[trigger] next[i]).depends_on.contains(next[i].name) by {
                            if i < prev.len() {
                                assert(next[i] == prev[i]);
                            }
                        }
                    },
                    _ => {},
                }
            },
            Err(_) => {},
        }
    }
}

/// In an accepted project form every dependency names another service of
/// the same form.
pub proof fn law_dependencies_are_other_services(entries: Seq<ServiceEntry>, dir: Seq<char>, home: Option<Seq<char>>)
    requires
        services_result(entries, dir, home) is Ok,
    ensures
        ({
            let svs = services_result(entries, dir, home)->Ok_0;
            forall|i: int, k: int|
                0 <= i < svs.len() && 0 <= k < svs[i].depends_on.len() ==> service_names(svs).contains(
                    #[trigger] svs[i].depends_on[k],
                ) && svs[i].depends_on[k] != svs[i].name
        }),
{
    let svs = services_result(entries, dir, home)->Ok_0;
    lemma_first_unknown_none(svs, service_names(svs));
    lemma_entries_no_self_dependency(entries, dir, home);
    assert forall|i: int, k: int| 0 <= i < svs.len() && 0 <= k < svs[i].depends_on.len() implies service_names(svs).contains(
        #[trigger] svs[i].depends_on[k],
    ) && svs[i].depends_on[k] != svs[i].name by {
        if svs[i].depends_on[k] == svs[i].name {
            assert(svs[i].depends_on.contains(svs[i].name));
        }
    }
}

/// The host names generated for a project are each there once.
pub proof fn law_generated_hosts_distinct(hosts: Seq<Seq<char>>)
    ensures
        all_distinct(cleaned_hosts(hosts)),
    decreases hosts.len(),
{
    if hosts.len() > 0 {
        law_generated_hosts_distinct(hosts.drop_last());
        let prev = cleaned_hosts(hosts.drop_last());
        let c = unicode_lower(trim(hosts.last()));
        if !(c.len() == 0 || prev.contains(c)) {
            let next = prev.push(c);
            assert forall|i: int, j: int| 0 <= i < j < next.len() implies (#[trigger] next[i]) != (#[trigger] next[j]) by {
                if j == next.len() - 1 {
                    assert(next[i] == prev[i]);
                    if prev[i] == c {
                        assert(prev.contains(c));
                    }
                } else {
                    assert(next[i] == prev[i] && next[j] == prev[j]);
                }
            }
        }
    }
}

} // verus!
