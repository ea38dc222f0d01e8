//! The reverse proxy's reported status: what this process runs, what a
//! sidecar process reported, and what probing the proxy ports found.

use vstd::prelude::*;
use crate::routes::{opt_view, RouteTable};
use crate::text::{
    append_chars, append_str, chars_of, dec_chars, join, join_chars, str_views, string_of, trim,
    trim_chars, u64_chars, views,
};

verus! {

/// The port the proxy binds first.
pub const PROXY_PRIMARY_PORT: u16 = 80;
/// The port the proxy binds when the first is taken.
pub const PROXY_FALLBACK_PORT: u16 = 18_080;
/// A sidecar's report is trusted this long.
pub const PROXY_SIDECAR_STATUS_TTL_MS: u64 = 20_000;

/// Whether the proxy runs, where, and who reported it.
#[derive(Debug, Clone, PartialEq, Eq)]
pub struct ReverseProxyStatus {
    pub running: bool,
    pub bind_port: u16,
    pub using_fallback_port: bool,
    pub note: Option<String>,
    pub listener_count: usize,
    pub endpoint_listener_count: usize,
    pub source: String,
    pub last_error: Option<String>,
}

impl Default for ReverseProxyStatus {
    fn default() -> (r: Self)
        ensures
            !r.running,
            r.bind_port == 0,
            !r.using_fallback_port,
            r.note is None,
            r.listener_count == 0,
            r.endpoint_listener_count == 0,
            r.source@ == "none"@,
            r.last_error is None,
    {
        ReverseProxyStatus {
            running: false,
            bind_port: 0,
            using_fallback_port: false,
            note: None,
            listener_count: 0,
            endpoint_listener_count: 0,
            source: string_of(&chars_of("none")),
            last_error: None,
        }
    }
}

/// This build runs the proxy itself rather than through the bridge.
pub fn override_enabled() -> (r: bool)
    ensures
        r,
{
    true
}

/// The port used when port 80 is taken.
pub fn reverse_proxy_fallback_port() -> (r: u16)
    ensures
        r == PROXY_FALLBACK_PORT,
{
    PROXY_FALLBACK_PORT
}

/// The note of a proxy found on the fallback port.
pub open spec fn fallback_note() -> Seq<char> {
    "Reverse proxy responded on fallback port 18080."@
}

/// A status found by probing the given port.
pub open spec fn probed_status_ok(s: ReverseProxyStatus, port: u16) -> bool {
    &&& s.running
    &&& s.bind_port == port
    &&& s.using_fallback_port == (port == PROXY_FALLBACK_PORT)
    &&& (port == PROXY_FALLBACK_PORT ==> s.note is Some && s.note.unwrap()@ == fallback_note())
    &&& (port != PROXY_FALLBACK_PORT ==> s.note is None)
    &&& s.listener_count == 1
    &&& s.endpoint_listener_count == 0
    &&& s.source@ == "external_probe"@
    &&& s.last_error is None
}

fn probed_status(port: u16) -> (r: ReverseProxyStatus)
    ensures
        probed_status_ok(r, port),
{
    let fallback = port == PROXY_FALLBACK_PORT;
    let note = if fallback {
        let n = string_of(&chars_of("Reverse proxy responded on fallback port 18080."));
        Some(n)
    } else {
        None
    };
    ReverseProxyStatus {
        running: true,
        bind_port: port,
        using_fallback_port: fallback,
        note,
        listener_count: 1,
        endpoint_listener_count: 0,
        source: string_of(&chars_of("external_probe")),
        last_error: None,
    }
}

/// Some probe succeeded.
pub open spec fn any_true(v: Seq<bool>) -> bool {
    exists|i: int| 0 <= i < v.len() && #[trigger] v[i]
}

fn any_true_exec(v: &Vec<bool>) -> (r: bool)
    ensures
        r == any_true(v@),
{
    let mut i: usize = 0;
    while i < v.len()
        invariant
            i <= v@.len(),
            forall|j: int| 0 <= j < i ==> !#[trigger] v@[j],
        decreases v.len() - i,
    {
        if v[i] {
            return true;
        }
        i = i + 1;
    }
    false
}

/// What resolving the status gives (see [`resolve_effective_reverse_proxy_status`]).
pub open spec fn resolved_status(
    r: ReverseProxyStatus,
    local: ReverseProxyStatus,
    primary: Seq<bool>,
    fallback: Seq<bool>,
    last_error: Option<Seq<char>>,
) -> bool {
    &&& local.running ==> ({
        &&& r.running == local.running
        &&& r.bind_port == local.bind_port
        &&& r.using_fallback_port == local.using_fallback_port
        &&& r.note == local.note
        &&& r.listener_count == local.listener_count
        &&& r.endpoint_listener_count == local.endpoint_listener_count
        &&& r.source@ == if trim(local.source@).len() == 0 || local.source@ == "none"@ {
            "in_process"@
        } else {
            local.source@
        }
        &&& r.last_error is None
    })
    &&& !local.running && any_true(primary) ==> probed_status_ok(r, PROXY_PRIMARY_PORT)
    &&& !local.running && !any_true(primary) && any_true(fallback) ==> probed_status_ok(
        r,
        PROXY_FALLBACK_PORT,
    )
    &&& !local.running && !any_true(primary) && !any_true(fallback) ==> ({
        &&& !r.running
        &&& r.bind_port == 0
        &&& !r.using_fallback_port
        &&& r.note is None
        &&& r.listener_count == 0
        &&& r.endpoint_listener_count == 0
        &&& r.source@ == "none"@
        &&& opt_view(r.last_error) == last_error
    })
}

/// The effective status: a running local proxy as reported (its source
/// defaulted to `in_process`, its error cleared); otherwise a proxy found on
/// port 80, then on the fallback port; otherwise not running, with
/// `last_error`. `primary[i]` and `fallback[i]` are the results of probing
/// the `i`-th route host on the two ports.
pub fn resolve_effective_reverse_proxy_status(
    local: ReverseProxyStatus,
    primary: &Vec<bool>,
    fallback: &Vec<bool>,
    last_error: Option<String>,
) -> (r: ReverseProxyStatus)
    ensures
        resolved_status(r, local, primary@, fallback@, opt_view(last_error)),
{
    let mut local = local;
    if local.running {
        let src = chars_of(local.source.as_str());
        if trim_chars(&src).len() == 0 || crate::text::str_eq_chars("none", &src) {
            local.source = string_of(&chars_of("in_process"));
        }
        local.last_error = None;
        return local;
    }
    if any_true_exec(primary) {
        return probed_status(PROXY_PRIMARY_PORT);
    }
    if any_true_exec(fallback) {
        return probed_status(PROXY_FALLBACK_PORT);
    }
    let mut status = ReverseProxyStatus::default();
    status.last_error = last_error;
    status
}

/// The status to report: the local one when it runs; else a running
/// sidecar's; else what probing found (with the sidecar's error, if any).
pub fn effective_reverse_proxy_status(
    local: ReverseProxyStatus,
    sidecar: Option<ReverseProxyStatus>,
    primary: &Vec<bool>,
    fallback: &Vec<bool>,
) -> (r: ReverseProxyStatus)
    ensures
        local.running ==> resolved_status(r, local, seq![], seq![], None),
        !local.running && sidecar is Some && sidecar.unwrap().running ==> r == sidecar.unwrap(),
        !local.running && !(sidecar is Some && sidecar.unwrap().running) ==> resolved_status(
            r,
            local,
            primary@,
            fallback@,
            match sidecar {
                Some(s) => opt_view(s.last_error),
                None => None,
            },
        ),
{
    if local.running {
        let empty: Vec<bool> = Vec::new();
        return resolve_effective_reverse_proxy_status(local, &empty, &empty, None);
    }
    match sidecar {
        Some(s) => {
            if s.running {
                return s;
            }
            resolve_effective_reverse_proxy_status(local, primary, fallback, s.last_error)
        },
        None => resolve_effective_reverse_proxy_status(local, primary, fallback, None),
    }
}

/// The URL of a host behind the proxy: `http://host` on port 80,
/// `http://host:port` otherwise; none while the proxy is not running.
pub open spec fn url_for(status: ReverseProxyStatus, host: Seq<char>) -> Option<Seq<char>> {
    if !status.running {
        None
    } else if status.bind_port == PROXY_PRIMARY_PORT {
        Some("http://"@ + host)
    } else {
        Some("http://"@ + host + ":"@ + dec_chars(status.bind_port as nat))
    }
}

/// The URL under which the proxy serves `host`.
pub fn reverse_proxy_url_for_host(status: &ReverseProxyStatus, host: &str) -> (r: Option<String>)
    ensures
        opt_view(r) == url_for(*status, host@),
{
    if !status.running {
        return None;
    }
    let mut out = chars_of("http://");
    append_str(&mut out, host);
    if status.bind_port != PROXY_PRIMARY_PORT {
        append_str(&mut out, ":");
        append_chars(&mut out, &u64_chars(status.bind_port as u64));
    }
    Some(string_of(&out))
}

/// The URL of `host` by the effective status.
pub fn effective_reverse_proxy_url_for_host(effective: &ReverseProxyStatus, host: &str) -> (r:
    Option<String>)
    ensures
        opt_view(r) == url_for(*effective, host@),
{
    reverse_proxy_url_for_host(effective, host)
}

/// What the proxy state of this process holds.
#[derive(Debug, Clone)]
pub struct ReverseProxyState {
    pub http_listener_started: bool,
    pub started_endpoint_listeners: usize,
    pub base_note: Option<String>,
    pub status: ReverseProxyStatus,
    pub proxy_traffic_max_events: usize,
}

/// The status of the proxy run by this process.
pub fn reverse_proxy_status(state: &ReverseProxyState) -> (r: ReverseProxyStatus)
    ensures
        r == state.status,
{
    let s = &state.status;
    ReverseProxyStatus {
        running: s.running,
        bind_port: s.bind_port,
        using_fallback_port: s.using_fallback_port,
        note: match &s.note {
            Some(n) => Some(n.clone()),
            None => None,
        },
        listener_count: s.listener_count,
        endpoint_listener_count: s.endpoint_listener_count,
        source: s.source.clone(),
        last_error: match &s.last_error {
            Some(n) => Some(n.clone()),
            None => None,
        },
    }
}

/// The notes of the proxy: the note from binding its HTTP listener, then
/// those from starting the endpoint listeners.
pub open spec fn status_notes(base: Option<Seq<char>>, endpoint_notes: Seq<Seq<char>>) -> Seq<Seq<char>> {
    match base {
        Some(b) => seq![b] + endpoint_notes,
        None => endpoint_notes,
    }
}

/// After a sync the state's status says: running when any listener runs,
/// the listener counts, the notes joined by spaces (none without notes),
/// source `in_process`, no error; the port and fallback flag are kept.
pub open spec fn synced_status(
    r: ReverseProxyStatus,
    old_status: ReverseProxyStatus,
    http_started: bool,
    endpoint_listeners: usize,
    base: Option<Seq<char>>,
    endpoint_notes: Seq<Seq<char>>,
) -> bool {
    let notes = status_notes(base, endpoint_notes);
    let http: nat = if http_started { 1 } else { 0 };
    &&& r.running == (http_started || endpoint_listeners > 0)
    &&& r.bind_port == old_status.bind_port
    &&& r.using_fallback_port == old_status.using_fallback_port
    &&& r.endpoint_listener_count == endpoint_listeners
    &&& r.listener_count as int == if http + endpoint_listeners > usize::MAX {
        usize::MAX as int
    } else {
        http + endpoint_listeners
    }
    &&& opt_view(r.note) == if notes.len() == 0 {
        None
    } else {
        Some(join(notes, " "@))
    }
    &&& r.source@ == "in_process"@
    &&& r.last_error is None
}

/// Sets the status of this process's proxy after its listeners were synced
/// (`endpoint_notes` are the notes from starting endpoint listeners) and
/// returns it.
pub fn record_synced_status(state: &mut ReverseProxyState, endpoint_notes: &Vec<String>) -> (r:
    ReverseProxyStatus)
    ensures
        synced_status(
            final(state).status,
            old(state).status,
            old(state).http_listener_started,
            old(state).started_endpoint_listeners,
            opt_view(old(state).base_note),
            str_views(endpoint_notes@),
        ),
        r == final(state).status,
        final(state).http_listener_started == old(state).http_listener_started,
        final(state).started_endpoint_listeners == old(state).started_endpoint_listeners,
        final(state).base_note == old(state).base_note,
        final(state).proxy_traffic_max_events == old(state).proxy_traffic_max_events,
{
    let mut pieces: Vec<Vec<char>> = Vec::new();
    match &state.base_note {
        Some(b) => pieces.push(chars_of(b.as_str())),
        None => {},
    }
    let ghost head = views(pieces@);
    let mut i: usize = 0;
    while i < endpoint_notes.len()
        invariant
            i <= endpoint_notes@.len(),
            views(pieces@) == head + str_views(endpoint_notes@).take(i as int),
        decreases endpoint_notes.len() - i,
    {
        let ghost before = views(pieces@);
        let piece = chars_of(endpoint_notes[i].as_str());
        pieces.push(piece);
        assert(views(pieces@) =~= before.push(endpoint_notes@[i as int]@));
        assert(str_views(endpoint_notes@).take(i + 1) =~= str_views(endpoint_notes@).take(i as int).push(
            endpoint_notes@[i as int]@,
        ));
        assert(views(pieces@) =~= head + str_views(endpoint_notes@).take(i + 1));
        i = i + 1;
    }
    assert(str_views(endpoint_notes@).take(endpoint_notes@.len() as int) =~= str_views(endpoint_notes@));
    assert(views(pieces@) =~= status_notes(opt_view(state.base_note), str_views(endpoint_notes@))) by {
        match state.base_note {
            Some(b) => {
                assert(head =~= seq![b@]);
            },
            None => {
                assert(head =~= Seq::<Seq<char>>::empty());
            },
        }
    }
    let note = if pieces.len() == 0 {
        None
    } else {
        Some(string_of(&join_chars(&pieces, &chars_of(" "))))
    };
    let http: usize = if state.http_listener_started {
        1
    } else {
        0
    };
    let count = state.started_endpoint_listeners;
    state.status.running = state.http_listener_started || count > 0;
    state.status.endpoint_listener_count = count;
    state.status.listener_count = if count == usize::MAX {
        if http == 1 {
            usize::MAX
        } else {
            count
        }
    } else {
        count + http
    };
    state.status.note = note;
    state.status.source = string_of(&chars_of("in_process"));
    state.status.last_error = None;
    reverse_proxy_status(state)
}

/// Where the HTTP listener ends up: port 80; the fallback port, with a note,
/// when 80 could not be bound; an error when neither could.
pub open spec fn bind_choice(primary_error: Option<Seq<char>>, fallback_error: Option<Seq<char>>) -> Result<
    (u16, bool, Option<Seq<char>>),
    Seq<char>,
> {
    match primary_error {
        None => Ok((PROXY_PRIMARY_PORT, false, None)),
        Some(p) => match fallback_error {
            None => Ok(
                (
                    PROXY_FALLBACK_PORT,
                    true,
                    Some("Proxy could not bind :80 ("@ + p + "). Using fallback :18080."@),
                ),
            ),
            Some(f) => Err(
                "Failed to start reverse proxy. Could not bind :80 ("@ + p + ") or :18080 ("@ + f
                    + ")."@,
            ),
        },
    }
}

/// Decides where the HTTP listener ends up, given why binding port 80 failed
/// (if it did) and then why binding the fallback port failed (if it was tried
/// and failed).
pub fn proxy_bind_choice(primary_error: Option<&str>, fallback_error: Option<&str>) -> (r: Result<
    (u16, bool, Option<String>),
    String,
>)
    ensures
        match bind_choice(
            match primary_error {
                Some(e) => Some(e@),
                None => None,
            },
            match fallback_error {
                Some(e) => Some(e@),
                None => None,
            },
        ) {
            Ok((port, fallback, note)) => r matches Ok((p2, f2, n2)) && p2 == port && f2 == fallback
                && opt_view(n2) == note,
            Err(e) => r matches Err(x) && x@ == e,
        },
{
    let p = match primary_error {
        None => return Ok((PROXY_PRIMARY_PORT, false, None)),
        Some(p) => p,
    };
    match fallback_error {
        None => {
            let mut m = chars_of("Proxy could not bind :80 (");
            append_str(&mut m, p);
            append_str(&mut m, "). Using fallback :18080.");
            Ok((PROXY_FALLBACK_PORT, true, Some(string_of(&m))))
        },
        Some(f) => {
            let mut m = chars_of("Failed to start reverse proxy. Could not bind :80 (");
            append_str(&mut m, p);
            append_str(&mut m, ") or :18080 (");
            append_str(&mut m, f);
            append_str(&mut m, ").");
            Err(string_of(&m))
        },
    }
}

/// A status report written by a sidecar process.
#[derive(Debug, Clone)]
pub struct ReverseProxySidecarStatusFile {
    pub pid: u32,
    pub updated_at_unix_ms: u64,
    pub status: ReverseProxyStatus,
    pub last_error: Option<String>,
}

/// A sidecar report is used when it is fresh and its process lives: its
/// status, marked `sidecar`, with the report's error when the status has none.
pub fn sidecar_status_from_record(
    record: ReverseProxySidecarStatusFile,
    now_unix_ms: u64,
    pid_alive: bool,
) -> (r: Option<ReverseProxyStatus>)
    ensures
        (now_unix_ms - record.updated_at_unix_ms > PROXY_SIDECAR_STATUS_TTL_MS || !pid_alive)
            ==> r is None,
        !(now_unix_ms - record.updated_at_unix_ms > PROXY_SIDECAR_STATUS_TTL_MS || !pid_alive)
            ==> r is Some && r.unwrap().running == record.status.running && r.unwrap().bind_port
            == record.status.bind_port && r.unwrap().source@ == "sidecar"@ && opt_view(
            r.unwrap().last_error,
        ) == match record.status.last_error {
            Some(e) => Some(e@),
            None => opt_view(record.last_error),
        },
{
    let age = if now_unix_ms > record.updated_at_unix_ms {
        now_unix_ms - record.updated_at_unix_ms
    } else {
        0
    };
    if age > PROXY_SIDECAR_STATUS_TTL_MS {
        return None;
    }
    if !pid_alive {
        return None;
    }
    let mut status = record.status;
    status.source = string_of(&chars_of("sidecar"));
    if status.last_error.is_none() {
        status.last_error = record.last_error;
    }
    Some(status)
}

/// The status a sidecar records: marked `sidecar`, with the given error.
pub fn record_reverse_proxy_sidecar_status(
    status: &ReverseProxyStatus,
    last_error: Option<String>,
    pid: u32,
    now_unix_ms: u64,
) -> (r: ReverseProxySidecarStatusFile)
    ensures
        r.pid == pid,
        r.updated_at_unix_ms == now_unix_ms,
        r.status.running == status.running,
        r.status.bind_port == status.bind_port,
        r.status.source@ == "sidecar"@,
        opt_view(r.status.last_error) == opt_view(last_error),
        opt_view(r.last_error) == opt_view(last_error),
{
    let mut s = reverse_proxy_status_copy(status);
    s.source = string_of(&chars_of("sidecar"));
    let e2 = match &last_error {
        Some(e) => Some(e.clone()),
        None => None,
    };
    s.last_error = e2;
    ReverseProxySidecarStatusFile { pid, updated_at_unix_ms: now_unix_ms, status: s, last_error }
}

fn reverse_proxy_status_copy(s: &ReverseProxyStatus) -> (r: ReverseProxyStatus)
    ensures
        r == *s,
{
    ReverseProxyStatus {
        running: s.running,
        bind_port: s.bind_port,
        using_fallback_port: s.using_fallback_port,
        note: match &s.note {
            Some(n) => Some(n.clone()),
            None => None,
        },
        listener_count: s.listener_count,
        endpoint_listener_count: s.endpoint_listener_count,
        source: s.source.clone(),
        last_error: match &s.last_error {
            Some(n) => Some(n.clone()),
            None => None,
        },
    }
}

/// A cleared sidecar report: nothing is kept.
pub fn clear_reverse_proxy_sidecar_status() -> (r: Option<ReverseProxySidecarStatusFile>)
    ensures
        r is None,
{
    None
}

/// The hosts probed for a running proxy: the route hosts, ascending.
pub fn proxy_probe_hosts(routes: &RouteTable) -> (r: Vec<String>)
    ensures
        crate::proto::sorted_strict(crate::text::str_views(r@)),
        forall|h: Seq<char>| crate::text::str_views(r@).contains(h) <==> exists|i: int|
            0 <= i < routes.table().len() && routes.table()[i].0 == h,
{
    let hosts = routes.hosts();
    let mut out: Vec<String> = Vec::new();
    let mut i: usize = 0;
    let ghost hv = crate::text::str_views(hosts@);
    while i < hosts.len()
        invariant
            i <= hosts@.len(),
            hv == crate::text::str_views(hosts@),
            hv == routes.table().map_values(|e: (Seq<char>, crate::routes::RouteView)| e.0),
            crate::proto::sorted_strict(crate::text::str_views(out@)),
            forall|h: Seq<char>| crate::text::str_views(out@).contains(h) <==> exists|k: int|
                0 <= k < i && hv[k] == h,
        decreases hosts.len() - i,
    {
        let ghost before = crate::text::str_views(out@);
        crate::proto::insert_sorted(&mut out, hosts[i].clone());
        proof {
            assert forall|h: Seq<char>| crate::text::str_views(out@).contains(h) <==> exists|k: int|
                0 <= k < i + 1 && hv[k] == h by {
                if h == hv[i as int] {
                    assert(hv[i as int] == hosts@[i as int]@);
                }
                if exists|k: int| 0 <= k < i + 1 && hv[k] == h {
                    let k = choose|k: int| 0 <= k < i + 1 && hv[k] == h;
                    if k == i {
                        assert(hosts@[i as int]@ == h);
                    }
                }
            }
        }
        i = i + 1;
    }
    proof {
        assert(hv.len() == hosts@.len());
        assert(hv.len() == routes.table().len());
        assert forall|k: int| 0 <= k < hv.len() implies hv[k] == #[trigger] routes.table()[k].0 by {}
        assert forall|h: Seq<char>| crate::text::str_views(out@).contains(h) <==> exists|i: int|
            0 <= i < routes.table().len() && routes.table()[i].0 == h by {
            if exists|k: int| 0 <= k < hosts@.len() && hv[k] == h {
                let k = choose|k: int| 0 <= k < hosts@.len() && hv[k] == h;
                assert(routes.table()[k].0 == h);
            }
            if exists|i: int| 0 <= i < routes.table().len() && routes.table()[i].0 == h {
                let k = choose|i: int| 0 <= i < routes.table().len() && routes.table()[i].0 == h;
                assert(hv[k] == h);
            }
        }
    }
    out
}

} // verus!
