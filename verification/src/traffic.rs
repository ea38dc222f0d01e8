//! The traffic log: recorded exchanges kept in memory, merged with those
//! persisted to daily files, and the bookkeeping of the files.

use vstd::prelude::*;
use crate::http_meta::ProxyTrafficHeader;
use crate::routes::opt_view;
use crate::text::{
    append_chars, append_str, chars_eq, chars_of, dec_chars, eq_ignore_case, eq_ignore_case_chars,
    replace_char, replace_char_chars, split_once, split_once_chars, split_pred, split_char_chars,
    starts_with, starts_with_str, ends_with, ends_with_str, string_of, trim, trim_chars, u64_chars,
    views, is_char, copy_range,
};

verus! {

/// One recorded exchange.
#[derive(Debug, Clone, PartialEq, Eq)]
pub struct ProxyTrafficEvent {
    pub id: u64,
    pub started_at_utc: String,
    pub project_name: String,
    pub service_name: String,
    pub protocol: String,
    pub host: String,
    pub method: String,
    pub path: String,
    pub status_code: Option<u16>,
    pub stream_id: Option<u32>,
    pub grpc_service: Option<String>,
    pub grpc_method: Option<String>,
    pub grpc_status: Option<i32>,
    pub grpc_message: Option<String>,
    pub duration_ms: u64,
    pub request_bytes: u64,
    pub response_bytes: u64,
    pub request_header_bytes: u64,
    pub request_body_bytes: u64,
    pub response_header_bytes: u64,
    pub response_body_bytes: u64,
    pub request_headers: Vec<ProxyTrafficHeader>,
    pub response_headers: Vec<ProxyTrafficHeader>,
    pub request_body_preview: Option<String>,
    pub response_body_preview: Option<String>,
    pub request_body_truncated: bool,
    pub response_body_truncated: bool,
    pub request_body_binary: bool,
    pub response_body_binary: bool,
    pub error: Option<String>,
}

/// How much the traffic files hold.
#[derive(Debug, Clone, PartialEq, Eq)]
pub struct ProxyTrafficDiskStats {
    pub dropped_events: u64,
    pub total_files: usize,
    pub total_bytes: u64,
}

// ---------------------------------------------------------------------------
// Identity of an event
// ---------------------------------------------------------------------------

/// `id|started|project|service|method|path|status`, the key by which the
/// same event read twice is recognized.
pub open spec fn dedupe_key(e: ProxyTrafficEvent) -> Seq<char> {
    dec_chars(e.id as nat) + "|"@ + e.started_at_utc@ + "|"@ + e.project_name@ + "|"@
        + e.service_name@ + "|"@ + e.method@ + "|"@ + e.path@ + "|"@ + dec_chars(
        match e.status_code {
            Some(c) => c as nat,
            None => 0,
        },
    )
}

/// The key by which an event is recognized when logs are merged.
pub fn proxy_traffic_dedupe_key(event: &ProxyTrafficEvent) -> (r: String)
    ensures
        r@ == dedupe_key(*event),
{
    let mut k = u64_chars(event.id);
    append_str(&mut k, "|");
    append_str(&mut k, event.started_at_utc.as_str());
    append_str(&mut k, "|");
    append_str(&mut k, event.project_name.as_str());
    append_str(&mut k, "|");
    append_str(&mut k, event.service_name.as_str());
    append_str(&mut k, "|");
    append_str(&mut k, event.method.as_str());
    append_str(&mut k, "|");
    append_str(&mut k, event.path.as_str());
    append_str(&mut k, "|");
    let status: u64 = match event.status_code {
        Some(c) => c as u64,
        None => 0,
    };
    append_chars(&mut k, &u64_chars(status));
    string_of(&k)
}

/// An event as plain values: texts as characters, header lists as sequences.
pub struct TrafficEventView {
    pub id: u64,
    pub started_at_utc: Seq<char>,
    pub project_name: Seq<char>,
    pub service_name: Seq<char>,
    pub protocol: Seq<char>,
    pub host: Seq<char>,
    pub method: Seq<char>,
    pub path: Seq<char>,
    pub status_code: Option<u16>,
    pub stream_id: Option<u32>,
    pub grpc_service: Option<Seq<char>>,
    pub grpc_method: Option<Seq<char>>,
    pub grpc_status: Option<i32>,
    pub grpc_message: Option<Seq<char>>,
    pub duration_ms: u64,
    pub request_bytes: u64,
    pub response_bytes: u64,
    pub request_header_bytes: u64,
    pub request_body_bytes: u64,
    pub response_header_bytes: u64,
    pub response_body_bytes: u64,
    pub request_headers: Seq<ProxyTrafficHeader>,
    pub response_headers: Seq<ProxyTrafficHeader>,
    pub request_body_preview: Option<Seq<char>>,
    pub response_body_preview: Option<Seq<char>>,
    pub request_body_truncated: bool,
    pub response_body_truncated: bool,
    pub request_body_binary: bool,
    pub response_body_binary: bool,
    pub error: Option<Seq<char>>,
}

impl View for ProxyTrafficEvent {
    type V = TrafficEventView;

    open spec fn view(&self) -> TrafficEventView {
        TrafficEventView {
            id: self.id,
            started_at_utc: self.started_at_utc@,
            project_name: self.project_name@,
            service_name: self.service_name@,
            protocol: self.protocol@,
            host: self.host@,
            method: self.method@,
            path: self.path@,
            status_code: self.status_code,
            stream_id: self.stream_id,
            grpc_service: opt_view(self.grpc_service),
            grpc_method: opt_view(self.grpc_method),
            grpc_status: self.grpc_status,
            grpc_message: opt_view(self.grpc_message),
            duration_ms: self.duration_ms,
            request_bytes: self.request_bytes,
            response_bytes: self.response_bytes,
            request_header_bytes: self.request_header_bytes,
            request_body_bytes: self.request_body_bytes,
            response_header_bytes: self.response_header_bytes,
            response_body_bytes: self.response_body_bytes,
            request_headers: self.request_headers@,
            response_headers: self.response_headers@,
            request_body_preview: opt_view(self.request_body_preview),
            response_body_preview: opt_view(self.response_body_preview),
            request_body_truncated: self.request_body_truncated,
            response_body_truncated: self.response_body_truncated,
            request_body_binary: self.request_body_binary,
            response_body_binary: self.response_body_binary,
            error: opt_view(self.error),
        }
    }
}

fn copy_headers(v: &Vec<ProxyTrafficHeader>) -> (r: Vec<ProxyTrafficHeader>)
    ensures
        r@ == v@,
{
    let mut r: Vec<ProxyTrafficHeader> = Vec::new();
    let mut i: usize = 0;
    while i < v.len()
        invariant
            i <= v@.len(),
            r@ == v@.take(i as int),
        decreases v.len() - i,
    {
        r.push(ProxyTrafficHeader { name: v[i].name.clone(), value: v[i].value.clone() });
        assert(r@ =~= v@.take(i + 1));
        i = i + 1;
    }
    assert(v@.take(v@.len() as int) =~= v@);
    r
}

fn copy_text(o: &Option<String>) -> (r: Option<String>)
    ensures
        r == *o,
{
    match o {
        Some(s) => Some(s.clone()),
        None => None,
    }
}

/// A copy of an event, equal to it in every field.
pub fn copy_event(e: &ProxyTrafficEvent) -> (r: ProxyTrafficEvent)
    ensures
        r@ == e@,
        dedupe_key(r) == dedupe_key(*e),
{
    ProxyTrafficEvent {
        id: e.id,
        started_at_utc: e.started_at_utc.clone(),
        project_name: e.project_name.clone(),
        service_name: e.service_name.clone(),
        protocol: e.protocol.clone(),
        host: e.host.clone(),
        method: e.method.clone(),
        path: e.path.clone(),
        status_code: e.status_code,
        stream_id: e.stream_id,
        grpc_service: copy_text(&e.grpc_service),
        grpc_method: copy_text(&e.grpc_method),
        grpc_status: e.grpc_status,
        grpc_message: copy_text(&e.grpc_message),
        duration_ms: e.duration_ms,
        request_bytes: e.request_bytes,
        response_bytes: e.response_bytes,
        request_header_bytes: e.request_header_bytes,
        request_body_bytes: e.request_body_bytes,
        response_header_bytes: e.response_header_bytes,
        response_body_bytes: e.response_body_bytes,
        request_headers: copy_headers(&e.request_headers),
        response_headers: copy_headers(&e.response_headers),
        request_body_preview: copy_text(&e.request_body_preview),
        response_body_preview: copy_text(&e.response_body_preview),
        request_body_truncated: e.request_body_truncated,
        response_body_truncated: e.response_body_truncated,
        request_body_binary: e.request_body_binary,
        response_body_binary: e.response_body_binary,
        error: copy_text(&e.error),
    }
}

// ---------------------------------------------------------------------------
// The in-memory store
// ---------------------------------------------------------------------------

/// The most recent events, oldest first, and the last id given out.
#[derive(Debug, Clone)]
pub struct ProxyTrafficStore {
    pub next_id: u64,
    pub events: Vec<ProxyTrafficEvent>,
}

/// The events kept when `e` is added to `events` with room for `max`.
pub open spec fn kept_events(events: Seq<ProxyTrafficEvent>, e: ProxyTrafficEvent, max: nat) -> Seq<
    ProxyTrafficEvent,
> {
    let all = events.push(e);
    if all.len() > max {
        all.skip(all.len() - max)
    } else {
        all
    }
}

impl ProxyTrafficStore {
    pub fn new() -> (s: Self)
        ensures
            s.next_id == 0,
            s.events@.len() == 0,
    {
        ProxyTrafficStore { next_id: 0, events: Vec::new() }
    }
}

/// Records an event: it gets the next id (wrapping), and the oldest events
/// are dropped beyond `max_events`.
pub fn push_proxy_traffic_event(
    store: &mut ProxyTrafficStore,
    event: ProxyTrafficEvent,
    max_events: usize,
)
    ensures
        final(store).next_id == (if old(store).next_id == u64::MAX {
            0
        } else {
            old(store).next_id + 1
        }),
        final(store).events@ == kept_events(
            old(store).events@,
            ProxyTrafficEvent { id: final(store).next_id, ..event },
            max_events as nat,
        ),
        final(store).events@.len() <= max_events,
{
    store.next_id = if store.next_id == u64::MAX {
        0
    } else {
        store.next_id + 1
    };
    let mut event = event;
    event.id = store.next_id;
    let ghost nid = store.next_id;
    let ghost all = store.events@.push(event);
    store.events.push(event);
    let ghost mut dropped: int = 0;
    while store.events.len() > max_events
        invariant
            all.len() > 0,
            store.next_id == nid,
            0 <= dropped <= all.len(),
            store.events@ == all.skip(dropped),
            store.events@.len() + max_events >= max_events,
            dropped > 0 ==> all.len() - dropped >= max_events,
        decreases store.events.len(),
    {
        store.events.remove(0);
        proof {
            assert(all.skip(dropped).drop_first() =~= all.skip(dropped + 1));
            dropped = dropped + 1;
        }
    }
    proof {
        if all.len() > max_events {
            assert(dropped == all.len() - max_events);
        } else {
            assert(dropped == 0);
            assert(all.skip(0) =~= all);
        }
    }
}

/// The events of `project`, newest first.
pub open spec fn recent_for(events: Seq<ProxyTrafficEvent>, project: Seq<char>) -> Seq<
    ProxyTrafficEvent,
>
    decreases events.len(),
{
    if events.len() == 0 {
        seq![]
    } else {
        (if events.last().project_name@ == project {
            seq![events.last()]
        } else {
            seq![]
        }) + recent_for(events.drop_last(), project)
    }
}

/// How many events a query with `limit` returns at most (a zero limit still
/// returns the newest match).
pub open spec fn effective_limit(limit: nat) -> nat {
    if limit == 0 {
        1
    } else {
        limit
    }
}

/// The first `n` of a list, or all of it.
pub open spec fn first_n<T>(s: Seq<T>, n: nat) -> Seq<T> {
    if s.len() <= n {
        s
    } else {
        s.take(n as int)
    }
}

/// The newest events of a project in memory, newest first, at most `limit`.
pub fn proxy_traffic_events_for_project(
    store: &ProxyTrafficStore,
    project_name: &str,
    limit: usize,
) -> (r: Vec<ProxyTrafficEvent>)
    ensures
        r@.len() == first_n(recent_for(store.events@, project_name@), effective_limit(limit as nat)).len(),
        forall|i: int|
            0 <= i < r@.len() ==> (#[trigger] r@[i])@ == recent_for(store.events@, project_name@)[i]@
                && dedupe_key(r@[i]) == dedupe_key(recent_for(store.events@, project_name@)[i]),
{
    let ghost evs = store.events@;
    let ghost want = recent_for(evs, project_name@);
    let pv = chars_of(project_name);
    let mut out: Vec<ProxyTrafficEvent> = Vec::new();
    let mut i: usize = store.events.len();
    assert(evs.take(evs.len() as int) =~= evs);
    assert(want =~= want.take(0) + recent_for(evs.take(i as int), project_name@));
    while i > 0
        invariant
            i <= evs.len(),
            evs == store.events@,
            pv@ == project_name@,
            want == recent_for(evs, project_name@),
            out@.len() < effective_limit(limit as nat),
            out@.len() <= want.len(),
            want == want.take(out@.len() as int) + recent_for(evs.take(i as int), project_name@),
            forall|k: int|
                0 <= k < out@.len() ==> (#[trigger] out@[k])@ == want[k]@ && dedupe_key(out@[k])
                    == dedupe_key(want[k]),
        decreases i,
    {
        let e = &store.events[i - 1];
        let ghost o = out@.len();
        assert(evs.take(i as int).last() == evs[i - 1]);
        assert(evs.take(i as int).drop_last() =~= evs.take(i - 1));
        if chars_eq(&chars_of(e.project_name.as_str()), &pv) {
            proof {
                assert(recent_for(evs.take(i as int), project_name@) == seq![evs[i - 1]]
                    + recent_for(evs.take(i - 1), project_name@));
                assert(want[o as int] == evs[i - 1]);
                assert(want.take(o + 1int) =~= want.take(o as int).push(evs[i - 1]));
                assert(want =~= want.take(o + 1int) + recent_for(evs.take(i - 1), project_name@));
            }
            let c = copy_event(e);
            out.push(c);
            if out.len() >= limit {
                proof {
                    assert(out@.len() == effective_limit(limit as nat));
                }
                return out;
            }
        } else {
            proof {
                assert(recent_for(evs.take(i as int), project_name@) =~= recent_for(
                    evs.take(i - 1),
                    project_name@,
                ));
            }
        }
        i = i - 1;
    }
    proof {
        assert(evs.take(0) =~= Seq::<ProxyTrafficEvent>::empty());
        assert(recent_for(evs.take(0), project_name@) =~= Seq::<ProxyTrafficEvent>::empty());
        assert(want.take(out@.len() as int).len() == out@.len());
    }
    out
}


// ---------------------------------------------------------------------------
// Clearing and merging
// ---------------------------------------------------------------------------

/// The events not of `project`, in order.
pub open spec fn without_project(events: Seq<ProxyTrafficEvent>, project: Seq<char>) -> Seq<
    ProxyTrafficEvent,
>
    decreases events.len(),
{
    if events.len() == 0 {
        seq![]
    } else {
        without_project(events.drop_last(), project) + if events.last().project_name@ == project {
            seq![]
        } else {
            seq![events.last()]
        }
    }
}

/// Removes a project's events from memory. Returns how many events were
/// removed in all: those from memory plus `disk_removed` (saturating).
pub fn clear_proxy_traffic_events_for_project(
    store: &mut ProxyTrafficStore,
    project_name: &str,
    disk_removed: usize,
) -> (r: usize)
    ensures
        final(store).next_id == old(store).next_id,
        final(store).events@ == without_project(old(store).events@, project_name@),
        r == if old(store).events@.len() - final(store).events@.len() + disk_removed > usize::MAX {
            usize::MAX as int
        } else {
            old(store).events@.len() - final(store).events@.len() + disk_removed
        },
{
    let pv = chars_of(project_name);
    let ghost evs = store.events@;
    let before = store.events.len();
    let mut kept: Vec<ProxyTrafficEvent> = Vec::new();
    let mut old_events: Vec<ProxyTrafficEvent> = Vec::new();
    std::mem::swap(&mut old_events, &mut store.events);
    let mut reversed: Vec<ProxyTrafficEvent> = Vec::new();
    assert(old_events@ + reversed@.reverse() =~= evs);
    while old_events.len() > 0
        invariant
            old_events@ + reversed@.reverse() == evs,
        decreases old_events.len(),
    {
        let ghost o = old_events@;
        let ghost r0 = reversed@;
        let e = old_events.pop().unwrap();
        reversed.push(e);
        assert(reversed@.reverse() =~= seq![e] + r0.reverse());
        assert(o =~= old_events@.push(e));
        assert(old_events@ + reversed@.reverse() =~= o + r0.reverse());
    }
    assert(reversed@.reverse() =~= evs);
    let mut i: usize = 0;
    assert(evs.take(0) =~= Seq::<ProxyTrafficEvent>::empty());
    assert(evs.skip(0) =~= evs);
    while reversed.len() > 0
        invariant
            i + reversed@.len() == evs.len(),
            before == evs.len(),
            reversed@.reverse() == evs.skip(i as int),
            pv@ == project_name@,
            kept@ == without_project(evs.take(i as int), project_name@),
            kept@.len() <= i,
        decreases reversed.len(),
    {
        let ghost r0 = reversed@;
        let e = reversed.pop().unwrap();
        proof {
            assert(r0 =~= reversed@.push(e));
            assert(r0.reverse() =~= seq![e] + reversed@.reverse());
            assert(evs.skip(i as int)[0] == e);
            assert(evs[i as int] == e);
            assert(evs.skip(i as int).drop_first() =~= evs.skip(i + 1));
            assert(evs.take(i + 1).drop_last() =~= evs.take(i as int));
            assert(evs.take(i + 1).last() == evs[i as int]);
        }
        if !chars_eq(&chars_of(e.project_name.as_str()), &pv) {
            kept.push(e);
        } else {
            assert(kept@ =~= without_project(evs.take(i as int), project_name@) + seq![]);
        }
        i = i + 1;
    }
    assert(evs.take(evs.len() as int) =~= evs);
    store.events = kept;
    let removed = before - store.events.len();
    if removed > usize::MAX - disk_removed {
        usize::MAX
    } else {
        removed + disk_removed
    }
}

pub fn clone_opt(o: &Option<String>) -> (r: Option<String>)
    ensures
        r == *o,
{
    match o {
        Some(s) => Some(s.clone()),
        None => None,
    }
}

pub fn clone_headers(v: &Vec<ProxyTrafficHeader>) -> (r: Vec<ProxyTrafficHeader>)
    ensures
        r@ == v@,
{
    let mut r: Vec<ProxyTrafficHeader> = Vec::new();
    let mut i: usize = 0;
    while i < v.len()
        invariant
            i <= v@.len(),
            r@ == v@.take(i as int),
        decreases v.len() - i,
    {
        let h = ProxyTrafficHeader { name: v[i].name.clone(), value: v[i].value.clone() };
        r.push(h);
        assert(v@.take(i + 1) =~= v@.take(i as int).push(v@[i as int]));
        i = i + 1;
    }
    assert(v@.take(v@.len() as int) =~= v@);
    r
}

/// Clearing a project leaves no event of it, and keeps the others in order.
pub proof fn law_clear_removes_only_project(events: Seq<ProxyTrafficEvent>, project: Seq<char>)
    ensures
        forall|i: int|
            0 <= i < without_project(events, project).len() ==> (#[trigger] without_project(
                events,
                project,
            )[i]).project_name@ != project,
        forall|i: int|
            0 <= i < events.len() && events[i].project_name@ != project ==> without_project(
                events,
                project,
            ).contains(#[trigger] events[i]),
    decreases events.len(),
{
    if events.len() > 0 {
        law_clear_removes_only_project(events.drop_last(), project);
        let prev = without_project(events.drop_last(), project);
        let w = without_project(events, project);
        assert forall|i: int| 0 <= i < w.len() implies (#[trigger] w[i]).project_name@ != project by {
            if i < prev.len() {
                assert(w[i] == prev[i]);
            }
        }
        assert forall|i: int|
            0 <= i < events.len() && events[i].project_name@ != project implies w.contains(
                #[trigger] events[i],
            ) by {
            if i < events.len() - 1 {
                assert(events.drop_last()[i] == events[i]);
                let k = choose|k: int| 0 <= k < prev.len() && prev[k] == events[i];
                assert(w[k] == prev[k]);
            } else {
                assert(w[prev.len() as int] == events[i]);
            }
        }
    }
}

/// An event as merged logs see it: the key by which it is recognized, its
/// service, and all of its content.
pub struct EventId {
    pub key: Seq<char>,
    pub service: Seq<char>,
    pub content: TrafficEventView,
}

pub open spec fn event_id(e: ProxyTrafficEvent) -> EventId {
    EventId { key: dedupe_key(e), service: e.service_name@, content: e@ }
}

pub open spec fn ids(v: Seq<ProxyTrafficEvent>) -> Seq<EventId> {
    v.map_values(|e: ProxyTrafficEvent| event_id(e))
}

/// Lists with the same identities hold the same events.
pub proof fn lemma_ids_content(v: Seq<ProxyTrafficEvent>, c: Seq<EventId>)
    requires
        ids(v) == c,
    ensures
        v.len() == c.len(),
        forall|i: int| 0 <= i < v.len() ==> (#[trigger] v[i])@ == c[i].content,
{
    assert forall|i: int| 0 <= i < v.len() implies (#[trigger] v[i])@ == c[i].content by {
        assert(ids(v)[i] == event_id(v[i]));
    }
}

/// The keys already taken.
pub open spec fn has_key(acc: Seq<EventId>, k: Seq<char>) -> bool {
    exists|i: int| 0 <= i < acc.len() && (#[trigger] acc[i]).key == k
}

/// Appending the candidates (of the service, with a filter) whose key is
/// new, stopping once `limit` is reached (after at least one); also whether
/// it stopped.
pub open spec fn take_new(
    acc: Seq<EventId>,
    cands: Seq<EventId>,
    filter: Option<Seq<char>>,
    limit: nat,
) -> (Seq<EventId>, bool)
    decreases cands.len(),
{
    if cands.len() == 0 {
        (acc, false)
    } else if filter is Some && cands[0].service != filter.unwrap() {
        take_new(acc, cands.drop_first(), filter, limit)
    } else if has_key(acc, cands[0].key) {
        take_new(acc, cands.drop_first(), filter, limit)
    } else if acc.len() + 1 >= limit {
        (acc.push(cands[0]), true)
    } else {
        take_new(acc.push(cands[0]), cands.drop_first(), filter, limit)
    }
}

/// What `proxy_traffic_events_for_project_with_persisted` returns (by
/// identity): the in-memory events of the service first, then persisted
/// ones, each key once, at most `limit` (at least one when there is any).
pub open spec fn merged_ids(
    memory: Seq<EventId>,
    persisted: Seq<EventId>,
    filter: Option<Seq<char>>,
    limit: nat,
) -> Seq<EventId> {
    let first = take_new(seq![], memory, filter, limit);
    if first.1 {
        first.0
    } else {
        take_new(first.0, persisted, None, limit).0
    }
}

/// A service filter, trimmed, when not blank.
pub open spec fn service_filter_of(f: Option<Seq<char>>) -> Option<Seq<char>> {
    match f {
        Some(s) => if trim(s).len() > 0 {
            Some(trim(s))
        } else {
            None
        },
        None => None,
    }
}

fn has_key_exec(acc: &Vec<ProxyTrafficEvent>, k: &Vec<char>) -> (r: bool)
    ensures
        r == has_key(ids(acc@), k@),
{
    let mut i: usize = 0;
    while i < acc.len()
        invariant
            i <= acc@.len(),
            forall|j: int| 0 <= j < i ==> dedupe_key(#[trigger] acc@[j]) != k@,
        decreases acc.len() - i,
    {
        let key = proxy_traffic_dedupe_key(&acc[i]);
        if chars_eq(&chars_of(key.as_str()), k) {
            assert(ids(acc@)[i as int].key == k@);
            return true;
        }
        i = i + 1;
    }
    proof {
        if has_key(ids(acc@), k@) {
            let j = choose|j: int| 0 <= j < ids(acc@).len() && (#[trigger] ids(acc@)[j]).key == k@;
            assert(dedupe_key(acc@[j]) == k@);
        }
    }
    false
}

/// Adds the new candidates to `acc` as `take_new` does.
fn add_new(
    acc: &mut Vec<ProxyTrafficEvent>,
    cands: &Vec<ProxyTrafficEvent>,
    filter: &Option<Vec<char>>,
    limit: usize,
) -> (stopped: bool)
    ensures
        (ids(final(acc)@), stopped) == take_new(
            ids(old(acc)@),
            ids(cands@),
            match filter {
                Some(f) => Some(f@),
                None => None,
            },
            limit as nat,
        ),
{
    let ghost fv = match filter {
        Some(f) => Some(f@),
        None => None::<Seq<char>>,
    };
    let ghost goal = take_new(ids(acc@), ids(cands@), fv, limit as nat);
    let mut i: usize = 0;
    assert(ids(cands@).skip(0) =~= ids(cands@));
    while i < cands.len()
        invariant
            i <= cands@.len(),
            fv == match filter {
                Some(f) => Some(f@),
                None => None::<Seq<char>>,
            },
            goal == take_new(ids(acc@), ids(cands@).skip(i as int), fv, limit as nat),
            goal == take_new(ids(old(acc)@), ids(cands@), fv, limit as nat),
        decreases cands.len() - i,
    {
        let e = &cands[i];
        let ghost rest = ids(cands@).skip(i as int);
        assert(rest[0] == event_id(*e));
        assert(rest.drop_first() =~= ids(cands@).skip(i + 1));
        let included = match filter {
            Some(f) => chars_eq(&chars_of(e.service_name.as_str()), f),
            None => true,
        };
        if included {
            let key = chars_of(proxy_traffic_dedupe_key(e).as_str());
            if !has_key_exec(acc, &key) {
                let ghost before = ids(acc@);
                acc.push(copy_event(e));
                assert(ids(acc@) =~= before.push(event_id(*e)));
                if acc.len() >= limit {
                    assert(take_new(before, rest, fv, limit as nat) == (before.push(rest[0]), true));
                    return true;
                }
            }
        }
        i = i + 1;
    }
    assert(ids(cands@).skip(cands@.len() as int) =~= Seq::<EventId>::empty());
    false
}

/// Merges the in-memory events of a project (newest first, those of the
/// service when a filter is given) with events read from the traffic files
/// (`persisted`, already selected for the project and service), each event
/// once, at most `limit`.
pub fn proxy_traffic_events_for_project_with_persisted(
    store: &ProxyTrafficStore,
    persisted: &Vec<ProxyTrafficEvent>,
    project_name: &str,
    service_filter: Option<&str>,
    limit: usize,
) -> (r: Vec<ProxyTrafficEvent>)
    ensures
        ({
            let filter = service_filter_of(
                match service_filter {
                    Some(s) => Some(s@),
                    None => None,
                },
            );
            let memory = first_n(
                recent_for(store.events@, project_name@),
                effective_limit(limit as nat),
            );
            let merged = merged_ids(ids(memory), ids(persisted@), filter, limit as nat);
            &&& ids(r@) == merged
            &&& r@.len() == merged.len()
            &&& forall|i: int| 0 <= i < r@.len() ==> (#[trigger] r@[i])@ == merged[i].content
        }),
{
    let filter: Option<Vec<char>> = match service_filter {
        Some(s) => {
            let t = trim_chars(&chars_of(s));
            if t.len() > 0 {
                Some(t)
            } else {
                None
            }
        },
        None => None,
    };
    let memory = proxy_traffic_events_for_project(store, project_name, limit);
    proof {
        let want = first_n(recent_for(store.events@, project_name@), effective_limit(limit as nat));
        assert forall|k: int| 0 <= k < memory@.len() implies #[trigger] ids(memory@)[k] == ids(want)[k] by {
            assert(want[k] == recent_for(store.events@, project_name@)[k]);
        }
        assert(ids(memory@) =~= ids(want));
    }
    let mut merged: Vec<ProxyTrafficEvent> = Vec::new();
    assert(ids(merged@) =~= Seq::<EventId>::empty());
    let stopped = add_new(&mut merged, &memory, &filter, limit);
    if stopped {
        return merged;
    }
    let none: Option<Vec<char>> = None;
    add_new(&mut merged, persisted, &none, limit);
    merged
}


/// The events a HAR export holds: as for the merged log, at most 100000.
pub fn export_proxy_traffic_har_for_project(
    store: &ProxyTrafficStore,
    persisted: &Vec<ProxyTrafficEvent>,
    project_name: &str,
    service_filter: Option<&str>,
) -> (r: Vec<ProxyTrafficEvent>)
    ensures
        ({
            let filter = service_filter_of(
                match service_filter {
                    Some(s) => Some(s@),
                    None => None,
                },
            );
            let memory = first_n(recent_for(store.events@, project_name@), 100_000);
            let merged = merged_ids(ids(memory), ids(persisted@), filter, 100_000);
            &&& ids(r@) == merged
            &&& r@.len() == merged.len()
            &&& forall|i: int| 0 <= i < r@.len() ==> (#[trigger] r@[i])@ == merged[i].content
        }),
{
    proxy_traffic_events_for_project_with_persisted(
        store,
        persisted,
        project_name,
        service_filter,
        100_000,
    )
}

// ---------------------------------------------------------------------------
// Traffic files
// ---------------------------------------------------------------------------

/// The traffic files among `names` and their total size.
pub open spec fn traffic_totals(files: Seq<(String, u64)>) -> (nat, nat)
    decreases files.len(),
{
    if files.len() == 0 {
        (0, 0)
    } else {
        let prev = traffic_totals(files.drop_last());
        if crate::clock::traffic_file_day(files.last().0@) is Some {
            (prev.0 + 1, prev.1 + files.last().1 as nat)
        } else {
            prev
        }
    }
}

/// The statistics of the traffic files: `files` lists each file's name and
/// size; only `events-YYYY-MM-DD.jsonl` files count (totals saturate).
pub fn proxy_traffic_disk_stats(dropped_events: u64, files: &Vec<(String, u64)>) -> (r:
    ProxyTrafficDiskStats)
    ensures
        r.dropped_events == dropped_events,
        r.total_bytes as nat == if traffic_totals(files@).1 <= u64::MAX {
            traffic_totals(files@).1
        } else {
            u64::MAX as nat
        },
        r.total_files as nat == if traffic_totals(files@).0 <= usize::MAX {
            traffic_totals(files@).0
        } else {
            usize::MAX as nat
        },
{
    let mut count: usize = 0;
    let mut bytes: u64 = 0;
    let mut i: usize = 0;
    assert(files@.take(0) =~= Seq::<(String, u64)>::empty());
    while i < files.len()
        invariant
            i <= files@.len(),
            count as nat == if traffic_totals(files@.take(i as int)).0 <= usize::MAX {
                traffic_totals(files@.take(i as int)).0
            } else {
                usize::MAX as nat
            },
            bytes as nat == if traffic_totals(files@.take(i as int)).1 <= u64::MAX {
                traffic_totals(files@.take(i as int)).1
            } else {
                u64::MAX as nat
            },
        decreases files.len() - i,
    {
        assert(files@.take(i + 1).drop_last() =~= files@.take(i as int));
        assert(files@.take(i + 1).last() == files@[i as int]);
        if crate::clock::parse_day_from_traffic_filename(files[i].0.as_str()).is_some() {
            count = if count == usize::MAX {
                usize::MAX
            } else {
                count + 1
            };
            bytes = if bytes > u64::MAX - files[i].1 {
                u64::MAX
            } else {
                bytes + files[i].1
            };
        }
        i = i + 1;
    }
    assert(files@.take(files@.len() as int) =~= files@);
    ProxyTrafficDiskStats { dropped_events, total_files: count, total_bytes: bytes }
}

/// The lines of a traffic file kept when a project is cleared: non-blank
/// lines that are not events of the project (`projects[i]` is the project of
/// line `i` when it parses as an event).
pub open spec fn kept_lines(
    lines: Seq<String>,
    projects: Seq<Option<String>>,
    project: Seq<char>,
) -> (Seq<Seq<char>>, nat)
    decreases lines.len(),
{
    if lines.len() == 0 {
        (seq![], 0)
    } else {
        let i = lines.len() - 1;
        let prev = kept_lines(lines.drop_last(), projects, project);
        if trim(lines[i]@).len() == 0 {
            prev
        } else if i < projects.len() && projects[i] is Some && projects[i].unwrap()@ == project {
            (prev.0, prev.1 + 1)
        } else {
            (prev.0.push(lines[i]@), prev.1)
        }
    }
}

/// Splits the lines of a traffic file into those kept and the number of
/// events of `project_name` removed.
pub fn retain_traffic_lines(
    lines: &Vec<String>,
    projects: &Vec<Option<String>>,
    project_name: &str,
) -> (r: (Vec<String>, usize))
    ensures
        (crate::text::str_views(r.0@), r.1 as nat) == kept_lines(lines@, projects@, project_name@),
{
    let pv = chars_of(project_name);
    let mut kept: Vec<String> = Vec::new();
    let mut removed: usize = 0;
    let mut i: usize = 0;
    assert(lines@.take(0) =~= Seq::<String>::empty());
    while i < lines.len()
        invariant
            i <= lines@.len(),
            pv@ == project_name@,
            removed <= i,
            (crate::text::str_views(kept@), removed as nat) == kept_lines(
                lines@.take(i as int),
                projects@,
                project_name@,
            ),
        decreases lines.len() - i,
    {
        assert(lines@.take(i + 1).drop_last() =~= lines@.take(i as int));
        assert(lines@.take(i + 1)[i as int] == lines@[i as int]);
        let line = &lines[i];
        if trim_chars(&chars_of(line.as_str())).len() == 0 {
        } else if i < projects.len() && projects[i].is_some() && chars_eq(
            &chars_of(projects[i].as_ref().unwrap().as_str()),
            &pv,
        ) {
            removed = removed + 1;
        } else {
            let ghost before = crate::text::str_views(kept@);
            kept.push(line.clone());
            assert(crate::text::str_views(kept@) =~= before.push(line@));
        }
        i = i + 1;
    }
    assert(lines@.take(lines@.len() as int) =~= lines@);
    (kept, removed)
}

/// The state of the traffic file writer.
#[derive(Debug, Clone, PartialEq, Eq)]
pub struct ProxyTrafficWriterState {
    pub queue_size: usize,
    pub retention_days: u16,
    pub max_storage_mb: usize,
    pub running: bool,
    pub dropped_events: u64,
}

impl Default for ProxyTrafficWriterState {
    fn default() -> (r: Self)
        ensures
            r.queue_size == 10_000,
            r.retention_days == 7,
            r.max_storage_mb == 500,
            !r.running,
            r.dropped_events == 0,
    {
        ProxyTrafficWriterState {
            queue_size: 10_000,
            retention_days: 7,
            max_storage_mb: 500,
            running: false,
            dropped_events: 0,
        }
    }
}

/// Whether the writer must be (re)started for these settings; when it must,
/// the state takes the settings, counts as running, and its drop count
/// restarts from zero. Returns whether to start a writer.
pub fn ensure_proxy_traffic_writer_running(
    state: &mut ProxyTrafficWriterState,
    queue_size: usize,
    retention_days: u16,
    max_storage_mb: usize,
) -> (restart: bool)
    ensures
        restart == (!old(state).running || old(state).queue_size != queue_size
            || old(state).retention_days != retention_days || old(state).max_storage_mb
            != max_storage_mb),
        restart ==> *final(state) == (ProxyTrafficWriterState {
            queue_size,
            retention_days,
            max_storage_mb,
            running: true,
            dropped_events: 0,
        }),
        !restart ==> *final(state) == *old(state),
{
    let needs = !state.running || state.queue_size != queue_size || state.retention_days
        != retention_days || state.max_storage_mb != max_storage_mb;
    if needs {
        state.queue_size = queue_size;
        state.retention_days = retention_days;
        state.max_storage_mb = max_storage_mb;
        state.running = true;
        state.dropped_events = 0;
    }
    needs
}

/// Counts an event the writer's full queue dropped; returns whether to warn
/// (on the first drop and every hundredth).
pub fn note_dropped_event(state: &mut ProxyTrafficWriterState) -> (warn: bool)
    ensures
        final(state).dropped_events == if old(state).dropped_events == u64::MAX {
            u64::MAX
        } else {
            (old(state).dropped_events + 1) as u64
        },
        warn == (final(state).dropped_events == 1 || final(state).dropped_events % 100 == 0),
        final(state).queue_size == old(state).queue_size,
        final(state).running == old(state).running,
{
    state.dropped_events = if state.dropped_events == u64::MAX {
        u64::MAX
    } else {
        state.dropped_events + 1
    };
    state.dropped_events == 1 || state.dropped_events % 100 == 0
}

// ---------------------------------------------------------------------------
// HAR export
// ---------------------------------------------------------------------------

/// `YYYY-MM-DD HH:MM:SS UTC` becomes `YYYY-MM-DDTHH:MM:SSZ`; other text stays.
pub open spec fn har_time(raw: Seq<char>) -> Seq<char> {
    if ends_with(raw, " UTC"@) {
        replace_char(raw.take(raw.len() - 4), ' ', "T"@) + "Z"@
    } else {
        raw
    }
}

/// The start time of an event in the form HAR uses.
pub fn har_started_at_iso8601(raw: &str) -> (r: String)
    ensures
        r@ == har_time(raw@),
{
    let v = chars_of(raw);
    proof {
        reveal_strlit(" UTC");
    }
    if ends_with_str(&v, " UTC") {
        let stripped = copy_range(&v, 0, v.len() - 4);
        let mut out = replace_char_chars(&stripped, ' ', &chars_of("T"));
        append_str(&mut out, "Z");
        return string_of(&out);
    }
    string_of(&v)
}

/// An absolute path stays; otherwise `http://<host><path>`.
pub open spec fn har_url(host: Seq<char>, path: Seq<char>) -> Seq<char> {
    if starts_with(path, "http://"@) || starts_with(path, "https://"@) {
        path
    } else {
        "http://"@ + host + path
    }
}

/// The URL of an event's request.
pub fn har_url_for_event(event: &ProxyTrafficEvent) -> (r: String)
    ensures
        r@ == har_url(event.host@, event.path@),
{
    let p = chars_of(event.path.as_str());
    if starts_with_str(&p, "http://") || starts_with_str(&p, "https://") {
        return string_of(&p);
    }
    let mut out = chars_of("http://");
    append_str(&mut out, event.host.as_str());
    append_chars(&mut out, &p);
    string_of(&out)
}

/// The value of the first `Content-Type` header, else
/// `application/octet-stream`.
pub open spec fn har_mime(headers: Seq<ProxyTrafficHeader>) -> Seq<char>
    decreases headers.len(),
{
    if headers.len() == 0 {
        "application/octet-stream"@
    } else if eq_ignore_case(headers[0].name@, "content-type"@) {
        headers[0].value@
    } else {
        har_mime(headers.drop_first())
    }
}

/// The MIME type of a message.
pub fn har_mime_type_from_headers(headers: &Vec<ProxyTrafficHeader>) -> (r: String)
    ensures
        r@ == har_mime(headers@),
{
    let ct = chars_of("content-type");
    let mut i: usize = 0;
    assert(headers@.skip(0) =~= headers@);
    while i < headers.len()
        invariant
            i <= headers@.len(),
            ct@ == "content-type"@,
            har_mime(headers@) == har_mime(headers@.skip(i as int)),
        decreases headers.len() - i,
    {
        assert(headers@.skip(i as int)[0] == headers@[i as int]);
        assert(headers@.skip(i as int).drop_first() =~= headers@.skip(i + 1));
        if eq_ignore_case_chars(&chars_of(headers[i].name.as_str()), &ct) {
            return headers[i].value.clone();
        }
        i = i + 1;
    }
    string_of(&chars_of("application/octet-stream"))
}

/// The `name=value` pairs of a query; a pair without `=` has an empty value,
/// and empty pairs are left out.
pub open spec fn query_pairs(path: Seq<char>) -> Seq<(Seq<char>, Seq<char>)> {
    match split_once(path, '?') {
        None => seq![],
        Some((_, query)) => if query.len() == 0 {
            seq![]
        } else {
            pairs_of(split_pred(query, is_char('&')))
        },
    }
}

pub open spec fn pairs_of(parts: Seq<Seq<char>>) -> Seq<(Seq<char>, Seq<char>)>
    decreases parts.len(),
{
    if parts.len() == 0 {
        seq![]
    } else {
        let p = parts.last();
        pairs_of(parts.drop_last()) + if p.len() == 0 {
            seq![]
        } else {
            match split_once(p, '=') {
                Some((k, v)) => seq![(k, v)],
                None => seq![(p, seq![])],
            }
        }
    }
}

/// The query parameters of a recorded path.
pub fn har_query_from_path(path: &str) -> (r: Vec<(String, String)>)
    ensures
        r@.map_values(|x: (String, String)| (x.0@, x.1@)) == query_pairs(path@),
{
    let pv = chars_of(path);
    let mut out: Vec<(String, String)> = Vec::new();
    let query = match split_once_chars(&pv, '?') {
        None => {
            assert(out@.map_values(|x: (String, String)| (x.0@, x.1@)) =~= seq![]);
            return out;
        },
        Some((_, q)) => q,
    };
    if query.len() == 0 {
        assert(out@.map_values(|x: (String, String)| (x.0@, x.1@)) =~= seq![]);
        return out;
    }
    let parts = split_char_chars(&query, '&');
    let ghost ps = views(parts@);
    let mut i: usize = 0;
    assert(ps.take(0) =~= Seq::<Seq<char>>::empty());
    while i < parts.len()
        invariant
            i <= parts@.len(),
            ps == views(parts@),
            out@.map_values(|x: (String, String)| (x.0@, x.1@)) == pairs_of(ps.take(i as int)),
        decreases parts.len() - i,
    {
        assert(ps.take(i + 1).drop_last() =~= ps.take(i as int));
        assert(ps.take(i + 1).last() == parts@[i as int]@);
        let p = &parts[i];
        let ghost before = out@.map_values(|x: (String, String)| (x.0@, x.1@));
        if p.len() > 0 {
            let pair = match split_once_chars(p, '=') {
                Some((k, v)) => (string_of(&k), string_of(&v)),
                None => (string_of(p), String::new()),
            };
            out.push(pair);
            assert(out@.map_values(|x: (String, String)| (x.0@, x.1@)) =~= before.push((pair.0@, pair.1@)));
        } else {
            assert(before + seq![] =~= before);
        }
        i = i + 1;
    }
    assert(ps.take(ps.len() as int) =~= ps);
    out
}

// ---------------------------------------------------------------------------
// Storage clean-up
// ---------------------------------------------------------------------------

/// A traffic file kept after expiry, with its day and size.
#[derive(Debug, Clone, PartialEq, Eq)]
pub struct TrafficFileEntry {
    pub name: String,
    pub day: i64,
    pub size: u64,
}

/// The clean-up of the traffic directory: the files past the retention
/// window, the others from the oldest day on, their total size and the
/// size allowed.
#[derive(Debug, Clone, PartialEq, Eq)]
pub struct TrafficCleanup {
    pub expired: Vec<String>,
    pub kept: Vec<TrafficFileEntry>,
    pub total_bytes: u64,
    pub max_bytes: u64,
}

/// The oldest day kept: `retention_days` days up to today
/// (`current - (retention - 1)`, saturating in `i64`).
pub open spec fn retention_cutoff(current_day: i64, retention_days: u16) -> int {
    let c = current_day - (retention_days - 1);
    if c > i64::MAX {
        i64::MAX as int
    } else if c < i64::MIN {
        i64::MIN as int
    } else {
        c
    }
}

/// The day a traffic file's name carries.
#[verifier::opaque]
pub open spec fn traffic_day_of(name: Seq<char>) -> Option<int> {
    crate::clock::traffic_file_day(name)
}

fn traffic_day(name: &str) -> (r: Option<i64>)
    ensures
        match r {
            Some(d) => traffic_day_of(name@) == Some(d as int),
            None => traffic_day_of(name@) is None,
        },
{
    let r = crate::clock::parse_day_from_traffic_filename(name);
    proof {
        reveal(traffic_day_of);
    }
    r
}

/// An entry as a plain value: name, day, size.
pub open spec fn entry_view(e: TrafficFileEntry) -> (Seq<char>, i64, u64) {
    (e.name@, e.day, e.size)
}

pub open spec fn entry_views(s: Seq<TrafficFileEntry>) -> Seq<(Seq<char>, i64, u64)> {
    s.map_values(|e: TrafficFileEntry| entry_view(e))
}

/// The traffic files among `files` (name and size) split into the names of
/// those older than `cutoff` and the (name, day, size) of the others, in
/// order.
pub open spec fn cleanup_split(files: Seq<(String, u64)>, cutoff: int) -> (Seq<Seq<char>>, Seq<(Seq<char>, i64, u64)>)
    decreases files.len(),
{
    if files.len() == 0 {
        (Seq::empty(), Seq::empty())
    } else {
        let prev = cleanup_split(files.drop_last(), cutoff);
        let f = files.last();
        match traffic_day_of(f.0@) {
            None => prev,
            Some(d) => if d < cutoff {
                (prev.0.push(f.0@), prev.1)
            } else {
                (prev.0, prev.1.push((f.0@, d as i64, f.1)))
            },
        }
    }
}

/// `x` placed after every entry whose day is not after its own.
pub open spec fn insert_by_day(sorted: Seq<(Seq<char>, i64, u64)>, x: (Seq<char>, i64, u64)) -> Seq<(Seq<char>, i64, u64)>
    decreases sorted.len(),
{
    if sorted.len() == 0 {
        seq![x]
    } else if x.1 < sorted.last().1 {
        insert_by_day(sorted.drop_last(), x).push(sorted.last())
    } else {
        sorted.push(x)
    }
}

/// A stable sort by day.
pub open spec fn sort_by_day(s: Seq<(Seq<char>, i64, u64)>) -> Seq<(Seq<char>, i64, u64)>
    decreases s.len(),
{
    if s.len() == 0 {
        s
    } else {
        insert_by_day(sort_by_day(s.drop_last()), s.last())
    }
}

/// The total size of the entries.
pub open spec fn total_size(s: Seq<(Seq<char>, i64, u64)>) -> nat
    decreases s.len(),
{
    if s.len() == 0 {
        0
    } else {
        total_size(s.drop_last()) + s.last().2 as nat
    }
}

proof fn lemma_insert_by_day(sorted: Seq<(Seq<char>, i64, u64)>, x: (Seq<char>, i64, u64), pos: int)
    requires
        0 <= pos <= sorted.len(),
        forall|j: int| pos <= j < sorted.len() ==> x.1 < (#[trigger] sorted[j]).1,
        pos == 0 || !(x.1 < sorted[pos - 1].1),
    ensures
        insert_by_day(sorted, x) == sorted.take(pos).push(x) + sorted.skip(pos),
    decreases sorted.len(),
{
    if sorted.len() == 0 {
        assert(sorted.take(pos).push(x) + sorted.skip(pos) =~= seq![x]);
    } else if pos == sorted.len() {
        assert(sorted.take(pos).push(x) + sorted.skip(pos) =~= sorted.push(x));
    } else {
        lemma_insert_by_day(sorted.drop_last(), x, pos);
        assert(sorted.drop_last().take(pos) =~= sorted.take(pos));
        assert((sorted.take(pos).push(x) + sorted.drop_last().skip(pos)).push(sorted.last()) =~= sorted.take(pos).push(x)
            + sorted.skip(pos));
    }
}

/// Days never decrease along the list.
pub open spec fn sorted_by_day(s: Seq<(Seq<char>, i64, u64)>) -> bool {
    forall|i: int, j: int| 0 <= i < j < s.len() ==> (#[trigger] s[i]).1 <= (#[trigger] s[j]).1
}

proof fn lemma_insert_by_day_parts(sorted: Seq<(Seq<char>, i64, u64)>, x: (Seq<char>, i64, u64))
    requires
        sorted_by_day(sorted),
    ensures
        sorted_by_day(insert_by_day(sorted, x)),
        insert_by_day(sorted, x).to_multiset() == sorted.to_multiset().insert(x),
    decreases sorted.len(),
{
    broadcast use vstd::seq_lib::group_to_multiset_ensures;
    if sorted.len() > 0 {
        if x.1 < sorted.last().1 {
            let inner = insert_by_day(sorted.drop_last(), x);
            assert(sorted_by_day(sorted.drop_last()));
            lemma_insert_by_day_parts(sorted.drop_last(), x);
            let r = inner.push(sorted.last());
            assert forall|i: int, j: int| 0 <= i < j < r.len() implies (#[trigger] r[i]).1 <= (#[trigger] r[j]).1 by {
                if j == r.len() - 1 {
                    assert(r[j] == sorted.last());
                    assert(inner.to_multiset().contains(inner[i]));
                    assert(inner.to_multiset().count(inner[i]) > 0);
                    if inner[i] != x {
                        assert(sorted.drop_last().to_multiset().contains(inner[i]));
                        let k = choose|k: int| 0 <= k < sorted.drop_last().len() && sorted.drop_last()[k] == inner[i];
                        assert(sorted[k] == inner[i]);
                    }
                } else {
                    assert(r[i] == inner[i] && r[j] == inner[j]);
                }
            }
            assert(sorted =~= sorted.drop_last().push(sorted.last()));
        } else {
            let r = sorted.push(x);
            assert forall|i: int, j: int| 0 <= i < j < r.len() implies (#[trigger] r[i]).1 <= (#[trigger] r[j]).1 by {
                if j == r.len() - 1 {
                    if i < sorted.len() - 1 {
                        assert(sorted[i].1 <= sorted[sorted.len() - 1].1);
                    }
                } else {
                    assert(r[i] == sorted[i] && r[j] == sorted[j]);
                }
            }
        }
    }
}

/// The kept traffic files come out from the oldest day on, and are the same
/// files as before sorting, each as often.
pub proof fn law_kept_traffic_sorted(s: Seq<(Seq<char>, i64, u64)>)
    ensures
        sorted_by_day(sort_by_day(s)),
        sort_by_day(s).to_multiset() == s.to_multiset(),
    decreases s.len(),
{
    broadcast use vstd::seq_lib::group_to_multiset_ensures;
    if s.len() > 0 {
        law_kept_traffic_sorted(s.drop_last());
        lemma_insert_by_day_parts(sort_by_day(s.drop_last()), s.last());
        assert(s =~= s.drop_last().push(s.last()));
    }
}

fn insert_entry_by_day(out: &mut Vec<TrafficFileEntry>, e: TrafficFileEntry)
    ensures
        entry_views(final(out)@) == insert_by_day(entry_views(old(out)@), entry_view(e)),
{
    let ghost sv = entry_views(out@);
    let mut pos: usize = out.len();
    let mut done = false;
    while pos > 0 && !done
        invariant
            pos <= out@.len(),
            sv == entry_views(out@),
            forall|j: int| pos <= j < out@.len() ==> e.day < (#[trigger] sv[j]).1,
            done ==> pos > 0 && !(e.day < sv[pos - 1].1),
        decreases pos * 2 + if done {
            0int
        } else {
            1int
        },
    {
        assert(sv[pos - 1].1 == out@[pos - 1].day);
        if e.day < out[pos - 1].day {
            pos = pos - 1;
        } else {
            done = true;
        }
    }
    proof {
        lemma_insert_by_day(sv, entry_view(e), pos as int);
    }
    out.insert(pos, e);
    assert(entry_views(out@) =~= sv.take(pos as int).push(entry_view(e)) + sv.skip(pos as int));
}

fn retention_cutoff_of(current_day: i64, retention_days: u16) -> (r: i64)
    ensures
        r as int == retention_cutoff(current_day, retention_days),
{
    let back: i128 = retention_days as i128 - 1;
    let c: i128 = current_day as i128 - back;
    if c > i64::MAX as i128 {
        i64::MAX
    } else if c < i64::MIN as i128 {
        i64::MIN
    } else {
        c as i64
    }
}

proof fn lemma_split_step(files: Seq<(String, u64)>, cutoff: int, i: int)
    requires
        0 <= i < files.len(),
    ensures
        ({
            let prev = cleanup_split(files.take(i), cutoff);
            let next = cleanup_split(files.take(i + 1), cutoff);
            let f = files[i];
            match traffic_day_of(f.0@) {
                None => next == prev,
                Some(d) => if d < cutoff {
                    next == (prev.0.push(f.0@), prev.1)
                } else {
                    next == (prev.0, prev.1.push((f.0@, d as i64, f.1))) && total_size(next.1) == total_size(prev.1)
                        + f.1
                },
            }
        }),
{
    assert(files.take(i + 1).drop_last() =~= files.take(i));
    assert(files.take(i + 1).last() == files[i]);
    let prev = cleanup_split(files.take(i), cutoff);
    let f = files[i];
    match traffic_day_of(f.0@) {
        Some(d) => {
            if d >= cutoff {
                let pushed = prev.1.push((f.0@, d as i64, f.1));
                assert(pushed.drop_last() =~= prev.1);
            }
        },
        None => {},
    }
}

proof fn lemma_split_total_grows(files: Seq<(String, u64)>, cutoff: int, n: int)
    requires
        0 <= n <= files.len(),
    ensures
        total_size(cleanup_split(files.take(n), cutoff).1) <= total_size(cleanup_split(files, cutoff).1),
    decreases files.len() - n,
{
    if n < files.len() {
        lemma_split_total_grows(files, cutoff, n + 1);
        lemma_split_step(files, cutoff, n);
    } else {
        assert(files.take(n) =~= files);
    }
}

/// Whether the files kept by a clean-up add up to a `u64`.
pub fn traffic_cleanup_fits(files: &Vec<(String, u64)>, current_day: i64, retention_days: u16) -> (r: bool)
    ensures
        r == (total_size(cleanup_split(files@, retention_cutoff(current_day, retention_days)).1) <= u64::MAX),
{
    let cutoff = retention_cutoff_of(current_day, retention_days);
    let ghost c = cutoff as int;
    let mut total: u64 = 0;
    let mut i: usize = 0;
    while i < files.len()
        invariant
            i <= files@.len(),
            c == retention_cutoff(current_day, retention_days),
            c == cutoff as int,
            total as nat == total_size(cleanup_split(files@.take(i as int), c).1),
        decreases files.len() - i,
    {
        proof {
            lemma_split_step(files@, c, i as int);
        }
        match traffic_day(files[i].0.as_str()) {
            Some(day) => {
                if day >= cutoff {
                    if files[i].1 > u64::MAX - total {
                        proof {
                            lemma_split_total_grows(files@, c, i + 1);
                        }
                        return false;
                    }
                    total = total + files[i].1;
                }
            },
            None => {},
        }
        i = i + 1;
    }
    assert(files@.take(files@.len() as int) =~= files@);
    true
}

/// Plans the clean-up of the traffic directory from its regular files (name
/// and size): traffic files older than the retention window expire; the
/// others are kept from the oldest day on, against a budget of
/// `max_storage_mb` MiB.
pub fn traffic_cleanup_plan(
    files: &Vec<(String, u64)>,
    current_day: i64,
    retention_days: u16,
    max_storage_mb: usize,
) -> (r: TrafficCleanup)
    requires
        total_size(cleanup_split(files@, retention_cutoff(current_day, retention_days)).1) <= u64::MAX,
    ensures
        ({
            let split = cleanup_split(files@, retention_cutoff(current_day, retention_days));
            &&& crate::text::str_views(r.expired@) == split.0
            &&& entry_views(r.kept@) == sort_by_day(split.1)
            &&& r.total_bytes == total_size(split.1)
            &&& r.max_bytes == if max_storage_mb * 1_048_576 > u64::MAX {
                u64::MAX
            } else {
                (max_storage_mb * 1_048_576) as u64
            }
        }),
{
    let cutoff = retention_cutoff_of(current_day, retention_days);
    let ghost c = cutoff as int;
    let mut expired: Vec<String> = Vec::new();
    let mut kept: Vec<TrafficFileEntry> = Vec::new();
    let mut total: u64 = 0;
    let mut i: usize = 0;
    while i < files.len()
        invariant
            i <= files@.len(),
            c == retention_cutoff(current_day, retention_days),
            c == cutoff as int,
            total_size(cleanup_split(files@, c).1) <= u64::MAX,
            crate::text::str_views(expired@) == cleanup_split(files@.take(i as int), c).0,
            entry_views(kept@) == sort_by_day(cleanup_split(files@.take(i as int), c).1),
            total as nat == total_size(cleanup_split(files@.take(i as int), c).1),
        decreases files.len() - i,
    {
        proof {
            lemma_split_step(files@, c, i as int);
            lemma_split_total_grows(files@, c, i + 1);
        }
        match traffic_day(files[i].0.as_str()) {
            Some(day) => {
                if day < cutoff {
                    let name = files[i].0.clone();
                    expired.push(name);
                    assert(crate::text::str_views(expired@) =~= cleanup_split(files@.take(i + 1), c).0);
                } else {
                    let e = TrafficFileEntry { name: files[i].0.clone(), day, size: files[i].1 };
                    total = total + files[i].1;
                    let ghost prev = cleanup_split(files@.take(i as int), c).1;
                    assert(entry_view(e) == (files@[i as int].0@, day, files@[i as int].1));
                    assert(prev.push(entry_view(e)).drop_last() =~= prev);
                    insert_entry_by_day(&mut kept, e);
                }
            },
            None => {},
        }
        i = i + 1;
    }
    assert(files@.take(files@.len() as int) =~= files@);
    let wide: u128 = (max_storage_mb as u128) * 1_048_576;
    let max_bytes: u64 = if wide > u64::MAX as u128 {
        u64::MAX
    } else {
        wide as u64
    };
    TrafficCleanup { expired, kept, total_bytes: total, max_bytes }
}

/// The next file to evict: the oldest kept one, while the files are over
/// budget and more than one is left.
pub fn next_traffic_eviction(c: &TrafficCleanup) -> (r: Option<String>)
    ensures
        (c.total_bytes > c.max_bytes && c.kept@.len() > 1) ==> (r matches Some(n) && n@ == c.kept@[0].name@),
        !(c.total_bytes > c.max_bytes && c.kept@.len() > 1) ==> r is None,
{
    if c.total_bytes > c.max_bytes && c.kept.len() > 1 {
        Some(c.kept[0].name.clone())
    } else {
        None
    }
}

/// Notes that the oldest kept file was dealt with: it leaves the plan, and
/// its size leaves the total when it was removed.
pub fn record_traffic_eviction(c: &mut TrafficCleanup, removed: bool)
    requires
        old(c).kept@.len() > 0,
    ensures
        final(c).kept@ == old(c).kept@.drop_first(),
        final(c).expired@ == old(c).expired@,
        final(c).max_bytes == old(c).max_bytes,
        final(c).total_bytes == if removed {
            if old(c).total_bytes >= old(c).kept@[0].size {
                (old(c).total_bytes - old(c).kept@[0].size) as u64
            } else {
                0u64
            }
        } else {
            old(c).total_bytes
        },
{
    let first = c.kept.remove(0);
    if removed {
        c.total_bytes = if c.total_bytes >= first.size {
            c.total_bytes - first.size
        } else {
            0
        };
    }
    assert(c.kept@ =~= old(c).kept@.drop_first());
}

// ---------------------------------------------------------------------------
// Reading back persisted events
// ---------------------------------------------------------------------------

/// An event recorded for the project (and the service, when one is named).
pub open spec fn persisted_match(e: ProxyTrafficEvent, project: Seq<char>, service: Option<Seq<char>>) -> bool {
    e.project_name@ == project && match service {
        Some(s) => e.service_name@ == s,
        None => true,
    }
}

/// The matching events of a file, newest (last written) first.
pub open spec fn newest_matching(events: Seq<ProxyTrafficEvent>, project: Seq<char>, service: Option<Seq<char>>) -> Seq<
    EventId,
>
    decreases events.len(),
{
    if events.len() == 0 {
        Seq::empty()
    } else {
        let head: Seq<EventId> = if persisted_match(events.last(), project, service) {
            seq![event_id(events.last())]
        } else {
            Seq::empty()
        };
        head + newest_matching(events.drop_last(), project, service)
    }
}

/// File `k` placed after every file whose day is not before its own.
pub open spec fn insert_newest_first(order: Seq<int>, days: Seq<i64>, k: int) -> Seq<int>
    decreases order.len(),
{
    if order.len() == 0 {
        seq![k]
    } else if days[k] > days[order.last()] {
        insert_newest_first(order.drop_last(), days, k).push(order.last())
    } else {
        order.push(k)
    }
}

/// The first `n` files from the newest day on (a stable sort).
pub open spec fn newest_first(days: Seq<i64>, n: nat) -> Seq<int>
    decreases n,
{
    if n == 0 {
        Seq::empty()
    } else {
        insert_newest_first(newest_first(days, (n - 1) as nat), days, n - 1)
    }
}

pub open spec fn file_days(files: Seq<(i64, Vec<ProxyTrafficEvent>)>) -> Seq<i64> {
    files.map_values(|f: (i64, Vec<ProxyTrafficEvent>)| f.0)
}

/// The matching events of the files taken in `order`, each file newest
/// first.
pub open spec fn persisted_selection(
    files: Seq<(i64, Vec<ProxyTrafficEvent>)>,
    order: Seq<int>,
    project: Seq<char>,
    service: Option<Seq<char>>,
) -> Seq<EventId>
    decreases order.len(),
{
    if order.len() == 0 {
        Seq::empty()
    } else {
        persisted_selection(files, order.drop_last(), project, service) + newest_matching(
            files[order.last()].1@,
            project,
            service,
        )
    }
}

proof fn lemma_insert_newest_first(order: Seq<int>, days: Seq<i64>, k: int, pos: int)
    requires
        0 <= pos <= order.len(),
        forall|j: int| pos <= j < order.len() ==> days[k] > days[#[trigger] order[j]],
        pos == 0 || !(days[k] > days[order[pos - 1]]),
    ensures
        insert_newest_first(order, days, k) == order.take(pos).push(k) + order.skip(pos),
    decreases order.len(),
{
    if order.len() == 0 {
        assert(order.take(pos).push(k) + order.skip(pos) =~= seq![k]);
    } else if pos == order.len() {
        assert(order.take(pos).push(k) + order.skip(pos) =~= order.push(k));
    } else {
        lemma_insert_newest_first(order.drop_last(), days, k, pos);
        assert(order.drop_last().take(pos) =~= order.take(pos));
        assert((order.take(pos).push(k) + order.drop_last().skip(pos)).push(order.last()) =~= order.take(pos).push(k)
            + order.skip(pos));
    }
}

proof fn lemma_insert_newest_first_range(order: Seq<int>, days: Seq<i64>, k: int, n: int)
    requires
        0 <= k < n,
        forall|j: int| 0 <= j < order.len() ==> 0 <= #[trigger] order[j] < n,
    ensures
        forall|j: int|
            0 <= j < insert_newest_first(order, days, k).len() ==> 0 <= #[trigger] insert_newest_first(
                order,
                days,
                k,
            )[j] < n,
        insert_newest_first(order, days, k).len() == order.len() + 1,
    decreases order.len(),
{
    if order.len() > 0 && days[k] > days[order.last()] {
        lemma_insert_newest_first_range(order.drop_last(), days, k, n);
        let inner = insert_newest_first(order.drop_last(), days, k);
        assert forall|j: int|
            0 <= j < insert_newest_first(order, days, k).len() implies 0 <= #[trigger] insert_newest_first(
            order,
            days,
            k,
        )[j] < n by {
            if j < inner.len() {
                assert(insert_newest_first(order, days, k)[j] == inner[j]);
            }
        }
    }
}

proof fn lemma_newest_first_range(days: Seq<i64>, n: nat)
    ensures
        newest_first(days, n).len() == n,
        forall|j: int| 0 <= j < newest_first(days, n).len() ==> 0 <= #[trigger] newest_first(days, n)[j] < n,
    decreases n,
{
    if n > 0 {
        lemma_newest_first_range(days, (n - 1) as nat);
        lemma_insert_newest_first_range(newest_first(days, (n - 1) as nat), days, n - 1, n as int);
    }
}

fn insert_file_index(order: &mut Vec<usize>, files: &Vec<(i64, Vec<ProxyTrafficEvent>)>, k: usize)
    requires
        k < files@.len(),
        forall|j: int| 0 <= j < old(order)@.len() ==> #[trigger] old(order)@[j] < files@.len(),
    ensures
        final(order)@.map_values(|x: usize| x as int) == insert_newest_first(
            old(order)@.map_values(|x: usize| x as int),
            file_days(files@),
            k as int,
        ),
        forall|j: int| 0 <= j < final(order)@.len() ==> #[trigger] final(order)@[j] < files@.len(),
{
    let ghost sv = order@.map_values(|x: usize| x as int);
    let ghost days = file_days(files@);
    let mut pos: usize = order.len();
    let mut done = false;
    while pos > 0 && !done
        invariant
            pos <= order@.len(),
            k < files@.len(),
            sv == order@.map_values(|x: usize| x as int),
            days == file_days(files@),
            forall|j: int| 0 <= j < order@.len() ==> #[trigger] order@[j] < files@.len(),
            forall|j: int| pos <= j < order@.len() ==> days[k as int] > days[#[trigger] sv[j]],
            done ==> pos > 0 && !(days[k as int] > days[sv[pos - 1]]),
        decreases pos * 2 + if done {
            0int
        } else {
            1int
        },
    {
        let other = order[pos - 1];
        assert(sv[pos - 1] == other as int);
        assert(days[other as int] == files@[other as int].0);
        assert(days[k as int] == files@[k as int].0);
        if files[k].0 > files[other].0 {
            pos = pos - 1;
        } else {
            done = true;
        }
    }
    proof {
        lemma_insert_newest_first(sv, days, k as int, pos as int);
    }
    order.insert(pos, k);
    assert(order@.map_values(|x: usize| x as int) =~= sv.take(pos as int).push(k as int) + sv.skip(pos as int));
}

proof fn lemma_newest_matching_split(a: Seq<ProxyTrafficEvent>, b: Seq<ProxyTrafficEvent>, project: Seq<char>, service: Option<Seq<char>>)
    ensures
        newest_matching(a + b, project, service) == newest_matching(b, project, service) + newest_matching(
            a,
            project,
            service,
        ),
    decreases b.len(),
{
    if b.len() == 0 {
        assert(a + b =~= a);
        assert(newest_matching(b, project, service) =~= Seq::<EventId>::empty());
        assert(newest_matching(a + b, project, service) =~= Seq::<EventId>::empty() + newest_matching(a, project, service));
    } else {
        lemma_newest_matching_split(a, b.drop_last(), project, service);
        assert((a + b).drop_last() =~= a + b.drop_last());
        assert((a + b).last() == b.last());
        let head: Seq<EventId> = if persisted_match(b.last(), project, service) {
            seq![event_id(b.last())]
        } else {
            Seq::empty()
        };
        assert(head + (newest_matching(b.drop_last(), project, service) + newest_matching(a, project, service)) =~= (head
            + newest_matching(b.drop_last(), project, service)) + newest_matching(a, project, service));
    }
}

proof fn lemma_selection_prefix(
    files: Seq<(i64, Vec<ProxyTrafficEvent>)>,
    order: Seq<int>,
    a: int,
    b: int,
    project: Seq<char>,
    service: Option<Seq<char>>,
)
    requires
        0 <= a <= b <= order.len(),
    ensures
        persisted_selection(files, order.take(a), project, service).is_prefix_of(
            persisted_selection(files, order.take(b), project, service),
        ),
    decreases b - a,
{
    if a < b {
        lemma_selection_prefix(files, order, a, b - 1, project, service);
        assert(order.take(b).drop_last() =~= order.take(b - 1));
        let x = persisted_selection(files, order.take(a), project, service);
        let y = persisted_selection(files, order.take(b - 1), project, service);
        let z = persisted_selection(files, order.take(b), project, service);
        assert(z == y + newest_matching(files[order.take(b).last()].1@, project, service));
        assert(z.take(x.len() as int) =~= y.take(x.len() as int));
    } else {
        let x = persisted_selection(files, order.take(a), project, service);
        assert(x.take(x.len() as int) =~= x);
    }
}

proof fn lemma_partial_is_prefix(
    files: Seq<(i64, Vec<ProxyTrafficEvent>)>,
    order: Seq<int>,
    t: int,
    e: int,
    project: Seq<char>,
    service: Option<Seq<char>>,
)
    requires
        0 <= t < order.len(),
        0 <= order[t] < files.len(),
        0 <= e <= files[order[t]].1@.len(),
    ensures
        (persisted_selection(files, order.take(t), project, service) + newest_matching(
            files[order[t]].1@.subrange(e, files[order[t]].1@.len() as int),
            project,
            service,
        )).is_prefix_of(persisted_selection(files, order, project, service)),
{
    let events = files[order[t]].1@;
    let tail = events.subrange(e, events.len() as int);
    lemma_newest_matching_split(events.take(e), tail, project, service);
    assert(events.take(e) + tail =~= events);
    let before = persisted_selection(files, order.take(t), project, service);
    let part = before + newest_matching(tail, project, service);
    assert(order.take(t + 1).drop_last() =~= order.take(t));
    assert(order.take(t + 1).last() == order[t]);
    let sel_t1 = persisted_selection(files, order.take(t + 1), project, service);
    assert(sel_t1 == before + newest_matching(events, project, service));
    assert(sel_t1.take(part.len() as int) =~= part);
    lemma_selection_prefix(files, order, t + 1, order.len() as int, project, service);
    assert(order.take(order.len() as int) =~= order);
    let all = persisted_selection(files, order, project, service);
    assert(all.take(part.len() as int) =~= part);
}

/// The events read back from the traffic files for a project (and a
/// service): files from the newest day on, each from its last line back,
/// at most `limit`. `files` holds each traffic file's day and the events of
/// its lines that could be read, in line order.
pub fn persisted_events_for(
    files: &Vec<(i64, Vec<ProxyTrafficEvent>)>,
    project_name: &str,
    service_filter: Option<&str>,
    limit: usize,
) -> (r: Vec<ProxyTrafficEvent>)
    ensures
        ({
            let service = match service_filter {
                Some(s) => Some(s@),
                None => None,
            };
            let all = persisted_selection(files@, newest_first(file_days(files@), files@.len()), project_name@, service);
            let chosen = if all.len() <= limit {
                all
            } else {
                all.take(limit as int)
            };
            &&& ids(r@) == chosen
            &&& r@.len() == chosen.len()
            &&& forall|i: int| 0 <= i < r@.len() ==> (#[trigger] r@[i])@ == chosen[i].content
        }),
{
    let ghost service = match service_filter {
        Some(s) => Some(s@),
        None => None,
    };
    let ghost days = file_days(files@);
    let mut order: Vec<usize> = Vec::new();
    let mut k: usize = 0;
    while k < files.len()
        invariant
            k <= files@.len(),
            days == file_days(files@),
            order@.map_values(|x: usize| x as int) == newest_first(days, k as nat),
            forall|j: int| 0 <= j < order@.len() ==> #[trigger] order@[j] < files@.len(),
        decreases files.len() - k,
    {
        insert_file_index(&mut order, files, k);
        k = k + 1;
    }
    let ghost full_order = order@.map_values(|x: usize| x as int);
    let ghost all = persisted_selection(files@, full_order, project_name@, service);
    let mut out: Vec<ProxyTrafficEvent> = Vec::new();
    if limit == 0 {
        assert(ids(out@) =~= all.take(0));
        return out;
    }
    assert(full_order.take(0) =~= Seq::<int>::empty());
    assert(ids(out@) =~= Seq::<EventId>::empty());
    let mut t: usize = 0;
    while t < order.len()
        invariant
            t <= order@.len(),
            0 < limit,
            full_order == order@.map_values(|x: usize| x as int),
            all == persisted_selection(files@, full_order, project_name@, service),
            full_order == newest_first(file_days(files@), files@.len()),
            service == match service_filter {
                Some(s) => Some(s@),
                None => None::<Seq<char>>,
            },
            forall|j: int| 0 <= j < order@.len() ==> #[trigger] order@[j] < files@.len(),
            ids(out@) == persisted_selection(files@, full_order.take(t as int), project_name@, service),
            out@.len() < limit,
        decreases order.len() - t,
    {
        let f = order[t];
        let events = &files[f].1;
        let ghost before = ids(out@);
        assert(full_order[t as int] == f as int);
        let mut e: usize = events.len();
        assert(events@.subrange(e as int, events@.len() as int) =~= Seq::<ProxyTrafficEvent>::empty());
        assert(before + newest_matching(Seq::<ProxyTrafficEvent>::empty(), project_name@, service) =~= before);
        while e > 0
            invariant
                e <= events@.len(),
                events@ == files@[f as int].1@,
                t < order@.len(),
                f == order@[t as int],
                full_order == order@.map_values(|x: usize| x as int),
                full_order[t as int] == f as int,
                all == persisted_selection(files@, full_order, project_name@, service),
                full_order == newest_first(file_days(files@), files@.len()),
                before == persisted_selection(files@, full_order.take(t as int), project_name@, service),
                forall|j: int| 0 <= j < order@.len() ==> #[trigger] order@[j] < files@.len(),
                0 < limit,
                service == match service_filter {
                    Some(s) => Some(s@),
                    None => None::<Seq<char>>,
                },
                ids(out@) == before + newest_matching(events@.subrange(e as int, events@.len() as int), project_name@, service),
                out@.len() < limit,
            decreases e,
        {
            let x = &events[e - 1];
            let ghost rest = events@.subrange(e as int, events@.len() as int);
            proof {
                lemma_newest_matching_split(seq![events@[e - 1]], rest, project_name@, service);
                assert(seq![events@[e - 1]] + rest =~= events@.subrange(e - 1, events@.len() as int));
                assert(seq![events@[e - 1]].drop_last() =~= Seq::<ProxyTrafficEvent>::empty());
                assert(seq![events@[e - 1]].last() == events@[e - 1]);
            }
            let wanted = crate::text::str_eq(x.project_name.as_str(), project_name) && match service_filter {
                Some(svc) => crate::text::str_eq(x.service_name.as_str(), svc),
                None => true,
            };
            proof {
                let single = seq![events@[e - 1]];
                assert(single.drop_last() =~= Seq::<ProxyTrafficEvent>::empty());
                assert(newest_matching(single.drop_last(), project_name@, service) =~= Seq::<EventId>::empty());
                assert(wanted == persisted_match(*x, project_name@, service));
                if wanted {
                    assert(newest_matching(single, project_name@, service) =~= seq![event_id(*x)]);
                } else {
                    assert(newest_matching(single, project_name@, service) =~= Seq::<EventId>::empty());
                }
            }
            if wanted {
                let ghost prev_ids = ids(out@);
                let c = copy_event(x);
                out.push(c);
                assert(event_id(c) == event_id(*x));
                assert(ids(out@) =~= prev_ids.push(event_id(*x)));
                assert(ids(out@) =~= before + newest_matching(events@.subrange(e - 1, events@.len() as int), project_name@, service));
                if out.len() >= limit {
                    proof {
                        lemma_partial_is_prefix(files@, full_order, t as int, e - 1, project_name@, service);
                        assert(all.take(limit as int) =~= ids(out@));
                        lemma_ids_content(out@, ids(out@));
                    }
                    return out;
                }
            } else {
                assert(ids(out@) =~= before + newest_matching(events@.subrange(e - 1, events@.len() as int), project_name@, service));
            }
            e = e - 1;
        }
        proof {
            assert(events@.subrange(0, events@.len() as int) =~= events@);
            assert(full_order.take(t + 1).drop_last() =~= full_order.take(t as int));
        }
        t = t + 1;
    }
    assert(full_order.take(order@.len() as int) =~= full_order);
    out
}

} // verus!
