//! The audit log of the agent API: the requests and responses it records,
//! how recorded bodies are kept, and which records a reader gets back.

use vstd::prelude::*;
use crate::license::{bytes_to_hex_lower, hex_text};
use crate::routes::opt_view;
use crate::text::{ascii_bytes, ascii_chars_of, str_views, trim, trim_str, chars_of, string_of, utf8_lossy, utf8_lossy_chars};
use crate::h2_stream::{field_views, FieldView, HeaderField};

verus! {

/// The largest number of records handed out at once, and the default.
pub const MAX_AGENT_API_AUDIT_LIMIT: usize = 5000;
pub const DEFAULT_AGENT_API_AUDIT_LIMIT: usize = 200;
/// How many records are kept in memory.
pub const MAX_AGENT_API_AUDIT_EVENTS: usize = 20000;
/// How many bytes of a body are kept.
pub const AGENT_API_AUDIT_BODY_CAPTURE_MAX_BYTES: usize = 262144;

/// How a recorded body is written down.
#[derive(Debug, Clone, Copy, PartialEq, Eq, Structural)]
pub enum AgentApiAuditBodyEncoding {
    Utf8,
    Hex,
}

/// A header of a recorded request or response.
#[derive(Debug, Clone, PartialEq, Eq)]
pub struct AgentApiAuditHeader {
    pub name: String,
    pub value: String,
}

/// One request to the agent API and its response.
#[derive(Debug, Clone, PartialEq, Eq)]
pub struct AgentApiAuditEvent {
    pub id: u64,
    pub started_at_unix_ms: u64,
    pub duration_ms: u64,
    pub method: String,
    pub path: String,
    pub query: Option<String>,
    pub matched_path: Option<String>,
    pub request_version: String,
    pub response_version: String,
    pub status_code: u16,
    pub auth_enabled: bool,
    pub authorization_header_present: bool,
    pub request_headers: Vec<AgentApiAuditHeader>,
    pub request_body: String,
    pub request_body_encoding: AgentApiAuditBodyEncoding,
    pub request_body_truncated: bool,
    pub request_body_bytes: usize,
    pub response_headers: Vec<AgentApiAuditHeader>,
    pub response_body: String,
    pub response_body_encoding: AgentApiAuditBodyEncoding,
    pub response_body_truncated: bool,
    pub response_body_bytes: usize,
}

/// The records kept in memory, oldest first, and the last id handed out.
#[derive(Debug)]
pub struct AgentApiAuditStore {
    pub next_id: u64,
    pub events: Vec<AgentApiAuditEvent>,
}

impl AgentApiAuditStore {
    pub fn new() -> (r: Self)
        ensures
            r.next_id == 0,
            r.events@.len() == 0,
    {
        AgentApiAuditStore { next_id: 0, events: Vec::new() }
    }
}

/// Two records hold the same data.
pub open spec fn same_event(a: AgentApiAuditEvent, b: AgentApiAuditEvent) -> bool {
    &&& a.id == b.id
    &&& a.started_at_unix_ms == b.started_at_unix_ms
    &&& a.duration_ms == b.duration_ms
    &&& a.method == b.method
    &&& a.path == b.path
    &&& a.query == b.query
    &&& a.matched_path == b.matched_path
    &&& a.request_version == b.request_version
    &&& a.response_version == b.response_version
    &&& a.status_code == b.status_code
    &&& a.auth_enabled == b.auth_enabled
    &&& a.authorization_header_present == b.authorization_header_present
    &&& a.request_headers@ == b.request_headers@
    &&& a.request_body == b.request_body
    &&& a.request_body_encoding == b.request_body_encoding
    &&& a.request_body_truncated == b.request_body_truncated
    &&& a.request_body_bytes == b.request_body_bytes
    &&& a.response_headers@ == b.response_headers@
    &&& a.response_body == b.response_body
    &&& a.response_body_encoding == b.response_body_encoding
    &&& a.response_body_truncated == b.response_body_truncated
    &&& a.response_body_bytes == b.response_body_bytes
}

/// Two lists of records hold the same data, in the same order.
pub open spec fn same_events(a: Seq<AgentApiAuditEvent>, b: Seq<AgentApiAuditEvent>) -> bool {
    a.len() == b.len() && forall|i: int| 0 <= i < a.len() ==> same_event(#[trigger] a[i], b[i])
}

fn copy_headers(v: &Vec<AgentApiAuditHeader>) -> (r: Vec<AgentApiAuditHeader>)
    ensures
        r@ == v@,
{
    let mut r: Vec<AgentApiAuditHeader> = Vec::new();
    let mut i: usize = 0;
    while i < v.len()
        invariant
            i <= v@.len(),
            r@ == v@.take(i as int),
        decreases v.len() - i,
    {
        r.push(AgentApiAuditHeader { name: v[i].name.clone(), value: v[i].value.clone() });
        assert(r@ =~= v@.take(i + 1));
        i = i + 1;
    }
    assert(v@.take(v@.len() as int) =~= v@);
    r
}

fn copy_text(o: &Option<String>) -> (r: Option<String>)
    ensures
        r == *o,
{
    match o {
        Some(s) => Some(s.clone()),
        None => None,
    }
}

/// A copy of a record.
pub fn copy_audit_event(e: &AgentApiAuditEvent) -> (r: AgentApiAuditEvent)
    ensures
        same_event(r, *e),
{
    AgentApiAuditEvent {
        id: e.id,
        started_at_unix_ms: e.started_at_unix_ms,
        duration_ms: e.duration_ms,
        method: e.method.clone(),
        path: e.path.clone(),
        query: copy_text(&e.query),
        matched_path: copy_text(&e.matched_path),
        request_version: e.request_version.clone(),
        response_version: e.response_version.clone(),
        status_code: e.status_code,
        auth_enabled: e.auth_enabled,
        authorization_header_present: e.authorization_header_present,
        request_headers: copy_headers(&e.request_headers),
        request_body: e.request_body.clone(),
        request_body_encoding: e.request_body_encoding,
        request_body_truncated: e.request_body_truncated,
        request_body_bytes: e.request_body_bytes,
        response_headers: copy_headers(&e.response_headers),
        response_body: e.response_body.clone(),
        response_body_encoding: e.response_body_encoding,
        response_body_truncated: e.response_body_truncated,
        response_body_bytes: e.response_body_bytes,
    }
}

/// The limit a reader gets: 200 when none (0) is asked, at most 5000.
pub open spec fn audit_limit(limit: usize) -> usize {
    if limit == 0 {
        DEFAULT_AGENT_API_AUDIT_LIMIT
    } else if limit > MAX_AGENT_API_AUDIT_LIMIT {
        MAX_AGENT_API_AUDIT_LIMIT
    } else {
        limit
    }
}

pub fn normalize_agent_api_audit_limit(limit: usize) -> (r: usize)
    ensures
        r == audit_limit(limit),
{
    if limit == 0 {
        return DEFAULT_AGENT_API_AUDIT_LIMIT;
    }
    if limit > MAX_AGENT_API_AUDIT_LIMIT {
        MAX_AGENT_API_AUDIT_LIMIT
    } else {
        limit
    }
}

/// The key under which a record counts once: id, start, method, path and
/// status.
pub open spec fn audit_key(e: AgentApiAuditEvent) -> (u64, u64, Seq<char>, Seq<char>, u16) {
    (e.id, e.started_at_unix_ms, e.method@, e.path@, e.status_code)
}

fn same_key(a: &AgentApiAuditEvent, b: &AgentApiAuditEvent) -> (r: bool)
    ensures
        r == (audit_key(*a) == audit_key(*b)),
{
    a.id == b.id && a.started_at_unix_ms == b.started_at_unix_ms && a.method == b.method && a.path == b.path
        && a.status_code == b.status_code
}

/// The records in order, each key kept the first time only.
pub open spec fn unique_by_key(s: Seq<AgentApiAuditEvent>) -> Seq<AgentApiAuditEvent>
    decreases s.len(),
{
    if s.len() == 0 {
        seq![]
    } else {
        let prev = unique_by_key(s.drop_last());
        if exists|k: int| 0 <= k < prev.len() && audit_key(#[trigger] prev[k]) == audit_key(s.last()) {
            prev
        } else {
            prev.push(s.last())
        }
    }
}

/// The first `n` of a list (all of it when shorter).
pub open spec fn first_n<T>(s: Seq<T>, n: int) -> Seq<T> {
    if s.len() <= n {
        s
    } else {
        s.take(n)
    }
}

/// What a reader gets: the newest records in memory, newest first, then
/// those read from disk (newest first), each key once, at most the limit;
/// nothing while the audit is not part of the license.
pub open spec fn audit_events_result(supported: bool, store_events: Seq<AgentApiAuditEvent>, persisted: Seq<AgentApiAuditEvent>, limit: usize) -> Seq<AgentApiAuditEvent> {
    if !supported {
        seq![]
    } else {
        let n = audit_limit(limit) as int;
        first_n(unique_by_key(first_n(store_events.reverse(), n) + persisted), n)
    }
}

fn key_seen(seen: &Vec<AgentApiAuditEvent>, e: &AgentApiAuditEvent) -> (r: bool)
    ensures
        r == exists|k: int| 0 <= k < seen@.len() && audit_key(#[trigger] seen@[k]) == audit_key(*e),
{
    let mut i: usize = 0;
    while i < seen.len()
        invariant
            i <= seen@.len(),
            forall|k: int| 0 <= k < i ==> audit_key(#[trigger] seen@[k]) != audit_key(*e),
        decreases seen.len() - i,
    {
        if same_key(&seen[i], e) {
            return true;
        }
        i = i + 1;
    }
    false
}

/// The records a reader gets (see [`audit_events_result`]). `persisted`
/// holds the records read from disk, newest first; `supported` whether the
/// license includes the audit.
pub fn agent_api_audit_events(store: &AgentApiAuditStore, persisted: &Vec<AgentApiAuditEvent>, limit: usize, supported: bool) -> (r: Result<Vec<AgentApiAuditEvent>, String>)
    ensures
        r is Ok,
        same_events(r->Ok_0@, audit_events_result(supported, store.events@, persisted@, limit)),
{
    if !supported {
        let out: Vec<AgentApiAuditEvent> = Vec::new();
        return Ok(out);
    }
    let n = normalize_agent_api_audit_limit(limit);
    let mut candidates: Vec<AgentApiAuditEvent> = Vec::new();
    let total = store.events.len();
    let mut i: usize = 0;
    while i < total && i < n
        invariant
            total == store.events@.len(),
            i <= total,
            i <= n,
            same_events(candidates@, store.events@.reverse().take(i as int)),
        decreases total - i,
    {
        let e = copy_audit_event(&store.events[total - 1 - i]);
        let ghost before = candidates@;
        candidates.push(e);
        proof {
            assert(store.events@.reverse()[i as int] == store.events@[total - 1 - i]);
            assert forall|k: int| 0 <= k < i + 1 implies same_event(#[trigger] candidates@[k], store.events@.reverse().take(i + 1)[k]) by {
                if k < i {
                    assert(candidates@[k] == before[k]);
                    assert(store.events@.reverse().take(i + 1)[k] == store.events@.reverse().take(i as int)[k]);
                }
            }
        }
        i = i + 1;
    }
    let ghost head = store.events@.reverse().take(i as int);
    assert(head == first_n(store.events@.reverse(), n as int));
    let mut j: usize = 0;
    while j < persisted.len()
        invariant
            j <= persisted@.len(),
            same_events(candidates@, head + persisted@.take(j as int)),
        decreases persisted.len() - j,
    {
        let e = copy_audit_event(&persisted[j]);
        let ghost before = candidates@;
        candidates.push(e);
        proof {
            let want = head + persisted@.take(j + 1);
            assert(want =~= (head + persisted@.take(j as int)).push(persisted@[j as int]));
            assert forall|k: int| 0 <= k < want.len() implies same_event(#[trigger] candidates@[k], want[k]) by {
                if k < want.len() - 1 {
                    assert(candidates@[k] == before[k]);
                }
            }
        }
        j = j + 1;
    }
    assert(persisted@.take(persisted@.len() as int) =~= persisted@);
    let ghost all = head + persisted@;
    let mut unique: Vec<AgentApiAuditEvent> = Vec::new();
    let mut out: Vec<AgentApiAuditEvent> = Vec::new();
    let mut k: usize = 0;
    while k < candidates.len()
        invariant
            k <= candidates@.len(),
            same_events(candidates@, all),
            same_events(unique@, unique_by_key(all.take(k as int))),
            same_events(out@, first_n(unique_by_key(all.take(k as int)), n as int)),
            n >= 1,
        decreases candidates.len() - k,
    {
        let ghost prefix = all.take(k as int);
        let ghost u = unique_by_key(prefix);
        assert(all.take(k + 1).drop_last() =~= prefix);
        assert(same_event(candidates@[k as int], all[k as int]));
        let seen = key_seen(&unique, &candidates[k]);
        proof {
            if seen {
                let w = choose|w: int| 0 <= w < unique@.len() && audit_key(#[trigger] unique@[w]) == audit_key(candidates@[k as int]);
                assert(same_event(unique@[w], u[w]));
            } else {
                assert forall|w: int| 0 <= w < u.len() implies audit_key(#[trigger] u[w]) != audit_key(all[k as int]) by {
                    assert(same_event(unique@[w], u[w]));
                }
            }
        }
        if !seen {
            let ghost ubefore = unique@;
            let ghost obefore = out@;
            unique.push(copy_audit_event(&candidates[k]));
            if out.len() < n {
                out.push(copy_audit_event(&candidates[k]));
            }
            proof {
                let u2 = unique_by_key(all.take(k + 1));
                assert(u2 == u.push(all[k as int]));
                assert forall|w: int| 0 <= w < u2.len() implies same_event(#[trigger] unique@[w], u2[w]) by {
                    if w < u.len() {
                        assert(unique@[w] == ubefore[w]);
                    }
                }
                let f = first_n(u2, n as int);
                assert forall|w: int| 0 <= w < f.len() implies same_event(#[trigger] out@[w], f[w]) by {
                    if w < obefore.len() {
                        assert(out@[w] == obefore[w]);
                        assert(first_n(u, n as int)[w] == u[w]);
                    }
                }
            }
        }
        k = k + 1;
    }
    assert(all.take(candidates@.len() as int) =~= all);
    Ok(out)
}

proof fn lemma_unique_by_key(s: Seq<AgentApiAuditEvent>)
    ensures
        forall|i: int, j: int| 0 <= i < j < unique_by_key(s).len() ==> audit_key(#[trigger] unique_by_key(s)[i]) != audit_key(
            #[trigger] unique_by_key(s)[j],
        ),
    decreases s.len(),
{
    if s.len() > 0 {
        lemma_unique_by_key(s.drop_last());
        let prev = unique_by_key(s.drop_last());
        let r = unique_by_key(s);
        if r != prev {
            assert forall|i: int, j: int| 0 <= i < j < r.len() implies audit_key(#[trigger] r[i]) != audit_key(#[trigger] r[j]) by {
                assert(r[i] == prev[i]);
                if j < prev.len() {
                    assert(r[j] == prev[j]);
                }
            }
        }
    }
}

/// A reader never gets more records than the limit allows, nor one record
/// twice.
pub proof fn law_audit_events_bounded_and_unique(supported: bool, store_events: Seq<AgentApiAuditEvent>, persisted: Seq<AgentApiAuditEvent>, limit: usize)
    ensures
        ({
            let r = audit_events_result(supported, store_events, persisted, limit);
            &&& r.len() <= audit_limit(limit)
            &&& forall|i: int, j: int| 0 <= i < j < r.len() ==> audit_key(#[trigger] r[i]) != audit_key(#[trigger] r[j])
        }),
{
    if supported {
        let n = audit_limit(limit) as int;
        let u = unique_by_key(first_n(store_events.reverse(), n) + persisted);
        lemma_unique_by_key(first_n(store_events.reverse(), n) + persisted);
        let r = first_n(u, n);
        assert forall|i: int, j: int| 0 <= i < j < r.len() implies audit_key(#[trigger] r[i]) != audit_key(#[trigger] r[j]) by {
            assert(r[i] == u[i] && r[j] == u[j]);
        }
    }
}

/// After a push the store holds at most its bound, and the pushed record is
/// the newest one.
pub proof fn law_audit_store_bounded(events: Seq<AgentApiAuditEvent>, e: AgentApiAuditEvent, max_events: usize)
    requires
        max_events > 0,
    ensures
        ({
            let all = events.push(e);
            let kept = if all.len() > max_events {
                all.skip(all.len() - max_events)
            } else {
                all
            };
            kept.len() <= max_events && kept.len() > 0 && kept.last() == e
        }),
{
}

/// Whether a record was added, and the record as stored (with its id) for
/// writing to disk.
pub open spec fn next_audit_id(next_id: u64, disk_max_id: u64) -> u64 {
    (if next_id == 0 {
        disk_max_id
    } else {
        next_id
    }).wrapping_add(1)
}

/// Records an exchange: it gets the next id (continuing after the largest
/// id on disk when none was handed out yet), is kept last, and the oldest
/// records beyond `max_events` are dropped. Nothing is kept while the audit
/// is not part of the license or `max_events` is 0. Returns the record to
/// write to disk.
pub fn push_agent_api_audit_event(
    store: &mut AgentApiAuditStore,
    event: AgentApiAuditEvent,
    max_events: usize,
    supported: bool,
    disk_max_id: u64,
) -> (r: Option<AgentApiAuditEvent>)
    ensures
        !supported || max_events == 0 ==> r is None && final(store).next_id == old(store).next_id
            && final(store).events@ == old(store).events@,
        supported && max_events > 0 ==> {
            let id = next_audit_id(old(store).next_id, disk_max_id);
            let all = old(store).events@.push(AgentApiAuditEvent { id, ..event });
            &&& final(store).next_id == id
            &&& r is Some
            &&& same_event(r->Some_0, AgentApiAuditEvent { id, ..event })
            &&& final(store).events@ == if all.len() > max_events {
                all.skip(all.len() - max_events)
            } else {
                all
            }
        },
{
    if !supported || max_events == 0 {
        return None;
    }
    let base = if store.next_id == 0 {
        disk_max_id
    } else {
        store.next_id
    };
    store.next_id = base.wrapping_add(1);
    let mut event = event;
    event.id = store.next_id;
    let stored = copy_audit_event(&event);
    let ghost all = store.events@.push(event);
    store.events.push(event);
    let ghost start = store.events@.len();
    assert(store.events@ =~= all.skip(0));
    while store.events.len() > max_events
        invariant
            max_events > 0,
            start == all.len(),
            store.events@.len() <= start,
            start <= max_events ==> store.events@.len() == start,
            start > max_events ==> store.events@.len() >= max_events,
            store.events@ == all.skip(start - store.events@.len()),
            store.next_id == next_audit_id(old(store).next_id, disk_max_id),
        decreases store.events.len(),
    {
        let ghost before = store.events@;
        let ghost from = start - before.len();
        store.events.remove(0);
        assert(store.events@ =~= before.skip(1));
        assert(before.skip(1) =~= all.skip(from + 1));
    }
    assert(all.skip(0) =~= all);
    Some(stored)
}

/// Empties the records in memory and returns how many were dropped there
/// and on disk (`disk_removed` records were on disk), nothing while the audit
/// is not part of the license.
pub fn clear_agent_api_audit_events(store: &mut AgentApiAuditStore, disk_removed: usize, supported: bool) -> (r: Result<usize, String>)
    ensures
        !supported ==> r == Ok::<usize, String>(0) && final(store).events@ == old(store).events@,
        supported ==> final(store).events@.len() == 0 && r == Ok::<usize, String>(
            if old(store).events@.len() + disk_removed > usize::MAX {
                usize::MAX
            } else {
                (old(store).events@.len() + disk_removed) as usize
            },
        ),
        final(store).next_id == old(store).next_id,
{
    if !supported {
        return Ok(0);
    }
    let removed = store.events.len();
    store.events = Vec::new();
    Ok(removed.saturating_add(disk_removed))
}

/// What `str::from_utf8` gives for a byte sequence: the text the bytes
/// encode, when they are valid UTF-8.
pub open spec fn utf8_decoded(bytes: Seq<u8>) -> Option<Seq<char>> {
    if vstd::utf8::valid_utf8(bytes) {
        Some(vstd::utf8::decode_utf8(bytes))
    } else {
        None
    }
}

/// `std::str::from_utf8`. The contract states the result with vstd's
/// definition of UTF-8 (valid sequences and their decoding), and what the
/// documentation gives for ASCII bytes: they are valid and decode to the same
/// characters.
#[verifier::external_body]
pub(crate) fn utf8_decode(bytes: &[u8]) -> (r: Option<String>)
    ensures
        opt_view(r) == utf8_decoded(bytes@),
        ascii_bytes(bytes@) ==> opt_view(r) == Some(ascii_chars_of(bytes@)),
{
    match std::str::from_utf8(bytes) {
        Ok(text) => Some(text.to_owned()),
        Err(_) => None,
    }
}

/// How a body is kept: at most 256 KiB of it, as text when that is UTF-8,
/// else as lower-case hex; and whether it was cut.
pub open spec fn body_snapshot(bytes: Seq<u8>) -> (Seq<char>, AgentApiAuditBodyEncoding, bool) {
    let truncated = bytes.len() > AGENT_API_AUDIT_BODY_CAPTURE_MAX_BYTES;
    let kept = if truncated {
        bytes.take(AGENT_API_AUDIT_BODY_CAPTURE_MAX_BYTES as int)
    } else {
        bytes
    };
    if kept.len() == 0 {
        (seq![], AgentApiAuditBodyEncoding::Utf8, truncated)
    } else {
        match utf8_decoded(kept) {
            Some(text) => (text, AgentApiAuditBodyEncoding::Utf8, truncated),
            None => (hex_text(kept), AgentApiAuditBodyEncoding::Hex, truncated),
        }
    }
}

pub fn body_snapshot_for_audit(bytes: &[u8]) -> (r: (String, AgentApiAuditBodyEncoding, bool))
    ensures
        (r.0@, r.1, r.2) == body_snapshot(bytes@),
{
    let truncated = bytes.len() > AGENT_API_AUDIT_BODY_CAPTURE_MAX_BYTES;
    let mut kept: Vec<u8> = Vec::new();
    let end = if truncated {
        AGENT_API_AUDIT_BODY_CAPTURE_MAX_BYTES
    } else {
        bytes.len()
    };
    let mut i: usize = 0;
    while i < end
        invariant
            i <= end,
            end <= bytes@.len(),
            kept@ == bytes@.take(i as int),
        decreases end - i,
    {
        kept.push(bytes[i]);
        assert(kept@ =~= bytes@.take(i + 1));
        i = i + 1;
    }
    assert(bytes@.take(bytes@.len() as int) =~= bytes@);
    if kept.len() == 0 {
        return (String::new(), AgentApiAuditBodyEncoding::Utf8, truncated);
    }
    match utf8_decode(kept.as_slice()) {
        Some(text) => (text, AgentApiAuditBodyEncoding::Utf8, truncated),
        None => (bytes_to_hex_lower(kept.as_slice()), AgentApiAuditBodyEncoding::Hex, truncated),
    }
}

/// The HTTP version of an exchange.
#[derive(Debug, Clone, Copy, PartialEq, Eq, Structural)]
pub enum HttpVersion {
    Http09,
    Http10,
    Http11,
    Http2,
    Http3,
    Other,
}

/// How a version is written in a record.
pub open spec fn version_text(version: HttpVersion) -> Seq<char> {
    match version {
        HttpVersion::Http09 => "HTTP/0.9"@,
        HttpVersion::Http10 => "HTTP/1.0"@,
        HttpVersion::Http11 => "HTTP/1.1"@,
        HttpVersion::Http2 => "HTTP/2.0"@,
        HttpVersion::Http3 => "HTTP/3.0"@,
        HttpVersion::Other => "HTTP/?"@,
    }
}

/// How a version is written in a record.
pub fn http_version_label(version: HttpVersion) -> (r: &'static str)
    ensures
        r@ == version_text(version),
        r@ == match version {
            HttpVersion::Http09 => "HTTP/0.9"@,
            HttpVersion::Http10 => "HTTP/1.0"@,
            HttpVersion::Http11 => "HTTP/1.1"@,
            HttpVersion::Http2 => "HTTP/2.0"@,
            HttpVersion::Http3 => "HTTP/3.0"@,
            HttpVersion::Other => "HTTP/?"@,
        },
{
    match version {
        HttpVersion::Http09 => "HTTP/0.9",
        HttpVersion::Http10 => "HTTP/1.0",
        HttpVersion::Http11 => "HTTP/1.1",
        HttpVersion::Http2 => "HTTP/2.0",
        HttpVersion::Http3 => "HTTP/3.0",
        HttpVersion::Other => "HTTP/?",
    }
}

/// The headers of a request or response as recorded: each name as it is,
/// each value decoded with invalid UTF-8 replaced.
pub open spec fn audit_headers_read(r: Seq<AgentApiAuditHeader>, fs: Seq<FieldView>) -> bool {
    &&& r.len() == fs.len()
    &&& forall|i: int|
        0 <= i < r.len() ==> (#[trigger] r[i]).name@ == fs[i].name && r[i].value@ == utf8_lossy(
            fs[i].value,
        )
}

/// The headers of a request or response, for the audit log.
pub fn headers_for_audit(headers: &[HeaderField]) -> (r: Vec<AgentApiAuditHeader>)
    ensures
        audit_headers_read(r@, field_views(headers@)),
{
    let mut r: Vec<AgentApiAuditHeader> = Vec::new();
    let mut i: usize = 0;
    while i < headers.len()
        invariant
            i <= headers@.len(),
            audit_headers_read(r@, field_views(headers@).take(i as int)),
        decreases headers.len() - i,
    {
        let name = string_of(&chars_of(headers[i].name.as_str()));
        let value = string_of(&utf8_lossy_chars(headers[i].value.as_slice()));
        r.push(AgentApiAuditHeader { name, value });
        assert(field_views(headers@).take(i + 1)[i as int] == headers@[i as int]@);
        assert forall|k: int| 0 <= k < i implies field_views(headers@).take(i + 1)[k]
            == field_views(headers@).take(i as int)[k] by {}
        i = i + 1;
    }
    assert(field_views(headers@).take(headers@.len() as int) =~= field_views(headers@));
    r
}

/// What the audit layer saw of one exchange with the agent API.
pub struct AuditedExchange {
    pub started_at_unix_ms: u64,
    pub duration_ms: u64,
    pub method: String,
    pub path: String,
    pub query: Option<String>,
    pub matched_path: Option<String>,
    pub request_version: HttpVersion,
    pub response_version: HttpVersion,
    pub status_code: u16,
    pub request_headers: Vec<HeaderField>,
    pub request_body: Vec<u8>,
    pub response_headers: Vec<HeaderField>,
    pub response_body: Vec<u8>,
}

/// The request carries an `authorization` header.
pub open spec fn has_authorization(fs: Seq<FieldView>) -> bool {
    exists|i: int| 0 <= i < fs.len() && crate::text::ascii_lower((#[trigger] fs[i]).name) == "authorization"@
}

fn has_authorization_of(headers: &[HeaderField]) -> (r: bool)
    ensures
        r == has_authorization(field_views(headers@)),
{
    let ghost fs = field_views(headers@);
    let target = chars_of("authorization");
    let mut i: usize = 0;
    while i < headers.len()
        invariant
            i <= headers@.len(),
            fs == field_views(headers@),
            target@ == "authorization"@,
            forall|k: int| 0 <= k < i ==> crate::text::ascii_lower((#[trigger] fs[k]).name) != "authorization"@,
        decreases headers.len() - i,
    {
        assert(fs[i as int] == headers@[i as int]@);
        let lower = crate::text::ascii_lower_chars(&chars_of(headers[i].name.as_str()));
        if crate::text::chars_eq(&lower, &target) {
            return true;
        }
        i = i + 1;
    }
    false
}

/// The audit record of an exchange, before it gets its id.
pub fn audit_event_for_exchange(auth_enabled: bool, x: &AuditedExchange) -> (r: AgentApiAuditEvent)
    ensures
        r.id == 0,
        r.started_at_unix_ms == x.started_at_unix_ms,
        r.duration_ms == x.duration_ms,
        r.method@ == x.method@,
        r.path@ == x.path@,
        opt_view(r.query) == opt_view(x.query),
        opt_view(r.matched_path) == opt_view(x.matched_path),
        r.request_version@ == version_text(x.request_version),
        r.response_version@ == version_text(x.response_version),
        r.status_code == x.status_code,
        r.auth_enabled == auth_enabled,
        r.authorization_header_present == has_authorization(field_views(x.request_headers@)),
        audit_headers_read(r.request_headers@, field_views(x.request_headers@)),
        audit_headers_read(r.response_headers@, field_views(x.response_headers@)),
        (r.request_body@, r.request_body_encoding, r.request_body_truncated) == body_snapshot(
            x.request_body@,
        ),
        (r.response_body@, r.response_body_encoding, r.response_body_truncated) == body_snapshot(
            x.response_body@,
        ),
        r.request_body_bytes == x.request_body@.len(),
        r.response_body_bytes == x.response_body@.len(),
{
    let (request_body, request_body_encoding, request_body_truncated) = body_snapshot_for_audit(
        x.request_body.as_slice(),
    );
    let (response_body, response_body_encoding, response_body_truncated) = body_snapshot_for_audit(
        x.response_body.as_slice(),
    );
    AgentApiAuditEvent {
        id: 0,
        started_at_unix_ms: x.started_at_unix_ms,
        duration_ms: x.duration_ms,
        method: string_of(&chars_of(x.method.as_str())),
        path: string_of(&chars_of(x.path.as_str())),
        query: copy_text(&x.query),
        matched_path: copy_text(&x.matched_path),
        request_version: string_of(&chars_of(http_version_label(x.request_version))),
        response_version: string_of(&chars_of(http_version_label(x.response_version))),
        status_code: x.status_code,
        auth_enabled,
        authorization_header_present: has_authorization_of(x.request_headers.as_slice()),
        request_headers: headers_for_audit(x.request_headers.as_slice()),
        request_body,
        request_body_encoding,
        request_body_truncated,
        request_body_bytes: x.request_body.len(),
        response_headers: headers_for_audit(x.response_headers.as_slice()),
        response_body,
        response_body_encoding,
        response_body_truncated,
        response_body_bytes: x.response_body.len(),
    }
}

/// The records read from disk (oldest first), newest first and at most
/// `limit` of them.
pub fn newest_persisted(events: Vec<AgentApiAuditEvent>, limit: usize) -> (r: Vec<AgentApiAuditEvent>)
    ensures
        r@ == first_n(events@.reverse(), limit as int),
{
    let ghost all = events@;
    let mut rest = events;
    let mut out: Vec<AgentApiAuditEvent> = Vec::new();
    while rest.len() > 0 && out.len() < limit
        invariant
            rest@.len() + out@.len() == all.len(),
            rest@ == all.take(rest@.len() as int),
            out@ == all.reverse().take(out@.len() as int),
            out@.len() <= limit,
        decreases rest.len(),
    {
        let e = rest.pop().unwrap();
        let ghost before = out@;
        out.push(e);
        assert(rest@ =~= all.take(rest@.len() as int));
        assert(out@ =~= all.reverse().take(out@.len() as int));
    }
    proof {
        if out@.len() == all.len() {
            assert(all.reverse().take(all.len() as int) =~= all.reverse());
        }
    }
    out
}

/// The largest id among records, 0 when there are none.
pub open spec fn max_id(events: Seq<AgentApiAuditEvent>) -> u64
    decreases events.len(),
{
    if events.len() == 0 {
        0
    } else {
        let m = max_id(events.drop_last());
        if events.last().id > m {
            events.last().id
        } else {
            m
        }
    }
}

pub fn max_event_id(events: &Vec<AgentApiAuditEvent>) -> (r: u64)
    ensures
        r == max_id(events@),
{
    let mut m: u64 = 0;
    let mut i: usize = 0;
    while i < events.len()
        invariant
            i <= events@.len(),
            m == max_id(events@.take(i as int)),
        decreases events.len() - i,
    {
        assert(events@.take(i + 1).drop_last() =~= events@.take(i as int));
        if events[i].id > m {
            m = events[i].id;
        }
        i = i + 1;
    }
    assert(events@.take(events@.len() as int) =~= events@);
    m
}

/// The lines that hold a record: those not blank.
pub open spec fn nonblank_count(lines: Seq<String>) -> nat
    decreases lines.len(),
{
    if lines.len() == 0 {
        0
    } else {
        nonblank_count(lines.drop_last()) + if trim(lines.last()@).len() > 0 {
            1nat
        } else {
            0nat
        }
    }
}

pub fn count_audit_lines(lines: &Vec<String>) -> (r: usize)
    ensures
        r == nonblank_count(lines@),
{
    let mut n: usize = 0;
    let mut i: usize = 0;
    while i < lines.len()
        invariant
            i <= lines@.len(),
            n <= i,
            n == nonblank_count(lines@.take(i as int)),
        decreases lines.len() - i,
    {
        assert(lines@.take(i + 1).drop_last() =~= lines@.take(i as int));
        if trim_str(lines[i].as_str()).len() > 0 {
            n = n + 1;
        }
        i = i + 1;
    }
    assert(lines@.take(lines@.len() as int) =~= lines@);
    n
}

} // verus!
