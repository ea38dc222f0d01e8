//! HAR (HTTP Archive) export of recorded exchanges: each event becomes one
//! entry, with its members in the order in which `serde_json` writes them
//! (sorted by key).

use vstd::prelude::*;
use crate::http_meta::ProxyTrafficHeader;
use crate::json::{
    bool_is, json_pretty_text, json_to_pretty_string, member, members_are, opt_str_is, str_is, u64_is,
    JsonMember, JsonNumber, JsonValue,
};
use crate::kube::dec_string;
use crate::text::dec_chars;
use crate::traffic::{
    har_mime, har_mime_type_from_headers, har_query_from_path, har_started_at_iso8601, har_time,
    har_url, har_url_for_event, query_pairs, ProxyTrafficEvent,
};

verus! {

/// `{"name": name, "value": value}`.
pub open spec fn pair_is(v: JsonValue, name: Seq<char>, value: Seq<char>) -> bool {
    members_are(v, seq!["name"@, "value"@]) && str_is(member(v, 0), name) && str_is(member(v, 1), value)
}

pub open spec fn headers_are(v: JsonValue, hs: Seq<ProxyTrafficHeader>) -> bool {
    match v {
        JsonValue::Array(xs) => xs@.len() == hs.len() && forall|j: int|
            0 <= j < hs.len() ==> pair_is(#[trigger] xs@[j], hs[j].name@, hs[j].value@),
        _ => false,
    }
}

pub open spec fn query_is(v: JsonValue, ps: Seq<(Seq<char>, Seq<char>)>) -> bool {
    match v {
        JsonValue::Array(xs) => xs@.len() == ps.len() && forall|j: int|
            0 <= j < ps.len() ==> pair_is(#[trigger] xs@[j], ps[j].0, ps[j].1),
        _ => false,
    }
}

// ---------------------------------------------------------------------------
// Building JSON values
// ---------------------------------------------------------------------------

fn jstr(s: String) -> (r: JsonValue)
    ensures
        str_is(r, s@),
{
    JsonValue::Str(s)
}

fn jlit(s: &str) -> (r: JsonValue)
    ensures
        str_is(r, s@),
{
    JsonValue::Str(s.to_owned())
}

fn jnum(n: u64) -> (r: JsonValue)
    ensures
        u64_is(r, n),
{
    JsonValue::Number(JsonNumber { as_u64: Some(n), text: dec_string(n) })
}

fn jopt(o: &Option<String>) -> (r: JsonValue)
    ensures
        opt_str_is(
            r,
            match o {
                Some(s) => Some(s@),
                None => None,
            },
        ),
{
    match o {
        Some(s) => JsonValue::Str(s.clone()),
        None => JsonValue::Null,
    }
}

fn m(key: &str, value: JsonValue) -> (r: JsonMember)
    ensures
        r.key@ == key@,
        r.value == value,
{
    JsonMember { key: key.to_owned(), value }
}

fn name_value(name: String, value: String) -> (r: JsonValue)
    ensures
        pair_is(r, name@, value@),
{
    let mut ms: Vec<JsonMember> = Vec::new();
    ms.push(m("name", jstr(name)));
    ms.push(m("value", jstr(value)));
    JsonValue::Object(ms)
}

fn har_headers(hs: &Vec<ProxyTrafficHeader>) -> (r: JsonValue)
    ensures
        headers_are(r, hs@),
{
    let mut xs: Vec<JsonValue> = Vec::new();
    let mut i: usize = 0;
    while i < hs.len()
        invariant
            i <= hs@.len(),
            xs@.len() == i,
            forall|j: int| 0 <= j < i ==> pair_is(#[trigger] xs@[j], hs@[j].name@, hs@[j].value@),
        decreases hs.len() - i,
    {
        xs.push(name_value(hs[i].name.clone(), hs[i].value.clone()));
        i = i + 1;
    }
    JsonValue::Array(xs)
}

fn har_query(path: &str) -> (r: JsonValue)
    ensures
        query_is(r, query_pairs(path@)),
{
    let pairs = har_query_from_path(path);
    let ghost ps = pairs@.map_values(|x: (String, String)| (x.0@, x.1@));
    let mut xs: Vec<JsonValue> = Vec::new();
    let mut i: usize = 0;
    while i < pairs.len()
        invariant
            i <= pairs@.len(),
            ps == pairs@.map_values(|x: (String, String)| (x.0@, x.1@)),
            ps == query_pairs(path@),
            xs@.len() == i,
            forall|j: int| 0 <= j < i ==> pair_is(#[trigger] xs@[j], ps[j].0, ps[j].1),
        decreases pairs.len() - i,
    {
        assert(ps[i as int] == (pairs@[i as int].0@, pairs@[i as int].1@));
        xs.push(name_value(pairs[i].0.clone(), pairs[i].1.clone()));
        i = i + 1;
    }
    JsonValue::Array(xs)
}

// ---------------------------------------------------------------------------
// Entries
// ---------------------------------------------------------------------------

pub open spec fn opt_view_of(o: Option<String>) -> Option<Seq<char>> {
    match o {
        Some(s) => Some(s@),
        None => None,
    }
}

/// `postData`: the request body preview with the request's content type,
/// or `null`.
pub open spec fn post_data_read(v: JsonValue, e: ProxyTrafficEvent) -> bool {
    match e.request_body_preview {
        Some(p) => members_are(v, seq!["mimeType"@, "text"@]) && str_is(member(v, 0), har_mime(e.request_headers@))
            && str_is(member(v, 1), p@),
        None => v is Null,
    }
}

pub open spec fn request_read(v: JsonValue, e: ProxyTrafficEvent) -> bool {
    &&& members_are(
        v,
        seq![
            "bodySize"@,
            "headers"@,
            "headersSize"@,
            "httpVersion"@,
            "method"@,
            "postData"@,
            "queryString"@,
            "url"@,
        ],
    )
    &&& u64_is(member(v, 0), e.request_body_bytes)
    &&& headers_are(member(v, 1), e.request_headers@)
    &&& u64_is(member(v, 2), e.request_header_bytes)
    &&& str_is(member(v, 3), "HTTP/1.1"@)
    &&& str_is(member(v, 4), e.method@)
    &&& post_data_read(member(v, 5), e)
    &&& query_is(member(v, 6), query_pairs(e.path@))
    &&& str_is(member(v, 7), har_url(e.host@, e.path@))
}

/// `content`: size and content type, and the preview when there is one.
pub open spec fn content_read(v: JsonValue, e: ProxyTrafficEvent) -> bool {
    match e.response_body_preview {
        Some(p) => members_are(v, seq!["mimeType"@, "size"@, "text"@]) && str_is(
            member(v, 0),
            har_mime(e.response_headers@),
        ) && u64_is(member(v, 1), e.response_body_bytes) && str_is(member(v, 2), p@),
        None => members_are(v, seq!["mimeType"@, "size"@]) && str_is(member(v, 0), har_mime(e.response_headers@))
            && u64_is(member(v, 1), e.response_body_bytes),
    }
}

pub open spec fn response_read(v: JsonValue, e: ProxyTrafficEvent) -> bool {
    &&& members_are(
        v,
        seq![
            "bodySize"@,
            "content"@,
            "headers"@,
            "headersSize"@,
            "httpVersion"@,
            "redirectURL"@,
            "status"@,
            "statusText"@,
        ],
    )
    &&& u64_is(member(v, 0), e.response_body_bytes)
    &&& content_read(member(v, 1), e)
    &&& headers_are(member(v, 2), e.response_headers@)
    &&& u64_is(member(v, 3), e.response_header_bytes)
    &&& str_is(member(v, 4), "HTTP/1.1"@)
    &&& str_is(member(v, 5), Seq::empty())
    &&& u64_is(
        member(v, 6),
        match e.status_code {
            Some(c) => c as u64,
            None => 0u64,
        },
    )
    &&& str_is(member(v, 7), Seq::empty())
}

pub open spec fn timings_read(v: JsonValue, e: ProxyTrafficEvent) -> bool {
    members_are(v, seq!["receive"@, "send"@, "wait"@]) && u64_is(member(v, 0), 0) && u64_is(member(v, 1), 0)
        && u64_is(member(v, 2), e.duration_ms)
}

/// `_loopbox`: where the exchange was recorded and what was kept of it.
pub open spec fn loopbox_read(v: JsonValue, e: ProxyTrafficEvent) -> bool {
    &&& members_are(
        v,
        seq![
            "error"@,
            "project"@,
            "request_body_binary"@,
            "request_body_bytes"@,
            "request_body_truncated"@,
            "request_header_bytes"@,
            "response_body_binary"@,
            "response_body_bytes"@,
            "response_body_truncated"@,
            "response_header_bytes"@,
            "service"@,
        ],
    )
    &&& opt_str_is(member(v, 0), opt_view_of(e.error))
    &&& str_is(member(v, 1), e.project_name@)
    &&& bool_is(member(v, 2), e.request_body_binary)
    &&& u64_is(member(v, 3), e.request_body_bytes)
    &&& bool_is(member(v, 4), e.request_body_truncated)
    &&& u64_is(member(v, 5), e.request_header_bytes)
    &&& bool_is(member(v, 6), e.response_body_binary)
    &&& u64_is(member(v, 7), e.response_body_bytes)
    &&& bool_is(member(v, 8), e.response_body_truncated)
    &&& u64_is(member(v, 9), e.response_header_bytes)
    &&& str_is(member(v, 10), e.service_name@)
}

/// The HAR entry of a recorded exchange.
pub open spec fn har_entry_read(v: JsonValue, e: ProxyTrafficEvent) -> bool {
    &&& members_are(
        v,
        seq!["_loopbox"@, "cache"@, "request"@, "response"@, "startedDateTime"@, "time"@, "timings"@],
    )
    &&& loopbox_read(member(v, 0), e)
    &&& members_are(member(v, 1), Seq::empty())
    &&& request_read(member(v, 2), e)
    &&& response_read(member(v, 3), e)
    &&& str_is(member(v, 4), har_time(e.started_at_utc@))
    &&& u64_is(member(v, 5), e.duration_ms)
    &&& timings_read(member(v, 6), e)
}

fn request_of(e: &ProxyTrafficEvent) -> (r: JsonValue)
    ensures
        request_read(r, *e),
{
    let post_data = match &e.request_body_preview {
        Some(p) => {
            let mut pd: Vec<JsonMember> = Vec::new();
            pd.push(m("mimeType", jstr(har_mime_type_from_headers(&e.request_headers))));
            pd.push(m("text", jstr(p.clone())));
            JsonValue::Object(pd)
        },
        None => JsonValue::Null,
    };
    let mut ms: Vec<JsonMember> = Vec::new();
    ms.push(m("bodySize", jnum(e.request_body_bytes)));
    ms.push(m("headers", har_headers(&e.request_headers)));
    ms.push(m("headersSize", jnum(e.request_header_bytes)));
    ms.push(m("httpVersion", jlit("HTTP/1.1")));
    ms.push(m("method", jstr(e.method.clone())));
    ms.push(m("postData", post_data));
    ms.push(m("queryString", har_query(e.path.as_str())));
    ms.push(m("url", jstr(har_url_for_event(e))));
    JsonValue::Object(ms)
}

fn response_of(e: &ProxyTrafficEvent) -> (r: JsonValue)
    ensures
        response_read(r, *e),
{
    let mut content: Vec<JsonMember> = Vec::new();
    content.push(m("mimeType", jstr(har_mime_type_from_headers(&e.response_headers))));
    content.push(m("size", jnum(e.response_body_bytes)));
    match &e.response_body_preview {
        Some(p) => {
            content.push(m("text", jstr(p.clone())));
        },
        None => {},
    }
    let status: u64 = match e.status_code {
        Some(c) => c as u64,
        None => 0,
    };
    let mut ms: Vec<JsonMember> = Vec::new();
    ms.push(m("bodySize", jnum(e.response_body_bytes)));
    ms.push(m("content", JsonValue::Object(content)));
    ms.push(m("headers", har_headers(&e.response_headers)));
    ms.push(m("headersSize", jnum(e.response_header_bytes)));
    ms.push(m("httpVersion", jlit("HTTP/1.1")));
    ms.push(m("redirectURL", jstr(String::new())));
    ms.push(m("status", jnum(status)));
    ms.push(m("statusText", jstr(String::new())));
    JsonValue::Object(ms)
}

fn loopbox_of(e: &ProxyTrafficEvent) -> (r: JsonValue)
    ensures
        loopbox_read(r, *e),
{
    let mut ms: Vec<JsonMember> = Vec::new();
    ms.push(m("error", jopt(&e.error)));
    ms.push(m("project", jstr(e.project_name.clone())));
    ms.push(m("request_body_binary", JsonValue::Bool(e.request_body_binary)));
    ms.push(m("request_body_bytes", jnum(e.request_body_bytes)));
    ms.push(m("request_body_truncated", JsonValue::Bool(e.request_body_truncated)));
    ms.push(m("request_header_bytes", jnum(e.request_header_bytes)));
    ms.push(m("response_body_binary", JsonValue::Bool(e.response_body_binary)));
    ms.push(m("response_body_bytes", jnum(e.response_body_bytes)));
    ms.push(m("response_body_truncated", JsonValue::Bool(e.response_body_truncated)));
    ms.push(m("response_header_bytes", jnum(e.response_header_bytes)));
    ms.push(m("service", jstr(e.service_name.clone())));
    JsonValue::Object(ms)
}

/// The HAR entry of a recorded exchange.
pub fn proxy_event_to_har_entry(event: &ProxyTrafficEvent) -> (r: JsonValue)
    ensures
        har_entry_read(r, *event),
{
    let mut timings: Vec<JsonMember> = Vec::new();
    timings.push(m("receive", jnum(0)));
    timings.push(m("send", jnum(0)));
    timings.push(m("wait", jnum(event.duration_ms)));
    let mut ms: Vec<JsonMember> = Vec::new();
    ms.push(m("_loopbox", loopbox_of(event)));
    ms.push(m("cache", JsonValue::Object(Vec::new())));
    ms.push(m("request", request_of(event)));
    ms.push(m("response", response_of(event)));
    ms.push(m("startedDateTime", jstr(har_started_at_iso8601(event.started_at_utc.as_str()))));
    ms.push(m("time", jnum(event.duration_ms)));
    ms.push(m("timings", JsonValue::Object(timings)));
    JsonValue::Object(ms)
}

// ---------------------------------------------------------------------------
// The archive
// ---------------------------------------------------------------------------

/// `{"log": {"creator": {"name": "Loopbox", "version": version}, "entries":
/// [...], "version": "1.2"}}`, one entry per event, in order.
pub open spec fn har_document_read(v: JsonValue, events: Seq<ProxyTrafficEvent>, version: Seq<char>) -> bool {
    let log = member(v, 0);
    let creator = member(log, 0);
    &&& members_are(v, seq!["log"@])
    &&& members_are(log, seq!["creator"@, "entries"@, "version"@])
    &&& members_are(creator, seq!["name"@, "version"@])
    &&& str_is(member(creator, 0), "Loopbox"@)
    &&& str_is(member(creator, 1), version)
    &&& match member(log, 1) {
        JsonValue::Array(xs) => xs@.len() == events.len() && forall|j: int|
            0 <= j < events.len() ==> har_entry_read(#[trigger] xs@[j], events[j]),
        _ => false,
    }
    &&& str_is(member(log, 2), "1.2"@)
}

/// The HAR archive of the events, and its text as `serde_json` writes it
/// pretty-printed.
pub fn har_export(events: &Vec<ProxyTrafficEvent>, version: &str) -> (r: (JsonValue, String))
    ensures
        har_document_read(r.0, events@, version@),
        r.1@ == json_pretty_text(r.0),
{
    let mut entries: Vec<JsonValue> = Vec::new();
    let mut i: usize = 0;
    while i < events.len()
        invariant
            i <= events@.len(),
            entries@.len() == i,
            forall|j: int| 0 <= j < i ==> har_entry_read(#[trigger] entries@[j], events@[j]),
        decreases events.len() - i,
    {
        entries.push(proxy_event_to_har_entry(&events[i]));
        i = i + 1;
    }
    let mut creator: Vec<JsonMember> = Vec::new();
    creator.push(m("name", jlit("Loopbox")));
    creator.push(m("version", jlit(version)));
    let mut log: Vec<JsonMember> = Vec::new();
    log.push(m("creator", JsonValue::Object(creator)));
    log.push(m("entries", JsonValue::Array(entries)));
    log.push(m("version", jlit("1.2")));
    let mut doc: Vec<JsonMember> = Vec::new();
    doc.push(m("log", JsonValue::Object(log)));
    let document = JsonValue::Object(doc);
    let text = json_to_pretty_string(&document);
    (document, text)
}

} // verus!
