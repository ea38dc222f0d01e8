//! How an HTTP/1 exchange is forwarded through the proxy: where the headers
//! end, and how each body is framed (by length, in chunks, until the
//! connection closes, or not at all).

use vstd::prelude::*;
use crate::http_meta::{
    content_length, has_chunked_transfer_encoding, has_connection_close_header, header_end,
    header_end_index, header_has_token, header_value, is_protocol_upgrade_response,
    parse_content_length_from_headers, parse_response_status, response_should_not_have_body,
    response_status,
};
use crate::audit::{utf8_decode, utf8_decoded};
use crate::kube::{cat, dec_string};
use crate::license::{utf8_bytes, utf8_encoding};
use crate::text::{dec_chars, str_views};
use crate::config::ProxyCaptureMode;
use crate::http_meta::{
    header_views, parse_and_redact_headers, parsed_headers, redact_path_query, redacted_path,
    ProxyTrafficHeader,
};
use crate::preview::BodyPreviewResult;
use crate::routes::ProxyRoute;
use crate::traffic::ProxyTrafficEvent;
use crate::routes::opt_view;
use crate::text::{
    chars_of, eq_ignore_case, is_char, split_char_chars, split_pred, trim,
    trim_chars, views,
};

verus! {

/// The most header bytes read from a client before giving up.
pub const MAX_REQUEST_HEADER_BYTES: usize = 262_144;

/// The most header bytes read from an upstream before giving up.
pub const MAX_RESPONSE_HEADER_BYTES: usize = 262_144;

/// How a request body is read: a fixed number of bytes, chunked, or none.
#[derive(Debug, Clone, Copy, PartialEq, Eq, Structural)]
pub enum BodyFraming {
    Length(usize),
    Chunked,
    NoBody,
}

/// The framing a message's headers announce: `Content-Length` first, then
/// chunked transfer encoding.
pub open spec fn announced_framing(headers: Seq<u8>) -> BodyFraming {
    match content_length(headers) {
        Some(n) => BodyFraming::Length(n as usize),
        None => if header_has_token(headers, "transfer-encoding"@, "chunked"@) {
            BodyFraming::Chunked
        } else {
            BodyFraming::NoBody
        },
    }
}

/// Where the headers of a preamble end: after the blank line, or at its end
/// when none was read.
pub open spec fn headers_end(preamble: Seq<u8>) -> nat {
    match header_end(preamble) {
        Some(e) => e,
        None => preamble.len(),
    }
}

proof fn lemma_header_end_within(b: Seq<u8>, p: nat)
    ensures
        match crate::http_meta::header_end_from(b, p) {
            Some(e) => e <= b.len(),
            None => true,
        },
    decreases b.len() - p,
{
    if p + 4 <= b.len() && !crate::http_meta::terminator_at(b, p as int) {
        lemma_header_end_within(b, p + 1);
    }
}

/// Splits a preamble read from a socket into the headers and the body bytes
/// read along with them.
pub fn split_preamble(preamble: &[u8]) -> (r: usize)
    ensures
        r as nat == headers_end(preamble@),
        r <= preamble@.len(),
{
    proof {
        lemma_header_end_within(preamble@, 0);
    }
    match header_end_index(preamble) {
        Some(e) => e,
        None => preamble.len(),
    }
}

/// How the request body is forwarded.
pub fn request_body_framing(headers: &[u8]) -> (r: BodyFraming)
    ensures
        r == announced_framing(headers@),
{
    match parse_content_length_from_headers(headers) {
        Some(n) => BodyFraming::Length(n),
        None => if has_chunked_transfer_encoding(headers) {
            BodyFraming::Chunked
        } else {
            BodyFraming::NoBody
        },
    }
}

/// What to do with an upstream response after its headers were sent on.
#[derive(Debug, Clone, Copy, PartialEq, Eq, Structural)]
pub enum ResponseBodyPlan {
    /// The connection switched protocols: pass the read bytes on, then
    /// relay both ways.
    Upgrade,
    /// The response has no body.
    NoBody,
    /// A body of this many bytes.
    Length(usize),
    /// A chunked body.
    Chunked,
    /// Copy until the upstream closes (and close after it when it said so).
    UntilClose(bool),
    /// Nothing more to copy.
    Done,
}

/// The plan for an upstream response: an upgrade is relayed; a response to
/// HEAD, or with a 1xx, 204 or 304 status, has no body; else the announced
/// framing, or copying until close when bytes are waiting or the upstream
/// said it will close.
pub open spec fn response_plan(status: Option<u16>, method: Seq<char>, headers: Seq<u8>, prefetched: nat) -> ResponseBodyPlan {
    let upgrade = status == Some(101u16) || (header_has_token(headers, "connection"@, "upgrade"@) && header_value(
        headers,
        "upgrade"@,
    ) is Some);
    let no_body = eq_ignore_case(method, "HEAD"@) || match status {
        Some(c) => (100 <= c < 200) || c == 204 || c == 304,
        None => false,
    };
    let close = header_has_token(headers, "connection"@, "close"@);
    if upgrade {
        ResponseBodyPlan::Upgrade
    } else if no_body {
        ResponseBodyPlan::NoBody
    } else {
        match announced_framing(headers) {
            BodyFraming::Length(n) => ResponseBodyPlan::Length(n),
            BodyFraming::Chunked => ResponseBodyPlan::Chunked,
            BodyFraming::NoBody => if prefetched > 0 || close {
                ResponseBodyPlan::UntilClose(close)
            } else {
                ResponseBodyPlan::Done
            },
        }
    }
}

/// How an upstream response is forwarded, from its headers, the request
/// method and how many body bytes came with the headers.
pub fn response_body_plan(response_headers: &[u8], request_method: &str, prefetched_len: usize) -> (r: (Option<u16>, ResponseBodyPlan))
    ensures
        match r.0 {
            Some(c) => response_status(response_headers@) == Some(c as nat),
            None => response_status(response_headers@) is None,
        },
        r.1 == response_plan(r.0, request_method@, response_headers@, prefetched_len as nat),
{
    let status = parse_response_status(response_headers);
    if is_protocol_upgrade_response(status, response_headers) {
        return (status, ResponseBodyPlan::Upgrade);
    }
    if response_should_not_have_body(status, request_method) {
        return (status, ResponseBodyPlan::NoBody);
    }
    let plan = match request_body_framing(response_headers) {
        BodyFraming::Length(n) => ResponseBodyPlan::Length(n),
        BodyFraming::Chunked => ResponseBodyPlan::Chunked,
        BodyFraming::NoBody => {
            let close = has_connection_close_header(response_headers);
            if prefetched_len > 0 || close {
                ResponseBodyPlan::UntilClose(close)
            } else {
                ResponseBodyPlan::Done
            }
        },
    };
    (status, plan)
}

// ---------------------------------------------------------------------------
// Chunked bodies
// ---------------------------------------------------------------------------

/// The value of a hexadecimal digit (`0-9`, `a-f`, `A-F`).
pub open spec fn hex_digit_value(c: char) -> Option<nat> {
    if '0' <= c && c <= '9' {
        Some((c as nat - '0' as nat) as nat)
    } else if 'a' <= c && c <= 'f' {
        Some((c as nat - 'a' as nat + 10) as nat)
    } else if 'A' <= c && c <= 'F' {
        Some((c as nat - 'A' as nat + 10) as nat)
    } else {
        None
    }
}

pub open spec fn all_hex(s: Seq<char>) -> bool {
    forall|i: int| 0 <= i < s.len() ==> (#[trigger] hex_digit_value(s[i])) is Some
}

/// The value of a string of hexadecimal digits.
pub open spec fn hex_value(s: Seq<char>) -> nat
    decreases s.len(),
{
    if s.len() == 0 {
        0
    } else {
        hex_value(s.drop_last()) * 16 + hex_digit_value(s.last()).unwrap_or(0)
    }
}

/// `usize::from_str_radix(s, 16)`: an optional `+`, then at least one
/// hexadecimal digit, with a value that fits.
pub open spec fn parse_hex(s: Seq<char>, max: nat) -> Option<nat> {
    let d = if s.len() > 0 && s[0] == '+' {
        s.drop_first()
    } else {
        s
    };
    if d.len() > 0 && all_hex(d) && hex_value(d) <= max {
        Some(hex_value(d))
    } else {
        None
    }
}

/// A chunk-size line without its trailing CRLF.
pub open spec fn without_crlf(line: Seq<u8>) -> Seq<u8> {
    if line.len() >= 2 && line[line.len() - 2] == 13 && line[line.len() - 1] == 10 {
        line.take(line.len() - 2)
    } else {
        line
    }
}

/// The size a chunk-size line announces: the line, without CRLF, must be
/// UTF-8; its part before the first `;`, trimmed, is the size in hex.
pub open spec fn chunk_size(line: Seq<u8>) -> Option<nat> {
    match utf8_decoded(without_crlf(line)) {
        Some(text) => parse_hex(trim(split_pred(text, is_char(';'))[0]), usize::MAX as nat),
        None => None,
    }
}

fn hex_digit_of(c: char) -> (r: Option<u64>)
    ensures
        match r {
            Some(v) => hex_digit_value(c) == Some(v as nat),
            None => hex_digit_value(c) is None,
        },
{
    if '0' <= c && c <= '9' {
        Some((c as u32 - '0' as u32) as u64)
    } else if 'a' <= c && c <= 'f' {
        Some((c as u32 - 'a' as u32 + 10) as u64)
    } else if 'A' <= c && c <= 'F' {
        Some((c as u32 - 'A' as u32 + 10) as u64)
    } else {
        None
    }
}

proof fn lemma_hex_value_grows(s: Seq<char>, c: char)
    requires
        hex_digit_value(c) is Some,
    ensures
        hex_value(s.push(c)) == hex_value(s) * 16 + hex_digit_value(c).unwrap(),
        hex_value(s.push(c)) >= hex_value(s),
{
    assert(s.push(c).drop_last() =~= s);
}

/// `usize::from_str_radix(text, 16)`.
pub fn parse_hex_chars(v: &Vec<char>) -> (r: Option<usize>)
    ensures
        match r {
            Some(x) => parse_hex(v@, usize::MAX as nat) == Some(x as nat),
            None => parse_hex(v@, usize::MAX as nat) is None,
        },
{
    let from: usize = if v.len() > 0 && v[0] == '+' {
        1
    } else {
        0
    };
    let ghost d = if v@.len() > 0 && v@[0] == '+' {
        v@.drop_first()
    } else {
        v@
    };
    assert(d =~= v@.skip(from as int));
    if from == v.len() {
        return None;
    }
    let mut acc: usize = 0;
    let mut over = false;
    let mut i = from;
    assert(v@.subrange(from as int, from as int) =~= Seq::<char>::empty());
    while i < v.len()
        invariant
            from <= i <= v.len(),
            d =~= v@.skip(from as int),
            d == (if v@.len() > 0 && v@[0] == '+' {
                v@.drop_first()
            } else {
                v@
            }),
            forall|j: int| from <= j < i ==> (#[trigger] hex_digit_value(v@[j])) is Some,
            !over ==> acc as nat == hex_value(v@.subrange(from as int, i as int)),
            over ==> hex_value(v@.subrange(from as int, i as int)) > usize::MAX,
        decreases v.len() - i,
    {
        let c = v[i];
        let dv = match hex_digit_of(c) {
            Some(x) => x,
            None => {
                assert(d[i - from] == c);
                assert(hex_digit_value(d[i - from]) is None);
                assert(!all_hex(d));
                return None;
            },
        };
        let ghost prev = v@.subrange(from as int, i as int);
        assert(v@.subrange(from as int, i + 1) =~= prev.push(c));
        proof {
            lemma_hex_value_grows(prev, c);
        }
        if !over {
            let next: u128 = (acc as u128) * 16 + (dv as u128);
            if next > usize::MAX as u128 {
                over = true;
            } else {
                acc = next as usize;
            }
        }
        i = i + 1;
    }
    proof {
        assert(d =~= v@.subrange(from as int, v.len() as int));
        assert forall|k: int| 0 <= k < d.len() implies (#[trigger] hex_digit_value(d[k])) is Some by {
            assert(d[k] == v@[k + from]);
        }
    }
    if over {
        None
    } else {
        Some(acc)
    }
}

/// The size a chunk-size line of a chunked body announces; `None` when the
/// line is not UTF-8 or its size is no hexadecimal number that fits.
pub fn chunk_size_from_line(line: &[u8]) -> (r: Option<usize>)
    ensures
        match r {
            Some(n) => chunk_size(line@) == Some(n as nat),
            None => chunk_size(line@) is None,
        },
{
    let len = line.len();
    let mut body: Vec<u8> = Vec::new();
    let keep: usize = if len >= 2 && line[len - 2] == 13 && line[len - 1] == 10 {
        len - 2
    } else {
        len
    };
    let mut i: usize = 0;
    while i < keep
        invariant
            keep <= line@.len(),
            i <= keep,
            body@ =~= line@.take(i as int),
        decreases keep - i,
    {
        body.push(line[i]);
        i = i + 1;
    }
    assert(body@ =~= without_crlf(line@));
    let decoded = utf8_decode(body.as_slice());
    match decoded {
        Some(text) => {
            assert(opt_view(Some(text)) == Some(text@));
            let tv = chars_of(text.as_str());
            let parts = split_char_chars(&tv, ';');
            assert(views(parts@)[0] == parts@[0]@);
            parse_hex_chars(&trim_chars(&parts[0]))
        },
        None => None,
    }
}

// ---------------------------------------------------------------------------
// Error responses
// ---------------------------------------------------------------------------

/// The plain-text response the proxy sends when it cannot forward: the
/// status line, the content type, the body's length in bytes, and the
/// message on a line of its own.
pub open spec fn error_response_text(status: Seq<char>, message: Seq<char>) -> Seq<char> {
    let body = message + "\n"@;
    "HTTP/1.1 "@ + status + "\r\nContent-Type: text/plain; charset=utf-8\r\nContent-Length: "@ + dec_chars(
        utf8_encoding(body).len(),
    ) + "\r\nConnection: close\r\n\r\n"@ + body
}

/// The error response for a status and a message.
pub fn http_error_response(status: &str, message: &str) -> (r: String)
    ensures
        r@ == error_response_text(status@, message@),
{
    let body = cat(message, "\n");
    let length = utf8_bytes(body.as_str()).len();
    let head = cat(
        cat("HTTP/1.1 ", status).as_str(),
        "\r\nContent-Type: text/plain; charset=utf-8\r\nContent-Length: ",
    );
    let with_length = cat(head.as_str(), dec_string(length as u64).as_str());
    let r = cat(cat(with_length.as_str(), "\r\nConnection: close\r\n\r\n").as_str(), body.as_str());
    assert(r@ =~= error_response_text(status@, message@));
    r
}

// ---------------------------------------------------------------------------
// Recording an exchange
// ---------------------------------------------------------------------------

/// What is recorded of a request before it is forwarded.
pub struct Http1CapturePlan {
    pub capture_headers: bool,
    pub capture_body_preview: bool,
    /// The path with the sensitive query values hidden.
    pub path: String,
    /// The request headers, redacted, when headers are captured.
    pub request_headers: Vec<ProxyTrafficHeader>,
}

/// What the route's capture mode asks for: headers unless only metadata is
/// captured, body previews in body-preview mode.
pub fn http1_capture_plan(route: &ProxyRoute, raw_path: &str, request_preamble: &[u8]) -> (r: Http1CapturePlan)
    ensures
        r.capture_headers == (route.capture_mode != ProxyCaptureMode::Metadata),
        r.capture_body_preview == (route.capture_mode == ProxyCaptureMode::BodyPreview),
        r.path@ == redacted_path(raw_path@, str_views(route.redacted_query_keys@)),
        r.capture_headers ==> header_views(r.request_headers@) == parsed_headers(
            request_preamble@,
            str_views(route.redacted_header_names@),
        ),
        !r.capture_headers ==> r.request_headers@.len() == 0,
{
    let capture_headers = match route.capture_mode {
        ProxyCaptureMode::Metadata => false,
        _ => true,
    };
    let capture_body_preview = match route.capture_mode {
        ProxyCaptureMode::BodyPreview => true,
        _ => false,
    };
    let path = redact_path_query(raw_path, route.redacted_query_keys.as_slice());
    let request_headers = if capture_headers {
        parse_and_redact_headers(request_preamble, route.redacted_header_names.as_slice())
    } else {
        Vec::new()
    };
    Http1CapturePlan { capture_headers, capture_body_preview, path, request_headers }
}

/// What forwarding an exchange measured.
pub struct ForwardMetrics {
    pub status_code: Option<u16>,
    pub request_header_bytes: u64,
    pub request_body_bytes: u64,
    pub response_header_bytes: u64,
    pub response_body_bytes: u64,
    pub response_headers: Vec<ProxyTrafficHeader>,
    pub request_body: BodyPreviewResult,
    pub response_body: BodyPreviewResult,
}

pub open spec fn sat_add(a: u64, b: u64) -> u64 {
    if a + b > u64::MAX {
        u64::MAX
    } else {
        (a + b) as u64
    }
}

/// The recorded event of an HTTP/1 exchange through a route that captures
/// traffic: what was measured, or, when forwarding failed, the request as
/// read and the error; `None` when the route does not capture.
pub open spec fn http1_event_read(
    r: ProxyTrafficEvent,
    route: ProxyRoute,
    plan: Http1CapturePlan,
    host: Seq<char>,
    method: Seq<char>,
    preamble: Seq<u8>,
    started_at_utc: Seq<char>,
    duration_ms: u64,
    outcome: Result<ForwardMetrics, String>,
) -> bool {
    &&& r.id == 0
    &&& r.started_at_utc@ == started_at_utc
    &&& r.project_name@ == route.project_name@
    &&& r.service_name@ == route.service_name@
    &&& r.protocol@ == "http1"@
    &&& r.host@ == host
    &&& r.method@ == method
    &&& r.path@ == plan.path@
    &&& r.stream_id is None && r.grpc_service is None && r.grpc_method is None
    &&& r.grpc_status is None && r.grpc_message is None
    &&& r.duration_ms == duration_ms
    &&& r.request_headers@ == plan.request_headers@
    &&& match outcome {
        Ok(m) => {
            &&& r.status_code == m.status_code
            &&& r.request_bytes == sat_add(m.request_header_bytes, m.request_body_bytes)
            &&& r.response_bytes == sat_add(m.response_header_bytes, m.response_body_bytes)
            &&& r.request_header_bytes == m.request_header_bytes
            &&& r.request_body_bytes == m.request_body_bytes
            &&& r.response_header_bytes == m.response_header_bytes
            &&& r.response_body_bytes == m.response_body_bytes
            &&& r.response_headers@ == m.response_headers@
            &&& r.request_body_preview == m.request_body.preview
            &&& r.response_body_preview == m.response_body.preview
            &&& r.request_body_truncated == m.request_body.truncated
            &&& r.response_body_truncated == m.response_body.truncated
            &&& r.request_body_binary == m.request_body.binary
            &&& r.response_body_binary == m.response_body.binary
            &&& r.error is None
        },
        Err(e) => {
            &&& r.status_code is None
            &&& r.request_bytes == preamble.len()
            &&& r.response_bytes == 0
            &&& r.request_header_bytes == headers_end(preamble)
            &&& r.request_body_bytes == preamble.len() - headers_end(preamble)
            &&& r.response_header_bytes == 0 && r.response_body_bytes == 0
            &&& r.response_headers@.len() == 0
            &&& r.request_body_preview is None && r.response_body_preview is None
            &&& !r.request_body_truncated && !r.response_body_truncated
            &&& !r.request_body_binary && !r.response_body_binary
            &&& opt_view(r.error) == Some(e@)
        },
    }
}

fn saturating(a: u64, b: u64) -> (r: u64)
    ensures
        r == sat_add(a, b),
{
    if a > u64::MAX - b {
        u64::MAX
    } else {
        a + b
    }
}

/// The event recorded for an HTTP/1 exchange (see [`http1_event_read`]).
pub fn http1_traffic_event(
    route: ProxyRoute,
    plan: Http1CapturePlan,
    host: String,
    method: String,
    request_preamble: &[u8],
    started_at_utc: String,
    duration_ms: u64,
    outcome: Result<ForwardMetrics, String>,
) -> (r: Option<ProxyTrafficEvent>)
    requires
        request_preamble@.len() <= u64::MAX,
    ensures
        !route.capture_enabled ==> r is None,
        route.capture_enabled ==> (r matches Some(e) && http1_event_read(
            e,
            route,
            plan,
            host@,
            method@,
            request_preamble@,
            started_at_utc@,
            duration_ms,
            outcome,
        )),
{
    if !route.capture_enabled {
        return None;
    }
    let ghost g_route = route;
    let ghost g_plan = plan;
    let ghost g_outcome = outcome;
    let event = match outcome {
        Ok(m) => ProxyTrafficEvent {
            id: 0,
            started_at_utc,
            project_name: route.project_name,
            service_name: route.service_name,
            protocol: "http1".to_owned(),
            host,
            method,
            path: plan.path,
            status_code: m.status_code,
            stream_id: None,
            grpc_service: None,
            grpc_method: None,
            grpc_status: None,
            grpc_message: None,
            duration_ms,
            request_bytes: saturating(m.request_header_bytes, m.request_body_bytes),
            response_bytes: saturating(m.response_header_bytes, m.response_body_bytes),
            request_header_bytes: m.request_header_bytes,
            request_body_bytes: m.request_body_bytes,
            response_header_bytes: m.response_header_bytes,
            response_body_bytes: m.response_body_bytes,
            request_headers: plan.request_headers,
            response_headers: m.response_headers,
            request_body_preview: m.request_body.preview,
            response_body_preview: m.response_body.preview,
            request_body_truncated: m.request_body.truncated,
            response_body_truncated: m.response_body.truncated,
            request_body_binary: m.request_body.binary,
            response_body_binary: m.response_body.binary,
            error: None,
        },
        Err(err) => {
            let header_end = split_preamble(request_preamble);
            ProxyTrafficEvent {
                id: 0,
                started_at_utc,
                project_name: route.project_name,
                service_name: route.service_name,
                protocol: "http1".to_owned(),
                host,
                method,
                path: plan.path,
                status_code: None,
                stream_id: None,
                grpc_service: None,
                grpc_method: None,
                grpc_status: None,
                grpc_message: None,
                duration_ms,
                request_bytes: request_preamble.len() as u64,
                response_bytes: 0,
                request_header_bytes: header_end as u64,
                request_body_bytes: (request_preamble.len() - header_end) as u64,
                response_header_bytes: 0,
                response_body_bytes: 0,
                request_headers: plan.request_headers,
                response_headers: Vec::new(),
                request_body_preview: None,
                response_body_preview: None,
                request_body_truncated: false,
                response_body_truncated: false,
                request_body_binary: false,
                response_body_binary: false,
                error: Some(err),
            }
        },
    };
    proof {
        reveal_strlit("http1");
    }
    Some(event)
}

} // verus!
