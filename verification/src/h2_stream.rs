//! What the proxy records of a gRPC stream relayed over HTTP/2 (h2c): the
//! header fields as captured, their size on the wire, the gRPC status, the
//! request's authority, and the event written when the stream ends.

use vstd::prelude::*;
use crate::http_meta::{
    header_views, HeaderView, ProxyTrafficHeader, MAX_CAPTURED_HEADERS_PER_EVENT,
    MAX_CAPTURED_HEADER_NAME_LEN, MAX_CAPTURED_HEADER_VALUE_LEN,
};
use crate::license::{utf8_bytes, utf8_encoding};
use crate::redact::{
    is_sensitive_header_name, sensitive_header, truncate_for_capture, truncated_capture,
    REDACTED_VALUE,
};
use crate::config::ProxyCaptureMode;
use crate::exchange::sat_add;
use crate::http_meta::{grpc_segment, parse_grpc_service_method, redact_path_query, redacted_path};
use crate::kube::{cat, dec_string};
use crate::preview::{BodyPreviewResult, PreviewCapture};
use crate::routes::{authority_norm, normalize_authority, opt_view, ProxyEndpointRoute};
use crate::text::dec_chars;
use crate::traffic::ProxyTrafficEvent;
use crate::text::{
    append_chars, append_str, ascii_chars_of, chars_of, i64_chars, int_chars, parse_i32_chars,
    parse_sint, str_views, string_of, trim, trim_chars, trim_str, utf8_lossy, utf8_lossy_chars,
};

verus! {

/// One field of an HTTP header block (or trailer block) as the peer sent
/// it: a name and the raw bytes of its value.
pub struct HeaderField {
    pub name: String,
    pub value: Vec<u8>,
}

pub struct FieldView {
    pub name: Seq<char>,
    pub value: Seq<u8>,
}

impl View for HeaderField {
    type V = FieldView;

    open spec fn view(&self) -> FieldView {
        FieldView { name: self.name@, value: self.value@ }
    }
}

pub open spec fn field_views(fs: Seq<HeaderField>) -> Seq<FieldView> {
    fs.map_values(|f: HeaderField| f@)
}

// ---------------------------------------------------------------------------
// Captured fields
// ---------------------------------------------------------------------------

/// The headers recorded from a field block: each field with a non-empty name,
/// the name shortened, and the value hidden when the name is on the
/// redaction list, else decoded, trimmed and shortened; at most `limit`.
pub open spec fn recorded_fields(fs: Seq<FieldView>, names: Seq<Seq<char>>, limit: nat) -> Seq<
    HeaderView,
>
    decreases fs.len(),
{
    if fs.len() == 0 || limit == 0 {
        seq![]
    } else if fs[0].name.len() == 0 {
        recorded_fields(fs.drop_first(), names, limit)
    } else {
        seq![
            HeaderView {
                name: truncated_capture(fs[0].name, MAX_CAPTURED_HEADER_NAME_LEN as nat),
                value: if sensitive_header(fs[0].name, names) {
                    REDACTED_VALUE@
                } else {
                    truncated_capture(
                        trim(utf8_lossy(fs[0].value)),
                        MAX_CAPTURED_HEADER_VALUE_LEN as nat,
                    )
                },
            },
        ] + recorded_fields(fs.drop_first(), names, (limit - 1) as nat)
    }
}

/// The headers of a field block, for recording (see [`recorded_fields`]).
pub fn header_map_to_redacted_headers(headers: &[HeaderField], redacted_header_names: &[String]) -> (r:
    Vec<ProxyTrafficHeader>)
    ensures
        header_views(r@) == recorded_fields(
            field_views(headers@),
            str_views(redacted_header_names@),
            MAX_CAPTURED_HEADERS_PER_EVENT as nat,
        ),
{
    let ghost fs = field_views(headers@);
    let ghost names = str_views(redacted_header_names@);
    let mut out: Vec<ProxyTrafficHeader> = Vec::new();
    let mut i: usize = 0;
    assert(fs.skip(0) =~= fs);
    while i < headers.len()
        invariant
            i <= headers@.len(),
            fs == field_views(headers@),
            names == str_views(redacted_header_names@),
            out@.len() < MAX_CAPTURED_HEADERS_PER_EVENT,
            header_views(out@) + recorded_fields(
                fs.skip(i as int),
                names,
                (MAX_CAPTURED_HEADERS_PER_EVENT - out@.len()) as nat,
            ) == recorded_fields(fs, names, MAX_CAPTURED_HEADERS_PER_EVENT as nat),
        decreases headers.len() - i,
    {
        let ghost rest = fs.skip(i as int);
        let ghost lim = (MAX_CAPTURED_HEADERS_PER_EVENT - out@.len()) as nat;
        assert(rest[0] == headers@[i as int]@);
        assert(rest.drop_first() =~= fs.skip(i + 1));
        let field = &headers[i];
        let name_chars = chars_of(field.name.as_str());
        if name_chars.len() > 0 {
            let rec_name = truncate_for_capture(field.name.as_str(), MAX_CAPTURED_HEADER_NAME_LEN);
            let rec_value = if is_sensitive_header_name(field.name.as_str(), redacted_header_names) {
                string_of(&chars_of(REDACTED_VALUE))
            } else {
                let decoded = utf8_lossy_chars(field.value.as_slice());
                let tv = string_of(&trim_chars(&decoded));
                truncate_for_capture(tv.as_str(), MAX_CAPTURED_HEADER_VALUE_LEN)
            };
            let h = ProxyTrafficHeader { name: rec_name, value: rec_value };
            let ghost before = header_views(out@);
            let ghost hv = HeaderView { name: h.name@, value: h.value@ };
            out.push(h);
            assert(header_views(out@) =~= before.push(hv));
            assert(recorded_fields(rest, names, lim) =~= seq![hv] + recorded_fields(
                rest.drop_first(),
                names,
                (lim - 1) as nat,
            ));
            assert(before.push(hv) + recorded_fields(rest.drop_first(), names, (lim - 1) as nat)
                =~= before + (seq![hv] + recorded_fields(rest.drop_first(), names, (lim - 1) as nat)));
            if out.len() >= MAX_CAPTURED_HEADERS_PER_EVENT {
                assert(recorded_fields(rest.drop_first(), names, 0) =~= seq![]);
                assert(header_views(out@) + seq![] =~= header_views(out@));
                return out;
            }
        }
        i = i + 1;
    }
    assert(fs.skip(i as int).len() == 0);
    assert(header_views(out@) + seq![] =~= header_views(out@));
    out
}

// ---------------------------------------------------------------------------
// Size on the wire
// ---------------------------------------------------------------------------

/// The estimated size of a field block: for each field, the bytes of its
/// name and value and four more.
pub open spec fn field_bytes(fs: Seq<FieldView>) -> nat
    decreases fs.len(),
{
    if fs.len() == 0 {
        0
    } else {
        field_bytes(fs.drop_last()) + utf8_encoding(fs.last().name).len() + fs.last().value.len()
            + 4
    }
}

/// [`field_bytes`] held at `u64::MAX` (a bound that no block held in memory
/// reaches).
pub open spec fn header_bytes_estimate(fs: Seq<FieldView>) -> u64 {
    if field_bytes(fs) > u64::MAX {
        u64::MAX
    } else {
        field_bytes(fs) as u64
    }
}

/// The estimated size of a field block (see [`header_bytes_estimate`]).
pub fn estimate_http2_header_bytes(headers: &[HeaderField]) -> (r: u64)
    ensures
        r == header_bytes_estimate(field_views(headers@)),
{
    let ghost fs = field_views(headers@);
    let mut total: u64 = 0;
    let mut i: usize = 0;
    while i < headers.len()
        invariant
            i <= headers@.len(),
            fs == field_views(headers@),
            total as nat == if field_bytes(fs.take(i as int)) > u64::MAX {
                u64::MAX as nat
            } else {
                field_bytes(fs.take(i as int))
            },
        decreases headers.len() - i,
    {
        assert(fs.take(i + 1).drop_last() =~= fs.take(i as int));
        assert(fs.take(i + 1).last() == headers@[i as int]@);
        let name_len = utf8_bytes(headers[i].name.as_str()).len();
        let value_len = headers[i].value.len();
        let step: u128 = name_len as u128 + value_len as u128 + 4;
        let sum: u128 = total as u128 + step;
        if sum > u64::MAX as u128 {
            total = u64::MAX;
        } else {
            total = sum as u64;
        }
        i = i + 1;
    }
    assert(fs.take(i as int) =~= fs);
    total
}

// ---------------------------------------------------------------------------
// Reading single fields
// ---------------------------------------------------------------------------

/// The value of the first field of a block with the given name.
pub open spec fn first_value(fs: Seq<FieldView>, name: Seq<char>) -> Option<Seq<u8>>
    decreases fs.len(),
{
    if fs.len() == 0 {
        None
    } else if fs[0].name == name {
        Some(fs[0].value)
    } else {
        first_value(fs.drop_first(), name)
    }
}

/// Every byte is a visible ASCII character or a tab.
pub open spec fn visible_ascii(b: Seq<u8>) -> bool {
    forall|i: int| 0 <= i < b.len() ==> b[i] == 9 || (32 <= #[trigger] b[i] && b[i] < 127)
}

/// A field value as text: only when each byte is visible ASCII or a tab.
pub open spec fn field_text(v: Seq<u8>) -> Option<Seq<char>> {
    if visible_ascii(v) {
        Some(ascii_chars_of(v))
    } else {
        None
    }
}

fn first_value_of<'a>(headers: &'a [HeaderField], name: &str) -> (r: Option<&'a Vec<u8>>)
    ensures
        match r {
            Some(v) => first_value(field_views(headers@), name@) == Some(v@),
            None => first_value(field_views(headers@), name@) is None,
        },
{
    let ghost fs = field_views(headers@);
    let mut i: usize = 0;
    assert(fs.skip(0) =~= fs);
    while i < headers.len()
        invariant
            i <= headers@.len(),
            fs == field_views(headers@),
            first_value(fs.skip(i as int), name@) == first_value(fs, name@),
        decreases headers.len() - i,
    {
        assert(fs.skip(i as int)[0] == headers@[i as int]@);
        assert(fs.skip(i as int).drop_first() =~= fs.skip(i + 1));
        if crate::text::str_eq(headers[i].name.as_str(), name) {
            return Some(&headers[i].value);
        }
        i = i + 1;
    }
    None
}

fn field_text_of(v: &Vec<u8>) -> (r: Option<Vec<char>>)
    ensures
        match r {
            Some(t) => field_text(v@) == Some(t@),
            None => field_text(v@) is None,
        },
{
    let mut out: Vec<char> = Vec::new();
    let mut i: usize = 0;
    while i < v.len()
        invariant
            i <= v@.len(),
            out@ == ascii_chars_of(v@.take(i as int)),
            visible_ascii(v@.take(i as int)),
        decreases v.len() - i,
    {
        let b = v[i];
        if !(b == 9 || (32 <= b && b < 127)) {
            assert(!visible_ascii(v@)) by {
                assert(v@[i as int] == b);
            }
            return None;
        }
        out.push(b as char);
        assert(v@.take(i + 1) =~= v@.take(i as int).push(b));
        assert(out@ =~= ascii_chars_of(v@.take(i + 1)));
        i = i + 1;
    }
    assert(v@.take(i as int) =~= v@);
    Some(out)
}

/// The gRPC status a field block carries: its first `grpc-status` field, as
/// text, trimmed and read as an `i32`.
pub open spec fn grpc_status_in(fs: Seq<FieldView>) -> Option<i32> {
    match first_value(fs, "grpc-status"@) {
        Some(v) => match field_text(v) {
            Some(t) => match parse_sint(trim(t), i32::MIN as int, i32::MAX as int) {
                Some(n) => Some(n as i32),
                None => None,
            },
            None => None,
        },
        None => None,
    }
}

/// The gRPC status a field block carries, if it carries a readable one.
pub fn parse_grpc_status(headers: &[HeaderField]) -> (r: Option<i32>)
    ensures
        r == grpc_status_in(field_views(headers@)),
{
    let v = match first_value_of(headers, "grpc-status") {
        Some(v) => v,
        None => return None,
    };
    let t = match field_text_of(v) {
        Some(t) => t,
        None => return None,
    };
    parse_i32_chars(&trim_chars(&t))
}

/// The gRPC message a field block carries, still percent-encoded: its first
/// `grpc-message` field, as text, trimmed, when not empty.
pub open spec fn grpc_message_raw(fs: Seq<FieldView>) -> Option<Seq<char>> {
    match first_value(fs, "grpc-message"@) {
        Some(v) => match field_text(v) {
            Some(t) => if trim(t).len() > 0 {
                Some(trim(t))
            } else {
                None
            },
            None => None,
        },
        None => None,
    }
}

/// The still-encoded gRPC message of a field block (see [`grpc_message_raw`]).
pub fn grpc_message_field(headers: &[HeaderField]) -> (r: Option<String>)
    ensures
        opt_view(r) == grpc_message_raw(field_views(headers@)),
{
    let v = match first_value_of(headers, "grpc-message") {
        Some(v) => v,
        None => return None,
    };
    let t = match field_text_of(v) {
        Some(t) => t,
        None => return None,
    };
    let trimmed = trim_chars(&t);
    if trimmed.len() == 0 {
        return None;
    }
    Some(string_of(&trimmed))
}

/// The gRPC message recorded once decoded: trimmed, shortened, and none when
/// blank.
pub open spec fn grpc_message_recorded(decoded: Seq<char>) -> Option<Seq<char>> {
    if trim(decoded).len() == 0 {
        None
    } else {
        Some(truncated_capture(trim(decoded), MAX_CAPTURED_HEADER_VALUE_LEN as nat))
    }
}

/// The gRPC message to record, from its decoded text.
pub fn grpc_message_from_decoded(decoded: &str) -> (r: Option<String>)
    ensures
        opt_view(r) == grpc_message_recorded(decoded@),
{
    let t = trim_str(decoded);
    if t.len() == 0 {
        return None;
    }
    let s = string_of(&t);
    Some(truncate_for_capture(s.as_str(), MAX_CAPTURED_HEADER_VALUE_LEN))
}

/// The authority a gRPC request is routed by: the one of its URI when it has
/// one, else its first `host` field as text; normalized either way.
pub open spec fn request_authority(uri_authority: Option<Seq<char>>, fs: Seq<FieldView>) -> Option<
    Seq<char>,
> {
    match uri_authority {
        Some(a) => authority_norm(a),
        None => match first_value(fs, "host"@) {
            Some(v) => match field_text(v) {
                Some(t) => authority_norm(t),
                None => None,
            },
            None => None,
        },
    }
}

/// The authority a gRPC request is routed by (see [`request_authority`]).
pub fn grpc_request_authority(uri_authority: Option<&str>, headers: &[HeaderField]) -> (r: Option<String>)
    ensures
        opt_view(r) == request_authority(
            match uri_authority {
                Some(a) => Some(a@),
                None => None,
            },
            field_views(headers@),
        ),
{
    match uri_authority {
        Some(a) => normalize_authority(a),
        None => match first_value_of(headers, "host") {
            Some(v) => match field_text_of(v) {
                Some(t) => {
                    let s = string_of(&t);
                    normalize_authority(s.as_str())
                },
                None => None,
            },
            None => None,
        },
    }
}

// ---------------------------------------------------------------------------
// The error recorded for a stream
// ---------------------------------------------------------------------------

/// The error recorded for a stream: the failure to relay it, if it failed;
/// else, for a gRPC status other than 0, `gRPC status N` and, when the gRPC
/// message is not blank, `: ` and the trimmed message.
pub open spec fn grpc_stream_error(
    relay_error: Option<Seq<char>>,
    grpc_status: Option<i32>,
    grpc_message: Option<Seq<char>>,
) -> Option<Seq<char>> {
    match relay_error {
        Some(e) => Some(e),
        None => match grpc_status {
            Some(s) => if s == 0 {
                None
            } else {
                Some(
                    "gRPC status "@ + int_chars(s as int) + match grpc_message {
                        Some(d) => if trim(d).len() > 0 {
                            ": "@ + trim(d)
                        } else {
                            seq![]
                        },
                        None => seq![],
                    },
                )
            },
            None => None,
        },
    }
}

/// The error recorded for a stream (see [`grpc_stream_error`]).
pub fn grpc_stream_error_text(
    relay_error: Option<String>,
    grpc_status: Option<i32>,
    grpc_message: &Option<String>,
) -> (r: Option<String>)
    ensures
        opt_view(r) == grpc_stream_error(opt_view(relay_error), grpc_status, opt_view(*grpc_message)),
{
    if let Some(e) = relay_error {
        return Some(e);
    }
    let s = match grpc_status {
        Some(s) => s,
        None => return None,
    };
    if s == 0 {
        return None;
    }
    let mut out = chars_of("gRPC status ");
    let digits = i64_chars(s as i64);
    append_chars(&mut out, &digits);
    let ghost head = out@;
    match grpc_message {
        Some(d) => {
            let t = trim_str(d.as_str());
            if t.len() > 0 {
                append_str(&mut out, ": ");
                append_chars(&mut out, &t);
                proof {
                    reveal_strlit(": ");
                }
                assert(out@ =~= head + (": "@ + t@));
            } else {
                assert(out@ =~= head + seq![]);
            }
        },
        None => {
            assert(out@ =~= head + seq![]);
        },
    }
    Some(string_of(&out))
}

// ---------------------------------------------------------------------------
// A relayed stream
// ---------------------------------------------------------------------------

/// What the route's capture settings ask of a gRPC stream, decided when its
/// request headers arrive. The body previews keep raw bytes: gRPC payloads
/// are framed binary, so they are kept even where only text is captured.
pub struct GrpcCapturePlan {
    pub capture_headers: bool,
    pub capture_body_preview: bool,
    /// The request path with the sensitive query values hidden.
    pub path: String,
    pub grpc_service: Option<String>,
    pub grpc_method: Option<String>,
    /// The request headers, recorded, when headers are captured.
    pub request_headers: Vec<ProxyTrafficHeader>,
    pub request_header_bytes: u64,
    pub request_preview: Option<PreviewCapture>,
    pub response_preview: Option<PreviewCapture>,
}

/// A preview capture that has taken in nothing yet.
pub open spec fn fresh_preview(p: Option<PreviewCapture>, max_bytes: usize) -> bool {
    &&& p matches Some(c)
    &&& c.max_bytes == max_bytes
    &&& !c.text_only
    &&& c.bytes@.len() == 0
    &&& !c.truncated
    &&& c.wf()
}

/// Decides what is recorded of a gRPC stream through `route`.
pub fn grpc_capture_plan(route: &ProxyEndpointRoute, raw_path: &str, request_headers: &[HeaderField]) -> (r:
    GrpcCapturePlan)
    ensures
        r.capture_headers == (route.capture_mode != ProxyCaptureMode::Metadata),
        r.capture_body_preview == (route.capture_mode == ProxyCaptureMode::BodyPreview),
        r.path@ == redacted_path(raw_path@, str_views(route.redacted_query_keys@)),
        opt_view(r.grpc_service) == grpc_segment(raw_path@, 0),
        opt_view(r.grpc_method) == grpc_segment(raw_path@, 1),
        r.capture_headers ==> header_views(r.request_headers@) == recorded_fields(
            field_views(request_headers@),
            str_views(route.redacted_header_names@),
            MAX_CAPTURED_HEADERS_PER_EVENT as nat,
        ),
        !r.capture_headers ==> r.request_headers@.len() == 0,
        r.request_header_bytes == header_bytes_estimate(field_views(request_headers@)),
        r.capture_body_preview ==> fresh_preview(
            r.request_preview,
            route.request_body_preview_max_bytes,
        ) && fresh_preview(r.response_preview, route.response_body_preview_max_bytes),
        !r.capture_body_preview ==> r.request_preview is None && r.response_preview is None,
{
    let capture_headers = match route.capture_mode {
        ProxyCaptureMode::Metadata => false,
        _ => true,
    };
    let capture_body_preview = match route.capture_mode {
        ProxyCaptureMode::BodyPreview => true,
        _ => false,
    };
    let path = redact_path_query(raw_path, route.redacted_query_keys.as_slice());
    let (grpc_service, grpc_method) = parse_grpc_service_method(raw_path);
    let recorded = if capture_headers {
        header_map_to_redacted_headers(request_headers, route.redacted_header_names.as_slice())
    } else {
        Vec::new()
    };
    let request_header_bytes = estimate_http2_header_bytes(request_headers);
    let (request_preview, response_preview) = if capture_body_preview {
        (
            Some(PreviewCapture::new(route.request_body_preview_max_bytes, false)),
            Some(PreviewCapture::new(route.response_body_preview_max_bytes, false)),
        )
    } else {
        (None, None)
    };
    GrpcCapturePlan {
        capture_headers,
        capture_body_preview,
        path,
        grpc_service,
        grpc_method,
        request_headers: recorded,
        request_header_bytes,
        request_preview,
        response_preview,
    }
}

/// The status and headers of the upstream's response.
pub struct GrpcResponseHead {
    pub status: u16,
    pub headers: Vec<HeaderField>,
}

/// What relaying a stream saw, for the record: the field blocks that came
/// (request trailers, response head, response trailers), the body sizes and
/// previews, the gRPC message as read, and the relay's failure, if any.
pub struct GrpcStreamRecord {
    pub request_trailers: Option<Vec<HeaderField>>,
    pub response_head: Option<GrpcResponseHead>,
    pub response_trailers: Option<Vec<HeaderField>>,
    pub request_body_bytes: u64,
    pub response_body_bytes: u64,
    pub request_body: BodyPreviewResult,
    pub response_body: BodyPreviewResult,
    pub grpc_message: Option<String>,
    pub relay_error: Option<String>,
}

pub open spec fn opt_fields(b: Option<Vec<HeaderField>>) -> Seq<FieldView> {
    match b {
        Some(v) => field_views(v@),
        None => seq![],
    }
}

pub open spec fn head_fields(h: Option<GrpcResponseHead>) -> Seq<FieldView> {
    match h {
        Some(x) => field_views(x.headers@),
        None => seq![],
    }
}

/// The gRPC status of a stream: that of the response trailers when they
/// came, else that of the response headers.
pub open spec fn stream_grpc_status(m: GrpcStreamRecord) -> Option<i32> {
    match m.response_trailers {
        Some(t) => grpc_status_in(field_views(t@)),
        None => match m.response_head {
            Some(h) => grpc_status_in(field_views(h.headers@)),
            None => None,
        },
    }
}

/// Headers recorded from a block that may not have come, when captured.
pub open spec fn recorded_block(capture: bool, fs: Seq<FieldView>, names: Seq<Seq<char>>) -> Seq<HeaderView> {
    if capture {
        recorded_fields(fs, names, MAX_CAPTURED_HEADERS_PER_EVENT as nat)
    } else {
        seq![]
    }
}

/// The event recorded for a gRPC stream through a route that captures
/// traffic.
pub open spec fn grpc_event_read(
    r: ProxyTrafficEvent,
    route: ProxyEndpointRoute,
    plan: GrpcCapturePlan,
    authority: Option<Seq<char>>,
    stream_id: Option<u32>,
    started_at_utc: Seq<char>,
    duration_ms: u64,
    m: GrpcStreamRecord,
) -> bool {
    let names = str_views(route.redacted_header_names@);
    let req_hdr = sat_add(plan.request_header_bytes, header_bytes_estimate(opt_fields(m.request_trailers)));
    let resp_hdr = sat_add(
        header_bytes_estimate(head_fields(m.response_head)),
        header_bytes_estimate(opt_fields(m.response_trailers)),
    );
    &&& r.id == 0
    &&& r.started_at_utc@ == started_at_utc
    &&& r.project_name@ == route.project_name@
    &&& r.service_name@ == route.service_name@
    &&& r.protocol@ == "grpc_h2c"@
    &&& r.host@ == match authority {
        Some(a) => a,
        None => route.upstream_host@ + ":"@ + dec_chars(route.upstream_port as nat),
    }
    &&& r.method@ == "GRPC"@
    &&& r.path@ == plan.path@
    &&& r.status_code == match m.response_head {
        Some(h) => Some(h.status),
        None => None,
    }
    &&& r.stream_id == stream_id
    &&& opt_view(r.grpc_service) == opt_view(plan.grpc_service)
    &&& opt_view(r.grpc_method) == opt_view(plan.grpc_method)
    &&& r.grpc_status == stream_grpc_status(m)
    &&& opt_view(r.grpc_message) == opt_view(m.grpc_message)
    &&& r.duration_ms == duration_ms
    &&& r.request_header_bytes == req_hdr
    &&& r.request_body_bytes == m.request_body_bytes
    &&& r.response_header_bytes == resp_hdr
    &&& r.response_body_bytes == m.response_body_bytes
    &&& r.request_bytes == sat_add(req_hdr, m.request_body_bytes)
    &&& r.response_bytes == sat_add(resp_hdr, m.response_body_bytes)
    &&& header_views(r.request_headers@) == header_views(plan.request_headers@) + recorded_block(
        plan.capture_headers,
        opt_fields(m.request_trailers),
        names,
    )
    &&& header_views(r.response_headers@) == recorded_block(
        plan.capture_headers,
        head_fields(m.response_head),
        names,
    ) + recorded_block(plan.capture_headers, opt_fields(m.response_trailers), names)
    &&& r.request_body_preview == m.request_body.preview
    &&& r.response_body_preview == m.response_body.preview
    &&& r.request_body_truncated == m.request_body.truncated
    &&& r.response_body_truncated == m.response_body.truncated
    &&& r.request_body_binary == m.request_body.binary
    &&& r.response_body_binary == m.response_body.binary
    &&& opt_view(r.error) == grpc_stream_error(
        opt_view(m.relay_error),
        stream_grpc_status(m),
        opt_view(m.grpc_message),
    )
}

fn saturating(a: u64, b: u64) -> (r: u64)
    ensures
        r == sat_add(a, b),
{
    if a > u64::MAX - b {
        u64::MAX
    } else {
        a + b
    }
}

fn opt_block_bytes(b: &Option<Vec<HeaderField>>) -> (r: u64)
    ensures
        r == header_bytes_estimate(opt_fields(*b)),
{
    match b {
        Some(v) => estimate_http2_header_bytes(v.as_slice()),
        None => {
            assert(field_bytes(seq![]) == 0);
            0
        },
    }
}

fn recorded_opt_block(capture: bool, b: &Option<Vec<HeaderField>>, names: &[String]) -> (r: Vec<
    ProxyTrafficHeader,
>)
    ensures
        header_views(r@) == recorded_block(capture, opt_fields(*b), str_views(names@)),
{
    if !capture {
        let r: Vec<ProxyTrafficHeader> = Vec::new();
        assert(header_views(r@) =~= seq![]);
        return r;
    }
    match b {
        Some(v) => header_map_to_redacted_headers(v.as_slice(), names),
        None => {
            let r: Vec<ProxyTrafficHeader> = Vec::new();
            assert(header_views(r@) =~= seq![]);
            assert(recorded_fields(seq![], str_views(names@), MAX_CAPTURED_HEADERS_PER_EVENT as nat)
                =~= seq![]);
            r
        },
    }
}

fn upstream_host_text(route: &ProxyEndpointRoute) -> (r: String)
    ensures
        r@ == route.upstream_host@ + ":"@ + dec_chars(route.upstream_port as nat),
{
    let a = cat(route.upstream_host.as_str(), ":");
    cat(a.as_str(), dec_string(route.upstream_port as u64).as_str())
}

/// The event recorded for a gRPC stream (see [`grpc_event_read`]); `None`
/// when the route does not capture traffic.
pub fn grpc_traffic_event(
    route: ProxyEndpointRoute,
    plan: GrpcCapturePlan,
    request_authority: Option<String>,
    stream_id: Option<u32>,
    started_at_utc: String,
    duration_ms: u64,
    record: GrpcStreamRecord,
) -> (r: Option<ProxyTrafficEvent>)
    ensures
        !route.capture_enabled ==> r is None,
        route.capture_enabled ==> (r matches Some(e) && grpc_event_read(
            e,
            route,
            plan,
            opt_view(request_authority),
            stream_id,
            started_at_utc@,
            duration_ms,
            record,
        )),
{
    if !route.capture_enabled {
        return None;
    }
    let ghost g_route = route;
    let ghost g_plan = plan;
    let ghost g_record = record;
    let ghost names = str_views(route.redacted_header_names@);
    let capture = plan.capture_headers;

    let req_trailer_bytes = opt_block_bytes(&record.request_trailers);
    let request_header_bytes = saturating(plan.request_header_bytes, req_trailer_bytes);
    let (status_code, head_bytes, head_recorded, head_status) = match &record.response_head {
        Some(h) => (
            Some(h.status),
            estimate_http2_header_bytes(h.headers.as_slice()),
            if capture {
                header_map_to_redacted_headers(h.headers.as_slice(), route.redacted_header_names.as_slice())
            } else {
                Vec::new()
            },
            parse_grpc_status(h.headers.as_slice()),
        ),
        None => {
            assert(field_bytes(seq![]) == 0);
            assert(recorded_fields(seq![], names, MAX_CAPTURED_HEADERS_PER_EVENT as nat) =~= seq![]);
            (None, 0u64, Vec::new(), None)
        },
    };
    assert(header_views(head_recorded@) == recorded_block(capture, head_fields(g_record.response_head), names)) by {
        if !capture {
            assert(header_views(head_recorded@) =~= seq![]);
        }
    }
    let trailer_bytes = opt_block_bytes(&record.response_trailers);
    let response_header_bytes = saturating(head_bytes, trailer_bytes);
    let grpc_status = match &record.response_trailers {
        Some(t) => parse_grpc_status(t.as_slice()),
        None => head_status,
    };
    let mut request_headers = plan.request_headers;
    let mut req_trailer_recorded = recorded_opt_block(capture, &record.request_trailers, route.redacted_header_names.as_slice());
    let ghost rh = header_views(request_headers@);
    let ghost rt = header_views(req_trailer_recorded@);
    request_headers.append(&mut req_trailer_recorded);
    assert(header_views(request_headers@) =~= rh + rt);
    let mut response_headers = head_recorded;
    let mut resp_trailer_recorded = recorded_opt_block(capture, &record.response_trailers, route.redacted_header_names.as_slice());
    let ghost sh = header_views(response_headers@);
    let ghost st = header_views(resp_trailer_recorded@);
    response_headers.append(&mut resp_trailer_recorded);
    assert(header_views(response_headers@) =~= sh + st);
    let error = grpc_stream_error_text(record.relay_error, grpc_status, &record.grpc_message);
    let host = match request_authority {
        Some(a) => a,
        None => upstream_host_text(&route),
    };
    let event = ProxyTrafficEvent {
        id: 0,
        started_at_utc,
        project_name: route.project_name,
        service_name: route.service_name,
        protocol: "grpc_h2c".to_owned(),
        host,
        method: "GRPC".to_owned(),
        path: plan.path,
        status_code,
        stream_id,
        grpc_service: plan.grpc_service,
        grpc_method: plan.grpc_method,
        grpc_status,
        grpc_message: record.grpc_message,
        duration_ms,
        request_bytes: saturating(request_header_bytes, record.request_body_bytes),
        response_bytes: saturating(response_header_bytes, record.response_body_bytes),
        request_header_bytes,
        request_body_bytes: record.request_body_bytes,
        response_header_bytes,
        response_body_bytes: record.response_body_bytes,
        request_headers,
        response_headers,
        request_body_preview: record.request_body.preview,
        response_body_preview: record.response_body.preview,
        request_body_truncated: record.request_body.truncated,
        response_body_truncated: record.response_body.truncated,
        request_body_binary: record.request_body.binary,
        response_body_binary: record.response_body.binary,
        error,
    };
    Some(event)
}

} // verus!
