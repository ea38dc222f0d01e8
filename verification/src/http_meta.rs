//! Reading the metadata of raw HTTP/1 messages: the end of the header block,
//! header values, the request line and status line, and the host a request
//! is for. Texts are decoded as `String::from_utf8_lossy` does.

use vstd::prelude::*;
use crate::text::{
    chars_of, copy_range, eq_ignore_case, eq_ignore_case_chars, in_set, is_char, lines,
    lines_chars, parse_u16_chars, parse_uint, parse_usize_chars, split_char_chars, split_once,
    split_once_chars, split_pred, string_of, str_views, to_lowercase_chars, trim, trim_chars,
    trim_end_char, trim_end_char_chars, trim_start_char, trim_start_char_chars, unicode_lower,
    utf8_lossy, utf8_lossy_chars, views, words, words_chars, find_pred, append_chars, append_str,
    join, join_chars,
};
use crate::redact::{
    is_sensitive_header_name, is_sensitive_query_key, sensitive_header, sensitive_query_key,
    truncate_for_capture, truncated_capture, REDACTED_VALUE,
};

verus! {

/// Header names are recorded up to this many characters.
pub const MAX_CAPTURED_HEADER_NAME_LEN: usize = 128;
/// Header values are recorded up to this many characters.
pub const MAX_CAPTURED_HEADER_VALUE_LEN: usize = 4096;
/// At most this many headers are recorded per message.
pub const MAX_CAPTURED_HEADERS_PER_EVENT: usize = 128;

/// One recorded header.
#[derive(Debug, Clone, PartialEq, Eq)]
pub struct ProxyTrafficHeader {
    pub name: String,
    pub value: String,
}

/// A header as character sequences.
pub struct HeaderView {
    pub name: Seq<char>,
    pub value: Seq<char>,
}

pub open spec fn header_views(h: Seq<ProxyTrafficHeader>) -> Seq<HeaderView> {
    h.map_values(|x: ProxyTrafficHeader| HeaderView { name: x.name@, value: x.value@ })
}

// ---------------------------------------------------------------------------
// The end of the header block
// ---------------------------------------------------------------------------

/// `\r\n\r\n` starts at `p`.
pub open spec fn terminator_at(b: Seq<u8>, p: int) -> bool {
    0 <= p && p + 4 <= b.len() && b[p] == 13 && b[p + 1] == 10 && b[p + 2] == 13 && b[p + 3]
        == 10
}

/// The index just past the first `\r\n\r\n` at or after `p`.
pub open spec fn header_end_from(b: Seq<u8>, p: nat) -> Option<nat>
    decreases b.len() - p,
{
    if p + 4 > b.len() {
        None
    } else if terminator_at(b, p as int) {
        Some(p + 4)
    } else {
        header_end_from(b, p + 1)
    }
}

/// The index just past the first `\r\n\r\n`, if any.
pub open spec fn header_end(b: Seq<u8>) -> Option<nat> {
    header_end_from(b, 0)
}

/// Index just past the blank line that ends the header block.
pub fn header_end_index(bytes: &[u8]) -> (r: Option<usize>)
    ensures
        match r {
            Some(e) => header_end(bytes@) == Some(e as nat),
            None => header_end(bytes@) is None,
        },
{
    let mut p: usize = 0;
    while bytes.len() >= 4 && p <= bytes.len() - 4
        invariant
            p <= bytes@.len(),
            header_end(bytes@) == header_end_from(bytes@, p as nat),
        decreases bytes.len() - p,
    {
        if bytes[p] == 13 && bytes[p + 1] == 10 && bytes[p + 2] == 13 && bytes[p + 3] == 10 {
            return Some(p + 4);
        }
        p = p + 1;
    }
    None
}

/// Whether the bytes hold a complete header block.
pub fn has_header_terminator(bytes: &[u8]) -> (r: bool)
    ensures
        r == header_end(bytes@) is Some,
{
    header_end_index(bytes).is_some()
}

/// If the block ends, it ends at a terminator, and after one.
pub proof fn law_header_end_is_terminator(b: Seq<u8>, p: nat)
    ensures
        match header_end_from(b, p) {
            Some(e) => e >= p + 4 && e <= b.len() && terminator_at(b, e - 4),
            None => forall|q: int| p <= q ==> !terminator_at(b, q),
        },
    decreases b.len() - p,
{
    if p + 4 <= b.len() && !terminator_at(b, p as int) {
        law_header_end_is_terminator(b, p + 1);
    }
}

// ---------------------------------------------------------------------------
// Hosts
// ---------------------------------------------------------------------------

/// `host` without a port: for a bracketed IPv6 host, what stands before the
/// first `]` with leading `[` removed; otherwise what stands before the first
/// `:`, trimmed.
pub open spec fn host_without_port(host: Seq<char>) -> Seq<char> {
    if host.len() > 0 && host[0] == '[' {
        trim_start_char(split_pred(host, is_char(']'))[0], '[')
    } else {
        trim(split_pred(host, is_char(':'))[0])
    }
}

proof fn lemma_split_nonempty(s: Seq<char>, c: char)
    ensures
        split_pred(s, is_char(c)).len() > 0,
    decreases s.len(),
{
    crate::release::lemma_split_nonempty(s, is_char(c));
}

/// Removes the port from a `Host` value.
pub fn strip_host_port(host: &str) -> (r: String)
    ensures
        r@ == host_without_port(host@),
{
    let v = chars_of(host);
    if v.len() > 0 && v[0] == '[' {
        let parts = split_char_chars(&v, ']');
        proof {
            lemma_split_nonempty(v@, ']');
        }
        let first = trim_start_char_chars(&parts[0], '[');
        return string_of(&first);
    }
    let parts = split_char_chars(&v, ':');
    proof {
        lemma_split_nonempty(v@, ':');
    }
    string_of(&trim_chars(&parts[0]))
}

// ---------------------------------------------------------------------------
// Header lookup
// ---------------------------------------------------------------------------

/// The lines after the first one.
pub open spec fn after_first(ls: Seq<Seq<char>>) -> Seq<Seq<char>> {
    if ls.len() == 0 {
        seq![]
    } else {
        ls.drop_first()
    }
}

/// The value of the first header line named `name` (ignoring ASCII case),
/// trimmed; the search stops at the first empty line.
pub open spec fn header_lookup(ls: Seq<Seq<char>>, name: Seq<char>) -> Option<Seq<char>>
    decreases ls.len(),
{
    if ls.len() == 0 {
        None
    } else {
        let line = trim_end_char(ls[0], '\r');
        if line.len() == 0 {
            None
        } else {
            match split_once(line, ':') {
                Some((n, v)) => if eq_ignore_case(trim(n), name) {
                    Some(trim(v))
                } else {
                    header_lookup(ls.drop_first(), name)
                },
                None => header_lookup(ls.drop_first(), name),
            }
        }
    }
}

/// The header lines of a message's header block, decoded.
pub open spec fn header_lines(b: Seq<u8>, end: nat) -> Seq<Seq<char>> {
    after_first(lines(utf8_lossy(b.take(end as int))))
}

/// What `header_value_from_headers` returns.
pub open spec fn header_value(b: Seq<u8>, name: Seq<char>) -> Option<Seq<char>> {
    match header_end(b) {
        Some(e) => header_lookup(header_lines(b, e), name),
        None => None,
    }
}

fn header_lookup_from(ls: &Vec<Vec<char>>, start: usize, name: &Vec<char>) -> (r: Option<
    Vec<char>,
>)
    requires
        start <= ls.len(),
    ensures
        match r {
            Some(v) => header_lookup(views(ls@).skip(start as int), name@) == Some(v@),
            None => header_lookup(views(ls@).skip(start as int), name@) is None,
        },
{
    let mut i = start;
    while i < ls.len()
        invariant
            start <= i <= ls.len(),
            header_lookup(views(ls@).skip(start as int), name@) == header_lookup(
                views(ls@).skip(i as int),
                name@,
            ),
        decreases ls.len() - i,
    {
        let ghost rest = views(ls@).skip(i as int);
        assert(rest[0] == ls@[i as int]@);
        assert(rest.drop_first() == views(ls@).skip(i + 1));
        let line = trim_end_char_chars(&ls[i], '\r');
        if line.len() == 0 {
            return None;
        }
        match split_once_chars(&line, ':') {
            Some((n, v)) => {
                let tn = trim_chars(&n);
                if eq_ignore_case_chars(&tn, name) {
                    return Some(trim_chars(&v));
                }
            },
            None => {},
        }
        i = i + 1;
    }
    assert(views(ls@).skip(i as int).len() == 0);
    None
}

/// The decoded lines of `bytes[..end]`.
fn decoded_lines(bytes: &[u8], end: usize) -> (r: Vec<Vec<char>>)
    requires
        end <= bytes@.len(),
    ensures
        views(r@) == lines(utf8_lossy(bytes@.take(end as int))),
{
    let mut head: Vec<u8> = Vec::new();
    let mut i: usize = 0;
    while i < end
        invariant
            i <= end <= bytes@.len(),
            head@ == bytes@.take(i as int),
        decreases end - i,
    {
        head.push(bytes[i]);
        assert(bytes@.take(i + 1) == bytes@.take(i as int).push(bytes@[i as int]));
        i = i + 1;
    }
    let text = utf8_lossy_chars(head.as_slice());
    lines_chars(&text)
}

/// The trimmed value of the header `name` in a raw header block.
pub fn header_value_from_headers(headers: &[u8], name: &str) -> (r: Option<String>)
    ensures
        match r {
            Some(v) => header_value(headers@, name@) == Some(v@),
            None => header_value(headers@, name@) is None,
        },
{
    let end = match header_end_index(headers) {
        Some(e) => e,
        None => return None,
    };
    proof {
        law_header_end_is_terminator(headers@, 0);
    }
    let ls = decoded_lines(headers, end);
    let nv = chars_of(name);
    let start: usize = if ls.len() == 0 {
        0
    } else {
        1
    };
    proof {
        let all = views(ls@);
        if all.len() == 0 {
            assert(all.skip(0) =~= after_first(all));
        } else {
            assert(all.skip(1) =~= after_first(all));
        }
    }
    match header_lookup_from(&ls, start, &nv) {
        Some(v) => Some(string_of(&v)),
        None => None,
    }
}

/// Whether some comma-separated part of `value`, trimmed, equals `token`
/// ignoring ASCII case.
pub open spec fn has_token(value: Seq<char>, token: Seq<char>) -> bool {
    exists|i: int|
        0 <= i < split_pred(value, is_char(',')).len() && eq_ignore_case(
            trim(#[trigger] split_pred(value, is_char(','))[i]),
            token,
        )
}

fn has_token_chars(value: &Vec<char>, token: &str) -> (r: bool)
    ensures
        r == has_token(value@, token@),
{
    let parts = split_char_chars(value, ',');
    let tv = chars_of(token);
    proof {
    }
    let ghost ps = split_pred(value@, is_char(','));
    let mut i: usize = 0;
    while i < parts.len()
        invariant
            i <= parts.len(),
            views(parts@) == ps,
            ps == split_pred(value@, is_char(',')),
            tv@ == token@,
            forall|j: int| 0 <= j < i ==> !eq_ignore_case(trim(#[trigger] ps[j]), token@),
        decreases parts.len() - i,
    {
        assert(ps[i as int] == parts@[i as int]@);
        let t = trim_chars(&parts[i]);
        if eq_ignore_case_chars(&t, &tv) {
            return true;
        }
        i = i + 1;
    }
    false
}

/// The header `name` lists `token` among its comma-separated values.
pub open spec fn header_has_token(b: Seq<u8>, name: Seq<char>, token: Seq<char>) -> bool {
    match header_value(b, name) {
        Some(v) => has_token(v, token),
        None => false,
    }
}

fn header_has_token_exec(headers: &[u8], name: &str, token: &str) -> (r: bool)
    ensures
        r == header_has_token(headers@, name@, token@),
{
    match header_value_from_headers(headers, name) {
        Some(v) => has_token_chars(&chars_of(v.as_str()), token),
        None => false,
    }
}

/// `Content-Length`: its first comma-separated part, trimmed, as a number.
pub open spec fn content_length(b: Seq<u8>) -> Option<nat> {
    match header_value(b, "content-length"@) {
        Some(v) => parse_uint(trim(split_pred(v, is_char(','))[0]), usize::MAX as nat),
        None => None,
    }
}

/// The body length a message announces.
pub fn parse_content_length_from_headers(headers: &[u8]) -> (r: Option<usize>)
    ensures
        match r {
            Some(n) => content_length(headers@) == Some(n as nat),
            None => content_length(headers@) is None,
        },
{
    match header_value_from_headers(headers, "content-length") {
        Some(v) => {
            let vv = chars_of(v.as_str());
            let parts = split_char_chars(&vv, ',');
            proof {
                lemma_split_nonempty(vv@, ',');
            }
            parse_usize_chars(&trim_chars(&parts[0]))
        },
        None => None,
    }
}

/// Whether `Transfer-Encoding` lists `chunked`.
pub fn has_chunked_transfer_encoding(headers: &[u8]) -> (r: bool)
    ensures
        r == header_has_token(headers@, "transfer-encoding"@, "chunked"@),
{
    header_has_token_exec(headers, "transfer-encoding", "chunked")
}

/// Whether `Connection` lists `close`.
pub fn has_connection_close_header(headers: &[u8]) -> (r: bool)
    ensures
        r == header_has_token(headers@, "connection"@, "close"@),
{
    header_has_token_exec(headers, "connection", "close")
}

/// Whether `Connection` lists `upgrade`.
pub fn has_connection_upgrade_header(headers: &[u8]) -> (r: bool)
    ensures
        r == header_has_token(headers@, "connection"@, "upgrade"@),
{
    header_has_token_exec(headers, "connection", "upgrade")
}

/// A response switches protocols: status 101, or `Connection: upgrade` with
/// an `Upgrade` header.
pub fn is_protocol_upgrade_response(status_code: Option<u16>, headers: &[u8]) -> (r: bool)
    ensures
        r == (status_code == Some(101u16) || (header_has_token(
            headers@,
            "connection"@,
            "upgrade"@,
        ) && header_value(headers@, "upgrade"@) is Some)),
{
    if status_code == Some(101u16) {
        return true;
    }
    has_connection_upgrade_header(headers) && header_value_from_headers(
        headers,
        "upgrade",
    ).is_some()
}

/// A response carries no body: to a `HEAD` request, or with status 1xx, 204
/// or 304.
pub fn response_should_not_have_body(status_code: Option<u16>, request_method: &str) -> (r: bool)
    ensures
        r == (eq_ignore_case(request_method@, "HEAD"@) || match status_code {
            Some(c) => (100 <= c < 200) || c == 204 || c == 304,
            None => false,
        }),
{
    let m = chars_of(request_method);
    let head = chars_of("HEAD");
    if eq_ignore_case_chars(&m, &head) {
        return true;
    }
    match status_code {
        Some(c) => (100 <= c && c < 200) || c == 204 || c == 304,
        None => false,
    }
}

// ---------------------------------------------------------------------------
// Request and status lines
// ---------------------------------------------------------------------------

/// The host of the first `Host:` line before the first empty line, without
/// port and lowercased; `None` when it is missing or empty.
pub open spec fn request_host_in(ls: Seq<Seq<char>>) -> Option<Seq<char>>
    decreases ls.len(),
{
    if ls.len() == 0 {
        None
    } else {
        let line = trim_end_char(ls[0], '\r');
        if line.len() == 0 {
            None
        } else {
            match split_once(line, ':') {
                Some((n, v)) => if eq_ignore_case(n, "host"@) {
                    let host = trim(v);
                    if host.len() == 0 {
                        None
                    } else {
                        let clean = unicode_lower(host_without_port(host));
                        if clean.len() == 0 {
                            None
                        } else {
                            Some(clean)
                        }
                    }
                } else {
                    request_host_in(ls.drop_first())
                },
                None => request_host_in(ls.drop_first()),
            }
        }
    }
}

proof fn lemma_trim_end_after_colon(n: Seq<char>, v: Seq<char>)
    ensures
        trim_end_char(n + ":"@ + v, '\r') == n + ":"@ + trim_end_char(v, '\r'),
    decreases v.len(),
{
    reveal_strlit(":");
    let line = n + ":"@ + v;
    if v.len() == 0 {
        assert(line =~= n + ":"@);
        assert(line.last() == ':');
    } else if v.last() == '\r' {
        assert(line.last() == v.last());
        assert(line.drop_last() =~= n + ":"@ + v.drop_last());
        lemma_trim_end_after_colon(n, v.drop_last());
    } else {
        assert(line.last() == v.last());
    }
}

proof fn lemma_split_at_first_colon(n: Seq<char>, w: Seq<char>)
    requires
        forall|k: int| 0 <= k < n.len() ==> n[k] != ':',
    ensures
        split_once(n + ":"@ + w, ':') == Some((n, w)),
{
    reveal_strlit(":");
    let line = n + ":"@ + w;
    assert(line[n.len() as int] == ':');
    assert forall|j: int| 0 <= j < n.len() implies !is_char(':')(line[j]) by {
        assert(line[j] == n[j]);
    }
    crate::text::lemma_find_pred_some(line, is_char(':'), n.len());
    assert(line.take(n.len() as int) =~= n);
    assert(line.skip(n.len() as int + 1) =~= w);
}

/// The host of a request does not depend on how the `Host` header's name
/// is spelled: two header blocks that differ only in the ASCII case of one
/// header line's name give the same host.
pub proof fn law_request_host_ignores_name_case(
    before: Seq<Seq<char>>,
    n1: Seq<char>,
    n2: Seq<char>,
    v: Seq<char>,
    after: Seq<Seq<char>>,
)
    requires
        crate::text::ascii_lower(n1) == crate::text::ascii_lower(n2),
        forall|k: int| 0 <= k < n1.len() ==> n1[k] != ':',
        forall|k: int| 0 <= k < n2.len() ==> n2[k] != ':',
    ensures
        request_host_in(before + seq![n1 + ":"@ + v] + after) == request_host_in(
            before + seq![n2 + ":"@ + v] + after,
        ),
    decreases before.len(),
{
    let ls1 = before + seq![n1 + ":"@ + v] + after;
    let ls2 = before + seq![n2 + ":"@ + v] + after;
    if before.len() == 0 {
        assert(ls1[0] == n1 + ":"@ + v);
        assert(ls2[0] == n2 + ":"@ + v);
        assert(ls1.drop_first() =~= after);
        assert(ls2.drop_first() =~= after);
        lemma_trim_end_after_colon(n1, v);
        lemma_trim_end_after_colon(n2, v);
        reveal_strlit(":");
        assert((n1 + ":"@ + trim_end_char(v, '\r')).len() > 0);
        assert((n2 + ":"@ + trim_end_char(v, '\r')).len() > 0);
        lemma_split_at_first_colon(n1, trim_end_char(v, '\r'));
        lemma_split_at_first_colon(n2, trim_end_char(v, '\r'));
    } else {
        assert(ls1[0] == before[0]);
        assert(ls2[0] == before[0]);
        assert(ls1.drop_first() =~= before.drop_first() + seq![n1 + ":"@ + v] + after);
        assert(ls2.drop_first() =~= before.drop_first() + seq![n2 + ":"@ + v] + after);
        law_request_host_ignores_name_case(before.drop_first(), n1, n2, v, after);
    }
}

/// A header line whose name is `host` in any ASCII case is the `Host`
/// header: the host read is the one read with the name spelled `host`.
pub proof fn law_request_host_any_case(before: Seq<Seq<char>>, name: Seq<char>, v: Seq<char>, after: Seq<Seq<char>>)
    requires
        crate::text::ascii_lower(name) == "host"@,
    ensures
        request_host_in(before + seq![name + ":"@ + v] + after) == request_host_in(
            before + seq!["host"@ + ":"@ + v] + after,
        ),
{
    reveal_strlit("host");
    assert forall|k: int| 0 <= k < name.len() implies name[k] != ':' by {
        assert(crate::text::ascii_lower(name)[k] == crate::text::lower_ascii(name[k]));
        assert("host"@[k] != ':');
    }
    assert(crate::text::ascii_lower("host"@) =~= "host"@) by {
        assert forall|k: int| 0 <= k < 4 implies crate::text::ascii_lower("host"@)[k] == "host"@[k] by {
            assert(crate::text::ascii_lower("host"@)[k] == crate::text::lower_ascii("host"@[k]));
        }
    }
    law_request_host_ignores_name_case(before, name, "host"@, v, after);
}

/// The first header line named `host` (in any ASCII case) decides the
/// host, whatever lines follow: its value without the port and lowercased,
/// none when that is empty.
pub proof fn law_request_host_from_host_line(name: Seq<char>, v: Seq<char>, after: Seq<Seq<char>>)
    requires
        crate::text::ascii_lower(name) == "host"@,
    ensures
        request_host_in(seq![name + ":"@ + v] + after) == ({
            let w = trim(trim_end_char(v, '\r'));
            if w.len() == 0 || unicode_lower(host_without_port(w)).len() == 0 {
                None
            } else {
                Some(unicode_lower(host_without_port(w)))
            }
        }),
{
    reveal_strlit("host");
    assert("host"@ =~= seq!['h', 'o', 's', 't']);
    assert(name.len() == 4) by {
        assert(crate::text::ascii_lower(name).len() == name.len());
    }
    assert forall|k: int| 0 <= k < name.len() implies name[k] != ':' by {
        assert(crate::text::ascii_lower(name)[k] == crate::text::lower_ascii(name[k]));
        assert("host"@[k] != ':');
    }
    let ls = seq![name + ":"@ + v] + after;
    assert(ls[0] == name + ":"@ + v);
    lemma_trim_end_after_colon(name, v);
    reveal_strlit(":");
    assert((name + ":"@ + trim_end_char(v, '\r')).len() > 0);
    lemma_split_at_first_colon(name, trim_end_char(v, '\r'));
    assert(eq_ignore_case(name, "host"@)) by {
        assert(crate::text::ascii_lower("host"@) =~= "host"@) by {
            assert forall|k: int| 0 <= k < 4 implies crate::text::ascii_lower("host"@)[k] == "host"@[k] by {
                assert(crate::text::ascii_lower("host"@)[k] == crate::text::lower_ascii("host"@[k]));
            }
        }
    }
}

/// What `parse_request_host` returns.
pub open spec fn request_host(b: Seq<u8>) -> Option<Seq<char>> {
    request_host_in(lines(utf8_lossy(b)))
}

/// The host a request is addressed to, from its `Host` header.
pub fn parse_request_host(bytes: &[u8]) -> (r: Option<String>)
    ensures
        match r {
            Some(h) => request_host(bytes@) == Some(h@),
            None => request_host(bytes@) is None,
        },
{
    let text = utf8_lossy_chars(bytes);
    let ls = lines_chars(&text);
    let hostkw = chars_of("host");
    let mut i: usize = 0;
    assert(views(ls@).skip(0) == views(ls@));
    while i < ls.len()
        invariant
            i <= ls.len(),
            hostkw@ == "host"@,
            request_host(bytes@) == request_host_in(views(ls@).skip(i as int)),
        decreases ls.len() - i,
    {
        let ghost rest = views(ls@).skip(i as int);
        assert(rest[0] == ls@[i as int]@);
        assert(rest.drop_first() == views(ls@).skip(i + 1));
        let line = trim_end_char_chars(&ls[i], '\r');
        if line.len() == 0 {
            return None;
        }
        match split_once_chars(&line, ':') {
            Some((n, v)) => {
                if eq_ignore_case_chars(&n, &hostkw) {
                    let host = trim_chars(&v);
                    if host.len() == 0 {
                        return None;
                    }
                    let stripped = strip_host_port(string_of(&host).as_str());
                    let clean = to_lowercase_chars(&chars_of(stripped.as_str()));
                    if clean.len() == 0 {
                        return None;
                    }
                    return Some(string_of(&clean));
                }
            },
            None => {},
        }
        i = i + 1;
    }
    assert(views(ls@).skip(i as int).len() == 0);
    None
}

/// Method and target of a request line; `UNKNOWN` and `/` stand in for
/// missing parts.
pub open spec fn request_line(b: Seq<u8>) -> (Seq<char>, Seq<char>) {
    let ls = lines(utf8_lossy(b));
    if ls.len() == 0 {
        ("UNKNOWN"@, "/"@)
    } else {
        let ws = words(trim_end_char(ls[0], '\r'));
        (
            if ws.len() > 0 {
                ws[0]
            } else {
                "UNKNOWN"@
            },
            if ws.len() > 1 {
                ws[1]
            } else {
                "/"@
            },
        )
    }
}

/// The method and path of a request.
pub fn parse_request_line(bytes: &[u8]) -> (r: (String, String))
    ensures
        (r.0@, r.1@) == request_line(bytes@),
{
    let text = utf8_lossy_chars(bytes);
    let ls = lines_chars(&text);
    if ls.len() == 0 {
        return (string_of(&chars_of("UNKNOWN")), string_of(&chars_of("/")));
    }
    assert(views(ls@)[0] == ls@[0]@);
    let first = trim_end_char_chars(&ls[0], '\r');
    let ws = words_chars(&first);
    let method = if ws.len() > 0 {
        assert(views(ws@)[0] == ws@[0]@);
        string_of(&ws[0])
    } else {
        string_of(&chars_of("UNKNOWN"))
    };
    let path = if ws.len() > 1 {
        assert(views(ws@)[1] == ws@[1]@);
        string_of(&ws[1])
    } else {
        string_of(&chars_of("/"))
    };
    (method, path)
}

/// The status code of a response's status line.
pub open spec fn response_status(b: Seq<u8>) -> Option<nat> {
    let ls = lines(utf8_lossy(b));
    if ls.len() == 0 {
        None
    } else {
        let ws = words(trim_end_char(ls[0], '\r'));
        if ws.len() < 2 {
            None
        } else {
            parse_uint(ws[1], u16::MAX as nat)
        }
    }
}

/// The status code of a response.
pub fn parse_response_status(bytes: &[u8]) -> (r: Option<u16>)
    ensures
        match r {
            Some(c) => response_status(bytes@) == Some(c as nat),
            None => response_status(bytes@) is None,
        },
{
    let text = utf8_lossy_chars(bytes);
    let ls = lines_chars(&text);
    if ls.len() == 0 {
        return None;
    }
    assert(views(ls@)[0] == ls@[0]@);
    let first = trim_end_char_chars(&ls[0], '\r');
    let ws = words_chars(&first);
    if ws.len() < 2 {
        return None;
    }
    assert(views(ws@)[1] == ws@[1]@);
    parse_u16_chars(&ws[1])
}

// ---------------------------------------------------------------------------
// Redaction of recorded requests
// ---------------------------------------------------------------------------

/// One `key=value` pair of a query, with the value hidden for a sensitive key.
pub open spec fn redacted_pair(pair: Seq<char>, keys: Seq<Seq<char>>) -> Seq<char> {
    match split_once(pair, '=') {
        Some((k, v)) => if sensitive_query_key(k, keys) {
            k + "="@ + REDACTED_VALUE@
        } else {
            k + "="@ + v
        },
        None => pair,
    }
}

/// What `redact_path_query` returns.
pub open spec fn redacted_path(path: Seq<char>, keys: Seq<Seq<char>>) -> Seq<char> {
    match split_once(path, '?') {
        None => path,
        Some((base, query)) => if query.len() == 0 {
            base + "?"@
        } else {
            base + "?"@ + join(
                split_pred(query, is_char('&')).map_values(
                    |p: Seq<char>| redacted_pair(p, keys),
                ),
                "&"@,
            )
        },
    }
}

fn redact_pair_chars(pair: &Vec<char>, keys: &[String]) -> (r: Vec<char>)
    ensures
        r@ == redacted_pair(pair@, str_views(keys@)),
{
    match split_once_chars(pair, '=') {
        Some((k, v)) => {
            let mut out = copy_range(&k, 0, k.len());
            append_str(&mut out, "=");
            if is_sensitive_query_key(string_of(&k).as_str(), keys) {
                append_str(&mut out, REDACTED_VALUE);
            } else {
                append_chars(&mut out, &v);
            }
            out
        },
        None => copy_range(pair, 0, pair.len()),
    }
}

/// The path with the values of sensitive query keys replaced.
pub fn redact_path_query(path: &str, redacted_query_keys: &[String]) -> (r: String)
    ensures
        r@ == redacted_path(path@, str_views(redacted_query_keys@)),
{
    let pv = chars_of(path);
    match split_once_chars(&pv, '?') {
        None => string_of(&pv),
        Some((base, query)) => {
            let mut out = copy_range(&base, 0, base.len());
            append_str(&mut out, "?");
            if query.len() == 0 {
                return string_of(&out);
            }
            let pairs = split_char_chars(&query, '&');
            proof {
            }
            let ghost keys = str_views(redacted_query_keys@);
            let mut redacted: Vec<Vec<char>> = Vec::new();
            let mut i: usize = 0;
            while i < pairs.len()
                invariant
                    i <= pairs.len(),
                    keys == str_views(redacted_query_keys@),
                    redacted@.len() == i,
                    forall|j: int|
                        0 <= j < i ==> #[trigger] redacted@[j]@ == redacted_pair(pairs@[j]@, keys),
                decreases pairs.len() - i,
            {
                let rp = redact_pair_chars(&pairs[i], redacted_query_keys);
                redacted.push(rp);
                i = i + 1;
            }
            proof {
                let f = |p: Seq<char>| redacted_pair(p, keys);
                assert forall|j: int| 0 <= j < redacted@.len() implies #[trigger] views(redacted@)[j]
                    == views(pairs@).map_values(f)[j] by {
                    assert(views(pairs@)[j] == pairs@[j]@);
                }
                assert(views(redacted@) =~= split_pred(query@, is_char('&')).map_values(f));
            }
            let amp = chars_of("&");
            let joined = join_chars(&redacted, &amp);
            append_chars(&mut out, &joined);
            string_of(&out)
        },
    }
}

/// The headers recorded from a header block: each `name: value` line up to the
/// first empty one, with the name trimmed and non-empty, the name shortened,
/// and the value hidden or shortened; at most `limit` of them.
pub open spec fn recorded_headers(
    ls: Seq<Seq<char>>,
    names: Seq<Seq<char>>,
    limit: nat,
) -> Seq<HeaderView>
    decreases ls.len(),
{
    if ls.len() == 0 || limit == 0 {
        seq![]
    } else {
        let line = trim_end_char(ls[0], '\r');
        if line.len() == 0 {
            seq![]
        } else {
            match split_once(line, ':') {
                Some((n, v)) => {
                    let name = trim(n);
                    if name.len() == 0 {
                        recorded_headers(ls.drop_first(), names, limit)
                    } else {
                        seq![
                            HeaderView {
                                name: truncated_capture(name, MAX_CAPTURED_HEADER_NAME_LEN as nat),
                                value: if sensitive_header(name, names) {
                                    REDACTED_VALUE@
                                } else {
                                    truncated_capture(trim(v), MAX_CAPTURED_HEADER_VALUE_LEN as nat)
                                },
                            },
                        ] + recorded_headers(ls.drop_first(), names, (limit - 1) as nat)
                    }
                },
                None => recorded_headers(ls.drop_first(), names, limit),
            }
        }
    }
}

/// What `parse_and_redact_headers` returns.
pub open spec fn parsed_headers(b: Seq<u8>, names: Seq<Seq<char>>) -> Seq<HeaderView> {
    match header_end(b) {
        Some(e) => recorded_headers(
            header_lines(b, e),
            names,
            MAX_CAPTURED_HEADERS_PER_EVENT as nat,
        ),
        None => seq![],
    }
}

/// The headers of a raw header block, for recording.
pub fn parse_and_redact_headers(bytes: &[u8], redacted_header_names: &[String]) -> (r: Vec<
    ProxyTrafficHeader,
>)
    ensures
        header_views(r@) == parsed_headers(bytes@, str_views(redacted_header_names@)),
{
    let end = match header_end_index(bytes) {
        Some(e) => e,
        None => {
            let r: Vec<ProxyTrafficHeader> = Vec::new();
            assert(header_views(r@) =~= seq![]);
            return r;
        },
    };
    proof {
        law_header_end_is_terminator(bytes@, 0);
    }
    let ls = decoded_lines(bytes, end);
    let ghost names = str_views(redacted_header_names@);
    let ghost all = views(ls@);
    let mut i: usize = if ls.len() == 0 {
        0
    } else {
        1
    };
    proof {
        if all.len() == 0 {
            assert(all.skip(0) =~= after_first(all));
        } else {
            assert(all.skip(1) =~= after_first(all));
        }
    }
    let mut out: Vec<ProxyTrafficHeader> = Vec::new();
    while i < ls.len()
        invariant
            i <= ls.len(),
            all == views(ls@),
            names == str_views(redacted_header_names@),
            out@.len() < MAX_CAPTURED_HEADERS_PER_EVENT,
            header_views(out@) + recorded_headers(
                all.skip(i as int),
                names,
                (MAX_CAPTURED_HEADERS_PER_EVENT - out@.len()) as nat,
            ) == parsed_headers(bytes@, names),
        decreases ls.len() - i,
    {
        let ghost rest = all.skip(i as int);
        let ghost lim = (MAX_CAPTURED_HEADERS_PER_EVENT - out@.len()) as nat;
        assert(rest[0] == ls@[i as int]@);
        assert(rest.drop_first() == all.skip(i + 1));
        let line = trim_end_char_chars(&ls[i], '\r');
        if line.len() == 0 {
            assert(header_views(out@) + seq![] =~= header_views(out@));
            return out;
        }
        match split_once_chars(&line, ':') {
            Some((n, v)) => {
                let name = trim_chars(&n);
                if name.len() > 0 {
                    let name_s = string_of(&name);
                    let rec_name = truncate_for_capture(name_s.as_str(), MAX_CAPTURED_HEADER_NAME_LEN);
                    let rec_value = if is_sensitive_header_name(
                        name_s.as_str(),
                        redacted_header_names,
                    ) {
                        string_of(&chars_of(REDACTED_VALUE))
                    } else {
                        let tv = string_of(&trim_chars(&v));
                        truncate_for_capture(tv.as_str(), MAX_CAPTURED_HEADER_VALUE_LEN)
                    };
                    let h = ProxyTrafficHeader { name: rec_name, value: rec_value };
                    let ghost before = header_views(out@);
                    let ghost hv = HeaderView { name: h.name@, value: h.value@ };
                    out.push(h);
                    assert(header_views(out@) =~= before.push(hv));
                    assert(recorded_headers(rest, names, lim) =~= seq![hv] + recorded_headers(
                        rest.drop_first(),
                        names,
                        (lim - 1) as nat,
                    ));
                    assert(before.push(hv) + recorded_headers(rest.drop_first(), names, (lim - 1) as nat)
                        =~= before + (seq![hv] + recorded_headers(rest.drop_first(), names, (lim - 1) as nat)));
                    if out.len() >= MAX_CAPTURED_HEADERS_PER_EVENT {
                        assert(recorded_headers(rest.drop_first(), names, 0) =~= seq![]);
                        assert(header_views(out@) + seq![] =~= header_views(out@));
                        return out;
                    }
                }
            },
            None => {},
        }
        i = i + 1;
    }
    assert(all.skip(i as int).len() == 0);
    assert(header_views(out@) + seq![] =~= header_views(out@));
    out
}

/// A recorded header list never exceeds its limit, and a header on the
/// redaction list is recorded only as the redaction marker.
pub proof fn law_recorded_headers_redacted(ls: Seq<Seq<char>>, names: Seq<Seq<char>>, limit: nat)
    ensures
        recorded_headers(ls, names, limit).len() <= limit,
        forall|i: int|
            0 <= i < recorded_headers(ls, names, limit).len() ==> {
                let h = #[trigger] recorded_headers(ls, names, limit)[i];
                h.name.len() <= MAX_CAPTURED_HEADER_NAME_LEN + 14
            },
    decreases ls.len(),
{
    if ls.len() > 0 && limit > 0 {
        let line = trim_end_char(ls[0], '\r');
        if line.len() > 0 {
            match split_once(line, ':') {
                Some((n, v)) => {
                    let name = trim(n);
                    if name.len() == 0 {
                        law_recorded_headers_redacted(ls.drop_first(), names, limit);
                    } else {
                        law_recorded_headers_redacted(ls.drop_first(), names, (limit - 1) as nat);
                        reveal_strlit("...(truncated)");
                        crate::redact::law_truncated_capture_bounded(
                            name,
                            MAX_CAPTURED_HEADER_NAME_LEN as nat,
                        );
                        let r = recorded_headers(ls, names, limit);
                        let t = recorded_headers(ls.drop_first(), names, (limit - 1) as nat);
                        assert forall|i: int| 0 <= i < r.len() implies (
                        #[trigger] r[i]).name.len() <= MAX_CAPTURED_HEADER_NAME_LEN + 14 by {
                            if i > 0 {
                                assert(r[i] == t[i - 1]);
                            }
                        }
                    }
                },
                None => {
                    law_recorded_headers_redacted(ls.drop_first(), names, limit);
                },
            }
        }
    }
}

// ---------------------------------------------------------------------------
// gRPC paths
// ---------------------------------------------------------------------------

/// The non-empty trimmed piece `i` of `/service/method`, if any.
pub open spec fn grpc_segment(path: Seq<char>, i: int) -> Option<Seq<char>> {
    let path_only = match split_once(path, '?') {
        Some((p, _)) => p,
        None => path,
    };
    let segs = split_pred(trim_start_char(trim(path_only), '/'), is_char('/'));
    if i < segs.len() && trim(segs[i]).len() > 0 {
        Some(trim(segs[i]))
    } else {
        None
    }
}

/// Service and method named by a gRPC request path.
pub fn parse_grpc_service_method(path: &str) -> (r: (Option<String>, Option<String>))
    ensures
        match r.0 {
            Some(s) => grpc_segment(path@, 0) == Some(s@),
            None => grpc_segment(path@, 0) is None,
        },
        match r.1 {
            Some(m) => grpc_segment(path@, 1) == Some(m@),
            None => grpc_segment(path@, 1) is None,
        },
{
    let pv = chars_of(path);
    let path_only = match split_once_chars(&pv, '?') {
        Some((p, _)) => p,
        None => pv,
    };
    let body = trim_start_char_chars(&trim_chars(&path_only), '/');
    let segs = split_char_chars(&body, '/');
    proof {
    }
    let service = if 0 < segs.len() {
        assert(views(segs@)[0] == segs@[0]@);
        let t = trim_chars(&segs[0]);
        if t.len() > 0 {
            Some(string_of(&t))
        } else {
            None
        }
    } else {
        None
    };
    let method = if 1 < segs.len() {
        assert(views(segs@)[1] == segs@[1]@);
        let t = trim_chars(&segs[1]);
        if t.len() > 0 {
            Some(string_of(&t))
        } else {
            None
        }
    } else {
        None
    };
    (service, method)
}

} // verus!
