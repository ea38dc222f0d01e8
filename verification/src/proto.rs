//! Reading `.proto` sources for the gRPC services and methods they declare,
//! and tidying the text that `protoc --decode` prints.

use vstd::prelude::*;
use crate::json::{json_parsed, json_pretty_text, json_to_pretty_string, parse_json_text};
use crate::config::key_lt;
use crate::config::{key_lt_chars, lemma_key_lt_irreflexive, lemma_key_lt_total, lemma_key_lt_transitive};
use crate::routes::{count_char, opt_view};
use crate::text::{
    append_chars, append_str, chars_eq, chars_of, contains_char, copy_range, ends_with,
    ends_with_str, find_char_from, find_pred, is_char, is_ws, join, join_chars, lemma_find_pred,
    lines, lines_chars, occurs_at, occurs_at_chars, starts_with, starts_with_str, str_views,
    string_of, trim, trim_chars, trim_end_char, trim_end_char_chars, trim_start, trim_start_chars,
    views, is_ascii_alnum, is_ascii_alnum_char, is_ascii_upper,
};

verus! {

// ---------------------------------------------------------------------------
// Small text helpers
// ---------------------------------------------------------------------------

/// The first position at or after `i` where `t` occurs in `s`.
pub open spec fn first_occ_from(s: Seq<char>, t: Seq<char>, i: int) -> Option<int>
    decreases s.len() + 1 - i,
{
    if i < 0 || i > s.len() {
        None
    } else if occurs_at(s, t, i) {
        Some(i)
    } else {
        first_occ_from(s, t, i + 1)
    }
}

/// `str::find` for a string pattern.
pub open spec fn first_occ(s: Seq<char>, t: Seq<char>) -> Option<int> {
    first_occ_from(s, t, 0)
}

pub fn find_str(v: &Vec<char>, t: &str) -> (r: Option<usize>)
    ensures
        match r {
            Some(i) => first_occ(v@, t@) == Some(i as int) && i + t@.len() <= v@.len(),
            None => first_occ(v@, t@) is None,
        },
{
    let tv = chars_of(t);
    let mut i: usize = 0;
    while i <= v.len()
        invariant
            i <= v@.len() + 1,
            tv@ == t@,
            first_occ(v@, t@) == first_occ_from(v@, t@, i as int),
        decreases v@.len() + 1 - i,
    {
        if occurs_at_chars(v, &tv, i) {
            return Some(i);
        }
        if i == v.len() {
            assert(first_occ_from(v@, t@, i + 1) is None);
            return None;
        }
        i = i + 1;
    }
    None
}

/// A character of an identifier: ASCII letter, digit or `_`.
pub open spec fn is_ident_char(c: char) -> bool {
    is_ascii_alnum(c) || c == '_'
}

/// The length of the identifier at the start of `s`.
pub open spec fn ident_len(s: Seq<char>) -> nat
    decreases s.len(),
{
    if s.len() > 0 && is_ident_char(s[0]) {
        1 + ident_len(s.drop_first())
    } else {
        0
    }
}

proof fn lemma_ident_len(s: Seq<char>)
    ensures
        ident_len(s) <= s.len(),
    decreases s.len(),
{
    if s.len() > 0 && is_ident_char(s[0]) {
        lemma_ident_len(s.drop_first());
    }
}

fn ident_len_exec(v: &Vec<char>) -> (n: usize)
    ensures
        n == ident_len(v@),
        n <= v@.len(),
{
    let mut i: usize = 0;
    assert(v@.skip(0) == v@);
    while i < v.len() && (is_ascii_alnum_char(v[i]) || v[i] == '_')
        invariant
            i <= v@.len(),
            ident_len(v@) == i + ident_len(v@.skip(i as int)),
        decreases v.len() - i,
    {
        assert(v@.skip(i as int).drop_first() == v@.skip(i + 1));
        i = i + 1;
    }
    proof {
        lemma_ident_len(v@.skip(i as int));
    }
    i
}

/// `str::trim_start_matches` for a string pattern.
pub open spec fn strip_all(s: Seq<char>, pat: Seq<char>) -> Seq<char>
    decreases s.len(),
{
    if pat.len() > 0 && starts_with(s, pat) {
        strip_all(s.skip(pat.len() as int), pat)
    } else {
        s
    }
}

fn strip_all_chars(v: &Vec<char>, pat: &str) -> (r: Vec<char>)
    ensures
        r@ == strip_all(v@, pat@),
{
    let pv = chars_of(pat);
    let mut i: usize = 0;
    assert(v@.skip(0) == v@);
    loop
        invariant
            i <= v@.len(),
            pv@ == pat@,
            strip_all(v@, pat@) == strip_all(v@.skip(i as int), pat@),
        decreases v@.len() - i,
    {
        let rest = copy_range(v, i, v.len());
        assert(rest@ == v@.skip(i as int));
        if pv.len() > 0 && crate::text::starts_with_chars(&rest, &pv) {
            assert(v@.skip(i as int).skip(pv@.len() as int) == v@.skip(i + pv.len()));
            i = i + pv.len();
        } else {
            return rest;
        }
    }
}

// ---------------------------------------------------------------------------
// Declarations
// ---------------------------------------------------------------------------

/// `package a.b;` gives `a.b`.
pub open spec fn package_decl(line: Seq<char>) -> Option<Seq<char>> {
    let t = trim_start(line);
    if starts_with(t, "package "@) {
        let v = trim(trim_end_char(trim(t.skip(8)), ';'));
        if v.len() > 0 {
            Some(v)
        } else {
            None
        }
    } else {
        None
    }
}

/// The package a line declares.
pub fn parse_proto_package(line: &str) -> (r: Option<String>)
    ensures
        opt_view(r) == package_decl(line@),
{
    let t = trim_start_chars(&chars_of(line));
    proof {
        reveal_strlit("package ");
    }
    if !starts_with_str(&t, "package ") {
        return None;
    }
    let rest = copy_range(&t, 8, t.len());
    let v = trim_chars(&trim_end_char_chars(&trim_chars(&rest), ';'));
    if v.len() > 0 {
        Some(string_of(&v))
    } else {
        None
    }
}

/// `service Name {` gives `Name`.
pub open spec fn service_decl(line: Seq<char>) -> Option<Seq<char>> {
    let t = trim_start(line);
    if starts_with(t, "service "@) {
        let rest = t.skip(8);
        let name = rest.take(ident_len(rest) as int);
        if name.len() > 0 {
            Some(name)
        } else {
            None
        }
    } else {
        None
    }
}

/// The service a line declares.
pub fn parse_proto_service_decl(line: &str) -> (r: Option<String>)
    ensures
        opt_view(r) == service_decl(line@),
{
    let t = trim_start_chars(&chars_of(line));
    proof {
        reveal_strlit("service ");
    }
    if !starts_with_str(&t, "service ") {
        return None;
    }
    let rest = copy_range(&t, 8, t.len());
    let n = ident_len_exec(&rest);
    let name = copy_range(&rest, 0, n);
    if name.len() > 0 {
        Some(string_of(&name))
    } else {
        None
    }
}

/// The type inside the parentheses that open first in `s`, with `stream `
/// prefixes removed, and the position after the closing parenthesis.
pub open spec fn paren_type(s: Seq<char>) -> Option<(Seq<char>, int)> {
    match find_pred(s, is_char('(')) {
        None => None,
        Some(open) => match find_pred(s.skip(open + 1int), is_char(')')) {
            None => None,
            Some(close0) => {
                let close: int = close0 + open + 1int;
                Some((trim(strip_all(trim(s.subrange(open + 1int, close)), "stream "@)), close + 1))
            },
        },
    }
}

/// `rpc Name(Req) returns (Resp);` gives `(Name, Req, Resp)`.
pub open spec fn rpc_decl(line: Seq<char>) -> Option<(Seq<char>, Seq<char>, Seq<char>)> {
    match first_occ(line, "rpc "@) {
        None => None,
        Some(p) => {
            let after_rpc = trim_start(line.skip(p + 4));
            let name = after_rpc.take(ident_len(after_rpc) as int);
            if name.len() == 0 {
                None
            } else {
                let after_method = trim_start(after_rpc.skip(name.len() as int));
                match paren_type(after_method) {
                    None => None,
                    Some((req, after_req)) => {
                        let after_request = after_method.skip(after_req);
                        match first_occ(after_request, "returns"@) {
                            None => None,
                            Some(rp) => match paren_type(trim_start(after_request.skip(rp + 7))) {
                                None => None,
                                Some((resp, _)) => if req.len() == 0 || resp.len() == 0 {
                                    None
                                } else {
                                    Some((name, req, resp))
                                },
                            },
                        }
                    },
                }
            }
        },
    }
}

fn paren_type_exec(s: &Vec<char>) -> (r: Option<(Vec<char>, usize)>)
    ensures
        match r {
            Some((t, e)) => paren_type(s@) == Some((t@, e as int)) && e <= s@.len(),
            None => paren_type(s@) is None,
        },
{
    assert(s@.skip(0) == s@);
    let open = match find_char_from(s, 0, '(') {
        Some(i) => i,
        None => return None,
    };
    let close = match find_char_from(s, open + 1, ')') {
        Some(i) => i,
        None => return None,
    };
    let inner = trim_chars(&copy_range(s, open + 1, close));
    let t = trim_chars(&strip_all_chars(&inner, "stream "));
    Some((t, close + 1))
}

/// The method and message types an `rpc` declaration names.
pub fn parse_proto_rpc_decl(line: &str) -> (r: Option<(String, String, String)>)
    ensures
        match r {
            Some((a, b, c)) => rpc_decl(line@) == Some((a@, b@, c@)),
            None => rpc_decl(line@) is None,
        },
{
    let lv = chars_of(line);
    let p = match find_str(&lv, "rpc ") {
        Some(p) => p,
        None => return None,
    };
    proof {
        reveal_strlit("rpc ");
    }
    let after_rpc = trim_start_chars(&copy_range(&lv, p + 4, lv.len()));
    let n = ident_len_exec(&after_rpc);
    if n == 0 {
        return None;
    }
    let name = copy_range(&after_rpc, 0, n);
    let after_method = trim_start_chars(&copy_range(&after_rpc, n, after_rpc.len()));
    let (req, after_req) = match paren_type_exec(&after_method) {
        Some(x) => x,
        None => return None,
    };
    let after_request = copy_range(&after_method, after_req, after_method.len());
    let rp = match find_str(&after_request, "returns") {
        Some(x) => x,
        None => return None,
    };
    proof {
        reveal_strlit("returns");
    }
    let after_returns = trim_start_chars(&copy_range(&after_request, rp + 7, after_request.len()));
    let (resp, _) = match paren_type_exec(&after_returns) {
        Some(x) => x,
        None => return None,
    };
    if req.len() == 0 || resp.len() == 0 {
        return None;
    }
    Some((string_of(&name), string_of(&req), string_of(&resp)))
}

/// The fully qualified name of a message type used in package `package`:
/// names that start with a capital letter (or have no dot) are relative to
/// the package.
pub open spec fn resolved_type(raw: Seq<char>, package: Seq<char>) -> Seq<char> {
    let t = trim(crate::text::trim_start_char(trim(raw), '.'));
    if t.len() == 0 {
        seq![]
    } else if package.len() == 0 {
        t
    } else if t.contains('.') {
        let first = crate::text::split_pred(t, is_char('.'))[0];
        if first.len() > 0 && is_ascii_upper(first[0]) {
            package + "."@ + t
        } else {
            t
        }
    } else {
        package + "."@ + t
    }
}

/// Qualifies a message type name with the package.
pub fn resolve_proto_type_name(raw: &str, package: &str) -> (r: String)
    ensures
        r@ == resolved_type(raw@, package@),
{
    let t = trim_chars(
        &crate::text::trim_start_char_chars(&trim_chars(&chars_of(raw)), '.'),
    );
    if t.len() == 0 {
        return String::new();
    }
    let pv = chars_of(package);
    if pv.len() == 0 {
        return string_of(&t);
    }
    let qualified = {
        let mut q = copy_range(&pv, 0, pv.len());
        append_str(&mut q, ".");
        append_chars(&mut q, &t);
        q
    };
    if contains_char(&t, '.') {
        let parts = crate::text::split_char_chars(&t, '.');
        assert(views(parts@)[0] == parts@[0]@);
        let first = &parts[0];
        if first.len() > 0 && 'A' <= first[0] && first[0] <= 'Z' {
            string_of(&qualified)
        } else {
            string_of(&t)
        }
    } else {
        string_of(&qualified)
    }
}

/// Opening minus closing braces of a line.
pub open spec fn brace_balance(line: Seq<char>) -> int {
    count_char(line, '{') - count_char(line, '}')
}

proof fn lemma_count_le(s: Seq<char>, c: char)
    ensures
        count_char(s, c) <= s.len(),
    decreases s.len(),
{
    if s.len() > 0 {
        lemma_count_le(s.drop_last(), c);
    }
}

fn count_char_exec(v: &Vec<char>, c: char) -> (n: usize)
    ensures
        n == count_char(v@, c),
{
    let mut n: usize = 0;
    let mut i: usize = 0;
    while i < v.len()
        invariant
            i <= v@.len(),
            n == count_char(v@.take(i as int), c),
            n <= i,
        decreases v.len() - i,
    {
        assert(v@.take(i + 1).drop_last() =~= v@.take(i as int));
        if v[i] == c {
            n = n + 1;
        }
        i = i + 1;
    }
    assert(v@.take(v@.len() as int) =~= v@);
    n
}

/// Opening minus closing braces of a line.
pub fn brace_delta(line: &str) -> (r: i32)
    requires
        line@.len() <= i32::MAX,
    ensures
        r == brace_balance(line@),
{
    let v = chars_of(line);
    let opens = count_char_exec(&v, '{');
    let closes = count_char_exec(&v, '}');
    proof {
        lemma_count_le(v@, '{');
        lemma_count_le(v@, '}');
    }
    (opens as i32) - (closes as i32)
}

/// Two service names denote the same service: equal, or one is the other
/// with a package prefix.
pub open spec fn service_names_match(left: Seq<char>, right: Seq<char>) -> bool {
    left == right || ends_with(left, "."@ + right) || ends_with(right, "."@ + left)
}

/// Whether two gRPC service names denote the same service.
pub fn grpc_service_matches(left: &str, right: &str) -> (r: bool)
    ensures
        r == service_names_match(left@, right@),
{
    let l = chars_of(left);
    let rv = chars_of(right);
    if chars_eq(&l, &rv) {
        return true;
    }
    let mut dr = chars_of(".");
    append_chars(&mut dr, &rv);
    let mut dl = chars_of(".");
    append_chars(&mut dl, &l);
    crate::text::ends_with_chars(&l, &dr) || crate::text::ends_with_chars(&rv, &dl)
}

// ---------------------------------------------------------------------------
// Reading a .proto file
// ---------------------------------------------------------------------------

/// An `rpc` of a service, with fully qualified names.
#[derive(Debug, Clone, PartialEq, Eq)]
pub struct ProtoMethod {
    pub service: String,
    pub method: String,
    pub request_type: String,
    pub response_type: String,
}

pub struct MethodView {
    pub service: Seq<char>,
    pub method: Seq<char>,
    pub request_type: Seq<char>,
    pub response_type: Seq<char>,
}

pub open spec fn method_views(v: Seq<ProtoMethod>) -> Seq<MethodView> {
    v.map_values(
        |m: ProtoMethod|
            MethodView {
                service: m.service@,
                method: m.method@,
                request_type: m.request_type@,
                response_type: m.response_type@,
            },
    )
}

/// Where the scan of a file stands after some lines.
pub struct ScanState {
    pub package: Seq<char>,
    pub service: Option<Seq<char>>,
    pub depth: int,
    pub buffer: Seq<char>,
    pub methods: Seq<MethodView>,
}

/// A line without its `//` comment, trimmed.
pub open spec fn code_of(raw: Seq<char>) -> Seq<char> {
    trim(
        match first_occ(raw, "//"@) {
            Some(i) => raw.take(i),
            None => raw,
        },
    )
}

/// The method an `rpc` line adds, if it declares one.
pub open spec fn method_from(st: ScanState, service: Seq<char>, buffer: Seq<char>) -> Seq<MethodView> {
    match rpc_decl(buffer) {
        Some((name, req, resp)) => seq![
            MethodView {
                service: if st.package.len() == 0 {
                    service
                } else {
                    st.package + "."@ + service
                },
                method: name,
                request_type: resolved_type(req, st.package),
                response_type: resolved_type(resp, st.package),
            },
        ],
        None => seq![],
    }
}

/// One line of the scan: the package is taken from the first `package` line;
/// outside a service a `service` line opens one; inside, lines are gathered
/// until a `;` completes an `rpc`, and the service closes when its braces
/// balance.
pub open spec fn scan_line(st: ScanState, raw: Seq<char>) -> ScanState {
    let line = code_of(raw);
    if line.len() == 0 {
        st
    } else {
        let package = if st.package.len() == 0 {
            match package_decl(line) {
                Some(p) => p,
                None => st.package,
            }
        } else {
            st.package
        };
        let st1 = ScanState { package, ..st };
        match st1.service {
            None => match service_decl(line) {
                Some(name) => ScanState {
                    service: Some(name),
                    depth: if brace_balance(line) <= 0 {
                        1
                    } else {
                        brace_balance(line)
                    },
                    ..st1
                },
                None => st1,
            },
            Some(service) => {
                let buffer = st1.buffer + seq![' '] + line;
                let (buffer2, methods) = if line.contains(';') {
                    (seq![], st1.methods + method_from(st1, service, buffer))
                } else {
                    (buffer, st1.methods)
                };
                let depth = st1.depth + brace_balance(line);
                if depth <= 0 {
                    ScanState { package, service: None, depth: 0, buffer: seq![], methods }
                } else {
                    ScanState { package, service: Some(service), depth, buffer: buffer2, methods }
                }
            },
        }
    }
}

pub open spec fn scan_start() -> ScanState {
    ScanState { package: seq![], service: None, depth: 0, buffer: seq![], methods: seq![] }
}

pub open spec fn scan_lines(ls: Seq<Seq<char>>) -> ScanState
    decreases ls.len(),
{
    if ls.len() == 0 {
        scan_start()
    } else {
        scan_line(scan_lines(ls.drop_last()), ls.last())
    }
}

/// What `parse_grpc_proto_methods` returns for a file's text.
pub open spec fn proto_methods(content: Seq<char>) -> Seq<MethodView> {
    scan_lines(lines(content)).methods
}

/// Total characters of some lines.
pub open spec fn total_len(ls: Seq<Seq<char>>) -> nat
    decreases ls.len(),
{
    if ls.len() == 0 {
        0
    } else {
        total_len(ls.drop_last()) + ls.last().len()
    }
}

proof fn lemma_total_len_single(x: Seq<char>)
    ensures
        total_len(seq![x]) == x.len(),
{
    assert(seq![x].drop_last() =~= Seq::<Seq<char>>::empty());
    assert(total_len(Seq::<Seq<char>>::empty()) == 0);
    assert(seq![x].last() == x);
}

proof fn lemma_total_len_push(ls: Seq<Seq<char>>, x: Seq<char>)
    ensures
        total_len(ls.push(x)) == total_len(ls) + x.len(),
{
    assert(ls.push(x).drop_last() =~= ls);
}

proof fn lemma_total_len_concat(a: Seq<Seq<char>>, b: Seq<Seq<char>>)
    ensures
        total_len(a + b) == total_len(a) + total_len(b),
    decreases b.len(),
{
    if b.len() == 0 {
        assert(a + b =~= a);
    } else {
        lemma_total_len_concat(a, b.drop_last());
        assert((a + b).drop_last() =~= a + b.drop_last());
    }
}

proof fn lemma_lines_total(s: Seq<char>)
    ensures
        total_len(lines(s)) <= s.len(),
    decreases s.len(),
{
    if s.len() > 0 {
        match find_pred(s, is_char('\n')) {
            Some(i) => {
                lemma_find_pred(s, is_char('\n'));
                lemma_lines_total(s.skip(i as int + 1));
                let first = crate::text::strip_cr(s.take(i as int));
                assert(lines(s) == seq![first] + lines(s.skip(i as int + 1)));
                lemma_total_len_concat(seq![first], lines(s.skip(i as int + 1)));
                lemma_total_len_single(first);
            },
            None => {
                assert(lines(s) == seq![s]);
                lemma_total_len_single(s);
            },
        }
    }
}

proof fn lemma_trim_shorter(s: Seq<char>)
    ensures
        trim(s).len() <= s.len(),
{
    lemma_trim_start_shorter(s);
    lemma_trim_end_shorter(trim_start(s));
}

proof fn lemma_trim_start_shorter(s: Seq<char>)
    ensures
        trim_start(s).len() <= s.len(),
    decreases s.len(),
{
    if s.len() > 0 && is_ws(s[0]) {
        lemma_trim_start_shorter(s.drop_first());
    }
}

proof fn lemma_trim_end_shorter(s: Seq<char>)
    ensures
        crate::text::trim_end(s).len() <= s.len(),
    decreases s.len(),
{
    if s.len() > 0 && is_ws(s.last()) {
        lemma_trim_end_shorter(s.drop_last());
    }
}

fn code_of_exec(raw: &Vec<char>) -> (r: Vec<char>)
    ensures
        r@ == code_of(raw@),
        r@.len() <= raw@.len(),
{
    let cut = match find_str(raw, "//") {
        Some(i) => copy_range(raw, 0, i),
        None => copy_range(raw, 0, raw.len()),
    };
    assert(cut@.len() <= raw@.len());
    proof {
        if first_occ(raw@, "//"@) is None {
            assert(cut@ =~= raw@);
        }
        lemma_trim_shorter(cut@);
    }
    trim_chars(&cut)
}

/// The services' methods declared in the text of a `.proto` file.
pub fn parse_grpc_proto_methods(content: &str) -> (r: Vec<ProtoMethod>)
    requires
        content@.len() <= i32::MAX,
    ensures
        method_views(r@) == proto_methods(content@),
{
    let text = chars_of(content);
    let ls = lines_chars(&text);
    let ghost all = views(ls@);
    proof {
        lemma_lines_total(content@);
    }
    let mut package: Vec<char> = Vec::new();
    let mut service: Option<Vec<char>> = None;
    let mut depth: i64 = 0;
    let mut buffer: Vec<char> = Vec::new();
    let mut methods: Vec<ProtoMethod> = Vec::new();
    let mut i: usize = 0;
    assert(all.take(0) =~= Seq::<Seq<char>>::empty());
    while i < ls.len()
        invariant
            i <= ls@.len(),
            all == views(ls@),
            all == lines(content@),
            total_len(all) <= content@.len(),
            content@.len() <= i32::MAX,
            0 <= depth <= total_len(all.take(i as int)),
            ({
                let st = scan_lines(all.take(i as int));
                &&& st.package == package@
                &&& st.service == match service {
                    Some(s) => Some(s@),
                    None => None::<Seq<char>>,
                }
                &&& st.depth == depth as int
                &&& st.buffer == buffer@
                &&& st.methods == method_views(methods@)
            }),
        decreases ls.len() - i,
    {
        let raw = &ls[i];
        assert(all[i as int] == raw@);
        assert(all.take(i + 1).drop_last() =~= all.take(i as int));
        assert(all.take(i + 1).last() == raw@);
        proof {
            lemma_total_len_push(all.take(i as int), raw@);
            assert(all.take(i + 1) =~= all.take(i as int).push(raw@));
            lemma_total_len_concat(all.take(i + 1), all.skip(i + 1));
            assert(all =~= all.take(i + 1) + all.skip(i + 1));
        }
        let ghost st0 = scan_lines(all.take(i as int));
        let ghost st_next = scan_line(st0, raw@);
        let line = code_of_exec(raw);
        if line.len() > 0 {
            let line_s = string_of(&line);
            if package.len() == 0 {
                match parse_proto_package(line_s.as_str()) {
                    Some(p) => {
                        package = chars_of(p.as_str());
                    },
                    None => {},
                }
            }
            let ghost st1 = ScanState { package: package@, ..st0 };
            assert(st_next == match st1.service {
                None => match service_decl(line@) {
                    Some(name) => ScanState {
                        service: Some(name),
                        depth: if brace_balance(line@) <= 0 {
                            1
                        } else {
                            brace_balance(line@)
                        },
                        ..st1
                    },
                    None => st1,
                },
                Some(service) => {
                    let buffer = st1.buffer + seq![' '] + line@;
                    let (buffer2, methods) = if line@.contains(';') {
                        (seq![], st1.methods + method_from(st1, service, buffer))
                    } else {
                        (buffer, st1.methods)
                    };
                    let depth = st1.depth + brace_balance(line@);
                    if depth <= 0 {
                        ScanState { package: st1.package, service: None, depth: 0, buffer: seq![], methods }
                    } else {
                        ScanState { package: st1.package, service: Some(service), depth, buffer: buffer2, methods }
                    }
                },
            });
            let delta = brace_delta(line_s.as_str()) as i64;
            proof {
                lemma_count_le(line@, '{');
                lemma_count_le(line@, '}');
            }
            match service {
                None => {
                    match parse_proto_service_decl(line_s.as_str()) {
                        Some(name) => {
                            service = Some(chars_of(name.as_str()));
                            depth = if delta <= 0 {
                                1
                            } else {
                                delta
                            };
                        },
                        None => {},
                    }
                },
                Some(svc) => {
                    buffer.push(' ');
                    append_chars(&mut buffer, &line);
                    assert(buffer@ =~= st1.buffer + seq![' '] + line@);
                    if contains_char(&line, ';') {
                        let buf_s = string_of(&buffer);
                        match parse_proto_rpc_decl(buf_s.as_str()) {
                            Some((name, req, resp)) => {
                                let ghost name_v = name@;
                                let ghost req_v = req@;
                                let ghost resp_v = resp@;
                                let pkg_s = string_of(&package);
                                let svc_s = string_of(&svc);
                                let full = if package.len() == 0 {
                                    svc_s
                                } else {
                                    let mut f = copy_range(&package, 0, package.len());
                                    append_str(&mut f, ".");
                                    append_chars(&mut f, &svc);
                                    string_of(&f)
                                };
                                let m = ProtoMethod {
                                    service: full,
                                    method: name,
                                    request_type: resolve_proto_type_name(req.as_str(), pkg_s.as_str()),
                                    response_type: resolve_proto_type_name(resp.as_str(), pkg_s.as_str()),
                                };
                                let ghost mv = MethodView {
                                    service: m.service@,
                                    method: m.method@,
                                    request_type: m.request_type@,
                                    response_type: m.response_type@,
                                };
                                assert(rpc_decl(buffer@) == Some((name_v, req_v, resp_v)));
                                assert(mv.service == if st1.package.len() == 0 {
                                    svc@
                                } else {
                                    st1.package + "."@ + svc@
                                });
                                assert(mv.request_type == resolved_type(req_v, st1.package));
                                assert(method_from(st1, svc@, buffer@) == seq![mv]);
                                let ghost before = method_views(methods@);
                                methods.push(m);
                                assert(method_views(methods@) =~= before + seq![mv]);
                            },
                            None => {
                                assert(method_from(st1, svc@, buffer@) == Seq::<MethodView>::empty());
                                assert(method_views(methods@) =~= st1.methods + method_from(st1, svc@, buffer@));
                            },
                        }
                        buffer = Vec::new();
                    }
                    depth = depth + delta;
                    if depth <= 0 {
                        service = None;
                        buffer = Vec::new();
                        depth = 0;
                    } else {
                        service = Some(svc);
                    }
                },
            }
        } else {
            assert(st_next == st0);
        }
        assert(scan_lines(all.take(i + 1)) == st_next);
        i = i + 1;
    }
    assert(all.take(ls.len() as int) =~= all);
    methods
}

/// The first method of `methods` that serves `method` of `service`.
pub open spec fn method_binding(methods: Seq<MethodView>, service: Seq<char>, method: Seq<char>) -> Option<int>
    decreases methods.len(),
{
    if methods.len() == 0 {
        None
    } else if methods[0].method == method && service_names_match(methods[0].service, service) {
        Some(0)
    } else {
        match method_binding(methods.drop_first(), service, method) {
            Some(i) => Some(i + 1),
            None => None,
        }
    }
}

/// The message type that decodes a request (or a response) of a method, when
/// a declaration for it is known.
pub open spec fn message_type_for(
    methods: Seq<MethodView>,
    service: Seq<char>,
    method: Seq<char>,
    is_request: bool,
) -> Option<Seq<char>> {
    match method_binding(methods, service, method) {
        Some(i) => {
            let t = if is_request {
                trim(methods[i].request_type)
            } else {
                trim(methods[i].response_type)
            };
            if t.len() == 0 {
                None
            } else {
                Some(t)
            }
        },
        None => None,
    }
}

proof fn lemma_method_binding(methods: Seq<MethodView>, service: Seq<char>, method: Seq<char>)
    ensures
        match method_binding(methods, service, method) {
            Some(i) => 0 <= i < methods.len(),
            None => true,
        },
    decreases methods.len(),
{
    if methods.len() > 0 {
        lemma_method_binding(methods.drop_first(), service, method);
    }
}

/// The message type `protoc --decode` needs for a request (or response) of
/// `method` of `service`.
pub fn decode_message_type(
    methods: &Vec<ProtoMethod>,
    service: &str,
    method: &str,
    is_request: bool,
) -> (r: Option<String>)
    ensures
        opt_view(r) == message_type_for(method_views(methods@), service@, method@, is_request),
{
    let ghost mv = method_views(methods@);
    let mv_method = chars_of(method);
    let mut i: usize = 0;
    assert(mv.skip(0) == mv);
    while i < methods.len()
        invariant
            i <= methods@.len(),
            mv == method_views(methods@),
            mv_method@ == method@,
            method_binding(mv, service@, method@) == match method_binding(
                mv.skip(i as int),
                service@,
                method@,
            ) {
                Some(k) => Some(k + i),
                None => None,
            },
        decreases methods.len() - i,
    {
        assert(mv.skip(i as int)[0] == mv[i as int]);
        assert(mv.skip(i as int).drop_first() == mv.skip(i + 1));
        let m = &methods[i];
        if chars_eq(&chars_of(m.method.as_str()), &mv_method) && grpc_service_matches(
            m.service.as_str(),
            service,
        ) {
            let t = if is_request {
                trim_chars(&chars_of(m.request_type.as_str()))
            } else {
                trim_chars(&chars_of(m.response_type.as_str()))
            };
            if t.len() == 0 {
                return None;
            }
            return Some(string_of(&t));
        }
        i = i + 1;
    }
    None
}

// ---------------------------------------------------------------------------
// Proto paths
// ---------------------------------------------------------------------------

/// Strictly ascending (hence without repeats).
pub open spec fn sorted_strict(v: Seq<Seq<char>>) -> bool {
    forall|i: int, j: int| 0 <= i < j < v.len() ==> key_lt(#[trigger] v[i], #[trigger] v[j])
}

/// `x` is one of the paths, trimmed and not empty.
pub open spec fn is_proto_path(x: Seq<char>, paths: Seq<Seq<char>>) -> bool {
    x.len() > 0 && exists|k: int| 0 <= k < paths.len() && x == trim(#[trigger] paths[k])
}

pub fn insert_sorted(v: &mut Vec<String>, x: String)
    requires
        sorted_strict(str_views(old(v)@)),
    ensures
        sorted_strict(str_views(final(v)@)),
        forall|y: Seq<char>| str_views(final(v)@).contains(y) <==> (str_views(old(v)@).contains(y)
            || y == x@),
{
    let xv = chars_of(x.as_str());
    let ghost old_v = str_views(v@);
    let mut i: usize = 0;
    loop
        invariant
            i <= v@.len(),
            old_v == str_views(v@),
            xv@ == x@,
            sorted_strict(old_v),
            forall|j: int| 0 <= j < i ==> key_lt(#[trigger] old_v[j], x@),
        ensures
            i <= v@.len(),
            old_v == str_views(v@),
            forall|j: int| 0 <= j < i ==> key_lt(#[trigger] old_v[j], x@),
            i < v@.len() ==> key_lt(x@, old_v[i as int]),
        decreases v.len() - i,
    {
        if i >= v.len() {
            break;
        }
        let cur = chars_of(v[i].as_str());
        assert(old_v[i as int] == cur@);
        if chars_eq(&cur, &xv) {
            proof {
                assert forall|y: Seq<char>| str_views(v@).contains(y) <==> (old_v.contains(y)
                    || y == x@) by {
                    if y == x@ {
                        assert(old_v[i as int] == y);
                    }
                }
            }
            return;
        }
        if !key_lt_chars(&cur, &xv) {
            proof {
                lemma_key_lt_total(old_v[i as int], x@);
            }
            break;
        }
        i = i + 1;
    }
    v.insert(i, x);
    proof {
        let nv = str_views(v@);
        assert(nv =~= old_v.insert(i as int, x@));
        assert forall|a: int, b: int| 0 <= a < b < nv.len() implies key_lt(#[trigger] nv[a], #[trigger] nv[b]) by {
            if b < i {
            } else if b == i {
            } else if a < i {
                assert(key_lt(nv[a], x@));
                if b - 1 > i {
                    lemma_key_lt_transitive(x@, old_v[i as int], old_v[b - 1]);
                }
                lemma_key_lt_transitive(nv[a], x@, nv[b]);
            } else if a == i {
                if b - 1 > i {
                    lemma_key_lt_transitive(x@, old_v[i as int], old_v[b - 1]);
                }
            } else {
            }
        }
        assert forall|y: Seq<char>| nv.contains(y) <==> (old_v.contains(y) || y == x@) by {
            if nv.contains(y) {
                let k = choose|k: int| 0 <= k < nv.len() && nv[k] == y;
                if k < i {
                    assert(old_v[k] == y);
                } else if k > i {
                    assert(old_v[k - 1] == y);
                }
            }
            if old_v.contains(y) {
                let k = choose|k: int| 0 <= k < old_v.len() && old_v[k] == y;
                if k < i {
                    assert(nv[k] == y);
                } else {
                    assert(nv[k + 1] == y);
                }
            }
            if y == x@ {
                assert(nv[i as int] == y);
            }
        }
    }
}

/// The proto paths trimmed, without empty ones and repeats, in ascending order.
pub fn normalize_proto_paths(proto_paths: &[String]) -> (r: Vec<String>)
    ensures
        sorted_strict(str_views(r@)),
        forall|x: Seq<char>| str_views(r@).contains(x) <==> is_proto_path(x, str_views(proto_paths@)),
{
    let mut out: Vec<String> = Vec::new();
    let ghost ps = str_views(proto_paths@);
    let mut i: usize = 0;
    while i < proto_paths.len()
        invariant
            i <= proto_paths@.len(),
            ps == str_views(proto_paths@),
            sorted_strict(str_views(out@)),
            forall|x: Seq<char>| str_views(out@).contains(x) <==> is_proto_path(x, ps.take(i as int)),
        decreases proto_paths.len() - i,
    {
        let t = trim_chars(&chars_of(proto_paths[i].as_str()));
        assert(ps[i as int] == proto_paths@[i as int]@);
        let ghost before = str_views(out@);
        if t.len() > 0 {
            insert_sorted(&mut out, string_of(&t));
        }
        proof {
            assert forall|x: Seq<char>| str_views(out@).contains(x) <==> is_proto_path(x, ps.take(i + 1)) by {
                if is_proto_path(x, ps.take(i + 1)) {
                    let k = choose|k: int| 0 <= k < ps.take(i + 1).len() && x == trim(#[trigger] ps.take(i + 1)[k]);
                    if k < i {
                        assert(ps.take(i as int)[k] == ps.take(i + 1)[k]);
                        assert(is_proto_path(x, ps.take(i as int)));
                    }
                }
                if is_proto_path(x, ps.take(i as int)) {
                    let k = choose|k: int| 0 <= k < ps.take(i as int).len() && x == trim(#[trigger] ps.take(i as int)[k]);
                    assert(ps.take(i + 1)[k] == ps.take(i as int)[k]);
                }
                if t@.len() > 0 && x == t@ {
                    assert(ps.take(i + 1)[i as int] == ps[i as int]);
                }
            }
        }
        i = i + 1;
    }
    assert(ps.take(ps.len() as int) =~= ps);
    out
}

// ---------------------------------------------------------------------------
// Tidying protoc output
// ---------------------------------------------------------------------------

/// `name: "value"` gives the text up to and including the colon, and the
/// quoted value without its quotes.
pub open spec fn quoted_field(line: Seq<char>) -> Option<(Seq<char>, Seq<char>)> {
    match find_pred(line, is_char(':')) {
        None => None,
        Some(colon) => {
            let left = line.take(colon + 1int);
            let value = trim_start(line.skip(colon + 1int));
            if value.len() >= 2 && value[0] == '"' && value.last() == '"' {
                Some((left, value.subrange(1, value.len() - 1)))
            } else {
                None
            }
        },
    }
}

/// Splits a `name: "value"` line.
pub fn parse_proto_quoted_field_line(line: &str) -> (r: Option<(String, String)>)
    ensures
        match r {
            Some((a, b)) => quoted_field(line@) == Some((a@, b@)),
            None => quoted_field(line@) is None,
        },
{
    let lv = chars_of(line);
    assert(lv@.skip(0) == lv@);
    let colon = match find_char_from(&lv, 0, ':') {
        Some(i) => i,
        None => return None,
    };
    let left = copy_range(&lv, 0, colon + 1);
    let value = trim_start_chars(&copy_range(&lv, colon + 1, lv.len()));
    if value.len() >= 2 && value[0] == '"' && value[value.len() - 1] == '"' {
        let inner = copy_range(&value, 1, value.len() - 1);
        Some((string_of(&left), string_of(&inner)))
    } else {
        None
    }
}

/// The value of a hex digit.
pub open spec fn hex_value(c: char) -> Option<nat> {
    if '0' <= c && c <= '9' {
        Some(((c as int) - ('0' as int)) as nat)
    } else if 'a' <= c && c <= 'f' {
        Some(((c as int) - ('a' as int) + 10) as nat)
    } else if 'A' <= c && c <= 'F' {
        Some(((c as int) - ('A' as int) + 10) as nat)
    } else {
        None
    }
}

/// `u8::from_str_radix` of the two characters `hi lo` in base 16 (a leading
/// `+` is accepted).
pub open spec fn hex_pair(hi: char, lo: char) -> Option<nat> {
    if hi == '+' {
        hex_value(lo)
    } else {
        match (hex_value(hi), hex_value(lo)) {
            (Some(h), Some(l)) => Some(h * 16 + l),
            _ => None,
        }
    }
}

/// Undoes the escapes protoc writes in strings: `\n`, `\r`, `\t`, `\"`, `\\`
/// and `\xHH`; another escaped character stands for itself.
pub open spec fn unescaped(s: Seq<char>) -> Seq<char>
    decreases s.len(),
{
    if s.len() == 0 {
        seq![]
    } else if s[0] != '\\' {
        seq![s[0]] + unescaped(s.drop_first())
    } else if s.len() == 1 {
        seq![]
    } else {
        let e = s[1];
        if e == 'x' {
            if s.len() >= 4 {
                (match hex_pair(s[2], s[3]) {
                    Some(v) => seq![(v as u8) as char],
                    None => seq![],
                }) + unescaped(s.skip(4))
            } else {
                seq![]
            }
        } else {
            let c = if e == 'n' {
                '\n'
            } else if e == 'r' {
                '\r'
            } else if e == 't' {
                '\t'
            } else {
                e
            };
            seq![c] + unescaped(s.skip(2))
        }
    }
}

fn hex_value_exec(c: char) -> (r: Option<u8>)
    ensures
        match r {
            Some(v) => hex_value(c) == Some(v as nat) && v < 16,
            None => hex_value(c) is None,
        },
{
    if '0' <= c && c <= '9' {
        Some(((c as u32) - 48) as u8)
    } else if 'a' <= c && c <= 'f' {
        Some(((c as u32) - 97 + 10) as u8)
    } else if 'A' <= c && c <= 'F' {
        Some(((c as u32) - 65 + 10) as u8)
    } else {
        None
    }
}

/// The text of a protoc string literal's contents.
pub fn decode_proto_escaped_string(input: &str) -> (r: String)
    ensures
        r@ == unescaped(input@),
{
    let v = chars_of(input);
    let mut out: Vec<char> = Vec::new();
    let mut i: usize = 0;
    assert(v@.skip(0) == v@);
    assert(out@ + unescaped(v@.skip(0)) =~= unescaped(v@));
    while i < v.len()
        invariant
            i <= v@.len(),
            out@ + unescaped(v@.skip(i as int)) == unescaped(v@),
        decreases v.len() - i,
    {
        let ghost rest = v@.skip(i as int);
        let ghost before = out@;
        let c = v[i];
        assert(rest[0] == c);
        if c != '\\' {
            out.push(c);
            assert(rest.drop_first() =~= v@.skip(i + 1));
            assert(out@ + unescaped(v@.skip(i + 1)) =~= before + unescaped(rest));
            i = i + 1;
        } else if i + 1 == v.len() {
            assert(rest.len() == 1);
            assert(unescaped(v@.skip(v@.len() as int)) =~= seq![]);
            assert(out@ + unescaped(v@.skip(v@.len() as int)) =~= before + unescaped(rest));
            i = i + 1;
        } else {
            let e = v[i + 1];
            assert(rest[1] == e);
            if e == 'x' {
                if v.len() - i > 3 {
                    assert(rest[2] == v@[i + 2] && rest[3] == v@[i + 3]);
                    let hi = v[i + 2];
                    let lo = v[i + 3];
                    let value: Option<u8> = if hi == '+' {
                        hex_value_exec(lo)
                    } else {
                        match (hex_value_exec(hi), hex_value_exec(lo)) {
                            (Some(h), Some(l)) => Some(h * 16 + l),
                            _ => None,
                        }
                    };
                    match value {
                        Some(b) => {
                            out.push(b as char);
                        },
                        None => {},
                    }
                    assert(rest.skip(4) =~= v@.skip(i + 4));
                    assert(out@ + unescaped(v@.skip(i + 4)) =~= before + unescaped(rest));
                    i = i + 4;
                } else {
                    assert(unescaped(v@.skip(v@.len() as int)) =~= seq![]);
                    assert(out@ + unescaped(v@.skip(v@.len() as int)) =~= before + unescaped(rest));
                    i = v.len();
                }
            } else {
                let d = if e == 'n' {
                    '\n'
                } else if e == 'r' {
                    '\r'
                } else if e == 't' {
                    '\t'
                } else {
                    e
                };
                out.push(d);
                assert(rest.skip(2) =~= v@.skip(i + 2));
                assert(out@ + unescaped(v@.skip(i + 2)) =~= before + unescaped(rest));
                i = i + 2;
            }
        }
    }
    assert(v@.skip(v@.len() as int) =~= seq![]);
    assert(out@ + seq![] =~= out@);
    string_of(&out)
}

/// Text that looks like a JSON object or array.
pub open spec fn json_like(v: Seq<char>) -> bool {
    (starts_with(v, "{"@) && ends_with(v, "}"@)) || (starts_with(v, "["@) && ends_with(v, "]"@))
}

/// Whether a text looks like a JSON object or array.
pub fn looks_like_json_text(value: &str) -> (r: bool)
    ensures
        r == json_like(value@),
{
    let v = chars_of(value);
    (starts_with_str(&v, "{") && ends_with_str(&v, "}")) || (starts_with_str(&v, "[")
        && ends_with_str(&v, "]"))
}

/// What `serde_json` prints, pretty, for a JSON text (`None` when the text is
/// not JSON).
pub open spec fn json_pretty(text: Seq<char>) -> Option<Seq<char>> {
    match json_parsed(text) {
        Ok(v) => Some(json_pretty_text(v)),
        Err(_) => None,
    }
}

/// A JSON text printed pretty; `None` when it is not JSON.
fn pretty_json(text: &str) -> (r: Option<String>)
    ensures
        opt_view(r) == json_pretty(text@),
{
    match parse_json_text(text) {
        Ok(v) => Some(json_to_pretty_string(&v)),
        Err(_) => None,
    }
}

/// Lines of a pretty text, each indented by two spaces.
pub open spec fn indented(ls: Seq<Seq<char>>) -> Seq<Seq<char>> {
    ls.map_values(|l: Seq<char>| "  "@ + l)
}

/// The lines one line of protoc output becomes: a string field holding JSON
/// becomes the field name followed by the JSON, pretty-printed and indented.
pub open spec fn beautified_line(line: Seq<char>) -> Seq<Seq<char>> {
    match quoted_field(line) {
        None => seq![line],
        Some((prefix, inner)) => {
            let t = trim(unescaped(inner));
            if json_like(t) && json_pretty(t) is Some {
                seq![prefix] + indented(lines(json_pretty(t).unwrap()))
            } else {
                seq![line]
            }
        },
    }
}

pub open spec fn beautified_lines(ls: Seq<Seq<char>>) -> Seq<Seq<char>>
    decreases ls.len(),
{
    if ls.len() == 0 {
        seq![]
    } else {
        beautified_lines(ls.drop_last()) + beautified_line(ls.last())
    }
}

/// What `beautify_protoc_text_output` returns.
pub open spec fn beautified(raw: Seq<char>) -> Seq<char> {
    join(beautified_lines(lines(raw)), "\n"@)
}

/// protoc output with JSON held in string fields shown as indented JSON.
pub fn beautify_protoc_text_output(raw: &str) -> (r: String)
    ensures
        r@ == beautified(raw@),
{
    let ls = lines_chars(&chars_of(raw));
    let ghost all = views(ls@);
    let mut out: Vec<Vec<char>> = Vec::new();
    let mut i: usize = 0;
    assert(all.take(0) =~= Seq::<Seq<char>>::empty());
    while i < ls.len()
        invariant
            i <= ls@.len(),
            all == views(ls@),
            views(out@) == beautified_lines(all.take(i as int)),
        decreases ls.len() - i,
    {
        let line = &ls[i];
        assert(all[i as int] == line@);
        assert(all.take(i + 1).drop_last() =~= all.take(i as int));
        assert(all.take(i + 1).last() == line@);
        let ghost before = views(out@);
        let line_s = string_of(line);
        let mut done = false;
        match parse_proto_quoted_field_line(line_s.as_str()) {
            Some((prefix, inner)) => {
                let decoded = decode_proto_escaped_string(inner.as_str());
                let t = string_of(&trim_chars(&chars_of(decoded.as_str())));
                assert(t@ == trim(unescaped(inner@)));
                if looks_like_json_text(t.as_str()) {
                    match pretty_json(t.as_str()) {
                        Some(pretty) => {
                            out.push(chars_of(prefix.as_str()));
                            let pls = lines_chars(&chars_of(pretty.as_str()));
                            let mut k: usize = 0;
                            while k < pls.len()
                                invariant
                                    k <= pls@.len(),
                                    views(out@) == before.push(prefix@) + indented(views(pls@).take(k as int)),
                                decreases pls.len() - k,
                            {
                                let mut l = chars_of("  ");
                                append_chars(&mut l, &pls[k]);
                                let ghost b2 = views(out@);
                                out.push(l);
                                assert(views(out@) =~= b2.push(l@));
                                assert(views(pls@).take(k + 1) =~= views(pls@).take(k as int).push(pls@[k as int]@));
                                assert(indented(views(pls@).take(k + 1)) =~= indented(views(pls@).take(k as int)).push("  "@ + pls@[k as int]@));
                                k = k + 1;
                            }
                            assert(views(pls@).take(pls@.len() as int) =~= views(pls@));
                            assert(views(out@) =~= before + beautified_line(line@));
                            done = true;
                        },
                        None => {
                            assert(beautified_line(line@) == seq![line@]);
                        },
                    }
                } else {
                    assert(beautified_line(line@) == seq![line@]);
                }
            },
            None => {
                assert(beautified_line(line@) == seq![line@]);
            },
        }
        if !done {
            let copy = copy_range(line, 0, line.len());
            assert(copy@ =~= line@);
            out.push(copy);
            assert(views(out@) =~= before.push(line@));
            assert(views(out@) =~= before + beautified_line(line@));
        }
        i = i + 1;
    }
    assert(all.take(all.len() as int) =~= all);
    string_of(&join_chars(&out, &chars_of("\n")))
}

/// `~/` expanded with the home directory, when it is known.
pub open spec fn expanded_path(value: Seq<char>, home: Option<Seq<char>>) -> Seq<char> {
    if starts_with(value, "~/"@) && home is Some {
        joined_path(home.unwrap(), value.skip(2))
    } else {
        value
    }
}

/// `Path::join` on Unix: an absolute `rest` replaces the base; otherwise a
/// `/` separates them unless the base is empty or ends with one.
pub open spec fn joined_path(base: Seq<char>, rest: Seq<char>) -> Seq<char> {
    if rest.len() > 0 && rest[0] == '/' {
        rest
    } else if base.len() == 0 {
        rest
    } else if base.last() == '/' {
        base + rest
    } else {
        base + "/"@ + rest
    }
}

/// Expands a leading `~/` with the home directory (`$HOME`, read by the caller).
pub fn expand_tilde(value: &str, home: Option<&str>) -> (r: String)
    ensures
        r@ == expanded_path(value@, match home {
            Some(h) => Some(h@),
            None => None,
        }),
{
    let v = chars_of(value);
    proof {
        reveal_strlit("~/");
        reveal_strlit("/");
    }
    if starts_with_str(&v, "~/") {
        match home {
            Some(h) => {
                let rest = copy_range(&v, 2, v.len());
                let base = chars_of(h);
                if rest.len() > 0 && rest[0] == '/' {
                    return string_of(&rest);
                }
                if base.len() == 0 {
                    return string_of(&rest);
                }
                let mut out = copy_range(&base, 0, base.len());
                if base[base.len() - 1] != '/' {
                    out.push('/');
                }
                append_chars(&mut out, &rest);
                return string_of(&out);
            },
            None => {},
        }
    }
    string_of(&v)
}

} // verus!
