//! Release tags: normalisation, semantic-version ordering and the update check.

use vstd::prelude::*;
use crate::text::{
    dec_chars, dec_value, lemma_dec_chars_value, lemma_find_pred_none, lemma_find_pred_some,
    trim_end, trim_start,
    append_chars, append_str, chars_of, copy_range, in_set, is_digit, lemma_find_pred,
    parse_u64_chars, parse_uint, split_any_chars, split_char_chars, split_pred, str_eq,
    string_of, trim, trim_chars, views,
};

verus! {

pub const GITHUB_OWNER: &'static str = "cn0ss";

pub const GITHUB_REPO: &'static str = "loopbox";

/// The latest release known on GitHub.
#[derive(Debug, Clone, PartialEq, Eq)]
pub struct LatestReleaseInfo {
    pub tag: String,
    pub url: String,
}

/// A tag in the form `v<rest>`: surrounding whitespace is dropped, a leading
/// `V` becomes `v`, a bare leading digit gets a `v` in front; anything else is
/// kept as it is.
pub open spec fn normalized_tag(raw: Seq<char>) -> Seq<char> {
    let t = trim(raw);
    if t.len() == 0 {
        seq![]
    } else if t[0] == 'v' || t[0] == 'V' {
        seq!['v'] + trim(t.drop_first())
    } else if is_digit(t[0]) {
        seq!['v'] + t
    } else {
        t
    }
}

/// The numeric `(major, minor, patch)` of a tag; a missing minor or patch is 0
/// and a pre-release or build suffix after `-` or `+` is ignored.
pub open spec fn semver_of(tag: Seq<char>) -> Option<(nat, nat, nat)> {
    let n = normalized_tag(tag);
    let version = if n.len() > 0 && n[0] == 'v' {
        n.drop_first()
    } else {
        n
    };
    let core = split_pred(version, in_set(seq!['-', '+']))[0];
    let parts = split_pred(core, in_set(seq!['.']));
    let major = parse_uint(trim(parts[0]), u64::MAX as nat);
    let minor = if parts.len() > 1 {
        parse_uint(trim(parts[1]), u64::MAX as nat)
    } else {
        Some(0)
    };
    let patch = if parts.len() > 2 {
        parse_uint(trim(parts[2]), u64::MAX as nat)
    } else {
        Some(0)
    };
    match (major, minor, patch) {
        (Some(a), Some(b), Some(c)) => Some((a, b, c)),
        _ => None,
    }
}

/// Lexicographic order on version triples.
pub open spec fn version_gt(a: (nat, nat, nat), b: (nat, nat, nat)) -> bool {
    a.0 > b.0 || (a.0 == b.0 && (a.1 > b.1 || (a.1 == b.1 && a.2 > b.2)))
}

/// Whether `candidate` names a strictly newer release than `current`.
pub open spec fn newer_release(current: Seq<char>, candidate: Seq<char>) -> bool {
    let c = normalized_tag(current);
    let n = normalized_tag(candidate);
    if c == n {
        false
    } else {
        match (semver_of(c), semver_of(n)) {
            (Some(a), Some(b)) => version_gt(b, a),
            _ => false,
        }
    }
}

pub proof fn lemma_split_nonempty(s: Seq<char>, p: spec_fn(char) -> bool)
    ensures
        split_pred(s, p).len() >= 1,
{
    lemma_find_pred(s, p);
}

fn normalized_tag_chars(raw: &Vec<char>) -> (out: Vec<char>)
    ensures
        out@ == normalized_tag(raw@),
{
    let t = trim_chars(raw);
    if t.len() == 0 {
        return Vec::new();
    }
    if t[0] == 'v' || t[0] == 'V' {
        let rest = copy_range(&t, 1, t.len());
        assert(rest@ == t@.drop_first());
        let tr = trim_chars(&rest);
        let mut out: Vec<char> = Vec::new();
        out.push('v');
        append_chars(&mut out, &tr);
        assert(out@ =~= seq!['v'] + tr@);
        return out;
    }
    if '0' <= t[0] && t[0] <= '9' {
        let mut out: Vec<char> = Vec::new();
        out.push('v');
        append_chars(&mut out, &t);
        assert(out@ =~= seq!['v'] + t@);
        return out;
    }
    t
}

/// Normalises a release tag (see [`normalized_tag`]).
pub fn normalize_release_tag(raw: &str) -> (out: String)
    ensures
        out@ == normalized_tag(raw@),
{
    let v = chars_of(raw);
    let n = normalized_tag_chars(&v);
    string_of(&n)
}

/// The version label of this build, from the version it was built with.
pub fn app_version_label(build_version: &str) -> (out: String)
    ensures
        out@ == normalized_tag(build_version@),
{
    normalize_release_tag(build_version)
}

/// The page that always shows the latest release.
pub fn latest_release_page_url() -> (out: String)
    ensures
        out@ == "https://github.com/"@ + GITHUB_OWNER@ + "/"@ + GITHUB_REPO@ + "/releases/latest"@,
{
    let mut v: Vec<char> = Vec::new();
    append_str(&mut v, "https://github.com/");
    append_str(&mut v, GITHUB_OWNER);
    append_str(&mut v, "/");
    append_str(&mut v, GITHUB_REPO);
    append_str(&mut v, "/releases/latest");
    string_of(&v)
}

fn parse_version_part(parts: &Vec<Vec<char>>, k: usize) -> (r: Option<u64>)
    requires
        k < parts.len(),
    ensures
        match r {
            Some(x) => parse_uint(trim(parts@[k as int]@), u64::MAX as nat) == Some(x as nat),
            None => parse_uint(trim(parts@[k as int]@), u64::MAX as nat) is None,
        },
{
    let t = trim_chars(&parts[k]);
    parse_u64_chars(&t)
}

/// The numeric version of a tag (see [`semver_of`]).
pub fn parse_semver_like(tag: &str) -> (r: Option<(u64, u64, u64)>)
    ensures
        match r {
            Some((a, b, c)) => semver_of(tag@) == Some((a as nat, b as nat, c as nat)),
            None => semver_of(tag@) is None,
        },
{
    let raw = chars_of(tag);
    let n = normalized_tag_chars(&raw);
    let version = if n.len() > 0 && n[0] == 'v' {
        let r = copy_range(&n, 1, n.len());
        assert(r@ == n@.drop_first());
        r
    } else {
        n
    };
    let mut seps: Vec<char> = Vec::new();
    seps.push('-');
    seps.push('+');
    assert(seps@ =~= seq!['-', '+']);
    let pieces = split_any_chars(&version, &seps);
    proof {
        lemma_split_nonempty(version@, in_set(seps@));
    }
    let core = &pieces[0];
    assert(core@ == views(pieces@)[0]);
    let parts = split_char_chars(core, '.');
    proof {
        lemma_split_nonempty(core@, in_set(seq!['.']));
        assert(parts@.len() == views(parts@).len());
    }
    let major = match parse_version_part(&parts, 0) {
        Some(x) => x,
        None => {
            return None;
        },
    };
    let minor = if parts.len() > 1 {
        match parse_version_part(&parts, 1) {
            Some(x) => x,
            None => {
                return None;
            },
        }
    } else {
        0
    };
    let patch = if parts.len() > 2 {
        match parse_version_part(&parts, 2) {
            Some(x) => x,
            None => {
                return None;
            },
        }
    } else {
        0
    };
    Some((major, minor, patch))
}

/// Whether `candidate` is a newer release than `current` (see [`newer_release`]).
pub fn is_newer_release_tag(current: &str, candidate: &str) -> (r: bool)
    ensures
        r == newer_release(current@, candidate@),
{
    let c = normalize_release_tag(current);
    let n = normalize_release_tag(candidate);
    if str_eq(c.as_str(), n.as_str()) {
        return false;
    }
    match (parse_semver_like(c.as_str()), parse_semver_like(n.as_str())) {
        (Some(a), Some(b)) => b.0 > a.0 || (b.0 == a.0 && (b.1 > a.1 || (b.1 == a.1 && b.2 > a.2))),
        _ => false,
    }
}

/// An update is never offered for the release that is running, and of two
/// tags at most one is newer than the other.
pub proof fn law_newer_release_is_strict(a: Seq<char>, b: Seq<char>)
    ensures
        !newer_release(a, a),
        !(newer_release(a, b) && newer_release(b, a)),
{
}

/// When both tags read as versions and differ once normalised, the
/// candidate is newer exactly when its `(major, minor, patch)` is greater in
/// lexicographic order: a higher major wins whatever the minor and patch,
/// then a higher minor, then a higher patch.
pub proof fn law_newer_release_by_version(
    current: Seq<char>,
    candidate: Seq<char>,
    cur: (nat, nat, nat),
    cand: (nat, nat, nat),
)
    requires
        normalized_tag(current) != normalized_tag(candidate),
        semver_of(normalized_tag(current)) == Some(cur),
        semver_of(normalized_tag(candidate)) == Some(cand),
    ensures
        newer_release(current, candidate) == (cand.0 > cur.0 || (cand.0 == cur.0 && cand.1 > cur.1)
            || (cand.0 == cur.0 && cand.1 == cur.1 && cand.2 > cur.2)),
        cand.0 > cur.0 ==> newer_release(current, candidate),
        cand.0 < cur.0 ==> !newer_release(current, candidate),
{
}

/// The tag `v<major>.<minor>.<patch>` written in decimal.
pub open spec fn version_tag(a: nat, b: nat, c: nat) -> Seq<char> {
    seq!['v'] + dec_chars(a) + seq!['.'] + dec_chars(b) + seq!['.'] + dec_chars(c)
}

proof fn lemma_digits_facts(n: nat)
    ensures
        dec_chars(n).len() >= 1,
        forall|i: int| 0 <= i < dec_chars(n).len() ==> is_digit(#[trigger] dec_chars(n)[i]),
        dec_value(dec_chars(n)) == n,
        trim(dec_chars(n)) == dec_chars(n),
        n <= u64::MAX ==> parse_uint(trim(dec_chars(n)), u64::MAX as nat) == Some(n),
{
    lemma_dec_chars_value(n);
    let d = dec_chars(n);
    assert(is_digit(d[0]));
    assert(is_digit(d.last()));
    assert(trim_start(d) == d);
    assert(trim_end(d) == d);
}

proof fn lemma_split_digits_dot(x: Seq<char>, rest: Seq<char>)
    requires
        x.len() >= 1,
        forall|i: int| 0 <= i < x.len() ==> is_digit(#[trigger] x[i]),
    ensures
        split_pred(x + seq!['.'] + rest, in_set(seq!['.'])) == seq![x] + split_pred(
            rest,
            in_set(seq!['.']),
        ),
{
    let s = x + seq!['.'] + rest;
    assert(s[x.len() as int] == '.');
    assert(in_set(seq!['.'])(s[x.len() as int]));
    assert forall|j: int| 0 <= j < x.len() implies !in_set(seq!['.'])(s[j]) by {
        assert(s[j] == x[j]);
        assert(is_digit(x[j]));
        assert(!seq!['.'].contains(x[j])) by {
            if seq!['.'].contains(x[j]) {
                assert(seq!['.'][0] == '.');
            }
        }
    }
    lemma_find_pred_some(s, in_set(seq!['.']), x.len());
    assert(s.take(x.len() as int) =~= x);
    assert(s.skip(x.len() as int + 1) =~= rest);
}

proof fn lemma_split_none(x: Seq<char>, seps: Seq<char>)
    requires
        forall|i: int| 0 <= i < x.len() ==> !seps.contains(#[trigger] x[i]),
    ensures
        split_pred(x, in_set(seps)) == seq![x],
{
    assert forall|j: int| 0 <= j < x.len() implies !in_set(seps)(x[j]) by {}
    lemma_find_pred_none(x, in_set(seps));
}

/// A tag `v<a>.<b>.<c>` reads as the version `(a, b, c)`.
pub proof fn law_version_tag_reads_back(a: nat, b: nat, c: nat)
    requires
        a <= u64::MAX,
        b <= u64::MAX,
        c <= u64::MAX,
    ensures
        normalized_tag(version_tag(a, b, c)) == version_tag(a, b, c),
        semver_of(version_tag(a, b, c)) == Some((a, b, c)),
        semver_of(normalized_tag(version_tag(a, b, c))) == Some((a, b, c)),
{
    lemma_digits_facts(a);
    lemma_digits_facts(b);
    lemma_digits_facts(c);
    let da = dec_chars(a);
    let db = dec_chars(b);
    let dc = dec_chars(c);
    let body = da + seq!['.'] + db + seq!['.'] + dc;
    let t = version_tag(a, b, c);
    assert(t =~= seq!['v'] + body);
    assert forall|i: int| 0 <= i < body.len() implies is_digit(#[trigger] body[i]) || body[i] == '.' by {
        if i < da.len() {
            assert(body[i] == da[i]);
        } else if i == da.len() {
        } else if i < da.len() + 1 + db.len() {
            assert(body[i] == db[i - da.len() - 1]);
        } else if i == da.len() + 1 + db.len() {
        } else {
            assert(body[i] == dc[i - da.len() - 2 - db.len()]);
        }
    }
    assert(is_digit(body[0])) by {
        assert(body[0] == da[0]);
    }
    assert(is_digit(body.last())) by {
        assert(body.last() == dc[dc.len() - 1]);
    }
    assert(trim_start(body) == body);
    assert(trim_end(body) == body);
    assert(trim(body) == body);
    assert(t[0] == 'v');
    assert(t.last() == body.last());
    assert(trim_start(t) == t);
    assert(trim_end(t) == t);
    assert(t.drop_first() =~= body);
    assert(normalized_tag(t) == t);
    assert forall|i: int| 0 <= i < body.len() implies !seq!['-', '+'].contains(#[trigger] body[i]) by {
        if seq!['-', '+'].contains(body[i]) {
            let k = choose|k: int| 0 <= k < 2 && seq!['-', '+'][k] == body[i];
            assert(k == 0 || k == 1);
        }
    }
    lemma_split_none(body, seq!['-', '+']);
    assert forall|i: int| 0 <= i < dc.len() implies !seq!['.'].contains(#[trigger] dc[i]) by {
        if seq!['.'].contains(dc[i]) {
            assert(seq!['.'][0] == '.');
        }
    }
    lemma_split_none(dc, seq!['.']);
    lemma_split_digits_dot(db, dc);
    assert(da + seq!['.'] + (db + seq!['.'] + dc) =~= body);
    lemma_split_digits_dot(da, db + seq!['.'] + dc);
    let parts = split_pred(body, in_set(seq!['.']));
    assert(parts =~= seq![da, db, dc]);
}

/// Every release with a higher major number is newer, whatever the minor
/// and patch numbers: `v<a>.<x>.<y>` is older than `v<b>.0.0` when `a < b`.
pub proof fn law_higher_major_is_newer(a: nat, x: nat, y: nat, b: nat)
    requires
        a < b <= u64::MAX,
        x <= u64::MAX,
        y <= u64::MAX,
    ensures
        newer_release(version_tag(a, x, y), version_tag(b, 0, 0)),
        !newer_release(version_tag(b, 0, 0), version_tag(a, x, y)),
{
    law_version_tag_reads_back(a, x, y);
    law_version_tag_reads_back(b, 0, 0);
    let t1 = version_tag(a, x, y);
    let t2 = version_tag(b, 0, 0);
    if t1 == t2 {
        assert(semver_of(t1) == semver_of(t2));
    }
    law_newer_release_by_version(t1, t2, (a, x, y), (b, 0, 0));
    law_newer_release_by_version(t2, t1, (b, 0, 0), (a, x, y));
}

/// The GitHub API address of the latest release.
pub fn latest_release_api_url() -> (out: String)
    ensures
        out@ == "https://api.github.com/repos/"@ + GITHUB_OWNER@ + "/"@ + GITHUB_REPO@ + "/releases/latest"@,
{
    let mut v: Vec<char> = Vec::new();
    append_str(&mut v, "https://api.github.com/repos/");
    append_str(&mut v, GITHUB_OWNER);
    append_str(&mut v, "/");
    append_str(&mut v, GITHUB_REPO);
    append_str(&mut v, "/releases/latest");
    string_of(&v)
}

/// What the update check makes of GitHub's answer: the normalised tag, and
/// the release page (the latest-release page when the answer has none); an
/// error when the tag is blank.
pub fn latest_release_from_payload(tag_name: &str, html_url: Option<String>) -> (r: Result<LatestReleaseInfo, String>)
    ensures
        trim(normalized_tag(tag_name@)).len() == 0 <==> r is Err,
        r matches Err(e) ==> e@ == "GitHub latest release payload had an empty tag name."@,
        r matches Ok(info) ==> info.tag@ == normalized_tag(tag_name@) && info.url@ == match html_url {
            Some(u) => if trim(u@).len() > 0 {
                u@
            } else {
                "https://github.com/"@ + GITHUB_OWNER@ + "/"@ + GITHUB_REPO@ + "/releases/latest"@
            },
            None => "https://github.com/"@ + GITHUB_OWNER@ + "/"@ + GITHUB_REPO@ + "/releases/latest"@,
        },
{
    let tag = normalize_release_tag(tag_name);
    if trim_chars(&chars_of(tag.as_str())).len() == 0 {
        return Err("GitHub latest release payload had an empty tag name.".to_owned());
    }
    let url = match html_url {
        Some(u) => {
            if trim_chars(&chars_of(u.as_str())).len() > 0 {
                u
            } else {
                latest_release_page_url()
            }
        },
        None => latest_release_page_url(),
    };
    Ok(LatestReleaseInfo { tag, url })
}

} // verus!
