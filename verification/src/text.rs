//! Character-level text handling shared by the parsers of this crate.
//!
//! Strings are reasoned about through their character sequences (`s@`); the
//! executable helpers here work on `Vec<char>` and are proved against the
//! specification functions below.

use vstd::prelude::*;

verus! {

// ---------------------------------------------------------------------------
// Conversions between `String`/`&str` and character vectors
// ---------------------------------------------------------------------------

/// Appends one character to a `String` (`String::push`).
#[verifier::external_body]
pub fn push_char(s: &mut String, c: char)
    ensures
        final(s)@ == old(s)@.push(c),
{
    s.push(c)
}

/// The characters of a string slice, in order.
pub fn chars_of(s: &str) -> (out: Vec<char>)
    ensures
        out@ == s@,
{
    let mut out: Vec<char> = Vec::new();
    for c in it: s.chars()
        invariant
            out@ == it.seq().take(it.index() as int),
            it.seq() == s@,
    {
        out.push(c);
    }
    out
}

/// Builds a `String` from characters.
pub fn string_of(v: &Vec<char>) -> (out: String)
    ensures
        out@ == v@,
{
    let mut out = String::new();
    let mut i: usize = 0;
    while i < v.len()
        invariant
            i <= v.len(),
            out@ == v@.take(i as int),
        decreases v.len() - i,
    {
        push_char(&mut out, v[i]);
        assert(v@.take(i + 1) == v@.take(i as int).push(v@[i as int]));
        i = i + 1;
    }
    assert(v@.take(v.len() as int) == v@);
    out
}

/// Copies `v[from..to]`.
pub fn copy_range(v: &Vec<char>, from: usize, to: usize) -> (out: Vec<char>)
    requires
        from <= to <= v.len(),
    ensures
        out@ == v@.subrange(from as int, to as int),
{
    let mut out: Vec<char> = Vec::new();
    let mut i = from;
    while i < to
        invariant
            from <= i <= to <= v.len(),
            out@ == v@.subrange(from as int, i as int),
        decreases to - i,
    {
        out.push(v[i]);
        assert(v@.subrange(from as int, i + 1) == v@.subrange(from as int, i as int).push(
            v@[i as int],
        ));
        i = i + 1;
    }
    out
}

/// Appends all characters of `w` to `v`.
pub fn append_chars(v: &mut Vec<char>, w: &Vec<char>)
    ensures
        final(v)@ == old(v)@ + w@,
{
    let mut i: usize = 0;
    while i < w.len()
        invariant
            i <= w.len(),
            v@ == old(v)@ + w@.take(i as int),
        decreases w.len() - i,
    {
        v.push(w[i]);
        assert(w@.take(i + 1) == w@.take(i as int).push(w@[i as int]));
        i = i + 1;
    }
    assert(w@.take(w.len() as int) == w@);
}

/// Appends the characters of a string slice to `v`.
pub fn append_str(v: &mut Vec<char>, s: &str)
    ensures
        final(v)@ == old(v)@ + s@,
{
    let w = chars_of(s);
    append_chars(v, &w);
}

/// Whether two character vectors are equal.
pub fn chars_eq(a: &Vec<char>, b: &Vec<char>) -> (r: bool)
    ensures
        r == (a@ == b@),
{
    if a.len() != b.len() {
        return false;
    }
    let mut i: usize = 0;
    while i < a.len()
        invariant
            a.len() == b.len(),
            i <= a.len(),
            forall|j: int| 0 <= j < i ==> a@[j] == b@[j],
        decreases a.len() - i,
    {
        if a[i] != b[i] {
            return false;
        }
        i = i + 1;
    }
    assert(a@ =~= b@);
    true
}

/// Whether a string slice equals a character vector.
pub fn str_eq_chars(s: &str, b: &Vec<char>) -> (r: bool)
    ensures
        r == (s@ == b@),
{
    let a = chars_of(s);
    chars_eq(&a, b)
}

/// Whether two strings are equal.
pub fn str_eq(a: &str, b: &str) -> (r: bool)
    ensures
        r == (a@ == b@),
{
    let av = chars_of(a);
    let bv = chars_of(b);
    chars_eq(&av, &bv)
}

// ---------------------------------------------------------------------------
// Character classes
// ---------------------------------------------------------------------------

/// Unicode `White_Space` characters, the set that `char::is_whitespace` accepts.
pub open spec fn is_ws(c: char) -> bool {
    let u = c as u32;
    (9 <= u && u <= 13) || u == 32 || u == 0x85 || u == 0xA0 || u == 0x1680 || (0x2000 <= u
        && u <= 0x200A) || u == 0x2028 || u == 0x2029 || u == 0x202F || u == 0x205F || u
        == 0x3000
}

pub fn is_ws_char(c: char) -> (b: bool)
    ensures
        b == is_ws(c),
{
    let u = c as u32;
    (9 <= u && u <= 13) || u == 32 || u == 0x85 || u == 0xA0 || u == 0x1680 || (0x2000 <= u
        && u <= 0x200A) || u == 0x2028 || u == 0x2029 || u == 0x202F || u == 0x205F || u
        == 0x3000
}

/// ASCII whitespace as `char::is_ascii_whitespace` defines it.
pub open spec fn is_ascii_ws(c: char) -> bool {
    c == ' ' || c == '\t' || c == '\n' || c == '\x0C' || c == '\r'
}

pub open spec fn is_digit(c: char) -> bool {
    '0' <= c && c <= '9'
}

pub open spec fn is_ascii_upper(c: char) -> bool {
    'A' <= c && c <= 'Z'
}

pub open spec fn is_ascii_lower(c: char) -> bool {
    'a' <= c && c <= 'z'
}

pub open spec fn is_ascii_alnum(c: char) -> bool {
    is_digit(c) || is_ascii_upper(c) || is_ascii_lower(c)
}

pub fn is_ascii_alnum_char(c: char) -> (b: bool)
    ensures
        b == is_ascii_alnum(c),
{
    ('0' <= c && c <= '9') || ('A' <= c && c <= 'Z') || ('a' <= c && c <= 'z')
}

pub open spec fn digit_value(c: char) -> nat {
    ((c as u32) - ('0' as u32)) as nat
}

pub open spec fn lower_ascii(c: char) -> char {
    if is_ascii_upper(c) {
        ((c as u32) + 32) as char
    } else {
        c
    }
}

pub fn lower_ascii_char(c: char) -> (out: char)
    ensures
        out == lower_ascii(c),
{
    if 'A' <= c && c <= 'Z' {
        let u = (c as u8) + 32;
        u as char
    } else {
        c
    }
}

pub open spec fn upper_ascii(c: char) -> char {
    if is_ascii_lower(c) {
        ((c as u32) - 32) as char
    } else {
        c
    }
}

pub fn upper_ascii_char(c: char) -> (out: char)
    ensures
        out == upper_ascii(c),
{
    if 'a' <= c && c <= 'z' {
        let u = (c as u8) - 32;
        u as char
    } else {
        c
    }
}

/// `str::to_ascii_uppercase` on characters.
pub open spec fn ascii_upper(s: Seq<char>) -> Seq<char> {
    Seq::new(s.len(), |i: int| upper_ascii(s[i]))
}

/// `str::to_ascii_lowercase` on characters.
pub open spec fn ascii_lower(s: Seq<char>) -> Seq<char> {
    Seq::new(s.len(), |i: int| lower_ascii(s[i]))
}

pub fn ascii_lower_chars(v: &Vec<char>) -> (out: Vec<char>)
    ensures
        out@ == ascii_lower(v@),
{
    let mut out: Vec<char> = Vec::new();
    let mut i: usize = 0;
    while i < v.len()
        invariant
            i <= v.len(),
            out@.len() == i,
            forall|j: int| 0 <= j < i ==> out@[j] == lower_ascii(v@[j]),
        decreases v.len() - i,
    {
        out.push(lower_ascii_char(v[i]));
        i = i + 1;
    }
    assert(out@ =~= ascii_lower(v@));
    out
}

/// `str::eq_ignore_ascii_case`.
pub open spec fn eq_ignore_case(a: Seq<char>, b: Seq<char>) -> bool {
    ascii_lower(a) == ascii_lower(b)
}

pub fn eq_ignore_case_chars(a: &Vec<char>, b: &Vec<char>) -> (r: bool)
    ensures
        r == eq_ignore_case(a@, b@),
{
    let la = ascii_lower_chars(a);
    let lb = ascii_lower_chars(b);
    let r = chars_eq(&la, &lb);
    r
}

// ---------------------------------------------------------------------------
// Trimming
// ---------------------------------------------------------------------------

/// `str::trim_start`.
pub open spec fn trim_start(s: Seq<char>) -> Seq<char>
    decreases s.len(),
{
    if s.len() > 0 && is_ws(s[0]) {
        trim_start(s.drop_first())
    } else {
        s
    }
}

/// `str::trim_end`.
pub open spec fn trim_end(s: Seq<char>) -> Seq<char>
    decreases s.len(),
{
    if s.len() > 0 && is_ws(s.last()) {
        trim_end(s.drop_last())
    } else {
        s
    }
}

/// `str::trim`.
pub open spec fn trim(s: Seq<char>) -> Seq<char> {
    trim_end(trim_start(s))
}

proof fn lemma_trim_start_head(s: Seq<char>)
    ensures
        trim_start(s).len() <= s.len(),
        trim_start(s).len() == 0 || !is_ws(trim_start(s)[0]),
        trim_start(s) == s.skip(s.len() - trim_start(s).len()),
    decreases s.len(),
{
    if s.len() > 0 && is_ws(s[0]) {
        lemma_trim_start_head(s.drop_first());
        assert(s.drop_first().skip(s.drop_first().len() - trim_start(s).len()) =~= s.skip(s.len() - trim_start(s).len()));
    } else {
        assert(s.skip(0) =~= s);
    }
}

proof fn lemma_trim_end_tail(s: Seq<char>)
    ensures
        trim_end(s).len() <= s.len(),
        trim_end(s).len() == 0 || !is_ws(trim_end(s).last()),
        trim_end(s) == s.take(trim_end(s).len() as int),
    decreases s.len(),
{
    if s.len() > 0 && is_ws(s.last()) {
        lemma_trim_end_tail(s.drop_last());
        assert(s.drop_last().take(trim_end(s).len() as int) =~= s.take(trim_end(s).len() as int));
    } else {
        assert(s.take(s.len() as int) =~= s);
    }
}

/// Trimming twice is trimming once.
pub proof fn lemma_trim_idempotent(s: Seq<char>)
    ensures
        trim(trim(s)) == trim(s),
{
    let a = trim_start(s);
    let b = trim_end(a);
    lemma_trim_start_head(s);
    lemma_trim_end_tail(a);
    lemma_trim_end_tail(b);
    if b.len() > 0 {
        assert(b[0] == a[0]);
    }
    assert(trim_start(b) == b);
    assert(trim_end(b) == b);
}

/// `str::trim_end_matches(c)` for a single character.
pub open spec fn trim_end_char(s: Seq<char>, c: char) -> Seq<char>
    decreases s.len(),
{
    if s.len() > 0 && s.last() == c {
        trim_end_char(s.drop_last(), c)
    } else {
        s
    }
}

/// `str::trim_start_matches(c)` for a single character.
pub open spec fn trim_start_char(s: Seq<char>, c: char) -> Seq<char>
    decreases s.len(),
{
    if s.len() > 0 && s[0] == c {
        trim_start_char(s.drop_first(), c)
    } else {
        s
    }
}

/// `str::trim_matches(c)` for a single character.
pub open spec fn trim_char(s: Seq<char>, c: char) -> Seq<char> {
    trim_end_char(trim_start_char(s, c), c)
}

/// Trimming a character from the end leaves a prefix.
pub proof fn lemma_trim_end_char_is_prefix(s: Seq<char>, c: char)
    ensures
        trim_end_char(s, c).len() <= s.len(),
        trim_end_char(s, c) == s.take(trim_end_char(s, c).len() as int),
        trim_end_char(s, c).len() < s.len() ==> s[trim_end_char(s, c).len() as int] == c,
    decreases s.len(),
{
    if s.len() > 0 && s.last() == c {
        lemma_trim_end_char_is_prefix(s.drop_last(), c);
        let t = trim_end_char(s.drop_last(), c);
        assert(s.drop_last().take(t.len() as int) =~= s.take(t.len() as int));
        if t.len() < s.drop_last().len() {
            assert(s.drop_last()[t.len() as int] == s[t.len() as int]);
        }
    } else {
        assert(s.take(s.len() as int) =~= s);
    }
}

/// Trimming a character from the start leaves a suffix.
pub proof fn lemma_trim_start_char_is_suffix(s: Seq<char>, c: char)
    ensures
        trim_start_char(s, c).len() <= s.len(),
        trim_start_char(s, c) == s.skip(s.len() - trim_start_char(s, c).len()),
    decreases s.len(),
{
    if s.len() > 0 && s[0] == c {
        lemma_trim_start_char_is_suffix(s.drop_first(), c);
        let t = trim_start_char(s.drop_first(), c);
        assert(s.drop_first().skip(s.drop_first().len() - t.len()) =~= s.skip(s.len() - t.len()));
    } else {
        assert(s.skip(0) =~= s);
    }
}

/// Every character of `trim_char(s, c)` comes from `s`.
pub proof fn lemma_trim_char_is_subrange(s: Seq<char>, c: char)
    ensures
        forall|i: int| 0 <= i < trim_char(s, c).len() ==> exists|j: int| 0 <= j < s.len() && #[trigger] trim_char(s, c)[i] == s[j],
{
    lemma_trim_start_char_is_suffix(s, c);
    let a = trim_start_char(s, c);
    lemma_trim_end_char_is_prefix(a, c);
    let b = trim_char(s, c);
    let off = s.len() - a.len();
    assert forall|i: int| 0 <= i < b.len() implies exists|j: int| 0 <= j < s.len() && #[trigger] b[i] == s[j] by {
        assert(b[i] == a[i]);
        assert(a[i] == s[off + i]);
    }
}

pub fn trim_start_chars(v: &Vec<char>) -> (out: Vec<char>)
    ensures
        out@ == trim_start(v@),
{
    let mut i: usize = 0;
    assert(v@.subrange(0, v.len() as int) == v@);
    while i < v.len() && is_ws_char(v[i])
        invariant
            i <= v.len(),
            trim_start(v@) == trim_start(v@.subrange(i as int, v.len() as int)),
        decreases v.len() - i,
    {
        assert(v@.subrange(i as int, v.len() as int).drop_first() == v@.subrange(
            i + 1,
            v.len() as int,
        ));
        i = i + 1;
    }
    copy_range(v, i, v.len())
}

pub fn trim_end_chars(v: &Vec<char>) -> (out: Vec<char>)
    ensures
        out@ == trim_end(v@),
{
    let mut j: usize = v.len();
    assert(v@.subrange(0, v.len() as int) == v@);
    while j > 0 && is_ws_char(v[j - 1])
        invariant
            j <= v.len(),
            trim_end(v@) == trim_end(v@.subrange(0, j as int)),
        decreases j,
    {
        assert(v@.subrange(0, j as int).drop_last() == v@.subrange(0, j - 1));
        j = j - 1;
    }
    copy_range(v, 0, j)
}

pub fn trim_chars(v: &Vec<char>) -> (out: Vec<char>)
    ensures
        out@ == trim(v@),
{
    let t = trim_start_chars(v);
    trim_end_chars(&t)
}

pub fn trim_str(s: &str) -> (out: Vec<char>)
    ensures
        out@ == trim(s@),
{
    let v = chars_of(s);
    trim_chars(&v)
}

pub fn trim_end_char_chars(v: &Vec<char>, c: char) -> (out: Vec<char>)
    ensures
        out@ == trim_end_char(v@, c),
{
    let mut j: usize = v.len();
    assert(v@.subrange(0, v.len() as int) == v@);
    while j > 0 && v[j - 1] == c
        invariant
            j <= v.len(),
            trim_end_char(v@, c) == trim_end_char(v@.subrange(0, j as int), c),
        decreases j,
    {
        assert(v@.subrange(0, j as int).drop_last() == v@.subrange(0, j - 1));
        j = j - 1;
    }
    copy_range(v, 0, j)
}

pub fn trim_start_char_chars(v: &Vec<char>, c: char) -> (out: Vec<char>)
    ensures
        out@ == trim_start_char(v@, c),
{
    let mut i: usize = 0;
    assert(v@.subrange(0, v.len() as int) == v@);
    while i < v.len() && v[i] == c
        invariant
            i <= v.len(),
            trim_start_char(v@, c) == trim_start_char(v@.subrange(i as int, v.len() as int), c),
        decreases v.len() - i,
    {
        assert(v@.subrange(i as int, v.len() as int).drop_first() == v@.subrange(
            i + 1,
            v.len() as int,
        ));
        i = i + 1;
    }
    copy_range(v, i, v.len())
}

pub fn trim_char_chars(v: &Vec<char>, c: char) -> (out: Vec<char>)
    ensures
        out@ == trim_char(v@, c),
{
    let t = trim_start_char_chars(v, c);
    trim_end_char_chars(&t, c)
}

} // verus!

verus! {

// ---------------------------------------------------------------------------
// Searching
// ---------------------------------------------------------------------------

/// Index of the first character that satisfies `p`.
pub open spec fn find_pred(s: Seq<char>, p: spec_fn(char) -> bool) -> Option<nat>
    decreases s.len(),
{
    if s.len() == 0 {
        None
    } else if p(s[0]) {
        Some(0)
    } else {
        match find_pred(s.drop_first(), p) {
            Some(i) => Some(i + 1),
            None => None,
        }
    }
}

pub proof fn lemma_find_pred(s: Seq<char>, p: spec_fn(char) -> bool)
    ensures
        match find_pred(s, p) {
            Some(i) => i < s.len() && p(s[i as int]) && forall|j: int| 0 <= j < i ==> !p(s[j]),
            None => forall|j: int| 0 <= j < s.len() ==> !p(s[j]),
        },
    decreases s.len(),
{
    if s.len() > 0 && !p(s[0]) {
        lemma_find_pred(s.drop_first(), p);
        match find_pred(s.drop_first(), p) {
            Some(i) => {
                assert forall|j: int| 0 <= j < i + 1 implies !p(s[j]) by {
                    if j > 0 {
                        assert(s[j] == s.drop_first()[j - 1]);
                    }
                }
            },
            None => {
                assert forall|j: int| 0 <= j < s.len() implies !p(s[j]) by {
                    if j > 0 {
                        assert(s[j] == s.drop_first()[j - 1]);
                    }
                }
            },
        }
    }
}

/// The first match is determined by its characterisation.
pub proof fn lemma_find_pred_some(s: Seq<char>, p: spec_fn(char) -> bool, i: nat)
    requires
        i < s.len(),
        p(s[i as int]),
        forall|j: int| 0 <= j < i ==> !p(s[j]),
    ensures
        find_pred(s, p) == Some(i),
{
    lemma_find_pred(s, p);
    match find_pred(s, p) {
        Some(k) => {
            if k < i {
                assert(!p(s[k as int]));
            } else if k > i {
                assert(!p(s[i as int]));
            }
        },
        None => {
            assert(!p(s[i as int]));
        },
    }
}

pub proof fn lemma_find_pred_none(s: Seq<char>, p: spec_fn(char) -> bool)
    requires
        forall|j: int| 0 <= j < s.len() ==> !p(s[j]),
    ensures
        find_pred(s, p) == None::<nat>,
{
    lemma_find_pred(s, p);
    match find_pred(s, p) {
        Some(k) => {
            assert(p(s[k as int]));
        },
        None => {},
    }
}

/// The predicate "is one of `seps`".
pub open spec fn in_set(seps: Seq<char>) -> spec_fn(char) -> bool {
    |c: char| seps.contains(c)
}

/// The predicate "equals `c`".
pub open spec fn is_char(c: char) -> spec_fn(char) -> bool {
    |x: char| x == c
}

pub fn contains_char(seps: &Vec<char>, c: char) -> (r: bool)
    ensures
        r == seps@.contains(c),
{
    let mut i: usize = 0;
    while i < seps.len()
        invariant
            i <= seps.len(),
            forall|j: int| 0 <= j < i ==> seps@[j] != c,
        decreases seps.len() - i,
    {
        if seps[i] == c {
            assert(seps@[i as int] == c);
            return true;
        }
        i = i + 1;
    }
    true == false && true
}

/// First index at or after `from` whose character is in `seps`.
pub fn find_in_from(v: &Vec<char>, from: usize, seps: &Vec<char>) -> (r: Option<usize>)
    requires
        from <= v.len(),
    ensures
        match r {
            Some(i) => from <= i < v.len() && find_pred(v@.skip(from as int), in_set(seps@))
                == Some((i - from) as nat),
            None => find_pred(v@.skip(from as int), in_set(seps@)) == None::<nat>,
        },
{
    let mut i = from;
    while i < v.len()
        invariant
            from <= i <= v.len(),
            forall|j: int| from <= j < i ==> !seps@.contains(v@[j]),
        decreases v.len() - i,
    {
        if contains_char(seps, v[i]) {
            proof {
                let t = v@.skip(from as int);
                assert forall|j: int| 0 <= j < i - from implies !in_set(seps@)(t[j]) by {
                    assert(t[j] == v@[j + from]);
                }
                lemma_find_pred_some(t, in_set(seps@), (i - from) as nat);
            }
            return Some(i);
        }
        i = i + 1;
    }
    proof {
        let t = v@.skip(from as int);
        assert forall|j: int| 0 <= j < t.len() implies !in_set(seps@)(t[j]) by {
            assert(t[j] == v@[j + from]);
        }
        lemma_find_pred_none(t, in_set(seps@));
    }
    None
}

/// First index at or after `from` holding `c`.
pub fn find_char_from(v: &Vec<char>, from: usize, c: char) -> (r: Option<usize>)
    requires
        from <= v.len(),
    ensures
        match r {
            Some(i) => from <= i < v.len() && v@[i as int] == c && find_pred(
                v@.skip(from as int),
                is_char(c),
            ) == Some((i - from) as nat),
            None => find_pred(v@.skip(from as int), is_char(c)) == None::<nat>,
        },
{
    let mut i = from;
    while i < v.len()
        invariant
            from <= i <= v.len(),
            forall|j: int| from <= j < i ==> v@[j] != c,
        decreases v.len() - i,
    {
        if v[i] == c {
            proof {
                let t = v@.skip(from as int);
                assert forall|j: int| 0 <= j < i - from implies !is_char(c)(t[j]) by {
                    assert(t[j] == v@[j + from]);
                }
                lemma_find_pred_some(t, is_char(c), (i - from) as nat);
            }
            return Some(i);
        }
        i = i + 1;
    }
    proof {
        let t = v@.skip(from as int);
        assert forall|j: int| 0 <= j < t.len() implies !is_char(c)(t[j]) by {
            assert(t[j] == v@[j + from]);
        }
        lemma_find_pred_none(t, is_char(c));
    }
    None
}

/// `str::split_once(c)`.
pub open spec fn split_once(s: Seq<char>, c: char) -> Option<(Seq<char>, Seq<char>)> {
    match find_pred(s, is_char(c)) {
        Some(i) => Some((s.take(i as int), s.skip(i as int + 1))),
        None => None,
    }
}

pub fn split_once_chars(v: &Vec<char>, c: char) -> (r: Option<(Vec<char>, Vec<char>)>)
    ensures
        match (r, split_once(v@, c)) {
            (Some((a, b)), Some((x, y))) => a@ == x && b@ == y,
            (None, None) => true,
            _ => false,
        },
{
    assert(v@.skip(0) == v@);
    match find_char_from(v, 0, c) {
        Some(i) => {
            let a = copy_range(v, 0, i);
            let b = copy_range(v, i + 1, v.len());
            assert(a@ == v@.take(i as int));
            Some((a, b))
        },
        None => None,
    }
}

// ---------------------------------------------------------------------------
// Splitting
// ---------------------------------------------------------------------------

/// The character sequences of a list of strings.
pub open spec fn str_views(v: Seq<String>) -> Seq<Seq<char>> {
    v.map_values(|p: String| p@)
}

/// The character sequences of a list of character vectors.
pub open spec fn views(v: Seq<Vec<char>>) -> Seq<Seq<char>> {
    v.map_values(|p: Vec<char>| p@)
}

/// `str::split(p)`: the pieces between characters satisfying `p`.
pub open spec fn split_pred(s: Seq<char>, p: spec_fn(char) -> bool) -> Seq<Seq<char>>
    decreases s.len(),
{
    match find_pred(s, p) {
        Some(i) => {
            proof {
                lemma_find_pred(s, p);
            }
            seq![s.take(i as int)] + split_pred(s.skip(i as int + 1), p)
        },
        None => seq![s],
    }
}

/// Splits at every character in `seps`.
pub fn split_any_chars(v: &Vec<char>, seps: &Vec<char>) -> (out: Vec<Vec<char>>)
    ensures
        views(out@) == split_pred(v@, in_set(seps@)),
{
    let mut out: Vec<Vec<char>> = Vec::new();
    let mut start: usize = 0;
    assert(v@.skip(0) == v@);
    loop
        invariant
            start <= v.len(),
            views(out@) + split_pred(v@.skip(start as int), in_set(seps@)) == split_pred(
                v@,
                in_set(seps@),
            ),
        decreases v.len() - start,
    {
        let ghost rest = v@.skip(start as int);
        match find_in_from(v, start, seps) {
            Some(i) => {
                let piece = copy_range(v, start, i);
                let ghost before = views(out@);
                proof {
                    assert(piece@ == rest.take((i - start) as int));
                    assert(rest.skip((i - start) + 1) == v@.skip(i + 1));
                    assert(views(out@).push(piece@) + split_pred(v@.skip(i + 1), in_set(seps@))
                        =~= views(out@) + split_pred(rest, in_set(seps@)));
                }
                out.push(piece);
                assert(views(out@) =~= before.push(piece@));
                start = i + 1;
            },
            None => {
                let piece = copy_range(v, start, v.len());
                proof {
                    assert(piece@ == rest);
                }
                let ghost before = views(out@);
                out.push(piece);
                assert(views(out@) =~= before.push(piece@));
                return out;
            },
        }
    }
}

/// Splits at every occurrence of `c`.
pub fn split_char_chars(v: &Vec<char>, c: char) -> (out: Vec<Vec<char>>)
    ensures
        views(out@) == split_pred(v@, in_set(seq![c])),
        views(out@) == split_pred(v@, is_char(c)),
        out@.len() >= 1,
{
    let seps = vec![c];
    assert(seps@ == seq![c]);
    proof {
        lemma_in_set_single(c);
    }
    let out = split_any_chars(v, &seps);
    proof {
        lemma_find_pred(v@, is_char(c));
        assert(views(out@).len() == out@.len());
    }
    out
}

/// A one-character set is the predicate "equals that character".
pub proof fn lemma_in_set_single(c: char)
    ensures
        in_set(seq![c]) == is_char(c),
{
    assert forall|x: char| #[trigger] in_set(seq![c])(x) == is_char(c)(x) by {
        if x == c {
            assert(seq![c][0] == x);
        }
    }
    assert(in_set(seq![c]) =~= is_char(c));
}

} // verus!

verus! {

// ---------------------------------------------------------------------------
// Lines and words
// ---------------------------------------------------------------------------

/// Drops one trailing carriage return.
pub open spec fn strip_cr(l: Seq<char>) -> Seq<char> {
    if l.len() > 0 && l.last() == '\r' {
        l.drop_last()
    } else {
        l
    }
}

/// `str::lines`: split at `\n`, a final line ending is optional, and a `\r`
/// directly before a `\n` belongs to the line ending.
pub open spec fn lines(s: Seq<char>) -> Seq<Seq<char>>
    decreases s.len(),
{
    if s.len() == 0 {
        seq![]
    } else {
        match find_pred(s, is_char('\n')) {
            Some(i) => {
                proof {
                    lemma_find_pred(s, is_char('\n'));
                }
                seq![strip_cr(s.take(i as int))] + lines(s.skip(i as int + 1))
            },
            None => seq![s],
        }
    }
}

pub fn strip_cr_chars(v: Vec<char>) -> (out: Vec<char>)
    ensures
        out@ == strip_cr(v@),
{
    let mut v = v;
    if v.len() > 0 && v[v.len() - 1] == '\r' {
        v.pop();
    }
    v
}

pub fn lines_chars(v: &Vec<char>) -> (out: Vec<Vec<char>>)
    ensures
        views(out@) == lines(v@),
{
    let mut out: Vec<Vec<char>> = Vec::new();
    let mut start: usize = 0;
    assert(v@.skip(0) == v@);
    while start < v.len()
        invariant
            start <= v.len(),
            views(out@) + lines(v@.skip(start as int)) == lines(v@),
        decreases v.len() - start,
    {
        let ghost rest = v@.skip(start as int);
        let ghost before = views(out@);
        match find_char_from(v, start, '\n') {
            Some(i) => {
                let piece = strip_cr_chars(copy_range(v, start, i));
                proof {
                    assert(v@.subrange(start as int, i as int) == rest.take((i - start) as int));
                    assert(rest.skip((i - start) + 1) == v@.skip(i + 1));
                }
                out.push(piece);
                assert(views(out@) =~= before.push(piece@));
                assert(views(out@) + lines(v@.skip(i + 1)) =~= before + lines(rest));
                start = i + 1;
            },
            None => {
                let piece = copy_range(v, start, v.len());
                out.push(piece);
                assert(views(out@) =~= before.push(piece@));
                assert(lines(v@.skip(v.len() as int)) =~= seq![]);
                assert(views(out@) + lines(v@.skip(v.len() as int)) =~= before + lines(rest));
                start = v.len();
            },
        }
    }
    assert(lines(v@.skip(start as int)) =~= seq![]);
    assert(views(out@) =~= views(out@) + lines(v@.skip(start as int)));
    out
}

/// The predicate "is whitespace".
pub open spec fn ws_pred() -> spec_fn(char) -> bool {
    |c: char| is_ws(c)
}

/// `str::split_whitespace`.
pub open spec fn words(s: Seq<char>) -> Seq<Seq<char>>
    decreases s.len(),
{
    if s.len() == 0 {
        seq![]
    } else if is_ws(s[0]) {
        words(s.drop_first())
    } else {
        match find_pred(s, ws_pred()) {
            Some(i) => {
                proof {
                    lemma_find_pred(s, ws_pred());
                }
                seq![s.take(i as int)] + words(s.skip(i as int + 1))
            },
            None => seq![s],
        }
    }
}

/// First index at or after `from` holding whitespace.
pub fn find_ws_from(v: &Vec<char>, from: usize) -> (r: Option<usize>)
    requires
        from <= v.len(),
    ensures
        match r {
            Some(i) => from <= i < v.len() && find_pred(v@.skip(from as int), ws_pred()) == Some(
                (i - from) as nat,
            ),
            None => find_pred(v@.skip(from as int), ws_pred()) == None::<nat>,
        },
{
    let mut i = from;
    while i < v.len()
        invariant
            from <= i <= v.len(),
            forall|j: int| from <= j < i ==> !is_ws(v@[j]),
        decreases v.len() - i,
    {
        if is_ws_char(v[i]) {
            proof {
                let t = v@.skip(from as int);
                assert forall|j: int| 0 <= j < i - from implies !ws_pred()(t[j]) by {
                    assert(t[j] == v@[j + from]);
                }
                lemma_find_pred_some(t, ws_pred(), (i - from) as nat);
            }
            return Some(i);
        }
        i = i + 1;
    }
    proof {
        let t = v@.skip(from as int);
        assert forall|j: int| 0 <= j < t.len() implies !ws_pred()(t[j]) by {
            assert(t[j] == v@[j + from]);
        }
        lemma_find_pred_none(t, ws_pred());
    }
    None
}

pub fn words_chars(v: &Vec<char>) -> (out: Vec<Vec<char>>)
    ensures
        views(out@) == words(v@),
{
    let mut out: Vec<Vec<char>> = Vec::new();
    let mut pos: usize = 0;
    assert(v@.skip(0) == v@);
    while pos < v.len()
        invariant
            pos <= v.len(),
            views(out@) + words(v@.skip(pos as int)) == words(v@),
        decreases v.len() - pos,
    {
        let ghost rest = v@.skip(pos as int);
        let ghost before = views(out@);
        if is_ws_char(v[pos]) {
            assert(rest.drop_first() == v@.skip(pos + 1));
            pos = pos + 1;
        } else {
            match find_ws_from(v, pos) {
                Some(i) => {
                    let piece = copy_range(v, pos, i);
                    proof {
                        assert(piece@ == rest.take((i - pos) as int));
                        assert(rest.skip((i - pos) + 1) == v@.skip(i + 1));
                    }
                    out.push(piece);
                    assert(views(out@) =~= before.push(piece@));
                    assert(views(out@) + words(v@.skip(i + 1)) =~= before + words(rest));
                    pos = i + 1;
                },
                None => {
                    let piece = copy_range(v, pos, v.len());
                    out.push(piece);
                    assert(views(out@) =~= before.push(piece@));
                    assert(words(v@.skip(v.len() as int)) =~= seq![]);
                    assert(views(out@) + words(v@.skip(v.len() as int)) =~= before + words(rest));
                    pos = v.len();
                },
            }
        }
    }
    assert(words(v@.skip(pos as int)) =~= seq![]);
    assert(views(out@) =~= views(out@) + words(v@.skip(pos as int)));
    out
}

// ---------------------------------------------------------------------------
// Prefixes, suffixes and substrings
// ---------------------------------------------------------------------------

pub open spec fn starts_with(s: Seq<char>, p: Seq<char>) -> bool {
    p.len() <= s.len() && s.take(p.len() as int) == p
}

pub open spec fn ends_with(s: Seq<char>, p: Seq<char>) -> bool {
    p.len() <= s.len() && s.skip(s.len() - p.len()) == p
}

pub fn starts_with_chars(v: &Vec<char>, p: &Vec<char>) -> (r: bool)
    ensures
        r == starts_with(v@, p@),
{
    if p.len() > v.len() {
        return false;
    }
    let mut i: usize = 0;
    while i < p.len()
        invariant
            p.len() <= v.len(),
            i <= p.len(),
            forall|j: int| 0 <= j < i ==> v@[j] == p@[j],
        decreases p.len() - i,
    {
        if v[i] != p[i] {
            assert(v@.take(p.len() as int)[i as int] != p@[i as int]);
            return false;
        }
        i = i + 1;
    }
    assert(v@.take(p.len() as int) =~= p@);
    true
}

pub fn ends_with_chars(v: &Vec<char>, p: &Vec<char>) -> (r: bool)
    ensures
        r == ends_with(v@, p@),
{
    if p.len() > v.len() {
        return false;
    }
    let off = v.len() - p.len();
    let mut i: usize = 0;
    while i < p.len()
        invariant
            p.len() <= v.len(),
            off == v.len() - p.len(),
            i <= p.len(),
            forall|j: int| 0 <= j < i ==> v@[off + j] == p@[j],
        decreases p.len() - i,
    {
        if v[off + i] != p[i] {
            assert(v@.skip(off as int)[i as int] != p@[i as int]);
            return false;
        }
        i = i + 1;
    }
    assert(v@.skip(off as int) =~= p@);
    true
}

pub fn starts_with_str(v: &Vec<char>, p: &str) -> (r: bool)
    ensures
        r == starts_with(v@, p@),
{
    let pv = chars_of(p);
    starts_with_chars(v, &pv)
}

pub fn ends_with_str(v: &Vec<char>, p: &str) -> (r: bool)
    ensures
        r == ends_with(v@, p@),
{
    let pv = chars_of(p);
    ends_with_chars(v, &pv)
}

/// Whether `t` occurs in `s` at position `i`.
pub open spec fn occurs_at(s: Seq<char>, t: Seq<char>, i: int) -> bool {
    0 <= i && i + t.len() <= s.len() && s.subrange(i, i + t.len()) == t
}

/// `str::contains` for a string pattern.
pub open spec fn contains_sub(s: Seq<char>, t: Seq<char>) -> bool {
    exists|i: int| occurs_at(s, t, i)
}

/// Whether `t` occurs in `v` at position `i`.
pub fn occurs_at_chars(v: &Vec<char>, t: &Vec<char>, i: usize) -> (r: bool)
    ensures
        r == occurs_at(v@, t@, i as int),
{
    if i > v.len() || t.len() > v.len() - i {
        return false;
    }
    let mut k: usize = 0;
    while k < t.len()
        invariant
            i + t.len() <= v.len(),
            k <= t.len(),
            forall|j: int| 0 <= j < k ==> v@[i + j] == t@[j],
        decreases t.len() - k,
    {
        if v[i + k] != t[k] {
            assert(v@.subrange(i as int, i + t.len())[k as int] != t@[k as int]);
            return false;
        }
        k = k + 1;
    }
    assert(v@.subrange(i as int, i + t.len()) =~= t@);
    true
}

pub fn contains_chars(v: &Vec<char>, t: &Vec<char>) -> (r: bool)
    ensures
        r == contains_sub(v@, t@),
{
    if t.len() > v.len() {
        return false;
    }
    let mut i: usize = 0;
    while i <= v.len() - t.len()
        invariant
            t.len() <= v.len(),
            i <= v.len() - t.len() + 1,
            forall|j: int| 0 <= j < i ==> !occurs_at(v@, t@, j),
        decreases v.len() - t.len() + 1 - i,
    {
        if occurs_at_chars(v, t, i) {
            return true;
        }
        if i == v.len() - t.len() {
            return false;
        }
        i = i + 1;
    }
    false
}

pub fn contains_str(v: &Vec<char>, t: &str) -> (r: bool)
    ensures
        r == contains_sub(v@, t@),
{
    let tv = chars_of(t);
    contains_chars(v, &tv)
}

// ---------------------------------------------------------------------------
// Replacing and joining
// ---------------------------------------------------------------------------

/// `str::replace(c, r)` for a single character pattern.
pub open spec fn replace_char(s: Seq<char>, c: char, r: Seq<char>) -> Seq<char>
    decreases s.len(),
{
    if s.len() == 0 {
        seq![]
    } else {
        replace_char(s.drop_last(), c, r) + (if s.last() == c {
            r
        } else {
            seq![s.last()]
        })
    }
}

pub fn replace_char_chars(v: &Vec<char>, c: char, r: &Vec<char>) -> (out: Vec<char>)
    ensures
        out@ == replace_char(v@, c, r@),
{
    let mut out: Vec<char> = Vec::new();
    let mut i: usize = 0;
    while i < v.len()
        invariant
            i <= v.len(),
            out@ == replace_char(v@.take(i as int), c, r@),
        decreases v.len() - i,
    {
        assert(v@.take(i + 1).drop_last() == v@.take(i as int));
        if v[i] == c {
            append_chars(&mut out, r);
        } else {
            out.push(v[i]);
        }
        i = i + 1;
    }
    assert(v@.take(v.len() as int) == v@);
    out
}

/// `slice.join(sep)`.
pub open spec fn join(pieces: Seq<Seq<char>>, sep: Seq<char>) -> Seq<char>
    decreases pieces.len(),
{
    if pieces.len() == 0 {
        seq![]
    } else if pieces.len() == 1 {
        pieces[0]
    } else {
        join(pieces.drop_last(), sep) + sep + pieces.last()
    }
}

pub fn join_chars(pieces: &Vec<Vec<char>>, sep: &Vec<char>) -> (out: Vec<char>)
    ensures
        out@ == join(views(pieces@), sep@),
{
    let mut out: Vec<char> = Vec::new();
    let mut i: usize = 0;
    while i < pieces.len()
        invariant
            i <= pieces.len(),
            out@ == join(views(pieces@).take(i as int), sep@),
        decreases pieces.len() - i,
    {
        assert(views(pieces@).take(i + 1).drop_last() =~= views(pieces@).take(i as int));
        if i > 0 {
            append_chars(&mut out, sep);
        }
        append_chars(&mut out, &pieces[i]);
        assert(out@ =~= join(views(pieces@).take(i + 1), sep@));
        i = i + 1;
    }
    assert(views(pieces@).take(pieces.len() as int) =~= views(pieces@));
    out
}

} // verus!

verus! {

// ---------------------------------------------------------------------------
// Decimal numbers
// ---------------------------------------------------------------------------

/// The value of a string of decimal digits.
pub open spec fn dec_value(s: Seq<char>) -> nat
    decreases s.len(),
{
    if s.len() == 0 {
        0
    } else {
        dec_value(s.drop_last()) * 10 + digit_value(s.last())
    }
}

pub open spec fn all_digits(s: Seq<char>) -> bool {
    forall|i: int| 0 <= i < s.len() ==> is_digit(#[trigger] s[i])
}

/// The digits of an unsigned number, after an optional leading `+`.
pub open spec fn unsigned_digits(s: Seq<char>) -> Seq<char> {
    if s.len() > 0 && s[0] == '+' {
        s.drop_first()
    } else {
        s
    }
}

/// `str::parse` for an unsigned integer type whose largest value is `max`.
pub open spec fn parse_uint(s: Seq<char>, max: nat) -> Option<nat> {
    let d = unsigned_digits(s);
    if d.len() > 0 && all_digits(d) && dec_value(d) <= max {
        Some(dec_value(d))
    } else {
        None
    }
}

/// `str::parse` for a signed integer type with range `min..=max`.
pub open spec fn parse_sint(s: Seq<char>, min: int, max: int) -> Option<int> {
    if s.len() > 0 && s[0] == '-' {
        let d = s.drop_first();
        if d.len() > 0 && all_digits(d) && -(dec_value(d) as int) >= min {
            Some(-(dec_value(d) as int))
        } else {
            None
        }
    } else {
        let d = unsigned_digits(s);
        if d.len() > 0 && all_digits(d) && dec_value(d) <= max {
            Some(dec_value(d) as int)
        } else {
            None
        }
    }
}

/// Parses `v[from..]` as decimal digits whose value is at most `max`.
fn parse_digits_from(v: &Vec<char>, from: usize, max: u64) -> (r: Option<u64>)
    requires
        from <= v.len(),
    ensures
        ({
            let d = v@.skip(from as int);
            match r {
                Some(x) => d.len() > 0 && all_digits(d) && dec_value(d) <= max && x == dec_value(d),
                None => !(d.len() > 0 && all_digits(d) && dec_value(d) <= max),
            }
        }),
{
    if from == v.len() {
        return None;
    }
    let mut acc: u64 = 0;
    let mut over = false;
    let mut i = from;
    assert(v@.subrange(from as int, from as int) =~= seq![]);
    while i < v.len()
        invariant
            from <= i <= v.len(),
            forall|j: int| from <= j < i ==> is_digit(v@[j]),
            !over ==> acc == dec_value(v@.subrange(from as int, i as int)) && acc <= max,
            over ==> dec_value(v@.subrange(from as int, i as int)) > max,
        decreases v.len() - i,
    {
        let c = v[i];
        if !('0' <= c && c <= '9') {
            proof {
                let d = v@.skip(from as int);
                assert(d[i - from] == c);
            }
            return None;
        }
        let ghost prev = v@.subrange(from as int, i as int);
        assert(v@.subrange(from as int, i + 1).drop_last() == prev);
        assert(v@.subrange(from as int, i + 1).last() == c);
        let dv = (c as u32 - '0' as u32) as u64;
        assert(dv == digit_value(c));
        if !over {
            let next: u128 = (acc as u128) * 10 + (dv as u128);
            if next > max as u128 {
                over = true;
            } else {
                acc = next as u64;
            }
        }
        i = i + 1;
    }
    proof {
        let d = v@.skip(from as int);
        assert(d =~= v@.subrange(from as int, v.len() as int));
        assert forall|k: int| 0 <= k < d.len() implies is_digit(#[trigger] d[k]) by {
            assert(d[k] == v@[k + from]);
        }
    }
    if over {
        None
    } else {
        Some(acc)
    }
}

/// `str::parse` for an unsigned integer type whose largest value is `max`.
pub fn parse_uint_chars(v: &Vec<char>, max: u64) -> (r: Option<u64>)
    ensures
        match r {
            Some(x) => parse_uint(v@, max as nat) == Some(x as nat),
            None => parse_uint(v@, max as nat) is None,
        },
{
    let from: usize = if v.len() > 0 && v[0] == '+' {
        1
    } else {
        0
    };
    assert(v@.skip(from as int) == unsigned_digits(v@));
    parse_digits_from(v, from, max)
}

pub fn parse_u16_chars(v: &Vec<char>) -> (r: Option<u16>)
    ensures
        match r {
            Some(x) => parse_uint(v@, u16::MAX as nat) == Some(x as nat),
            None => parse_uint(v@, u16::MAX as nat) is None,
        },
{
    match parse_uint_chars(v, u16::MAX as u64) {
        Some(x) => Some(x as u16),
        None => None,
    }
}

pub fn parse_u64_chars(v: &Vec<char>) -> (r: Option<u64>)
    ensures
        match r {
            Some(x) => parse_uint(v@, u64::MAX as nat) == Some(x as nat),
            None => parse_uint(v@, u64::MAX as nat) is None,
        },
{
    parse_uint_chars(v, u64::MAX)
}

pub fn parse_usize_chars(v: &Vec<char>) -> (r: Option<usize>)
    ensures
        match r {
            Some(x) => parse_uint(v@, usize::MAX as nat) == Some(x as nat),
            None => parse_uint(v@, usize::MAX as nat) is None,
        },
{
    match parse_uint_chars(v, usize::MAX as u64) {
        Some(x) => Some(x as usize),
        None => None,
    }
}

/// `str::parse::<i64>`.
pub fn parse_i64_chars(v: &Vec<char>) -> (r: Option<i64>)
    ensures
        match r {
            Some(x) => parse_sint(v@, i64::MIN as int, i64::MAX as int) == Some(x as int),
            None => parse_sint(v@, i64::MIN as int, i64::MAX as int) is None,
        },
{
    if v.len() > 0 && v[0] == '-' {
        assert(v@.skip(1) == v@.drop_first());
        match parse_digits_from(v, 1, 9223372036854775808u64) {
            Some(x) => {
                if x == 9223372036854775808u64 {
                    Some(i64::MIN)
                } else {
                    Some(-(x as i64))
                }
            },
            None => None,
        }
    } else {
        match parse_uint_chars(v, i64::MAX as u64) {
            Some(x) => Some(x as i64),
            None => None,
        }
    }
}

/// `str::parse::<i32>`.
pub fn parse_i32_chars(v: &Vec<char>) -> (r: Option<i32>)
    ensures
        match r {
            Some(x) => parse_sint(v@, i32::MIN as int, i32::MAX as int) == Some(x as int),
            None => parse_sint(v@, i32::MIN as int, i32::MAX as int) is None,
        },
{
    if v.len() > 0 && v[0] == '-' {
        assert(v@.skip(1) == v@.drop_first());
        match parse_digits_from(v, 1, 2147483648u64) {
            Some(x) => Some((-(x as i64)) as i32),
            None => None,
        }
    } else {
        match parse_uint_chars(v, i32::MAX as u64) {
            Some(x) => Some(x as i32),
            None => None,
        }
    }
}

/// The character of a decimal digit.
pub open spec fn digit_char(d: nat) -> char {
    (('0' as u32) + d) as char
}

/// Decimal representation of a natural number, as `Display` writes it.
pub open spec fn dec_chars(n: nat) -> Seq<char>
    decreases n,
{
    if n < 10 {
        seq![digit_char(n)]
    } else {
        dec_chars(n / 10).push(digit_char(n % 10))
    }
}

/// Decimal representation of an integer, with a leading `-` when negative.
pub open spec fn int_chars(n: int) -> Seq<char> {
    if n < 0 {
        seq!['-'] + dec_chars((-n) as nat)
    } else {
        dec_chars(n as nat)
    }
}

fn digit_char_exec(d: u64) -> (c: char)
    requires
        d < 10,
    ensures
        c == digit_char(d as nat),
{
    let b = (d as u8) + 48;
    b as char
}

/// `u64` to decimal text.
pub fn u64_chars(n: u64) -> (out: Vec<char>)
    ensures
        out@ == dec_chars(n as nat),
    decreases n,
{
    if n < 10 {
        let mut v: Vec<char> = Vec::new();
        v.push(digit_char_exec(n));
        assert(v@ =~= seq![digit_char(n as nat)]);
        v
    } else {
        let mut v = u64_chars(n / 10);
        v.push(digit_char_exec(n % 10));
        v
    }
}

/// `i64` to decimal text.
pub fn i64_chars(n: i64) -> (out: Vec<char>)
    ensures
        out@ == int_chars(n as int),
{
    if n < 0 {
        let mag: u64 = if n == i64::MIN {
            9223372036854775808u64
        } else {
            (-n) as u64
        };
        let mut v: Vec<char> = Vec::new();
        v.push('-');
        let d = u64_chars(mag);
        append_chars(&mut v, &d);
        v
    } else {
        u64_chars(n as u64)
    }
}

/// `n` copies of `c`.
pub open spec fn repeat_char(c: char, n: nat) -> Seq<char> {
    Seq::new(n, |i: int| c)
}

pub proof fn lemma_dec_chars_value(n: nat)
    ensures
        dec_chars(n).len() >= 1,
        all_digits(dec_chars(n)),
        dec_value(dec_chars(n)) == n,
    decreases n,
{
    let c = digit_char(n % 10);
    assert(is_digit(c) && digit_value(c) == n % 10);
    if n >= 10 {
        lemma_dec_chars_value(n / 10);
        let s = dec_chars(n / 10);
        assert(s.push(c).drop_last() =~= s);
        assert(s.push(c).last() == c);
        assert(dec_value(s.push(c)) == dec_value(s) * 10 + digit_value(c));
        assert((n / 10) * 10 + n % 10 == n);
        assert forall|i: int| 0 <= i < s.push(c).len() implies is_digit(#[trigger] s.push(c)[i]) by {
            if i < s.len() {
                assert(s.push(c)[i] == s[i]);
            }
        }
    } else {
        assert(seq![c].drop_last() =~= Seq::<char>::empty());
        assert(seq![c].last() == c);
        assert(dec_value(seq![c]) == dec_value(Seq::<char>::empty()) * 10 + digit_value(c));
    }
}

proof fn lemma_leading_zeros(k: nat, s: Seq<char>)
    ensures
        dec_value(repeat_char('0', k) + s) == dec_value(s),
    decreases s.len(), k,
{
    if s.len() == 0 {
        assert(repeat_char('0', k) + s =~= repeat_char('0', k));
        if k > 0 {
            assert(repeat_char('0', k).drop_last() =~= repeat_char('0', (k - 1) as nat));
            lemma_leading_zeros((k - 1) as nat, s);
            assert(repeat_char('0', (k - 1) as nat) + s =~= repeat_char('0', (k - 1) as nat));
        }
    } else {
        let t = repeat_char('0', k) + s;
        assert(t.drop_last() =~= repeat_char('0', k) + s.drop_last());
        lemma_leading_zeros(k, s.drop_last());
    }
}

/// Zero-padded text of a number that fits is read back as that number, and
/// holds no `-`.
pub proof fn lemma_zero_padded_parses(n: int, width: nat, min: int, max: int)
    requires
        0 <= n <= max,
    ensures
        parse_sint(zero_padded(n, width), min, max) == Some(n),
        forall|i: int| 0 <= i < zero_padded(n, width).len() ==> is_digit(#[trigger] zero_padded(n, width)[i]),
{
    let digits = dec_chars(n as nat);
    lemma_dec_chars_value(n as nat);
    let fill: nat = if digits.len() < width {
        (width - digits.len()) as nat
    } else {
        0
    };
    let z = zero_padded(n, width);
    assert(z =~= repeat_char('0', fill) + digits);
    lemma_leading_zeros(fill, digits);
    assert forall|i: int| 0 <= i < z.len() implies is_digit(#[trigger] z[i]) by {
        if i >= fill {
            assert(z[i] == digits[i - fill]);
        }
    }
    assert(z[0] != '-' && z[0] != '+');
    assert(unsigned_digits(z) == z);
}

/// Zero-padded decimal text of at least `width` characters, as `{:0width$}`
/// writes an integer: the sign comes first, the zeros after it.
pub open spec fn zero_padded(n: int, width: nat) -> Seq<char> {
    let digits = dec_chars(if n < 0 {
        (-n) as nat
    } else {
        n as nat
    });
    let sign: Seq<char> = if n < 0 {
        seq!['-']
    } else {
        seq![]
    };
    let fill: nat = if sign.len() + digits.len() < width {
        (width - sign.len() - digits.len()) as nat
    } else {
        0
    };
    sign + repeat_char('0', fill) + digits
}

pub fn zero_padded_chars(n: i64, width: usize) -> (out: Vec<char>)
    ensures
        out@ == zero_padded(n as int, width as nat),
{
    let mag: u64 = if n == i64::MIN {
        9223372036854775808u64
    } else if n < 0 {
        (-n) as u64
    } else {
        n as u64
    };
    let digits = u64_chars(mag);
    let mut out: Vec<char> = Vec::new();
    let sign_len: usize = if n < 0 {
        1
    } else {
        0
    };
    if n < 0 {
        out.push('-');
    }
    let fill: usize = if digits.len() < width && sign_len < width - digits.len() {
        width - digits.len() - sign_len
    } else {
        0
    };
    let mut k: usize = 0;
    while k < fill
        invariant
            k <= fill,
            out@ == (if n < 0 {
                seq!['-']
            } else {
                seq![]
            }) + repeat_char('0', k as nat),
        decreases fill - k,
    {
        out.push('0');
        proof {
            let sign: Seq<char> = if n < 0 {
                seq!['-']
            } else {
                seq![]
            };
            assert(sign + repeat_char('0', (k + 1) as nat) =~= (sign + repeat_char(
                '0',
                k as nat,
            )).push('0'));
        }
        k = k + 1;
    }
    append_chars(&mut out, &digits);
    out
}

// ---------------------------------------------------------------------------
// Facts whose statement needs Unicode tables
// ---------------------------------------------------------------------------

/// What `str::to_lowercase` returns for a string.
pub uninterp spec fn unicode_lower(s: Seq<char>) -> Seq<char>;

/// What `str::to_uppercase` returns for a string.
pub uninterp spec fn unicode_upper(s: Seq<char>) -> Seq<char>;

/// What `String::from_utf8_lossy` returns for a byte sequence.
pub uninterp spec fn utf8_lossy(bytes: Seq<u8>) -> Seq<char>;

/// Every character is ASCII.
pub open spec fn all_ascii(s: Seq<char>) -> bool {
    forall|i: int| 0 <= i < s.len() ==> s[i] < '\u{80}'
}

/// `str::to_lowercase` (full Unicode case mapping). The contract names the
/// result as a function of the input characters, and states what the
/// documentation gives for ASCII input: each letter maps to its lowercase form.
#[verifier::external_body]
pub fn to_lowercase_chars(v: &Vec<char>) -> (out: Vec<char>)
    ensures
        out@ == unicode_lower(v@),
        all_ascii(v@) ==> out@ == ascii_lower(v@),
{
    let s: String = v.iter().collect();
    s.to_lowercase().chars().collect()
}

/// `str::to_uppercase` (full Unicode case mapping). The contract names the
/// result as a function of the input characters, and states what the
/// documentation gives for ASCII input.
#[verifier::external_body]
pub fn to_uppercase_chars(v: &Vec<char>) -> (out: Vec<char>)
    ensures
        out@ == unicode_upper(v@),
        all_ascii(v@) ==> out@ == ascii_upper(v@),
{
    let s: String = v.iter().collect();
    s.to_uppercase().chars().collect()
}

/// Every byte is ASCII.
pub open spec fn ascii_bytes(b: Seq<u8>) -> bool {
    forall|i: int| 0 <= i < b.len() ==> b[i] < 128
}

/// The characters that ASCII bytes stand for.
pub open spec fn ascii_chars_of(b: Seq<u8>) -> Seq<char> {
    b.map_values(|x: u8| x as char)
}

/// `String::from_utf8_lossy`: invalid UTF-8 sequences become U+FFFD. The
/// contract names the result as a function of the bytes, and states what the
/// documentation gives for valid input that is ASCII: it is decoded unchanged.
#[verifier::external_body]
pub fn utf8_lossy_chars(bytes: &[u8]) -> (out: Vec<char>)
    ensures
        out@ == utf8_lossy(bytes@),
        ascii_bytes(bytes@) ==> out@ == ascii_chars_of(bytes@),
{
    String::from_utf8_lossy(bytes).chars().collect()
}

} // verus!
