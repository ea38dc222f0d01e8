//! What the proxy hides or shortens before it records traffic.

use vstd::prelude::*;
use crate::text::{
    ascii_lower, ascii_lower_chars, chars_eq, chars_of, contains_chars, contains_sub, str_views,
    string_of, trim, trim_chars, append_str,
};

verus! {

/// The value recorded in place of a hidden header or query value.
pub const REDACTED_VALUE: &'static str = "[redacted]";

/// The marker appended to a shortened capture.
pub const TRUNCATION_MARKER: &'static str = "...(truncated)";

/// A header is hidden when its lowercased name is one of the listed names.
pub open spec fn sensitive_header(name: Seq<char>, names: Seq<Seq<char>>) -> bool {
    names.contains(ascii_lower(name))
}

/// A query key is hidden when its lowercased form equals or contains one of
/// the listed keys.
pub open spec fn sensitive_query_key(key: Seq<char>, keys: Seq<Seq<char>>) -> bool {
    exists|i: int|
        0 <= i < keys.len() && (ascii_lower(key) == keys[i] || contains_sub(
            ascii_lower(key),
            #[trigger] keys[i],
        ))
}

/// Whether `v` occurs among the first entries of `out`.
fn seq_contains_chars(out: &Vec<Vec<char>>, v: &Vec<char>) -> (r: bool)
    ensures
        r == crate::text::views(out@).contains(v@),
{
    let mut i: usize = 0;
    while i < out.len()
        invariant
            i <= out.len(),
            forall|j: int| 0 <= j < i ==> out@[j]@ != v@,
        decreases out.len() - i,
    {
        if chars_eq(&out[i], v) {
            assert(crate::text::views(out@)[i as int] == v@);
            return true;
        }
        i = i + 1;
    }
    proof {
        if crate::text::views(out@).contains(v@) {
            let j = choose|j: int|
                0 <= j < crate::text::views(out@).len() && crate::text::views(out@)[j] == v@;
            assert(out@[j]@ == v@);
        }
    }
    false
}

/// Whether `name` is one of the hidden header names (`names` lowercased).
pub fn is_sensitive_header_name(name: &str, redacted_header_names: &[String]) -> (r: bool)
    ensures
        r == sensitive_header(name@, str_views(redacted_header_names@)),
{
    let lower = ascii_lower_chars(&chars_of(name));
    let mut i: usize = 0;
    while i < redacted_header_names.len()
        invariant
            i <= redacted_header_names@.len(),
            lower@ == ascii_lower(name@),
            forall|j: int| 0 <= j < i ==> redacted_header_names@[j]@ != lower@,
        decreases redacted_header_names.len() - i,
    {
        let entry = chars_of(redacted_header_names[i].as_str());
        if chars_eq(&lower, &entry) {
            assert(str_views(redacted_header_names@)[i as int] == lower@);
            return true;
        }
        i = i + 1;
    }
    proof {
        let v = str_views(redacted_header_names@);
        if v.contains(lower@) {
            let j = choose|j: int| 0 <= j < v.len() && v[j] == lower@;
            assert(redacted_header_names@[j]@ == lower@);
        }
    }
    false
}

/// Whether the query key `key` is hidden.
pub fn is_sensitive_query_key(key: &str, redacted_query_keys: &[String]) -> (r: bool)
    ensures
        r == sensitive_query_key(key@, str_views(redacted_query_keys@)),
{
    let lower = ascii_lower_chars(&chars_of(key));
    let ghost keys = str_views(redacted_query_keys@);
    let mut i: usize = 0;
    while i < redacted_query_keys.len()
        invariant
            i <= redacted_query_keys@.len(),
            keys == str_views(redacted_query_keys@),
            lower@ == ascii_lower(key@),
            forall|j: int|
                0 <= j < i ==> !(lower@ == keys[j] || contains_sub(lower@, #[trigger] keys[j])),
        decreases redacted_query_keys.len() - i,
    {
        let entry = chars_of(redacted_query_keys[i].as_str());
        assert(keys[i as int] == entry@);
        if chars_eq(&lower, &entry) || contains_chars(&lower, &entry) {
            return true;
        }
        i = i + 1;
    }
    false
}

/// A configured redaction entry in the form it is compared in.
pub open spec fn normalized_entry(v: Seq<char>) -> Seq<char> {
    ascii_lower(trim(v))
}

/// `x` is the normalized form of one of `values`.
pub open spec fn normalized_from(x: Seq<char>, values: Seq<Seq<char>>) -> bool {
    exists|k: int| 0 <= k < values.len() && x == normalized_entry(#[trigger] values[k])
}

/// `sanitize_redaction_list`: entries trimmed and lowercased, empty ones
/// dropped, and each kept once, at its first occurrence.
pub open spec fn sanitized_list(values: Seq<Seq<char>>) -> Seq<Seq<char>>
    decreases values.len(),
{
    if values.len() == 0 {
        seq![]
    } else {
        let prev = sanitized_list(values.drop_last());
        let n = normalized_entry(values.last());
        if n.len() == 0 || prev.contains(n) {
            prev
        } else {
            prev.push(n)
        }
    }
}

/// Normalizes a redaction list: trimmed, lowercased, without empty entries or
/// repeats, in the order of first occurrence.
pub fn sanitize_redaction_list(values: &[String]) -> (r: Vec<String>)
    ensures
        str_views(r@) == sanitized_list(str_views(values@)),
{
    let mut kept: Vec<Vec<char>> = Vec::new();
    let mut out: Vec<String> = Vec::new();
    let mut i: usize = 0;
    while i < values.len()
        invariant
            i <= values@.len(),
            crate::text::views(kept@) == sanitized_list(str_views(values@).take(i as int)),
            str_views(out@) == crate::text::views(kept@),
        decreases values.len() - i,
    {
        let ghost before = crate::text::views(kept@);
        let ghost beforeo = str_views(out@);
        assert(str_views(values@).take(i + 1).drop_last() == str_views(values@).take(i as int));
        let normalized = ascii_lower_chars(&trim_chars(&chars_of(values[i].as_str())));
        if normalized.len() > 0 && !seq_contains_chars(&kept, &normalized) {
            let s = string_of(&normalized);
            kept.push(normalized);
            out.push(s);
            assert(crate::text::views(kept@) =~= before.push(s@));
            assert(str_views(out@) =~= beforeo.push(s@));
        }
        i = i + 1;
    }
    assert(str_views(values@).take(values@.len() as int) == str_views(values@));
    out
}

/// `truncate_for_capture`: at most `max` characters are kept; a cut input
/// gets the marker appended, and `max == 0` records nothing.
pub open spec fn truncated_capture(input: Seq<char>, max: nat) -> Seq<char> {
    if max == 0 {
        seq![]
    } else if input.len() <= max {
        input
    } else {
        input.take(max as int) + TRUNCATION_MARKER@
    }
}

/// Shortens a captured text to `max_chars` characters.
pub fn truncate_for_capture(input: &str, max_chars: usize) -> (r: String)
    ensures
        r@ == truncated_capture(input@, max_chars as nat),
{
    if max_chars == 0 {
        return String::new();
    }
    let v = chars_of(input);
    if v.len() <= max_chars {
        return string_of(&v);
    }
    let mut out = crate::text::copy_range(&v, 0, max_chars);
    append_str(&mut out, TRUNCATION_MARKER);
    string_of(&out)
}

/// A capture never grows beyond its limit plus the marker.
pub proof fn law_truncated_capture_bounded(input: Seq<char>, max: nat)
    ensures
        truncated_capture(input, max).len() <= max + TRUNCATION_MARKER@.len(),
        input.len() <= max && max > 0 ==> truncated_capture(input, max) == input,
{
}

/// The sanitized redaction list holds no empty entry and no entry twice, and
/// every entry is already in normalized form.
pub proof fn law_sanitized_list_normalized(values: Seq<Seq<char>>)
    ensures
        forall|i: int|
            0 <= i < sanitized_list(values).len() ==> #[trigger] sanitized_list(values)[i].len()
                > 0,
        forall|i: int, j: int|
            0 <= i < j < sanitized_list(values).len() ==> #[trigger] sanitized_list(values)[i]
                != #[trigger] sanitized_list(values)[j],
        forall|i: int|
            0 <= i < sanitized_list(values).len() ==> normalized_from(
                #[trigger] sanitized_list(values)[i],
                values,
            ),
    decreases values.len(),
{
    if values.len() > 0 {
        law_sanitized_list_normalized(values.drop_last());
        let prev = sanitized_list(values.drop_last());
        let n = normalized_entry(values.last());
        assert forall|i: int| 0 <= i < prev.len() implies normalized_from(
            #[trigger] prev[i],
            values,
        ) by {
            let k = choose|k: int|
                0 <= k < values.drop_last().len() && prev[i] == normalized_entry(
                    values.drop_last()[k],
                );
            assert(values[k] == values.drop_last()[k]);
        }
        if !(n.len() == 0 || prev.contains(n)) {
            let r = prev.push(n);
            assert(r[prev.len() as int] == normalized_entry(values[values.len() - 1]));
            assert(normalized_from(r[prev.len() as int], values));
            assert forall|i: int, j: int| 0 <= i < j < r.len() implies r[i] != r[j] by {
                if j == prev.len() {
                    assert(r[i] == prev[i]);
                }
            }
        }
    }
}

} // verus!
