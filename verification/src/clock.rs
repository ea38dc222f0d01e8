//! Calendar arithmetic on the proleptic Gregorian calendar: day numbers since
//! 1970-01-01, the civil dates they stand for, and the `YYYY-MM-DD` day keys
//! that name the traffic files.

use vstd::prelude::*;
use crate::text::{
    append_chars, append_str, chars_of, copy_range, ends_with, ends_with_str, is_char, parse_sint,
    parse_i64_chars, split_char_chars, split_pred, starts_with, starts_with_str, string_of, views,
    zero_padded, zero_padded_chars, all_ascii, is_digit, lemma_find_pred_none, lemma_find_pred_some,
    lemma_zero_padded_parses,
};

verus! {

/// Division that rounds toward zero, as Rust's `/` on signed integers does.
pub open spec fn tdiv(a: int, b: int) -> int {
    if a >= 0 {
        a / b
    } else {
        -((-a) / b)
    }
}

/// The civil date `(year, month, day)` of a day number.
pub open spec fn civil_from_days_spec(days: int) -> (int, int, int) {
    let z = days + 719_468;
    let era = tdiv(
        if z >= 0 {
            z
        } else {
            z - 146_096
        },
        146_097,
    );
    let doe = z - era * 146_097;
    let yoe = (doe - doe / 1_460 + doe / 36_524 - doe / 146_096) / 365;
    let year = yoe + era * 400;
    let doy = doe - (365 * yoe + yoe / 4 - yoe / 100);
    let mp = (5 * doy + 2) / 153;
    let day = doy - (153 * mp + 2) / 5 + 1;
    let month = mp + if mp < 10 {
        3int
    } else {
        -9int
    };
    (
        if month <= 2 {
            year + 1
        } else {
            year
        },
        month,
        day,
    )
}

/// The day number of a civil date.
pub open spec fn days_from_civil_spec(year: int, month: int, day: int) -> int {
    let adjusted_year = year - if month <= 2 {
        1int
    } else {
        0int
    };
    let era = tdiv(
        if adjusted_year >= 0 {
            adjusted_year
        } else {
            adjusted_year - 399
        },
        400,
    );
    let year_of_era = adjusted_year - era * 400;
    let month_prime = month + if month > 2 {
        -3int
    } else {
        9int
    };
    let day_of_year = tdiv(153 * month_prime + 2, 5) + day - 1;
    let day_of_era = year_of_era * 365 + tdiv(year_of_era, 4) - tdiv(year_of_era, 100)
        + day_of_year;
    era * 146_097 + day_of_era - 719_468
}

/// Day numbers whose dates are computed here (about 2.5 * 10^17 years either way).
pub open spec fn day_in_range(days: int) -> bool {
    -0x4000_0000_0000_0000_0000 <= days <= 0x4000_0000_0000_0000_0000
}

fn civil_from_days_wide(days: i128) -> (r: (i128, i128, i128))
    requires
        day_in_range(days as int),
    ensures
        (r.0 as int, r.1 as int, r.2 as int) == civil_from_days_spec(days as int),
{
    let z = days + 719_468;
    let era = (if z >= 0 {
        z
    } else {
        z - 146_096
    }) / 146_097;
    let doe = z - era * 146_097;
    assert(0 <= doe < 146_097);
    let yoe = (doe - doe / 1_460 + doe / 36_524 - doe / 146_096) / 365;
    let year = yoe + era * 400;
    let doy = doe - (365 * yoe + yoe / 4 - yoe / 100);
    assert(0 <= yoe <= 400);
    assert(-400 <= doy <= 146_097);
    let mp = (5 * doy + 2) / 153;
    let day = doy - (153 * mp + 2) / 5 + 1;
    let month = mp + if mp < 10 {
        3
    } else {
        -9
    };
    let year = if month <= 2 {
        year + 1
    } else {
        year
    };
    (year, month, day)
}

/// The civil date of a day number.
pub fn civil_from_days(days_since_unix_epoch: i64) -> (r: (i64, i64, i64))
    ensures
        (r.0 as int, r.1 as int, r.2 as int) == civil_from_days_spec(days_since_unix_epoch as int),
{
    let (y, m, d) = civil_from_days_wide(days_since_unix_epoch as i128);
    proof {
        lemma_civil_bounds(days_since_unix_epoch as int);
    }
    (y as i64, m as i64, d as i64)
}

proof fn lemma_civil_bounds(days: int)
    requires
        i64::MIN <= days <= i64::MAX,
    ensures
        i64::MIN <= civil_from_days_spec(days).0 <= i64::MAX,
        -20 <= civil_from_days_spec(days).1 <= 20,
        -200 <= civil_from_days_spec(days).2 <= 200,
{
}

fn days_from_civil_wide(year: i128, month: i128, day: i128) -> (r: i128)
    requires
        -0x1_0000_0000_0000_0000_0000 <= year <= 0x1_0000_0000_0000_0000_0000,
        -0x1_0000_0000_0000_0000 <= month <= 0x1_0000_0000_0000_0000,
        -0x1_0000_0000_0000_0000 <= day <= 0x1_0000_0000_0000_0000,
    ensures
        r as int == days_from_civil_spec(year as int, month as int, day as int),
{
    let adjusted_year = year - if month <= 2 {
        1
    } else {
        0
    };
    let era = (if adjusted_year >= 0 {
        adjusted_year
    } else {
        adjusted_year - 399
    }) / 400;
    let year_of_era = adjusted_year - era * 400;
    let month_prime = month + if month > 2 {
        -3
    } else {
        9
    };
    let day_of_year = (153 * month_prime + 2) / 5 + day - 1;
    let day_of_era = year_of_era * 365 + year_of_era / 4 - year_of_era / 100 + day_of_year;
    era * 146_097 + day_of_era - 719_468
}

/// The day number of a civil date, for a date whose day number fits in `i64`.
pub fn days_from_civil(year: i64, month: i64, day: i64) -> (r: i64)
    requires
        i64::MIN <= days_from_civil_spec(year as int, month as int, day as int) <= i64::MAX,
    ensures
        r as int == days_from_civil_spec(year as int, month as int, day as int),
{
    days_from_civil_wide(year as i128, month as i128, day as i128) as i64
}

// ---------------------------------------------------------------------------
// Day keys
// ---------------------------------------------------------------------------

/// `YYYY-MM-DD` with the widths of `{:04}-{:02}-{:02}`.
pub open spec fn day_key_text(year: int, month: int, day: int) -> Seq<char> {
    zero_padded(year, 4) + "-"@ + zero_padded(month, 2) + "-"@ + zero_padded(day, 2)
}

/// The day key of a date.
pub fn format_day_key(year: i64, month: i64, day: i64) -> (r: String)
    ensures
        r@ == day_key_text(year as int, month as int, day as int),
{
    let mut out = zero_padded_chars(year, 4);
    append_str(&mut out, "-");
    append_chars(&mut out, &zero_padded_chars(month, 2));
    append_str(&mut out, "-");
    append_chars(&mut out, &zero_padded_chars(day, 2));
    string_of(&out)
}

/// What `parse_day_key` returns: the day number of a valid `Y-M-D` date whose
/// parts are `i64` numbers, month in 1..=12, day in 1..=31, and whose day
/// number fits in `i64`.
pub open spec fn day_key_value(key: Seq<char>) -> Option<int> {
    let parts = split_pred(key, is_char('-'));
    if parts.len() != 3 {
        None
    } else {
        match (
            parse_sint(parts[0], i64::MIN as int, i64::MAX as int),
            parse_sint(parts[1], i64::MIN as int, i64::MAX as int),
            parse_sint(parts[2], i64::MIN as int, i64::MAX as int),
        ) {
            (Some(y), Some(m), Some(d)) => {
                let serial = days_from_civil_spec(y, m, d);
                if 1 <= m <= 12 && 1 <= d <= 31 && civil_from_days_spec(serial) == (y, m, d)
                    && i64::MIN <= serial <= i64::MAX {
                    Some(serial)
                } else {
                    None
                }
            },
            _ => None,
        }
    }
}

proof fn lemma_days_from_civil_bounds(y: int, m: int, d: int)
    requires
        i64::MIN <= y <= i64::MAX,
        1 <= m <= 12,
        1 <= d <= 31,
    ensures
        day_in_range(days_from_civil_spec(y, m, d)),
{
}

/// The day number named by a `YYYY-MM-DD` key, if the key names a real date.
pub fn parse_day_key(day_key: &str) -> (r: Option<i64>)
    ensures
        match r {
            Some(n) => day_key_value(day_key@) == Some(n as int),
            None => day_key_value(day_key@) is None,
        },
{
    let kv = chars_of(day_key);
    let parts = split_char_chars(&kv, '-');
    if parts.len() != 3 {
        return None;
    }
    proof {
        assert(views(parts@)[0] == parts@[0]@);
        assert(views(parts@)[1] == parts@[1]@);
        assert(views(parts@)[2] == parts@[2]@);
    }
    let year = match parse_i64_chars(&parts[0]) {
        Some(v) => v,
        None => return None,
    };
    let month = match parse_i64_chars(&parts[1]) {
        Some(v) => v,
        None => return None,
    };
    let day = match parse_i64_chars(&parts[2]) {
        Some(v) => v,
        None => return None,
    };
    if !(1 <= month && month <= 12) || !(1 <= day && day <= 31) {
        return None;
    }
    let serial = days_from_civil_wide(year as i128, month as i128, day as i128);
    proof {
        lemma_days_from_civil_bounds(year as int, month as int, day as int);
    }
    let (cy, cm, cd) = civil_from_days_wide(serial);
    if cy != year as i128 || cm != month as i128 || cd != day as i128 {
        return None;
    }
    if serial < i64::MIN as i128 || serial > i64::MAX as i128 {
        return None;
    }
    Some(serial as i64)
}

/// What `parse_day_from_traffic_filename` returns.
pub open spec fn traffic_file_day(name: Seq<char>) -> Option<int> {
    if starts_with(name, "events-"@) && ends_with(name, ".jsonl"@) && name.len() >= 13 {
        day_key_value(name.subrange(7, name.len() - 6))
    } else {
        None
    }
}

/// The day of a traffic file named `events-YYYY-MM-DD.jsonl`.
pub fn parse_day_from_traffic_filename(name: &str) -> (r: Option<i64>)
    ensures
        match r {
            Some(n) => traffic_file_day(name@) == Some(n as int),
            None => traffic_file_day(name@) is None,
        },
{
    let nv = chars_of(name);
    proof {
        reveal_strlit("events-");
        reveal_strlit(".jsonl");
    }
    if !starts_with_str(&nv, "events-") || !ends_with_str(&nv, ".jsonl") || nv.len() < 13 {
        return None;
    }
    let key = string_of(&copy_range(&nv, 7, nv.len() - 6));
    parse_day_key(key.as_str())
}

/// What `event_day_key` returns: the first ten characters of a timestamp when
/// they are ASCII and name a valid day.
pub open spec fn event_day(timestamp: Seq<char>) -> Option<Seq<char>> {
    if timestamp.len() < 10 || !all_ascii(timestamp.take(10)) {
        None
    } else {
        match day_key_value(timestamp.take(10)) {
            Some(_) => Some(timestamp.take(10)),
            None => None,
        }
    }
}

/// The day key at the start of a `YYYY-MM-DD HH:MM:SS UTC` timestamp.
pub fn event_day_key(timestamp: &str) -> (r: Option<String>)
    ensures
        match r {
            Some(k) => event_day(timestamp@) == Some(k@),
            None => event_day(timestamp@) is None,
        },
{
    let tv = chars_of(timestamp);
    if tv.len() < 10 {
        return None;
    }
    let mut i: usize = 0;
    while i < 10
        invariant
            i <= 10 <= tv@.len(),
            tv@ == timestamp@,
            forall|j: int| 0 <= j < i ==> tv@[j] < '\u{80}',
        decreases 10 - i,
    {
        if tv[i] >= '\u{80}' {
            assert(tv@.take(10)[i as int] == tv@[i as int]);
            assert(!all_ascii(timestamp@.take(10)));
            assert(event_day(timestamp@) is None);
            return None;
        }
        i = i + 1;
    }
    let head = copy_range(&tv, 0, 10);
    assert(head@ == tv@.take(10));
    let key = string_of(&head);
    match parse_day_key(key.as_str()) {
        Some(_) => Some(key),
        None => None,
    }
}

// ---------------------------------------------------------------------------
// Timestamps
// ---------------------------------------------------------------------------

/// `YYYY-MM-DD HH:MM:SS UTC` for seconds since the epoch.
pub open spec fn utc_text(epoch_seconds: int) -> Seq<char> {
    let days = epoch_seconds / 86_400;
    let rem = epoch_seconds % 86_400;
    let (y, m, d) = civil_from_days_spec(days);
    day_key_text(y, m, d) + " "@ + zero_padded(rem / 3_600, 2) + ":"@ + zero_padded(
        (rem % 3_600) / 60,
        2,
    ) + ":"@ + zero_padded(rem % 60, 2) + " UTC"@
}

/// Euclidean quotient and remainder by the seconds of a day (`div_euclid`,
/// `rem_euclid`).
fn floor_div_rem_day(a: i64) -> (r: (i64, i64))
    ensures
        r.0 as int == a as int / 86_400,
        r.1 as int == a as int % 86_400,
{
    let q = a / 86_400;
    let m = a % 86_400;
    if m < 0 {
        (q - 1, m + 86_400)
    } else {
        (q, m)
    }
}

/// Formats seconds since the epoch as a UTC timestamp.
pub fn format_unix_utc(epoch_seconds: i64) -> (r: String)
    ensures
        r@ == utc_text(epoch_seconds as int),
{
    let (days, rem) = floor_div_rem_day(epoch_seconds);
    let hour = rem / 3_600;
    let minute = (rem % 3_600) / 60;
    let second = rem % 60;
    let (year, month, day) = civil_from_days(days);
    let mut out = chars_of(format_day_key(year, month, day).as_str());
    append_str(&mut out, " ");
    append_chars(&mut out, &zero_padded_chars(hour, 2));
    append_str(&mut out, ":");
    append_chars(&mut out, &zero_padded_chars(minute, 2));
    append_str(&mut out, ":");
    append_chars(&mut out, &zero_padded_chars(second, 2));
    append_str(&mut out, " UTC");
    string_of(&out)
}

// ---------------------------------------------------------------------------
// Day numbers and dates are inverse
// ---------------------------------------------------------------------------

/// The first day, counted from March 1 of year 0 of a 400-year era, of the
/// era's year `y`.
pub open spec fn era_year_start(y: int) -> int {
    365 * y + y / 4 - y / 100
}

/// The year of an era in which its day `doe` falls (the computation of
/// `civil_from_days`).
pub open spec fn era_year_of(doe: int) -> int {
    (doe - doe / 1_460 + doe / 36_524 - doe / 146_096) / 365
}

/// A day of an era falls in one of its 400 years, at most 365 days after
/// that year's first day.
proof fn lemma_era_day(doe: int)
    requires
        0 <= doe <= 146_096,
    ensures
        0 <= era_year_of(doe) <= 399,
        era_year_start(era_year_of(doe)) <= doe <= era_year_start(era_year_of(doe)) + 365,
{
    if doe == 146_096 {
        assert(era_year_of(doe) == 399);
        assert(era_year_start(399) == 145_731);
    } else {
        let c = doe / 36_524;
        assert(0 <= c <= 3);
        let e = doe - 36_524 * c;
        let q = e / 1_461;
        assert(0 <= q <= 24);
        let s = e - 1_461 * q;
        assert(0 <= s <= 1_460);
        let r: int = if s / 365 > 3 {
            3
        } else {
            s / 365
        };
        let k: int = if 24 * c + q + s >= 1_460 {
            1
        } else {
            0
        };
        assert(doe / 1_460 == 25 * c + q + k);
        assert(doe / 146_096 == 0);
        let n = doe - doe / 1_460 + doe / 36_524 - doe / 146_096;
        assert(n == 36_500 * c + 1_460 * q + s - k);
        assert(365 * r <= s - k < 365 * r + 365);
        let y = 100 * c + 4 * q + r;
        assert(n / 365 == y);
        assert(y / 4 == 25 * c + q);
        assert(y / 100 == c);
        assert(era_year_start(y) == 36_524 * c + 1_461 * q + 365 * r);
    }
}

/// The date of a day number has a month in 1..=12 and a day in 1..=31, and
/// the day number of that date is the day number again.
pub proof fn law_day_number_round_trip(days: int)
    ensures
        1 <= civil_from_days_spec(days).1 <= 12,
        1 <= civil_from_days_spec(days).2 <= 31,
        days_from_civil_spec(
            civil_from_days_spec(days).0,
            civil_from_days_spec(days).1,
            civil_from_days_spec(days).2,
        ) == days,
{
    let z = days + 719_468;
    let era = tdiv(
        if z >= 0 {
            z
        } else {
            z - 146_096
        },
        146_097,
    );
    let doe = z - era * 146_097;
    assert(0 <= doe <= 146_096);
    lemma_era_day(doe);
    let yoe = era_year_of(doe);
    let doy = doe - era_year_start(yoe);
    assert(0 <= doy <= 365);
    let mp = (5 * doy + 2) / 153;
    assert(0 <= mp <= 11);
    let day = doy - (153 * mp + 2) / 5 + 1;
    assert(1 <= day <= 31);
    let adjusted = yoe + era * 400;
    let era2 = tdiv(
        if adjusted >= 0 {
            adjusted
        } else {
            adjusted - 399
        },
        400,
    );
    assert(era2 == era);
}

proof fn lemma_split_three(a: Seq<char>, b: Seq<char>, c: Seq<char>)
    requires
        forall|i: int| 0 <= i < a.len() ==> #[trigger] a[i] != '-',
        forall|i: int| 0 <= i < b.len() ==> #[trigger] b[i] != '-',
        forall|i: int| 0 <= i < c.len() ==> #[trigger] c[i] != '-',
    ensures
        split_pred(a + seq!['-'] + b + seq!['-'] + c, is_char('-')) == seq![a, b, c],
{
    let p = is_char('-');
    let t = a + seq!['-'] + b + seq!['-'] + c;
    assert(t[a.len() as int] == '-');
    assert forall|j: int| 0 <= j < a.len() implies !p(t[j]) by {
        assert(t[j] == a[j]);
    }
    lemma_find_pred_some(t, p, a.len());
    assert(t.take(a.len() as int) =~= a);
    let u = b + seq!['-'] + c;
    assert(t.skip(a.len() as int + 1) =~= u);
    assert(u[b.len() as int] == '-');
    assert forall|j: int| 0 <= j < b.len() implies !p(u[j]) by {
        assert(u[j] == b[j]);
    }
    lemma_find_pred_some(u, p, b.len());
    assert(u.take(b.len() as int) =~= b);
    assert(u.skip(b.len() as int + 1) =~= c);
    assert forall|j: int| 0 <= j < c.len() implies !p(c[j]) by {}
    lemma_find_pred_none(c, p);
    assert(split_pred(c, p) == seq![c]);
    assert(split_pred(u, p) =~= seq![b, c]);
}

/// A day of a year from 0 on is named by its day key, and the key is read
/// back as the same day number.
pub proof fn law_day_key_round_trip(days: int)
    requires
        i64::MIN <= days <= i64::MAX,
        civil_from_days_spec(days).0 >= 0,
    ensures
        day_key_value(
            day_key_text(
                civil_from_days_spec(days).0,
                civil_from_days_spec(days).1,
                civil_from_days_spec(days).2,
            ),
        ) == Some(days),
{
    let (y, m, d) = civil_from_days_spec(days);
    law_day_number_round_trip(days);
    lemma_civil_bounds(days);
    let min = i64::MIN as int;
    let max = i64::MAX as int;
    lemma_zero_padded_parses(y, 4, min, max);
    lemma_zero_padded_parses(m, 2, min, max);
    lemma_zero_padded_parses(d, 2, min, max);
    let a = zero_padded(y, 4);
    let b = zero_padded(m, 2);
    let c = zero_padded(d, 2);
    assert forall|i: int| 0 <= i < a.len() implies #[trigger] a[i] != '-' by {
        assert(is_digit(a[i]));
    }
    assert forall|i: int| 0 <= i < b.len() implies #[trigger] b[i] != '-' by {
        assert(is_digit(b[i]));
    }
    assert forall|i: int| 0 <= i < c.len() implies #[trigger] c[i] != '-' by {
        assert(is_digit(c[i]));
    }
    reveal_strlit("-");
    assert(day_key_text(y, m, d) =~= a + seq!['-'] + b + seq!['-'] + c);
    lemma_split_three(a, b, c);
}

} // verus!
