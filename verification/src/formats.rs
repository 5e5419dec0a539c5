//! Texts of UUIDs, dates and intervals: how each is read and written.

use crate::text::{all_digits, digits_value, is_digit, string_of};
use crate::words::{char_is_whitespace, is_whitespace_char, lemma_white_start, white_start};
use vstd::prelude::*;

verus! {

/// What `uuid::Uuid::parse_str` makes of a text: the UUID's 128 bits, or the
/// error's message.
pub uninterp spec fn uuid_of_text(s: Seq<char>) -> Result<u128, Seq<char>>;

/// Reads a UUID with `uuid::Uuid::parse_str` and hands it out as its 128-bit
/// number (`as_u128`); a failure comes as the error's message.
#[verifier::external_body]
pub(crate) fn parse_uuid(s: &str) -> (r: Result<u128, String>)
    ensures
        match r {
            Ok(u) => uuid_of_text(s@) == Ok::<u128, Seq<char>>(u),
            Err(e) => uuid_of_text(s@) == Err::<u128, Seq<char>>(e@),
        },
{
    match uuid::Uuid::parse_str(s) {
        Ok(u) => Ok(u.as_u128()),
        Err(e) => Err(e.to_string()),
    }
}

/// The lower-case hexadecimal digit for `d < 16`.
pub open spec fn hex_digit(d: int) -> char {
    if d < 10 {
        (d + '0' as int) as char
    } else {
        (d - 10 + 'a' as int) as char
    }
}

/// The hexadecimal digit of `u` at place `k`, the most significant being
/// place 0 of 32.
pub open spec fn nibble(u: u128, k: int) -> int {
    (u as int / vstd::arithmetic::power::pow(16, (31 - k) as nat)) % 16
}

/// The standard text of a UUID: 32 lower-case hexadecimal digits in groups of
/// 8, 4, 4, 4 and 12, with a hyphen between groups.
pub open spec fn uuid_text(u: u128) -> Seq<char> {
    Seq::new(
        36,
        |i: int|
            if i == 8 || i == 13 || i == 18 || i == 23 {
                '-'
            } else if i < 8 {
                hex_digit(nibble(u, i))
            } else if i < 13 {
                hex_digit(nibble(u, i - 1))
            } else if i < 18 {
                hex_digit(nibble(u, i - 2))
            } else if i < 23 {
                hex_digit(nibble(u, i - 3))
            } else {
                hex_digit(nibble(u, i - 4))
            },
    )
}

/// Writes the UUID with the bits `u` (`uuid::Uuid::from_u128`) as `Uuid`
/// displays it: hyphenated, in lower case.
#[verifier::external_body]
pub(crate) fn format_uuid(u: u128) -> (r: String)
    ensures
        r@ == uuid_text(u),
{
    uuid::Uuid::from_u128(u).to_string()
}

/// What `chrono::NaiveDateTime::parse_from_str` makes of a text under a
/// format: the date and time as the whole seconds since 1970-01-01 00:00:00
/// and the nanoseconds beside them, or the error's message.
pub uninterp spec fn datetime_of_text(s: Seq<char>, format: Seq<char>) -> Result<
    (i64, u32),
    Seq<char>,
>;

/// Reads a date and time without zone with
/// `chrono::NaiveDateTime::parse_from_str` and hands it out, taken as UTC, as
/// its `timestamp` and its `timestamp_subsec_nanos`.
#[verifier::external_body]
pub(crate) fn parse_datetime(s: &str, format: &str) -> (r: Result<(i64, u32), String>)
    ensures
        match r {
            Ok(p) => datetime_of_text(s@, format@) == Ok::<(i64, u32), Seq<char>>(p),
            Err(e) => datetime_of_text(s@, format@) == Err::<(i64, u32), Seq<char>>(e@),
        },
{
    match chrono::NaiveDateTime::parse_from_str(s, format) {
        Ok(t) => Ok((t.and_utc().timestamp(), t.and_utc().timestamp_subsec_nanos())),
        Err(e) => Err(e.to_string()),
    }
}

/// What `chrono::DateTime::parse_from_rfc3339` makes of a text: the instant
/// as the whole seconds since the Unix epoch and the nanoseconds beside
/// them, or the error's message.
pub uninterp spec fn instant_of_rfc3339(s: Seq<char>) -> Result<(i64, u32), Seq<char>>;

/// Reads an RFC 3339 date and time with `chrono::DateTime::parse_from_rfc3339`
/// and hands the instant out as its `timestamp` and its
/// `timestamp_subsec_nanos`.
#[verifier::external_body]
pub(crate) fn parse_rfc3339(s: &str) -> (r: Result<(i64, u32), String>)
    ensures
        match r {
            Ok(p) => instant_of_rfc3339(s@) == Ok::<(i64, u32), Seq<char>>(p),
            Err(e) => instant_of_rfc3339(s@) == Err::<(i64, u32), Seq<char>>(e@),
        },
{
    match chrono::DateTime::parse_from_rfc3339(s) {
        Ok(t) => Ok((t.timestamp(), t.timestamp_subsec_nanos())),
        Err(e) => Err(e.to_string()),
    }
}

/// How `chrono::NaiveDateTime` displays the date and time that
/// `chrono::DateTime::from_timestamp` makes of the seconds and nanoseconds;
/// `None` where it makes none of them.
pub uninterp spec fn datetime_text(seconds: i64, nanos: u32) -> Option<Seq<char>>;

/// Writes a date and time without zone as `chrono::NaiveDateTime` displays
/// it, from `chrono::DateTime::from_timestamp`.
#[verifier::external_body]
pub(crate) fn format_datetime(seconds: i64, nanos: u32) -> (r: Option<String>)
    ensures
        match r {
            Some(t) => datetime_text(seconds, nanos) == Some(t@),
            None => datetime_text(seconds, nanos) is None,
        },
{
    match chrono::DateTime::from_timestamp(seconds, nanos) {
        Some(d) => Some(d.naive_utc().to_string()),
        None => None,
    }
}

/// How `chrono::DateTime<Utc>` displays the instant that
/// `chrono::DateTime::from_timestamp` makes of the seconds and nanoseconds;
/// `None` where it makes none of them.
pub uninterp spec fn instant_text(seconds: i64, nanos: u32) -> Option<Seq<char>>;

/// Writes an instant as `chrono::DateTime<Utc>` displays it, from
/// `chrono::DateTime::from_timestamp`.
#[verifier::external_body]
pub(crate) fn format_instant(seconds: i64, nanos: u32) -> (r: Option<String>)
    ensures
        match r {
            Some(t) => instant_text(seconds, nanos) == Some(t@),
            None => instant_text(seconds, nanos) is None,
        },
{
    match chrono::DateTime::from_timestamp(seconds, nanos) {
        Some(d) => Some(d.to_string()),
        None => None,
    }
}

/// The nanoseconds since the epoch that seconds and nanoseconds beside them
/// come to.
pub open spec fn timestamp_of(parts: (i64, u32)) -> i128 {
    (parts.0 * 1_000_000_000 + parts.1) as i128
}

/// The nanoseconds since the epoch that seconds and nanoseconds beside them
/// come to.
pub fn join_timestamp(seconds: i64, nanos: u32) -> (t: i128)
    ensures
        t == timestamp_of((seconds, nanos)),
{
    let whole: i128 = seconds as i128;
    let part: i128 = nanos as i128;
    whole * 1_000_000_000 + part
}

/// The whole seconds and the nanoseconds beside them of a count of
/// nanoseconds since the epoch, the seconds counted downwards before the
/// epoch; `None` where the seconds do not fit in 64 bits.
pub open spec fn timestamp_parts(t: i128) -> Option<(i64, u32)> {
    if i64::MIN <= t as int / 1_000_000_000 <= i64::MAX {
        Some(((t as int / 1_000_000_000) as i64, (t as int % 1_000_000_000) as u32))
    } else {
        None
    }
}

/// The whole seconds and the nanoseconds beside them of a count of
/// nanoseconds since the epoch.
pub fn split_timestamp(t: i128) -> (r: Option<(i64, u32)>)
    ensures
        r == timestamp_parts(t),
{
    if t < -9_223_372_036_854_775_808_000_000_000 || t > 9_223_372_036_854_775_807_999_999_999 {
        proof {
            if t < -9_223_372_036_854_775_808_000_000_000 {
                assert(t as int / 1_000_000_000 < i64::MIN);
            } else {
                assert(t as int / 1_000_000_000 > i64::MAX);
            }
        }
        return None;
    }
    let shifted: u128 = (t + 9_223_372_036_854_775_808_000_000_000) as u128;
    let q: u128 = shifted / 1_000_000_000;
    let r: u128 = shifted % 1_000_000_000;
    let seconds: i128 = q as i128 - 9_223_372_036_854_775_808;
    proof {
        assert(t == seconds * 1_000_000_000 + r);
        vstd::arithmetic::div_mod::lemma_fundamental_div_mod_converse(
            t as int,
            1_000_000_000,
            seconds as int,
            r as int,
        );
    }
    Some((seconds as i64, r as u32))
}

/// How a timestamp without zone is written; `None` for one that lies
/// outside of what chrono can hold.
pub open spec fn timestamp_text(t: i128) -> Option<Seq<char>> {
    match timestamp_parts(t) {
        Some(p) => datetime_text(p.0, p.1),
        None => None,
    }
}

/// How an instant is written; `None` for one that lies outside of what
/// chrono can hold.
pub open spec fn timestamp_tz_text(t: i128) -> Option<Seq<char>> {
    match timestamp_parts(t) {
        Some(p) => instant_text(p.0, p.1),
        None => None,
    }
}

/// Writes a timestamp without zone.
pub fn format_timestamp(t: i128) -> (r: Option<String>)
    ensures
        match r {
            Some(text) => timestamp_text(t) == Some(text@),
            None => timestamp_text(t) is None,
        },
{
    match split_timestamp(t) {
        Some((seconds, nanos)) => format_datetime(seconds, nanos),
        None => None,
    }
}

/// Writes an instant.
pub fn format_timestamp_tz(t: i128) -> (r: Option<String>)
    ensures
        match r {
            Some(text) => timestamp_tz_text(t) == Some(text@),
            None => timestamp_tz_text(t) is None,
        },
{
    match split_timestamp(t) {
        Some((seconds, nanos)) => format_instant(seconds, nanos),
        None => None,
    }
}

/// The format of a timestamp without zone.
pub open spec fn timestamp_format() -> Seq<char> {
    "%Y-%m-%d %H:%M:%S"@
}

/// How many digits `s` starts with.
pub open spec fn digit_run(s: Seq<char>) -> int
    decreases s.len(),
{
    if s.len() > 0 && is_digit(s[0]) {
        1 + digit_run(s.drop_first())
    } else {
        0
    }
}

/// The seconds in one of the named unit; `None` for any other name.
pub open spec fn unit_seconds(unit: Seq<char>) -> Option<int> {
    if unit == "s"@ || unit == "sec"@ || unit == "secs"@ || unit == "second"@ || unit
        == "seconds"@ {
        Some(1)
    } else if unit == "m"@ || unit == "min"@ || unit == "mins"@ || unit == "minute"@ || unit
        == "minutes"@ {
        Some(60)
    } else if unit == "h"@ || unit == "hr"@ || unit == "hrs"@ || unit == "hour"@ || unit
        == "hours"@ {
        Some(3600)
    } else if unit == "d"@ || unit == "day"@ || unit == "days"@ {
        Some(86400)
    } else if unit == "w"@ || unit == "week"@ || unit == "weeks"@ {
        Some(604800)
    } else {
        None
    }
}

/// What a text means as an interval, in seconds: one or more digits, read
/// left to right as a decimal number, then white space if any, then the name
/// of a unit; the product has to fit in 64 bits.
pub open spec fn interval_of(s: Seq<char>) -> Option<i64> {
    let d = digit_run(s);
    let rest = s.subrange(d, s.len() as int);
    let unit = rest.subrange(white_start(rest), rest.len() as int);
    match unit_seconds(unit) {
        Some(k) => {
            let v = digits_value(s.subrange(0, d)) * k;
            if d > 0 && v <= i64::MAX {
                Some(v as i64)
            } else {
                None
            }
        },
        None => None,
    }
}

/// A run of digits that ends at `i` is the run that `s` starts with.
pub proof fn lemma_digit_run(s: Seq<char>, i: int)
    requires
        0 <= i <= s.len(),
        all_digits(s.subrange(0, i)),
        i == s.len() || !is_digit(s[i]),
    ensures
        digit_run(s) == i,
    decreases s.len(),
{
    if i > 0 {
        assert(s.subrange(0, i)[0] == s[0]);
        let rest = s.drop_first();
        assert forall|k: int| 0 <= k < i - 1 implies is_digit(
            #[trigger] rest.subrange(0, i - 1)[k],
        ) by {
            assert(rest.subrange(0, i - 1)[k] == s.subrange(0, i)[k + 1]);
        }
        lemma_digit_run(rest, i - 1);
    }
}

fn is_text(a: &String, name: &str) -> (r: bool)
    ensures
        r == (a@ == name@),
{
    *a == name.to_owned()
}

/// The seconds in one of the named unit.
fn seconds_of_unit(unit: &String) -> (r: Option<u64>)
    ensures
        match r {
            Some(k) => unit_seconds(unit@) == Some(k as int) && 1 <= k <= 604800,
            None => unit_seconds(unit@) is None,
        },
{
    if is_text(unit, "s") || is_text(unit, "sec") || is_text(unit, "secs") || is_text(
        unit,
        "second",
    ) || is_text(unit, "seconds") {
        Some(1)
    } else if is_text(unit, "m") || is_text(unit, "min") || is_text(unit, "mins") || is_text(
        unit,
        "minute",
    ) || is_text(unit, "minutes") {
        Some(60)
    } else if is_text(unit, "h") || is_text(unit, "hr") || is_text(unit, "hrs") || is_text(
        unit,
        "hour",
    ) || is_text(unit, "hours") {
        Some(3600)
    } else if is_text(unit, "d") || is_text(unit, "day") || is_text(unit, "days") {
        Some(86400)
    } else if is_text(unit, "w") || is_text(unit, "week") || is_text(unit, "weeks") {
        Some(604800)
    } else {
        None
    }
}

/// Reads an interval and gives its length in seconds.
pub fn parse_interval(chars: &Vec<char>) -> (r: Option<i64>)
    ensures
        r == interval_of(chars@),
{
    let n = chars.len();
    let mut number: u64 = 0;
    let mut overflow = false;
    let mut i: usize = 0;
    while i < n && chars[i] >= '0' && chars[i] <= '9'
        invariant
            i <= n,
            n == chars.len(),
            all_digits(chars@.subrange(0, i as int)),
            !overflow ==> number == digits_value(chars@.subrange(0, i as int)),
            overflow ==> digits_value(chars@.subrange(0, i as int)) > i64::MAX,
            number <= i64::MAX,
        decreases n - i,
    {
        let digit: u128 = (chars[i] as u32 - '0' as u32) as u128;
        let ghost shorter = chars@.subrange(0, i as int);
        let ghost longer = chars@.subrange(0, i as int + 1);
        proof {
            assert(longer.drop_last() == shorter);
            assert(longer.last() == chars@[i as int]);
            assert forall|k: int| 0 <= k < longer.len() implies is_digit(#[trigger] longer[k]) by {
                if k < i {
                    assert(longer[k] == shorter[k]);
                }
            }
        }
        if !overflow {
            let next: u128 = (number as u128) * 10 + digit;
            if next > 0x7fff_ffff_ffff_ffff {
                overflow = true;
            } else {
                number = next as u64;
            }
        }
        i += 1;
    }
    let digits = i;
    proof {
        lemma_digit_run(chars@, digits as int);
    }
    let ghost rest = chars@.subrange(digits as int, n as int);
    while i < n && char_is_whitespace(chars[i])
        invariant
            digits <= i <= n,
            n == chars.len(),
            rest == chars@.subrange(digits as int, n as int),
            forall|k: int| 0 <= k < i - digits ==> is_whitespace_char(#[trigger] rest[k]),
        decreases n - i,
    {
        i += 1;
    }
    proof {
        lemma_white_start(rest, i - digits);
        assert(rest.subrange(i - digits, rest.len() as int) == chars@.subrange(i as int, n as int));
    }
    let unit = string_of(chars, i, n);
    match seconds_of_unit(&unit) {
        None => None,
        Some(k) => {
            if digits == 0 || overflow {
                proof {
                    if overflow {
                        assert(digits_value(chars@.subrange(0, digits as int)) * k
                            >= digits_value(chars@.subrange(0, digits as int))) by (nonlinear_arith)
                            requires
                                k >= 1,
                                digits_value(chars@.subrange(0, digits as int)) >= 0,
                        ;
                    }
                }
                None
            } else {
                let v: u128 = (number as u128) * (k as u128);
                if v > 0x7fff_ffff_ffff_ffff {
                    None
                } else {
                    Some(v as i64)
                }
            }
        },
    }
}

} // verus!
