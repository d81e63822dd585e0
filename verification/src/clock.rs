//! The wall clock, read through `chrono`.
use vstd::prelude::*;
use std::time::{Duration, SystemTime, UNIX_EPOCH};
use crate::text::{opt_view, owned};

verus! {

#[verifier::external_type_specification]
#[verifier::external_body]
pub struct ExSystemTime(SystemTime);

/// Whether `c` is an ASCII decimal digit.
pub open spec fn is_digit(c: char) -> bool {
    '0' <= c && c <= '9'
}

/// Whether every character of `s` is a decimal digit.
pub open spec fn all_digits(s: Seq<char>) -> bool {
    forall|i: int| 0 <= i < s.len() ==> is_digit(#[trigger] s[i])
}

/// Exactly two decimal digits.
pub open spec fn two_digits(s: Seq<char>) -> bool {
    s.len() == 2 && all_digits(s)
}

/// A year as chrono writes it: four digits for the years 0 to 9999,
/// otherwise a sign followed by at least four digits.
pub open spec fn year_text(y: Seq<char>) -> bool {
    ||| y.len() == 4 && all_digits(y)
    ||| y.len() >= 5 && (y[0] == '+' || y[0] == '-') && all_digits(y.drop_first())
}

/// A calendar date as `%Y-%m-%d` writes it: the year, `-`, a two-digit
/// month, `-`, a two-digit day.
pub open spec fn date_text(d: Seq<char>) -> bool {
    let n = d.len() as int;
    &&& n >= 10
    &&& year_text(d.take(n - 6))
    &&& d[n - 6] == '-'
    &&& two_digits(d.subrange(n - 5, n - 3))
    &&& d[n - 3] == '-'
    &&& two_digits(d.subrange(n - 2, n))
}

/// Fractional seconds as `to_rfc3339` writes them: nothing, or `.` and
/// three, six or nine digits.
pub open spec fn fraction_text(f: Seq<char>) -> bool {
    ||| f.len() == 0
    ||| (f.len() == 4 || f.len() == 7 || f.len() == 10) && f[0] == '.' && all_digits(
        f.drop_first(),
    )
}

/// A time of day as `HH:MM:SS`, followed by fractional seconds.
pub open spec fn clock_text(s: Seq<char>) -> bool {
    &&& s.len() >= 8
    &&& two_digits(s.take(2))
    &&& s[2] == ':'
    &&& two_digits(s.subrange(3, 5))
    &&& s[5] == ':'
    &&& two_digits(s.subrange(6, 8))
    &&& fraction_text(s.skip(8))
}

/// A UTC instant as `DateTime::<Utc>::to_rfc3339` writes it: a date, `T`,
/// the time of day, and the offset `+00:00`.
pub open spec fn utc_rfc3339_text(t: Seq<char>) -> bool {
    exists|k: int|
        10 <= k && k + 15 <= t.len() && t[k] == 'T' && date_text(#[trigger] t.take(k))
            && clock_text(t.subrange(k + 1, t.len() - 6)) && t.skip(t.len() - 6) == seq![
            '+',
            '0',
            '0',
            ':',
            '0',
            '0',
        ]
}

/// `std::time::SystemTime::now()`: the system clock's current reading.
/// Nothing is stated of it, since it depends on the clock.
#[verifier::external_body]
fn system_now() -> SystemTime {
    SystemTime::now()
}

/// `SystemTime::duration_since(UNIX_EPOCH)`: how long after the Unix
/// epoch `t` lies, or `None` (the `Err` of `duration_since`) when `t` lies
/// before it. Nothing more is stated: the type is opaque here.
#[verifier::external_body]
fn since_unix_epoch(t: &SystemTime) -> Option<Duration> {
    match t.duration_since(UNIX_EPOCH) {
        Ok(d) => Some(d),
        Err(_) => None,
    }
}

/// `Duration::as_nanos`: the whole duration in nanoseconds. Nothing is
/// stated: the duration is opaque here.
#[verifier::external_body]
fn total_nanos(d: &Duration) -> u128 {
    d.as_nanos()
}

/// The current time as seconds and nanoseconds after the Unix epoch, or
/// `None` when the clock reads before the epoch or beyond `i64` seconds.
fn unix_now() -> (r: Option<(i64, u32)>)
    ensures
        r matches Some((s, n)) ==> 0 <= s && n < 1_000_000_000,
{
    let now = system_now();
    let d = match since_unix_epoch(&now) {
        Some(d) => d,
        None => return None,
    };
    let total = total_nanos(&d);
    let secs = total / 1_000_000_000;
    let nanos = total % 1_000_000_000;
    if secs > 0x7fff_ffff_ffff_ffff {
        return None;
    }
    Some((secs as i64, nanos as u32))
}

/// What `DateTime::<Utc>::from_timestamp(secs, nsecs)` rendered by
/// `to_rfc3339` gives: the calendar computation of chrono, by name.
pub uninterp spec fn rfc3339_of_timestamp(secs: i64, nsecs: u32) -> Option<Seq<char>>;

/// What `DateTime::<Utc>::from_timestamp(secs, nsecs)` rendered with the
/// format `%Y-%m-%d` gives, by name.
pub uninterp spec fn date_of_timestamp(secs: i64, nsecs: u32) -> Option<Seq<char>>;

/// `chrono::DateTime::from_timestamp(secs, nsecs)` rendered by
/// `DateTime::to_rfc3339`. The text is named, not spelled out; stated of
/// it is the form `write_rfc3339` gives a UTC time, and that
/// `from_timestamp` accepts whole seconds within about 30 000 years after
/// the epoch with nanoseconds below a second (its dates reach the year
/// 262 142).
#[verifier::external_body]
fn rfc3339_at(secs: i64, nsecs: u32) -> (r: Option<String>)
    ensures
        opt_view(r) == rfc3339_of_timestamp(secs, nsecs),
        r matches Some(t) ==> utc_rfc3339_text(t@),
        0 <= secs < 0x100_0000_0000 && nsecs < 1_000_000_000 ==> r is Some,
{
    match chrono::DateTime::from_timestamp(secs, nsecs) {
        Some(t) => Some(t.to_rfc3339()),
        None => None,
    }
}

/// `chrono::DateTime::from_timestamp(secs, nsecs)` rendered with the
/// format `%Y-%m-%d`. The text is named; stated of it is the form chrono
/// writes for `%Y`, `%m` and `%d`, and when `from_timestamp` accepts its
/// arguments, as for `rfc3339_at`.
#[verifier::external_body]
fn date_at(secs: i64, nsecs: u32) -> (r: Option<String>)
    ensures
        opt_view(r) == date_of_timestamp(secs, nsecs),
        r matches Some(t) ==> date_text(t@),
        0 <= secs < 0x100_0000_0000 && nsecs < 1_000_000_000 ==> r is Some,
{
    match chrono::DateTime::from_timestamp(secs, nsecs) {
        Some(t) => Some(t.format("%Y-%m-%d").to_string()),
        None => None,
    }
}

/// The current UTC time in RFC 3339 form; `None` when the clock cannot be
/// read as a time after the Unix epoch.
pub fn utc_now_rfc3339() -> (r: Option<String>)
    ensures
        r matches Some(t) ==> utc_rfc3339_text(t@),
{
    match unix_now() {
        Some((secs, nanos)) => rfc3339_at(secs, nanos),
        None => None,
    }
}

/// Today's UTC date as `YYYY-MM-DD`; `None` when the clock cannot be read
/// as a time after the Unix epoch.
pub fn utc_today() -> (r: Option<String>)
    ensures
        r matches Some(t) ==> date_text(t@),
{
    match unix_now() {
        Some((secs, nanos)) => date_at(secs, nanos),
        None => None,
    }
}

/// What `DateTime::parse_from_rfc3339(ts)`, moved to UTC by
/// `with_timezone(&Utc)` and rendered with `%H:%M:%S`, gives; `None` when
/// the parse fails.
pub uninterp spec fn utc_time_of_day_of(ts: Seq<char>) -> Option<Seq<char>>;

/// What `DateTime::parse_from_rfc3339(ts)`, moved to UTC and rendered
/// with `%Y-%m-%d %H:%M:%S`, gives; `None` when the parse fails.
pub uninterp spec fn utc_date_time_of(ts: Seq<char>) -> Option<Seq<char>>;

/// A time of day as `%H:%M:%S` writes it.
pub open spec fn time_of_day_text(t: Seq<char>) -> bool {
    &&& t.len() == 8
    &&& two_digits(t.take(2))
    &&& t[2] == ':'
    &&& two_digits(t.subrange(3, 5))
    &&& t[5] == ':'
    &&& two_digits(t.subrange(6, 8))
}

/// `chrono::DateTime::parse_from_rfc3339(ts)`, moved to UTC and rendered
/// with `%H:%M:%S`; `None` for the parse error. The text is named; stated
/// of it is the form chrono writes for `%H`, `%M` and `%S`. Which inputs
/// parse is not stated.
#[verifier::external_body]
fn parse_time_of_day(ts: &str) -> (r: Option<String>)
    ensures
        opt_view(r) == utc_time_of_day_of(ts@),
        r matches Some(t) ==> time_of_day_text(t@),
{
    match chrono::DateTime::parse_from_rfc3339(ts) {
        Ok(dt) => Some(dt.with_timezone(&chrono::Utc).format("%H:%M:%S").to_string()),
        Err(_) => None,
    }
}

/// `chrono::DateTime::parse_from_rfc3339(ts)`, moved to UTC and rendered
/// with `%Y-%m-%d %H:%M:%S`; `None` for the parse error. The text is
/// named; stated of it is the form chrono writes for that format. Which
/// inputs parse is not stated.
#[verifier::external_body]
fn parse_date_time(ts: &str) -> (r: Option<String>)
    ensures
        opt_view(r) == utc_date_time_of(ts@),
        r matches Some(t) ==> t@.len() >= 19 && date_text(t@.take(t@.len() - 9)) && t@[t@.len()
            - 9] == ' ' && time_of_day_text(t@.skip(t@.len() - 8)),
{
    match chrono::DateTime::parse_from_rfc3339(ts) {
        Ok(dt) => Some(dt.with_timezone(&chrono::Utc).format("%Y-%m-%d %H:%M:%S").to_string()),
        Err(_) => None,
    }
}

/// The UTC time of day of the RFC 3339 timestamp `ts`, as `HH:MM:SS`; empty
/// when `ts` does not parse.
pub fn clock_time(ts: &str) -> (r: String)
    ensures
        r@ == match utc_time_of_day_of(ts@) {
            Some(t) => t,
            None => Seq::<char>::empty(),
        },
{
    match parse_time_of_day(ts) {
        Some(t) => t,
        None => String::new(),
    }
}

/// The UTC date and time of the RFC 3339 timestamp `ts`, as
/// `YYYY-MM-DD HH:MM:SS`; `ts` itself when it does not parse.
pub fn full_time(ts: &str) -> (r: String)
    ensures
        r@ == match utc_date_time_of(ts@) {
            Some(t) => t,
            None => ts@,
        },
{
    match parse_date_time(ts) {
        Some(t) => t,
        None => owned(ts),
    }
}

} // verus!
