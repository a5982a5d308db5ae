//! Instants in UTC, read from and written as RFC 3339 text, and the time
//! between two of them (through the `chrono` crate).
use vstd::prelude::*;

use crate::decimal::{decimal_int, i64_decimal};
use crate::patterns::{reply_timestamp, reply_timestamp_of};
use crate::text::{chars_of, nth_word, nth_word_exec, string_of};

verus! {

/// An instant in UTC: whole seconds since 1970-01-01T00:00:00Z, not counting
/// leap seconds, and nanoseconds since the last whole second (from 10^9 on
/// during a leap second).
#[derive(Clone, Copy, Debug, PartialEq, Eq, Structural)]
pub struct UtcTime {
    pub secs: i64,
    pub nanos: u32,
}

/// The earliest second that `chrono` represents: -262143-01-01T00:00:00Z.
pub const EARLIEST_SECS: i64 = -8_334_601_228_800;

/// The last second that `chrono` represents: +262142-12-31T23:59:59Z.
pub const LATEST_SECS: i64 = 8_210_266_876_799;

/// The instant is one that `chrono` represents: its second lies in the years
/// that `chrono` covers, and the nanoseconds run past one second only in a
/// leap second (second 59 of a minute), never up to two seconds.
pub open spec fn is_valid_instant(t: UtcTime) -> bool {
    &&& t.nanos < 2_000_000_000
    &&& (t.nanos < 1_000_000_000 || (t.secs % 86400) % 60 == 59)
    &&& EARLIEST_SECS <= t.secs <= LATEST_SECS
}

/// Whether `t` is an instant that `chrono` represents.
pub fn is_valid_instant_exec(t: UtcTime) -> (b: bool)
    ensures
        b == is_valid_instant(t),
{
    if t.secs < EARLIEST_SECS || t.secs > LATEST_SECS || t.nanos >= 2_000_000_000 {
        return false;
    }
    if t.nanos < 1_000_000_000 {
        return true;
    }
    let secs_of_day: i64 = if t.secs >= 0 {
        t.secs % 86400
    } else {
        86399 - (-(t.secs + 1)) % 86400
    };
    assert(secs_of_day == t.secs % 86400) by (nonlinear_arith)
        requires
            t.secs >= 0 ==> secs_of_day == t.secs % 86400,
            t.secs < 0 ==> secs_of_day == 86399 - (-(t.secs + 1)) % 86400,
    ;
    secs_of_day % 60 == 59
}

/// `a / b` rounded toward zero (`b` positive).
pub open spec fn trunc_div(a: int, b: int) -> int {
    if a >= 0 {
        a / b
    } else {
        -((-a) / b)
    }
}

/// Nanoseconds from `earlier` to `later` (for instants outside leap seconds).
pub open spec fn nanos_between(earlier: UtcTime, later: UtcTime) -> int {
    (later.secs - earlier.secs) * 1_000_000_000 + later.nanos - earlier.nanos
}

/// Calls `chrono::DateTime::from_timestamp(secs, nsecs)` and reads the
/// result back as seconds and nanoseconds. There is a result exactly when the
/// instant is one that `chrono` represents (the day must lie in the covered
/// years, and `from_num_seconds_from_midnight_opt` refuses the nanoseconds
/// from two seconds on, or from one second on outside second 59), and it holds
/// `secs` and `nsecs` (the documentation guarantees the round trip).
#[verifier::external_body]
fn utc_from_timestamp(secs: i64, nsecs: u32) -> (r: Option<UtcTime>)
    ensures
        r matches Some(t) ==> t.secs == secs && t.nanos == nsecs,
        r is Some <==> is_valid_instant(UtcTime { secs, nanos: nsecs }),
{
    match chrono::DateTime::from_timestamp(secs, nsecs) {
        Some(t) => Some(UtcTime { secs: t.timestamp(), nanos: t.timestamp_subsec_nanos() }),
        None => None,
    }
}

/// The instant `now_nanos` nanoseconds after the epoch. A negative count must
/// be a whole number of seconds (else the nanosecond part does not fit).
pub fn epoch_todate(now_nanos: i64) -> (t: UtcTime)
    requires
        now_nanos >= 0 || now_nanos % 1_000_000_000 == 0,
    ensures
        t.secs == now_nanos / 1_000_000_000,
        t.nanos == now_nanos % 1_000_000_000,
        t.secs * 1_000_000_000 + t.nanos == now_nanos,
        is_valid_instant(t),
{
    let secs: i64 = if now_nanos >= 0 {
        now_nanos / 1_000_000_000
    } else {
        -((-(now_nanos + 1) + 1) / 1_000_000_000)
    };
    let nanos: u32 = if now_nanos >= 0 {
        (now_nanos % 1_000_000_000) as u32
    } else {
        0
    };
    assert(secs == now_nanos / 1_000_000_000 && nanos == now_nanos % 1_000_000_000) by (nonlinear_arith)
        requires
            now_nanos >= 0 || now_nanos % 1_000_000_000 == 0,
            now_nanos >= 0 ==> secs == now_nanos / 1_000_000_000 && nanos == now_nanos
                % 1_000_000_000,
            now_nanos < 0 ==> secs == -((-now_nanos) / 1_000_000_000) && nanos == 0,
    ;
    assert(secs * 1_000_000_000 + nanos == now_nanos) by (nonlinear_arith)
        requires
            secs == now_nanos / 1_000_000_000,
            nanos == now_nanos % 1_000_000_000,
    ;
    match utc_from_timestamp(secs, nanos) {
        Some(t) => t,
        None => {
            proof {
                assert(false);
            }
            UtcTime { secs, nanos }
        },
    }
}

/// What `chrono::DateTime::parse_from_rfc3339` gives for `text`, as an instant in UTC.
pub uninterp spec fn rfc3339_instant(text: Seq<char>) -> Option<UtcTime>;

/// Calls `chrono::DateTime::parse_from_rfc3339` and reads the instant in UTC.
/// Instants that `chrono` produces are valid ones.
#[verifier::external_body]
fn parse_rfc3339(text: &str) -> (r: Option<UtcTime>)
    ensures
        r == rfc3339_instant(text@),
        r matches Some(t) ==> is_valid_instant(t),
{
    match chrono::DateTime::parse_from_rfc3339(text) {
        Ok(t) => Some(UtcTime { secs: t.timestamp(), nanos: t.timestamp_subsec_nanos() }),
        Err(_) => None,
    }
}

/// The instant that the RFC 3339 text `text` denotes, if it is one.
pub fn instant_of(text: &str) -> (r: Option<UtcTime>)
    ensures
        r == rfc3339_instant(text@),
        r matches Some(t) ==> is_valid_instant(t),
{
    parse_rfc3339(text)
}

/// The instant written in a log line: its fourth white-space separated word,
/// read as RFC 3339 text.
pub open spec fn line_timestamp(line: Seq<char>) -> Option<UtcTime> {
    match nth_word(line, 3) {
        Some(w) => rfc3339_instant(w),
        None => None,
    }
}

/// The instant in the log line `line` (`line.split_whitespace().nth(3)`, parsed
/// as RFC 3339); `None` where the word is missing or is no such text.
pub fn extract_timestamp(line: &str) -> (r: Option<UtcTime>)
    ensures
        r == line_timestamp(line@),
        r matches Some(t) ==> is_valid_instant(t),
{
    match nth_word_exec(&chars_of(line), 3) {
        Some(word) => parse_rfc3339(string_of(&word).as_str()),
        None => None,
    }
}

/// What `chrono`'s `signed_duration_since(..).num_milliseconds()` gives from
/// `earlier` to `later`.
pub uninterp spec fn millis_since(later: UtcTime, earlier: UtcTime) -> i64;

/// What `chrono`'s `(later - earlier).num_microseconds()` gives.
pub uninterp spec fn micros_since(later: UtcTime, earlier: UtcTime) -> Option<i64>;

/// Calls `signed_duration_since` then `num_milliseconds` of `chrono`. Outside
/// leap seconds the result is the nanoseconds between the two instants divided
/// by 10^6, rounded toward zero (the duration is exact; `num_milliseconds`
/// truncates).
#[verifier::external_body]
fn chrono_millis_since(later: UtcTime, earlier: UtcTime) -> (r: i64)
    requires
        is_valid_instant(later),
        is_valid_instant(earlier),
    ensures
        r == millis_since(later, earlier),
        later.nanos < 1_000_000_000 && earlier.nanos < 1_000_000_000 ==> r == trunc_div(
            nanos_between(earlier, later),
            1_000_000,
        ),
{
    let l = chrono::DateTime::from_timestamp(later.secs, later.nanos).unwrap();
    let e = chrono::DateTime::from_timestamp(earlier.secs, earlier.nanos).unwrap();
    l.signed_duration_since(e).num_milliseconds()
}

/// Calls `chrono`'s `later - earlier` then `num_microseconds`. Outside leap
/// seconds, and when the instants are less than 9·10^12 seconds apart, the
/// result is the nanoseconds between them divided by 1000, rounded toward zero.
#[verifier::external_body]
fn chrono_micros_since(later: UtcTime, earlier: UtcTime) -> (r: Option<i64>)
    requires
        is_valid_instant(later),
        is_valid_instant(earlier),
    ensures
        r == micros_since(later, earlier),
        later.nanos < 1_000_000_000 && earlier.nanos < 1_000_000_000 && -9_000_000_000_000
            <= later.secs - earlier.secs <= 9_000_000_000_000 ==> r == Some(
            trunc_div(nanos_between(earlier, later), 1000) as i64,
        ),
{
    let l = chrono::DateTime::from_timestamp(later.secs, later.nanos).unwrap();
    let e = chrono::DateTime::from_timestamp(earlier.secs, earlier.nanos).unwrap();
    (l - e).num_microseconds()
}

/// The milliseconds from `earlier` to `later`.
pub fn duration_millis(earlier: UtcTime, later: UtcTime) -> (r: i64)
    requires
        is_valid_instant(later),
        is_valid_instant(earlier),
    ensures
        r == millis_since(later, earlier),
        later.nanos < 1_000_000_000 && earlier.nanos < 1_000_000_000 ==> r == trunc_div(
            nanos_between(earlier, later),
            1_000_000,
        ),
{
    chrono_millis_since(later, earlier)
}

/// What the caller of a timed function reports: the microseconds from `start`
/// to the instant that the answer holds, as decimal text.
pub open spec fn fan_in_result(reply: Seq<char>, start: UtcTime) -> Option<Seq<char>> {
    match rfc3339_instant(reply_timestamp(reply)) {
        None => None,
        Some(t) => match micros_since(t, start) {
            None => None,
            Some(m) => Some(decimal_int(m as int)),
        },
    }
}

/// The microseconds from `start` to the instant in the answer of a timed
/// function, as text; `None` where the answer holds no instant or the span
/// does not fit in microseconds.
pub fn fan_in_latency(reply: &str, start: UtcTime) -> (r: Option<String>)
    requires
        is_valid_instant(start),
    ensures
        r matches Some(s) ==> fan_in_result(reply@, start) == Some(s@),
        r is None ==> fan_in_result(reply@, start) is None,
        rfc3339_instant(reply_timestamp(reply@)) is None ==> r is None,
        rfc3339_instant(reply_timestamp(reply@)) is Some && latency_measurable(
            start,
            rfc3339_instant(reply_timestamp(reply@)).unwrap(),
        ) ==> r is Some && r.unwrap()@ == decimal_int(
            trunc_div(nanos_between(start, rfc3339_instant(reply_timestamp(reply@)).unwrap()), 1000),
        ),
{
    let text = reply_timestamp_of(reply);
    match parse_rfc3339(text.as_str()) {
        None => None,
        Some(t) => match chrono_micros_since(t, start) {
            None => None,
            Some(m) => {
                proof {
                    if latency_measurable(start, t) {
                        lemma_micros_fit(start, t);
                    }
                }
                Some(string_of(&i64_decimal(m)))
            },
        },
    }
}

/// Both instants lie outside leap seconds and less than 9·10^12 seconds apart,
/// so the microseconds between them are exact and fit in an `i64`.
pub open spec fn latency_measurable(start: UtcTime, t: UtcTime) -> bool {
    &&& start.nanos < 1_000_000_000
    &&& t.nanos < 1_000_000_000
    &&& -9_000_000_000_000 <= t.secs - start.secs <= 9_000_000_000_000
}

/// The microseconds between two such instants fit in an `i64`.
proof fn lemma_micros_fit(start: UtcTime, t: UtcTime)
    requires
        latency_measurable(start, t),
    ensures
        i64::MIN <= trunc_div(nanos_between(start, t), 1000) <= i64::MAX,
{
    let d: int = t.secs - start.secs;
    assert(-9_000_000_000_000 <= d <= 9_000_000_000_000);
    assert(d * 1_000_000_000 <= 9_000_000_000_000 * 1_000_000_000) by (nonlinear_arith)
        requires
            d <= 9_000_000_000_000,
    ;
    assert(d * 1_000_000_000 >= -9_000_000_000_000 * 1_000_000_000) by (nonlinear_arith)
        requires
            d >= -9_000_000_000_000,
    ;
}

/// What `to_rfc3339_opts(SecondsFormat::Nanos, true)` of `chrono` writes for the instant.
pub uninterp spec fn rfc3339_nanos_text(t: UtcTime) -> Seq<char>;

/// Calls `chrono`'s `to_rfc3339_opts(SecondsFormat::Nanos, true)`: the instant
/// in RFC 3339 with nine fractional digits and a `Z`.
#[verifier::external_body]
fn format_rfc3339_nanos(t: UtcTime) -> (r: String)
    requires
        is_valid_instant(t),
    ensures
        r@ == rfc3339_nanos_text(t),
{
    chrono::DateTime::from_timestamp(t.secs, t.nanos).unwrap().to_rfc3339_opts(
        chrono::SecondsFormat::Nanos,
        true,
    )
}

/// The RFC 3339 text (nine fractional digits, `Z`) of the instant `t`.
pub fn timestamp_text(t: UtcTime) -> (r: String)
    requires
        is_valid_instant(t),
    ensures
        r@ == rfc3339_nanos_text(t),
{
    format_rfc3339_nanos(t)
}

} // verus!
