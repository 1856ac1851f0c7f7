//! Chat records broadcast to a room, and their plain-text rendering.
use vstd::prelude::*;
use crate::text::{decimal, digit, push_decimal};
use std::time::{Duration, SystemTime, SystemTimeError};

verus! {

/// `std::time::SystemTime`, carried opaquely.
#[verifier::external_type_specification]
#[verifier::external_body]
pub struct ExSystemTime(SystemTime);

/// `std::time::SystemTimeError`, carried opaquely.
#[verifier::external_type_specification]
#[verifier::external_body]
pub struct ExSystemTimeError(SystemTimeError);

/// Relies on `SystemTime::now`: reads the system clock; nothing is known of the value.
pub assume_specification[ SystemTime::now ]() -> SystemTime;

/// Relies on `SystemTime::duration_since`: the time elapsed since `earlier`, or an
/// error when `earlier` is later; nothing is known of either.
pub assume_specification[ SystemTime::duration_since ](
    t: &SystemTime,
    earlier: SystemTime,
) -> Result<Duration, SystemTimeError>;

/// Relies on `Duration::as_millis`: the whole milliseconds of a duration.
pub assume_specification[ Duration::as_millis ](d: &Duration) -> u128;

/// Relies on `std::time::UNIX_EPOCH`: the instant 1970-01-01 00:00:00 UTC.
#[verifier::external_body]
fn unix_epoch() -> SystemTime {
    std::time::UNIX_EPOCH
}

/// The UTC calendar date and time of a count of seconds since the epoch, as
/// `YYYY-MM-DD HH:MM:SS`.
pub uninterp spec fn utc_seconds_text(secs: int) -> Seq<char>;

/// Relies on chrono's `Utc.timestamp_opt(secs, 0)` and `DateTime::format` with
/// `%Y-%m-%d %H:%M:%S`: the UTC date and time of `secs` seconds after the epoch.
/// chrono's dates span the years -262143 to 262142, which holds every count of
/// seconds up to 8 * 10^12 either way.
#[verifier::external_body]
fn utc_seconds(secs: i64) -> (r: Option<String>)
    ensures
        r is Some ==> r->0@ == utc_seconds_text(secs as int),
        -8_000_000_000_000 <= secs <= 8_000_000_000_000 ==> r is Some,
{
    match chrono::TimeZone::timestamp_opt(&chrono::Utc, secs, 0).single() {
        Some(t) => Some(t.format("%Y-%m-%d %H:%M:%S").to_string()),
        None => None,
    }
}

/// One message broadcast to a room: its text and the time it was sent, in
/// milliseconds since the epoch.
#[derive(Clone, Debug)]
pub struct ChatMessage {
    pub message: String,
    pub timestamp: i64,
}

/// A clock reading as a timestamp: the milliseconds elapsed since the
/// epoch, capped at `i64::MAX`; 0 where the clock read before the epoch
/// (`None`).
pub fn millis_from_elapsed(elapsed: Option<u128>) -> (r: i64)
    ensures
        r == match elapsed {
            None => 0,
            Some(ms) => if ms > i64::MAX as u128 {
                i64::MAX as int
            } else {
                ms as int
            },
        },
{
    match elapsed {
        Some(ms) => {
            if ms > i64::MAX as u128 {
                i64::MAX
            } else {
                ms as i64
            }
        },
        None => 0,
    }
}

/// Milliseconds since the epoch by the system clock, as
/// `millis_from_elapsed` reads them.
pub fn clock_millis() -> (r: i64)
    ensures
        r >= 0,
{
    let elapsed = match SystemTime::now().duration_since(unix_epoch()) {
        Ok(d) => Some(d.as_millis()),
        Err(_) => None,
    };
    millis_from_elapsed(elapsed)
}

impl ChatMessage {
    /// A message with the given text, stamped with the current time.
    pub fn new(message: String) -> (r: ChatMessage)
        ensures
            r.message@ == message@,
            r.timestamp >= 0,
    {
        ChatMessage { message, timestamp: clock_millis() }
    }
}

/// The three digits of a millisecond count below 1000.
pub open spec fn three_digits(ms: nat) -> Seq<char> {
    seq![digit(ms / 100), digit((ms / 10) % 10), digit(ms % 10)]
}

/// `[<date> <time>.<mmm> UTC] <body>`.
pub open spec fn fallback_spec(date_time: Seq<char>, ms: nat, body: Seq<char>) -> Seq<char> {
    seq!['['] + date_time + seq!['.'] + three_digits(ms) + " UTC] "@ + body
}

/// Renders a message as plain text, given the date and time of its second.
pub fn render_fallback(date_time: &str, ms: u16, body: &str) -> (r: String)
    requires
        ms < 1000,
    ensures
        r@ == fallback_spec(date_time@, ms as nat, body@),
{
    let mut out = String::new();
    proof {
        reveal_strlit("[");
        reveal_strlit(".");
        reveal_strlit(" UTC] ");
    }
    out.append("[");
    out.append(date_time);
    out.append(".");
    let m = ms as usize;
    if m < 100 {
        out.append("0");
        proof {
            reveal_strlit("0");
        }
    }
    if m < 10 {
        out.append("0");
    }
    push_decimal(&mut out, m);
    out.append(" UTC] ");
    out.append(body);
    proof {
        reveal_strlit("0");
        let mm = m as nat;
        if mm >= 100 {
            assert(decimal(mm / 10) == decimal(mm / 10 / 10) + seq![digit((mm / 10) % 10)]);
            assert(decimal(mm / 10 / 10) == seq![digit(mm / 100)]);
        } else if mm >= 10 {
            assert(decimal(mm / 10) == seq![digit(mm / 10)]);
        }
    }
    assert(out@ =~= fallback_spec(date_time@, ms as nat, body@));
    out
}

/// The whole seconds (rounded down) and the remaining milliseconds of a
/// millisecond timestamp.
pub fn split_millis(ts: i64) -> (r: (i64, u16))
    ensures
        r.0 == ts as int / 1000,
        r.1 == ts as int % 1000,
{
    if ts >= 0 {
        (ts / 1000, (ts % 1000) as u16)
    } else {
        let a = -(ts + 1);
        (-(a / 1000) - 1, (999 - a % 1000) as u16)
    }
}

/// The plain-text form of a message, `[YYYY-MM-DD HH:MM:SS.mmm UTC] <body>`
/// in UTC; `None` where the calendar cannot hold its time.
pub fn fallback_text(msg: &ChatMessage) -> (r: Option<String>)
    ensures
        r is Some ==> r->0@ == fallback_spec(
            utc_seconds_text(msg.timestamp as int / 1000),
            (msg.timestamp as int % 1000) as nat,
            msg.message@,
        ),
        -8_000_000_000_000_000 <= msg.timestamp <= 8_000_000_000_000_000 ==> r is Some,
{
    let (secs, ms) = split_millis(msg.timestamp);
    match utc_seconds(secs) {
        Some(dt) => Some(render_fallback(dt.as_str(), ms, msg.message.as_str())),
        None => None,
    }
}

} // verus!
