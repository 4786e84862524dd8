//! Kernel timestamps as wall-clock time.
//!
//! Kernel events carry monotonic nanoseconds. An offset, sampled once, maps them to
//! nanoseconds since the Unix epoch.

use crate::bytes::{as_signed64, pattern32, pattern64, signed64};
use crate::text::{digit_char, push_text};
use vstd::prelude::*;

verus! {

/// `a / b`, rounded toward zero.
pub open spec fn quotient(a: int, b: int) -> int {
    if a >= 0 {
        a / b
    } else {
        -((-a) / b)
    }
}

/// What `quotient` leaves of `a`; it has the sign of `a`.
pub open spec fn remainder(a: int, b: int) -> int {
    if a >= 0 {
        a % b
    } else {
        -((-a) % b)
    }
}

/// Whether a kernel timestamp and an offset make a time that can be computed with.
pub open spec fn is_wall_time(ts_ns: u64, offset_ns: i128) -> bool {
    i128::MIN <= ts_ns + offset_ns <= i128::MAX
}

/// The whole seconds of a kernel timestamp since the epoch, their lowest 64 bits.
pub open spec fn wall_secs(ts_ns: u64, offset_ns: i128) -> i64 {
    signed64(pattern64(quotient(ts_ns + offset_ns, 1_000_000_000))) as i64
}

/// The nanoseconds behind the whole seconds of a kernel timestamp, as a bit pattern.
pub open spec fn wall_nanos(ts_ns: u64, offset_ns: i128) -> u32 {
    pattern32(remainder(ts_ns + offset_ns, 1_000_000_000)) as u32
}

/// The milliseconds of a kernel timestamp since the epoch, their lowest 64 bits.
pub open spec fn wall_millis(ts_ns: u64, offset_ns: i128) -> i64 {
    signed64(pattern64(quotient(ts_ns + offset_ns, 1_000_000))) as i64
}

/// Nanoseconds to add to a monotonic time to get the time since the epoch, by a reading
/// of both clocks.
pub fn clock_offset_ns(real_sec: i64, real_nsec: i64, mono_sec: i64, mono_nsec: i64) -> (r: i128)
    ensures
        r == (real_sec * 1_000_000_000 + real_nsec) - (mono_sec * 1_000_000_000 + mono_nsec),
{
    (real_sec as i128 * 1_000_000_000 + real_nsec as i128) - (mono_sec as i128 * 1_000_000_000
        + mono_nsec as i128)
}

/// The lowest 64 bits of `n`, as a signed number.
fn low64(n: i128) -> (r: i64)
    ensures
        r == signed64(pattern64(n as int)),
{
    let rem: i128 = n % 0x1_0000_0000_0000_0000;
    let bits: u64 = if rem < 0 {
        (rem + 0x1_0000_0000_0000_0000) as u64
    } else {
        rem as u64
    };
    as_signed64(bits)
}

/// A kernel timestamp as seconds since the epoch and nanoseconds behind them.
pub fn wall_clock(ts_ns: u64, offset_ns: i128) -> (r: (i64, u32))
    requires
        is_wall_time(ts_ns, offset_ns),
    ensures
        r.0 == wall_secs(ts_ns, offset_ns),
        r.1 == wall_nanos(ts_ns, offset_ns),
{
    let wall_ns: i128 = ts_ns as i128 + offset_ns;
    let secs: i128 = wall_ns / 1_000_000_000;
    let nanos: i128 = wall_ns % 1_000_000_000;
    (low64(secs), if nanos < 0 {
        (nanos + 0x1_0000_0000) as u32
    } else {
        nanos as u32
    })
}

/// A kernel timestamp as milliseconds since the epoch.
pub fn wall_ms(ts_ns: u64, offset_ns: i128) -> (r: i64)
    requires
        is_wall_time(ts_ns, offset_ns),
    ensures
        r == wall_millis(ts_ns, offset_ns),
{
    let millis: i128 = (ts_ns as i128 + offset_ns) / 1_000_000;
    low64(millis)
}

/// `n` in two decimal digits.
pub open spec fn two_digits(n: int) -> Seq<char> {
    seq![digit_char((n / 10) as nat), digit_char((n % 10) as nat)]
}

/// `n` in three decimal digits.
pub open spec fn three_digits(n: int) -> Seq<char> {
    seq![digit_char((n / 100) as nat)] + two_digits(n % 100)
}

/// Whether the calendar has that instant: its year lies from -262143 to 262142, and more
/// than a second of nanoseconds (a leap second) stands only at the end of a minute.
pub open spec fn in_calendar(secs: i64, nanos: u32) -> bool {
    &&& -8_334_601_228_800 <= secs <= 8_210_266_876_799
    &&& nanos < 2_000_000_000
    &&& nanos >= 1_000_000_000 ==> secs as int % 60 == 59
}

/// The time of day `HH:MM:SS.mmm` of an instant, `east` seconds east of UTC.
pub open spec fn time_of_day(secs: i64, nanos: u32, east: i32) -> Seq<char> {
    let t = (secs + east) % 86_400;
    let ns = nanos as int;
    two_digits(t / 3600) + seq![':'] + two_digits(t / 60 % 60) + seq![':'] + two_digits(
        t % 60 + ns / 1_000_000_000,
    ) + seq!['.'] + three_digits(ns / 1_000_000 % 1000)
}

/// How `chrono` is asked to write a time of day: `HH:MM:SS.mmm`.
pub const CLOCK_FORMAT: &'static str = "%H:%M:%S%.3f";

/// Formats an instant with `chrono`: `DateTime::from_timestamp` gives nothing outside the
/// calendar; else `with_timezone` for a `FixedOffset` and `format` with [`CLOCK_FORMAT`]
/// give the time of day there.
#[verifier::external_body]
fn chrono_clock(secs: i64, nanos: u32, east: i32, format: &str) -> (r: Option<String>)
    requires
        -86_400 < east < 86_400,
        format@ == CLOCK_FORMAT@,
    ensures
        match r {
            Some(s) => in_calendar(secs, nanos) && s@ == time_of_day(secs, nanos, east),
            None => !in_calendar(secs, nanos),
        },
{
    let zone = chrono::FixedOffset::east_opt(east)?;
    let at = chrono::DateTime::from_timestamp(secs, nanos)?;
    Some(at.with_timezone(&zone).format(format).to_string())
}

/// The clock text of a kernel timestamp, `east` seconds east of UTC.
pub open spec fn clock_text(ts_ns: u64, offset_ns: i128, east: i32) -> Seq<char> {
    let secs = wall_secs(ts_ns, offset_ns);
    let nanos = wall_nanos(ts_ns, offset_ns);
    if in_calendar(secs, nanos) {
        time_of_day(secs, nanos, east)
    } else {
        "--:--:--.---"@
    }
}

/// Writes a kernel timestamp into `out` as local wall-clock `HH:MM:SS.mmm`, where local
/// time is `east` seconds east of UTC.
pub fn write_timestamp(out: &mut String, ts_ns: u64, offset_ns: i128, east: i32)
    requires
        is_wall_time(ts_ns, offset_ns),
        -86_400 < east < 86_400,
    ensures
        final(out)@ == old(out)@ + clock_text(ts_ns, offset_ns, east),
{
    let (secs, nanos): (i64, u32) = wall_clock(ts_ns, offset_ns);
    match chrono_clock(secs, nanos, east, CLOCK_FORMAT) {
        Some(text) => push_text(out, &text),
        None => push_text(out, "--:--:--.---"),
    }
}

} // verus!
