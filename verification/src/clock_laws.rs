//! Laws of time: what the wall clock shows of a kernel timestamp.

use crate::clock::{
    clock_offset_ns, clock_text, three_digits, two_digits, wall_clock, wall_ms, wall_nanos,
    wall_secs, write_timestamp,
};
use crate::text::{digit_char, digit_value, digits_value};
use vstd::prelude::*;

verus! {

/// The wall-clock time of an event is its kernel time and the offset: the seconds and the
/// nanoseconds behind them make it up, and the milliseconds are all the whole ones in it.
pub proof fn law_wall_time(ts_ns: u64, offset_ns: i128, at: (i64, u32), ms: i64)
    requires
        0 <= ts_ns + offset_ns < 0x8000_0000_0000_0000 * 1_000_000,
        call_ensures(wall_clock, (ts_ns, offset_ns), at),
        call_ensures(wall_ms, (ts_ns, offset_ns), ms),
    ensures
        at.0 * 1_000_000_000 + at.1 == ts_ns + offset_ns,
        at.1 < 1_000_000_000,
        ms * 1_000_000 <= ts_ns + offset_ns < (ms + 1) * 1_000_000,
{
}

/// An offset that was sampled takes the monotonic clock to the real one.
pub proof fn law_offset_joins_the_clocks(
    real_sec: i64,
    real_nsec: i64,
    mono_sec: i64,
    mono_nsec: i64,
    r: i128,
)
    requires
        call_ensures(clock_offset_ns, (real_sec, real_nsec, mono_sec, mono_nsec), r),
    ensures
        mono_sec * 1_000_000_000 + mono_nsec + r == real_sec * 1_000_000_000 + real_nsec,
{
}

/// The console's clock reads as the local time of the event: twelve characters, whose
/// digits are the hour, the minute, the second and the millisecond of the local day.
pub proof fn law_clock_reads_as_local_time(
    out: &mut String,
    ts_ns: u64,
    offset_ns: i128,
    east: i32,
    secs: int,
    nanos: int,
)
    requires
        -86_400 < east < 86_400,
        0 <= secs <= 8_210_266_876_799,
        0 <= nanos < 1_000_000_000,
        ts_ns + offset_ns == secs * 1_000_000_000 + nanos,
        call_ensures(write_timestamp, (out, ts_ns, offset_ns, east), ()),
    ensures
        final(out)@.len() == old(out)@.len() + 12,
        final(out)@.take(old(out)@.len() as int) == old(out)@,
        ({
            let t = final(out)@.skip(old(out)@.len() as int);
            let h = digits_value(t.subrange(0, 2));
            let m = digits_value(t.subrange(3, 5));
            let s = digits_value(t.subrange(6, 8));
            &&& t[2] == ':' && t[5] == ':' && t[8] == '.'
            &&& h < 24 && m < 60 && s < 60
            &&& h * 3600 + m * 60 + s == (secs + east) % 86_400
            &&& digits_value(t.subrange(9, 12)) == nanos / 1_000_000
        }),
{
    assert(wall_secs(ts_ns, offset_ns) == secs && wall_nanos(ts_ns, offset_ns) == nanos);
    let text = clock_text(ts_ns, offset_ns, east);
    let t = final(out)@.skip(old(out)@.len() as int);
    assert(t =~= text);
    assert(final(out)@.take(old(out)@.len() as int) =~= old(out)@);
    let day = (secs + east) % 86_400;
    lemma_two(day / 3600);
    lemma_two(day / 60 % 60);
    lemma_two(day % 60);
    lemma_three(nanos / 1_000_000 % 1000);
    assert(t.subrange(0, 2) =~= two_digits(day / 3600));
    assert(t.subrange(3, 5) =~= two_digits(day / 60 % 60));
    assert(t.subrange(6, 8) =~= two_digits(day % 60));
    assert(t.subrange(9, 12) =~= three_digits(nanos / 1_000_000 % 1000));
}

proof fn lemma_digit(d: nat)
    requires
        d < 10,
    ensures
        digit_value(digit_char(d)) == d,
{
}

proof fn lemma_two(n: int)
    requires
        0 <= n < 100,
    ensures
        two_digits(n).len() == 2,
        digits_value(two_digits(n)) == n,
{
    lemma_digit((n / 10) as nat);
    lemma_digit((n % 10) as nat);
    let s = two_digits(n);
    let one = s.drop_last();
    assert(one.drop_last() =~= Seq::<char>::empty());
    assert(digits_value(one.drop_last()) == 0);
    assert(digits_value(one) == n / 10);
}

proof fn lemma_three(n: int)
    requires
        0 <= n < 1000,
    ensures
        three_digits(n).len() == 3,
        digits_value(three_digits(n)) == n,
{
    lemma_digit((n / 100) as nat);
    lemma_digit((n % 100 / 10) as nat);
    lemma_digit((n % 100 % 10) as nat);
    let s = three_digits(n);
    let two = s.drop_last();
    let one = two.drop_last();
    assert(one.drop_last() =~= Seq::<char>::empty());
    assert(digits_value(one.drop_last()) == 0);
    assert(digits_value(one) == n / 100);
    assert(digits_value(two) == n / 100 * 10 + n % 100 / 10);
}

/// A time that the calendar does not have is shown as dashes.
pub proof fn law_time_out_of_the_calendar(
    out: &mut String,
    ts_ns: u64,
    offset_ns: i128,
    east: i32,
    secs: int,
    nanos: int,
)
    requires
        -86_400 < east < 86_400,
        8_210_266_876_799 < secs <= i64::MAX,
        0 <= nanos < 1_000_000_000,
        ts_ns + offset_ns == secs * 1_000_000_000 + nanos,
        call_ensures(write_timestamp, (out, ts_ns, offset_ns, east), ()),
    ensures
        final(out)@ == old(out)@ + "--:--:--.---"@,
{
    assert(wall_secs(ts_ns, offset_ns) == secs && wall_nanos(ts_ns, offset_ns) == nanos);
}

/// Before the epoch, the milliseconds and the seconds are those toward it, and a time that
/// is no whole second is shown as dashes.
pub proof fn law_time_before_the_epoch(
    out: &mut String,
    ts_ns: u64,
    offset_ns: i128,
    east: i32,
    at: (i64, u32),
    ms: i64,
)
    requires
        -86_400 < east < 86_400,
        -0x8000_0000_0000_0000 * 1_000_000 <= ts_ns + offset_ns < 0,
        call_ensures(wall_clock, (ts_ns, offset_ns), at),
        call_ensures(wall_ms, (ts_ns, offset_ns), ms),
        call_ensures(write_timestamp, (out, ts_ns, offset_ns, east), ()),
    ensures
        (ms - 1) * 1_000_000 < ts_ns + offset_ns <= ms * 1_000_000,
        (at.0 - 1) * 1_000_000_000 < ts_ns + offset_ns <= at.0 * 1_000_000_000,
        at.0 * 1_000_000_000 != ts_ns + offset_ns ==> final(out)@ == old(out)@ + "--:--:--.---"@,
{
    let t = ts_ns + offset_ns;
    let rem = -((-t) % 1_000_000_000);
    if at.0 * 1_000_000_000 != t {
        assert(rem != 0);
        assert(wall_nanos(ts_ns, offset_ns) == 0x1_0000_0000 + rem);
    }
}

} // verus!
