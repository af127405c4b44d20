//! Points in time and durations, as seconds and nanoseconds.
//!
//! The values come from the traced program, which may hand over anything, so
//! arithmetic on them wraps instead of stopping the tracer.

use vstd::prelude::*;
use crate::bytes::{
    le64, le64_bytes, put, read_u64, u64_at, u64_bytes, u64_round_trip, write_u64,
};

verus! {

/// A point in time, or a duration, in (seconds, nanoseconds).
pub type Time = (i64, i64);

pub const NANOS: i64 = 1_000_000_000;

/// The nanoseconds that a time stands for.
pub open spec fn nanos(t: Time) -> int {
    t.0 * NANOS + t.1
}

/// The nanosecond part is less than a second.
pub open spec fn normal(t: Time) -> bool {
    0 <= t.1 < NANOS
}

/// `a` comes before `b`.
pub open spec fn before(a: Time, b: Time) -> bool {
    a.0 < b.0 || (a.0 == b.0 && a.1 < b.1)
}

/// `a + b`, with one carry out of the nanoseconds.
pub open spec fn sum(a: Time, b: Time) -> Time {
    let seconds = a.0.wrapping_add(b.0);
    let nanoseconds = a.1.wrapping_add(b.1);
    if nanoseconds >= NANOS {
        (seconds.wrapping_add(1), (nanoseconds - NANOS) as i64)
    } else {
        (seconds, nanoseconds)
    }
}

/// `a - b`, with one borrow into the nanoseconds, or nothing where that is negative.
pub open spec fn difference(a: Time, b: Time) -> Time {
    let seconds = a.0.wrapping_sub(b.0);
    let nanoseconds = a.1.wrapping_sub(b.1);
    let (s, n) = if nanoseconds < 0 {
        (seconds.wrapping_sub(1), (nanoseconds + NANOS) as i64)
    } else {
        (seconds, nanoseconds)
    };
    if s < 0 { (0i64, 0i64) } else { (s, n) }
}

/// Whether `a` comes before `b`.
pub fn earlier(a: Time, b: Time) -> (r: bool)
    ensures
        r == before(a, b),
{
    a.0 < b.0 || (a.0 == b.0 && a.1 < b.1)
}

/// `a + b`.
pub fn add(a: Time, b: Time) -> (t: Time)
    ensures
        t == sum(a, b),
{
    let mut seconds = a.0.wrapping_add(b.0);
    let mut nanoseconds = a.1.wrapping_add(b.1);
    if nanoseconds >= NANOS {
        nanoseconds = nanoseconds - NANOS;
        seconds = seconds.wrapping_add(1);
    }
    (seconds, nanoseconds)
}

/// `a - b`, clamped at zero: a deadline that has passed has nothing left.
pub fn sub(a: Time, b: Time) -> (t: Time)
    ensures
        t == difference(a, b),
{
    let mut seconds = a.0.wrapping_sub(b.0);
    let mut nanoseconds = a.1.wrapping_sub(b.1);
    if nanoseconds < 0 {
        nanoseconds = nanoseconds + NANOS;
        seconds = seconds.wrapping_sub(1);
    }
    if seconds < 0 {
        return (0, 0);
    }
    (seconds, nanoseconds)
}

/// The bytes of a `struct timespec`.
pub open spec fn time_bytes(t: Time) -> Seq<u8> {
    le64_bytes(t.0 as u64) + le64_bytes(t.1 as u64)
}

/// The `struct timespec` at `offset`.
pub open spec fn time_at(b: Seq<u8>, offset: int) -> Time {
    (le64(b, offset) as i64, le64(b, offset + 8) as i64)
}

/// The signed sixty-four-bit number at `offset`, in the byte order of the machine.
pub fn rd64(bytes: &[u8], offset: usize) -> (v: i64)
    requires
        offset + 8 <= bytes.len(),
    ensures
        v == le64(bytes@, offset as int) as i64,
{
    reveal(u64_at);
    read_u64(bytes, offset, true) as i64
}

/// Append `value` as a `struct timespec`.
pub fn push_time(out: &mut Vec<u8>, value: Time)
    ensures
        final(out)@ == old(out)@ + time_bytes(value),
{
    reveal(u64_bytes);
    let mut raw: [u8; 16] = [0; 16];
    write_u64(&mut raw, 0, value.0 as u64, true);
    write_u64(&mut raw, 8, value.1 as u64, true);
    assert(raw@ =~= time_bytes(value));
    out.extend_from_slice(&raw);
    assert(out@ =~= old(out)@ + time_bytes(value));
}

/// The `struct timespec` at `offset`.
pub fn read_time(bytes: &[u8], offset: usize) -> (t: Time)
    requires
        offset + 16 <= bytes.len(),
    ensures
        t == time_at(bytes@, offset as int),
{
    (rd64(bytes, offset), rd64(bytes, offset + 8))
}

/// The first multiple of the interval, counted from `following`, that `now` has
/// not reached, and how many there were up to it. The count stops at the limit
/// of thirty-two bits.
pub open spec fn catch_up(now: Time, following: Time, interval: Time, count: u64) -> (u64, Time)
    decreases u32::MAX - count,
{
    if !before(now, following) && count < u32::MAX {
        catch_up(now, sum(following, interval), interval, (count + 1) as u64)
    } else {
        (count, following)
    }
}

/// What a timer that was due at `deadline` reports at `now`: the number of
/// expirations, and the next deadline where there is an interval.
pub open spec fn expired(deadline: Time, interval: Time, now: Time) -> (u64, Option<Time>) {
    if interval == (0i64, 0i64) {
        (1, None)
    } else {
        let (count, next) = catch_up(now, sum(deadline, interval), interval, 1);
        (count, Some(next))
    }
}

/// Count the periods of a timer that have passed by `now`. An interval timer may
/// have missed several while the tracer was busy; they are reported together,
/// the way the real counter does.
pub fn expirations(deadline: Time, interval: Time, now: Time) -> (r: (u64, Option<Time>))
    ensures
        r == expired(deadline, interval, now),
{
    if interval.0 == 0 && interval.1 == 0 {
        return (1, None);
    }
    let mut count: u64 = 1;
    let mut following = self::add(deadline, interval);
    while !earlier(now, following) && count < u32::MAX as u64
        invariant
            1 <= count <= u32::MAX,
            catch_up(now, following, interval, count) == catch_up(
                now,
                sum(deadline, interval),
                interval,
                1,
            ),
        decreases u32::MAX - count,
    {
        following = self::add(following, interval);
        count = count + 1;
    }
    (count, Some(following))
}

/// The quotient, cut off toward zero.
pub open spec fn truncated(n: int, d: int) -> int {
    if n >= 0 { n / d } else { -((-n) / d) }
}

/// A duration in milliseconds, brought into the range from -1 to the largest
/// thirty-two-bit number.
pub open spec fn millis(t: Time) -> i32 {
    let ms = t.0 * 1000 + truncated(t.1 as int, 1_000_000);
    (if ms < -1 { -1 } else if ms > i32::MAX { i32::MAX as int } else { ms }) as i32
}

/// The timeout of `poll` for the timeout `t` of `ppoll`.
pub fn poll_timeout(t: Time) -> (ms: i32)
    ensures
        ms == millis(t),
{
    let exact: i128 = t.0 as i128 * 1000 + (t.1 / 1_000_000) as i128;
    if exact < -1 {
        -1
    } else if exact > i32::MAX as i128 {
        i32::MAX
    } else {
        exact as i32
    }
}

/// On times in normal form whose sum fits, addition is that of the nanoseconds.
pub proof fn sum_is_exact(a: Time, b: Time)
    requires
        normal(a),
        normal(b),
        i64::MIN <= a.0 + b.0 < i64::MAX,
    ensures
        nanos(sum(a, b)) == nanos(a) + nanos(b),
        normal(sum(a, b)),
{
}

/// On times in normal form, subtraction is that of the nanoseconds, and zero
/// where nothing is left.
pub proof fn difference_is_exact(a: Time, b: Time)
    requires
        normal(a),
        normal(b),
        i64::MIN < a.0 - b.0 <= i64::MAX,
    ensures
        nanos(difference(a, b)) == if nanos(a) < nanos(b) { 0 } else { nanos(a) - nanos(b) },
        normal(difference(a, b)),
{
}

/// The order of times in normal form is that of the nanoseconds.
pub proof fn before_is_exact(a: Time, b: Time)
    requires
        normal(a),
        normal(b),
    ensures
        before(a, b) <==> nanos(a) < nanos(b),
{
}

/// A timer that is set to go off after `value` has `value` left at that moment.
pub proof fn set_leaves_all(now: Time, value: Time)
    requires
        normal(now),
        normal(value),
        0 <= value.0,
        now.0 + value.0 < i64::MAX,
    ensures
        difference(sum(now, value), now) == value,
{
}

proof fn catch_up_counts(now: Time, following: Time, interval: Time, count: u64)
    requires
        normal(now),
        normal(following),
        normal(interval),
        0 <= interval.0,
        0 < nanos(interval),
        now.0 + interval.0 + 1 < i64::MAX,
        i64::MIN <= following.0 <= now.0 + interval.0 + 1,
        count <= u32::MAX,
    ensures
        ({
            let (c, next) = catch_up(now, following, interval, count);
            &&& count <= c <= u32::MAX
            &&& normal(next)
            &&& nanos(next) == nanos(following) + (c - count) * nanos(interval)
            &&& c < u32::MAX ==> before(now, next)
            &&& c > count ==> nanos(next) - nanos(interval) <= nanos(now)
        }),
    decreases u32::MAX - count,
{
    if !before(now, following) && count < u32::MAX {
        before_is_exact(now, following);
        sum_is_exact(following, interval);
        let next = sum(following, interval);
        catch_up_counts(now, next, interval, (count + 1) as u64);
        let (c, last) = catch_up(now, next, interval, (count + 1) as u64);
        let period = nanos(interval);
        assert((c - count) * period == (c - (count + 1)) * period + period) by (nonlinear_arith);
        if c == count + 1 {
            assert((c - (count + 1)) * period == 0) by (nonlinear_arith)
                requires
                    c == count + 1,
            ;
        }
    } else {
        assert((count - count) * nanos(interval) == 0) by (nonlinear_arith);
    }
}

/// A timer with an interval that is due moves by exactly as many periods as it
/// reports, to the first deadline that lies ahead; only a count that has
/// reached its limit leaves it behind. `deadline` is not after `now`, and the
/// deadline one period ahead of `now` can be expressed.
pub proof fn periods_are_counted(deadline: Time, interval: Time, now: Time)
    requires
        normal(now),
        normal(deadline),
        normal(interval),
        0 <= interval.0,
        0 < nanos(interval),
        !before(now, deadline),
        now.0 + interval.0 + 1 < i64::MAX,
    ensures
        ({
            let (count, next) = expired(deadline, interval, now);
            &&& next is Some
            &&& 1 <= count <= u32::MAX
            &&& nanos(next->0) == nanos(deadline) + count * nanos(interval)
            &&& nanos(next->0) - nanos(interval) <= nanos(now)
            &&& count < u32::MAX ==> before(now, next->0)
        }),
{
    sum_is_exact(deadline, interval);
    before_is_exact(now, deadline);
    catch_up_counts(now, sum(deadline, interval), interval, 1);
    let (count, next) = catch_up(now, sum(deadline, interval), interval, 1);
    let period = nanos(interval);
    assert(count * period == (count - 1) * period + period) by (nonlinear_arith);
    assert((1 - 1) * period == 0) by (nonlinear_arith);
    if count == 1 {
        assert((count - 1) * period == 0) by (nonlinear_arith)
            requires
                count == 1,
        ;
    }
}

/// A timer without an interval expires once and has no next deadline, whenever it is looked
/// at. One with an interval always has a next deadline; where that is still ahead it expired
/// once.
pub proof fn one_shots_expire_once(deadline: Time, interval: Time, now: Time)
    ensures
        expired(deadline, (0i64, 0i64), now) == (1u64, None::<Time>),
        interval.0 != 0 || interval.1 != 0 ==> expired(deadline, interval, now).1 is Some,
        (interval.0 != 0 || interval.1 != 0) && before(now, sum(deadline, interval)) ==> expired(
            deadline,
            interval,
            now,
        ) == (1u64, Some(sum(deadline, interval))),
{
}

/// What `push_time` wrote, `read_time` gives back.
pub proof fn time_round_trip(t: Time)
    ensures
        time_at(time_bytes(t), 0) == t,
{
    let b = time_bytes(t);
    u64_round_trip(b, 0, t.0 as u64, true);
    u64_round_trip(b, 8, t.1 as u64, true);
    assert(put(b, 0, le64_bytes(t.0 as u64)) =~= b);
    assert(put(b, 8, le64_bytes(t.1 as u64)) =~= b);
    assert(le64(b, 0) == t.0 as u64 && le64(b, 8) == t.1 as u64) by {
        reveal(u64_at);
        reveal(u64_bytes);
    }
    let s = t.0;
    let n = t.1;
    assert((s as u64) as i64 == s) by (bit_vector);
    assert((n as u64) as i64 == n) by (bit_vector);
}

}
