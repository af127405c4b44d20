//! What the numbers, addresses and times that are passed around are, in plain arithmetic.

use vstd::prelude::*;
use crate::abi::{calling, failed, renumbered, scratch, Call, Regs};
use crate::bytes::{
    le16, le16_bytes, le32, le32_bytes, le64, le64_bytes, put, u16_at, u16_bytes, u32_at,
    u32_bytes, u64_at, u64_bytes,
};
use crate::kernel::{clock_for, fallback_clock, lt, older, Kernel, Version};
use crate::protocol::Event;
use crate::statx::{fields_are_carried_over, major, minor, stat_in, statx_of};
use crate::termios::{speed, speed_fields};
use crate::time::{difference, sum, time_at, time_bytes, Time};

verus! {

/// A number is read at its place by its bytes, the first counting least or most.
pub proof fn numbers_are_read_by_bytes(b: Seq<u8>, o: int)
    ensures
        u16_at(b, o, true) == b[o] + b[o + 1] * 256,
        u16_at(b, o, false) == b[o + 1] + b[o] * 256,
        u32_at(b, o, true) == b[o] + b[o + 1] * 256 + b[o + 2] * 65536 + b[o + 3] * 16777216,
        u32_at(b, o, false) == b[o + 3] + b[o + 2] * 256 + b[o + 1] * 65536 + b[o] * 16777216,
        u64_at(b, o, true) == b[o] + b[o + 1] * 256 + b[o + 2] * 65536 + b[o + 3] * 16777216
            + 0x1_0000_0000 * (b[o + 4] + b[o + 5] * 256 + b[o + 6] * 65536 + b[o + 7] * 16777216),
        u64_at(b, o, false) == b[o + 7] + b[o + 6] * 256 + b[o + 5] * 65536 + b[o + 4] * 16777216
            + 0x1_0000_0000 * (b[o + 3] + b[o + 2] * 256 + b[o + 1] * 65536 + b[o] * 16777216),
        le16(b, o) == u16_at(b, o, true),
        le32(b, o) == u32_at(b, o, true),
        le64(b, o) == u64_at(b, o, true),
{
    reveal(u16_at);
    reveal(u32_at);
    reveal(u64_at);
}

/// A number is written as many bytes as it has, each holding one digit of it to the base
/// 256, the first being the least or the most significant.
pub proof fn numbers_are_written_in_bytes(s: u16, w: u32, v: u64)
    ensures
        u16_bytes(s, true) == seq![(s % 256) as u8, (s / 256) as u8],
        u16_bytes(s, false) == seq![(s / 256) as u8, (s % 256) as u8],
        u32_bytes(w, true) == seq![
            (w % 256) as u8,
            (w / 256 % 256) as u8,
            (w / 65536 % 256) as u8,
            (w / 16777216) as u8,
        ],
        u32_bytes(w, false) == seq![
            (w / 16777216) as u8,
            (w / 65536 % 256) as u8,
            (w / 256 % 256) as u8,
            (w % 256) as u8,
        ],
        u64_bytes(v, true) == u32_bytes((v % 0x1_0000_0000) as u32, true) + u32_bytes(
            (v / 0x1_0000_0000) as u32,
            true,
        ),
        u64_bytes(v, false) == u32_bytes((v / 0x1_0000_0000) as u32, false) + u32_bytes(
            (v % 0x1_0000_0000) as u32,
            false,
        ),
        le16_bytes(s) == u16_bytes(s, true),
        le32_bytes(w) == u32_bytes(w, true),
        le64_bytes(v) == u64_bytes(v, true),
{
    reveal(u16_bytes);
    reveal(u32_bytes);
    reveal(u64_bytes);
}

/// Bytes that are put somewhere stand there, and everything else stays.
pub proof fn bytes_are_put(b: Seq<u8>, o: int, s: Seq<u8>, i: int)
    requires
        0 <= o && o + s.len() <= b.len(),
        0 <= i < b.len(),
    ensures
        put(b, o, s).len() == b.len(),
        o <= i < o + s.len() ==> put(b, o, s)[i] == s[i - o],
        i < o || i >= o + s.len() ==> put(b, o, s)[i] == b[i],
{
}

/// Scratch space begins on a multiple of 16, at least 512 bytes below the stack pointer and
/// no more than that needs.
pub proof fn scratch_space_is_below(rsp: u64)
    ensures
        scratch(rsp) % 16 == 0,
        rsp >= 512 ==> rsp - 528 < scratch(rsp) <= rsp - 512,
        rsp < 512 ==> rsp + 0x1_0000_0000_0000_0000 - 528 < scratch(rsp) <= rsp
            + 0x1_0000_0000_0000_0000 - 512,
{
}

/// What a failed call leaves is the negative of the error.
pub proof fn failures_are_negative(errno: i32)
    requires
        0 < errno,
    ensures
        failed(errno) + errno == 0x1_0000_0000_0000_0000,
{
}

/// A call is made with its number and its six arguments, and with all other registers as
/// they are. One that is only renumbered keeps its arguments too.
pub proof fn calls_are_made_by_registers(regs: Regs, call: Call, nr: u64)
    ensures
        calling(regs, call) == (Regs {
            rax: call.nr,
            orig_rax: call.nr,
            rdi: call.rdi,
            rsi: call.rsi,
            rdx: call.rdx,
            r10: call.r10,
            r8: call.r8,
            r9: call.r9,
            ..regs
        }),
        renumbered(regs, nr) == (Regs { rax: nr, orig_rax: nr, ..regs }),
{
}

/// Versions are ordered as numbers whose digits are their parts. A kernel that does not
/// tell its version is not older than any.
pub proof fn versions_are_ordered(v: Version, w: Version)
    ensures
        older(v, w) <==> (v.0 * 0x1_0000_0000_0000_0000 + v.1) * 0x1_0000_0000_0000_0000 + v.2 < (
        w.0 * 0x1_0000_0000_0000_0000 + w.1) * 0x1_0000_0000_0000_0000 + w.2,
        lt(Some(v), w) <==> older(v, w),
        !lt(None, w),
{
}

/// The clocks that an old kernel lacks: the raw and the coarse monotonic one and the one that
/// counts suspension become the monotonic one, the coarse real-time one becomes the real-time
/// one. A clock outside the table stands for itself, and one in it for its entry.
pub proof fn clocks_fall_back(k: Kernel, id: u64)
    ensures
        fallback_clock(4) == 1,
        fallback_clock(5) == 0,
        fallback_clock(6) == 1,
        fallback_clock(7) == 1,
        id >= 8 ==> clock_for(k, id) == id,
        id < 8 ==> clock_for(k, id) == k.clocks[id as int],
{
}

/// A number of sixty-four bits as a signed one.
pub open spec fn signed64(n: int) -> int {
    if n < 0x8000_0000_0000_0000 { n } else { n - 0x1_0000_0000_0000_0000 }
}

/// A `struct timespec` holds the seconds and behind them the nanoseconds, each in eight bytes
/// as a signed number.
pub proof fn times_are_laid_out(b: Seq<u8>, o: int, t: Time)
    ensures
        time_at(b, o).0 == signed64(le64(b, o) as int),
        time_at(b, o).1 == signed64(le64(b, o + 8) as int),
        time_bytes(t).len() == 16,
        signed64(le64(time_bytes(t), 0) as int) == t.0,
        signed64(le64(time_bytes(t), 8) as int) == t.1,
{
    let first = le64(b, o);
    let second = le64(b, o + 8);
    assert(first >= 0x8000_0000_0000_0000 ==> (first as i64) == first - 0x1_0000_0000_0000_0000)
        by (bit_vector);
    assert(second >= 0x8000_0000_0000_0000 ==> (second as i64) == second - 0x1_0000_0000_0000_0000)
        by (bit_vector);
    let seconds = t.0;
    let nanoseconds = t.1;
    assert(seconds < 0 ==> (seconds as u64) == seconds + 0x1_0000_0000_0000_0000) by (bit_vector);
    assert(nanoseconds < 0 ==> (nanoseconds as u64) == nanoseconds + 0x1_0000_0000_0000_0000)
        by (bit_vector);
    halves_are_read(time_bytes(t), seconds as u64, nanoseconds as u64);
}

/// Two numbers that follow each other are read one behind the other.
proof fn halves_are_read(b: Seq<u8>, x: u64, y: u64)
    requires
        b == le64_bytes(x) + le64_bytes(y),
    ensures
        b.len() == 16,
        le64(b, 0) == x,
        le64(b, 8) == y,
{
    let empty = Seq::new(16, |i: int| 0u8);
    let one = put(empty, 0, le64_bytes(x));
    let two = put(one, 8, le64_bytes(y));
    assert(two =~= b);
    let other = put(put(empty, 8, le64_bytes(y)), 0, le64_bytes(x));
    assert(other =~= b);
    crate::bytes::u64_round_trip(one, 8, y, true);
    crate::bytes::u64_round_trip(put(empty, 8, le64_bytes(y)), 0, x, true);
    reveal(u64_at);
    reveal(u64_bytes);
}

/// Times are added and subtracted part by part, with one carry or borrow between them,
/// wherever the parts stay in range. A difference below zero is nothing.
pub proof fn times_are_added_by_parts(a: Time, b: Time)
    ensures
        ({
            let seconds = a.0 + b.0;
            let nanoseconds = a.1 + b.1;
            i64::MIN <= seconds < i64::MAX && i64::MIN <= nanoseconds <= i64::MAX ==> {
                &&& nanoseconds < 1_000_000_000 ==> sum(a, b) == (seconds as i64, nanoseconds as i64)
                &&& nanoseconds >= 1_000_000_000 ==> sum(a, b) == (
                    (seconds + 1) as i64,
                    (nanoseconds - 1_000_000_000) as i64,
                )
            }
        }),
        ({
            let seconds = a.0 - b.0;
            let nanoseconds = a.1 - b.1;
            i64::MIN < seconds <= i64::MAX && i64::MIN <= nanoseconds <= i64::MAX ==> {
                &&& nanoseconds >= 0 && seconds >= 0 ==> difference(a, b) == (
                    seconds as i64,
                    nanoseconds as i64,
                )
                &&& nanoseconds < 0 && seconds >= 1 ==> difference(a, b) == (
                    (seconds - 1) as i64,
                    (nanoseconds + 1_000_000_000) as i64,
                )
                &&& seconds < 0 || nanoseconds < 0 && seconds < 1 ==> difference(a, b) == (
                    0i64,
                    0i64,
                )
            }
        }),
{
}

/// The line speed of each code in `c_cflag`: four bits, and the bit 4096 for the faster
/// ones. No other bit matters.
pub proof fn speeds_are_named(cflag: u32)
    ensures
        ({
            let code = cflag % 16;
            let fast = (cflag / 4096) % 2 == 1;
            let baud = speed(cflag);
            &&& code == 0 ==> baud == 0
            &&& !fast ==> {
                &&& code == 1 ==> baud == 50
                &&& code == 2 ==> baud == 75
                &&& code == 3 ==> baud == 110
                &&& code == 4 ==> baud == 134
                &&& code == 5 ==> baud == 150
                &&& code == 6 ==> baud == 200
                &&& code == 7 ==> baud == 300
                &&& code == 8 ==> baud == 600
                &&& code == 9 ==> baud == 1200
                &&& code == 10 ==> baud == 1800
                &&& code == 11 ==> baud == 2400
                &&& code == 12 ==> baud == 4800
                &&& code == 13 ==> baud == 9600
                &&& code == 14 ==> baud == 19200
                &&& code == 15 ==> baud == 38400
            }
            &&& fast ==> {
                &&& code == 1 ==> baud == 57600
                &&& code == 2 ==> baud == 115200
                &&& code == 3 ==> baud == 230400
                &&& code == 4 ==> baud == 460800
                &&& code == 5 ==> baud == 500_000
                &&& code == 6 ==> baud == 576_000
                &&& code == 7 ==> baud == 921_600
                &&& code == 8 ==> baud == 1_000_000
                &&& code == 9 ==> baud == 1_152_000
                &&& code == 10 ==> baud == 1_500_000
                &&& code == 11 ==> baud == 2_000_000
                &&& code == 12 ==> baud == 2_500_000
                &&& code == 13 ==> baud == 3_000_000
                &&& code == 14 ==> baud == 3_500_000
                &&& code == 15 ==> baud == 4_000_000
            }
        }),
{
    assert(cflag & 0x100f == cflag % 16 + ((cflag / 4096) % 2) * 4096) by (bit_vector);
}

/// The two speed fields both hold the speed that the settings name at offset 8, or zero where
/// there are none.
pub proof fn speed_fields_hold_the_speed(settings: Seq<u8>)
    ensures
        speed_fields(Some(settings)) == le32_bytes(speed(le32(settings, 8))) + le32_bytes(
            speed(le32(settings, 8)),
        ),
        speed_fields(None) == seq![0u8, 0, 0, 0, 0, 0, 0, 0],
{
    assert(le32_bytes(0) + le32_bytes(0) =~= seq![0u8, 0, 0, 0, 0, 0, 0, 0]);
}

/// The major number of a device is in the twelve bits from 8 on, and its upper part in those
/// from 44 on. The minor number is in the eight bits from 0 on, and its upper part in those
/// from 20 on.
pub proof fn device_numbers_are_split(dev: u64)
    ensures
        major(dev) == (dev / 0x100) % 0x1000 + (dev / 0x1000_0000_0000) * 0x1000,
        minor(dev) == dev % 0x100 + ((dev / 0x10_0000) % 0x100_0000) * 0x100,
{
    assert((((dev >> 8) & 0xfff) | ((dev >> 32) & !0xfffu64)) as u32 == (dev / 0x100) % 0x1000 + (
    dev / 0x1000_0000_0000) * 0x1000) by (bit_vector);
    assert(((dev & 0xff) | ((dev >> 12) & !0xffu64)) as u32 == dev % 0x100 + ((dev / 0x10_0000)
        % 0x100_0000) * 0x100) by (bit_vector);
}

/// A number that is cut keeps its lower bits.
proof fn numbers_are_cut(v: u64, w: u32)
    ensures
        v as u32 == v % 0x1_0000_0000,
        w as u16 == w % 0x1_0000,
{
    assert(v as u32 == v % 0x1_0000_0000) by (bit_vector);
    assert(w as u16 == w % 0x1_0000) by (bit_vector);
}

/// A `struct statx` says at each offset what the `struct stat` that it is made of says at its
/// own, and that the basic fields are valid.
pub proof fn statx_says_what_stat_says(b: Seq<u8>)
    ensures
        ({
            let x = statx_of(b);
            let rdev = le64(b, 40);
            let dev = le64(b, 0);
            &&& x.len() == 256
            &&& le32(x, 0) == 0x7ff
            &&& le32(x, 4) == le64(b, 56) % 0x1_0000_0000
            &&& le32(x, 16) == le64(b, 16) % 0x1_0000_0000
            &&& le32(x, 20) == le32(b, 28)
            &&& le32(x, 24) == le32(b, 32)
            &&& le16(x, 28) == le32(b, 24) % 0x1_0000
            &&& le64(x, 32) == le64(b, 8)
            &&& le64(x, 40) == le64(b, 48)
            &&& le64(x, 48) == le64(b, 64)
            &&& le64(x, 64) == le64(b, 72)
            &&& le32(x, 72) == le64(b, 80) % 0x1_0000_0000
            &&& le64(x, 96) == le64(b, 104)
            &&& le32(x, 104) == le64(b, 112) % 0x1_0000_0000
            &&& le64(x, 112) == le64(b, 88)
            &&& le32(x, 120) == le64(b, 96) % 0x1_0000_0000
            &&& le32(x, 128) == major(rdev)
            &&& le32(x, 132) == minor(rdev)
            &&& le32(x, 136) == major(dev)
            &&& le32(x, 140) == minor(dev)
        }),
{
    fields_are_carried_over(b, stat_in(b));
    reveal(stat_in);
    numbers_are_cut(le64(b, 56), le32(b, 24));
    numbers_are_cut(le64(b, 16), 0);
    numbers_are_cut(le64(b, 80), 0);
    numbers_are_cut(le64(b, 112), 0);
    numbers_are_cut(le64(b, 96), 0);
}

/// An event tells what it holds and nothing else. Bytes count only where they are as many as
/// were asked for; an event that is no write counts as one that failed.
pub proof fn events_tell_what_they_hold(
    event: Event<Seq<u8>>,
    bytes: Seq<u8>,
    len: int,
    regs: Regs,
    word: u64,
    time: Time,
    handle: i32,
    written: i64,
    errno: i32,
)
    ensures
        event.bytes_of(len) == Some(bytes) <==> event == Event::Bytes(bytes) && bytes.len() == len,
        event.regs_of() == Some(regs) <==> event == Event::<Seq<u8>>::Regs(regs),
        event.word_of() == Some(word) <==> event == Event::<Seq<u8>>::Word(word),
        event.time_of() == Some(time) <==> event == Event::<Seq<u8>>::Time(time),
        event.handle_of() == Some(handle) <==> event == Event::<Seq<u8>>::Handle(handle),
        event == (Event::<Seq<u8>>::Wrote { written, errno }) ==> event.written_of() == (
            written,
            errno,
        ),
        event !is Wrote ==> event.written_of() == (-1i64, 0i32),
{
}

}
