//! The termios2 requests, which arrived in 2.6.20, and the older requests that
//! answer them.

use vstd::prelude::*;
use crate::bytes::{le32, le32_bytes, read_u32, u32_at, u32_bytes, write_u32};

verus! {

pub const TCGETS2: u64 = 0x802c_542a;
pub const TCSETS2: u64 = 0x402c_542b;
pub const TCSETSW2: u64 = 0x402c_542c;
pub const TCSETSF2: u64 = 0x402c_542d;
pub const TCGETS: u64 = 0x5401;
pub const TCSETS: u64 = 0x5402;
pub const TCSETSW: u64 = 0x5403;
pub const TCSETSF: u64 = 0x5404;

/// Byte offset of `c_ispeed` in `struct termios2`. Everything before it has the
/// same layout as the `struct termios` an older kernel fills in, which is what
/// makes the translation a pure suffix.
pub const TERMIOS2_ISPEED: u64 = 36;

/// The request that an older kernel understands in place of a termios2 one.
pub open spec fn legacy_request(request: u64) -> Option<u64> {
    if request == TCGETS2 {
        Some(TCGETS)
    } else if request == TCSETS2 {
        Some(TCSETS)
    } else if request == TCSETSW2 {
        Some(TCSETSW)
    } else if request == TCSETSF2 {
        Some(TCSETSF)
    } else {
        None
    }
}

/// The line speeds of the codes 1 to 15.
pub open spec fn slow_speeds() -> Seq<u32> {
    seq![50, 75, 110, 134, 150, 200, 300, 600, 1200, 1800, 2400, 4800, 9600, 19200, 38400]
}

/// The line speeds of the codes 0x1001 to 0x100f.
pub open spec fn fast_speeds() -> Seq<u32> {
    seq![
        57600,
        115200,
        230400,
        460800,
        500000,
        576000,
        921600,
        1_000_000,
        1_152_000,
        1_500_000,
        2_000_000,
        2_500_000,
        3_000_000,
        3_500_000,
        4_000_000,
    ]
}

/// The line speed that `c_cflag` names. The code is in the bits 0x100f; a hang-up
/// and a speed that is not one of the codes report none.
pub open spec fn speed(cflag: u32) -> u32 {
    let code = cflag & 0x100f;
    if 1 <= code <= 0xf {
        slow_speeds()[code - 1]
    } else if 0x1001 <= code <= 0x100f {
        fast_speeds()[code - 0x1001]
    } else {
        0
    }
}

/// The two speed fields of `struct termios2`, for the `struct termios` in `b`. One
/// that could not be read has no speed.
pub open spec fn speed_fields(b: Option<Seq<u8>>) -> Seq<u8> {
    let s = match b {
        Some(b) => speed(le32(b, 8)),
        None => 0,
    };
    le32_bytes(s) + le32_bytes(s)
}

/// The request that an older kernel understands in place of a termios2 one. The
/// struct is a prefix of `struct termios2` up to the two speed fields, so only
/// that suffix has to be dealt with separately.
pub fn legacy_termios_request(request: u64) -> (r: Option<u64>)
    ensures
        r == legacy_request(request),
{
    match request {
        TCGETS2 => Some(TCGETS),
        TCSETS2 => Some(TCSETS),
        TCSETSW2 => Some(TCSETSW),
        TCSETSF2 => Some(TCSETSF),
        _ => None,
    }
}

/// Line speed for a `Bxxxx` code in `c_cflag`. An older kernel keeps the speed
/// there and nowhere else, so it has to be decoded to fill in termios2's own
/// speed fields.
pub fn baud_from_cflag(cflag: u32) -> (baud: u32)
    ensures
        baud == speed(cflag),
{
    match cflag & 0x100f {
        0x0001 => 50,
        0x0002 => 75,
        0x0003 => 110,
        0x0004 => 134,
        0x0005 => 150,
        0x0006 => 200,
        0x0007 => 300,
        0x0008 => 600,
        0x0009 => 1200,
        0x000a => 1800,
        0x000b => 2400,
        0x000c => 4800,
        0x000d => 9600,
        0x000e => 19200,
        0x000f => 38400,
        0x1001 => 57600,
        0x1002 => 115200,
        0x1003 => 230400,
        0x1004 => 460800,
        0x1005 => 500000,
        0x1006 => 576000,
        0x1007 => 921600,
        0x1008 => 1_000_000,
        0x1009 => 1_152_000,
        0x100a => 1_500_000,
        0x100b => 2_000_000,
        0x100c => 2_500_000,
        0x100d => 3_000_000,
        0x100e => 3_500_000,
        0x100f => 4_000_000,
        _ => 0,
    }
}

/// The speed fields to put behind a `struct termios` that the kernel filled in.
pub fn termios2_speeds(termios: Option<Vec<u8>>) -> (speeds: Vec<u8>)
    requires
        termios is Some ==> termios->0.len() >= 12,
    ensures
        termios matches Some(b) ==> speeds@ == speed_fields(Some(b@)),
        termios is None ==> speeds@ == speed_fields(None),
{
    reveal(u32_at);
    reveal(u32_bytes);
    let speed = match termios {
        Some(b) => baud_from_cflag(read_u32(&b, 8, true)),
        None => 0,
    };
    let mut speeds: Vec<u8> = vec![0; 8];
    write_u32(&mut speeds, 0, speed, true);
    write_u32(&mut speeds, 4, speed, true);
    assert(speeds@ =~= le32_bytes(speed) + le32_bytes(speed));
    speeds
}

/// Only the reading request leaves something to complete, and no two termios2
/// requests become the same one.
pub proof fn requests_are_told_apart(a: u64, b: u64)
    ensures
        legacy_request(a) == Some(TCGETS) <==> a == TCGETS2,
        legacy_request(a) is Some && legacy_request(a) == legacy_request(b) ==> a == b,
{
}

}
