//! Futex operations in forms that old kernels understand.

use vstd::prelude::*;
use crate::abi::{scratch, scratch_below, Regs};
use crate::kernel::{kernel_lt, lt, Version};

verus! {

pub const FUTEX_CMD_MASK: u32 = 0x7f;
pub const FUTEX_WAIT: u32 = 0;
pub const FUTEX_WAKE: u32 = 1;
pub const FUTEX_WAIT_BITSET: u32 = 9;
pub const FUTEX_WAKE_BITSET: u32 = 10;
pub const FUTEX_CLOCK_REALTIME: u32 = 256;

/// What is done with a futex call.
#[derive(Clone, Copy, Debug, PartialEq, Eq, Structural)]
pub enum Futex {
    /// It is left as it is.
    Keep,
    /// It is made with these registers.
    Rewrite(Regs),
    /// Its absolute timeout has to be made a relative one first.
    Timed,
}

/// The command of a futex operation without its flags, and without a bitset.
pub open spec fn bare_command(op: u32) -> u32 {
    let cmd = op & FUTEX_CMD_MASK;
    if cmd == FUTEX_WAIT_BITSET {
        FUTEX_WAIT
    } else if cmd == FUTEX_WAKE_BITSET {
        FUTEX_WAKE
    } else {
        cmd
    }
}

/// The operation counts against the real-time clock.
pub open spec fn is_realtime(op: u32) -> bool {
    op & FUTEX_CLOCK_REALTIME != 0
}

/// The operation waits until a point in time rather than for a while.
pub open spec fn is_absolute(op: u32) -> bool {
    bare_command(op) == FUTEX_WAIT && (op & FUTEX_CMD_MASK == FUTEX_WAIT_BITSET || is_realtime(op))
}

/// What is done with the futex call in `regs`. The bitset operations only exist
/// from 2.6.25 and realtime waits from 2.6.29; anything newer is left alone.
pub open spec fn futex(version: Option<Version>, regs: Regs) -> Futex {
    let op = regs.rsi as u32;
    if !lt(version, (2, 6, 29)) || bare_command(op) == op {
        Futex::Keep
    } else if is_absolute(op) && regs.r10 != 0 {
        Futex::Timed
    } else {
        Futex::Rewrite(Regs { rsi: bare_command(op) as u64, ..regs })
    }
}

/// The registers of a timed wait whose relative timeout is in scratch space. The
/// stack pointer is moved below it.
pub open spec fn timed(regs: Regs) -> Regs {
    Regs {
        rsp: scratch(regs.rsp),
        r10: scratch(regs.rsp),
        rsi: bare_command(regs.rsi as u32) as u64,
        ..regs
    }
}

fn command(op: u32) -> (cmd: u32)
    ensures
        cmd == bare_command(op),
{
    let cmd = op & FUTEX_CMD_MASK;
    if cmd == FUTEX_WAIT_BITSET {
        FUTEX_WAIT
    } else if cmd == FUTEX_WAKE_BITSET {
        FUTEX_WAKE
    } else {
        cmd
    }
}

/// Decide what is done with a futex call: old kernels predate the flags and the
/// bitset operations, so the kernel is handed a bare command with no flag bits.
pub fn translate_futex(version: Option<Version>, regs: Regs) -> (r: Futex)
    ensures
        r == futex(version, regs),
{
    if !kernel_lt(version, 2, 6, 29) {
        return Futex::Keep;
    }
    let op = regs.rsi as u32;
    let cmd = op & FUTEX_CMD_MASK;
    let realtime = op & FUTEX_CLOCK_REALTIME != 0;
    let new_cmd = command(op);
    if new_cmd == op {
        return Futex::Keep;
    }
    if new_cmd == FUTEX_WAIT && (cmd == FUTEX_WAIT_BITSET || realtime) && regs.r10 != 0 {
        return Futex::Timed;
    }
    Futex::Rewrite(Regs { rsi: new_cmd as u64, ..regs })
}

/// The clock that the absolute timeout of a wait counts in.
pub fn timeout_clock(regs: Regs) -> (id: i32)
    ensures
        id == if is_realtime(regs.rsi as u32) { 0i32 } else { 1i32 },
{
    if (regs.rsi as u32) & FUTEX_CLOCK_REALTIME != 0 { 0 } else { 1 }
}

/// The registers of a timed wait, its relative timeout in scratch space.
pub fn timed_wait(regs: Regs) -> (r: Regs)
    ensures
        r == timed(regs),
{
    let space = scratch_below(regs.rsp);
    Regs { rsp: space, r10: space, rsi: command(regs.rsi as u32) as u64, ..regs }
}

/// The rewritten operation carries no flags. In place of a bitset operation it is one
/// that the oldest kernels have.
pub proof fn commands_are_bare(op: u32)
    ensures
        bare_command(op) <= FUTEX_CMD_MASK,
        op & FUTEX_CMD_MASK == FUTEX_WAIT_BITSET ==> bare_command(op) == FUTEX_WAIT,
        op & FUTEX_CMD_MASK == FUTEX_WAKE_BITSET ==> bare_command(op) == FUTEX_WAKE,
        bare_command(op) != FUTEX_WAIT_BITSET && bare_command(op) != FUTEX_WAKE_BITSET,
        bare_command(bare_command(op)) == bare_command(op),
{
    assert(op & 0x7f <= 0x7f) by (bit_vector);
    let cmd = bare_command(op);
    assert(cmd & 0x7f == cmd) by (bit_vector)
        requires
            cmd <= 0x7f,
    ;
}

}
