//! Instructions that old kernels do not support, which raise `SIGILL`.

use vstd::prelude::*;
use crate::abi::Regs;

verus! {

/// The three bytes of `XGETBV`, least significant first.
pub const XGETBV: u64 = 0xd0010f;

/// The registers after the instruction in `word` was emulated: `XGETBV` reports
/// that no state is enabled and is skipped; no other instruction is emulated.
pub open spec fn emulated(regs: Regs, word: u64) -> Option<Regs> {
    if word % 0x100_0000 == XGETBV {
        Some(Regs { rax: 0, rdx: 0, rip: regs.rip.wrapping_add(3), ..regs })
    } else {
        None
    }
}

/// Emulate the instruction in `word`, at which the process stopped.
pub fn emulate_sigill(regs: Regs, word: u64) -> (r: Option<Regs>)
    ensures
        r == emulated(regs, word),
{
    if word % 0x100_0000 != XGETBV {
        return None;
    }
    Some(Regs { rax: 0, rdx: 0, rip: regs.rip.wrapping_add(3), ..regs })
}

}
