//! The x86_64 system call interface: numbers, constants and registers.

use vstd::prelude::*;

verus! {

pub const SYS_WRITE: u64 = 1;
pub const SYS_CLOSE: u64 = 3;
pub const SYS_FSTAT: u64 = 5;
pub const SYS_POLL: u64 = 7;
pub const SYS_LSEEK: u64 = 8;
pub const SYS_RT_SIGPROCMASK: u64 = 14;
pub const SYS_IOCTL: u64 = 16;
pub const SYS_READV: u64 = 19;
pub const SYS_WRITEV: u64 = 20;
pub const SYS_PIPE: u64 = 22;
pub const SYS_GETPID: u64 = 39;
pub const SYS_SOCKET: u64 = 41;
pub const SYS_CONNECT: u64 = 42;
pub const SYS_BIND: u64 = 49;
pub const SYS_FCNTL: u64 = 72;
pub const SYS_GETRLIMIT: u64 = 97;
pub const SYS_SETRLIMIT: u64 = 160;
pub const SYS_FUTEX: u64 = 202;
pub const SYS_EPOLL_CREATE: u64 = 213;
pub const SYS_CLOCK_GETTIME: u64 = 228;
pub const SYS_CLOCK_GETRES: u64 = 229;
pub const SYS_CLOCK_NANOSLEEP: u64 = 230;
pub const SYS_EPOLL_WAIT: u64 = 232;
pub const SYS_NEWFSTATAT: u64 = 262;
pub const SYS_PPOLL: u64 = 271;
pub const SYS_EPOLL_PWAIT: u64 = 281;
pub const SYS_TIMERFD_CREATE: u64 = 283;
pub const SYS_EVENTFD: u64 = 284;
pub const SYS_TIMERFD_SETTIME: u64 = 286;
pub const SYS_TIMERFD_GETTIME: u64 = 287;
pub const SYS_EVENTFD2: u64 = 290;
pub const SYS_EPOLL_CREATE1: u64 = 291;
pub const SYS_PIPE2: u64 = 293;
pub const SYS_PREADV: u64 = 295;
pub const SYS_PWRITEV: u64 = 296;
pub const SYS_PRLIMIT64: u64 = 302;
pub const SYS_GETRANDOM: u64 = 318;
pub const SYS_STATX: u64 = 332;

pub const AF_UNIX: u64 = 1;
pub const SOCK_DGRAM: u64 = 2;
pub const F_DUPFD: u64 = 0;
pub const F_SETFD: u64 = 2;
pub const F_SETFL: u64 = 4;
pub const F_DUPFD_CLOEXEC: u64 = 1030;
pub const FD_CLOEXEC: u64 = 1;
pub const O_NONBLOCK: u64 = 0x800;
pub const SEEK_SET: u64 = 0;
pub const SIG_SETMASK: u64 = 2;

pub const EPERM: i32 = 1;
pub const EINTR: i32 = 4;
pub const EIO: i32 = 5;
pub const ECHILD: i32 = 10;
pub const EAGAIN: i32 = 11;
pub const EFAULT: i32 = 14;
pub const EINVAL: i32 = 22;
pub const ENOSYS: i32 = 38;

pub const SIGILL: i32 = 4;
pub const SIGTRAP: i32 = 5;
pub const SIGSTOP: i32 = 19;

/// The code segment of a 64-bit process.
pub const CS_64: u64 = 0x33;

/// The general registers of a stopped process.
#[derive(Clone, Copy, Debug, PartialEq, Eq, Structural)]
pub struct Regs {
    pub r15: u64,
    pub r14: u64,
    pub r13: u64,
    pub r12: u64,
    pub rbp: u64,
    pub rbx: u64,
    pub r11: u64,
    pub r10: u64,
    pub r9: u64,
    pub r8: u64,
    pub rax: u64,
    pub rcx: u64,
    pub rdx: u64,
    pub rsi: u64,
    pub rdi: u64,
    pub orig_rax: u64,
    pub rip: u64,
    pub cs: u64,
    pub eflags: u64,
    pub rsp: u64,
    pub ss: u64,
    pub fs_base: u64,
    pub gs_base: u64,
    pub ds: u64,
    pub es: u64,
    pub fs: u64,
    pub gs: u64,
}

/// A system call: its number and its arguments, by register.
#[derive(Clone, Copy, Debug, PartialEq, Eq, Structural)]
pub struct Call {
    pub nr: u64,
    pub rdi: u64,
    pub rsi: u64,
    pub rdx: u64,
    pub r10: u64,
    pub r8: u64,
    pub r9: u64,
}

/// The registers with which `call` is made in place of the one in `regs`.
pub open spec fn calling(regs: Regs, call: Call) -> Regs {
    Regs {
        orig_rax: call.nr,
        rax: call.nr,
        rdi: call.rdi,
        rsi: call.rsi,
        rdx: call.rdx,
        r10: call.r10,
        r8: call.r8,
        r9: call.r9,
        ..regs
    }
}

/// The registers with which call `nr` is made with the arguments in `regs`.
pub open spec fn renumbered(regs: Regs, nr: u64) -> Regs {
    Regs { orig_rax: nr, rax: nr, ..regs }
}

/// An address below the stack pointer `rsp` from which 256 bytes and more are
/// free: it clears the red zone and is a multiple of 16.
pub open spec fn scratch(rsp: u64) -> u64 {
    let below = rsp.wrapping_sub(512);
    (below - below % 16) as u64
}

/// What a failed call leaves in `rax`.
pub open spec fn failed(errno: i32) -> u64 {
    (0x1_0000_0000_0000_0000 - errno) as u64
}

/// Make `call` in place of the one in `regs`.
pub fn with_call(regs: Regs, call: Call) -> (r: Regs)
    ensures
        r == calling(regs, call),
{
    Regs {
        orig_rax: call.nr,
        rax: call.nr,
        rdi: call.rdi,
        rsi: call.rsi,
        rdx: call.rdx,
        r10: call.r10,
        r8: call.r8,
        r9: call.r9,
        ..regs
    }
}

/// Make call `nr` with the arguments that are in the registers.
pub fn with_number(regs: Regs, nr: u64) -> (r: Regs)
    ensures
        r == renumbered(regs, nr),
{
    Regs { orig_rax: nr, rax: nr, ..regs }
}

/// The address of scratch space below the stack pointer.
pub fn scratch_below(rsp: u64) -> (address: u64)
    ensures
        address == scratch(rsp),
{
    let below = rsp.wrapping_sub(512);
    below - below % 16
}

/// The value of `rax` that reports `errno`.
pub fn failure(errno: i32) -> (rax: u64)
    requires
        0 < errno,
    ensures
        rax == failed(errno),
{
    u64::MAX - (errno as u64 - 1)
}

}
