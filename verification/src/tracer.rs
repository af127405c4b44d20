//! The tracer: what is done at each stop of each traced process.
//!
//! Calls that an old kernel lacks are answered by rewriting them at their entry
//! into calls that it has, and by completing the result at their exit; calls that
//! cannot be rewritten are left to [`Emulations`].

use std::collections::{HashMap, HashSet, VecDeque};
use vstd::prelude::*;
use crate::abi::{
    failed, failure, renumbered, scratch, scratch_below, with_number, Regs, CS_64, ECHILD, EFAULT,
    ENOSYS, SIGILL, SIGSTOP, SIGTRAP, SYS_CLOCK_GETRES, SYS_CLOCK_GETTIME, SYS_CLOCK_NANOSLEEP,
    SYS_EPOLL_CREATE, SYS_EPOLL_CREATE1, SYS_FUTEX, SYS_GETRANDOM, SYS_GETRLIMIT, SYS_IOCTL,
    SYS_PIPE, SYS_PIPE2, SYS_POLL, SYS_PPOLL, SYS_PRLIMIT64, SYS_SETRLIMIT, SYS_STATX,
};
use crate::emulated_syscalls::{Emulations, EmulationsView, Pending, Progress};
use crate::futex::{futex, is_realtime, timed, timed_wait, timeout_clock, translate_futex, Futex};
use crate::kernel::{
    clock_for, kernel_echoes_number, kernel_lt, lt, replace_clock, termios2_missing, Kernel,
    Version,
};
use crate::protocol::{Action, Event};
use crate::sigill::{emulate_sigill, emulated};
use crate::statx::{build_statx, stat_call, statx_of, translate_statx, STAT_SIZE};
use crate::termios::{
    legacy_request, legacy_termios_request, speed_fields, termios2_speeds, TCGETS, TERMIOS2_ISPEED,
};
use crate::time::{
    difference, millis, poll_timeout, push_time, read_time, time_at, time_bytes, Time,
};
use crate::wait::{decode, meaning, reports_are_bounded, Wait};

verus! {

broadcast use vstd::std_specs::hash::group_hash_axioms;

pub const PTRACE_O_TRACESYSGOOD: u32 = 0x01;
pub const PTRACE_O_TRACEFORK: u32 = 0x02;
pub const PTRACE_O_TRACEVFORK: u32 = 0x04;
pub const PTRACE_O_TRACECLONE: u32 = 0x08;
pub const PTRACE_O_TRACEEXEC: u32 = 0x10;
pub const PTRACE_O_TRACESECCOMP: u32 = 0x80;
pub const PTRACE_EVENT_SECCOMP: u32 = 7;

/// The most random bytes that are fetched at a time.
pub const CHUNK: u64 = 0x1_0000;

/// What is left to do for a translated `statx` when it returns.
#[derive(Clone, Copy, Debug, PartialEq, Eq, Structural)]
pub struct StatxState {
    pub statxbuf: u64,
    pub scratch: u64,
}

/// What the tracer waits for.
#[derive(Clone, Copy, Debug)]
#[allow(inconsistent_fields)]
pub enum Task {
    /// The first stop of the main process.
    Launch,
    /// Whether one more tracing option is supported. `stopped` is the signal that
    /// stopped a process that is new, and none for the main process.
    Options { pid: i32, index: u8, set: u32, option: u32, seccomp: bool, stopped: Option<i32> },
    /// The options that were supported, set again without one that was not.
    OptionsKept { pid: i32, index: u8, set: u32, seccomp: bool, stopped: Option<i32> },
    /// A process to run on.
    Resumed,
    /// The emulated deadlines.
    Tick { at: Pending },
    /// A process to change state.
    Wait,
    /// Whether the entry stop of a call is taken over.
    Begin { pid: i32, at: Pending },
    /// The stop of a call that belongs to an emulation.
    Step { pid: i32, at: Pending },
    /// The registers at an illegal instruction.
    IllegalRegs { pid: i32 },
    /// The illegal instruction.
    IllegalWord { pid: i32, regs: Regs },
    /// The registers after it was emulated.
    IllegalSet { pid: i32 },
    /// The registers at a stop of the filter.
    Filtered { pid: i32 },
    /// The registers at the entry of a call.
    Entry { pid: i32 },
    /// The registers of a translated call. `owed` says that its exit is needed.
    Translated { pid: i32, filtered: bool, owed: bool },
    /// The absolute timeout of a futex wait.
    FutexTimeout { pid: i32, regs: Regs, filtered: bool },
    /// The time, to make the timeout relative.
    FutexClock { pid: i32, regs: Regs, filtered: bool, deadline: Time },
    /// The relative timeout in scratch space.
    FutexScratch { pid: i32, regs: Regs, filtered: bool },
    /// The registers of the call that stands in for a `statx`.
    StatxSet { pid: i32, regs: Regs, filtered: bool },
    /// The registers of a translated termios2 request.
    TermiosSet { pid: i32, regs: Regs, legacy: u64 },
    /// The timeout of a `ppoll`.
    PpollTimeout { pid: i32, regs: Regs },
    /// The registers at the exit of a call.
    Exit { pid: i32 },
    /// The `struct termios` that the kernel filled in.
    TermiosRead { pid: i32, regs: Regs, address: u64 },
    /// The speed fields behind it.
    TermiosWrote { pid: i32, regs: Regs },
    /// The `struct stat` in scratch space.
    StatxRead { pid: i32, regs: Regs, dirty: bool, statxbuf: u64 },
    /// The `struct statx` in the caller's memory.
    StatxWrote { pid: i32, regs: Regs, dirty: bool },
    /// The source of random bytes.
    RandomOpen { pid: i32, regs: Regs, dirty: bool },
    /// Random bytes, `done` of which are delivered.
    RandomRead { pid: i32, regs: Regs, dirty: bool, done: u64 },
    /// Random bytes in the caller's memory, up to `done`.
    RandomWrote { pid: i32, regs: Regs, dirty: bool, done: u64 },
    /// The registers at the end of a call.
    Settled { pid: i32 },
    /// Nothing: the tracer has ended.
    Over { code: i32 },
}

/// The state of the tracer.
pub struct Tracer {
    child: i32,
    use_seccomp: bool,
    configured: HashSet<i32>,
    in_syscall: HashMap<i32, bool>,
    last_syscall: HashMap<i32, u64>,
    statx: HashMap<i32, StatxState>,
    /// Argument of a translated termios2 request whose speed fields still have to
    /// be filled in once the kernel has answered.
    termios2_get: HashMap<i32, u64>,
    /// Calls emulated with real calls inside the process.
    emulated: Emulations,
    /// The stack pointer to restore at the exit of a call that needed scratch space.
    reserved: HashMap<i32, u64>,
    /// The signals that arrived during an emulation, held back until it is over.
    stashed_signal: HashMap<i32, VecDeque<i32>>,
    /// Processes resumed from a stop of the filter whose entry stop, which follows,
    /// has not been consumed. The stop after that one carries the result.
    expect_entry: HashSet<i32>,
    /// Every call is traced.
    syscall_mode: bool,
    /// The filter is installed, so only the translated calls stop.
    seccomp_mode: bool,
    /// How the main process ended, while others that it started go on.
    main_code: Option<i32>,
    task: Task,
}

/// [`Tracer`] as contracts speak of it.
#[verifier::ext_equal]
pub struct TracerView {
    pub child: i32,
    pub use_seccomp: bool,
    pub configured: Set<i32>,
    pub in_syscall: Map<i32, bool>,
    pub last_syscall: Map<i32, u64>,
    pub statx: Map<i32, StatxState>,
    pub termios2_get: Map<i32, u64>,
    pub emulated: EmulationsView,
    pub reserved: Map<i32, u64>,
    pub stashed_signal: Map<i32, Seq<i32>>,
    pub expect_entry: Set<i32>,
    pub syscall_mode: bool,
    pub seccomp_mode: bool,
    pub main_code: Option<i32>,
    pub task: Task,
}

impl View for Tracer {
    type V = TracerView;

    closed spec fn view(&self) -> TracerView {
        TracerView {
            child: self.child,
            use_seccomp: self.use_seccomp,
            configured: self.configured@,
            in_syscall: self.in_syscall@,
            last_syscall: self.last_syscall@,
            statx: self.statx@,
            termios2_get: self.termios2_get@,
            emulated: self.emulated@,
            reserved: self.reserved@,
            stashed_signal: self.stashed_signal@.map_values(|q: VecDeque<i32>| q@),
            expect_entry: self.expect_entry@,
            syscall_mode: self.syscall_mode,
            seccomp_mode: self.seccomp_mode,
            main_code: self.main_code,
            task: self.task,
        }
    }
}

/// The tracer's next state, and what the driver is to do.
pub type Next = (TracerView, Action<Seq<u8>>);

/// The tracing options that are asked for, in order. With the filter installed its
/// stops are wanted too.
pub open spec fn options_for(seccomp: bool) -> Seq<u32> {
    let always = seq![
        PTRACE_O_TRACESYSGOOD,
        PTRACE_O_TRACEFORK,
        PTRACE_O_TRACEVFORK,
        PTRACE_O_TRACECLONE,
        PTRACE_O_TRACEEXEC,
    ];
    if seccomp { always.push(PTRACE_O_TRACESECCOMP) } else { always }
}

/// A signal that is not a real-time one.
pub open spec fn is_plain_signal(signal: i32) -> bool {
    1 <= signal <= 31
}

/// How many random bytes are fetched next.
pub open spec fn chunk_len(count: u64, done: u64) -> int {
    if done >= count {
        0
    } else if count - done < CHUNK {
        count - done
    } else {
        CHUNK as int
    }
}

/// The last number in the call table of a kernel that echoes numbers: the tables grew
/// by one call in 2.6.18.
pub open spec fn table_end(version: Option<Version>) -> u64 {
    if lt(version, (2, 6, 18)) { 278 } else { 279 }
}

/// The call in `regs` is one that takes a clock id as its first argument.
pub open spec fn takes_clock(nr: u64) -> bool {
    nr == SYS_CLOCK_GETTIME || nr == SYS_CLOCK_GETRES || nr == SYS_CLOCK_NANOSLEEP
}

/// `prlimit64` on the caller itself, as `setrlimit` or `getrlimit`.
pub open spec fn rlimit_call(regs: Regs) -> Regs {
    if regs.rdx != 0 {
        renumbered(Regs { rdi: regs.rsi, rsi: regs.rdx, ..regs }, SYS_SETRLIMIT)
    } else {
        renumbered(Regs { rdi: regs.rsi, rsi: regs.r10, ..regs }, SYS_GETRLIMIT)
    }
}

/// `ppoll` as `poll`, without its signal mask. A timeout that is absent or cannot
/// be read is no timeout.
pub open spec fn poll_call(regs: Regs, timeout: Option<Time>) -> Regs {
    let ms = match timeout {
        Some(t) => millis(t),
        None => -1i32,
    };
    renumbered(Regs { rdx: ms as i64 as u64, ..regs }, SYS_POLL)
}

impl TracerView {
    /// A tracer of `child`, which has not stopped yet.
    pub open spec fn fresh(child: i32, use_seccomp: bool) -> TracerView {
        TracerView {
            child,
            use_seccomp,
            configured: set![child],
            in_syscall: Map::empty(),
            last_syscall: Map::empty(),
            statx: Map::empty(),
            termios2_get: Map::empty(),
            emulated: EmulationsView {
                active: Map::empty(),
                sequence: 0,
                timers: Map::empty(),
                write_ends: Map::empty(),
                due: Seq::empty(),
                released: Seq::empty(),
            },
            reserved: Map::empty(),
            stashed_signal: Map::empty(),
            expect_entry: Set::empty(),
            syscall_mode: false,
            seccomp_mode: false,
            main_code: None,
            task: Task::Launch,
        }
    }

    /// The driver performs `action`, and `task` waits for how it went.
    pub open spec fn awaits(self, task: Task, action: Action<Seq<u8>>) -> Next {
        (TracerView { task, ..self }, action)
    }

    /// The process runs on, as the mode says.
    pub open spec fn resumes(self, pid: i32, signal: Option<i32>) -> Next {
        self.awaits(Task::Resumed, Action::Resume { pid, syscall: self.syscall_mode, signal })
    }

    /// The signals that are held back for the process, in the order they came.
    pub open spec fn held(self, pid: i32) -> Seq<i32> {
        if self.stashed_signal.contains_key(pid) {
            self.stashed_signal[pid]
        } else {
            Seq::empty()
        }
    }

    /// The process runs on from a system call stop. Outside an emulation it gets the
    /// first of the signals that were held back.
    pub open spec fn leaves(self, pid: i32) -> Next {
        let held = self.held(pid);
        if !self.emulated.active.contains_key(pid) && held.len() > 0 {
            TracerView {
                stashed_signal: if held.len() == 1 {
                    self.stashed_signal.remove(pid)
                } else {
                    self.stashed_signal.insert(pid, held.drop_first())
                },
                ..self
            }.resumes(pid, Some(held[0]))
        } else {
            self.resumes(pid, None)
        }
    }

    /// The process runs on up to its next system call stop.
    pub open spec fn resumes_syscall(self, pid: i32, signal: Option<i32>) -> Next {
        self.awaits(Task::Resumed, Action::Resume { pid, syscall: true, signal })
    }

    /// The tracer ends.
    pub open spec fn ends(self, code: i32) -> Next {
        self.awaits(Task::Over { code }, Action::Exit { code })
    }

    /// All that is kept of a process is dropped.
    pub open spec fn forgotten(self, pid: i32) -> TracerView {
        TracerView {
            configured: self.configured.remove(pid),
            in_syscall: self.in_syscall.remove(pid),
            last_syscall: self.last_syscall.remove(pid),
            statx: self.statx.remove(pid),
            termios2_get: self.termios2_get.remove(pid),
            emulated: self.emulated.forgotten(pid),
            reserved: self.reserved.remove(pid),
            stashed_signal: self.stashed_signal.remove(pid),
            expect_entry: self.expect_entry.remove(pid),
            ..self
        }
    }

    /// The emulated deadlines are served, then a process is waited for.
    pub open spec fn ticks(self) -> Next {
        self.ticked(self.emulated.ticks())
    }

    pub open spec fn ticked(self, r: (EmulationsView, Progress<Seq<u8>>)) -> Next {
        let t = TracerView { emulated: r.0, ..self };
        match r.1 {
            Progress::Act(action, at) => t.awaits(Task::Tick { at }, action),
            Progress::Done(_) => t.awaits(Task::Wait, Action::Wait),
        }
    }

    /// The tracing options from `index` on are tried one at a time; then it goes on.
    pub open spec fn configures(
        self,
        pid: i32,
        index: u8,
        set: u32,
        seccomp: bool,
        stopped: Option<i32>,
    ) -> Next {
        if index < options_for(seccomp).len() {
            let option = options_for(seccomp)[index as int];
            self.awaits(
                Task::Options { pid, index, set, option, seccomp, stopped },
                Action::SetOptions { pid, options: set | option },
            )
        } else {
            match stopped {
                None => self.launched(set),
                Some(signal) => {
                    let t = TracerView { configured: self.configured.insert(pid), ..self };
                    if signal == SIGSTOP {
                        t.resumes(pid, None)
                    } else {
                        t.signalled(pid, signal)
                    }
                },
            }
        }
    }

    /// The main process is configured and starts. With the filter only the
    /// filtered calls stop; otherwise every call does.
    pub open spec fn launched(self, set: u32) -> Next {
        let seccomp_mode = self.use_seccomp && set & PTRACE_O_TRACESECCOMP != 0;
        let syscall_mode = !seccomp_mode && set & PTRACE_O_TRACESYSGOOD != 0;
        TracerView { seccomp_mode, syscall_mode, ..self }.resumes(self.child, None)
    }

    /// The first state change of the main process. One that ended already has its
    /// status passed on.
    pub open spec fn launches(self, event: Event<Seq<u8>>) -> Next {
        match event {
            Event::Waited { pid, status } => match meaning(pid, status) {
                Wait::Exited { code, .. } => self.ends(code),
                Wait::Signaled { signal, .. } if is_plain_signal(signal) => self.ends(
                    (128 + signal) as i32,
                ),
                _ => self.configures(self.child, 0, 0, self.use_seccomp, None),
            },
            _ => self.configures(self.child, 0, 0, self.use_seccomp, None),
        }
    }

    /// A process changed state.
    pub open spec fn waited(self, event: Event<Seq<u8>>) -> Next {
        match event {
            Event::Waited { pid, status } => match meaning(pid, status) {
                Wait::Exited { pid, code } => self.forgotten(pid).ended(pid, code),
                Wait::Signaled { pid, signal } => self.forgotten(pid).ended(
                    pid,
                    (128 + signal) as i32,
                ),
                Wait::Stopped { pid, signal } => self.stopped(pid, signal),
                Wait::Event { pid, event } => if event == PTRACE_EVENT_SECCOMP {
                    self.awaits(Task::Filtered { pid }, Action::GetRegs { pid })
                } else {
                    self.resumes(pid, None)
                },
                Wait::Syscall { pid } => self.syscall_stop(pid),
            },
            Event::WaitFailed { errno } if errno == ECHILD => self.ends(
                match self.main_code {
                    Some(code) => code,
                    None => 0i32,
                },
            ),
            _ => self.ticks(),
        }
    }

    /// A process ended. With the main process the tracer ends too, unless the
    /// filter needs it: then it goes on until every process is gone.
    pub open spec fn ended(self, pid: i32, code: i32) -> Next {
        if pid == self.child {
            if self.seccomp_mode {
                TracerView { main_code: Some(code), ..self }.ticks()
            } else {
                self.ends(code)
            }
        } else {
            self.ticks()
        }
    }

    /// A process was stopped by a signal. One that is new is configured first.
    pub open spec fn stopped(self, pid: i32, signal: i32) -> Next {
        if pid != self.child && !self.configured.contains(pid) {
            self.configures(pid, 0, 0, self.seccomp_mode, Some(signal))
        } else {
            self.signalled(pid, signal)
        }
    }

    /// A signal for a process. During an emulation it is held back: a handler must
    /// not run between the calls of the emulation.
    pub open spec fn signalled(self, pid: i32, signal: i32) -> Next {
        if self.emulated.active.contains_key(pid) && signal != 0 && signal != SIGSTOP && signal
            != SIGTRAP {
            TracerView {
                stashed_signal: self.stashed_signal.insert(pid, self.held(pid).push(signal)),
                ..self
            }.resumes(pid, None)
        } else if signal == SIGILL {
            self.awaits(Task::IllegalRegs { pid }, Action::GetRegs { pid })
        } else {
            self.delivers(pid, Some(signal))
        }
    }

    /// The exit stop of a translated call is still to come.
    pub open spec fn exit_pending(self, pid: i32) -> bool {
        self.seccomp_mode && (self.reserved.contains_key(pid) || self.expect_entry.contains(pid)
            || self.statx.contains_key(pid) || self.last_syscall.contains_key(pid))
    }

    /// A process gets its signal, without losing the exit stop of a translated call.
    pub open spec fn delivers(self, pid: i32, signal: Option<i32>) -> Next {
        if self.exit_pending(pid) {
            self.resumes_syscall(pid, signal)
        } else {
            self.resumes(pid, signal)
        }
    }

    /// A system call stop.
    pub open spec fn syscall_stop(self, pid: i32) -> Next {
        if self.seccomp_mode {
            if self.expect_entry.contains(pid) {
                TracerView { expect_entry: self.expect_entry.remove(pid), ..self }.resumes_syscall(
                    pid,
                    None,
                )
            } else {
                self.awaits(Task::Exit { pid }, Action::GetRegs { pid })
            }
        } else if self.emulated.active.contains_key(pid) {
            self.stepped(pid, self.emulated.stepped(pid))
        } else {
            self.begun(pid, self.emulated.begins(pid, !self.inside(pid)))
        }
    }

    /// The last stop of the process was the entry of a call.
    pub open spec fn inside(self, pid: i32) -> bool {
        self.in_syscall.contains_key(pid) && self.in_syscall[pid]
    }

    /// An emulation made progress. Once it is over, the signals that were held back
    /// are delivered.
    pub open spec fn stepped(self, pid: i32, r: (EmulationsView, Progress<Seq<u8>>)) -> Next {
        let t = TracerView { emulated: r.0, ..self };
        match r.1 {
            Progress::Act(action, at) => t.awaits(Task::Step { pid, at }, action),
            Progress::Done(_) => t.leaves(pid),
        }
    }

    /// A call was offered to the emulations. One that they leave is handled here.
    pub open spec fn begun(self, pid: i32, r: (EmulationsView, Progress<Seq<u8>>)) -> Next {
        let t = TracerView { emulated: r.0, ..self };
        match r.1 {
            Progress::Act(action, at) => t.awaits(Task::Begin { pid, at }, action),
            Progress::Done(taken) => if taken {
                t.leaves(pid)
            } else {
                t.plain_stop(pid)
            },
        }
    }

    /// A system call stop that belongs to the application.
    pub open spec fn plain_stop(self, pid: i32) -> Next {
        let entering = !self.inside(pid);
        let t = TracerView { in_syscall: self.in_syscall.insert(pid, entering), ..self };
        if entering {
            t.awaits(Task::Entry { pid }, Action::GetRegs { pid })
        } else {
            t.awaits(Task::Exit { pid }, Action::GetRegs { pid })
        }
    }

    /// The entry of a call. A 32-bit process is never translated: everything here
    /// means something else to it.
    pub open spec fn enters(self, pid: i32, regs: Option<Regs>, k: Kernel) -> Next {
        match regs {
            Some(regs) => {
                let t = TracerView {
                    last_syscall: self.last_syscall.insert(pid, regs.orig_rax),
                    ..self
                };
                if regs.cs != CS_64 {
                    t.leaves(pid)
                } else {
                    t.translates(pid, regs, k)
                }
            },
            None => self.leaves(pid),
        }
    }

    /// A call at its entry, where every call is traced.
    pub open spec fn translates(self, pid: i32, regs: Regs, k: Kernel) -> Next {
        let nr = regs.orig_rax;
        if nr == SYS_FUTEX {
            self.futex(pid, regs, false, k)
        } else if nr == SYS_PIPE2 && k.pipe2_missing {
            self.rewrites(pid, renumbered(regs, SYS_PIPE), false, false)
        } else if nr == SYS_EPOLL_CREATE1 && k.epoll_create1_missing {
            self.rewrites(
                pid,
                renumbered(Regs { rdi: 1, ..regs }, SYS_EPOLL_CREATE),
                false,
                false,
            )
        } else if nr == SYS_STATX && k.statx_missing {
            self.statx(pid, regs, false)
        } else if nr == SYS_PRLIMIT64 && k.prlimit64_missing {
            if regs.rdi == 0 {
                self.rewrites(pid, rlimit_call(regs), false, false)
            } else {
                self.leaves(pid)
            }
        } else if nr == SYS_IOCTL && lt(k.version, (2, 6, 20)) {
            match legacy_request(regs.rsi) {
                Some(legacy) => self.awaits(
                    Task::TermiosSet { pid, regs, legacy },
                    Action::SetRegs { pid, regs: Regs { rsi: legacy, ..regs } },
                ),
                None => self.leaves(pid),
            }
        } else if takes_clock(nr) {
            if clock_for(k, regs.rdi) != regs.rdi {
                self.rewrites(pid, Regs { rdi: clock_for(k, regs.rdi), ..regs }, false, false)
            } else {
                self.leaves(pid)
            }
        } else if nr == SYS_PPOLL && k.ppoll_missing {
            if regs.rdx == 0 {
                self.rewrites(pid, poll_call(regs, None), false, false)
            } else {
                self.awaits(
                    Task::PpollTimeout { pid, regs },
                    Action::Read { pid, addr: regs.rdx, len: 16 },
                )
            }
        } else {
            self.leaves(pid)
        }
    }

    /// A call at a stop of the filter.
    pub open spec fn filtered(self, pid: i32, regs: Option<Regs>, k: Kernel) -> Next {
        match regs {
            Some(regs) => {
                let nr = regs.orig_rax;
                if nr == SYS_FUTEX {
                    self.futex(pid, regs, true, k)
                } else if nr == SYS_PIPE2 && k.pipe2_missing {
                    self.rewrites(pid, renumbered(regs, SYS_PIPE), true, false)
                } else if nr == SYS_STATX && k.statx_missing {
                    self.statx(pid, regs, true)
                } else if nr == SYS_GETRANDOM && k.getrandom_missing {
                    TracerView {
                        last_syscall: self.last_syscall.insert(pid, nr),
                        ..self
                    }.translated(pid, true, true)
                } else {
                    self.translated(pid, true, false)
                }
            },
            None => self.translated(pid, true, false),
        }
    }

    /// A call is made with other registers.
    pub open spec fn rewrites(self, pid: i32, regs: Regs, filtered: bool, owed: bool) -> Next {
        self.awaits(Task::Translated { pid, filtered, owed }, Action::SetRegs { pid, regs })
    }

    /// A call was translated. After a stop of the filter its exit stop has to be
    /// asked for, and the entry stop comes before it.
    pub open spec fn translated(self, pid: i32, filtered: bool, owed: bool) -> Next {
        if filtered && owed {
            TracerView { expect_entry: self.expect_entry.insert(pid), ..self }.resumes_syscall(
                pid,
                None,
            )
        } else if filtered {
            self.resumes(pid, None)
        } else {
            self.leaves(pid)
        }
    }

    /// A futex call.
    pub open spec fn futex(self, pid: i32, regs: Regs, filtered: bool, k: Kernel) -> Next {
        match futex(k.version, regs) {
            Futex::Keep => self.translated(pid, filtered, false),
            Futex::Rewrite(patched) => self.rewrites(pid, patched, filtered, false),
            Futex::Timed => self.awaits(
                Task::FutexTimeout { pid, regs, filtered },
                Action::Read { pid, addr: regs.r10, len: 16 },
            ),
        }
    }

    /// A `statx` call. One without a buffer is left to fail.
    pub open spec fn statx(self, pid: i32, regs: Regs, filtered: bool) -> Next {
        if regs.r8 == 0 {
            self.translated(pid, filtered, true)
        } else {
            self.awaits(
                Task::StatxSet { pid, regs, filtered },
                Action::SetRegs { pid, regs: stat_call(regs) },
            )
        }
    }

    /// The exit of a call. Nothing can be completed for a process that cannot be
    /// read, and nothing here applies to a 32-bit one.
    pub open spec fn exits(self, pid: i32, regs: Option<Regs>, k: Kernel) -> Next {
        match regs {
            Some(regs) => if regs.cs != CS_64 {
                self.leaves(pid)
            } else if self.termios2_get.contains_key(pid) {
                let t = TracerView { termios2_get: self.termios2_get.remove(pid), ..self };
                let address = self.termios2_get[pid];
                if regs.rax == 0 {
                    t.awaits(
                        Task::TermiosRead { pid, regs, address },
                        Action::Read { pid, addr: address, len: TERMIOS2_ISPEED as usize },
                    )
                } else {
                    t.exits_statx(pid, regs, false, k)
                }
            } else {
                self.exits_statx(pid, regs, false, k)
            },
            None => TracerView {
                termios2_get: self.termios2_get.remove(pid),
                statx: self.statx.remove(pid),
                ..self
            }.leaves(pid),
        }
    }

    /// The exit of a call, as far as a translated `statx` is concerned.
    pub open spec fn exits_statx(self, pid: i32, regs: Regs, dirty: bool, k: Kernel) -> Next {
        if self.statx.contains_key(pid) {
            let t = TracerView { statx: self.statx.remove(pid), ..self };
            let state = self.statx[pid];
            if regs.rax == 0 {
                t.awaits(
                    Task::StatxRead { pid, regs, dirty, statxbuf: state.statxbuf },
                    Action::Read { pid, addr: state.scratch, len: STAT_SIZE },
                )
            } else {
                t.exits_stack(pid, regs, dirty, k)
            }
        } else {
            self.exits_stack(pid, regs, dirty, k)
        }
    }

    /// The exit of a call, as far as scratch space is concerned.
    pub open spec fn exits_stack(self, pid: i32, regs: Regs, dirty: bool, k: Kernel) -> Next {
        if self.reserved.contains_key(pid) {
            TracerView { reserved: self.reserved.remove(pid), ..self }.exits_random(
                pid,
                Regs { rsp: self.reserved[pid], ..regs },
                true,
                k,
            )
        } else {
            self.exits_random(pid, regs, dirty, k)
        }
    }

    /// The exit of a call, as far as `getrandom` is concerned. Where the kernel
    /// lacks it the buffer is always filled here, whatever the kernel returned.
    pub open spec fn exits_random(self, pid: i32, regs: Regs, dirty: bool, k: Kernel) -> Next {
        if self.last_syscall.contains_key(pid) && self.last_syscall[pid] == SYS_GETRANDOM
            && k.getrandom_missing {
            if regs.rsi == 0 {
                self.settles(pid, Regs { rax: regs.rsi, ..regs }, true)
            } else if regs.rdi == 0 {
                self.random_lost(pid, regs, dirty, k)
            } else {
                self.awaits(Task::RandomOpen { pid, regs, dirty }, Action::OpenRandom)
            }
        } else {
            self.exits_echo(pid, regs, dirty, k)
        }
    }

    /// Random bytes are fetched until all that were asked for are delivered.
    pub open spec fn random(self, pid: i32, regs: Regs, dirty: bool, done: u64, k: Kernel) -> Next {
        if done < regs.rsi {
            self.awaits(
                Task::RandomRead { pid, regs, dirty, done },
                Action::ReadRandom { len: chunk_len(regs.rsi, done) as usize },
            )
        } else {
            self.settles(pid, Regs { rax: regs.rsi, ..regs }, true)
        }
    }

    /// The random bytes could not be delivered. A call answered with its own number
    /// is reported as missing, so that callers do not take it for success.
    pub open spec fn random_lost(self, pid: i32, regs: Regs, dirty: bool, k: Kernel) -> Next {
        if regs.rax == SYS_GETRANDOM {
            self.exits_echo(pid, Regs { rax: failed(ENOSYS), ..regs }, true, k)
        } else {
            self.exits_echo(pid, regs, dirty, k)
        }
    }

    /// The kernel answered an untranslated call, which it does not have, with the
    /// call's own number. A rewritten call executes another, whose result is its own,
    /// and so is that of a call that was answered here.
    pub open spec fn echoed(self, pid: i32, regs: Regs, k: Kernel) -> bool {
        self.last_syscall.contains_key(pid) && self.last_syscall[pid] > table_end(k.version) && lt(
            k.version,
            (2, 6, 19),
        ) && regs.orig_rax == self.last_syscall[pid] && regs.rax == self.last_syscall[pid]
    }

    /// The exit of a call, as far as echoed numbers are concerned. A number that was
    /// echoed becomes the error that it stands for.
    pub open spec fn exits_echo(self, pid: i32, regs: Regs, dirty: bool, k: Kernel) -> Next {
        if self.echoed(pid, regs, k) {
            self.settles(pid, Regs { rax: failed(ENOSYS), ..regs }, true)
        } else {
            self.settles(pid, regs, dirty)
        }
    }

    /// The end of a call: its registers are written where they changed.
    pub open spec fn settles(self, pid: i32, regs: Regs, dirty: bool) -> Next {
        let t = TracerView { last_syscall: self.last_syscall.remove(pid), ..self };
        if dirty {
            t.awaits(Task::Settled { pid }, Action::SetRegs { pid, regs })
        } else {
            t.leaves(pid)
        }
    }

    /// What is done next, now that the driver has acted.
    pub open spec fn continues(self, event: Event<Seq<u8>>, k: Kernel) -> Next {
        match self.task {
            Task::Launch => self.launches(event),
            Task::Options { pid, index, set, option, seccomp, stopped } => if event is Done {
                self.configures(pid, index.wrapping_add(1), set | option, seccomp, stopped)
            } else {
                self.awaits(
                    Task::OptionsKept { pid, index, set, seccomp, stopped },
                    Action::SetOptions { pid, options: set },
                )
            },
            Task::OptionsKept { pid, index, set, seccomp, stopped } => self.configures(
                pid,
                index.wrapping_add(1),
                set,
                seccomp,
                stopped,
            ),
            Task::Resumed => self.ticks(),
            Task::Tick { at } => self.ticked(self.emulated.proceeds(self.child, at, event, k)),
            Task::Wait => self.waited(event),
            Task::Begin { pid, at } => self.begun(pid, self.emulated.proceeds(pid, at, event, k)),
            Task::Step { pid, at } => self.stepped(pid, self.emulated.proceeds(pid, at, event, k)),
            Task::IllegalRegs { pid } => match event.regs_of() {
                Some(regs) => self.awaits(
                    Task::IllegalWord { pid, regs },
                    Action::Peek { pid, addr: regs.rip },
                ),
                None => self.delivers(pid, Some(SIGILL)),
            },
            Task::IllegalWord { pid, regs } => match event.word_of() {
                Some(word) => match emulated(regs, word) {
                    Some(patched) => self.awaits(
                        Task::IllegalSet { pid },
                        Action::SetRegs { pid, regs: patched },
                    ),
                    None => self.delivers(pid, Some(SIGILL)),
                },
                None => self.delivers(pid, Some(SIGILL)),
            },
            Task::IllegalSet { pid } => if event is Done {
                self.delivers(pid, None)
            } else {
                self.delivers(pid, Some(SIGILL))
            },
            Task::Filtered { pid } => self.filtered(pid, event.regs_of(), k),
            Task::Entry { pid } => self.enters(pid, event.regs_of(), k),
            Task::Translated { pid, filtered, owed } => self.translated(pid, filtered, owed),
            Task::FutexTimeout { pid, regs, filtered } => match event.bytes_of(16) {
                Some(bytes) => self.awaits(
                    Task::FutexClock { pid, regs, filtered, deadline: time_at(bytes, 0) },
                    Action::Clock { id: if is_realtime(regs.rsi as u32) { 0 } else { 1 } },
                ),
                None => self.translated(pid, filtered, false),
            },
            Task::FutexClock { pid, regs, filtered, deadline } => match event.time_of() {
                Some(now) => self.awaits(
                    Task::FutexScratch { pid, regs, filtered },
                    Action::Write {
                        pid,
                        addr: scratch(regs.rsp),
                        bytes: time_bytes(difference(deadline, now)),
                    },
                ),
                None => self.translated(pid, filtered, false),
            },
            Task::FutexScratch { pid, regs, filtered } => if event is Done {
                TracerView { reserved: self.reserved.insert(pid, regs.rsp), ..self }.rewrites(
                    pid,
                    timed(regs),
                    filtered,
                    true,
                )
            } else {
                self.translated(pid, filtered, false)
            },
            Task::StatxSet { pid, regs, filtered } => if event is Done {
                TracerView {
                    reserved: self.reserved.insert(pid, regs.rsp),
                    statx: self.statx.insert(
                        pid,
                        StatxState { statxbuf: regs.r8, scratch: scratch(regs.rsp) },
                    ),
                    ..self
                }.translated(pid, filtered, true)
            } else {
                self.translated(pid, filtered, true)
            },
            Task::TermiosSet { pid, regs, legacy } => if event is Done && legacy == TCGETS {
                TracerView {
                    termios2_get: self.termios2_get.insert(pid, regs.rdx),
                    ..self
                }.leaves(pid)
            } else {
                self.leaves(pid)
            },
            Task::PpollTimeout { pid, regs } => self.rewrites(
                pid,
                poll_call(
                    regs,
                    match event.bytes_of(16) {
                        Some(bytes) => Some(time_at(bytes, 0)),
                        None => None,
                    },
                ),
                false,
                false,
            ),
            Task::Exit { pid } => self.exits(pid, event.regs_of(), k),
            Task::TermiosRead { pid, regs, address } => self.awaits(
                Task::TermiosWrote { pid, regs },
                Action::Write {
                    pid,
                    addr: address.wrapping_add(TERMIOS2_ISPEED),
                    bytes: speed_fields(event.bytes_of(TERMIOS2_ISPEED as int)),
                },
            ),
            Task::TermiosWrote { pid, regs } => if event is Done {
                self.exits_statx(pid, regs, false, k)
            } else {
                self.exits_statx(pid, Regs { rax: failed(EFAULT), ..regs }, true, k)
            },
            Task::StatxRead { pid, regs, dirty, statxbuf } => match event.bytes_of(
                STAT_SIZE as int,
            ) {
                Some(stat) => self.awaits(
                    Task::StatxWrote { pid, regs, dirty },
                    Action::Write { pid, addr: statxbuf, bytes: statx_of(stat) },
                ),
                None => self.exits_stack(pid, Regs { rax: failed(EFAULT), ..regs }, true, k),
            },
            Task::StatxWrote { pid, regs, dirty } => if event is Done {
                self.exits_stack(pid, regs, dirty, k)
            } else {
                self.exits_stack(pid, Regs { rax: failed(EFAULT), ..regs }, true, k)
            },
            Task::RandomOpen { pid, regs, dirty } => if event is Done {
                self.random(pid, regs, dirty, 0, k)
            } else {
                self.random_lost(pid, regs, dirty, k)
            },
            Task::RandomRead { pid, regs, dirty, done } => match event.bytes_of(
                chunk_len(regs.rsi, done),
            ) {
                Some(bytes) => self.awaits(
                    Task::RandomWrote {
                        pid,
                        regs,
                        dirty,
                        done: (done + chunk_len(regs.rsi, done)) as u64,
                    },
                    Action::Write { pid, addr: regs.rdi.wrapping_add(done), bytes },
                ),
                None => self.random_lost(pid, regs, dirty, k),
            },
            Task::RandomWrote { pid, regs, dirty, done } => if event is Done {
                self.random(pid, regs, dirty, done, k)
            } else {
                self.random_lost(pid, regs, dirty, k)
            },
            Task::Settled { pid } => self.leaves(pid),
            Task::Over { code } => self.ends(code),
        }
    }
}

/// The tracing options that are asked for. None of them has descendants killed
/// with the tracer: one may be a daemon.
pub fn tracer_options(seccomp: bool) -> (options: Vec<u32>)
    ensures
        options@ == options_for(seccomp),
{
    let mut options: Vec<u32> = vec![
        PTRACE_O_TRACESYSGOOD,
        PTRACE_O_TRACEFORK,
        PTRACE_O_TRACEVFORK,
        PTRACE_O_TRACECLONE,
        PTRACE_O_TRACEEXEC,
    ];
    if seccomp {
        options.push(PTRACE_O_TRACESECCOMP);
    }
    assert(options@ =~= options_for(seccomp));
    options
}

/// The tracing option at `index`.
fn option_at(seccomp: bool, index: u8) -> (r: Option<u32>)
    ensures
        r == (if index < options_for(seccomp).len() {
            Some(options_for(seccomp)[index as int])
        } else {
            None
        }),
{
    let options = tracer_options(seccomp);
    if (index as usize) < options.len() {
        Some(options[index as usize])
    } else {
        None
    }
}

/// `prlimit64` as the older calls. The two structs are the same, so only the number
/// and the order of the arguments change. A caller that passes both a new and an
/// old limit keeps the new one and gets nothing back in the old one.
fn translate_rlimit(regs: Regs) -> (r: Regs)
    ensures
        r == rlimit_call(regs),
{
    let setting = regs.rdx != 0;
    let nr = if setting { SYS_SETRLIMIT } else { SYS_GETRLIMIT };
    let limit = if setting { regs.rdx } else { regs.r10 };
    with_number(Regs { rdi: regs.rsi, rsi: limit, ..regs }, nr)
}

/// `ppoll` as `poll`.
fn translate_ppoll(regs: Regs, timeout: Option<Time>) -> (r: Regs)
    ensures
        r == poll_call(regs, timeout),
{
    let ms = match timeout {
        Some(t) => poll_timeout(t),
        None => -1,
    };
    with_number(Regs { rdx: ms as i64 as u64, ..regs }, SYS_POLL)
}

/// The last number in the call table of a kernel that echoes numbers.
fn end_of_table(version: Option<Version>) -> (nr: u64)
    ensures
        nr == table_end(version),
{
    if kernel_lt(version, 2, 6, 18) {
        278
    } else {
        279
    }
}

/// How many random bytes to fetch next.
fn next_chunk(count: u64, done: u64) -> (len: usize)
    ensures
        len == chunk_len(count, done),
{
    if done >= count {
        0
    } else if count - done < CHUNK {
        (count - done) as usize
    } else {
        CHUNK as usize
    }
}

impl Tracer {
    /// Start to trace `child`, which is to stop itself. `use_seccomp` says that it
    /// installed the filter.
    pub fn supervise(child: i32, use_seccomp: bool) -> (r: (Tracer, Action<Vec<u8>>))
        ensures
            r.0@ == TracerView::fresh(child, use_seccomp),
            r.1@ == (Action::<Seq<u8>>::WaitFor { pid: child }),
    {
        let mut configured: HashSet<i32> = HashSet::new();
        configured.insert(child);
        let tracer = Tracer {
            child,
            use_seccomp,
            configured,
            in_syscall: HashMap::new(),
            last_syscall: HashMap::new(),
            statx: HashMap::new(),
            termios2_get: HashMap::new(),
            emulated: Emulations::new(),
            reserved: HashMap::new(),
            stashed_signal: HashMap::new(),
            expect_entry: HashSet::new(),
            syscall_mode: false,
            seccomp_mode: false,
            main_code: None,
            task: Task::Launch,
        };
        assert(tracer@ =~= TracerView::fresh(child, use_seccomp));
        (tracer, Action::WaitFor { pid: child })
    }

    /// Hand over the handles that are no longer needed, to be closed.
    pub fn take_released(&mut self) -> (handles: Vec<i32>)
        ensures
            handles@ == old(self)@.emulated.released,
            final(self)@ == (TracerView {
                emulated: EmulationsView { released: Seq::empty(), ..old(self)@.emulated },
                ..old(self)@
            }),
    {
        self.emulated.take_released()
    }

    /// What the tracer waits for.
    pub fn task(&self) -> (task: Task)
        ensures
            task == self@.task,
    {
        self.task
    }

    /// Whether only the filtered calls stop, and whether every call does.
    pub fn modes(&self) -> (modes: (bool, bool))
        ensures
            modes == (self@.seccomp_mode, self@.syscall_mode),
    {
        (self.seccomp_mode, self.syscall_mode)
    }

    fn await_for(&mut self, task: Task, action: Action<Vec<u8>>) -> (a: Action<Vec<u8>>)
        ensures
            final(self)@ == old(self)@.awaits(task, action@).0,
            a@ == action@,
    {
        self.task = task;
        action
    }

    fn resume(&mut self, pid: i32, signal: Option<i32>) -> (a: Action<Vec<u8>>)
        ensures
            final(self)@ == old(self)@.resumes(pid, signal).0,
            a@ == old(self)@.resumes(pid, signal).1,
    {
        self.task = Task::Resumed;
        Action::Resume { pid, syscall: self.syscall_mode, signal }
    }

    /// Let the process run on from a system call stop, with the first of the signals
    /// that were held back for it.
    fn leave(&mut self, pid: i32) -> (a: Action<Vec<u8>>)
        ensures
            final(self)@ == old(self)@.leaves(pid).0,
            a@ == old(self)@.leaves(pid).1,
    {
        if self.emulated.busy(pid) {
            return self.resume(pid, None);
        }
        let Some(mut held) = self.stashed_signal.remove(&pid) else {
            assert(self@.stashed_signal =~= old(self)@.stashed_signal);
            return self.resume(pid, None);
        };
        let ghost all = held@;
        let Some(signal) = held.pop_front() else {
            self.stashed_signal.insert(pid, held);
            assert(self@.stashed_signal =~= old(self)@.stashed_signal);
            return self.resume(pid, None);
        };
        if held.len() > 0 {
            self.stashed_signal.insert(pid, held);
            assert(all.drop_first() =~= held@);
            assert(self@.stashed_signal =~= old(self)@.stashed_signal.insert(
                pid,
                all.drop_first(),
            ));
        } else {
            assert(self@.stashed_signal =~= old(self)@.stashed_signal.remove(pid));
        }
        self.resume(pid, Some(signal))
    }

    /// Hold a signal back.
    fn hold(&mut self, pid: i32, signal: i32)
        ensures
            final(self)@ == (TracerView {
                stashed_signal: old(self)@.stashed_signal.insert(
                    pid,
                    old(self)@.held(pid).push(signal),
                ),
                ..old(self)@
            }),
    {
        let mut held = match self.stashed_signal.remove(&pid) {
            Some(held) => held,
            None => VecDeque::new(),
        };
        assert(held@ =~= old(self)@.held(pid));
        held.push_back(signal);
        self.stashed_signal.insert(pid, held);
        assert(self@.stashed_signal =~= old(self)@.stashed_signal.insert(
            pid,
            old(self)@.held(pid).push(signal),
        ));
    }

    fn resume_syscall(&mut self, pid: i32, signal: Option<i32>) -> (a: Action<Vec<u8>>)
        ensures
            final(self)@ == old(self)@.resumes_syscall(pid, signal).0,
            a@ == old(self)@.resumes_syscall(pid, signal).1,
    {
        self.task = Task::Resumed;
        Action::Resume { pid, syscall: true, signal }
    }

    fn end(&mut self, code: i32) -> (a: Action<Vec<u8>>)
        ensures
            final(self)@ == old(self)@.ends(code).0,
            a@ == old(self)@.ends(code).1,
    {
        self.task = Task::Over { code };
        Action::Exit { code }
    }

    /// Drop all that is kept of a process once it is gone, so that a recycled id
    /// cannot inherit stale state.
    fn forget(&mut self, pid: i32)
        ensures
            final(self)@ == old(self)@.forgotten(pid),
    {
        self.configured.remove(&pid);
        self.in_syscall.remove(&pid);
        self.last_syscall.remove(&pid);
        self.statx.remove(&pid);
        self.termios2_get.remove(&pid);
        self.emulated.forget(pid);
        self.reserved.remove(&pid);
        self.stashed_signal.remove(&pid);
        self.expect_entry.remove(&pid);
        assert(self@.stashed_signal =~= old(self)@.stashed_signal.remove(pid));
    }

    fn on_ticked(&mut self, progress: Progress<Vec<u8>>) -> (a: Action<Vec<u8>>)
        ensures
            final(self)@ == old(self)@.ticked((old(self)@.emulated, progress@)).0,
            a@ == old(self)@.ticked((old(self)@.emulated, progress@)).1,
    {
        match progress {
            Progress::Act(action, at) => self.await_for(Task::Tick { at }, action),
            Progress::Done(_) => self.await_for(Task::Wait, Action::Wait),
        }
    }

    fn tick(&mut self) -> (a: Action<Vec<u8>>)
        ensures
            final(self)@ == old(self)@.ticks().0,
            a@ == old(self)@.ticks().1,
    {
        let progress = self.emulated.tick();
        self.on_ticked(progress)
    }

    /// Set as many of the tracing options as the kernel supports, one at a time.
    fn install_options(
        &mut self,
        pid: i32,
        index: u8,
        set: u32,
        seccomp: bool,
        stopped: Option<i32>,
    ) -> (a: Action<Vec<u8>>)
        ensures
            final(self)@ == old(self)@.configures(pid, index, set, seccomp, stopped).0,
            a@ == old(self)@.configures(pid, index, set, seccomp, stopped).1,
    {
        if let Some(option) = option_at(seccomp, index) {
            return self.await_for(
                Task::Options { pid, index, set, option, seccomp, stopped },
                Action::SetOptions { pid, options: set | option },
            );
        }
        match stopped {
            None => {
                self.seccomp_mode = self.use_seccomp && set & PTRACE_O_TRACESECCOMP != 0;
                self.syscall_mode = !self.seccomp_mode && set & PTRACE_O_TRACESYSGOOD != 0;
                let child = self.child;
                self.resume(child, None)
            },
            Some(signal) => {
                self.configured.insert(pid);
                if signal == SIGSTOP {
                    self.resume(pid, None)
                } else {
                    self.on_signal(pid, signal)
                }
            },
        }
    }

    fn on_launch(&mut self, event: Event<Vec<u8>>) -> (a: Action<Vec<u8>>)
        ensures
            final(self)@ == old(self)@.launches(event@).0,
            a@ == old(self)@.launches(event@).1,
    {
        if let Event::Waited { pid, status } = event {
            proof {
                reports_are_bounded(pid, status);
            }
            match decode(pid, status) {
                Wait::Exited { code, .. } => {
                    return self.end(code);
                },
                Wait::Signaled { signal, .. } => {
                    if 1 <= signal && signal <= 31 {
                        return self.end(128 + signal);
                    }
                },
                _ => {},
            }
        }
        let child = self.child;
        let seccomp = self.use_seccomp;
        self.install_options(child, 0, 0, seccomp, None)
    }

    fn on_wait(&mut self, event: Event<Vec<u8>>) -> (a: Action<Vec<u8>>)
        ensures
            final(self)@ == old(self)@.waited(event@).0,
            a@ == old(self)@.waited(event@).1,
    {
        match event {
            Event::Waited { pid, status } => {
                proof {
                    reports_are_bounded(pid, status);
                }
                match decode(pid, status) {
                    Wait::Exited { pid, code } => {
                        self.forget(pid);
                        self.on_end(pid, code)
                    },
                    Wait::Signaled { pid, signal } => {
                        self.forget(pid);
                        self.on_end(pid, 128 + signal)
                    },
                    Wait::Stopped { pid, signal } => self.on_stop(pid, signal),
                    Wait::Event { pid, event } => if event == PTRACE_EVENT_SECCOMP {
                        self.await_for(Task::Filtered { pid }, Action::GetRegs { pid })
                    } else {
                        self.resume(pid, None)
                    },
                    Wait::Syscall { pid } => self.on_syscall(pid),
                }
            },
            Event::WaitFailed { errno } => {
                if errno == ECHILD {
                    let code = match self.main_code {
                        Some(code) => code,
                        None => 0,
                    };
                    return self.end(code);
                }
                self.tick()
            },
            _ => self.tick(),
        }
    }

    fn on_end(&mut self, pid: i32, code: i32) -> (a: Action<Vec<u8>>)
        ensures
            final(self)@ == old(self)@.ended(pid, code).0,
            a@ == old(self)@.ended(pid, code).1,
    {
        if pid == self.child {
            if !self.seccomp_mode {
                return self.end(code);
            }
            self.main_code = Some(code);
        }
        self.tick()
    }

    fn on_stop(&mut self, pid: i32, signal: i32) -> (a: Action<Vec<u8>>)
        ensures
            final(self)@ == old(self)@.stopped(pid, signal).0,
            a@ == old(self)@.stopped(pid, signal).1,
    {
        if pid != self.child && !self.configured.contains(&pid) {
            let seccomp = self.seccomp_mode;
            return self.install_options(pid, 0, 0, seccomp, Some(signal));
        }
        self.on_signal(pid, signal)
    }

    fn on_signal(&mut self, pid: i32, signal: i32) -> (a: Action<Vec<u8>>)
        ensures
            final(self)@ == old(self)@.signalled(pid, signal).0,
            a@ == old(self)@.signalled(pid, signal).1,
    {
        if self.emulated.busy(pid) && signal != 0 && signal != SIGSTOP && signal != SIGTRAP {
            self.hold(pid, signal);
            return self.resume(pid, None);
        }
        if signal == SIGILL {
            return self.await_for(Task::IllegalRegs { pid }, Action::GetRegs { pid });
        }
        self.deliver(pid, Some(signal))
    }

    fn deliver(&mut self, pid: i32, signal: Option<i32>) -> (a: Action<Vec<u8>>)
        ensures
            final(self)@ == old(self)@.delivers(pid, signal).0,
            a@ == old(self)@.delivers(pid, signal).1,
    {
        let pending = self.seccomp_mode && (self.reserved.contains_key(&pid)
            || self.expect_entry.contains(&pid) || self.statx.contains_key(&pid)
            || self.last_syscall.contains_key(&pid));
        if pending {
            self.resume_syscall(pid, signal)
        } else {
            self.resume(pid, signal)
        }
    }

    fn inside_call(&self, pid: i32) -> (r: bool)
        ensures
            r == self@.inside(pid),
    {
        match self.in_syscall.get(&pid) {
            Some(inside) => *inside,
            None => false,
        }
    }

    fn on_syscall(&mut self, pid: i32) -> (a: Action<Vec<u8>>)
        ensures
            final(self)@ == old(self)@.syscall_stop(pid).0,
            a@ == old(self)@.syscall_stop(pid).1,
    {
        if self.seccomp_mode {
            let entry = self.expect_entry.remove(&pid);
            if entry {
                return self.resume_syscall(pid, None);
            }
            assert(self@ =~= old(self)@);
            return self.await_for(Task::Exit { pid }, Action::GetRegs { pid });
        }
        if self.emulated.busy(pid) {
            let progress = self.emulated.step(pid);
            self.on_stepped(pid, progress)
        } else {
            let entering = !self.inside_call(pid);
            let progress = self.emulated.begin(pid, entering);
            self.on_begun(pid, progress)
        }
    }

    fn on_stepped(&mut self, pid: i32, progress: Progress<Vec<u8>>) -> (a: Action<Vec<u8>>)
        ensures
            final(self)@ == old(self)@.stepped(pid, (old(self)@.emulated, progress@)).0,
            a@ == old(self)@.stepped(pid, (old(self)@.emulated, progress@)).1,
    {
        match progress {
            Progress::Act(action, at) => self.await_for(Task::Step { pid, at }, action),
            Progress::Done(_) => self.leave(pid),
        }
    }

    fn on_begun(&mut self, pid: i32, progress: Progress<Vec<u8>>) -> (a: Action<Vec<u8>>)
        ensures
            final(self)@ == old(self)@.begun(pid, (old(self)@.emulated, progress@)).0,
            a@ == old(self)@.begun(pid, (old(self)@.emulated, progress@)).1,
    {
        match progress {
            Progress::Act(action, at) => self.await_for(Task::Begin { pid, at }, action),
            Progress::Done(taken) => if taken {
                self.leave(pid)
            } else {
                self.on_syscall_stop(pid)
            },
        }
    }

    fn on_syscall_stop(&mut self, pid: i32) -> (a: Action<Vec<u8>>)
        ensures
            final(self)@ == old(self)@.plain_stop(pid).0,
            a@ == old(self)@.plain_stop(pid).1,
    {
        let entering = !self.inside_call(pid);
        self.in_syscall.insert(pid, entering);
        if entering {
            self.await_for(Task::Entry { pid }, Action::GetRegs { pid })
        } else {
            self.await_for(Task::Exit { pid }, Action::GetRegs { pid })
        }
    }

    fn on_entry(&mut self, pid: i32, regs: Option<Regs>, kernel: &Kernel) -> (a: Action<Vec<u8>>)
        ensures
            final(self)@ == old(self)@.enters(pid, regs, *kernel).0,
            a@ == old(self)@.enters(pid, regs, *kernel).1,
    {
        let Some(regs) = regs else {
            return self.leave(pid);
        };
        self.last_syscall.insert(pid, regs.orig_rax);
        if regs.cs != CS_64 {
            return self.leave(pid);
        }
        self.translate(pid, regs, kernel)
    }

    fn translate(&mut self, pid: i32, regs: Regs, kernel: &Kernel) -> (a: Action<Vec<u8>>)
        ensures
            final(self)@ == old(self)@.translates(pid, regs, *kernel).0,
            a@ == old(self)@.translates(pid, regs, *kernel).1,
    {
        let nr = regs.orig_rax;
        if nr == SYS_FUTEX {
            self.on_futex(pid, regs, false, kernel)
        } else if nr == SYS_PIPE2 && kernel.pipe2_missing {
            // The flags are lost: the pipe blocks and is inherited.
            self.rewrite(pid, with_number(regs, SYS_PIPE), false, false)
        } else if nr == SYS_EPOLL_CREATE1 && kernel.epoll_create1_missing {
            // The size is ignored by every kernel that has the older call. The
            // close-on-exec flag is lost.
            self.rewrite(
                pid,
                with_number(Regs { rdi: 1, ..regs }, SYS_EPOLL_CREATE),
                false,
                false,
            )
        } else if nr == SYS_STATX && kernel.statx_missing {
            self.setup_statx(pid, regs, false)
        } else if nr == SYS_PRLIMIT64 && kernel.prlimit64_missing {
            // Only a process that asks for its own limits is served.
            if regs.rdi != 0 {
                return self.leave(pid);
            }
            self.rewrite(pid, translate_rlimit(regs), false, false)
        } else if nr == SYS_IOCTL && termios2_missing(kernel.version) {
            self.setup_termios2(pid, regs)
        } else if nr == SYS_CLOCK_GETTIME || nr == SYS_CLOCK_GETRES || nr == SYS_CLOCK_NANOSLEEP {
            let clock = replace_clock(kernel, regs.rdi);
            if clock == regs.rdi {
                return self.leave(pid);
            }
            self.rewrite(pid, Regs { rdi: clock, ..regs }, false, false)
        } else if nr == SYS_PPOLL && kernel.ppoll_missing {
            if regs.rdx == 0 {
                return self.rewrite(pid, translate_ppoll(regs, None), false, false);
            }
            self.await_for(
                Task::PpollTimeout { pid, regs },
                Action::Read { pid, addr: regs.rdx, len: 16 },
            )
        } else {
            self.leave(pid)
        }
    }

    fn on_seccomp_stop(&mut self, pid: i32, regs: Option<Regs>, kernel: &Kernel) -> (a: Action<
        Vec<u8>,
    >)
        ensures
            final(self)@ == old(self)@.filtered(pid, regs, *kernel).0,
            a@ == old(self)@.filtered(pid, regs, *kernel).1,
    {
        let Some(regs) = regs else {
            return self.on_translated(pid, true, false);
        };
        let nr = regs.orig_rax;
        if nr == SYS_FUTEX {
            self.on_futex(pid, regs, true, kernel)
        } else if nr == SYS_PIPE2 && kernel.pipe2_missing {
            self.rewrite(pid, with_number(regs, SYS_PIPE), true, false)
        } else if nr == SYS_STATX && kernel.statx_missing {
            self.setup_statx(pid, regs, true)
        } else if nr == SYS_GETRANDOM && kernel.getrandom_missing {
            self.last_syscall.insert(pid, nr);
            self.on_translated(pid, true, true)
        } else {
            self.on_translated(pid, true, false)
        }
    }

    fn rewrite(&mut self, pid: i32, regs: Regs, filtered: bool, owed: bool) -> (a: Action<Vec<u8>>)
        ensures
            final(self)@ == old(self)@.rewrites(pid, regs, filtered, owed).0,
            a@ == old(self)@.rewrites(pid, regs, filtered, owed).1,
    {
        self.await_for(Task::Translated { pid, filtered, owed }, Action::SetRegs { pid, regs })
    }

    fn on_translated(&mut self, pid: i32, filtered: bool, owed: bool) -> (a: Action<Vec<u8>>)
        ensures
            final(self)@ == old(self)@.translated(pid, filtered, owed).0,
            a@ == old(self)@.translated(pid, filtered, owed).1,
    {
        if filtered && owed {
            self.expect_entry.insert(pid);
            self.resume_syscall(pid, None)
        } else if filtered {
            self.resume(pid, None)
        } else {
            self.leave(pid)
        }
    }

    fn on_futex(&mut self, pid: i32, regs: Regs, filtered: bool, kernel: &Kernel) -> (a: Action<
        Vec<u8>,
    >)
        ensures
            final(self)@ == old(self)@.futex(pid, regs, filtered, *kernel).0,
            a@ == old(self)@.futex(pid, regs, filtered, *kernel).1,
    {
        match translate_futex(kernel.version, regs) {
            Futex::Keep => self.on_translated(pid, filtered, false),
            Futex::Rewrite(patched) => self.rewrite(pid, patched, filtered, false),
            Futex::Timed => self.await_for(
                Task::FutexTimeout { pid, regs, filtered },
                Action::Read { pid, addr: regs.r10, len: 16 },
            ),
        }
    }

    /// Write the relative form of a futex timeout to scratch space. The caller's
    /// own timeout is never rewritten.
    fn reserve_relative_timeout(
        &mut self,
        pid: i32,
        regs: Regs,
        filtered: bool,
        deadline: Time,
        now: Time,
    ) -> (a: Action<Vec<u8>>)
        ensures
            final(self)@ == (TracerView {
                task: Task::FutexScratch { pid, regs, filtered },
                ..old(self)@
            }),
            a@ == (Action::Write {
                pid,
                addr: scratch(regs.rsp),
                bytes: time_bytes(difference(deadline, now)),
            }),
    {
        let mut bytes: Vec<u8> = Vec::new();
        push_time(&mut bytes, crate::time::sub(deadline, now));
        assert(bytes@ =~= time_bytes(difference(deadline, now)));
        self.await_for(
            Task::FutexScratch { pid, regs, filtered },
            Action::Write { pid, addr: scratch_below(regs.rsp), bytes },
        )
    }

    fn setup_statx(&mut self, pid: i32, regs: Regs, filtered: bool) -> (a: Action<Vec<u8>>)
        ensures
            final(self)@ == old(self)@.statx(pid, regs, filtered).0,
            a@ == old(self)@.statx(pid, regs, filtered).1,
    {
        if regs.r8 == 0 {
            return self.on_translated(pid, filtered, true);
        }
        self.await_for(
            Task::StatxSet { pid, regs, filtered },
            Action::SetRegs { pid, regs: translate_statx(regs) },
        )
    }

    fn setup_termios2(&mut self, pid: i32, regs: Regs) -> (a: Action<Vec<u8>>)
        ensures
            ({
                let r = match legacy_request(regs.rsi) {
                    Some(legacy) => old(self)@.awaits(
                        Task::TermiosSet { pid, regs, legacy },
                        Action::SetRegs { pid, regs: Regs { rsi: legacy, ..regs } },
                    ),
                    None => old(self)@.leaves(pid),
                };
                final(self)@ == r.0 && a@ == r.1
            }),
    {
        let Some(legacy) = legacy_termios_request(regs.rsi) else {
            return self.leave(pid);
        };
        self.await_for(
            Task::TermiosSet { pid, regs, legacy },
            Action::SetRegs { pid, regs: Regs { rsi: legacy, ..regs } },
        )
    }

    fn on_syscall_exit(&mut self, pid: i32, regs: Option<Regs>, kernel: &Kernel) -> (a: Action<
        Vec<u8>,
    >)
        ensures
            final(self)@ == old(self)@.exits(pid, regs, *kernel).0,
            a@ == old(self)@.exits(pid, regs, *kernel).1,
    {
        let Some(regs) = regs else {
            self.termios2_get.remove(&pid);
            self.statx.remove(&pid);
            return self.leave(pid);
        };
        if regs.cs != CS_64 {
            return self.leave(pid);
        }
        if let Some(address) = self.termios2_get.remove(&pid) {
            if regs.rax == 0 {
                return self.await_for(
                    Task::TermiosRead { pid, regs, address },
                    Action::Read { pid, addr: address, len: TERMIOS2_ISPEED as usize },
                );
            }
        } else {
            assert(self@ =~= old(self)@);
        }
        self.finish_statx(pid, regs, false, kernel)
    }

    fn finish_statx(&mut self, pid: i32, regs: Regs, dirty: bool, kernel: &Kernel) -> (a: Action<
        Vec<u8>,
    >)
        ensures
            final(self)@ == old(self)@.exits_statx(pid, regs, dirty, *kernel).0,
            a@ == old(self)@.exits_statx(pid, regs, dirty, *kernel).1,
    {
        if let Some(state) = self.statx.remove(&pid) {
            if regs.rax == 0 {
                return self.await_for(
                    Task::StatxRead { pid, regs, dirty, statxbuf: state.statxbuf },
                    Action::Read { pid, addr: state.scratch, len: STAT_SIZE },
                );
            }
        } else {
            assert(self@ =~= old(self)@);
        }
        self.finish_stack(pid, regs, dirty, kernel)
    }

    fn finish_stack(&mut self, pid: i32, regs: Regs, dirty: bool, kernel: &Kernel) -> (a: Action<
        Vec<u8>,
    >)
        ensures
            final(self)@ == old(self)@.exits_stack(pid, regs, dirty, *kernel).0,
            a@ == old(self)@.exits_stack(pid, regs, dirty, *kernel).1,
    {
        match self.reserved.remove(&pid) {
            Some(saved) => self.finish_random(pid, Regs { rsp: saved, ..regs }, true, kernel),
            None => {
                assert(self@ =~= old(self)@);
                self.finish_random(pid, regs, dirty, kernel)
            },
        }
    }

    fn last_call(&self, pid: i32) -> (r: Option<u64>)
        ensures
            r == (if self@.last_syscall.contains_key(pid) {
                Some(self@.last_syscall[pid])
            } else {
                None
            }),
    {
        match self.last_syscall.get(&pid) {
            Some(nr) => Some(*nr),
            None => None,
        }
    }

    fn finish_random(&mut self, pid: i32, regs: Regs, dirty: bool, kernel: &Kernel) -> (a: Action<
        Vec<u8>,
    >)
        ensures
            final(self)@ == old(self)@.exits_random(pid, regs, dirty, *kernel).0,
            a@ == old(self)@.exits_random(pid, regs, dirty, *kernel).1,
    {
        let asked = match self.last_call(pid) {
            Some(nr) => nr == SYS_GETRANDOM,
            None => false,
        };
        if !asked || !kernel.getrandom_missing {
            return self.finish_echo(pid, regs, dirty, kernel);
        }
        if regs.rsi == 0 {
            return self.settle(pid, Regs { rax: regs.rsi, ..regs }, true);
        }
        if regs.rdi == 0 {
            return self.lose_random(pid, regs, dirty, kernel);
        }
        self.await_for(Task::RandomOpen { pid, regs, dirty }, Action::OpenRandom)
    }

    /// Fill the buffer of a `getrandom` in bounded chunks. Success is reported only
    /// once every byte is delivered.
    fn emulate_getrandom(
        &mut self,
        pid: i32,
        regs: Regs,
        dirty: bool,
        done: u64,
        kernel: &Kernel,
    ) -> (a: Action<Vec<u8>>)
        ensures
            final(self)@ == old(self)@.random(pid, regs, dirty, done, *kernel).0,
            a@ == old(self)@.random(pid, regs, dirty, done, *kernel).1,
    {
        if done < regs.rsi {
            return self.await_for(
                Task::RandomRead { pid, regs, dirty, done },
                Action::ReadRandom { len: next_chunk(regs.rsi, done) },
            );
        }
        self.settle(pid, Regs { rax: regs.rsi, ..regs }, true)
    }

    fn lose_random(&mut self, pid: i32, regs: Regs, dirty: bool, kernel: &Kernel) -> (a: Action<
        Vec<u8>,
    >)
        ensures
            final(self)@ == old(self)@.random_lost(pid, regs, dirty, *kernel).0,
            a@ == old(self)@.random_lost(pid, regs, dirty, *kernel).1,
    {
        if regs.rax == SYS_GETRANDOM {
            self.finish_echo(pid, Regs { rax: failure(ENOSYS), ..regs }, true, kernel)
        } else {
            self.finish_echo(pid, regs, dirty, kernel)
        }
    }

    fn finish_echo(&mut self, pid: i32, regs: Regs, dirty: bool, kernel: &Kernel) -> (a: Action<
        Vec<u8>,
    >)
        ensures
            final(self)@ == old(self)@.exits_echo(pid, regs, dirty, *kernel).0,
            a@ == old(self)@.exits_echo(pid, regs, dirty, *kernel).1,
    {
        let echoed = match self.last_call(pid) {
            Some(nr) => nr > end_of_table(kernel.version) && kernel_echoes_number(kernel.version)
                && regs.orig_rax == nr && regs.rax == nr,
            None => false,
        };
        if echoed {
            self.settle(pid, Regs { rax: failure(ENOSYS), ..regs }, true)
        } else {
            self.settle(pid, regs, dirty)
        }
    }

    fn settle(&mut self, pid: i32, regs: Regs, dirty: bool) -> (a: Action<Vec<u8>>)
        ensures
            final(self)@ == old(self)@.settles(pid, regs, dirty).0,
            a@ == old(self)@.settles(pid, regs, dirty).1,
    {
        self.last_syscall.remove(&pid);
        if dirty {
            self.await_for(Task::Settled { pid }, Action::SetRegs { pid, regs })
        } else {
            self.leave(pid)
        }
    }

    /// Decide what is done next, now that the driver has acted.
    pub fn next(&mut self, event: Event<Vec<u8>>, kernel: &Kernel) -> (action: Action<Vec<u8>>)
        ensures
            final(self)@ == old(self)@.continues(event@, *kernel).0,
            action@ == old(self)@.continues(event@, *kernel).1,
    {
        match self.task {
            Task::Launch => self.on_launch(event),
            Task::Options { pid, index, set, option, seccomp, stopped } => {
                if event.done() {
                    return self.install_options(
                        pid,
                        index.wrapping_add(1),
                        set | option,
                        seccomp,
                        stopped,
                    );
                }
                self.await_for(
                    Task::OptionsKept { pid, index, set, seccomp, stopped },
                    Action::SetOptions { pid, options: set },
                )
            },
            Task::OptionsKept { pid, index, set, seccomp, stopped } => self.install_options(
                pid,
                index.wrapping_add(1),
                set,
                seccomp,
                stopped,
            ),
            Task::Resumed => self.tick(),
            Task::Tick { at } => {
                let child = self.child;
                let progress = self.emulated.proceed(child, at, event, kernel);
                self.on_ticked(progress)
            },
            Task::Wait => self.on_wait(event),
            Task::Begin { pid, at } => {
                let progress = self.emulated.proceed(pid, at, event, kernel);
                self.on_begun(pid, progress)
            },
            Task::Step { pid, at } => {
                let progress = self.emulated.proceed(pid, at, event, kernel);
                self.on_stepped(pid, progress)
            },
            Task::IllegalRegs { pid } => match event.regs() {
                Some(regs) => self.await_for(
                    Task::IllegalWord { pid, regs },
                    Action::Peek { pid, addr: regs.rip },
                ),
                None => self.deliver(pid, Some(SIGILL)),
            },
            Task::IllegalWord { pid, regs } => {
                if let Some(word) = event.word() {
                    if let Some(patched) = emulate_sigill(regs, word) {
                        return self.await_for(
                            Task::IllegalSet { pid },
                            Action::SetRegs { pid, regs: patched },
                        );
                    }
                }
                self.deliver(pid, Some(SIGILL))
            },
            Task::IllegalSet { pid } => {
                let signal = if event.done() { None } else { Some(SIGILL) };
                self.deliver(pid, signal)
            },
            Task::Filtered { pid } => self.on_seccomp_stop(pid, event.regs(), kernel),
            Task::Entry { pid } => self.on_entry(pid, event.regs(), kernel),
            Task::Translated { pid, filtered, owed } => self.on_translated(pid, filtered, owed),
            Task::FutexTimeout { pid, regs, filtered } => match event.bytes(16) {
                Some(bytes) => self.await_for(
                    Task::FutexClock { pid, regs, filtered, deadline: read_time(&bytes, 0) },
                    Action::Clock { id: timeout_clock(regs) },
                ),
                None => self.on_translated(pid, filtered, false),
            },
            Task::FutexClock { pid, regs, filtered, deadline } => match event.time() {
                Some(now) => self.reserve_relative_timeout(pid, regs, filtered, deadline, now),
                None => self.on_translated(pid, filtered, false),
            },
            Task::FutexScratch { pid, regs, filtered } => {
                if !event.done() {
                    return self.on_translated(pid, filtered, false);
                }
                self.reserved.insert(pid, regs.rsp);
                self.rewrite(pid, timed_wait(regs), filtered, true)
            },
            Task::StatxSet { pid, regs, filtered } => {
                if event.done() {
                    self.reserved.insert(pid, regs.rsp);
                    let space = scratch_below(regs.rsp);
                    self.statx.insert(pid, StatxState { statxbuf: regs.r8, scratch: space });
                }
                self.on_translated(pid, filtered, true)
            },
            Task::TermiosSet { pid, regs, legacy } => {
                if event.done() && legacy == TCGETS {
                    self.termios2_get.insert(pid, regs.rdx);
                }
                self.leave(pid)
            },
            Task::PpollTimeout { pid, regs } => {
                let timeout = match event.bytes(16) {
                    Some(bytes) => Some(read_time(&bytes, 0)),
                    None => None,
                };
                self.rewrite(pid, translate_ppoll(regs, timeout), false, false)
            },
            Task::Exit { pid } => self.on_syscall_exit(pid, event.regs(), kernel),
            Task::TermiosRead { pid, regs, address } => {
                let bytes = termios2_speeds(event.bytes(TERMIOS2_ISPEED as usize));
                self.await_for(
                    Task::TermiosWrote { pid, regs },
                    Action::Write { pid, addr: address.wrapping_add(TERMIOS2_ISPEED), bytes },
                )
            },
            Task::TermiosWrote { pid, regs } => if event.done() {
                self.finish_statx(pid, regs, false, kernel)
            } else {
                self.finish_statx(pid, Regs { rax: failure(EFAULT), ..regs }, true, kernel)
            },
            Task::StatxRead { pid, regs, dirty, statxbuf } => match event.bytes(STAT_SIZE) {
                Some(stat) => self.await_for(
                    Task::StatxWrote { pid, regs, dirty },
                    Action::Write { pid, addr: statxbuf, bytes: build_statx(&stat) },
                ),
                None => self.finish_stack(pid, Regs { rax: failure(EFAULT), ..regs }, true, kernel),
            },
            Task::StatxWrote { pid, regs, dirty } => if event.done() {
                self.finish_stack(pid, regs, dirty, kernel)
            } else {
                self.finish_stack(pid, Regs { rax: failure(EFAULT), ..regs }, true, kernel)
            },
            Task::RandomOpen { pid, regs, dirty } => if event.done() {
                self.emulate_getrandom(pid, regs, dirty, 0, kernel)
            } else {
                self.lose_random(pid, regs, dirty, kernel)
            },
            Task::RandomRead { pid, regs, dirty, done } => {
                let want = next_chunk(regs.rsi, done);
                match event.bytes(want) {
                    Some(bytes) => self.await_for(
                        Task::RandomWrote { pid, regs, dirty, done: done + want as u64 },
                        Action::Write { pid, addr: regs.rdi.wrapping_add(done), bytes },
                    ),
                    None => self.lose_random(pid, regs, dirty, kernel),
                }
            },
            Task::RandomWrote { pid, regs, dirty, done } => if event.done() {
                self.emulate_getrandom(pid, regs, dirty, done, kernel)
            } else {
                self.lose_random(pid, regs, dirty, kernel)
            },
            Task::Settled { pid } => self.leave(pid),
            Task::Over { code } => self.end(code),
        }
    }
}

}
