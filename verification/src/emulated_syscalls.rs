//! Calls that an old kernel does not have at all and that cannot be answered by
//! retargeting the call: the object they create has to exist inside the traced
//! process, with the semantics its caller expects.
//!
//! * `eventfd`/`eventfd2` become an `AF_UNIX` datagram socket connected to its own
//!   abstract address.
//! * `timerfd_create` becomes a pipe: the application keeps the read end, the
//!   tracer holds the write end and writes the expiration count when a deadline
//!   passes. `timerfd_settime` and `timerfd_gettime` are bookkeeping only.
//! * `epoll_pwait`, `pwritev`, `preadv` and `F_DUPFD_CLOEXEC` become short
//!   sequences of older calls.

use std::collections::{HashMap, VecDeque};
use vstd::prelude::*;
use crate::abi::{
    calling, renumbered, scratch, scratch_below, with_number, Regs, CS_64, EAGAIN, EINTR, EIO,
    F_DUPFD_CLOEXEC, SYS_CLOSE, SYS_EPOLL_PWAIT, SYS_EVENTFD, SYS_EVENTFD2, SYS_FCNTL, SYS_GETPID,
    SYS_PREADV, SYS_PWRITEV, SYS_TIMERFD_CREATE, SYS_TIMERFD_GETTIME, SYS_TIMERFD_SETTIME,
};
use crate::bytes::{le32, le64_bytes, read_u32, u32_at};
use crate::decimal::{digits, push_decimal};
use crate::kernel::{clock_for, kernel_lt, lt, replace_clock, Kernel};
use crate::memory::bytes_of_word;
use crate::protocol::{Action, Event};
use crate::sequence::{
    is_error, start, started, steps, Plan, Running, Sequence, SequenceView, Step, Turn,
};
use crate::time::{
    before, difference, earlier, expirations, expired, push_time, read_time, sum, time_at,
    time_bytes, truncated, Time,
};

verus! {

broadcast use vstd::std_specs::hash::group_hash_axioms;

pub const TFD_TIMER_ABSTIME: u64 = 0x1;

/// Byte patterns that enter the kernel, so an injected call can be made from a
/// known-good instruction instead of a stub on the stack.
pub const SYSCALL64: u64 = 0x050f;
pub const SYSCALL32: u64 = 0x80cd;

/// An emulation in progress in one process.
pub enum Active<S> {
    Sequence(S),
    /// The call was replaced with one that always succeeds; leave this in `rax`
    /// when it returns. For the calls that need bookkeeping only.
    Fixup(i64),
}

impl View for Active<Running> {
    type V = Active<SequenceView>;

    open spec fn view(&self) -> Active<SequenceView> {
        match *self {
            Active::Sequence(sequence) => Active::Sequence(sequence@),
            Active::Fixup(result) => Active::Fixup(result),
        }
    }
}

/// An emulated timerfd.
#[derive(Clone, Copy, Debug)]
pub struct Timer {
    pub clockid: i32,
    /// Absolute deadline in that clock's timebase, `None` when disarmed.
    pub deadline: Option<Time>,
    /// `(0, 0)` makes it one-shot.
    pub interval: Time,
}

/// An expiration to hand over: the timer, how often it expired, and its next deadline.
#[derive(Clone, Copy, Debug)]
pub struct Due {
    pub fd: i64,
    pub count: u64,
    pub next: Option<Time>,
}

/// Why the tracer's own timer is set.
#[derive(Clone, Copy, Debug)]
pub enum Rearm {
    /// A timer was set by the call with these registers.
    Settime(Regs),
    /// Deadlines were served.
    Tick,
}

/// What an operation of [`Emulations`] waits for.
#[derive(Clone, Copy, Debug)]
pub enum Pending {
    /// The registers at the entry stop of a call.
    Entry,
    /// The instruction that made the call, for a plan.
    Gadget { regs: Regs, plan: Plan },
    /// The instruction that made an eventfd call.
    EventfdGadget { regs: Regs },
    /// The socket address in scratch space.
    EventfdAddress { regs: Regs, gadget: u64, length: u64 },
    /// The initial value in scratch space.
    EventfdInitial { regs: Regs, gadget: u64, length: u64 },
    /// The registers that make the first call of a plan.
    Start { regs: Regs, gadget: u64, plan: Plan },
    /// The setting that `timerfd_settime` was given.
    Settime { regs: Regs, timer: Timer },
    /// The time, to tell what is left of the setting that is replaced.
    SettimeOld { regs: Regs, timer: Timer, interval: Time, value: Time },
    /// The setting that is replaced, in the caller's memory.
    SettimeWrote { regs: Regs, timer: Timer, interval: Time, value: Time },
    /// The time from which the setting counts.
    SettimeNow { regs: Regs, interval: Time, value: Time },
    /// The time, to tell what is left of a deadline.
    Gettime { regs: Regs, timer: Timer },
    /// The setting, in the caller's memory.
    GettimeWrote { regs: Regs },
    /// The registers of the call that stands in for one that was answered.
    StandIn { result: i64 },
    /// The registers after that call.
    Fixup { result: i64 },
    /// The registers at the exit stop of a call of a sequence.
    Exit,
    /// The two ends of the pipe, in scratch space.
    PipeRead { regs: Regs },
    /// A handle on the write end of the pipe.
    PipeOpen { regs: Regs, read_end: i64, write_end: i64 },
    /// Registers whose write-back decides nothing.
    Settled,
    /// Whether a deadline has passed.
    Alarm,
    /// The time, to tell whether this timer is due.
    TickClock { fd: i64 },
    /// The expiration on its way to the application.
    Serving { due: Due },
    /// The time, to tell what is left of this timer.
    Arm { fd: i64, soonest: Option<Time>, rearm: Rearm },
    /// The tracer's timer.
    Armed { rearm: Rearm },
}

/// What an operation of [`Emulations`] has come to.
#[derive(Debug)]
pub enum Progress<B> {
    /// The driver is to act, and to report to `proceed`.
    Act(Action<B>, Pending),
    /// It is over. For `begin`, whether the call was taken over.
    Done(bool),
}

impl View for Progress<Vec<u8>> {
    type V = Progress<Seq<u8>>;

    open spec fn view(&self) -> Progress<Seq<u8>> {
        match *self {
            Progress::Act(action, pending) => Progress::Act(action@, pending),
            Progress::Done(taken) => Progress::Done(taken),
        }
    }
}

/// The emulations in progress and the emulated timers.
pub struct Emulations {
    active: HashMap<i32, Active<Running>>,
    /// Keeps the abstract addresses of successive eventfds apart.
    sequence: u64,
    /// Emulated timerfds, by the descriptor the application sees.
    timers: HashMap<i64, Timer>,
    /// The tracer's handle on the write end of each timer's pipe.
    write_ends: HashMap<i64, i32>,
    /// Expirations that are still to be handed over.
    due: VecDeque<Due>,
    /// Handles that are no longer needed, for the driver to close.
    released: Vec<i32>,
}

/// [`Emulations`] as contracts speak of it.
#[verifier::ext_equal]
pub struct EmulationsView {
    pub active: Map<i32, Active<SequenceView>>,
    pub sequence: u64,
    pub timers: Map<i64, Timer>,
    pub write_ends: Map<i64, i32>,
    pub due: Seq<Due>,
    pub released: Seq<i32>,
}

impl View for Emulations {
    type V = EmulationsView;

    closed spec fn view(&self) -> EmulationsView {
        EmulationsView {
            active: self.active@.map_values(|a: Active<Running>| a@),
            sequence: self.sequence,
            timers: self.timers@,
            write_ends: self.write_ends@,
            due: self.due@,
            released: self.released@,
        }
    }
}

/// The timer of descriptor `fd` has a deadline.
pub open spec fn armed(timers: Map<i64, Timer>, fd: i64) -> bool {
    timers.contains_key(fd) && timers[fd].deadline is Some
}

/// `fd` comes after `after`, or is any descriptor where there is none.
pub open spec fn past(after: Option<i64>, fd: i64) -> bool {
    after matches Some(last) ==> last < fd
}

/// `fd` is the least descriptor after `after` with a timer that has a deadline.
pub open spec fn is_next_armed(timers: Map<i64, Timer>, after: Option<i64>, fd: i64) -> bool {
    &&& armed(timers, fd)
    &&& past(after, fd)
    &&& forall|other: i64| #[trigger] armed(timers, other) && past(after, other) ==> fd <= other
}

/// The least descriptor after `after` with a timer that has a deadline.
pub open spec fn next_armed(timers: Map<i64, Timer>, after: Option<i64>) -> Option<i64> {
    if exists|fd: i64| is_next_armed(timers, after, fd) {
        Some(choose|fd: i64| is_next_armed(timers, after, fd))
    } else {
        None
    }
}

/// The setting of the tracer's timer for the nearest deadline. A zero delta would
/// turn it off, so an overdue deadline is given a microsecond.
pub open spec fn alarm_setting(soonest: Option<Time>) -> (i64, i64) {
    match soonest {
        Some((seconds, nanoseconds)) => {
            let microseconds = truncated(nanoseconds as int, 1000) as i64;
            (seconds, if seconds == 0 && microseconds == 0 { 1 } else { microseconds })
        },
        None => (0i64, 0i64),
    }
}

/// What is left of a deadline at `now`. Nothing is left where there is none.
pub open spec fn remaining(deadline: Option<Time>, now: Option<Time>) -> Time {
    match deadline {
        Some(deadline) => difference(
            deadline,
            match now {
                Some(now) => now,
                None => (0i64, 0i64),
            },
        ),
        None => (0i64, 0i64),
    }
}

/// The decimal digits of a process id.
pub open spec fn pid_digits(pid: i32) -> Seq<u8> {
    if pid < 0 { seq![45u8] + digits((-pid) as nat) } else { digits(pid as nat) }
}

/// The name of the socket that stands for the eventfd numbered `number`:
/// `sharun-efd-<pid>-<number>`.
pub open spec fn eventfd_name(pid: i32, number: u64) -> Seq<u8> {
    seq![115u8, 104, 97, 114, 117, 110, 45, 101, 102, 100, 45] + pid_digits(pid) + seq![45u8]
        + digits(number as nat)
}

/// An abstract `sockaddr_un`: the family, a leading NUL, then the name.
pub open spec fn eventfd_address(pid: i32, number: u64) -> Seq<u8> {
    seq![1u8, 0, 0] + eventfd_name(pid, number)
}

/// The word at the instruction before `rip` enters the kernel.
pub open spec fn enters_kernel(word: u64) -> bool {
    word % 0x1_0000 == SYSCALL64 || word % 0x1_0000 == SYSCALL32
}

/// The read end and the write end of the pipe that the kernel told of in `bytes`.
pub open spec fn ends_in(bytes: Seq<u8>) -> (i64, i64) {
    ((le32(bytes, 0) as i32) as i64, (le32(bytes, 4) as i32) as i64)
}

impl EmulationsView {
    /// Not taken over.
    pub open spec fn refused(self) -> (EmulationsView, Progress<Seq<u8>>) {
        (self, Progress::Done(false))
    }

    /// Nothing left to do.
    pub open spec fn over(self) -> (EmulationsView, Progress<Seq<u8>>) {
        (self, Progress::Done(true))
    }

    /// The timer of `fd` and the handle on its pipe are given up.
    pub open spec fn dropped(self, fd: i64) -> EmulationsView {
        EmulationsView {
            timers: self.timers.remove(fd),
            write_ends: self.write_ends.remove(fd),
            released: if self.write_ends.contains_key(fd) {
                self.released.push(self.write_ends[fd])
            } else {
                self.released
            },
            ..self
        }
    }

    /// The timer of `fd`, where there is one, gets this setting.
    pub open spec fn set(self, fd: i64, deadline: Option<Time>, interval: Time) -> EmulationsView {
        if self.timers.contains_key(fd) {
            EmulationsView {
                timers: self.timers.insert(
                    fd,
                    Timer { clockid: self.timers[fd].clockid, deadline, interval },
                ),
                ..self
            }
        } else {
            self
        }
    }

    /// The timer of `fd`, where there is one, gets this deadline.
    pub open spec fn moved(self, fd: i64, deadline: Option<Time>) -> EmulationsView {
        self.set(fd, deadline, self.timers[fd].interval)
    }

    /// An emulation is in progress in `pid`.
    pub open spec fn begun(self, pid: i32, active: Active<SequenceView>) -> EmulationsView {
        EmulationsView { active: self.active.insert(pid, active), ..self }
    }

    /// No emulation is in progress in `pid`.
    pub open spec fn forgotten(self, pid: i32) -> EmulationsView {
        EmulationsView { active: self.active.remove(pid), ..self }
    }

    /// `begin`: only an entry stop has a call to take over.
    pub open spec fn begins(self, pid: i32, entering: bool) -> (EmulationsView, Progress<Seq<u8>>) {
        if entering {
            (self, Progress::Act(Action::GetRegs { pid }, Pending::Entry))
        } else {
            self.refused()
        }
    }

    /// `begin`, once the registers are known.
    pub open spec fn entry(self, pid: i32, regs: Option<Regs>, k: Kernel) -> (
        EmulationsView,
        Progress<Seq<u8>>,
    ) {
        match regs {
            Some(regs) => if regs.cs != CS_64 {
                self.refused()
            } else if regs.orig_rax == SYS_CLOSE {
                self.dropped(regs.rdi as i64).refused()
            } else if regs.orig_rax == SYS_EVENTFD || regs.orig_rax == SYS_EVENTFD2 {
                if k.eventfd_missing && regs.rdi <= u32::MAX {
                    self.seeks(pid, regs, Pending::EventfdGadget { regs })
                } else {
                    self.refused()
                }
            } else if regs.orig_rax == SYS_TIMERFD_CREATE {
                if k.timerfd_missing {
                    let clockid = clock_for(k, regs.rdi) as i32;
                    self.seeks(
                        pid,
                        regs,
                        Pending::Gadget { regs, plan: Plan::TimerfdCreate { clockid } },
                    )
                } else {
                    self.refused()
                }
            } else if regs.orig_rax == SYS_TIMERFD_SETTIME {
                if self.timers.contains_key(regs.rdi as i64) {
                    let timer = self.timers[regs.rdi as i64];
                    (
                        self,
                        Progress::Act(
                            Action::Read { pid, addr: regs.rdx, len: 32 },
                            Pending::Settime { regs, timer },
                        ),
                    )
                } else {
                    self.refused()
                }
            } else if regs.orig_rax == SYS_TIMERFD_GETTIME {
                if self.timers.contains_key(regs.rdi as i64) {
                    let timer = self.timers[regs.rdi as i64];
                    (
                        self,
                        Progress::Act(
                            Action::Clock { id: timer.clockid },
                            Pending::Gettime { regs, timer },
                        ),
                    )
                } else {
                    self.refused()
                }
            } else if regs.orig_rax == SYS_FCNTL {
                if regs.rsi == F_DUPFD_CLOEXEC && lt(k.version, (2, 6, 24)) {
                    self.seeks(pid, regs, Pending::Gadget { regs, plan: Plan::DupfdCloexec })
                } else {
                    self.refused()
                }
            } else if regs.orig_rax == SYS_PWRITEV || regs.orig_rax == SYS_PREADV {
                if lt(k.version, (2, 6, 30)) {
                    let write = regs.orig_rax == SYS_PWRITEV;
                    self.seeks(pid, regs, Pending::Gadget { regs, plan: Plan::VectorIo { write } })
                } else {
                    self.refused()
                }
            } else if regs.orig_rax == SYS_EPOLL_PWAIT && lt(k.version, (2, 6, 19)) {
                self.seeks(pid, regs, Pending::Gadget { regs, plan: Plan::EpollPwait })
            } else {
                self.refused()
            },
            None => self.refused(),
        }
    }

    /// The instruction that the process just executed is looked at.
    pub open spec fn seeks(self, pid: i32, regs: Regs, then: Pending) -> (
        EmulationsView,
        Progress<Seq<u8>>,
    ) {
        (self, Progress::Act(Action::Peek { pid, addr: regs.rip.wrapping_sub(2) }, then))
    }

    /// The first call of a plan is made in place of the emulated one.
    pub open spec fn launches(self, pid: i32, regs: Regs, gadget: u64, plan: Plan) -> (
        EmulationsView,
        Progress<Seq<u8>>,
    ) {
        let first = started(plan, regs, gadget).call(steps(plan, regs)[0]);
        (
            self,
            Progress::Act(
                Action::SetRegs { pid, regs: calling(regs, first) },
                Pending::Start { regs, gadget, plan },
            ),
        )
    }

    /// The address of the socket that stands for an eventfd is put into scratch
    /// space, and its number is used up.
    pub open spec fn names_eventfd(self, pid: i32, regs: Regs, gadget: u64) -> (
        EmulationsView,
        Progress<Seq<u8>>,
    ) {
        let bytes = eventfd_address(pid, self.sequence);
        (
            EmulationsView { sequence: self.sequence.wrapping_add(1), ..self },
            Progress::Act(
                Action::Write { pid, addr: scratch(regs.rsp), bytes },
                Pending::EventfdAddress { regs, gadget, length: bytes.len() as u64 },
            ),
        )
    }

    /// `timerfd_settime`, once what it replaces has been told.
    pub open spec fn sets(self, pid: i32, regs: Regs, timer: Timer, interval: Time, value: Time) -> (
        EmulationsView,
        Progress<Seq<u8>>,
    ) {
        if value == (0i64, 0i64) {
            self.set(regs.rdi as i64, None, interval).arms(Rearm::Settime(regs))
        } else if regs.rsi & TFD_TIMER_ABSTIME != 0 {
            self.set(regs.rdi as i64, Some(value), interval).arms(Rearm::Settime(regs))
        } else {
            (
                self,
                Progress::Act(
                    Action::Clock { id: timer.clockid },
                    Pending::SettimeNow { regs, interval, value },
                ),
            )
        }
    }

    /// The nearest deadline is looked for.
    pub open spec fn arms(self, rearm: Rearm) -> (EmulationsView, Progress<Seq<u8>>) {
        self.arms_after(None, None, rearm)
    }

    /// The nearest deadline is looked for among the timers after `after`, with
    /// `soonest` left of the nearest up to there.
    pub open spec fn arms_after(self, after: Option<i64>, soonest: Option<Time>, rearm: Rearm) -> (
        EmulationsView,
        Progress<Seq<u8>>,
    ) {
        match next_armed(self.timers, after) {
            Some(fd) => (
                self,
                Progress::Act(
                    Action::Clock { id: self.timers[fd].clockid },
                    Pending::Arm { fd, soonest, rearm },
                ),
            ),
            None => {
                let (seconds, microseconds) = alarm_setting(soonest);
                (
                    self,
                    Progress::Act(
                        Action::SetTimer { seconds, microseconds },
                        Pending::Armed { rearm },
                    ),
                )
            },
        }
    }

    /// What is left of the nearest deadline, `fd` included.
    pub open spec fn nearer(self, fd: i64, soonest: Option<Time>, now: Option<Time>) -> Option<Time> {
        if armed(self.timers, fd) && now is Some {
            let left = difference(self.timers[fd].deadline->0, now->0);
            match soonest {
                Some(current) => if before(left, current) { Some(left) } else { soonest },
                None => Some(left),
            }
        } else {
            soonest
        }
    }

    /// A call that always succeeds is made in place of one that was answered.
    pub open spec fn stands_in(self, pid: i32, regs: Regs, result: i64) -> (
        EmulationsView,
        Progress<Seq<u8>>,
    ) {
        (
            self,
            Progress::Act(
                Action::SetRegs { pid, regs: renumbered(regs, SYS_GETPID) },
                Pending::StandIn { result },
            ),
        )
    }

    /// `step`: the stop belongs to the emulation in progress.
    pub open spec fn stepped(self, pid: i32) -> (EmulationsView, Progress<Seq<u8>>) {
        if !self.active.contains_key(pid) {
            self.over()
        } else {
            match self.active[pid] {
                Active::Fixup(result) => (
                    self.forgotten(pid),
                    Progress::Act(Action::GetRegs { pid }, Pending::Fixup { result }),
                ),
                Active::Sequence(sequence) => if sequence.at_entry {
                    self.begun(pid, Active::Sequence(sequence.entered())).over()
                } else {
                    (self, Progress::Act(Action::GetRegs { pid }, Pending::Exit))
                },
            }
        }
    }

    /// The sequence in progress in `pid`, where there is one.
    pub open spec fn sequence_of(self, pid: i32) -> Option<SequenceView> {
        if self.active.contains_key(pid) {
            match self.active[pid] {
                Active::Sequence(sequence) => Some(sequence),
                Active::Fixup(_) => None,
            }
        } else {
            None
        }
    }

    /// The exit stop of a call of the sequence. A process whose registers cannot
    /// be read loses its emulation. A pipe that was created needs the tracer to take
    /// a handle on it before the process closes its end.
    pub open spec fn exits(self, pid: i32, regs: Option<Regs>) -> (
        EmulationsView,
        Progress<Seq<u8>>,
    ) {
        match (self.sequence_of(pid), regs) {
            (Some(sequence), Some(regs)) => {
                let collected = sequence.collected(regs.rax as i64);
                match sequence.running {
                    Some(Step::Pipe { buffer }) if !is_error(regs.rax as i64) => (
                        self.begun(pid, Active::Sequence(collected)),
                        Progress::Act(
                            Action::Read { pid, addr: buffer, len: 8 },
                            Pending::PipeRead { regs },
                        ),
                    ),
                    _ => self.goes_on(pid, collected, regs),
                }
            },
            _ => self.forgotten(pid).over(),
        }
    }

    /// The sequence, with all its results so far, makes its next call or answers.
    pub open spec fn goes_on(self, pid: i32, sequence: SequenceView, regs: Regs) -> (
        EmulationsView,
        Progress<Seq<u8>>,
    ) {
        let (next, turn) = sequence.advanced(regs);
        match turn {
            Turn::More(patched) => (
                self.begun(pid, Active::Sequence(next)),
                Progress::Act(Action::SetRegs { pid, regs: patched }, Pending::Settled),
            ),
            Turn::Over(done) => (
                self.forgotten(pid),
                Progress::Act(Action::SetRegs { pid, regs: done }, Pending::Settled),
            ),
        }
    }

    /// The pipe could not be captured. A half-built object is worse than an
    /// error, so one is recorded.
    pub open spec fn pipe_lost(self, pid: i32, regs: Regs) -> (EmulationsView, Progress<Seq<u8>>) {
        match self.sequence_of(pid) {
            Some(sequence) => self.goes_on(pid, sequence.noted((-EIO) as i64), regs),
            None => self.forgotten(pid).over(),
        }
    }

    /// There is a timer for the read end of a pipe, and the tracer holds its write end.
    pub open spec fn adopted(self, read_end: i64, handle: i32, clockid: i32) -> EmulationsView {
        let cleared = self.dropped(read_end);
        EmulationsView {
            timers: cleared.timers.insert(
                read_end,
                Timer { clockid, deadline: None, interval: (0i64, 0i64) },
            ),
            write_ends: cleared.write_ends.insert(read_end, handle),
            ..cleared
        }
    }

    /// The pipe was captured.
    pub open spec fn pipe_held(
        self,
        pid: i32,
        regs: Regs,
        read_end: i64,
        write_end: i64,
        handle: i32,
    ) -> (EmulationsView, Progress<Seq<u8>>) {
        match self.sequence_of(pid) {
            Some(sequence) => self.adopted(read_end, handle, sequence.clockid).goes_on(
                pid,
                sequence.piped(read_end, write_end),
                regs,
            ),
            None => EmulationsView {
                released: self.released.push(handle),
                ..self.forgotten(pid)
            }.over(),
        }
    }

    /// `tick`: the alarm says whether a deadline has passed.
    pub open spec fn ticks(self) -> (EmulationsView, Progress<Seq<u8>>) {
        (self, Progress::Act(Action::TakeAlarm, Pending::Alarm))
    }

    /// The timers after `after` are looked at; where none is left, what is due is
    /// handed over.
    pub open spec fn looks_after(self, after: Option<i64>) -> (EmulationsView, Progress<Seq<u8>>) {
        match next_armed(self.timers, after) {
            Some(fd) => (
                self,
                Progress::Act(
                    Action::Clock { id: self.timers[fd].clockid },
                    Pending::TickClock { fd },
                ),
            ),
            None => self.serves(),
        }
    }

    /// The timer of `fd` is put among those that are due, where it is.
    pub open spec fn judged(self, fd: i64, now: Option<Time>) -> EmulationsView {
        if armed(self.timers, fd) && now is Some && !before(now->0, self.timers[fd].deadline->0) {
            let timer = self.timers[fd];
            let (count, next) = expired(timer.deadline->0, timer.interval, now->0);
            EmulationsView { due: self.due.push(Due { fd, count, next }), ..self }
        } else {
            self
        }
    }

    /// The first expiration is handed over; a timer without a handle is given up.
    /// Once none is left, the tracer's timer is set again.
    pub open spec fn serves(self) -> (EmulationsView, Progress<Seq<u8>>)
        decreases self.due.len(),
    {
        if self.due.len() == 0 {
            self.arms(Rearm::Tick)
        } else {
            let due = self.due[0];
            let rest = EmulationsView { due: self.due.drop_first(), ..self };
            if self.write_ends.contains_key(due.fd) {
                (
                    rest,
                    Progress::Act(
                        Action::Expire { handle: self.write_ends[due.fd], count: due.count },
                        Pending::Serving { due },
                    ),
                )
            } else {
                EmulationsView { timers: rest.timers.remove(due.fd), ..rest }.serves()
            }
        }
    }

    /// What becomes of a timer whose expiration was written. One that was handed
    /// over moves on, to the next period or to nothing at all. Where the reader is
    /// alive but the write did not go through, an interval timer moves to its next
    /// period and a one-shot keeps its deadline. Otherwise the read end is gone.
    pub open spec fn served(self, due: Due, written: i64, errno: i32) -> EmulationsView {
        if written == 8 {
            self.moved(due.fd, due.next)
        } else if errno == EAGAIN || errno == EINTR {
            if due.next is Some {
                self.moved(due.fd, due.next)
            } else {
                self
            }
        } else {
            self.dropped(due.fd)
        }
    }

    /// Go on with the operation that waits at `at`.
    #[verifier::opaque]
    pub open spec fn proceeds(self, pid: i32, at: Pending, event: Event<Seq<u8>>, k: Kernel) -> (
        EmulationsView,
        Progress<Seq<u8>>,
    ) {
        match at {
            Pending::Entry => self.entry(pid, event.regs_of(), k),
            Pending::Gadget { regs, plan } => match event.word_of() {
                Some(word) if enters_kernel(word) => self.launches(
                    pid,
                    regs,
                    regs.rip.wrapping_sub(2),
                    plan,
                ),
                _ => self.refused(),
            },
            Pending::EventfdGadget { regs } => match event.word_of() {
                Some(word) if enters_kernel(word) => self.names_eventfd(
                    pid,
                    regs,
                    regs.rip.wrapping_sub(2),
                ),
                _ => self.refused(),
            },
            Pending::EventfdAddress { regs, gadget, length } => if !(event is Done) {
                self.refused()
            } else if regs.rdi != 0 {
                (
                    self,
                    Progress::Act(
                        Action::Write {
                            pid,
                            addr: scratch(regs.rsp).wrapping_add(256),
                            bytes: le64_bytes(regs.rdi),
                        },
                        Pending::EventfdInitial { regs, gadget, length },
                    ),
                )
            } else {
                self.launches(pid, regs, gadget, Plan::Eventfd { length })
            },
            Pending::EventfdInitial { regs, gadget, length } => if event is Done {
                self.launches(pid, regs, gadget, Plan::Eventfd { length })
            } else {
                self.refused()
            },
            Pending::Start { regs, gadget, plan } => if event is Done {
                self.begun(pid, Active::Sequence(started(plan, regs, gadget))).over()
            } else {
                self.refused()
            },
            Pending::Settime { regs, timer } => match event.bytes_of(32) {
                Some(bytes) => {
                    let interval = time_at(bytes, 0);
                    let value = time_at(bytes, 16);
                    if regs.r10 != 0 {
                        (
                            self,
                            Progress::Act(
                                Action::Clock { id: timer.clockid },
                                Pending::SettimeOld { regs, timer, interval, value },
                            ),
                        )
                    } else {
                        self.sets(pid, regs, timer, interval, value)
                    }
                },
                None => self.refused(),
            },
            Pending::SettimeOld { regs, timer, interval, value } => (
                self,
                Progress::Act(
                    Action::Write {
                        pid,
                        addr: regs.r10,
                        bytes: time_bytes(timer.interval) + time_bytes(
                            remaining(timer.deadline, event.time_of()),
                        ),
                    },
                    Pending::SettimeWrote { regs, timer, interval, value },
                ),
            ),
            Pending::SettimeWrote { regs, timer, interval, value } => if event is Done {
                self.sets(pid, regs, timer, interval, value)
            } else {
                self.refused()
            },
            Pending::SettimeNow { regs, interval, value } => match event.time_of() {
                Some(now) => self.set(regs.rdi as i64, Some(sum(now, value)), interval).arms(
                    Rearm::Settime(regs),
                ),
                None => self.refused(),
            },
            Pending::Gettime { regs, timer } => (
                self,
                Progress::Act(
                    Action::Write {
                        pid,
                        addr: regs.rsi,
                        bytes: time_bytes(timer.interval) + time_bytes(
                            remaining(timer.deadline, event.time_of()),
                        ),
                    },
                    Pending::GettimeWrote { regs },
                ),
            ),
            Pending::GettimeWrote { regs } => if event is Done {
                self.stands_in(pid, regs, 0)
            } else {
                self.refused()
            },
            Pending::StandIn { result } => if event is Done {
                self.begun(pid, Active::Fixup(result)).over()
            } else {
                self.refused()
            },
            Pending::Fixup { result } => match event.regs_of() {
                Some(regs) => (
                    self,
                    Progress::Act(
                        Action::SetRegs { pid, regs: Regs { rax: result as u64, ..regs } },
                        Pending::Settled,
                    ),
                ),
                None => self.over(),
            },
            Pending::Exit => self.exits(pid, event.regs_of()),
            Pending::PipeRead { regs } => match event.bytes_of(8) {
                Some(bytes) => {
                    let (read_end, write_end) = ends_in(bytes);
                    (
                        self,
                        Progress::Act(
                            Action::OpenPipe { pid, fd: write_end },
                            Pending::PipeOpen { regs, read_end, write_end },
                        ),
                    )
                },
                None => self.pipe_lost(pid, regs),
            },
            Pending::PipeOpen { regs, read_end, write_end } => match event.handle_of() {
                Some(handle) => self.pipe_held(pid, regs, read_end, write_end, handle),
                None => self.pipe_lost(pid, regs),
            },
            Pending::Settled => self.over(),
            Pending::Alarm => if event is Done {
                EmulationsView { due: Seq::empty(), ..self }.looks_after(None)
            } else {
                self.over()
            },
            Pending::TickClock { fd } => self.judged(fd, event.time_of()).looks_after(Some(fd)),
            Pending::Serving { due } => {
                let (written, errno) = event.written_of();
                self.served(due, written, errno).serves()
            },
            Pending::Arm { fd, soonest, rearm } => self.arms_after(
                Some(fd),
                self.nearer(fd, soonest, event.time_of()),
                rearm,
            ),
            Pending::Armed { rearm } => match rearm {
                Rearm::Settime(regs) => self.stands_in(pid, regs, 0),
                Rearm::Tick => self.over(),
            },
        }
    }
}

/// What is left of a deadline; nothing where there is none.
fn time_left(deadline: Option<Time>, now: Option<Time>) -> (t: Time)
    ensures
        t == remaining(deadline, now),
{
    let now = match now {
        Some(now) => now,
        None => (0, 0),
    };
    match deadline {
        Some(deadline) => crate::time::sub(deadline, now),
        None => (0, 0),
    }
}

/// The bytes of a `struct itimerspec`.
fn setting_bytes(interval: Time, value: Time) -> (bytes: Vec<u8>)
    ensures
        bytes@ == time_bytes(interval) + time_bytes(value),
{
    let mut bytes: Vec<u8> = Vec::new();
    push_time(&mut bytes, interval);
    push_time(&mut bytes, value);
    assert(bytes@ =~= time_bytes(interval) + time_bytes(value));
    bytes
}

/// The setting of the tracer's timer for the nearest deadline.
fn timer_setting(soonest: Option<Time>) -> (r: (i64, i64))
    ensures
        r == alarm_setting(soonest),
{
    match soonest {
        Some((seconds, nanoseconds)) => {
            let microseconds = nanoseconds / 1000;
            (seconds, if seconds == 0 && microseconds == 0 { 1 } else { microseconds })
        },
        None => (0, 0),
    }
}

/// The socket address that stands for an eventfd.
fn socket_address(pid: i32, number: u64) -> (bytes: Vec<u8>)
    ensures
        bytes@ == eventfd_address(pid, number),
{
    let mut bytes: Vec<u8> = vec![
        1, 0, 0, 115, 104, 97, 114, 117, 110, 45, 101, 102, 100, 45,
    ];
    if pid < 0 {
        bytes.push(45);
        push_decimal(&mut bytes, (-(pid as i64)) as u64);
    } else {
        push_decimal(&mut bytes, pid as u64);
    }
    bytes.push(45);
    push_decimal(&mut bytes, number);
    assert(bytes@ =~= eventfd_address(pid, number));
    bytes
}

/// The two ends of the pipe that the kernel told of.
fn pipe_ends(bytes: &Vec<u8>) -> (ends: (i64, i64))
    requires
        bytes.len() == 8,
    ensures
        ends == ends_in(bytes@),
{
    reveal(u32_at);
    (read_u32(bytes, 0, true) as i32 as i64, read_u32(bytes, 4, true) as i32 as i64)
}

/// Whether the instruction in `word` enters the kernel.
fn is_gadget(word: Option<u64>) -> (r: bool)
    ensures
        r == (word is Some && enters_kernel(word->0)),
{
    match word {
        Some(word) => word % 0x1_0000 == SYSCALL64 || word % 0x1_0000 == SYSCALL32,
        None => false,
    }
}

impl Emulations {
    /// No emulation and no timer.
    pub fn new() -> (e: Emulations)
        ensures
            e@ == (EmulationsView {
                active: Map::empty(),
                sequence: 0,
                timers: Map::empty(),
                write_ends: Map::empty(),
                due: Seq::empty(),
                released: Seq::empty(),
            }),
    {
        let e = Emulations {
            active: HashMap::new(),
            sequence: 0,
            timers: HashMap::new(),
            write_ends: HashMap::new(),
            due: VecDeque::new(),
            released: Vec::new(),
        };
        assert(e@.active =~= Map::empty());
        e
    }

    /// True while an emulation is in progress, in which case every stop belongs
    /// to `step` until it hands the result back.
    pub fn busy(&self, pid: i32) -> (r: bool)
        ensures
            r == self@.active.contains_key(pid),
    {
        self.active.contains_key(&pid)
    }

    /// Forget the emulation in progress. The emulated descriptors themselves stay:
    /// another process may have inherited them, and a stale one is dropped as
    /// soon as a write finds nobody reading.
    pub fn forget(&mut self, pid: i32)
        ensures
            final(self)@ == old(self)@.forgotten(pid),
    {
        self.active.remove(&pid);
        assert(self@ =~= old(self)@.forgotten(pid));
    }

    /// Hand over the handles that are no longer needed, to be closed.
    pub fn take_released(&mut self) -> (handles: Vec<i32>)
        ensures
            handles@ == old(self)@.released,
            final(self)@ == (EmulationsView { released: Seq::empty(), ..old(self)@ }),
    {
        let mut handles: Vec<i32> = Vec::new();
        handles.append(&mut self.released);
        assert(handles@ =~= old(self)@.released);
        assert(self@ =~= (EmulationsView { released: Seq::empty(), ..old(self)@ }));
        handles
    }

    fn set_active(&mut self, pid: i32, active: Active<Running>)
        ensures
            final(self)@ == old(self)@.begun(pid, active@),
    {
        self.active.insert(pid, active);
        assert(self@ =~= old(self)@.begun(pid, active@));
    }

    fn drop_timer(&mut self, fd: i64)
        ensures
            final(self)@ == old(self)@.dropped(fd),
    {
        self.timers.remove(&fd);
        if let Some(handle) = self.write_ends.remove(&fd) {
            self.released.push(handle);
        }
        assert(self@ =~= old(self)@.dropped(fd));
    }

    fn set_timer(&mut self, fd: i64, deadline: Option<Time>, interval: Time)
        ensures
            final(self)@ == old(self)@.set(fd, deadline, interval),
    {
        let found = match self.timers.get(&fd) {
            Some(timer) => Some(*timer),
            None => None,
        };
        if let Some(timer) = found {
            self.timers.insert(fd, Timer { clockid: timer.clockid, deadline, interval });
        }
        assert(self@ =~= old(self)@.set(fd, deadline, interval));
    }

    fn move_timer(&mut self, fd: i64, deadline: Option<Time>)
        ensures
            final(self)@ == old(self)@.moved(fd, deadline),
    {
        let found = match self.timers.get(&fd) {
            Some(timer) => Some(*timer),
            None => None,
        };
        if let Some(timer) = found {
            self.set_timer(fd, deadline, timer.interval);
        }
    }

    /// The next timer with a deadline, by descriptor.
    fn next_timer(&self, after: Option<i64>) -> (r: Option<(i64, Timer)>)
        ensures
            match r {
                Some((fd, timer)) => next_armed(self@.timers, after) == Some(fd) && timer
                    == self@.timers[fd],
                None => next_armed(self@.timers, after) is None,
            },
    {
        let mut best: Option<(i64, Timer)> = None;
        let ghost all = self.timers@;
        for entry in iter: self.timers.iter()
            invariant
                all == self.timers@,
                iter.seq() == vstd::std_specs::iter::IteratorSpec::remaining(
                    &vstd::std_specs::hash::spec_hash_map_iter(&self.timers),
                ),
                match best {
                    Some((fd, timer)) => {
                        &&& armed(all, fd)
                        &&& past(after, fd)
                        &&& all[fd] == timer
                        &&& forall|i: int|
                            0 <= i < iter.index() && armed(all, *(#[trigger] iter.seq()[i]).0)
                                && past(after, *iter.seq()[i].0) ==> fd <= *iter.seq()[i].0
                    },
                    None => forall|i: int|
                        0 <= i < iter.index() && armed(all, *(#[trigger] iter.seq()[i]).0) ==> !past(
                            after,
                            *iter.seq()[i].0,
                        ),
                },
        {
            let (fd, timer) = entry;
            let fits = match after {
                Some(last) => last < *fd,
                None => true,
            };
            assert(all.contains_key(*fd) && all[*fd] == *timer);
            if timer.deadline.is_some() && fits {
                let better = match best {
                    Some((current, _)) => *fd < current,
                    None => true,
                };
                if better {
                    best = Some((*fd, *timer));
                }
            }
        }
        proof {
            let entries = vstd::std_specs::iter::IteratorSpec::remaining(
                    &vstd::std_specs::hash::spec_hash_map_iter(&self.timers),
                );
            match best {
                Some((fd, timer)) => {
                    assert forall|other: i64| #[trigger] armed(all, other) && past(after, other)
                        implies fd <= other by {
                        assert(entries.contains((&other, &all[other])));
                    }
                    assert(is_next_armed(all, after, fd));
                },
                None => {
                    assert forall|fd: i64| !is_next_armed(all, after, fd) by {
                        if armed(all, fd) {
                            assert(entries.contains((&fd, &all[fd])));
                        }
                    }
                },
            }
        }
        best
    }

    /// Take over the entry stop if this is a call we emulate and the kernel lacks
    /// it. `entering` is the caller's record of which way round this stop is; the
    /// operation ends with whether the caller must skip its own entry handling.
    /// The exit stop of a call that already ran is never taken over, or the call
    /// would be executed a second time.
    pub fn begin(&mut self, pid: i32, entering: bool) -> (p: Progress<Vec<u8>>)
        ensures
            final(self)@ == old(self)@.begins(pid, entering).0,
            p@ == old(self)@.begins(pid, entering).1,
    {
        if !entering {
            return Progress::Done(false);
        }
        Progress::Act(Action::GetRegs { pid }, Pending::Entry)
    }

    fn seek(&self, pid: i32, regs: Regs, then: Pending) -> (p: Progress<Vec<u8>>)
        ensures
            p@ == self@.seeks(pid, regs, then).1,
    {
        Progress::Act(Action::Peek { pid, addr: regs.rip.wrapping_sub(2) }, then)
    }

    fn timer_of(&self, fd: i64) -> (r: Option<Timer>)
        ensures
            r == (if self@.timers.contains_key(fd) { Some(self@.timers[fd]) } else { None }),
    {
        match self.timers.get(&fd) {
            Some(timer) => Some(*timer),
            None => None,
        }
    }

    fn on_entry(&mut self, pid: i32, regs: Regs, kernel: &Kernel) -> (p: Progress<Vec<u8>>)
        ensures
            final(self)@ == old(self)@.entry(pid, Some(regs), *kernel).0,
            p@ == old(self)@.entry(pid, Some(regs), *kernel).1,
    {
        // An i386 process uses the same numbers for unrelated calls and keeps its
        // arguments in different registers.
        if regs.cs != CS_64 {
            return Progress::Done(false);
        }
        let nr = regs.orig_rax;
        if nr == SYS_CLOSE {
            self.drop_timer(regs.rdi as i64);
            Progress::Done(false)
        } else if nr == SYS_EVENTFD || nr == SYS_EVENTFD2 {
            if !kernel.eventfd_missing || regs.rdi > u32::MAX as u64 {
                return Progress::Done(false);
            }
            self.seek(pid, regs, Pending::EventfdGadget { regs })
        } else if nr == SYS_TIMERFD_CREATE {
            if !kernel.timerfd_missing {
                return Progress::Done(false);
            }
            let clockid = replace_clock(kernel, regs.rdi) as i32;
            self.seek(pid, regs, Pending::Gadget { regs, plan: Plan::TimerfdCreate { clockid } })
        } else if nr == SYS_TIMERFD_SETTIME {
            match self.timer_of(regs.rdi as i64) {
                Some(timer) => Progress::Act(
                    Action::Read { pid, addr: regs.rdx, len: 32 },
                    Pending::Settime { regs, timer },
                ),
                None => Progress::Done(false),
            }
        } else if nr == SYS_TIMERFD_GETTIME {
            match self.timer_of(regs.rdi as i64) {
                Some(timer) => Progress::Act(
                    Action::Clock { id: timer.clockid },
                    Pending::Gettime { regs, timer },
                ),
                None => Progress::Done(false),
            }
        } else if nr == SYS_FCNTL {
            if regs.rsi != F_DUPFD_CLOEXEC || !kernel_lt(kernel.version, 2, 6, 24) {
                return Progress::Done(false);
            }
            self.seek(pid, regs, Pending::Gadget { regs, plan: Plan::DupfdCloexec })
        } else if nr == SYS_PWRITEV || nr == SYS_PREADV {
            if !kernel_lt(kernel.version, 2, 6, 30) {
                return Progress::Done(false);
            }
            let write = nr == SYS_PWRITEV;
            self.seek(pid, regs, Pending::Gadget { regs, plan: Plan::VectorIo { write } })
        } else if nr == SYS_EPOLL_PWAIT {
            if !kernel_lt(kernel.version, 2, 6, 19) {
                return Progress::Done(false);
            }
            self.seek(pid, regs, Pending::Gadget { regs, plan: Plan::EpollPwait })
        } else {
            Progress::Done(false)
        }
    }

    fn launch(&self, pid: i32, regs: Regs, gadget: u64, plan: Plan) -> (p: Progress<Vec<u8>>)
        ensures
            p@ == self@.launches(pid, regs, gadget, plan).1,
    {
        let (_, patched) = start(plan, regs, gadget);
        Progress::Act(
            Action::SetRegs { pid, regs: patched },
            Pending::Start { regs, gadget, plan },
        )
    }

    fn name_eventfd(&mut self, pid: i32, regs: Regs, gadget: u64) -> (p: Progress<Vec<u8>>)
        ensures
            final(self)@ == old(self)@.names_eventfd(pid, regs, gadget).0,
            p@ == old(self)@.names_eventfd(pid, regs, gadget).1,
    {
        let bytes = socket_address(pid, self.sequence);
        self.sequence = self.sequence.wrapping_add(1);
        let length = bytes.len() as u64;
        Progress::Act(
            Action::Write { pid, addr: scratch_below(regs.rsp), bytes },
            Pending::EventfdAddress { regs, gadget, length },
        )
    }

    fn arm_after(&self, after: Option<i64>, soonest: Option<Time>, rearm: Rearm) -> (p: Progress<
        Vec<u8>,
    >)
        ensures
            p@ == self@.arms_after(after, soonest, rearm).1,
    {
        match self.next_timer(after) {
            Some((fd, timer)) => Progress::Act(
                Action::Clock { id: timer.clockid },
                Pending::Arm { fd, soonest, rearm },
            ),
            None => {
                let (seconds, microseconds) = timer_setting(soonest);
                Progress::Act(
                    Action::SetTimer { seconds, microseconds },
                    Pending::Armed { rearm },
                )
            },
        }
    }

    /// Set the tracer's timer for the nearest deadline.
    fn arm(&self, rearm: Rearm) -> (p: Progress<Vec<u8>>)
        ensures
            p@ == self@.arms(rearm).1,
    {
        self.arm_after(None, None, rearm)
    }

    fn nearest(&self, fd: i64, soonest: Option<Time>, now: Option<Time>) -> (r: Option<Time>)
        ensures
            r == self@.nearer(fd, soonest, now),
    {
        let deadline = match self.timer_of(fd) {
            Some(timer) => timer.deadline,
            None => None,
        };
        let Some(deadline) = deadline else {
            return soonest;
        };
        let Some(now) = now else {
            return soonest;
        };
        let left = crate::time::sub(deadline, now);
        match soonest {
            Some(current) => if earlier(left, current) { Some(left) } else { soonest },
            None => Some(left),
        }
    }

    fn settle_time(&mut self, pid: i32, regs: Regs, timer: Timer, interval: Time, value: Time) -> (p:
        Progress<Vec<u8>>)
        ensures
            final(self)@ == old(self)@.sets(pid, regs, timer, interval, value).0,
            p@ == old(self)@.sets(pid, regs, timer, interval, value).1,
    {
        let fd = regs.rdi as i64;
        if value.0 == 0 && value.1 == 0 {
            self.set_timer(fd, None, interval);
            self.arm(Rearm::Settime(regs))
        } else if regs.rsi & TFD_TIMER_ABSTIME != 0 {
            self.set_timer(fd, Some(value), interval);
            self.arm(Rearm::Settime(regs))
        } else {
            Progress::Act(
                Action::Clock { id: timer.clockid },
                Pending::SettimeNow { regs, interval, value },
            )
        }
    }

    /// Replace the call with one that always succeeds, and overwrite its result
    /// when it returns.
    fn stand_in(&self, pid: i32, regs: Regs, result: i64) -> (p: Progress<Vec<u8>>)
        ensures
            p@ == self@.stands_in(pid, regs, result).1,
    {
        Progress::Act(
            Action::SetRegs { pid, regs: with_number(regs, SYS_GETPID) },
            Pending::StandIn { result },
        )
    }

    /// Advance an emulation by one stop. The caller lets the process run up to its
    /// next system call stop afterwards, which is what makes the injected calls
    /// stop here in the first place.
    pub fn step(&mut self, pid: i32) -> (p: Progress<Vec<u8>>)
        ensures
            final(self)@ == old(self)@.stepped(pid).0,
            p@ == old(self)@.stepped(pid).1,
    {
        match self.active.remove(&pid) {
            None => {
                assert(self@ =~= old(self)@);
                Progress::Done(true)
            },
            Some(Active::Fixup(result)) => {
                assert(self@ =~= old(self)@.forgotten(pid));
                Progress::Act(Action::GetRegs { pid }, Pending::Fixup { result })
            },
            Some(Active::Sequence(mut sequence)) => {
                let entering = sequence.at_entry;
                sequence.at_entry = false;
                self.set_active(pid, Active::Sequence(sequence));
                if entering {
                    assert(self@ =~= old(self)@.stepped(pid).0);
                    Progress::Done(true)
                } else {
                    assert(self@ =~= old(self)@);
                    Progress::Act(Action::GetRegs { pid }, Pending::Exit)
                }
            },
        }
    }

    fn take_sequence(&mut self, pid: i32) -> (r: Option<Running>)
        ensures
            final(self)@ == old(self)@.forgotten(pid),
            match r {
                Some(sequence) => old(self)@.sequence_of(pid) == Some(sequence@),
                None => old(self)@.sequence_of(pid) is None,
            },
    {
        let taken = self.active.remove(&pid);
        assert(self@ =~= old(self)@.forgotten(pid));
        match taken {
            Some(Active::Sequence(sequence)) => Some(sequence),
            _ => None,
        }
    }

    fn go_on(&mut self, pid: i32, sequence: Running, regs: Regs) -> (p: Progress<Vec<u8>>)
        ensures
            final(self)@ == old(self)@.goes_on(pid, sequence@, regs).0,
            p@ == old(self)@.goes_on(pid, sequence@, regs).1,
    {
        let mut sequence = sequence;
        match sequence.advance(regs) {
            Turn::More(patched) => {
                self.set_active(pid, Active::Sequence(sequence));
                Progress::Act(Action::SetRegs { pid, regs: patched }, Pending::Settled)
            },
            Turn::Over(done) => {
                self.forget(pid);
                Progress::Act(Action::SetRegs { pid, regs: done }, Pending::Settled)
            },
        }
    }

    fn on_exit(&mut self, pid: i32, regs: Option<Regs>) -> (p: Progress<Vec<u8>>)
        ensures
            final(self)@ == old(self)@.exits(pid, regs).0,
            p@ == old(self)@.exits(pid, regs).1,
    {
        let Some(mut sequence) = self.take_sequence(pid) else {
            return Progress::Done(true);
        };
        let Some(regs) = regs else {
            return Progress::Done(true);
        };
        let result = regs.rax as i64;
        let step = sequence.collect(result);
        let ghost collected = sequence@;
        if result < -4095 || 0 <= result {
            if let Some(Step::Pipe { buffer }) = step {
                self.set_active(pid, Active::Sequence(sequence));
                assert(self@ =~= old(self)@.begun(pid, Active::Sequence(collected)));
                return Progress::Act(
                    Action::Read { pid, addr: buffer, len: 8 },
                    Pending::PipeRead { regs },
                );
            }
        }
        let p = self.go_on(pid, sequence, regs);
        assert(self@ =~= old(self)@.goes_on(pid, collected, regs).0);
        p
    }

    fn lose_pipe(&mut self, pid: i32, regs: Regs) -> (p: Progress<Vec<u8>>)
        ensures
            final(self)@ == old(self)@.pipe_lost(pid, regs).0,
            p@ == old(self)@.pipe_lost(pid, regs).1,
    {
        let Some(mut sequence) = self.take_sequence(pid) else {
            return Progress::Done(true);
        };
        let ghost before = sequence@;
        sequence.results.push(-EIO as i64);
        let ghost noted = sequence@;
        assert(noted =~= before.noted((-EIO) as i64));
        let p = self.go_on(pid, sequence, regs);
        assert(self@ =~= old(self)@.goes_on(pid, noted, regs).0);
        p
    }

    /// Take over the pipe that the process just created: the tracer's handle on
    /// its write end serves deadlines without going near the process, and its read
    /// end is adopted.
    fn capture_pipe(&mut self, pid: i32, regs: Regs, read_end: i64, write_end: i64, handle: i32) -> (p:
        Progress<Vec<u8>>)
        ensures
            final(self)@ == old(self)@.pipe_held(pid, regs, read_end, write_end, handle).0,
            p@ == old(self)@.pipe_held(pid, regs, read_end, write_end, handle).1,
    {
        let Some(mut sequence) = self.take_sequence(pid) else {
            self.released.push(handle);
            assert(self@ =~= old(self)@.pipe_held(pid, regs, read_end, write_end, handle).0);
            return Progress::Done(true);
        };
        let clockid = sequence.clockid;
        self.drop_timer(read_end);
        self.timers.insert(read_end, Timer { clockid, deadline: None, interval: (0, 0) });
        self.write_ends.insert(read_end, handle);
        assert(self@ =~= old(self)@.forgotten(pid).adopted(read_end, handle, clockid));
        sequence.read_end = read_end;
        sequence.write_end = write_end;
        sequence.fd = read_end;
        let ghost piped = sequence@;
        let p = self.go_on(pid, sequence, regs);
        assert(self@ =~= old(self)@.adopted(read_end, handle, clockid).goes_on(pid, piped, regs).0);
        p
    }

    /// Serve deadlines that have come due: the alarm says that at least one has,
    /// and the tracer calls this whenever it comes back.
    pub fn tick(&mut self) -> (p: Progress<Vec<u8>>)
        ensures
            final(self)@ == old(self)@.ticks().0,
            p@ == old(self)@.ticks().1,
    {
        Progress::Act(Action::TakeAlarm, Pending::Alarm)
    }

    fn look_after(&mut self, after: Option<i64>) -> (p: Progress<Vec<u8>>)
        ensures
            final(self)@ == old(self)@.looks_after(after).0,
            p@ == old(self)@.looks_after(after).1,
    {
        match self.next_timer(after) {
            Some((fd, timer)) => Progress::Act(
                Action::Clock { id: timer.clockid },
                Pending::TickClock { fd },
            ),
            None => self.serve(),
        }
    }

    fn judge(&mut self, fd: i64, now: Option<Time>)
        ensures
            final(self)@ == old(self)@.judged(fd, now),
    {
        let Some(timer) = self.timer_of(fd) else {
            return;
        };
        let Some(deadline) = timer.deadline else {
            return;
        };
        let Some(now) = now else {
            return;
        };
        if earlier(now, deadline) {
            return;
        }
        let (count, next) = expirations(deadline, timer.interval, now);
        self.due.push_back(Due { fd, count, next });
        assert(self@ =~= old(self)@.judged(fd, Some(now)));
    }

    fn serve(&mut self) -> (p: Progress<Vec<u8>>)
        ensures
            final(self)@ == old(self)@.serves().0,
            p@ == old(self)@.serves().1,
    {
        while self.due.len() > 0
            invariant
                self@.serves() == old(self)@.serves(),
            decreases self.due.len(),
        {
            let ghost before = self@;
            if let Some(due) = self.due.pop_front() {
                assert(self@.due =~= before.due.drop_first());
                let handle = match self.write_ends.get(&due.fd) {
                    Some(handle) => Some(*handle),
                    None => None,
                };
                match handle {
                    Some(handle) => {
                        assert(self@ =~= before.serves().0);
                        return Progress::Act(
                            Action::Expire { handle, count: due.count },
                            Pending::Serving { due },
                        );
                    },
                    None => {
                        self.timers.remove(&due.fd);
                        assert(self@ =~= (EmulationsView {
                            due: before.due.drop_first(),
                            timers: before.timers.remove(due.fd),
                            ..before
                        }));
                    },
                }
            }
        }
        self.arm(Rearm::Tick)
    }

    fn on_served(&mut self, due: Due, written: i64, errno: i32)
        ensures
            final(self)@ == old(self)@.served(due, written, errno),
    {
        if written == 8 {
            self.move_timer(due.fd, due.next);
        } else if errno == EAGAIN || errno == EINTR {
            if due.next.is_some() {
                self.move_timer(due.fd, due.next);
            }
        } else {
            self.drop_timer(due.fd);
        }
    }

    /// Go on with the operation that waits at `at`, now that the driver has acted.
    pub fn proceed(&mut self, pid: i32, at: Pending, event: Event<Vec<u8>>, kernel: &Kernel) -> (p:
        Progress<Vec<u8>>)
        ensures
            final(self)@ == old(self)@.proceeds(pid, at, event@, *kernel).0,
            p@ == old(self)@.proceeds(pid, at, event@, *kernel).1,
    {
        reveal(EmulationsView::proceeds);
        match at {
            Pending::Entry => match event.regs() {
                Some(regs) => self.on_entry(pid, regs, kernel),
                None => Progress::Done(false),
            },
            Pending::Gadget { regs, plan } => {
                if !is_gadget(event.word()) {
                    return Progress::Done(false);
                }
                self.launch(pid, regs, regs.rip.wrapping_sub(2), plan)
            },
            Pending::EventfdGadget { regs } => {
                if !is_gadget(event.word()) {
                    return Progress::Done(false);
                }
                self.name_eventfd(pid, regs, regs.rip.wrapping_sub(2))
            },
            Pending::EventfdAddress { regs, gadget, length } => {
                if !event.done() {
                    return Progress::Done(false);
                }
                if regs.rdi != 0 {
                    let bytes = bytes_of_word(regs.rdi);
                    return Progress::Act(
                        Action::Write {
                            pid,
                            addr: scratch_below(regs.rsp).wrapping_add(256),
                            bytes,
                        },
                        Pending::EventfdInitial { regs, gadget, length },
                    );
                }
                self.launch(pid, regs, gadget, Plan::Eventfd { length })
            },
            Pending::EventfdInitial { regs, gadget, length } => {
                if !event.done() {
                    return Progress::Done(false);
                }
                self.launch(pid, regs, gadget, Plan::Eventfd { length })
            },
            Pending::Start { regs, gadget, plan } => {
                if !event.done() {
                    return Progress::Done(false);
                }
                let (sequence, _) = start(plan, regs, gadget);
                self.set_active(pid, Active::Sequence(sequence));
                Progress::Done(true)
            },
            Pending::Settime { regs, timer } => match event.bytes(32) {
                Some(bytes) => {
                    let interval = read_time(&bytes, 0);
                    let value = read_time(&bytes, 16);
                    if regs.r10 != 0 {
                        return Progress::Act(
                            Action::Clock { id: timer.clockid },
                            Pending::SettimeOld { regs, timer, interval, value },
                        );
                    }
                    self.settle_time(pid, regs, timer, interval, value)
                },
                None => Progress::Done(false),
            },
            Pending::SettimeOld { regs, timer, interval, value } => {
                let left = time_left(timer.deadline, event.time());
                let bytes = setting_bytes(timer.interval, left);
                Progress::Act(
                    Action::Write { pid, addr: regs.r10, bytes },
                    Pending::SettimeWrote { regs, timer, interval, value },
                )
            },
            Pending::SettimeWrote { regs, timer, interval, value } => {
                if !event.done() {
                    return Progress::Done(false);
                }
                self.settle_time(pid, regs, timer, interval, value)
            },
            Pending::SettimeNow { regs, interval, value } => match event.time() {
                Some(now) => {
                    self.set_timer(
                        regs.rdi as i64,
                        Some(crate::time::add(now, value)),
                        interval,
                    );
                    self.arm(Rearm::Settime(regs))
                },
                None => Progress::Done(false),
            },
            Pending::Gettime { regs, timer } => {
                let left = time_left(timer.deadline, event.time());
                let bytes = setting_bytes(timer.interval, left);
                Progress::Act(
                    Action::Write { pid, addr: regs.rsi, bytes },
                    Pending::GettimeWrote { regs },
                )
            },
            Pending::GettimeWrote { regs } => {
                if !event.done() {
                    return Progress::Done(false);
                }
                self.stand_in(pid, regs, 0)
            },
            Pending::StandIn { result } => {
                if !event.done() {
                    return Progress::Done(false);
                }
                self.set_active(pid, Active::Fixup(result));
                Progress::Done(true)
            },
            Pending::Fixup { result } => match event.regs() {
                Some(regs) => Progress::Act(
                    Action::SetRegs { pid, regs: Regs { rax: result as u64, ..regs } },
                    Pending::Settled,
                ),
                None => Progress::Done(true),
            },
            Pending::Exit => self.on_exit(pid, event.regs()),
            Pending::PipeRead { regs } => match event.bytes(8) {
                Some(bytes) => {
                    let (read_end, write_end) = pipe_ends(&bytes);
                    Progress::Act(
                        Action::OpenPipe { pid, fd: write_end },
                        Pending::PipeOpen { regs, read_end, write_end },
                    )
                },
                None => self.lose_pipe(pid, regs),
            },
            Pending::PipeOpen { regs, read_end, write_end } => match event.handle() {
                Some(handle) => self.capture_pipe(pid, regs, read_end, write_end, handle),
                None => self.lose_pipe(pid, regs),
            },
            Pending::Settled => Progress::Done(true),
            Pending::Alarm => {
                if !event.done() {
                    return Progress::Done(true);
                }
                self.due.clear();
                assert(self@ =~= (EmulationsView { due: Seq::empty(), ..old(self)@ }));
                self.look_after(None)
            },
            Pending::TickClock { fd } => {
                self.judge(fd, event.time());
                self.look_after(Some(fd))
            },
            Pending::Serving { due } => {
                let (written, errno) = event.written();
                self.on_served(due, written, errno);
                self.serve()
            },
            Pending::Arm { fd, soonest, rearm } => {
                let soonest = self.nearest(fd, soonest, event.time());
                self.arm_after(Some(fd), soonest, rearm)
            },
            Pending::Armed { rearm } => match rearm {
                Rearm::Settime(regs) => self.stand_in(pid, regs, 0),
                Rearm::Tick => Progress::Done(true),
            },
        }
    }
}

}
