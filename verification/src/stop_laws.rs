//! What is done about each change of state of a traced process.

use vstd::prelude::*;
use crate::abi::Regs;
use crate::emulated_syscalls::{EmulationsView, Pending, Progress};
use crate::kernel::Kernel;
use crate::protocol::{Action, Event};
use crate::tracer::{Next, Task, TracerView};
use crate::translation_laws::{runs_on, stopped_goes_on};
use crate::wait::{meaning, Wait};

verus! {

/// The wait status with this low byte, this second byte and this upper half.
pub open spec fn status_of(low: int, high: int, upper: int) -> i32 {
    (upper * 0x1_0000 + high * 0x100 + low) as i32
}

/// The low byte, the second byte and the upper half make up a wait status.
pub open spec fn is_status(low: int, high: int, upper: int) -> bool {
    0 <= low < 0x100 && 0 <= high < 0x100 && -0x8000 <= upper < 0x8000
}

/// Every wait status is read by its parts. The low seven bits are zero for a process that
/// exited with the code in the second byte; the low byte is 127 for one that stopped; any
/// other is that of one that a signal killed. A stop is that of a system call where the
/// second byte has its top bit, else that of a ptrace event where there is one, else that
/// of the signal in the second byte.
pub proof fn statuses_are_read(pid: i32, low: int, high: int, upper: int)
    requires
        is_status(low, high, upper),
    ensures
        ({
            let m = meaning(pid, status_of(low, high, upper));
            if low == 0 || low == 128 {
                m == (Wait::Exited { pid, code: high as i32 })
            } else if low != 127 {
                m == (Wait::Signaled { pid, signal: (low % 128) as i32 })
            } else if high >= 128 {
                m == (Wait::Syscall { pid })
            } else if upper != 0 {
                m == (Wait::Event {
                    pid,
                    event: (if upper < 0 { upper + 0x1_0000_0000 } else { upper }) as u32,
                })
            } else {
                m == (Wait::Stopped { pid, signal: high as i32 })
            }
        }),
{
    let l = low as i32;
    let h = high as i32;
    let u = upper as i32;
    let status = status_of(low, high, upper);
    assert(status & 0x7f == l % 128 && status & 0xff == l && (status >> 8) & 0xff == h && (status
        >> 16) == u) by (bit_vector)
        requires
            0 <= l < 0x100,
            0 <= h < 0x100,
            -0x8000 <= u < 0x8000,
            status == u * 0x1_0000 + h * 0x100 + l,
    ;
    assert(h & 0x80 != 0 <==> h >= 128) by (bit_vector)
        requires
            0 <= h < 0x100,
    ;
    assert(u < 0 ==> u as u32 == u + 0x1_0000_0000) by (bit_vector);
}

/// What is done when a process is reported with a wait status.
pub open spec fn reported(t: TracerView, pid: i32, status: i32, k: Kernel) -> Next {
    TracerView { task: Task::Wait, ..t }.continues(Event::Waited { pid, status }, k)
}

/// The deadlines are looked after, and then a process is waited for.
pub open spec fn waits_again(n: Next, t: TracerView) -> bool {
    &&& n.1 == Action::<Seq<u8>>::TakeAlarm
    &&& n.0 == (TracerView { task: Task::Tick { at: Pending::Alarm }, ..t })
}

/// The tracer ends with this status.
pub open spec fn ends_with(n: Next, t: TracerView, code: i32) -> bool {
    &&& n.1 == (Action::<Seq<u8>>::Exit { code })
    &&& n.0 == (TracerView { task: Task::Over { code }, ..t })
}

/// The process runs on, with all that is known of it kept.
pub open spec fn is_resumed(
    n: Next,
    t: TracerView,
    pid: i32,
    syscall: bool,
    signal: Option<i32>,
) -> bool {
    &&& n.1 == (Action::<Seq<u8>>::Resume { pid, syscall, signal })
    &&& n.0 == (TracerView { task: Task::Resumed, ..t })
}

/// Nothing is known of the process any more. The timers belong to the descriptors and stay.
pub open spec fn without(t: TracerView, pid: i32) -> TracerView {
    TracerView {
        configured: t.configured.remove(pid),
        in_syscall: t.in_syscall.remove(pid),
        last_syscall: t.last_syscall.remove(pid),
        statx: t.statx.remove(pid),
        termios2_get: t.termios2_get.remove(pid),
        emulated: EmulationsView { active: t.emulated.active.remove(pid), ..t.emulated },
        reserved: t.reserved.remove(pid),
        stashed_signal: t.stashed_signal.remove(pid),
        expect_entry: t.expect_entry.remove(pid),
        ..t
    }
}

/// The process ended with this status, as a shell would give it.
pub open spec fn is_gone(n: Next, t: TracerView, pid: i32, code: i32) -> bool {
    let rest = without(t, pid);
    if pid != t.child {
        waits_again(n, rest)
    } else if t.seccomp_mode {
        waits_again(n, TracerView { main_code: Some(code), ..rest })
    } else {
        ends_with(n, rest, code)
    }
}

/// A process that ended is forgotten. With the main process the tracer ends too, with the
/// exit code or 128 and the signal; but where the filter needs it, it stays for the others.
pub proof fn ends_are_passed_on(
    t: TracerView,
    pid: i32,
    low: int,
    high: int,
    upper: int,
    k: Kernel,
)
    requires
        is_status(low, high, upper),
    ensures
        low == 0 || low == 128 ==> is_gone(
            reported(t, pid, status_of(low, high, upper), k),
            t,
            pid,
            high as i32,
        ),
        low != 0 && low != 127 && low != 128 ==> is_gone(
            reported(t, pid, status_of(low, high, upper), k),
            t,
            pid,
            (128 + low % 128) as i32,
        ),
{
    statuses_are_read(pid, low, high, upper);
}

/// A stop of the filter has the registers read; any other ptrace event is passed over.
pub proof fn events_are_passed_over(t: TracerView, pid: i32, high: int, upper: int, k: Kernel)
    requires
        is_status(127, high, upper),
        high < 128 && upper != 0,
    ensures
        ({
            let n = reported(t, pid, status_of(127, high, upper), k);
            if upper == 7 {
                &&& n.1 == (Action::<Seq<u8>>::GetRegs { pid })
                &&& n.0 == (TracerView { task: Task::Filtered { pid }, ..t })
            } else {
                is_resumed(n, t, pid, t.syscall_mode, None)
            }
        }),
{
    statuses_are_read(pid, 127, high, upper);
}

/// The process is given a signal or none. Where the exit of a filtered call is still to
/// come, it stops there.
pub open spec fn is_given(n: Next, t: TracerView, pid: i32, signal: Option<i32>) -> bool {
    let awaited = t.seccomp_mode && (t.reserved.contains_key(pid) || t.expect_entry.contains(pid)
        || t.statx.contains_key(pid) || t.last_syscall.contains_key(pid));
    is_resumed(n, t, pid, awaited || t.syscall_mode, signal)
}

/// The word begins with the bytes 0f 01 d0, which are `XGETBV`.
pub open spec fn is_xgetbv(word: u64) -> bool {
    word % 256 == 0x0f && (word / 256) % 256 == 0x01 && (word / 65536) % 256 == 0xd0
}

/// The process gets a signal. In an emulation it is held back for later. An illegal
/// instruction is looked at; a `XGETBV` is skipped and answered with zeros. Any other
/// signal, and any other instruction's, is passed on.
pub open spec fn gets_signal(
    n: Next,
    t: TracerView,
    pid: i32,
    signal: i32,
    regs: Regs,
    word: u64,
    k: Kernel,
) -> bool {
    let held = if t.stashed_signal.contains_key(pid) {
        t.stashed_signal[pid]
    } else {
        Seq::empty()
    };
    if t.emulated.active.contains_key(pid) && signal != 0 && signal != 5 && signal != 19 {
        is_resumed(
            n,
            TracerView {
                stashed_signal: t.stashed_signal.insert(pid, held.push(signal)),
                ..t
            },
            pid,
            t.syscall_mode,
            None,
        )
    } else if signal == 4 {
        let n1 = n.0.continues(Event::Regs(regs), k);
        let n2 = n1.0.continues(Event::Word(word), k);
        let behind = if regs.rip + 3 < 0x1_0000_0000_0000_0000 {
            (regs.rip + 3) as u64
        } else {
            (regs.rip + 3 - 0x1_0000_0000_0000_0000) as u64
        };
        &&& n.1 == (Action::<Seq<u8>>::GetRegs { pid })
        &&& n1.1 == (Action::<Seq<u8>>::Peek { pid, addr: regs.rip })
        &&& is_given(n.0.continues(Event::Failed, k), t, pid, Some(4i32))
        &&& is_given(n1.0.continues(Event::Failed, k), t, pid, Some(4i32))
        &&& is_xgetbv(word) ==> {
            &&& n2.1 == (Action::<Seq<u8>>::SetRegs {
                pid,
                regs: Regs { rax: 0, rdx: 0, rip: behind, ..regs },
            })
            &&& is_given(n2.0.continues(Event::Done, k), t, pid, None)
            &&& is_given(n2.0.continues(Event::Failed, k), t, pid, Some(4i32))
        }
        &&& !is_xgetbv(word) ==> is_given(n2, t, pid, Some(4i32))
    } else {
        is_given(n, t, pid, Some(signal))
    }
}

/// A signal for a process is dealt with as it should.
proof fn signals_are_got(
    t: TracerView,
    task: Task,
    pid: i32,
    signal: i32,
    regs: Regs,
    word: u64,
    k: Kernel,
)
    ensures
        gets_signal(
            TracerView { task, ..t }.signalled(pid, signal),
            t,
            pid,
            signal,
            regs,
            word,
            k,
        ),
{
    assert(is_xgetbv(word) <==> word % 0x100_0000 == 0xd0010f) by {
        assert(word % 256 == 0x0f && (word / 256) % 256 == 0x01 && (word / 65536) % 256 == 0xd0
            <==> word % 0x100_0000 == 0xd0010f) by (bit_vector);
    }
}

/// A signal stop of a process that is known gives it the signal.
pub proof fn signals_are_passed_on(
    t: TracerView,
    pid: i32,
    signal: i32,
    regs: Regs,
    word: u64,
    k: Kernel,
)
    requires
        0 <= signal < 128,
        pid == t.child || t.configured.contains(pid),
    ensures
        gets_signal(
            reported(t, pid, status_of(127, signal as int, 0), k),
            t,
            pid,
            signal,
            regs,
            word,
            k,
        ),
{
    statuses_are_read(pid, 127, signal as int, 0);
    signals_are_got(t, Task::Wait, pid, signal, regs, word, k);
}

/// The tracing options that are asked for, one after the other: that system call stops are
/// told apart, that what a process starts by fork, vfork or clone is traced too, that of
/// exec, and with the filter its stops.
pub open spec fn option_of(i: int) -> u32 {
    if i == 0 {
        1
    } else if i == 1 {
        2
    } else if i == 2 {
        4
    } else if i == 3 {
        8
    } else if i == 4 {
        16
    } else {
        128
    }
}

/// The options from number `i` on are tried, `set` being those that are set. One that is
/// refused is left out again. Then `t` goes on with all that were accepted.
pub open spec fn tries(
    n: Next,
    t: TracerView,
    pid: i32,
    i: int,
    set: u32,
    seccomp: bool,
    stopped: Option<i32>,
    at: (Regs, u64),
    k: Kernel,
) -> bool
    decreases 6 - i,
{
    if i < 5 || i == 5 && seccomp {
        let accepted = n.0.continues(Event::Done, k);
        let refused = n.0.continues(Event::Failed, k);
        let with = set | option_of(i);
        &&& n.1 == (Action::<Seq<u8>>::SetOptions { pid, options: with })
        &&& tries(accepted, t, pid, i + 1, with, seccomp, stopped, at, k)
        &&& refused.1 == (Action::<Seq<u8>>::SetOptions { pid, options: set })
        &&& tries(
            refused.0.continues(Event::Done, k),
            t,
            pid,
            i + 1,
            set,
            seccomp,
            stopped,
            at,
            k,
        )
        &&& tries(
            refused.0.continues(Event::Failed, k),
            t,
            pid,
            i + 1,
            set,
            seccomp,
            stopped,
            at,
            k,
        )
    } else {
        starts(n, t, pid, set, stopped, at, k)
    }
}

/// A process whose options are set starts. The main process shows by them how calls are
/// traced: by the filter, or each of them, or not at all. Any other process gets the signal
/// that it was stopped by, unless that only held it for the tracer.
pub open spec fn starts(
    n: Next,
    t: TracerView,
    pid: i32,
    set: u32,
    stopped: Option<i32>,
    at: (Regs, u64),
    k: Kernel,
) -> bool {
    match stopped {
        None => {
            let seccomp_mode = t.use_seccomp && (set / 128) % 2 == 1;
            let syscall_mode = !seccomp_mode && set % 2 == 1;
            is_resumed(
                n,
                TracerView { seccomp_mode, syscall_mode, ..t },
                t.child,
                syscall_mode,
                None,
            )
        },
        Some(signal) => {
            let known = TracerView { configured: t.configured.insert(pid), ..t };
            if signal == 19 {
                is_resumed(n, known, pid, t.syscall_mode, None)
            } else {
                gets_signal(n, known, pid, signal, at.0, at.1, k)
            }
        },
    }
}

/// The options are tried one after the other.
proof fn options_are_tried(
    t: TracerView,
    task: Task,
    pid: i32,
    i: u8,
    set: u32,
    seccomp: bool,
    stopped: Option<i32>,
    at: (Regs, u64),
    k: Kernel,
)
    requires
        i <= 5 || i == 6 && seccomp,
    ensures
        tries(
            TracerView { task, ..t }.configures(pid, i, set, seccomp, stopped),
            t,
            pid,
            i as int,
            set,
            seccomp,
            stopped,
            at,
            k,
        ),
    decreases 6 - i,
{
    let n = TracerView { task, ..t }.configures(pid, i, set, seccomp, stopped);
    if i < 5 || i == 5 && seccomp {
        let refused = n.0.continues(Event::Failed, k);
        let next = (i + 1) as u8;
        options_are_tried(
            t,
            n.0.task,
            pid,
            next,
            set | option_of(i as int),
            seccomp,
            stopped,
            at,
            k,
        );
        options_are_tried(t, refused.0.task, pid, next, set, seccomp, stopped, at, k);
    } else {
        assert((set & 0x80 != 0 <==> (set / 128) % 2 == 1) && (set & 1 != 0 <==> set % 2 == 1))
            by (bit_vector);
        let known = TracerView { configured: t.configured.insert(pid), ..t };
        if stopped is Some {
            signals_are_got(known, task, pid, stopped->0, at.0, at.1, k);
        }
    }
}

/// The first signal stop of a process that is new has its options set, and then lets it
/// start.
pub proof fn new_processes_are_configured(
    t: TracerView,
    pid: i32,
    signal: i32,
    at: (Regs, u64),
    k: Kernel,
)
    requires
        0 <= signal < 128,
        pid != t.child && !t.configured.contains(pid),
    ensures
        tries(
            reported(t, pid, status_of(127, signal as int, 0), k),
            t,
            pid,
            0,
            0,
            t.seccomp_mode,
            Some(signal),
            at,
            k,
        ),
{
    statuses_are_read(pid, 127, signal as int, 0);
    options_are_tried(t, Task::Wait, pid, 0, 0, t.seccomp_mode, Some(signal), at, k);
}

/// The first change of state of the main process has its options set, and then lets it
/// start. One that ended already has its status passed on.
pub proof fn main_process_is_configured(
    t: TracerView,
    pid: i32,
    low: int,
    high: int,
    upper: int,
    at: (Regs, u64),
    k: Kernel,
)
    requires
        is_status(low, high, upper),
    ensures
        ({
            let at_launch = TracerView { task: Task::Launch, ..t };
            let n = at_launch.continues(
                Event::Waited { pid, status: status_of(low, high, upper) },
                k,
            );
            if low == 0 || low == 128 {
                ends_with(n, t, high as i32)
            } else if low != 127 && low % 128 <= 31 {
                ends_with(n, t, (128 + low % 128) as i32)
            } else {
                tries(n, t, t.child, 0, 0, t.use_seccomp, None, at, k)
            }
        }),
        tries(
            TracerView { task: Task::Launch, ..t }.continues(Event::Failed, k),
            t,
            t.child,
            0,
            0,
            t.use_seccomp,
            None,
            at,
            k,
        ),
{
    statuses_are_read(pid, low, high, upper);
    options_are_tried(t, Task::Launch, t.child, 0, 0, t.use_seccomp, None, at, k);
}

/// A tracer of `child` begins with nothing known but that it is traced.
pub proof fn tracers_begin_with_nothing(child: i32, use_seccomp: bool)
    ensures
        ({
            let t = TracerView::fresh(child, use_seccomp);
            &&& t.child == child && t.use_seccomp == use_seccomp && t.task == Task::Launch
            &&& t.configured == Set::<i32>::empty().insert(child)
            &&& t.in_syscall.dom() == Set::<i32>::empty()
            &&& t.last_syscall.dom() == Set::<i32>::empty()
            &&& t.statx.dom() == Set::<i32>::empty()
            &&& t.termios2_get.dom() == Set::<i32>::empty()
            &&& t.reserved.dom() == Set::<i32>::empty()
            &&& t.stashed_signal.dom() == Set::<i32>::empty()
            &&& t.expect_entry == Set::<i32>::empty()
            &&& t.emulated.active.dom() == Set::<i32>::empty()
            &&& t.emulated.timers.dom() == Set::<i64>::empty()
            &&& t.emulated.write_ends.dom() == Set::<i64>::empty()
            &&& t.emulated.due.len() == 0 && t.emulated.released.len() == 0
            &&& t.emulated.sequence == 0
            &&& !t.syscall_mode && !t.seccomp_mode && t.main_code is None
        }),
{
}

/// Once a process runs, and whenever waiting was interrupted, the deadlines are looked after
/// and a process is waited for. With no process left the tracer ends with the status of
/// the main process, or with zero, and then stays at that.
pub proof fn tracer_waits_until_all_are_gone(
    t: TracerView,
    event: Event<Seq<u8>>,
    errno: i32,
    code: i32,
    k: Kernel,
)
    ensures
        ends_with(TracerView { task: Task::Over { code }, ..t }.continues(event, k), t, code),
        waits_again(TracerView { task: Task::Resumed, ..t }.continues(event, k), t),
        event !is Waited && event !is WaitFailed ==> waits_again(
            TracerView { task: Task::Wait, ..t }.continues(event, k),
            t,
        ),
        ({
            let n = TracerView { task: Task::Wait, ..t }.continues(
                Event::WaitFailed { errno },
                k,
            );
            if errno == 10 {
                ends_with(n, t, if t.main_code is Some { t.main_code->0 } else { 0 })
            } else {
                waits_again(n, t)
            }
        }),
{
}

/// With the filter, a system call stop is the entry of a filtered call where one is
/// awaited, and then the exit is run to; any other is the exit of one.
pub proof fn filtered_calls_stop_twice(t: TracerView, pid: i32, high: int, upper: int, k: Kernel)
    requires
        is_status(127, high, upper) && high >= 128,
        t.seccomp_mode,
    ensures
        ({
            let n = reported(t, pid, status_of(127, high, upper), k);
            if t.expect_entry.contains(pid) {
                is_resumed(
                    n,
                    TracerView { expect_entry: t.expect_entry.remove(pid), ..t },
                    pid,
                    true,
                    None,
                )
            } else {
                &&& n.1 == (Action::<Seq<u8>>::GetRegs { pid })
                &&& n.0 == (TracerView { task: Task::Exit { pid }, ..t })
            }
        }),
{
    statuses_are_read(pid, 127, high, upper);
}

/// Where every call is traced, the stops of a process are the entry and the exit of a call
/// in turn. At an entry the call is first offered to the emulations.
pub proof fn calls_stop_at_entry_and_exit(
    t: TracerView,
    pid: i32,
    high: int,
    upper: int,
    k: Kernel,
)
    requires
        is_status(127, high, upper) && high >= 128,
        !t.seccomp_mode,
        !t.emulated.active.contains_key(pid),
    ensures
        ({
            let n = reported(t, pid, status_of(127, high, upper), k);
            &&& n.1 == (Action::<Seq<u8>>::GetRegs { pid })
            &&& if t.in_syscall.contains_key(pid) && t.in_syscall[pid] {
                n.0 == (TracerView {
                    task: Task::Exit { pid },
                    in_syscall: t.in_syscall.insert(pid, false),
                    ..t
                })
            } else {
                n.0 == (TracerView { task: Task::Begin { pid, at: Pending::Entry }, ..t })
            }
        }),
{
    statuses_are_read(pid, 127, high, upper);
}

/// What the emulations ask for is done, and what comes back is handed to them. A call that
/// they took over, or that belongs to one of them, runs on; one that they left is looked at
/// here. Once the deadlines are seen to, a process is waited for.
pub proof fn emulations_are_driven(
    t: TracerView,
    pid: i32,
    at: Pending,
    event: Event<Seq<u8>>,
    k: Kernel,
)
    ensures
        ({
            let (e, come) = t.emulated.proceeds(pid, at, event, k);
            let (f, due) = t.emulated.proceeds(t.child, at, event, k);
            let begun = TracerView { task: Task::Begin { pid, at }, ..t }.continues(event, k);
            let step = TracerView { task: Task::Step { pid, at }, ..t }.continues(event, k);
            let tick = TracerView { task: Task::Tick { at }, ..t }.continues(event, k);
            let inside = t.in_syscall.contains_key(pid) && t.in_syscall[pid];
            &&& match come {
                Progress::Act(action, then) => {
                    &&& begun.1 == action && step.1 == action
                    &&& begun.0 == (TracerView {
                        task: Task::Begin { pid, at: then },
                        emulated: e,
                        ..t
                    })
                    &&& step.0 == (TracerView {
                        task: Task::Step { pid, at: then },
                        emulated: e,
                        ..t
                    })
                },
                Progress::Done(taken) => {
                    &&& runs_on(step, TracerView { emulated: e, ..t }, pid)
                    &&& taken ==> runs_on(begun, TracerView { emulated: e, ..t }, pid)
                    &&& !taken ==> begun.1 == (Action::<Seq<u8>>::GetRegs { pid }) && begun.0 == (
                    TracerView {
                        task: if inside { Task::Exit { pid } } else { Task::Entry { pid } },
                        in_syscall: t.in_syscall.insert(pid, !inside),
                        emulated: e,
                        ..t
                    })
                },
            }
            &&& match due {
                Progress::Act(action, then) => tick.1 == action && tick.0 == (TracerView {
                    task: Task::Tick { at: then },
                    emulated: f,
                    ..t
                }),
                Progress::Done(_) => tick.1 == Action::<Seq<u8>>::Wait && tick.0 == (TracerView {
                    task: Task::Wait,
                    emulated: f,
                    ..t
                }),
            }
        }),
{
    let e = t.emulated.proceeds(pid, at, event, k).0;
    let known = TracerView { emulated: e, ..t };
    stopped_goes_on(known, Task::Begin { pid, at }, pid, false, false);
    stopped_goes_on(known, Task::Step { pid, at }, pid, false, false);
}

/// A system call stop of a process in an emulation is handed to it.
pub proof fn emulations_get_their_stops(t: TracerView, pid: i32, high: int, upper: int, k: Kernel)
    requires
        is_status(127, high, upper) && high >= 128,
        !t.seccomp_mode,
        t.emulated.active.contains_key(pid),
    ensures
        ({
            let n = reported(t, pid, status_of(127, high, upper), k);
            let (e, come) = t.emulated.stepped(pid);
            match come {
                Progress::Act(action, at) => n.1 == action && n.0 == (TracerView {
                    task: Task::Step { pid, at },
                    emulated: e,
                    ..t
                }),
                Progress::Done(_) => runs_on(n, TracerView { emulated: e, ..t }, pid),
            }
        }),
{
    statuses_are_read(pid, 127, high, upper);
    let e = t.emulated.stepped(pid).0;
    stopped_goes_on(TracerView { emulated: e, ..t }, Task::Wait, pid, false, false);
}

}
