//! What holds of the tracer as a whole.

use vstd::prelude::*;
use crate::abi::{
    failed, scratch, Regs, CS_64, ECHILD, EFAULT, ENOSYS, SIGILL, SIGSTOP, SIGTRAP,
    SYS_GETRANDOM, SYS_IOCTL, SYS_STATX,
};
use crate::emulated_syscalls::{EmulationsView, Pending, Progress};
use crate::emulation_laws::{
    accounts_for, handles_are_accounted_for, paired, processes_do_not_interfere, same_but_for,
    timers_keep_their_handles,
};
use crate::futex::{futex, timed};
use crate::kernel::{lt, Kernel};
use crate::memory::{
    distance, distances_add_up, is_partial, only_the_bytes_are_written, peeked, word_address,
    word_count, words_for, written,
};
use crate::protocol::{Action, Event};
use crate::statx::{stat_call, statx_of, STAT_SIZE};
use crate::termios::{speed_fields, TCGETS, TCGETS2, TERMIOS2_ISPEED};
use crate::time::{difference, time_at, time_bytes, Time};
use crate::tracer::{chunk_len, table_end, Next, Task, TracerView, CHUNK};
use crate::wait::{meaning, Wait};

verus! {

/// Nothing is kept of the process.
pub open spec fn knows_nothing_of(t: TracerView, pid: i32) -> bool {
    &&& !t.configured.contains(pid)
    &&& !t.in_syscall.contains_key(pid)
    &&& !t.last_syscall.contains_key(pid)
    &&& !t.statx.contains_key(pid)
    &&& !t.termios2_get.contains_key(pid)
    &&& !t.emulated.active.contains_key(pid)
    &&& !t.reserved.contains_key(pid)
    &&& !t.stashed_signal.contains_key(pid)
    &&& !t.expect_entry.contains(pid)
}

/// The same is kept of the process.
pub open spec fn knows_the_same_of(t: TracerView, u: TracerView, pid: i32) -> bool {
    &&& t.configured.contains(pid) == u.configured.contains(pid)
    &&& same_entry(t.in_syscall, u.in_syscall, pid)
    &&& same_entry(t.last_syscall, u.last_syscall, pid)
    &&& same_entry(t.statx, u.statx, pid)
    &&& same_entry(t.termios2_get, u.termios2_get, pid)
    &&& same_entry(t.emulated.active, u.emulated.active, pid)
    &&& same_entry(t.reserved, u.reserved, pid)
    &&& same_entry(t.stashed_signal, u.stashed_signal, pid)
    &&& t.expect_entry.contains(pid) == u.expect_entry.contains(pid)
}

/// Both maps say the same of the process.
pub open spec fn same_entry<V>(a: Map<i32, V>, b: Map<i32, V>, pid: i32) -> bool {
    a.contains_key(pid) == b.contains_key(pid) && (a.contains_key(pid) ==> a[pid] == b[pid])
}

/// The process that what is done next is about.
pub open spec fn subject(t: TracerView, event: Event<Seq<u8>>) -> i32 {
    match t.task {
        Task::Launch | Task::Resumed | Task::Tick { .. } | Task::Over { .. } => t.child,
        Task::Wait => match event {
            Event::Waited { pid, .. } => pid,
            _ => t.child,
        },
        Task::Options { pid, .. } => pid,
        Task::OptionsKept { pid, .. } => pid,
        Task::Begin { pid, .. } => pid,
        Task::Step { pid, .. } => pid,
        Task::IllegalRegs { pid } => pid,
        Task::IllegalWord { pid, .. } => pid,
        Task::IllegalSet { pid } => pid,
        Task::Filtered { pid } => pid,
        Task::Entry { pid } => pid,
        Task::Translated { pid, .. } => pid,
        Task::FutexTimeout { pid, .. } => pid,
        Task::FutexClock { pid, .. } => pid,
        Task::FutexScratch { pid, .. } => pid,
        Task::StatxSet { pid, .. } => pid,
        Task::TermiosSet { pid, .. } => pid,
        Task::PpollTimeout { pid, .. } => pid,
        Task::Exit { pid } => pid,
        Task::TermiosRead { pid, .. } => pid,
        Task::TermiosWrote { pid, .. } => pid,
        Task::StatxRead { pid, .. } => pid,
        Task::StatxWrote { pid, .. } => pid,
        Task::RandomOpen { pid, .. } => pid,
        Task::RandomRead { pid, .. } => pid,
        Task::RandomWrote { pid, .. } => pid,
        Task::Settled { pid } => pid,
    }
}

/// Nothing is kept of a process that ended, so that another with its id inherits
/// nothing.
pub proof fn ended_processes_leave_nothing(t: TracerView, pid: i32, status: i32, k: Kernel)
    requires
        t.task is Wait,
        meaning(pid, status) is Exited || meaning(pid, status) is Signaled,
    ensures
        knows_nothing_of(t.continues(Event::Waited { pid, status }, k).0, pid),
{
}

/// Nothing has changed but what is kept of the process.
pub open spec fn only_touches(t: TracerView, u: TracerView, pid: i32) -> bool {
    &&& forall|other: i32| other != pid ==> #[trigger] knows_the_same_of(t, u, other)
    &&& u.child == t.child
    &&& u.main_code == t.main_code
}

/// Nothing has changed but what is kept of the process, and no emulation has.
spec fn only_notes(t: TracerView, u: TracerView, pid: i32) -> bool {
    only_touches(t, u, pid) && u.emulated == t.emulated
}

proof fn exits_only_note(t: TracerView, pid: i32, regs: Regs, dirty: bool, done: u64, k: Kernel)
    ensures
        only_notes(t, t.exits_echo(pid, regs, dirty, k).0, pid),
        only_notes(t, t.random_lost(pid, regs, dirty, k).0, pid),
        only_notes(t, t.random(pid, regs, dirty, done, k).0, pid),
        only_notes(t, t.exits_random(pid, regs, dirty, k).0, pid),
        only_notes(t, t.exits_stack(pid, regs, dirty, k).0, pid),
        only_notes(t, t.exits_statx(pid, regs, dirty, k).0, pid),
        only_notes(t, t.exits(pid, Some(regs), k).0, pid),
        only_notes(t, t.exits(pid, None, k).0, pid),
{
}

proof fn entries_only_note(t: TracerView, pid: i32, regs: Option<Regs>, k: Kernel)
    ensures
        only_notes(t, t.enters(pid, regs, k).0, pid),
        only_notes(t, t.filtered(pid, regs, k).0, pid),
{
}

proof fn signals_only_note(t: TracerView, pid: i32, signal: i32)
    ensures
        only_notes(t, t.signalled(pid, signal).0, pid),
        only_notes(t, t.stopped(pid, signal).0, pid),
        only_notes(t, t.delivers(pid, Some(signal)).0, pid),
        only_notes(t, t.delivers(pid, None).0, pid),
{
}

proof fn options_only_note(
    t: TracerView,
    pid: i32,
    index: u8,
    set: u32,
    seccomp: bool,
    stopped: Option<i32>,
)
    ensures
        only_notes(t, t.configures(pid, index, set, seccomp, stopped).0, pid),
{
    if let Some(signal) = stopped {
        signals_only_note(TracerView { configured: t.configured.insert(pid), ..t }, pid, signal);
    }
}

proof fn progress_only_touches(t: TracerView, pid: i32, r: (EmulationsView, Progress<Seq<u8>>))
    requires
        same_but_for(t.emulated, r.0, pid),
    ensures
        only_touches(t, t.stepped(pid, r).0, pid),
        only_touches(t, t.begun(pid, r).0, pid),
        only_touches(t, t.ticked(r).0, pid),
        t.stepped(pid, r).0.emulated == r.0,
        t.begun(pid, r).0.emulated == r.0,
        t.ticked(r).0.emulated == r.0,
{
    let u = TracerView { emulated: r.0, ..t };
    assert forall|other: i32| other != pid implies #[trigger] same_entry(
        t.emulated.active,
        r.0.active,
        other,
    ) by {
        assert(r.0.active.contains_key(other) == t.emulated.active.contains_key(other));
    }
}

proof fn waits_only_touch(t: TracerView, event: Event<Seq<u8>>, k: Kernel)
    requires
        t.task is Wait,
    ensures
        ({
            let u = t.waited(event).0;
            let pid = subject(t, event);
            &&& forall|other: i32| other != pid ==> #[trigger] knows_the_same_of(t, u, other)
            &&& u.child == t.child
            &&& pid != t.child || !(event is Waited) ==> u.main_code == t.main_code
            &&& {
                ||| u.emulated == t.emulated
                ||| u.emulated == t.emulated.forgotten(pid)
                ||| u.emulated == t.emulated.stepped(pid).0
                ||| u.emulated == t.emulated.begins(pid, !t.inside(pid)).0
            }
        }),
{
    if let Event::Waited { pid, status } = event {
        match meaning(pid, status) {
            Wait::Stopped { pid: p, signal } => {
                signals_only_note(t, pid, signal);
            },
            Wait::Syscall { .. } => {
                processes_do_not_interfere(t.emulated, pid, false, Pending::Exit, event, k);
                processes_do_not_interfere(t.emulated, pid, true, Pending::Exit, event, k);
                progress_only_touches(t, pid, t.emulated.stepped(pid));
                progress_only_touches(t, pid, t.emulated.begins(pid, !t.inside(pid)));
            },
            _ => {},
        }
    }
}

proof fn steps_only_touch(t: TracerView, event: Event<Seq<u8>>, k: Kernel)
    requires
        !(t.task is Wait),
    ensures
        only_touches(t, t.continues(event, k).0, subject(t, event)),
        t.continues(event, k).0.emulated == match t.task {
            Task::Tick { at } => t.emulated.proceeds(t.child, at, event, k).0,
            Task::Begin { pid, at } => t.emulated.proceeds(pid, at, event, k).0,
            Task::Step { pid, at } => t.emulated.proceeds(pid, at, event, k).0,
            _ => t.emulated,
        },
{
    match t.task {
        Task::Launch => {
            options_only_note(t, t.child, 0, 0, t.use_seccomp, None);
        },
        Task::Options { pid, index, set, option, seccomp, stopped } => {
            options_only_note(t, pid, index.wrapping_add(1), set | option, seccomp, stopped);
        },
        Task::OptionsKept { pid, index, set, seccomp, stopped } => {
            options_only_note(t, pid, index.wrapping_add(1), set, seccomp, stopped);
        },
        Task::Tick { at } => {
            processes_do_not_interfere(t.emulated, t.child, false, at, event, k);
            progress_only_touches(t, t.child, t.emulated.proceeds(t.child, at, event, k));
        },
        Task::Begin { pid, at } => {
            processes_do_not_interfere(t.emulated, pid, false, at, event, k);
            progress_only_touches(t, pid, t.emulated.proceeds(pid, at, event, k));
        },
        Task::Step { pid, at } => {
            processes_do_not_interfere(t.emulated, pid, false, at, event, k);
            progress_only_touches(t, pid, t.emulated.proceeds(pid, at, event, k));
        },
        Task::IllegalRegs { pid } => {
            signals_only_note(t, pid, SIGILL);
        },
        Task::IllegalWord { pid, regs } => {
            signals_only_note(t, pid, SIGILL);
        },
        Task::IllegalSet { pid } => {
            signals_only_note(t, pid, SIGILL);
        },
        Task::Filtered { pid } => {
            entries_only_note(t, pid, event.regs_of(), k);
        },
        Task::Entry { pid } => {
            entries_only_note(t, pid, event.regs_of(), k);
        },
        Task::Exit { pid } => {
            if let Some(regs) = event.regs_of() {
                exits_only_note(t, pid, regs, false, 0, k);
            }
        },
        Task::TermiosWrote { pid, regs } => {
            exits_only_note(t, pid, regs, false, 0, k);
            exits_only_note(t, pid, Regs { rax: failed(EFAULT), ..regs }, true, 0, k);
        },
        Task::StatxRead { pid, regs, dirty, statxbuf } => {
            exits_only_note(t, pid, Regs { rax: failed(EFAULT), ..regs }, true, 0, k);
        },
        Task::StatxWrote { pid, regs, dirty } => {
            exits_only_note(t, pid, regs, dirty, 0, k);
            exits_only_note(t, pid, Regs { rax: failed(EFAULT), ..regs }, true, 0, k);
        },
        Task::RandomOpen { pid, regs, dirty } => {
            exits_only_note(t, pid, regs, dirty, 0, k);
        },
        Task::RandomRead { pid, regs, dirty, done } => {
            exits_only_note(t, pid, regs, dirty, done, k);
        },
        Task::RandomWrote { pid, regs, dirty, done } => {
            exits_only_note(t, pid, regs, dirty, done, k);
        },
        _ => {},
    }
}

/// What is done for one process leaves what is kept of every other alone.
pub proof fn processes_are_kept_apart(
    t: TracerView,
    event: Event<Seq<u8>>,
    k: Kernel,
    other: i32,
)
    requires
        other != subject(t, event),
    ensures
        knows_the_same_of(t, t.continues(event, k).0, other),
{
    if t.task is Wait {
        waits_only_touch(t, event, k);
    } else {
        steps_only_touch(t, event, k);
    }
}

/// A 32-bit process is never translated, neither at the entry of a call nor at its
/// exit: it just runs on.
pub proof fn only_64_bit_processes_are_translated(t: TracerView, pid: i32, regs: Regs, k: Kernel)
    requires
        regs.cs != CS_64,
    ensures
        t.task == (Task::Entry { pid }) ==> t.continues(Event::Regs(regs), k).1 == t.leaves(pid).1,
        t.task == (Task::Exit { pid }) ==> t.continues(Event::Regs(regs), k) == t.leaves(pid),
{
}

/// Entry stops and exit stops of the application's calls take turns.
pub proof fn stops_take_turns(t: TracerView, pid: i32)
    ensures
        t.plain_stop(pid).0.inside(pid) == !t.inside(pid),
        t.inside(pid) <==> t.plain_stop(pid).0.task is Exit,
{
}

/// The registers that end the call in `pid` are written with this stack pointer, or
/// will be.
pub open spec fn restores(n: Next, pid: i32, rsp: u64) -> bool {
    match n.0.task {
        Task::Settled { pid: p } => p == pid && (n.1 matches Action::SetRegs { pid: q, regs } && q
            == pid && regs.rsp == rsp),
        Task::RandomOpen { pid: p, regs, dirty } => p == pid && dirty && regs.rsp == rsp,
        Task::RandomRead { pid: p, regs, dirty, .. } => p == pid && dirty && regs.rsp == rsp,
        Task::RandomWrote { pid: p, regs, dirty, .. } => p == pid && dirty && regs.rsp == rsp,
        Task::TermiosRead { pid: p, .. } => p == pid && n.0.reserved.contains_key(pid)
            && n.0.reserved[pid] == rsp,
        Task::TermiosWrote { pid: p, .. } => p == pid && n.0.reserved.contains_key(pid)
            && n.0.reserved[pid] == rsp,
        Task::StatxRead { pid: p, .. } => p == pid && n.0.reserved.contains_key(pid)
            && n.0.reserved[pid] == rsp,
        Task::StatxWrote { pid: p, .. } => p == pid && n.0.reserved.contains_key(pid)
            && n.0.reserved[pid] == rsp,
        _ => false,
    }
}

/// A call that was given scratch space below the stack returns with the stack
/// pointer it was made with, however its result is completed: the exit sets out to
/// restore it, every step on the way keeps to that, and the registers that are
/// written last have it.
pub proof fn stack_pointer_is_restored(
    t: TracerView,
    pid: i32,
    regs: Regs,
    n: Next,
    rsp: u64,
    event: Event<Seq<u8>>,
    k: Kernel,
)
    requires
        t.reserved.contains_key(pid),
        regs.cs == CS_64,
        restores(n, pid, rsp),
    ensures
        restores(t.exits(pid, Some(regs), k), pid, t.reserved[pid]),
        n.0.task is Settled || restores(n.0.continues(event, k), pid, rsp),
{
}

/// A signal that arrives during an emulation does not reach the process before it
/// is over. The two signals by which stops are reported are not held back.
pub proof fn signals_wait_for_emulations(t: TracerView, pid: i32, signal: i32)
    requires
        t.emulated.active.contains_key(pid),
        signal != 0 && signal != SIGSTOP && signal != SIGTRAP,
    ensures
        t.signalled(pid, signal).1 == (Action::<Seq<u8>>::Resume {
            pid,
            syscall: t.syscall_mode,
            signal: None,
        }),
        t.signalled(pid, signal).0.held(pid) == t.held(pid).push(signal),
{
}

/// The signals that were held back are delivered when the emulation is over: each
/// time the process runs on from a system call stop it gets the first of them, in
/// the order they came, and each only once.
pub proof fn held_signals_are_delivered(t: TracerView, pid: i32, e: EmulationsView, taken: bool)
    requires
        t.held(pid).len() > 0,
        !e.active.contains_key(pid),
    ensures
        ({
            let n = t.stepped(pid, (e, Progress::Done(taken)));
            &&& n.1 == (Action::<Seq<u8>>::Resume {
                pid,
                syscall: t.syscall_mode,
                signal: Some(t.held(pid)[0]),
            })
            &&& n.0.held(pid) == t.held(pid).drop_first()
        }),
        !t.emulated.active.contains_key(pid) ==> t.leaves(pid).1 == (Action::<Seq<u8>>::Resume {
            pid,
            syscall: t.syscall_mode,
            signal: Some(t.held(pid)[0]),
        }) && t.leaves(pid).0.held(pid) == t.held(pid).drop_first(),
{
    assert(t.held(pid).len() == 1 ==> t.held(pid).drop_first() =~= Seq::empty());
}

/// Of the signals that are held back for the process none is lost: another joins
/// them, or the first of them goes to the process, or they stay as they are.
pub open spec fn keeps_signals(t: TracerView, n: Next, pid: i32) -> bool {
    let before = t.held(pid);
    let after = n.0.held(pid);
    ||| after == before
    ||| after.len() > 0 && after == before.push(after.last())
    ||| before.len() > 0 && after == before.drop_first() && (n.1 matches Action::Resume {
        pid: p,
        signal,
        ..
    } && p == pid && signal == Some(before[0]))
}

proof fn leaving_keeps_signals(t: TracerView, pid: i32)
    ensures
        keeps_signals(t, t.leaves(pid), pid),
        keeps_signals(t, t.translated(pid, false, false), pid),
        keeps_signals(t, t.translated(pid, false, true), pid),
        keeps_signals(t, t.translated(pid, true, false), pid),
        keeps_signals(t, t.translated(pid, true, true), pid),
{
    let held = t.held(pid);
    assert(held.len() == 1 ==> held.drop_first() =~= Seq::empty());
}

proof fn exits_keep_signals(t: TracerView, pid: i32, regs: Regs, dirty: bool, done: u64, k: Kernel)
    ensures
        keeps_signals(t, t.exits_echo(pid, regs, dirty, k), pid),
        keeps_signals(t, t.random_lost(pid, regs, dirty, k), pid),
        keeps_signals(t, t.random(pid, regs, dirty, done, k), pid),
        keeps_signals(t, t.exits_random(pid, regs, dirty, k), pid),
        keeps_signals(t, t.exits_stack(pid, regs, dirty, k), pid),
        keeps_signals(t, t.exits_statx(pid, regs, dirty, k), pid),
        keeps_signals(t, t.exits(pid, Some(regs), k), pid),
        keeps_signals(t, t.exits(pid, None, k), pid),
{
    let held = t.held(pid);
    assert(held.len() == 1 ==> held.drop_first() =~= Seq::empty());
}

proof fn entries_keep_signals(t: TracerView, pid: i32, regs: Option<Regs>, k: Kernel)
    ensures
        keeps_signals(t, t.enters(pid, regs, k), pid),
        keeps_signals(t, t.filtered(pid, regs, k), pid),
{
    let held = t.held(pid);
    assert(held.len() == 1 ==> held.drop_first() =~= Seq::empty());
}

proof fn stops_keep_signals(
    t: TracerView,
    pid: i32,
    signal: i32,
    index: u8,
    set: u32,
    seccomp: bool,
    stopped: Option<i32>,
)
    ensures
        keeps_signals(t, t.signalled(pid, signal), pid),
        keeps_signals(t, t.delivers(pid, Some(signal)), pid),
        keeps_signals(t, t.delivers(pid, None), pid),
        keeps_signals(t, t.configures(pid, index, set, seccomp, stopped), pid),
        keeps_signals(t, t.stopped(pid, signal), pid),
{
}

proof fn progress_keeps_signals(t: TracerView, pid: i32, r: (EmulationsView, Progress<Seq<u8>>))
    ensures
        keeps_signals(t, t.stepped(pid, r), pid),
        keeps_signals(t, t.begun(pid, r), pid),
        keeps_signals(t, t.ticked(r), pid),
{
    let held = t.held(pid);
    assert(held.len() == 1 ==> held.drop_first() =~= Seq::empty());
}

/// No signal that is held back is lost, unless its process ends.
pub proof fn held_signals_are_not_lost(t: TracerView, event: Event<Seq<u8>>, k: Kernel)
    requires
        t.task is Wait && (event matches Event::Waited { pid, status }) ==> !(meaning(
            subject(t, event),
            event->status,
        ) is Exited) && !(meaning(subject(t, event), event->status) is Signaled),
    ensures
        keeps_signals(t, t.continues(event, k), subject(t, event)),
{
    match t.task {
        Task::Launch => {
            stops_keep_signals(t, t.child, 0, 0, 0, t.use_seccomp, None);
        },
        Task::Options { pid, index, set, option, seccomp, stopped } => {
            stops_keep_signals(t, pid, 0, index.wrapping_add(1), set | option, seccomp, stopped);
        },
        Task::OptionsKept { pid, index, set, seccomp, stopped } => {
            stops_keep_signals(t, pid, 0, index.wrapping_add(1), set, seccomp, stopped);
        },
        Task::Tick { at } => {
            progress_keeps_signals(t, t.child, t.emulated.proceeds(t.child, at, event, k));
        },
        Task::Begin { pid, at } => {
            progress_keeps_signals(t, pid, t.emulated.proceeds(pid, at, event, k));
        },
        Task::Step { pid, at } => {
            progress_keeps_signals(t, pid, t.emulated.proceeds(pid, at, event, k));
        },
        Task::Wait => {
            if let Event::Waited { pid, status } = event {
                match meaning(pid, status) {
                    Wait::Stopped { signal, .. } => {
                        stops_keep_signals(t, pid, signal, 0, 0, t.seccomp_mode, Some(signal));
                    },
                    Wait::Syscall { .. } => {
                        progress_keeps_signals(t, pid, t.emulated.stepped(pid));
                        progress_keeps_signals(
                            t,
                            pid,
                            t.emulated.begins(pid, !t.inside(pid)),
                        );
                    },
                    _ => {},
                }
            }
        },
        Task::IllegalRegs { pid } => {
            stops_keep_signals(t, pid, SIGILL, 0, 0, false, None);
        },
        Task::IllegalWord { pid, regs } => {
            stops_keep_signals(t, pid, SIGILL, 0, 0, false, None);
        },
        Task::IllegalSet { pid } => {
            stops_keep_signals(t, pid, SIGILL, 0, 0, false, None);
        },
        Task::Filtered { pid } => {
            entries_keep_signals(t, pid, event.regs_of(), k);
        },
        Task::Entry { pid } => {
            entries_keep_signals(t, pid, event.regs_of(), k);
        },
        Task::Translated { pid, filtered, owed } => {
            leaving_keeps_signals(t, pid);
        },
        Task::FutexTimeout { pid, regs, filtered } => {
            leaving_keeps_signals(t, pid);
        },
        Task::FutexClock { pid, regs, filtered, deadline } => {
            leaving_keeps_signals(t, pid);
        },
        Task::FutexScratch { pid, regs, filtered } => {
            leaving_keeps_signals(t, pid);
        },
        Task::StatxSet { pid, regs, filtered } => {
            leaving_keeps_signals(t, pid);
            assert(t.held(pid).len() == 1 ==> t.held(pid).drop_first() =~= Seq::empty());
        },
        Task::TermiosSet { pid, regs, legacy } => {
            leaving_keeps_signals(t, pid);
            assert(t.held(pid).len() == 1 ==> t.held(pid).drop_first() =~= Seq::empty());
        },
        Task::Exit { pid } => {
            if let Some(regs) = event.regs_of() {
                exits_keep_signals(t, pid, regs, false, 0, k);
            } else {
                assert(t.held(pid).len() == 1 ==> t.held(pid).drop_first() =~= Seq::empty());
            }
        },
        Task::TermiosWrote { pid, regs } => {
            exits_keep_signals(t, pid, regs, false, 0, k);
            exits_keep_signals(t, pid, Regs { rax: failed(EFAULT), ..regs }, true, 0, k);
        },
        Task::StatxRead { pid, regs, dirty, statxbuf } => {
            exits_keep_signals(t, pid, Regs { rax: failed(EFAULT), ..regs }, true, 0, k);
        },
        Task::StatxWrote { pid, regs, dirty } => {
            exits_keep_signals(t, pid, regs, dirty, 0, k);
            exits_keep_signals(t, pid, Regs { rax: failed(EFAULT), ..regs }, true, 0, k);
        },
        Task::RandomOpen { pid, regs, dirty } => {
            exits_keep_signals(t, pid, regs, dirty, 0, k);
        },
        Task::RandomRead { pid, regs, dirty, done } => {
            exits_keep_signals(t, pid, regs, dirty, done, k);
        },
        Task::RandomWrote { pid, regs, dirty, done } => {
            exits_keep_signals(t, pid, regs, dirty, done, k);
        },
        Task::Settled { pid } => {
            leaving_keeps_signals(t, pid);
        },
        _ => {},
    }
}

/// After a stop of the filter that needs the exit of the call, a signal does not
/// make the process run past it.
pub proof fn exit_stops_are_not_lost(t: TracerView, pid: i32, signal: Option<i32>)
    requires
        t.seccomp_mode,
    ensures
        t.translated(pid, true, true).0.exit_pending(pid),
        t.exit_pending(pid) ==> t.delivers(pid, signal).1 == (Action::<Seq<u8>>::Resume {
            pid,
            syscall: true,
            signal,
        }),
{
}

/// The result of a call that was rewritten is left alone, even where it equals the
/// number of the call that it stands for, and so are all results on a kernel that
/// does not echo numbers. An echoed number becomes the error it stands for.
pub proof fn only_echoes_are_corrected(t: TracerView, pid: i32, regs: Regs, k: Kernel)
    ensures
        t.last_syscall.contains_key(pid) && regs.orig_rax != t.last_syscall[pid] ==> !t.echoed(
            pid,
            regs,
            k,
        ),
        !lt(k.version, (2, 6, 19)) ==> !t.echoed(pid, regs, k),
        t.echoed(pid, regs, k) ==> t.exits_echo(pid, regs, false, k).1 == (
        Action::<Seq<u8>>::SetRegs { pid, regs: Regs { rax: failed(ENOSYS), ..regs } }),
{
}

/// A kernel that echoes numbers has every call above its own table, answered with its
/// number, turned into a failure, unless the call was translated.
pub proof fn calls_above_the_table_fail(t: TracerView, pid: i32, regs: Regs, k: Kernel)
    requires
        lt(k.version, (2, 6, 19)),
        regs.cs == CS_64,
        regs.orig_rax > table_end(k.version),
        regs.rax == regs.orig_rax,
        t.last_syscall.contains_key(pid) && t.last_syscall[pid] == regs.orig_rax,
        !t.termios2_get.contains_key(pid) && !t.statx.contains_key(pid)
            && !t.reserved.contains_key(pid),
        !(regs.orig_rax == SYS_GETRANDOM && k.getrandom_missing),
    ensures
        table_end(k.version) == if lt(k.version, (2, 6, 18)) { 278u64 } else { 279u64 },
        t.exits(pid, Some(regs), k).1 == (Action::<Seq<u8>>::SetRegs {
            pid,
            regs: Regs { rax: failed(ENOSYS), ..regs },
        }),
{
}

/// Each chunk of random bytes is put where it belongs in the buffer, behind those that
/// are there already, and no byte outside the buffer is changed: `mem` is the memory
/// before, `there` the word at the end of the chunk, and `n` how many of its words could
/// be written.
pub proof fn random_bytes_stay_in_the_buffer(
    mem: spec_fn(u64) -> u8,
    regs: Regs,
    done: u64,
    bytes: Seq<u8>,
    there: u64,
    n: nat,
    a: u64,
)
    requires
        done < regs.rsi,
        bytes.len() == chunk_len(regs.rsi, done),
        is_partial(bytes.len() as int) ==> there == peeked(
            mem,
            word_address(regs.rdi.wrapping_add(done), word_count(bytes.len() as int) - 1),
        ),
        n <= word_count(bytes.len() as int),
    ensures
        ({
            let d = distance(a, regs.rdi);
            let after = written(mem, regs.rdi.wrapping_add(done), words_for(bytes, there), n);
            &&& d < done || done + bytes.len() <= d ==> after(a) == mem(a)
            &&& d >= regs.rsi ==> after(a) == mem(a)
            &&& n == word_count(bytes.len() as int) && done <= d < done + bytes.len() ==> after(a)
                == bytes[d - done]
        }),
{
    let addr = regs.rdi.wrapping_add(done);
    assert(addr == ((regs.rdi + done) % 0x1_0000_0000_0000_0000) as u64);
    distances_add_up(a, regs.rdi, done as int);
    only_the_bytes_are_written(mem, addr, bytes, there, n, a);
}

/// Random bytes are fetched in chunks that follow one another and end where the
/// buffer does; success is reported for all of them at once, however many there are.
pub proof fn random_bytes_fill_the_buffer(
    t: TracerView,
    pid: i32,
    regs: Regs,
    done: u64,
    bytes: Seq<u8>,
    k: Kernel,
)
    requires
        done < regs.rsi,
        bytes.len() == chunk_len(regs.rsi, done),
    ensures
        0 < bytes.len() <= CHUNK,
        done + bytes.len() <= regs.rsi,
        ({
            let fetching = TracerView {
                task: Task::RandomRead { pid, regs, dirty: true, done },
                ..t
            };
            let after = (done + bytes.len()) as u64;
            let n = fetching.continues(Event::Bytes(bytes), k);
            &&& n.1 == Action::Write { pid, addr: regs.rdi.wrapping_add(done), bytes }
            &&& n.0.continues(Event::Done, k) == t.random(pid, regs, true, after, k)
        }),
        t.random(pid, regs, true, regs.rsi, k).1 == (Action::<Seq<u8>>::SetRegs {
            pid,
            regs: Regs { rax: regs.rsi, ..regs },
        }),
{
    let fetching = TracerView { task: Task::RandomRead { pid, regs, dirty: true, done }, ..t };
    let after = (done + bytes.len()) as u64;
    let n = fetching.continues(Event::Bytes(bytes), k);
    assert(n.0.continues(Event::Done, k) == n.0.random(pid, regs, true, after, k));
}

/// The tracer ends as the main process did: at once, or with the filter in place
/// once every process is gone.
pub proof fn main_status_is_passed_on(t: TracerView, status: i32, k: Kernel)
    requires
        t.task is Wait,
    ensures
        ({
            let n = t.continues(Event::Waited { pid: t.child, status }, k);
            let code = match meaning(t.child, status) {
                Wait::Exited { code, .. } => Some(code),
                Wait::Signaled { signal, .. } => Some((128 + signal) as i32),
                _ => None,
            };
            code is Some ==> if t.seccomp_mode {
                n.0.main_code == code
            } else {
                n.1 == (Action::<Seq<u8>>::Exit { code: code->0 })
            }
        }),
        t.main_code is Some ==> t.continues(Event::WaitFailed { errno: ECHILD }, k).1 == (
        Action::<Seq<u8>>::Exit { code: t.main_code->0 }),
{
}

/// How the main process ended is remembered until then.
pub proof fn main_status_is_remembered(t: TracerView, event: Event<Seq<u8>>, k: Kernel)
    requires
        t.task is Wait ==> subject(t, event) != t.child || !(event is Waited),
    ensures
        t.continues(event, k).0.main_code == t.main_code,
{
    if t.task is Wait {
        waits_only_touch(t, event, k);
    } else {
        steps_only_touch(t, event, k);
    }
}

/// Whatever the tracer does, every emulated timer keeps its handle, and no handle
/// is lost.
pub proof fn timers_survive(t: TracerView, event: Event<Seq<u8>>, k: Kernel)
    requires
        paired(t.emulated),
    ensures
        paired(t.continues(event, k).0.emulated),
        accounts_for(t.emulated, t.continues(event, k).0.emulated),
{
    let pid = subject(t, event);
    let at = match t.task {
        Task::Tick { at } => at,
        Task::Begin { at, .. } => at,
        Task::Step { at, .. } => at,
        _ => Pending::Settled,
    };
    timers_keep_their_handles(t.emulated, pid, !t.inside(pid), at, event, k);
    handles_are_accounted_for(t.emulated, pid, !t.inside(pid), at, event, k);
    if t.task is Wait {
        waits_only_touch(t, event, k);
    } else {
        steps_only_touch(t, event, k);
    }
}

/// A `statx` is made as an older call, and when that succeeds its result reaches the
/// caller's buffer as a `struct statx`, with the stack as it was.
pub proof fn statx_is_answered(
    t: TracerView,
    pid: i32,
    regs: Regs,
    back: Regs,
    stat: Seq<u8>,
    k: Kernel,
)
    requires
        regs.cs == CS_64 && regs.orig_rax == SYS_STATX && k.statx_missing && regs.r8 != 0,
        back.cs == CS_64 && back.orig_rax == stat_call(regs).orig_rax && back.rax == 0,
        stat.len() == STAT_SIZE,
        !t.termios2_get.contains_key(pid),
    ensures
        ({
            let entered = t.enters(pid, Some(regs), k);
            let returned = entered.0.continues(Event::Done, k).0.exits(pid, Some(back), k);
            let read = returned.0.continues(Event::Bytes(stat), k);
            let wrote = read.0.continues(Event::Done, k);
            &&& entered.1 == (Action::<Seq<u8>>::SetRegs { pid, regs: stat_call(regs) })
            &&& returned.1 == (Action::<Seq<u8>>::Read {
                pid,
                addr: scratch(regs.rsp),
                len: STAT_SIZE,
            })
            &&& read.1 == (Action::Write { pid, addr: regs.r8, bytes: statx_of(stat) })
            &&& wrote.1 == (Action::<Seq<u8>>::SetRegs {
                pid,
                regs: Regs { rsp: regs.rsp, ..back },
            })
        }),
{
}

/// A termios2 request for the settings is made as the older one, and when that
/// succeeds the speeds that the older one does not report follow the settings.
pub proof fn termios2_is_answered(
    t: TracerView,
    pid: i32,
    regs: Regs,
    back: Regs,
    termios: Seq<u8>,
    k: Kernel,
)
    requires
        regs.cs == CS_64 && regs.orig_rax == SYS_IOCTL && lt(k.version, (2, 6, 20)) && regs.rsi
            == TCGETS2,
        back.cs == CS_64 && back.rax == 0,
        termios.len() == TERMIOS2_ISPEED,
    ensures
        ({
            let entered = t.enters(pid, Some(regs), k);
            let returned = entered.0.continues(Event::Done, k).0.exits(pid, Some(back), k);
            let read = returned.0.continues(Event::Bytes(termios), k);
            &&& entered.1 == (Action::<Seq<u8>>::SetRegs { pid, regs: Regs { rsi: TCGETS, ..regs } })
            &&& returned.1 == (Action::<Seq<u8>>::Read {
                pid,
                addr: regs.rdx,
                len: TERMIOS2_ISPEED as usize,
            })
            &&& read.1 == (Action::Write {
                pid,
                addr: regs.rdx.wrapping_add(TERMIOS2_ISPEED),
                bytes: speed_fields(Some(termios)),
            })
        }),
{
}

/// A timed futex wait is made with what is left until its deadline, in scratch
/// space; nothing else is written, and the stack is put back when it returns.
pub proof fn futex_waits_are_relative(
    t: TracerView,
    pid: i32,
    regs: Regs,
    filtered: bool,
    timeout: Seq<u8>,
    now: Time,
    k: Kernel,
)
    requires
        futex(k.version, regs) is Timed,
        timeout.len() == 16,
    ensures
        ({
            let asked = t.futex(pid, regs, filtered, k);
            let read = asked.0.continues(Event::Bytes(timeout), k);
            let told = read.0.continues(Event::Time(now), k);
            let wrote = told.0.continues(Event::Done, k);
            &&& asked.1 == (Action::<Seq<u8>>::Read { pid, addr: regs.r10, len: 16 })
            &&& told.1 == (Action::Write {
                pid,
                addr: scratch(regs.rsp),
                bytes: time_bytes(difference(time_at(timeout, 0), now)),
            })
            &&& wrote.1 == (Action::<Seq<u8>>::SetRegs { pid, regs: timed(regs) })
            &&& timed(regs).r10 == scratch(regs.rsp)
            &&& wrote.0.reserved.contains_pair(pid, regs.rsp)
        }),
{
}

}
