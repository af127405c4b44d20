//! What becomes of each call of a traced process at its exit.

use vstd::prelude::*;
use crate::abi::{Regs, CS_64, SYS_GETRANDOM};
use crate::kernel::Kernel;
use crate::protocol::{Action, Event};
use crate::statx::statx_of;
use crate::termios::speed_fields;
use crate::tracer::{Next, Task, TracerView};
use crate::translation_laws::{is_before, runs_on, stopped_goes_on};

verus! {

/// What `rax` holds for error `errno`.
pub open spec fn error(errno: int) -> u64 {
    (0x1_0000_0000_0000_0000 - errno) as u64
}

/// Nothing more is known of the call that the process made.
pub open spec fn without_call(t: TracerView, pid: i32) -> TracerView {
    TracerView { last_syscall: t.last_syscall.remove(pid), ..t }
}

/// The call returns with the registers `made`, which are written.
pub open spec fn is_answered(n: Next, t: TracerView, pid: i32, made: Regs, k: Kernel) -> bool {
    &&& n.1 == (Action::<Seq<u8>>::SetRegs { pid, regs: made })
    &&& n.0 == (TracerView { task: n.0.task, ..without_call(t, pid) })
    &&& forall|event: Event<Seq<u8>>|
        runs_on(#[trigger] n.0.continues(event, k), without_call(t, pid), pid)
}

/// The kernel gave back the number of a call, in place of an answer, because it does not have
/// the call: a kernel before 2.6.19 does so for a number behind its table, which ends with
/// 278 before 2.6.18 and with 279 after. It is the number of the call that was made.
pub open spec fn is_echo(t: TracerView, pid: i32, regs: Regs, k: Kernel) -> bool {
    &&& is_before(k, 2, 6, 19)
    &&& t.last_syscall.contains_key(pid)
    &&& t.last_syscall[pid] == regs.rax
    &&& regs.orig_rax == regs.rax
    &&& regs.rax >= 280 || regs.rax == 279 && is_before(k, 2, 6, 18)
}

/// The call returns with what is in `regs`, but for a stack pointer that is put back and
/// for a number that was echoed, which becomes the error `ENOSYS`. The registers are written
/// if they are not those that the process has.
pub open spec fn comes_back(
    n: Next,
    t: TracerView,
    pid: i32,
    regs: Regs,
    changed: bool,
    k: Kernel,
) -> bool {
    let kept = TracerView { reserved: t.reserved.remove(pid), ..t };
    let moved = t.reserved.contains_key(pid);
    let made = Regs {
        rsp: if moved { t.reserved[pid] } else { regs.rsp },
        rax: if is_echo(t, pid, regs, k) { error(38) } else { regs.rax },
        ..regs
    };
    if moved || changed || is_echo(t, pid, regs, k) {
        is_answered(n, if moved { kept } else { t }, pid, made, k)
    } else {
        runs_on(n, without_call(t, pid), pid)
    }
}

/// What is done about a call at its exit, once its registers are known.
pub open spec fn at_exit(t: TracerView, pid: i32, regs: Regs, k: Kernel) -> Next {
    TracerView { task: Task::Exit { pid }, ..t }.continues(Event::Regs(regs), k)
}

/// The call is a `getrandom` that the kernel lacks.
pub open spec fn is_random(t: TracerView, pid: i32, k: Kernel) -> bool {
    &&& k.getrandom_missing
    &&& t.last_syscall.contains_key(pid)
    &&& t.last_syscall[pid] == SYS_GETRANDOM
}

/// A process that leaves a system call stop runs on, whatever was waited for.
proof fn leaving_runs_on(t: TracerView, task: Task, pid: i32)
    ensures
        runs_on(TracerView { task, ..t }.leaves(pid), t, pid),
{
    stopped_goes_on(t, task, pid, false, false);
}

/// Registers that are written at the end of a call are its answer.
proof fn settling_answers(t: TracerView, task: Task, pid: i32, made: Regs, k: Kernel)
    ensures
        is_answered(TracerView { task, ..t }.settles(pid, made, true), t, pid, made, k),
{
    let n = TracerView { task, ..t }.settles(pid, made, true);
    assert forall|event: Event<Seq<u8>>|
        runs_on(#[trigger] n.0.continues(event, k), without_call(t, pid), pid) by {
        leaving_runs_on(without_call(t, pid), n.0.task, pid);
    }
}

/// The end of a call that is no `getrandom` returns.
proof fn ending_returns(
    t: TracerView,
    task: Task,
    pid: i32,
    regs: Regs,
    changed: bool,
    k: Kernel,
)
    requires
        !is_random(t, pid, k),
    ensures
        comes_back(
            TracerView { task, ..t }.exits_stack(pid, regs, changed, k),
            t,
            pid,
            regs,
            changed,
            k,
        ),
{
    let kept = TracerView { reserved: t.reserved.remove(pid), ..t };
    let moved = t.reserved.contains_key(pid);
    let made = Regs {
        rsp: if moved { t.reserved[pid] } else { regs.rsp },
        rax: if is_echo(t, pid, regs, k) { error(38) } else { regs.rax },
        ..regs
    };
    settling_answers(kept, task, pid, made, k);
    settling_answers(t, task, pid, made, k);
    leaving_runs_on(without_call(t, pid), task, pid);
}

/// A call that nothing is left to do for returns what the kernel answered. Where its
/// registers cannot be read nothing is done for it any more, and nothing ever is for a
/// 32-bit process.
pub proof fn other_calls_return(t: TracerView, pid: i32, regs: Regs, k: Kernel)
    ensures
        regs.cs == CS_64 && !t.termios2_get.contains_key(pid) && !t.statx.contains_key(pid)
            && !is_random(t, pid, k) ==> comes_back(at_exit(t, pid, regs, k), t, pid, regs, false, k),
        regs.cs != CS_64 ==> runs_on(at_exit(t, pid, regs, k), t, pid),
        runs_on(
            TracerView { task: Task::Exit { pid }, ..t }.continues(Event::Failed, k),
            TracerView {
                termios2_get: t.termios2_get.remove(pid),
                statx: t.statx.remove(pid),
                ..t
            },
            pid,
        ),
{
    let task = Task::Exit { pid };
    if !is_random(t, pid, k) {
        ending_returns(t, task, pid, regs, false, k);
    }
    leaving_runs_on(t, task, pid);
    leaving_runs_on(
        TracerView {
            termios2_get: t.termios2_get.remove(pid),
            statx: t.statx.remove(pid),
            ..t
        },
        task,
        pid,
    );
}

/// A `statx` that succeeded has what the kernel found put into the caller's buffer, in the
/// form that `statx` has, and returns. Where that fails, it returns `EFAULT`. One that the
/// kernel refused returns as it is.
pub proof fn statx_is_completed(t: TracerView, pid: i32, regs: Regs, found: Seq<u8>, k: Kernel)
    requires
        regs.cs == CS_64,
        t.statx.contains_key(pid),
        !t.termios2_get.contains_key(pid),
        !is_random(t, pid, k),
        found.len() == 144,
    ensures
        ({
            let kept = TracerView { statx: t.statx.remove(pid), ..t };
            let n0 = at_exit(t, pid, regs, k);
            let n1 = n0.0.continues(Event::Bytes(found), k);
            let faulty = Regs { rax: error(14), ..regs };
            if regs.rax != 0 {
                comes_back(n0, kept, pid, regs, false, k)
            } else {
                &&& n0.1 == (Action::<Seq<u8>>::Read {
                    pid,
                    addr: t.statx[pid].scratch,
                    len: 144,
                })
                &&& n1.1 == (Action::<Seq<u8>>::Write {
                    pid,
                    addr: t.statx[pid].statxbuf,
                    bytes: statx_of(found),
                })
                &&& comes_back(n1.0.continues(Event::Done, k), kept, pid, regs, false, k)
                &&& comes_back(n0.0.continues(Event::Failed, k), kept, pid, faulty, true, k)
                &&& comes_back(n1.0.continues(Event::Failed, k), kept, pid, faulty, true, k)
            }
        }),
{
    let kept = TracerView { statx: t.statx.remove(pid), ..t };
    let faulty = Regs { rax: error(14), ..regs };
    let n0 = at_exit(t, pid, regs, k);
    let n1 = n0.0.continues(Event::Bytes(found), k);
    ending_returns(kept, Task::Exit { pid }, pid, regs, false, k);
    if regs.rax == 0 {
        ending_returns(kept, n0.0.task, pid, faulty, true, k);
        ending_returns(kept, n1.0.task, pid, faulty, true, k);
        ending_returns(kept, n1.0.task, pid, regs, false, k);
    }
}

/// A termios2 request that read the settings has the speed that they name put behind them
/// twice, for the two directions, and returns. Settings that cannot be read name none.
/// Where the speeds cannot be written, it returns `EFAULT`. One that the kernel refused
/// returns as it is.
pub proof fn termios2_is_completed(
    t: TracerView,
    pid: i32,
    regs: Regs,
    settings: Seq<u8>,
    k: Kernel,
)
    requires
        regs.cs == CS_64,
        t.termios2_get.contains_key(pid),
        !t.statx.contains_key(pid),
        !is_random(t, pid, k),
        settings.len() == 36,
    ensures
        ({
            let kept = TracerView { termios2_get: t.termios2_get.remove(pid), ..t };
            let address = t.termios2_get[pid];
            let behind = if address + 36 < 0x1_0000_0000_0000_0000 {
                (address + 36) as u64
            } else {
                (address + 36 - 0x1_0000_0000_0000_0000) as u64
            };
            let faulty = Regs { rax: error(14), ..regs };
            let n0 = at_exit(t, pid, regs, k);
            let n1 = n0.0.continues(Event::Bytes(settings), k);
            let m1 = n0.0.continues(Event::Failed, k);
            if regs.rax != 0 {
                comes_back(n0, kept, pid, regs, false, k)
            } else {
                &&& n0.1 == (Action::<Seq<u8>>::Read { pid, addr: address, len: 36 })
                &&& n1.1 == (Action::<Seq<u8>>::Write {
                    pid,
                    addr: behind,
                    bytes: speed_fields(Some(settings)),
                })
                &&& m1.1 == (Action::<Seq<u8>>::Write {
                    pid,
                    addr: behind,
                    bytes: speed_fields(None),
                })
                &&& comes_back(n1.0.continues(Event::Done, k), kept, pid, regs, false, k)
                &&& comes_back(n1.0.continues(Event::Failed, k), kept, pid, faulty, true, k)
                &&& comes_back(m1.0.continues(Event::Done, k), kept, pid, regs, false, k)
                &&& comes_back(m1.0.continues(Event::Failed, k), kept, pid, faulty, true, k)
            }
        }),
{
    let kept = TracerView { termios2_get: t.termios2_get.remove(pid), ..t };
    let faulty = Regs { rax: error(14), ..regs };
    let n0 = at_exit(t, pid, regs, k);
    let n1 = n0.0.continues(Event::Bytes(settings), k);
    ending_returns(kept, Task::Exit { pid }, pid, regs, false, k);
    if regs.rax == 0 {
        ending_returns(kept, n1.0.task, pid, faulty, true, k);
        ending_returns(kept, n1.0.task, pid, regs, false, k);
    }
}

/// How many random bytes are fetched at a time, where `left` are wanted.
pub open spec fn at_a_time(left: int) -> int {
    if left < 65536 { left } else { 65536 }
}

/// The random bytes from `done` on are fetched, and put where they belong. Once all are
/// there, the call returns how many they are. Where any of this fails, it is `lost`.
pub open spec fn fetches(
    n: Next,
    t: TracerView,
    pid: i32,
    regs: Regs,
    changed: bool,
    done: int,
    bytes: Seq<u8>,
    k: Kernel,
) -> bool {
    let len = at_a_time(regs.rsi - done);
    let after = done + len;
    let place = if regs.rdi + done < 0x1_0000_0000_0000_0000 {
        (regs.rdi + done) as u64
    } else {
        (regs.rdi + done - 0x1_0000_0000_0000_0000) as u64
    };
    let m = n.0.continues(Event::Bytes(bytes), k);
    let next = m.0.continues(Event::Done, k);
    &&& n.1 == (Action::<Seq<u8>>::ReadRandom { len: len as usize })
    &&& is_lost(n.0.continues(Event::Failed, k), t, pid, regs, changed, k)
    &&& bytes.len() == len ==> {
        &&& m.1 == (Action::<Seq<u8>>::Write { pid, addr: place, bytes })
        &&& is_lost(m.0.continues(Event::Failed, k), t, pid, regs, changed, k)
        &&& after == regs.rsi ==> is_answered(next, t, pid, Regs { rax: regs.rsi, ..regs }, k)
        &&& after < regs.rsi ==> next.1 == (Action::<Seq<u8>>::ReadRandom {
            len: at_a_time(regs.rsi - after) as usize,
        }) && next.0 == (TracerView { task: random_from(pid, regs, changed, after), ..t })
    }
}

/// Random bytes from `done` on are waited for.
pub open spec fn random_from(pid: i32, regs: Regs, dirty: bool, done: int) -> Task {
    Task::RandomRead { pid, regs, dirty, done: done as u64 }
}

/// The random bytes could not be had. A kernel that gave back the number of the call is
/// taken to have none; otherwise the call returns what the kernel answered. The registers
/// are written if they are not those that the process has.
pub open spec fn is_lost(
    n: Next,
    t: TracerView,
    pid: i32,
    regs: Regs,
    changed: bool,
    k: Kernel,
) -> bool {
    if regs.rax == SYS_GETRANDOM {
        is_answered(n, t, pid, Regs { rax: error(38), ..regs }, k)
    } else if changed {
        is_answered(n, t, pid, regs, k)
    } else {
        runs_on(n, without_call(t, pid), pid)
    }
}

/// Random bytes that could not be had are lost.
proof fn losing_is_lost(t: TracerView, task: Task, pid: i32, regs: Regs, dirty: bool, k: Kernel)
    requires
        is_random(t, pid, k),
    ensures
        is_lost(
            TracerView { task, ..t }.random_lost(pid, regs, dirty, k),
            t,
            pid,
            regs,
            dirty,
            k,
        ),
{
    settling_answers(t, task, pid, Regs { rax: error(38), ..regs }, k);
    settling_answers(t, task, pid, regs, k);
    leaving_runs_on(without_call(t, pid), task, pid);
}

/// One round of fetching random bytes.
pub proof fn random_bytes_are_fetched(
    t: TracerView,
    pid: i32,
    regs: Regs,
    dirty: bool,
    done: u64,
    bytes: Seq<u8>,
    k: Kernel,
)
    requires
        is_random(t, pid, k),
        done < regs.rsi,
    ensures
        fetches(
            (
                TracerView { task: random_from(pid, regs, dirty, done as int), ..t },
                Action::ReadRandom { len: at_a_time(regs.rsi - done) as usize },
            ),
            t,
            pid,
            regs,
            dirty,
            done as int,
            bytes,
            k,
        ),
{
    let task = random_from(pid, regs, dirty, done as int);
    let before = TracerView { task, ..t };
    losing_is_lost(t, task, pid, regs, dirty, k);
    let m = before.continues(Event::Bytes(bytes), k);
    if bytes.len() == at_a_time(regs.rsi - done) {
        losing_is_lost(t, m.0.task, pid, regs, dirty, k);
        settling_answers(t, m.0.task, pid, Regs { rax: regs.rsi, ..regs }, k);
        let after = done + at_a_time(regs.rsi - done);
        let next = m.0.continues(Event::Done, k);
        if after < regs.rsi {
            assert(next.0 == TracerView { task: random_from(pid, regs, dirty, after), ..t });
        }
    }
}

/// A `getrandom` that the kernel lacks is answered with random bytes, with the stack pointer
/// put back where it was moved: with none at once where none are wanted, and otherwise from
/// the first one on. Without a buffer, or without a source, they are lost.
pub proof fn random_bytes_are_delivered(
    t: TracerView,
    pid: i32,
    regs: Regs,
    bytes: Seq<u8>,
    k: Kernel,
)
    requires
        regs.cs == CS_64,
        !t.statx.contains_key(pid) && !t.termios2_get.contains_key(pid),
        is_random(t, pid, k),
    ensures
        ({
            let moved = t.reserved.contains_key(pid);
            let kept = if moved {
                TracerView { reserved: t.reserved.remove(pid), ..t }
            } else {
                t
            };
            let back = Regs { rsp: if moved { t.reserved[pid] } else { regs.rsp }, ..regs };
            let n = at_exit(t, pid, regs, k);
            if regs.rsi == 0 {
                is_answered(n, kept, pid, Regs { rax: 0, ..back }, k)
            } else if regs.rdi == 0 {
                is_lost(n, kept, pid, back, moved, k)
            } else {
                &&& n.1 == Action::<Seq<u8>>::OpenRandom
                &&& fetches(n.0.continues(Event::Done, k), kept, pid, back, moved, 0, bytes, k)
                &&& is_lost(n.0.continues(Event::Failed, k), kept, pid, back, moved, k)
            }
        }),
{
    let moved = t.reserved.contains_key(pid);
    let kept = if moved { TracerView { reserved: t.reserved.remove(pid), ..t } } else { t };
    let back = Regs { rsp: if moved { t.reserved[pid] } else { regs.rsp }, ..regs };
    let n = at_exit(t, pid, regs, k);
    settling_answers(kept, Task::Exit { pid }, pid, Regs { rax: 0, ..back }, k);
    losing_is_lost(kept, Task::Exit { pid }, pid, back, moved, k);
    if regs.rsi != 0 && regs.rdi != 0 {
        losing_is_lost(kept, n.0.task, pid, back, moved, k);
        random_bytes_are_fetched(kept, pid, back, moved, 0, bytes, k);
        let first = n.0.continues(Event::Done, k);
        assert(first.0 == TracerView { task: random_from(pid, back, moved, 0), ..kept });
    }
}

}
