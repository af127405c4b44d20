//! What becomes of each call of a traced process at its entry, in terms of the registers
//! that it is made with and the kernel that it is made to.

use vstd::prelude::*;
use crate::abi::{
    scratch, Regs, CS_64, SYS_CLOCK_GETRES, SYS_CLOCK_GETTIME, SYS_CLOCK_NANOSLEEP,
    SYS_EPOLL_CREATE, SYS_EPOLL_CREATE1, SYS_FSTAT, SYS_FUTEX, SYS_GETRANDOM, SYS_GETRLIMIT,
    SYS_IOCTL, SYS_NEWFSTATAT, SYS_PIPE, SYS_PIPE2, SYS_POLL, SYS_PPOLL, SYS_PRLIMIT64,
    SYS_SETRLIMIT, SYS_STATX,
};
use crate::kernel::Kernel;
use crate::protocol::{Action, Event};
use crate::termios::{
    TCGETS, TCGETS2, TCSETS, TCSETS2, TCSETSF, TCSETSF2, TCSETSW, TCSETSW2,
};
use crate::time::{difference, millis, time_at, time_bytes, Time};
use crate::tracer::{Next, StatxState, Task, TracerView};

verus! {

/// The kernel says that it is older than version `a.b.c`.
pub open spec fn is_before(k: Kernel, a: u64, b: u64, c: u64) -> bool {
    k.version matches Some(v) && {
        ||| v.0 < a
        ||| v.0 == a && v.1 < b
        ||| v.0 == a && v.1 == b && v.2 < c
    }
}

/// The signals that wait for the process, oldest first.
pub open spec fn waiting(t: TracerView, pid: i32) -> Seq<i32> {
    if t.stashed_signal.contains_key(pid) { t.stashed_signal[pid] } else { Seq::empty() }
}

/// The process runs on from a system call stop, `t` being all that is known then. It is
/// given the oldest of the signals that wait for it, unless it is in an emulation.
pub open spec fn runs_on(n: Next, t: TracerView, pid: i32) -> bool {
    let given = !t.emulated.active.contains_key(pid) && waiting(t, pid).len() > 0;
    &&& n.1 == (Action::<Seq<u8>>::Resume {
        pid,
        syscall: t.syscall_mode,
        signal: if given { Some(waiting(t, pid)[0]) } else { None },
    })
    &&& n.0 == (TracerView { task: Task::Resumed, stashed_signal: n.0.stashed_signal, ..t })
    &&& !given ==> n.0.stashed_signal == t.stashed_signal
    &&& given ==> waiting(n.0, pid) == waiting(t, pid).skip(1)
    &&& forall|p: i32| p != pid ==> #[trigger] waiting(n.0, p) == waiting(t, p)
}

/// The process goes on into its call. Behind a stop of the filter, where the call's exit
/// is `owed`, its next two stops are those of the call, and the first of them is its entry.
pub open spec fn goes_on(n: Next, t: TracerView, pid: i32, filtered: bool, owed: bool) -> bool {
    if !filtered {
        runs_on(n, t, pid)
    } else {
        let expect_entry = if owed { t.expect_entry.insert(pid) } else { t.expect_entry };
        &&& n.1 == (Action::<Seq<u8>>::Resume {
            pid,
            syscall: owed || t.syscall_mode,
            signal: None,
        })
        &&& n.0 == (TracerView { task: Task::Resumed, expect_entry, ..t })
    }
}

/// What is done about a call, once its registers are known, at its entry or at a stop
/// of the filter.
pub open spec fn at_stop(t: TracerView, pid: i32, regs: Regs, filtered: bool, k: Kernel) -> Next {
    let task = if filtered { Task::Filtered { pid } } else { Task::Entry { pid } };
    TracerView { task, ..t }.continues(Event::Regs(regs), k)
}

/// What is known of the call from then on. Where every call is traced, it is noted which
/// one was made.
pub open spec fn with_call(t: TracerView, pid: i32, nr: u64, filtered: bool) -> TracerView {
    if filtered {
        t
    } else {
        TracerView { last_syscall: t.last_syscall.insert(pid, nr), ..t }
    }
}

/// The call is made as it is.
pub open spec fn is_left_alone(
    t: TracerView,
    pid: i32,
    regs: Regs,
    filtered: bool,
    k: Kernel,
) -> bool {
    goes_on(
        at_stop(t, pid, regs, filtered, k),
        with_call(t, pid, regs.orig_rax, filtered),
        pid,
        filtered,
        false,
    )
}

/// The call is made with the registers `made`, and with nothing else done about it.
pub open spec fn is_made_as(
    n: Next,
    t: TracerView,
    pid: i32,
    made: Regs,
    filtered: bool,
    owed: bool,
    k: Kernel,
) -> bool {
    &&& n.1 == (Action::<Seq<u8>>::SetRegs { pid, regs: made })
    &&& n.0 == (TracerView { task: n.0.task, ..t })
    &&& forall|event: Event<Seq<u8>>|
        goes_on(#[trigger] n.0.continues(event, k), t, pid, filtered, owed)
}

/// The call becomes the one with the registers `made`.
pub open spec fn becomes(
    t: TracerView,
    pid: i32,
    regs: Regs,
    made: Regs,
    filtered: bool,
    k: Kernel,
) -> bool {
    is_made_as(
        at_stop(t, pid, regs, filtered, k),
        with_call(t, pid, regs.orig_rax, filtered),
        pid,
        made,
        filtered,
        false,
        k,
    )
}

/// The call is one that is looked at because of what the kernel lacks.
pub open spec fn is_of_interest(regs: Regs, k: Kernel) -> bool {
    let nr = regs.orig_rax;
    ||| nr == SYS_FUTEX && is_before(k, 2, 6, 29)
    ||| nr == SYS_PIPE2 && k.pipe2_missing
    ||| nr == SYS_EPOLL_CREATE1 && k.epoll_create1_missing
    ||| nr == SYS_STATX && k.statx_missing
    ||| nr == SYS_PRLIMIT64 && k.prlimit64_missing
    ||| nr == SYS_IOCTL && is_before(k, 2, 6, 20)
    ||| nr == SYS_CLOCK_GETTIME || nr == SYS_CLOCK_GETRES || nr == SYS_CLOCK_NANOSLEEP
    ||| nr == SYS_PPOLL && k.ppoll_missing
}

/// Signals without the oldest one.
proof fn shorter_is_skipped(s: Seq<i32>)
    ensures
        s.len() == 1 ==> s.skip(1) == Seq::<i32>::empty(),
        s.len() > 0 ==> s.skip(1) == s.drop_first(),
{
    assert(s.len() == 1 ==> s.skip(1) =~= Seq::<i32>::empty());
    assert(s.len() > 0 ==> s.skip(1) =~= s.drop_first());
}

/// A process that leaves a system call stop runs on.
proof fn leaving_runs_on(t: TracerView, pid: i32)
    ensures
        runs_on(t.leaves(pid), t, pid),
{
    shorter_is_skipped(waiting(t, pid));
}

/// A call that was dealt with goes on.
proof fn translated_goes_on(t: TracerView, pid: i32, filtered: bool, owed: bool)
    ensures
        goes_on(t.translated(pid, filtered, owed), t, pid, filtered, owed),
{
    leaving_runs_on(t, pid);
}

/// How a process goes on does not depend on what the tracer waited for.
proof fn task_does_not_matter(
    n: Next,
    t: TracerView,
    task: Task,
    pid: i32,
    filtered: bool,
    owed: bool,
)
    ensures
        goes_on(n, TracerView { task, ..t }, pid, filtered, owed) == goes_on(
            n,
            t,
            pid,
            filtered,
            owed,
        ),
        runs_on(n, TracerView { task, ..t }, pid) == runs_on(n, t, pid),
{
    let other = TracerView { task, ..t };
    assert(forall|p: i32| #[trigger] waiting(other, p) == waiting(t, p));
    assert(forall|p: i32| #[trigger] waiting(n.0, p) == waiting(other, p) <==> waiting(n.0, p)
        == waiting(t, p));
}

/// Registers that translate a call make the call that they tell of.
proof fn rewriting_makes(
    t: TracerView,
    pid: i32,
    made: Regs,
    filtered: bool,
    owed: bool,
    k: Kernel,
)
    ensures
        is_made_as(t.rewrites(pid, made, filtered, owed), t, pid, made, filtered, owed, k),
{
    let n = t.rewrites(pid, made, filtered, owed);
    assert forall|event: Event<Seq<u8>>|
        goes_on(#[trigger] n.0.continues(event, k), t, pid, filtered, owed) by {
        translated_goes_on(n.0, pid, filtered, owed);
        task_does_not_matter(n.0.continues(event, k), t, n.0.task, pid, filtered, owed);
    }
}

/// A call that the kernel has, or that nothing is known to do about, is made as it is. So
/// is every call of a 32-bit process. Where the registers cannot be read, it is not even
/// known which call it is.
pub proof fn other_calls_are_left_alone(t: TracerView, pid: i32, regs: Regs, k: Kernel)
    ensures
        regs.cs != CS_64 || !is_of_interest(regs, k) ==> is_left_alone(t, pid, regs, false, k),
        runs_on(
            TracerView { task: Task::Entry { pid }, ..t }.continues(Event::Failed, k),
            t,
            pid,
        ),
{
    let noted = with_call(t, pid, regs.orig_rax, false);
    let task = Task::Entry { pid };
    leaving_runs_on(TracerView { task, ..noted }, pid);
    leaving_runs_on(TracerView { task, ..t }, pid);
    task_does_not_matter(TracerView { task, ..noted }.leaves(pid), noted, task, pid, false, false);
    task_does_not_matter(TracerView { task, ..t }.leaves(pid), t, task, pid, false, false);
}

/// Where the kernel lacks `pipe2`, it is made as `pipe`, on the same array.
pub proof fn pipe2_becomes_pipe(t: TracerView, pid: i32, regs: Regs, filtered: bool, k: Kernel)
    requires
        filtered || regs.cs == CS_64,
        regs.orig_rax == SYS_PIPE2 && k.pipe2_missing,
    ensures
        becomes(t, pid, regs, Regs { orig_rax: SYS_PIPE, rax: SYS_PIPE, ..regs }, filtered, k),
{
    let made = Regs { orig_rax: SYS_PIPE, rax: SYS_PIPE, ..regs };
    rewriting_makes(with_call(t, pid, regs.orig_rax, filtered), pid, made, filtered, false, k);
}

/// Where the kernel lacks `epoll_create1`, it is made as `epoll_create`, whose size
/// must be positive, whatever the flags were.
pub proof fn epoll_create1_becomes_epoll_create(t: TracerView, pid: i32, regs: Regs, k: Kernel)
    requires
        regs.cs == CS_64 && regs.orig_rax == SYS_EPOLL_CREATE1 && k.epoll_create1_missing,
    ensures
        becomes(
            t,
            pid,
            regs,
            Regs { orig_rax: SYS_EPOLL_CREATE, rax: SYS_EPOLL_CREATE, rdi: 1, ..regs },
            false,
            k,
        ),
{
    let made = Regs { orig_rax: SYS_EPOLL_CREATE, rax: SYS_EPOLL_CREATE, rdi: 1, ..regs };
    rewriting_makes(with_call(t, pid, regs.orig_rax, false), pid, made, false, false, k);
}

/// Where the kernel lacks `prlimit64`, one on the caller itself that passes a new limit
/// sets that limit of the resource, whether or not the old one is asked for; one that
/// passes none gets the limit into the place for the old one. One on another process is
/// left to fail.
pub proof fn prlimit64_sets_or_gets(t: TracerView, pid: i32, regs: Regs, k: Kernel)
    requires
        regs.cs == CS_64 && regs.orig_rax == SYS_PRLIMIT64 && k.prlimit64_missing,
    ensures
        regs.rdi == 0 && regs.rdx != 0 ==> becomes(
            t,
            pid,
            regs,
            Regs {
                orig_rax: SYS_SETRLIMIT,
                rax: SYS_SETRLIMIT,
                rdi: regs.rsi,
                rsi: regs.rdx,
                ..regs
            },
            false,
            k,
        ),
        regs.rdi == 0 && regs.rdx == 0 ==> becomes(
            t,
            pid,
            regs,
            Regs {
                orig_rax: SYS_GETRLIMIT,
                rax: SYS_GETRLIMIT,
                rdi: regs.rsi,
                rsi: regs.r10,
                ..regs
            },
            false,
            k,
        ),
        regs.rdi != 0 ==> is_left_alone(t, pid, regs, false, k),
{
    let noted = with_call(t, pid, regs.orig_rax, false);
    let (nr, limit) = if regs.rdx != 0 {
        (SYS_SETRLIMIT, regs.rdx)
    } else {
        (SYS_GETRLIMIT, regs.r10)
    };
    let made = Regs { orig_rax: nr, rax: nr, rdi: regs.rsi, rsi: limit, ..regs };
    rewriting_makes(noted, pid, made, false, false, k);
    leaving_at_entry(noted, pid);
}

/// A process that leaves the entry of its call runs on.
proof fn leaving_at_entry(t: TracerView, pid: i32)
    ensures
        runs_on(TracerView { task: Task::Entry { pid }, ..t }.leaves(pid), t, pid),
{
    let task = Task::Entry { pid };
    leaving_runs_on(TracerView { task, ..t }, pid);
    task_does_not_matter(TracerView { task, ..t }.leaves(pid), t, task, pid, false, false);
}

/// The clock that the kernel is asked for in place of `id`.
pub open spec fn clock_instead_of(id: u64, k: Kernel) -> u64 {
    if id < 8 { k.clocks[id as int] } else { id }
}

/// A call that names a clock which the kernel lacks is made with the one that stands
/// for it, and with nothing else changed.
pub proof fn missing_clocks_are_replaced(t: TracerView, pid: i32, regs: Regs, k: Kernel)
    requires
        regs.cs == CS_64,
        regs.orig_rax == SYS_CLOCK_GETTIME || regs.orig_rax == SYS_CLOCK_GETRES || regs.orig_rax
            == SYS_CLOCK_NANOSLEEP,
    ensures
        clock_instead_of(regs.rdi, k) == regs.rdi ==> is_left_alone(t, pid, regs, false, k),
        clock_instead_of(regs.rdi, k) != regs.rdi ==> becomes(
            t,
            pid,
            regs,
            Regs { rdi: clock_instead_of(regs.rdi, k), ..regs },
            false,
            k,
        ),
{
    let noted = with_call(t, pid, regs.orig_rax, false);
    let made = Regs { rdi: clock_instead_of(regs.rdi, k), ..regs };
    rewriting_makes(noted, pid, made, false, false, k);
    leaving_at_entry(noted, pid);
}

/// `ms` milliseconds are what `poll` waits for the timeout `t` of `ppoll`: as many as
/// go by in full, as far as they fit, and none at all where they are less than none.
pub open spec fn is_poll_timeout(t: Time, ms: i32) -> bool {
    let nanos = t.0 * 1_000_000_000 + t.1;
    let whole = t.0 * 1000 - (-t.1) / 1_000_000;
    if t.1 >= 0 {
        &&& nanos < 0 ==> ms == -1
        &&& 0 <= nanos < 0x8000_0000 * 1_000_000 ==> ms >= 0 && ms * 1_000_000 <= nanos < (ms + 1)
            * 1_000_000
        &&& nanos >= 0x8000_0000 * 1_000_000 ==> ms == 0x7fff_ffff
    } else {
        &&& whole <= -1 ==> ms == -1
        &&& -1 <= whole <= 0x7fff_ffff ==> ms == whole
        &&& whole > 0x7fff_ffff ==> ms == 0x7fff_ffff
    }
}

/// What `poll` is told to wait is that.
proof fn millis_are_poll_timeouts(t: Time)
    ensures
        is_poll_timeout(t, millis(t)),
{
}

/// Where the kernel lacks `ppoll`, it is made as `poll` on the same descriptors, with the
/// timeout in milliseconds. Without a timeout, or where it cannot be read, it waits for
/// good.
pub proof fn ppoll_becomes_poll(t: TracerView, pid: i32, regs: Regs, timeout: Seq<u8>, k: Kernel)
    requires
        regs.cs == CS_64 && regs.orig_rax == SYS_PPOLL && k.ppoll_missing,
        timeout.len() == 16,
    ensures
        ({
            let forever = Regs { orig_rax: SYS_POLL, rax: SYS_POLL, rdx: u64::MAX, ..regs };
            let noted = with_call(t, pid, regs.orig_rax, false);
            let n = at_stop(t, pid, regs, false, k);
            if regs.rdx == 0 {
                becomes(t, pid, regs, forever, false, k)
            } else {
                &&& n.1 == (Action::<Seq<u8>>::Read { pid, addr: regs.rdx, len: 16 })
                &&& is_made_as(
                    n.0.continues(Event::Failed, k),
                    noted,
                    pid,
                    forever,
                    false,
                    false,
                    k,
                )
                &&& exists|ms: i32|
                    #[trigger] is_poll_timeout(time_at(timeout, 0), ms) && is_made_as(
                        n.0.continues(Event::Bytes(timeout), k),
                        noted,
                        pid,
                        Regs {
                            orig_rax: SYS_POLL,
                            rax: SYS_POLL,
                            rdx: if ms < 0 { u64::MAX } else { ms as u64 },
                            ..regs
                        },
                        false,
                        false,
                        k,
                    )
            }
        }),
{
    let noted = with_call(t, pid, regs.orig_rax, false);
    let ms = millis(time_at(timeout, 0));
    assert(-1i32 as i64 as u64 == u64::MAX) by (bit_vector);
    assert(ms >= 0 ==> ms as i64 as u64 == ms);
    let rdx = ms as i64 as u64;
    assert(rdx == if ms < 0 { u64::MAX } else { ms as u64 });
    millis_are_poll_timeouts(time_at(timeout, 0));
    let forever = Regs { orig_rax: SYS_POLL, rax: SYS_POLL, rdx: u64::MAX, ..regs };
    rewriting_makes(noted, pid, forever, false, false, k);
    rewriting_makes(
        noted,
        pid,
        Regs { orig_rax: SYS_POLL, rax: SYS_POLL, rdx, ..regs },
        false,
        false,
        k,
    );
}

/// Bit `2^12` of the flags of `statx`, and bit `2^8`.
proof fn flags_are_bits(flags: u64)
    ensures
        flags & 0x1000 != 0 <==> (flags / 0x1000) % 2 == 1,
        flags & 0x100 == if (flags / 0x100) % 2 == 1 { 0x100u64 } else { 0 },
{
    assert(flags & 0x1000 != 0 <==> (flags / 0x1000) % 2 == 1) by (bit_vector);
    assert(flags & 0x100 == if (flags / 0x100) % 2 == 1 { 0x100u64 } else { 0 }) by (bit_vector);
}

/// Where the kernel lacks `statx`, it is made as a call that it has, with its result in
/// scratch space. With `AT_EMPTY_PATH` it is `fstat` on the same descriptor. Otherwise it is
/// `newfstatat` on the same descriptor and path, with `AT_SYMLINK_NOFOLLOW` as the caller
/// has it, and with no other flag. Its exit is owed, where the stack pointer and the
/// caller's buffer are called to mind. Without a buffer it is left to fail.
pub proof fn statx_becomes_stat(t: TracerView, pid: i32, regs: Regs, filtered: bool, k: Kernel)
    requires
        filtered || regs.cs == CS_64,
        regs.orig_rax == SYS_STATX && k.statx_missing,
    ensures
        ({
            let n = at_stop(t, pid, regs, filtered, k);
            let known = with_call(t, pid, regs.orig_rax, filtered);
            let space = scratch(regs.rsp);
            let made = if (regs.rdx / 0x1000) % 2 == 1 {
                Regs {
                    orig_rax: SYS_FSTAT,
                    rax: SYS_FSTAT,
                    rsi: space,
                    rdx: 0,
                    rsp: space,
                    ..regs
                }
            } else {
                Regs {
                    orig_rax: SYS_NEWFSTATAT,
                    rax: SYS_NEWFSTATAT,
                    rdx: space,
                    r10: if (regs.rdx / 0x100) % 2 == 1 { 0x100 } else { 0 },
                    rsp: space,
                    ..regs
                }
            };
            if regs.r8 == 0 {
                goes_on(n, known, pid, filtered, true)
            } else {
                &&& n.1 == (Action::<Seq<u8>>::SetRegs { pid, regs: made })
                &&& goes_on(
                    n.0.continues(Event::Done, k),
                    TracerView {
                        reserved: t.reserved.insert(pid, regs.rsp),
                        statx: t.statx.insert(
                            pid,
                            StatxState { statxbuf: regs.r8, scratch: space },
                        ),
                        ..known
                    },
                    pid,
                    filtered,
                    true,
                )
                &&& goes_on(n.0.continues(Event::Failed, k), known, pid, filtered, true)
            }
        }),
{
    flags_are_bits(regs.rdx);
    let known = with_call(t, pid, regs.orig_rax, filtered);
    let n = at_stop(t, pid, regs, filtered, k);
    let task = if filtered { Task::Filtered { pid } } else { Task::Entry { pid } };
    let kept = TracerView {
        reserved: t.reserved.insert(pid, regs.rsp),
        statx: t.statx.insert(
            pid,
            StatxState { statxbuf: regs.r8, scratch: scratch(regs.rsp) },
        ),
        ..known
    };
    let set = Task::StatxSet { pid, regs, filtered };
    translated_goes_on(TracerView { task, ..known }, pid, filtered, true);
    task_does_not_matter(
        TracerView { task, ..known }.translated(pid, filtered, true),
        known,
        task,
        pid,
        filtered,
        true,
    );
    if regs.r8 != 0 {
        let then_done = n.0.continues(Event::Done, k);
        let then_failed = n.0.continues(Event::Failed, k);
        translated_goes_on(TracerView { task: set, ..kept }, pid, filtered, true);
        task_does_not_matter(then_done, kept, set, pid, filtered, true);
        translated_goes_on(TracerView { task: set, ..known }, pid, filtered, true);
        task_does_not_matter(then_failed, known, set, pid, filtered, true);
    }
}

/// The request of the older interface that a termios2 request becomes.
pub open spec fn older_request(request: u64, older: u64) -> bool {
    ||| request == 0x802c_542a && older == 0x5401
    ||| request == 0x402c_542b && older == 0x5402
    ||| request == 0x402c_542c && older == 0x5403
    ||| request == 0x402c_542d && older == 0x5404
}

/// Before 2.6.20 a termios2 request is made as the one it extends, on the same struct. That
/// of the one that reads is called to mind, if it was made so. Every other request is left
/// alone.
pub proof fn termios2_requests_become_older(
    t: TracerView,
    pid: i32,
    regs: Regs,
    older: u64,
    k: Kernel,
)
    requires
        regs.cs == CS_64 && regs.orig_rax == SYS_IOCTL && is_before(k, 2, 6, 20),
    ensures
        ({
            let n = at_stop(t, pid, regs, false, k);
            let known = with_call(t, pid, regs.orig_rax, false);
            &&& older_request(regs.rsi, older) ==> {
                &&& n.1 == (Action::<Seq<u8>>::SetRegs { pid, regs: Regs { rsi: older, ..regs } })
                &&& runs_on(
                    n.0.continues(Event::Done, k),
                    if older == 0x5401 {
                        TracerView {
                            termios2_get: t.termios2_get.insert(pid, regs.rdx),
                            ..known
                        }
                    } else {
                        known
                    },
                    pid,
                )
                &&& runs_on(n.0.continues(Event::Failed, k), known, pid)
            }
            &&& (forall|o: u64| !older_request(regs.rsi, o)) ==> is_left_alone(
                t,
                pid,
                regs,
                false,
                k,
            )
        }),
{
    let known = with_call(t, pid, regs.orig_rax, false);
    let n = at_stop(t, pid, regs, false, k);
    leaving_at_entry(known, pid);
    if older_request(regs.rsi, older) {
        let set = Task::TermiosSet { pid, regs, legacy: older };
        let kept = TracerView { termios2_get: t.termios2_get.insert(pid, regs.rdx), ..known };
        leaving_runs_on(TracerView { task: set, ..kept }, pid);
        leaving_runs_on(TracerView { task: set, ..known }, pid);
        let then_done = n.0.continues(Event::Done, k);
        let then_failed = n.0.continues(Event::Failed, k);
        task_does_not_matter(then_done, kept, set, pid, false, false);
        task_does_not_matter(then_done, known, set, pid, false, false);
        task_does_not_matter(then_failed, known, set, pid, false, false);
    } else {
        assert(older_request(TCGETS2, TCGETS));
        assert(older_request(TCSETS2, TCSETS));
        assert(older_request(TCSETSW2, TCSETSW));
        assert(older_request(TCSETSF2, TCSETSF));
    }
}

/// The command that an old kernel is given for the futex operation `op`: the low seven
/// bits, where the two that take a bitset are the two that do not.
pub open spec fn old_command(op: u64) -> u64 {
    let command = op % 128;
    if command == 9 {
        0
    } else if command == 10 {
        1
    } else {
        command
    }
}

/// The futex operation counts against the real-time clock: bit `2^8` is set.
pub open spec fn counts_real_time(op: u64) -> bool {
    (op / 256) % 2 == 1
}

/// The futex operation waits until a point in time: it takes a bitset, or it counts
/// against the real-time clock.
pub open spec fn waits_until(op: u64) -> bool {
    old_command(op) == 0 && (op % 128 == 9 || counts_real_time(op))
}

/// The bits of a futex operation.
proof fn operations_are_bits(rsi: u64)
    ensures
        crate::futex::bare_command(rsi as u32) == old_command(rsi % 0x1_0000_0000),
        crate::futex::is_realtime(rsi as u32) == counts_real_time(rsi % 0x1_0000_0000),
        crate::futex::is_absolute(rsi as u32) == waits_until(rsi % 0x1_0000_0000),
        rsi as u32 == rsi % 0x1_0000_0000,
{
    assert(rsi as u32 == rsi % 0x1_0000_0000) by (bit_vector);
    let op = rsi as u32;
    assert(op & 0x7f == op % 128) by (bit_vector);
    assert(op & 256 != 0 <==> (op / 256) % 2 == 1) by (bit_vector);
}

/// Before 2.6.29 a futex operation is given to the kernel without flags and without a
/// bitset, with everything else as it is. One that has neither is left alone, and so is every
/// one from 2.6.29 on.
pub proof fn futex_operations_are_bare(
    t: TracerView,
    pid: i32,
    regs: Regs,
    filtered: bool,
    k: Kernel,
)
    requires
        filtered || regs.cs == CS_64,
        regs.orig_rax == SYS_FUTEX,
        !waits_until(regs.rsi % 0x1_0000_0000) || regs.r10 == 0 || !is_before(k, 2, 6, 29),
    ensures
        ({
            let op = regs.rsi % 0x1_0000_0000;
            if is_before(k, 2, 6, 29) && old_command(op) != op {
                becomes(t, pid, regs, Regs { rsi: old_command(op), ..regs }, filtered, k)
            } else {
                is_left_alone(t, pid, regs, filtered, k)
            }
        }),
{
    operations_are_bits(regs.rsi);
    let known = with_call(t, pid, regs.orig_rax, filtered);
    let task = if filtered { Task::Filtered { pid } } else { Task::Entry { pid } };
    let made = Regs { rsi: old_command(regs.rsi % 0x1_0000_0000), ..regs };
    rewriting_makes(known, pid, made, filtered, false, k);
    stopped_goes_on(known, task, pid, filtered, false);
}

/// Before 2.6.29 a futex wait until a point in time is made as a wait for the time that is
/// left until then on the clock that it counts in, which is put into scratch space. The
/// stack pointer is called to mind for the exit, which is owed. Where any of this fails,
/// the call is made as it is.
pub proof fn futex_deadlines_become_relative(
    t: TracerView,
    pid: i32,
    regs: Regs,
    filtered: bool,
    deadline: Seq<u8>,
    now: Time,
    k: Kernel,
)
    requires
        filtered || regs.cs == CS_64,
        regs.orig_rax == SYS_FUTEX && is_before(k, 2, 6, 29),
        waits_until(regs.rsi % 0x1_0000_0000) && regs.r10 != 0,
        deadline.len() == 16,
    ensures
        ({
            let op = regs.rsi % 0x1_0000_0000;
            let space = scratch(regs.rsp);
            let known = with_call(t, pid, regs.orig_rax, filtered);
            let n0 = at_stop(t, pid, regs, filtered, k);
            let n1 = n0.0.continues(Event::Bytes(deadline), k);
            let n2 = n1.0.continues(Event::Time(now), k);
            let n3 = n2.0.continues(Event::Done, k);
            &&& n0.1 == (Action::<Seq<u8>>::Read { pid, addr: regs.r10, len: 16 })
            &&& n1.1 == (Action::<Seq<u8>>::Clock { id: if counts_real_time(op) { 0 } else { 1 } })
            &&& n2.1 == (Action::<Seq<u8>>::Write {
                pid,
                addr: space,
                bytes: time_bytes(difference(time_at(deadline, 0), now)),
            })
            &&& is_made_as(
                n3,
                TracerView { reserved: t.reserved.insert(pid, regs.rsp), ..known },
                pid,
                Regs { rsi: 0, r10: space, rsp: space, ..regs },
                filtered,
                true,
                k,
            )
            &&& goes_on(n0.0.continues(Event::Failed, k), known, pid, filtered, false)
            &&& goes_on(n1.0.continues(Event::Failed, k), known, pid, filtered, false)
            &&& goes_on(n2.0.continues(Event::Failed, k), known, pid, filtered, false)
        }),
{
    operations_are_bits(regs.rsi);
    let known = with_call(t, pid, regs.orig_rax, filtered);
    let task0 = Task::FutexTimeout { pid, regs, filtered };
    let task1 = Task::FutexClock { pid, regs, filtered, deadline: time_at(deadline, 0) };
    let task2 = Task::FutexScratch { pid, regs, filtered };
    stopped_goes_on(known, task0, pid, filtered, false);
    stopped_goes_on(known, task1, pid, filtered, false);
    stopped_goes_on(known, task2, pid, filtered, false);
    let n0 = at_stop(t, pid, regs, filtered, k);
    assert(n0.0 == TracerView { task: task0, ..known });
    let n1 = n0.0.continues(Event::Bytes(deadline), k);
    assert(n1.0 == TracerView { task: task1, ..known });
    let n2 = n1.0.continues(Event::Time(now), k);
    assert(n2.0 == TracerView { task: task2, ..known });
    let kept = TracerView { reserved: t.reserved.insert(pid, regs.rsp), ..known };
    let space = scratch(regs.rsp);
    rewriting_makes(
        kept,
        pid,
        Regs { rsi: 0, r10: space, rsp: space, ..regs },
        filtered,
        true,
        k,
    );
}

/// A call that was dealt with goes on, whatever was waited for last.
pub(crate) proof fn stopped_goes_on(t: TracerView, task: Task, pid: i32, filtered: bool, owed: bool)
    ensures
        goes_on(
            TracerView { task, ..t }.translated(pid, filtered, owed),
            t,
            pid,
            filtered,
            owed,
        ),
{
    let n = TracerView { task, ..t }.translated(pid, filtered, owed);
    translated_goes_on(TracerView { task, ..t }, pid, filtered, owed);
    task_does_not_matter(n, t, task, pid, filtered, owed);
}

/// At a stop of the filter a `getrandom` that the kernel lacks is noted, and its exit is
/// owed. Any other call that is not translated there is made as it is, also where its
/// registers cannot be read.
pub proof fn other_filtered_calls_are_left_alone(t: TracerView, pid: i32, regs: Regs, k: Kernel)
    ensures
        regs.orig_rax == SYS_GETRANDOM && k.getrandom_missing ==> goes_on(
            at_stop(t, pid, regs, true, k),
            TracerView { last_syscall: t.last_syscall.insert(pid, SYS_GETRANDOM), ..t },
            pid,
            true,
            true,
        ),
        !(regs.orig_rax == SYS_GETRANDOM && k.getrandom_missing) && !(regs.orig_rax == SYS_PIPE2
            && k.pipe2_missing) && !(regs.orig_rax == SYS_STATX && k.statx_missing)
            && regs.orig_rax != SYS_FUTEX ==> is_left_alone(t, pid, regs, true, k),
        goes_on(
            TracerView { task: Task::Filtered { pid }, ..t }.continues(Event::Failed, k),
            t,
            pid,
            true,
            false,
        ),
{
}

}
