//! What holds of the emulations as a whole.

use vstd::prelude::*;
use crate::abi::{scratch, Regs, CS_64, EAGAIN, EINTR, EIO};
use crate::decimal::digits;
use crate::emulated_syscalls::{
    alarm_setting, armed, eventfd_address, is_next_armed, next_armed, past, pid_digits, Active,
    Due, EmulationsView, Pending, Progress, Rearm,
};
use crate::kernel::Kernel;
use crate::protocol::{Action, Event};
use crate::sequence::{first_cleanup, first_error, is_error, started, steps, Plan};
use crate::time::{before, difference, sum, time_bytes, Time};

verus! {

/// Every timer has a handle on its pipe, and every handle has its timer.
pub open spec fn paired(e: EmulationsView) -> bool {
    e.timers.dom() =~= e.write_ends.dom()
}

proof fn serving_keeps_pairs(e: EmulationsView)
    requires
        paired(e),
    ensures
        paired(e.serves().0),
    decreases e.due.len(),
{
    if e.due.len() > 0 {
        let due = e.due[0];
        let rest = EmulationsView { due: e.due.drop_first(), ..e };
        if !e.write_ends.contains_key(due.fd) {
            let next = EmulationsView { timers: rest.timers.remove(due.fd), ..rest };
            assert(next.timers.dom() =~= next.write_ends.dom());
            serving_keeps_pairs(next);
        }
    }
}

/// No operation separates a timer from its handle.
pub proof fn timers_keep_their_handles(
    e: EmulationsView,
    pid: i32,
    entering: bool,
    at: Pending,
    event: Event<Seq<u8>>,
    k: Kernel,
)
    requires
        paired(e),
    ensures
        paired(e.begins(pid, entering).0),
        paired(e.stepped(pid).0),
        paired(e.ticks().0),
        paired(e.forgotten(pid)),
        paired(e.proceeds(pid, at, event, k).0),
{
    reveal(EmulationsView::proceeds);
    match at {
        Pending::Alarm => {
            let t = EmulationsView { due: Seq::empty(), ..e };
            serving_keeps_pairs(t);
        },
        Pending::TickClock { fd } => {
            serving_keeps_pairs(e.judged(fd, event.time_of()));
        },
        Pending::Serving { due } => {
            let (written, errno) = event.written_of();
            assert(paired(e.served(due, written, errno)));
            serving_keeps_pairs(e.served(due, written, errno));
        },
        _ => {},
    }
}

/// `after` holds every handle that `before` held, for the same timer, or has it
/// among those to be closed; and none of those that were to be closed is forgotten.
pub open spec fn accounts_for(before: EmulationsView, after: EmulationsView) -> bool {
    &&& before.released.is_prefix_of(after.released)
    &&& forall|fd: i64| #[trigger]
        before.write_ends.contains_key(fd) ==> (after.write_ends.contains_key(fd)
            && after.write_ends[fd] == before.write_ends[fd]) || after.released.contains(
            before.write_ends[fd],
        )
}

proof fn serving_leaves_handles(e: EmulationsView)
    ensures
        e.serves().0.write_ends == e.write_ends,
        e.serves().0.released == e.released,
    decreases e.due.len(),
{
    if e.due.len() > 0 {
        let due = e.due[0];
        let rest = EmulationsView { due: e.due.drop_first(), ..e };
        if !e.write_ends.contains_key(due.fd) {
            serving_leaves_handles(EmulationsView { timers: rest.timers.remove(due.fd), ..rest });
        }
    }
}

proof fn dropping_accounts_for(e: EmulationsView, fd: i64)
    ensures
        accounts_for(e, e.dropped(fd)),
{
    if e.write_ends.contains_key(fd) {
        let r = e.released.push(e.write_ends[fd]);
        assert(r[e.released.len() as int] == e.write_ends[fd]);
    }
}

/// No handle is lost: each one is held for its timer until it is put among those
/// to be closed.
#[verifier::spinoff_prover]
pub proof fn handles_are_accounted_for(
    e: EmulationsView,
    pid: i32,
    entering: bool,
    at: Pending,
    event: Event<Seq<u8>>,
    k: Kernel,
)
    ensures
        accounts_for(e, e.begins(pid, entering).0),
        accounts_for(e, e.stepped(pid).0),
        accounts_for(e, e.ticks().0),
        accounts_for(e, e.forgotten(pid)),
        accounts_for(e, e.proceeds(pid, at, event, k).0),
{
    reveal(EmulationsView::proceeds);
    let after = e.proceeds(pid, at, event, k).0;
    match at {
        Pending::Entry => {
            if let Some(regs) = event.regs_of() {
                let dropped = e.dropped(regs.rdi as i64);
                dropping_accounts_for(e, regs.rdi as i64);
                assert((after.write_ends == e.write_ends && after.released == e.released)
                    || after == dropped);
            }
        },
        Pending::PipeOpen { regs, read_end, write_end } => {
            if let Some(handle) = event.handle_of() {
                let dropped = e.dropped(read_end);
                dropping_accounts_for(e, read_end);
                if let Some(sequence) = e.sequence_of(pid) {
                    assert(after.write_ends == dropped.write_ends.insert(read_end, handle));
                    assert(after.released == dropped.released);
                } else {
                    assert(after.write_ends == e.write_ends);
                    assert(after.released == e.released.push(handle));
                }
            } else {
                assert(after.write_ends == e.write_ends && after.released == e.released);
            }
        },
        Pending::Alarm => {
            serving_leaves_handles(EmulationsView { due: Seq::empty(), ..e });
            assert(after.write_ends == e.write_ends && after.released == e.released);
        },
        Pending::TickClock { fd } => {
            serving_leaves_handles(e.judged(fd, event.time_of()));
            assert(after.write_ends == e.write_ends && after.released == e.released);
        },
        Pending::Serving { due } => {
            let (written, errno) = event.written_of();
            let served = e.served(due, written, errno);
            dropping_accounts_for(e, due.fd);
            serving_leaves_handles(served);
            assert(accounts_for(e, served));
            assert(after.write_ends == served.write_ends && after.released == served.released);
        },
        _ => {
            assert(after.write_ends == e.write_ends && after.released == e.released);
        },
    }
}

/// A handle that was opened is held for a timer, or put among those to be closed.
pub proof fn opened_handles_are_kept(
    e: EmulationsView,
    pid: i32,
    regs: Regs,
    read_end: i64,
    write_end: i64,
    handle: i32,
    k: Kernel,
)
    ensures
        ({
            let at = Pending::PipeOpen { regs, read_end, write_end };
            let after = e.proceeds(pid, at, Event::Handle(handle), k).0;
            (after.write_ends.contains_key(read_end) && after.write_ends[read_end] == handle)
                || after.released.contains(handle)
        }),
{
    reveal(EmulationsView::proceeds);
    let r = e.released.push(handle);
    assert(r[e.released.len() as int] == handle);
}

/// `r` answers `timerfd_create` with the error `error`: nothing is in progress in the
/// process afterwards, and no timer or handle was added to those of `e`.
pub open spec fn answers_with(
    e: EmulationsView,
    r: (EmulationsView, Progress<Seq<u8>>),
    pid: i32,
    saved: Regs,
    error: i64,
) -> bool {
    &&& r.1 == Progress::Act(
        Action::<Seq<u8>>::SetRegs { pid, regs: Regs { rax: error as u64, ..saved } },
        Pending::Settled,
    )
    &&& !r.0.active.contains_key(pid)
    &&& r.0.timers == e.timers
    &&& r.0.write_ends == e.write_ends
    &&& r.0.released == e.released
}

/// A pipe that was not created is answered with the error of the call. What the memory
/// that its ends were to be written to holds is not looked at.
pub proof fn failed_pipes_are_errors(
    e: EmulationsView,
    pid: i32,
    saved: Regs,
    gadget: u64,
    clockid: i32,
    regs: Regs,
    k: Kernel,
)
    requires
        e.sequence_of(pid) == Some(started(Plan::TimerfdCreate { clockid }, saved, gadget)),
        is_error(regs.rax as i64),
    ensures
        answers_with(
            e,
            e.proceeds(pid, Pending::Exit, Event::Regs(regs), k),
            pid,
            saved,
            regs.rax as i64,
        ),
{
    let collected = started(Plan::TimerfdCreate { clockid }, saved, gadget).collected(
        regs.rax as i64,
    );
    assert(collected.results =~= seq![regs.rax as i64]);
    assert(first_error(collected.results) == Some(regs.rax as i64)) by {
        reveal_with_fuel(first_error, 2);
    }
    assert(e.exits(pid, Some(regs)) == e.goes_on(pid, collected, regs));
    assert(e.proceeds(pid, Pending::Exit, Event::Regs(regs), k) == e.exits(pid, Some(regs))) by {
        reveal(EmulationsView::proceeds);
    }
}

/// No step of the plan for `timerfd_create` is made after a failure.
proof fn timers_have_no_cleanup(regs: Regs, clockid: i32)
    ensures
        first_cleanup(steps(Plan::TimerfdCreate { clockid }, regs).drop_first()).0 is None,
{
    reveal_with_fuel(first_cleanup, 4);
}

/// The answer to `timerfd_create` once its pipe is lost.
proof fn lost_pipe_is_answered(
    e: EmulationsView,
    pid: i32,
    saved: Regs,
    gadget: u64,
    clockid: i32,
    regs: Regs,
)
    requires
        e.sequence_of(pid) == Some(
            started(Plan::TimerfdCreate { clockid }, saved, gadget).collected(0),
        ),
    ensures
        answers_with(e, e.pipe_lost(pid, regs), pid, saved, (-EIO) as i64),
{
    let noted = started(Plan::TimerfdCreate { clockid }, saved, gadget).collected(0).noted(
        (-EIO) as i64,
    );
    assert(noted.results =~= seq![0i64, (-EIO) as i64]);
    assert(noted.results.drop_first() =~= seq![(-EIO) as i64]);
    assert(first_error(noted.results) == Some((-EIO) as i64)) by {
        reveal_with_fuel(first_error, 3);
    }
    timers_have_no_cleanup(saved, clockid);
}

/// A pipe that was created is asked for its ends; where they cannot be read, or the
/// tracer cannot take a handle on it, the answer is `EIO`.
pub proof fn unheld_pipes_are_errors(
    e: EmulationsView,
    pid: i32,
    saved: Regs,
    gadget: u64,
    clockid: i32,
    regs: Regs,
    event: Event<Seq<u8>>,
    read_end: i64,
    write_end: i64,
    k: Kernel,
)
    requires
        e.sequence_of(pid) == Some(started(Plan::TimerfdCreate { clockid }, saved, gadget)),
        regs.rax == 0,
    ensures
        ({
            let asked = e.proceeds(pid, Pending::Exit, Event::Regs(regs), k);
            let opening = Pending::PipeOpen { regs, read_end, write_end };
            &&& asked.1 == Progress::Act(
                Action::<Seq<u8>>::Read { pid, addr: scratch(saved.rsp), len: 8 },
                Pending::PipeRead { regs },
            )
            &&& event.bytes_of(8) is None ==> answers_with(
                e,
                asked.0.proceeds(pid, Pending::PipeRead { regs }, event, k),
                pid,
                saved,
                (-EIO) as i64,
            )
            &&& event.handle_of() is None ==> answers_with(
                e,
                asked.0.proceeds(pid, opening, event, k),
                pid,
                saved,
                (-EIO) as i64,
            )
        }),
{
    let collected = started(Plan::TimerfdCreate { clockid }, saved, gadget).collected(0);
    let held = e.begun(pid, Active::Sequence(collected));
    let opening = Pending::PipeOpen { regs, read_end, write_end };
    assert(held.sequence_of(pid) == Some(collected));
    lost_pipe_is_answered(held, pid, saved, gadget, clockid, regs);
    assert(e.proceeds(pid, Pending::Exit, Event::Regs(regs), k) == e.exits(pid, Some(regs))) by {
        reveal(EmulationsView::proceeds);
    }
    assert(e.exits(pid, Some(regs)).0 == held);
    assert(event.bytes_of(8) is None ==> held.proceeds(pid, Pending::PipeRead { regs }, event, k)
        == held.pipe_lost(pid, regs)) by {
        reveal(EmulationsView::proceeds);
    }
    assert(event.handle_of() is None ==> held.proceeds(pid, opening, event, k) == held.pipe_lost(
        pid,
        regs,
    )) by {
        reveal(EmulationsView::proceeds);
    }
}

proof fn serving_leaves_emulations(e: EmulationsView)
    ensures
        e.serves().0.active == e.active,
    decreases e.due.len(),
{
    if e.due.len() > 0 {
        let due = e.due[0];
        let rest = EmulationsView { due: e.due.drop_first(), ..e };
        if !e.write_ends.contains_key(due.fd) {
            serving_leaves_emulations(EmulationsView { timers: rest.timers.remove(due.fd), ..rest });
        }
    }
}

/// `after` has the emulations of `before`, but for the one in `pid`.
pub open spec fn same_but_for(before: EmulationsView, after: EmulationsView, pid: i32) -> bool {
    forall|other: i32|
        other != pid ==> (#[trigger] after.active.contains_key(other)
            == before.active.contains_key(other)) && (before.active.contains_key(other)
            ==> after.active[other] == before.active[other])
}

/// Going on with the deadlines touches no emulation.
proof fn deadlines_leave_emulations(
    e: EmulationsView,
    pid: i32,
    at: Pending,
    event: Event<Seq<u8>>,
    k: Kernel,
)
    requires
        at is Alarm || at is TickClock || at is Serving || at is Arm || at is Armed,
    ensures
        e.proceeds(pid, at, event, k).0.active == e.active,
{
    reveal(EmulationsView::proceeds);
    match at {
        Pending::Alarm => {
            serving_leaves_emulations(EmulationsView { due: Seq::empty(), ..e });
        },
        Pending::TickClock { fd } => {
            serving_leaves_emulations(e.judged(fd, event.time_of()));
        },
        Pending::Serving { due } => {
            let (written, errno) = event.written_of();
            serving_leaves_emulations(e.served(due, written, errno));
        },
        _ => {},
    }
}

/// Going on with a sequence touches no emulation but its own.
proof fn sequences_leave_others(
    e: EmulationsView,
    pid: i32,
    at: Pending,
    event: Event<Seq<u8>>,
    k: Kernel,
)
    requires
        at is Exit || at is PipeRead || at is PipeOpen,
    ensures
        same_but_for(e, e.proceeds(pid, at, event, k).0, pid),
{
    reveal(EmulationsView::proceeds);
}

/// What is done for one process leaves the emulations of every other alone.
pub proof fn processes_do_not_interfere(
    e: EmulationsView,
    pid: i32,
    entering: bool,
    at: Pending,
    event: Event<Seq<u8>>,
    k: Kernel,
)
    ensures
        same_but_for(e, e.begins(pid, entering).0, pid),
        same_but_for(e, e.stepped(pid).0, pid),
        same_but_for(e, e.ticks().0, pid),
        same_but_for(e, e.forgotten(pid), pid),
        same_but_for(e, e.proceeds(pid, at, event, k).0, pid),
{
    if at is Alarm || at is TickClock || at is Serving || at is Arm || at is Armed {
        deadlines_leave_emulations(e, pid, at, event, k);
    } else if at is Exit || at is PipeRead || at is PipeOpen {
        sequences_leave_others(e, pid, at, event, k);
    } else {
        reveal(EmulationsView::proceeds);
    }
}

/// The exit stop of a call that already ran is never taken over, nor is any call of
/// a 32-bit process; neither changes anything.
pub proof fn only_64_bit_entries_are_taken_over(e: EmulationsView, pid: i32, regs: Regs, k: Kernel)
    requires
        regs.cs != CS_64,
    ensures
        e.begins(pid, false) == (e, Progress::<Seq<u8>>::Done(false)),
        e.proceeds(pid, Pending::Entry, Event::Regs(regs), k) == (
            e,
            Progress::<Seq<u8>>::Done(false),
        ),
{
    reveal(EmulationsView::proceeds);
}

/// An expiration that could not be written while the reader is alive is not lost: a
/// one-shot timer keeps its deadline, and is served again.
pub proof fn expirations_are_not_lost(e: EmulationsView, due: Due, written: i64, errno: i32)
    requires
        written != 8,
        errno == EAGAIN || errno == EINTR,
        due.next is None,
    ensures
        e.served(due, written, errno) == e,
{
}

/// A timer set for `value` from `now` on says at `later` what is left of that, and
/// its interval.
pub proof fn settings_are_told(
    e: EmulationsView,
    pid: i32,
    regs: Regs,
    asks: Regs,
    interval: Time,
    value: Time,
    now: Time,
    later: Time,
    k: Kernel,
)
    requires
        e.timers.contains_key(regs.rdi as i64),
        asks.rdi == regs.rdi,
    ensures
        ({
            let set = e.proceeds(
                pid,
                Pending::SettimeNow { regs, interval, value },
                Event::Time(now),
                k,
            ).0;
            let timer = set.timers[asks.rdi as i64];
            &&& set.timers.contains_key(asks.rdi as i64)
            &&& set.proceeds(pid, Pending::Gettime { regs: asks, timer }, Event::Time(later), k).1
                == Progress::Act(
                Action::Write {
                    pid,
                    addr: asks.rsi,
                    bytes: time_bytes(interval) + time_bytes(difference(sum(now, value), later)),
                },
                Pending::GettimeWrote { regs: asks },
            )
        }),
{
    reveal(EmulationsView::proceeds);
}

/// What the clock of the timer of a descriptor says, where it can be read.
pub type Readings = spec_fn(i64) -> Option<Time>;

/// The event that reports a reading.
pub open spec fn reading(now: Option<Time>) -> Event<Seq<u8>> {
    match now {
        Some(now) => Event::Time(now),
        None => Event::Failed,
    }
}

/// The timers with a deadline after `after`.
pub open spec fn armed_after(e: EmulationsView, after: Option<i64>) -> Set<i64> {
    e.timers.dom().filter(|fd: i64| armed(e.timers, fd) && past(after, fd))
}

/// What the tracer's timer is set to in the end, where `p` has been come to and the
/// clocks read as `readings` says. `limit` bounds how many are read.
pub open spec fn alarm_set(
    e: EmulationsView,
    p: Progress<Seq<u8>>,
    readings: Readings,
    pid: i32,
    k: Kernel,
    limit: nat,
) -> Option<(i64, i64)>
    decreases limit,
{
    match p {
        Progress::Act(Action::SetTimer { seconds, microseconds }, _) => Some(
            (seconds, microseconds),
        ),
        Progress::Act(_, Pending::Arm { fd, soonest, rearm }) => if limit == 0 {
            None
        } else {
            let at = Pending::Arm { fd, soonest, rearm };
            let next = e.proceeds(pid, at, reading(readings(fd)), k);
            alarm_set(next.0, next.1, readings, pid, k, (limit - 1) as nat)
        },
        _ => None,
    }
}

/// `left` is what is left of the deadline of `fd`, whose clock can be read.
pub open spec fn is_left(e: EmulationsView, readings: Readings, fd: i64, left: Time) -> bool {
    &&& armed(e.timers, fd)
    &&& readings(fd) is Some
    &&& left == difference(e.timers[fd].deadline->0, readings(fd)->0)
}

/// `least` is the least of what is left of the deadlines after `after`, and of
/// `soonest`. There is none where there is nothing to take it from.
pub open spec fn is_least(
    e: EmulationsView,
    readings: Readings,
    after: Option<i64>,
    soonest: Option<Time>,
    least: Option<Time>,
) -> bool {
    match least {
        Some(t) => {
            &&& soonest == Some(t) || exists|fd: i64|
                past(after, fd) && #[trigger] is_left(e, readings, fd, t)
            &&& soonest is Some ==> !before(soonest->0, t)
            &&& forall|fd: i64, left: Time|
                past(after, fd) && #[trigger] is_left(e, readings, fd, left) ==> !before(left, t)
        },
        None => {
            &&& soonest is None
            &&& forall|fd: i64|
                #[trigger] armed(e.timers, fd) && past(after, fd) ==> readings(fd) is None
        },
    }
}

proof fn least_exists(s: Set<i64>)
    requires
        s.finite(),
        s.len() > 0,
    ensures
        exists|m: i64| #[trigger] s.contains(m) && forall|x: i64| s.contains(x) ==> m <= x,
    decreases s.len(),
{
    let a = s.choose();
    let rest = s.remove(a);
    if rest.len() > 0 {
        least_exists(rest);
        let m = choose|m: i64| #[trigger]
            rest.contains(m) && forall|x: i64| rest.contains(x) ==> m <= x;
        let least = if a <= m { a } else { m };
        assert forall|x: i64| s.contains(x) implies least <= x by {
            if x != a {
                assert(rest.contains(x));
            }
        }
        assert(s.contains(least));
    } else {
        assert forall|x: i64| s.contains(x) implies a <= x by {
            if x != a {
                assert(rest.contains(x));
            }
        }
    }
}

/// The next timer with a deadline is one of those after `after`, and those after it
/// are fewer. Where there is none, none is left.
proof fn next_is_found(e: EmulationsView, after: Option<i64>)
    requires
        e.timers.dom().finite(),
    ensures
        match next_armed(e.timers, after) {
            Some(fd) => {
                &&& is_next_armed(e.timers, after, fd)
                &&& armed_after(e, Some(fd)).len() < armed_after(e, after).len()
            },
            None => forall|fd: i64| #[trigger] armed(e.timers, fd) ==> !past(after, fd),
        },
{
    let s = armed_after(e, after);
    e.timers.dom().lemma_len_filter(|fd: i64| armed(e.timers, fd) && past(after, fd));
    match next_armed(e.timers, after) {
        Some(fd) => {
            let t = armed_after(e, Some(fd));
            assert(t.subset_of(s.remove(fd)));
            assert(s.contains(fd));
            vstd::set_lib::lemma_len_subset(t, s.remove(fd));
        },
        None => {
            if s.len() > 0 {
                least_exists(s);
                let m = choose|m: i64| #[trigger]
                    s.contains(m) && forall|x: i64| s.contains(x) ==> m <= x;
                assert forall|other: i64| #[trigger]
                    armed(e.timers, other) && past(after, other) implies m <= other by {
                    assert(s.contains(other));
                }
                assert(is_next_armed(e.timers, after, m));
            }
            assert forall|fd: i64| #[trigger] armed(e.timers, fd) implies !past(after, fd) by {
                if past(after, fd) {
                    assert(s.contains(fd));
                }
            }
        },
    }
}

proof fn alarm_from(
    e: EmulationsView,
    after: Option<i64>,
    soonest: Option<Time>,
    rearm: Rearm,
    readings: Readings,
    pid: i32,
    k: Kernel,
    limit: nat,
) -> (least: Option<Time>)
    requires
        e.timers.dom().finite(),
        armed_after(e, after).len() <= limit,
    ensures
        is_least(e, readings, after, soonest, least),
        alarm_set(e, e.arms_after(after, soonest, rearm).1, readings, pid, k, limit) == Some(
            alarm_setting(least),
        ),
    decreases limit,
{
    reveal(EmulationsView::proceeds);
    next_is_found(e, after);
    match next_armed(e.timers, after) {
        Some(fd) => {
            let nearer = e.nearer(fd, soonest, readings(fd));
            let least = alarm_from(
                e,
                Some(fd),
                nearer,
                rearm,
                readings,
                pid,
                k,
                (limit - 1) as nat,
            );
            assert forall|other: i64| past(after, other) && #[trigger] armed(
                e.timers,
                other,
            ) implies other == fd || past(Some(fd), other) by {}
            if readings(fd) is Some {
                let left = difference(e.timers[fd].deadline->0, readings(fd)->0);
                assert(is_left(e, readings, fd, left));
            }
            assert(is_least(e, readings, after, soonest, least));
            least
        },
        None => soonest,
    }
}

/// The tracer's timer is set for the nearest deadline of all timers whose clock can
/// be read, and turned off where there is none.
pub proof fn nearest_deadline_is_set(
    e: EmulationsView,
    rearm: Rearm,
    readings: Readings,
    pid: i32,
    k: Kernel,
) -> (least: Option<Time>)
    requires
        e.timers.dom().finite(),
    ensures
        is_least(e, readings, None, None, least),
        alarm_set(e, e.arms(rearm).1, readings, pid, k, e.timers.dom().len()) == Some(
            alarm_setting(least),
        ),
{
    reveal(EmulationsView::proceeds);
    e.timers.dom().lemma_len_filter(|fd: i64| armed(e.timers, fd) && past(None, fd));
    alarm_from(e, None, None, rearm, readings, pid, k, e.timers.dom().len())
}

/// Where the look at the timers leads, from `r` on, where the clocks read as
/// `readings` says. `limit` bounds how many are read.
pub open spec fn looked(
    r: (EmulationsView, Progress<Seq<u8>>),
    readings: Readings,
    pid: i32,
    k: Kernel,
    limit: nat,
) -> (EmulationsView, Progress<Seq<u8>>)
    decreases limit,
{
    match r.1 {
        Progress::Act(_, Pending::TickClock { fd }) => if limit == 0 {
            r
        } else {
            let at = Pending::TickClock { fd };
            looked(
                r.0.proceeds(pid, at, reading(readings(fd)), k),
                readings,
                pid,
                k,
                (limit - 1) as nat,
            )
        },
        _ => r,
    }
}

/// The deadline of `fd` has passed.
pub open spec fn is_due(e: EmulationsView, readings: Readings, fd: i64) -> bool {
    armed(e.timers, fd) && readings(fd) is Some && !before(
        readings(fd)->0,
        e.timers[fd].deadline->0,
    )
}

/// There is an expiration of `fd` among `due`.
pub open spec fn listed(due: Seq<Due>, fd: i64) -> bool {
    exists|i: int| 0 <= i < due.len() && (#[trigger] due[i]).fd == fd
}

/// `due` is in order, and holds none of a descriptor after `after`.
pub open spec fn in_order(due: Seq<Due>, after: Option<i64>) -> bool {
    &&& forall|i: int, j: int|
        0 <= i < j < due.len() ==> (#[trigger] due[i]).fd < (#[trigger] due[j]).fd
    &&& forall|i: int| 0 <= i < due.len() ==> !past(after, (#[trigger] due[i]).fd)
}

/// Looking at one timer puts it on the list where it is due, and changes nothing else.
proof fn one_is_judged(e: EmulationsView, after: Option<i64>, fd: i64, readings: Readings)
    requires
        past(after, fd),
        in_order(e.due, after),
    ensures
        ({
            let judged = e.judged(fd, readings(fd));
            &&& judged == (EmulationsView { due: judged.due, ..e })
            &&& in_order(judged.due, Some(fd))
            &&& forall|other: i64| #[trigger]
                listed(judged.due, other) <==> listed(e.due, other) || (other == fd && is_due(
                    e,
                    readings,
                    fd,
                ))
        }),
{
    let judged = e.judged(fd, readings(fd));
    assert forall|other: i64| #[trigger] listed(judged.due, other) <==> listed(e.due, other) || (
    other == fd && is_due(e, readings, fd)) by {
        if listed(e.due, other) {
            let i = choose|i: int| 0 <= i < e.due.len() && (#[trigger] e.due[i]).fd == other;
            assert(judged.due[i].fd == other);
        }
        if is_due(e, readings, fd) {
            assert(judged.due[e.due.len() as int].fd == fd);
        }
    }
}

proof fn serving_looks_at_nothing(e: EmulationsView)
    ensures
        !(e.serves().1 matches Progress::Act(_, Pending::TickClock { fd })),
    decreases e.due.len(),
{
    if e.due.len() > 0 {
        let due = e.due[0];
        let rest = EmulationsView { due: e.due.drop_first(), ..e };
        if !e.write_ends.contains_key(due.fd) {
            serving_looks_at_nothing(EmulationsView { timers: rest.timers.remove(due.fd), ..rest });
        }
    }
}

/// One timer is looked at, and those after it are next. Where none is left, what is
/// due is handed over.
proof fn look_steps(
    e: EmulationsView,
    after: Option<i64>,
    readings: Readings,
    pid: i32,
    k: Kernel,
    limit: nat,
)
    ensures
        match next_armed(e.timers, after) {
            Some(fd) => limit > 0 ==> looked(e.looks_after(after), readings, pid, k, limit)
                == looked(
                e.judged(fd, readings(fd)).looks_after(Some(fd)),
                readings,
                pid,
                k,
                (limit - 1) as nat,
            ),
            None => looked(e.looks_after(after), readings, pid, k, limit) == e.serves(),
        },
{
    reveal(EmulationsView::proceeds);
    if next_armed(e.timers, after) is None {
        serving_looks_at_nothing(e);
    }
}

#[verifier::spinoff_prover]
proof fn look_from(
    e: EmulationsView,
    after: Option<i64>,
    readings: Readings,
    pid: i32,
    k: Kernel,
    limit: nat,
) -> (found: EmulationsView)
    requires
        e.timers.dom().finite(),
        armed_after(e, after).len() <= limit,
        in_order(e.due, after),
    ensures
        looked(e.looks_after(after), readings, pid, k, limit) == found.serves(),
        found == (EmulationsView { due: found.due, ..e }),
        forall|fd: i64| #[trigger]
            listed(found.due, fd) <==> listed(e.due, fd) || (past(after, fd) && is_due(
                e,
                readings,
                fd,
            )),
        forall|i: int, j: int|
            0 <= i < j < found.due.len() ==> (#[trigger] found.due[i]).fd < (
            #[trigger] found.due[j]).fd,
    decreases limit,
{
    reveal(EmulationsView::proceeds);
    next_is_found(e, after);
    look_steps(e, after, readings, pid, k, limit);
    match next_armed(e.timers, after) {
        Some(fd) => {
            one_is_judged(e, after, fd, readings);
            let judged = e.judged(fd, readings(fd));
            assert(armed_after(judged, Some(fd)) == armed_after(e, Some(fd)));
            let found = look_from(judged, Some(fd), readings, pid, k, (limit - 1) as nat);
            assert forall|other: i64| #[trigger] listed(found.due, other) <==> listed(e.due, other)
                || (past(after, other) && is_due(e, readings, other)) by {
                assert(listed(judged.due, other) <==> listed(e.due, other) || (other == fd
                    && is_due(e, readings, fd)));
                assert(is_due(judged, readings, other) == is_due(e, readings, other));
                if past(after, other) && armed(e.timers, other) {
                    assert(other == fd || past(Some(fd), other));
                }
            }
            found
        },
        None => {
            e
        },
    }
}

/// Every timer whose deadline has passed, and no other, is among those whose
/// expiration is handed over once the alarm has gone off, and each only once.
pub proof fn due_timers_are_found(
    e: EmulationsView,
    readings: Readings,
    pid: i32,
    k: Kernel,
) -> (found: EmulationsView)
    requires
        e.timers.dom().finite(),
    ensures
        looked(
            e.proceeds(pid, Pending::Alarm, Event::Done, k),
            readings,
            pid,
            k,
            e.timers.dom().len(),
        ) == found.serves(),
        found == (EmulationsView { due: found.due, ..e }),
        forall|fd: i64| #[trigger] listed(found.due, fd) <==> is_due(e, readings, fd),
        forall|i: int, j: int|
            0 <= i < j < found.due.len() ==> (#[trigger] found.due[i]).fd < (
            #[trigger] found.due[j]).fd,
{
    reveal(EmulationsView::proceeds);
    let start = EmulationsView { due: Seq::empty(), ..e };
    e.timers.dom().lemma_len_filter(|fd: i64| armed(e.timers, fd) && past(None, fd));
    assert(armed_after(start, None) == armed_after(e, None));
    let found = look_from(start, None, readings, pid, k, e.timers.dom().len());
    assert forall|fd: i64| #[trigger] listed(found.due, fd) <==> is_due(e, readings, fd) by {
        assert(is_due(start, readings, fd) == is_due(e, readings, fd));
        assert(!listed(start.due, fd));
    }
    found
}

proof fn digits_are_digits(n: nat, i: int)
    requires
        0 <= i < digits(n).len(),
    ensures
        48 <= digits(n)[i] <= 57,
    decreases n,
{
    if n >= 10 && i < digits(n).len() - 1 {
        digits_are_digits(n / 10, i);
    }
}

proof fn digits_tell_apart(n: nat, m: nat)
    requires
        digits(n) == digits(m),
    ensures
        n == m,
    decreases n,
{
    digits_are_some(n);
    digits_are_some(m);
    assert(digits(n).last() == 48 + n % 10);
    assert(digits(m).last() == 48 + m % 10);
    if n >= 10 {
        digits_are_some(n / 10);
        assert(digits(n).len() > 1);
        if m >= 10 {
            assert(digits(n).drop_last() =~= digits(n / 10));
            assert(digits(m).drop_last() =~= digits(m / 10));
            digits_tell_apart(n / 10, m / 10);
        }
    } else if m >= 10 {
        digits_are_some(m / 10);
        assert(digits(m).len() > 1);
    }
}

proof fn digits_are_some(n: nat)
    ensures
        digits(n).len() > 0,
{
}

/// The socket addresses that stand for eventfds are kept apart by the process and
/// by the number.
pub proof fn eventfd_addresses_differ(pid: i32, number: u64, other: i32, another: u64)
    requires
        eventfd_address(pid, number) == eventfd_address(other, another),
    ensures
        pid == other,
        number == another,
{
    let a = eventfd_address(pid, number);
    let b = eventfd_address(other, another);
    let p = pid_digits(pid);
    let q = pid_digits(other);
    let n = digits(number as nat);
    let m = digits(another as nat);
    assert(a.len() == 15 + p.len() + n.len());
    assert(b.len() == 15 + q.len() + m.len());
    // The last hyphen stands before the number.
    assert(a[a.len() - n.len() - 1] == 45);
    assert(b[b.len() - m.len() - 1] == 45);
    if n.len() < m.len() {
        let i = m.len() - n.len() - 1;
        assert(b[a.len() - n.len() - 1] == m[i]);
        digits_are_digits(another as nat, i);
    } else if m.len() < n.len() {
        let i = n.len() - m.len() - 1;
        assert(a[b.len() - m.len() - 1] == n[i]);
        digits_are_digits(number as nat, i);
    }
    assert(n =~= m) by {
        assert forall|i: int| 0 <= i < n.len() implies n[i] == m[i] by {
            assert(a[15 + p.len() + i] == n[i]);
            assert(b[15 + q.len() + i] == m[i]);
        }
    }
    digits_tell_apart(number as nat, another as nat);
    assert(p =~= q) by {
        assert forall|i: int| 0 <= i < p.len() implies p[i] == q[i] by {
            assert(a[14 + i] == p[i]);
            assert(b[14 + i] == q[i]);
        }
    }
    if pid >= 0 {
        digits_are_digits(pid as nat, 0);
    } else {
        assert(p.skip(1) =~= digits((-pid) as nat));
    }
    if other >= 0 {
        digits_are_digits(other as nat, 0);
    } else {
        assert(q.skip(1) =~= digits((-other) as nat));
    }
    if pid >= 0 && other >= 0 {
        digits_tell_apart(pid as nat, other as nat);
    } else if pid < 0 && other < 0 {
        digits_tell_apart((-pid) as nat, (-other) as nat);
    }
}

}
