//! What the calls on an emulated timerfd do, and how its expirations are handed over.

use vstd::prelude::*;
use crate::abi::{Regs, CS_64, SYS_TIMERFD_GETTIME, SYS_TIMERFD_SETTIME};
use crate::emulated_syscalls::{
    alarm_setting, armed, is_next_armed, past, Active, Due, EmulationsView, Pending, Progress,
    Rearm, Timer,
};
use crate::kernel::Kernel;
use crate::protocol::{Action, Event};
use crate::sequence::SequenceView;
use crate::time::{difference, expired, sum, time_at, time_bytes, Time};

verus! {

/// What has been come to: the state, and what is to be done.
pub type Come = (EmulationsView, Progress<Seq<u8>>);

/// What is done about a call at its entry, once its registers are known.
pub open spec fn offered(e: EmulationsView, pid: i32, regs: Regs, k: Kernel) -> Come {
    e.proceeds(pid, Pending::Entry, Event::Regs(regs), k)
}

/// What it comes to when the driver has acted.
pub open spec fn after(r: Come, pid: i32, event: Event<Seq<u8>>, k: Kernel) -> Come {
    r.0.proceeds(pid, r.1->Act_1, event, k)
}

/// The driver is asked for `action`, in the state `e`.
pub open spec fn asks(r: Come, e: EmulationsView, action: Action<Seq<u8>>) -> bool {
    r.0 == e && r.1 is Act && r.1->Act_0 == action
}

/// The call is left to the kernel, in the state `e`.
pub open spec fn is_refused(r: Come, e: EmulationsView) -> bool {
    r.0 == e && r.1 == Progress::<Seq<u8>>::Done(false)
}

/// There is nothing left to do, in the state `e`.
pub open spec fn is_over(r: Come, e: EmulationsView) -> bool {
    r.0 == e && r.1 == Progress::<Seq<u8>>::Done(true)
}

/// The timer of `fd` has this deadline and this interval, with all else as in `e`. The
/// tracer's own timer is then seen to, for the call in `regs`.
pub open spec fn is_set(
    r: Come,
    e: EmulationsView,
    fd: i64,
    deadline: Option<Time>,
    interval: Time,
    regs: Regs,
) -> bool {
    &&& r.0.timers.contains_key(fd)
    &&& r.0.timers[fd].deadline == deadline
    &&& r.0.timers[fd].interval == interval
    &&& r.0.timers[fd].clockid == e.timers[fd].clockid
    &&& r.0.timers.dom() == e.timers.dom()
    &&& forall|other: i64|
        other != fd && e.timers.contains_key(other) ==> #[trigger] r.0.timers[other]
            == e.timers[other]
    &&& r.0 == (EmulationsView { timers: r.0.timers, ..e })
    &&& match r.1 {
        Progress::Act(_, Pending::Arm { rearm: Rearm::Settime(by), .. }) => by == regs,
        Progress::Act(_, Pending::Armed { rearm: Rearm::Settime(by) }) => by == regs,
        _ => false,
    }
}

/// What is left until a deadline, where the clock says what `event` tells; a clock that
/// cannot be read says zero.
pub open spec fn left_until(deadline: Option<Time>, event: Event<Seq<u8>>) -> Time {
    let now = if event is Time { event->Time_0 } else { (0, 0) };
    if deadline is Some { difference(deadline->0, now) } else { (0, 0) }
}

/// The new setting is taken over, from `r` on. A value of zero leaves no deadline. With
/// `TFD_TIMER_ABSTIME` the value is the deadline. Otherwise the deadline is the value from
/// now on, on the clock of the timer.
pub open spec fn takes_setting(
    r: Come,
    e: EmulationsView,
    pid: i32,
    regs: Regs,
    interval: Time,
    value: Time,
    now: Time,
    k: Kernel,
) -> bool {
    let fd = regs.rdi as i64;
    if value.0 == 0 && value.1 == 0 {
        is_set(r, e, fd, None, interval, regs)
    } else if regs.rsi % 2 == 1 {
        is_set(r, e, fd, Some(value), interval, regs)
    } else {
        &&& asks(r, e, Action::Clock { id: e.timers[fd].clockid })
        &&& is_set(
            after(r, pid, Event::Time(now), k),
            e,
            fd,
            Some(sum(now, value)),
            interval,
            regs,
        )
        &&& is_refused(after(r, pid, Event::Failed, k), e)
    }
}

/// The setting is taken over as it should.
proof fn settings_are_taken(
    e: EmulationsView,
    pid: i32,
    regs: Regs,
    interval: Time,
    value: Time,
    now: Time,
    k: Kernel,
)
    requires
        e.timers.contains_key(regs.rdi as i64),
    ensures
        takes_setting(
            e.sets(pid, regs, e.timers[regs.rdi as i64], interval, value),
            e,
            pid,
            regs,
            interval,
            value,
            now,
            k,
        ),
{
    reveal(EmulationsView::proceeds);
    let flags = regs.rsi;
    assert(flags & 1 != 0 <==> flags % 2 == 1) by (bit_vector);
    let fd = regs.rdi as i64;
    let none = e.set(fd, None, interval);
    let given = e.set(fd, Some(value), interval);
    let counted = e.set(fd, Some(sum(now, value)), interval);
    assert(none.timers.dom() =~= e.timers.dom());
    assert(given.timers.dom() =~= e.timers.dom());
    assert(counted.timers.dom() =~= e.timers.dom());
}

/// `timerfd_settime` on an emulated timer reads the new setting, and tells what is left of
/// the one it replaces where that is asked for. Then, whether or not it was asked for and
/// whatever the clocks said, the new setting is taken over. Where the caller's memory
/// cannot be used, the call is left to the kernel and nothing is changed.
pub proof fn timers_are_set(
    e: EmulationsView,
    pid: i32,
    regs: Regs,
    setting: Seq<u8>,
    reading: Event<Seq<u8>>,
    now: Time,
    k: Kernel,
)
    requires
        regs.cs == CS_64 && regs.orig_rax == SYS_TIMERFD_SETTIME,
        e.timers.contains_key(regs.rdi as i64),
        setting.len() == 32,
    ensures
        ({
            let timer = e.timers[regs.rdi as i64];
            let interval = time_at(setting, 0);
            let value = time_at(setting, 16);
            let r0 = offered(e, pid, regs, k);
            let r1 = after(r0, pid, Event::Bytes(setting), k);
            let r2 = after(r1, pid, reading, k);
            let r3 = after(r2, pid, Event::Done, k);
            &&& asks(r0, e, Action::Read { pid, addr: regs.rdx, len: 32 })
            &&& is_refused(after(r0, pid, Event::Failed, k), e)
            &&& if regs.r10 == 0 {
                takes_setting(r1, e, pid, regs, interval, value, now, k)
            } else {
                let told = time_bytes(timer.interval) + time_bytes(
                    left_until(timer.deadline, reading),
                );
                &&& asks(r1, e, Action::Clock { id: timer.clockid })
                &&& asks(r2, e, Action::Write { pid, addr: regs.r10, bytes: told })
                &&& is_refused(after(r2, pid, Event::Failed, k), e)
                &&& takes_setting(r3, e, pid, regs, interval, value, now, k)
            }
        }),
{
    let timer = e.timers[regs.rdi as i64];
    let interval = time_at(setting, 0);
    let value = time_at(setting, 16);
    entry_is_next(e, pid, Event::Regs(regs), k);
    setting_is_next(e, pid, regs, timer, Event::Bytes(setting), k);
    setting_is_next(e, pid, regs, timer, Event::Failed, k);
    old_setting_is_next(e, pid, regs, timer, interval, value, reading, Event::Done, k);
    old_setting_is_next(e, pid, regs, timer, interval, value, reading, Event::Failed, k);
    settings_are_taken(e, pid, regs, interval, value, now, k);
}

/// What follows the registers at the entry of a call.
pub(crate) proof fn entry_is_next(e: EmulationsView, pid: i32, event: Event<Seq<u8>>, k: Kernel)
    ensures
        e.proceeds(pid, Pending::Entry, event, k) == e.entry(pid, event.regs_of(), k),
{
    reveal(EmulationsView::proceeds);
}

/// What follows a new setting.
proof fn setting_is_next(
    e: EmulationsView,
    pid: i32,
    regs: Regs,
    timer: Timer,
    event: Event<Seq<u8>>,
    k: Kernel,
)
    ensures
        ({
            let r = e.proceeds(pid, Pending::Settime { regs, timer }, event, k);
            match event.bytes_of(32) {
                Some(bytes) => {
                    let interval = time_at(bytes, 0);
                    let value = time_at(bytes, 16);
                    if regs.r10 != 0 {
                        asks(r, e, Action::Clock { id: timer.clockid }) && r.1->Act_1 == (
                        Pending::SettimeOld { regs, timer, interval, value })
                    } else {
                        r == e.sets(pid, regs, timer, interval, value)
                    }
                },
                None => is_refused(r, e),
            }
        }),
{
    reveal(EmulationsView::proceeds);
}

/// What follows the setting that is replaced.
proof fn old_setting_is_next(
    e: EmulationsView,
    pid: i32,
    regs: Regs,
    timer: Timer,
    interval: Time,
    value: Time,
    reading: Event<Seq<u8>>,
    event: Event<Seq<u8>>,
    k: Kernel,
)
    ensures
        ({
            let r = e.proceeds(
                pid,
                Pending::SettimeOld { regs, timer, interval, value },
                reading,
                k,
            );
            let then = e.proceeds(
                pid,
                Pending::SettimeWrote { regs, timer, interval, value },
                event,
                k,
            );
            let told = time_bytes(timer.interval) + time_bytes(
                left_until(timer.deadline, reading),
            );
            &&& asks(r, e, Action::Write { pid, addr: regs.r10, bytes: told })
            &&& r.1->Act_1 == (Pending::SettimeWrote { regs, timer, interval, value })
            &&& event is Done ==> then == e.sets(pid, regs, timer, interval, value)
            &&& event !is Done ==> is_refused(then, e)
        }),
{
    reveal(EmulationsView::proceeds);
}

/// A call that stands in for one that was answered makes the process report `result`: it is
/// `getpid`, and in its place the result is left.
pub open spec fn is_answered_with(
    r: Come,
    e: EmulationsView,
    pid: i32,
    regs: Regs,
    result: i64,
    k: Kernel,
) -> bool {
    let then = after(r, pid, Event::Done, k);
    &&& asks(r, e, Action::SetRegs { pid, regs: Regs { orig_rax: 39, rax: 39, ..regs } })
    &&& is_over(
        then,
        EmulationsView { active: e.active.insert(pid, Active::Fixup(result)), ..e },
    )
    &&& is_refused(after(r, pid, Event::Failed, k), e)
}

/// The stop at the exit of a call that stands in leaves the result there, and ends the
/// emulation.
pub proof fn results_are_left(e: EmulationsView, pid: i32, result: i64, at: Regs, k: Kernel)
    requires
        e.active.contains_key(pid),
        e.active[pid] == Active::<SequenceView>::Fixup(result),
    ensures
        ({
            let free = EmulationsView { active: e.active.remove(pid), ..e };
            let r0 = e.stepped(pid);
            let r1 = after(r0, pid, Event::Regs(at), k);
            &&& asks(r0, free, Action::GetRegs { pid })
            &&& asks(
                r1,
                free,
                Action::SetRegs { pid, regs: Regs { rax: result as u64, ..at } },
            )
            &&& is_over(after(r1, pid, Event::Done, k), free)
            &&& is_over(after(r1, pid, Event::Failed, k), free)
            &&& is_over(after(r0, pid, Event::Failed, k), free)
        }),
{
    reveal(EmulationsView::proceeds);
}

/// Once the tracer's timer is seen to after a setting, `timerfd_settime` reports zero. After
/// expirations were handed over there is nothing more to do.
pub proof fn settings_report_success(
    e: EmulationsView,
    pid: i32,
    regs: Regs,
    event: Event<Seq<u8>>,
    k: Kernel,
)
    ensures
        is_answered_with(
            e.proceeds(pid, Pending::Armed { rearm: Rearm::Settime(regs) }, event, k),
            e,
            pid,
            regs,
            0,
            k,
        ),
        is_over(e.proceeds(pid, Pending::Armed { rearm: Rearm::Tick }, event, k), e),
{
    reveal(EmulationsView::proceeds);
}

/// `timerfd_gettime` on an emulated timer tells its interval and what is left until its
/// deadline, and reports zero. Where the caller's memory cannot be used, the call is left
/// to the kernel.
pub proof fn timers_are_told(
    e: EmulationsView,
    pid: i32,
    regs: Regs,
    reading: Event<Seq<u8>>,
    k: Kernel,
)
    requires
        regs.cs == CS_64 && regs.orig_rax == SYS_TIMERFD_GETTIME,
        e.timers.contains_key(regs.rdi as i64),
    ensures
        ({
            let timer = e.timers[regs.rdi as i64];
            let r0 = offered(e, pid, regs, k);
            let r1 = after(r0, pid, reading, k);
            let told = time_bytes(timer.interval) + time_bytes(
                left_until(timer.deadline, reading),
            );
            &&& asks(r0, e, Action::Clock { id: timer.clockid })
            &&& asks(r1, e, Action::Write { pid, addr: regs.rsi, bytes: told })
            &&& is_refused(after(r1, pid, Event::Failed, k), e)
            &&& is_answered_with(after(r1, pid, Event::Done, k), e, pid, regs, 0, k)
        }),
{
    reveal(EmulationsView::proceeds);
}

/// The alarm begins with a look at all timers, and without it there is nothing to do.
pub proof fn alarms_are_looked_into(e: EmulationsView, pid: i32, k: Kernel)
    ensures
        asks(e.ticks(), e, Action::TakeAlarm),
        is_over(after(e.ticks(), pid, Event::Failed, k), e),
        after(e.ticks(), pid, Event::Done, k) == (EmulationsView {
            due: Seq::empty(),
            ..e
        }).looks_after(None),
{
    reveal(EmulationsView::proceeds);
}

/// A timer is due from its deadline on, to the nanosecond. It is then listed last, with the
/// number of its expirations and its next deadline; nothing else changes. Without a
/// deadline, or without a reading of its clock, it is not due.
pub proof fn due_timers_are_counted(e: EmulationsView, fd: i64, now: Option<Time>)
    ensures
        ({
            let judged = e.judged(fd, now);
            let timer = e.timers[fd];
            let deadline = timer.deadline->0;
            let time = now->0;
            let is_due = e.timers.contains_key(fd) && timer.deadline is Some && now is Some && (
            time.0 > deadline.0 || time.0 == deadline.0 && time.1 >= deadline.1);
            let counted = expired(deadline, timer.interval, time);
            &&& judged == (EmulationsView { due: judged.due, ..e })
            &&& !is_due ==> judged.due == e.due
            &&& is_due ==> {
                &&& judged.due.len() == e.due.len() + 1
                &&& judged.due.drop_last() == e.due
                &&& judged.due.last().fd == fd
                &&& judged.due.last().count == counted.0
                &&& judged.due.last().next == counted.1
            }
        }),
{
    let judged = e.judged(fd, now);
    if judged.due.len() == e.due.len() + 1 {
        assert(judged.due.drop_last() =~= e.due);
    }
}

/// The first expiration on the list is handed over through the handle of its timer.
pub proof fn expirations_are_handed_over(e: EmulationsView)
    requires
        e.due.len() > 0,
        e.write_ends.contains_key(e.due[0].fd),
    ensures
        asks(
            e.serves(),
            EmulationsView { due: e.due.skip(1), ..e },
            Action::Expire { handle: e.write_ends[e.due[0].fd], count: e.due[0].count },
        ),
        e.serves().1->Act_1 == (Pending::Serving { due: e.due[0] }),
{
    assert(e.due.skip(1) =~= e.due.drop_first());
}

/// A timer that is due and has no handle is given up, and the next one is seen to. Where
/// none is left the nearest deadline is looked for.
pub proof fn timers_without_handles_are_given_up(e: EmulationsView)
    ensures
        e.due.len() > 0 && !e.write_ends.contains_key(e.due[0].fd) ==> e.serves() == (
        EmulationsView {
            due: e.due.skip(1),
            timers: e.timers.remove(e.due[0].fd),
            ..e
        }).serves(),
        e.due.len() == 0 ==> e.serves() == e.arms(Rearm::Tick),
{
    if e.due.len() > 0 {
        assert(e.due.skip(1) =~= e.due.drop_first());
    }
}

/// The timer of `fd` has this deadline, where there is one, and all else is as in `e`.
pub open spec fn is_moved(
    after: EmulationsView,
    e: EmulationsView,
    fd: i64,
    deadline: Option<Time>,
) -> bool {
    after == if e.timers.contains_key(fd) {
        EmulationsView {
            timers: e.timers.insert(
                fd,
                Timer {
                    clockid: e.timers[fd].clockid,
                    deadline,
                    interval: e.timers[fd].interval,
                },
            ),
            ..e
        }
    } else {
        e
    }
}

/// The timer of `fd` is gone with its handle, which is there to be closed.
pub open spec fn is_dropped(after: EmulationsView, e: EmulationsView, fd: i64) -> bool {
    &&& after == (EmulationsView {
        timers: e.timers.remove(fd),
        write_ends: e.write_ends.remove(fd),
        released: after.released,
        ..e
    })
    &&& e.write_ends.contains_key(fd) ==> after.released == e.released.push(e.write_ends[fd])
    &&& !e.write_ends.contains_key(fd) ==> after.released == e.released
}

/// An expiration that was written in full moves the timer to its next deadline, and so does
/// one that could not be written for now, where there is a next deadline; where there is
/// none, it stays due. Any other failure means that nobody reads any more.
pub proof fn expirations_are_accounted_for(
    e: EmulationsView,
    pid: i32,
    due: Due,
    written: i64,
    errno: i32,
    k: Kernel,
)
    ensures
        ({
            let then = e.served(due, written, errno);
            &&& e.proceeds(
                pid,
                Pending::Serving { due },
                Event::Wrote { written, errno },
                k,
            ) == then.serves()
            &&& written == 8 ==> is_moved(then, e, due.fd, due.next)
            &&& written != 8 && (errno == 11 || errno == 4) && due.next is Some ==> is_moved(
                then,
                e,
                due.fd,
                due.next,
            )
            &&& written != 8 && (errno == 11 || errno == 4) && due.next is None ==> then == e
            &&& written != 8 && errno != 11 && errno != 4 ==> is_dropped(then, e, due.fd)
        }),
{
    reveal(EmulationsView::proceeds);
}

/// The tracer's timer is set in whole microseconds, but never to zero for a deadline, which
/// would turn it off; without a deadline it is turned off.
pub proof fn alarm_is_set_in_microseconds(seconds: i64, nanoseconds: i64)
    requires
        0 <= nanoseconds,
    ensures
        alarm_setting(None) == (0i64, 0i64),
        ({
            let (s, us) = alarm_setting(Some((seconds, nanoseconds)));
            &&& s == seconds
            &&& seconds != 0 || nanoseconds >= 1000 ==> us * 1000 <= nanoseconds < us * 1000 + 1000
            &&& seconds == 0 && nanoseconds < 1000 ==> us == 1
        }),
{
}

/// The clocks of the timers with a deadline are read in the order of their descriptors, and
/// what is left until the nearest deadline is kept. Where the clock cannot be read, it is
/// what was kept before.
pub proof fn nearest_deadline_is_kept(
    e: EmulationsView,
    fd: i64,
    soonest: Option<Time>,
    now: Option<Time>,
)
    ensures
        ({
            let left = difference(e.timers[fd].deadline->0, now->0);
            let found = e.timers.contains_key(fd) && e.timers[fd].deadline is Some && now is Some;
            let current = soonest->0;
            let sooner = soonest is None || left.0 < current.0 || left.0 == current.0 && left.1
                < current.1;
            let kept = e.nearer(fd, soonest, now);
            &&& found && sooner ==> kept == Some(left)
            &&& !found || !sooner ==> kept == soonest
        }),
{
}

/// The clock that is read for a timer is its own, both to look for what is due and to look
/// for the nearest deadline. The timer is the next one that has a deadline.
pub proof fn timers_are_read_by_their_clocks(
    e: EmulationsView,
    last: Option<i64>,
    soonest: Option<Time>,
    rearm: Rearm,
)
    ensures
        match e.arms_after(last, soonest, rearm).1 {
            Progress::Act(action, Pending::Arm { fd, soonest: kept, rearm: why }) => {
                &&& action == (Action::<Seq<u8>>::Clock { id: e.timers[fd].clockid })
                &&& is_next(e, last, fd)
                &&& kept == soonest && why == rearm
            },
            Progress::Act(action, Pending::Armed { rearm: why }) => {
                &&& action == (Action::<Seq<u8>>::SetTimer {
                    seconds: alarm_setting(soonest).0,
                    microseconds: alarm_setting(soonest).1,
                })
                &&& forall|fd: i64| !is_next(e, last, fd)
                &&& why == rearm
            },
            _ => false,
        },
        e.arms_after(last, soonest, rearm).0 == e,
        match e.looks_after(last).1 {
            Progress::Act(action, Pending::TickClock { fd }) => {
                &&& action == (Action::<Seq<u8>>::Clock { id: e.timers[fd].clockid })
                &&& is_next(e, last, fd)
                &&& e.looks_after(last).0 == e
            },
            _ => {
                &&& e.looks_after(last) == e.serves()
                &&& forall|fd: i64| !is_next(e, last, fd)
            },
        },
{
    serving_is_no_look(e);
    assert forall|fd: i64| is_next(e, last, fd) <==> is_next_armed(e.timers, last, fd) by {
        assert(forall|other: i64| has_deadline(e, other) <==> #[trigger] armed(e.timers, other));
        if is_next(e, last, fd) {
            assert forall|other: i64| #[trigger] armed(e.timers, other) && past(
                last,
                other,
            ) implies fd <= other by {
                assert(has_deadline(e, other));
            }
        }
        if is_next_armed(e.timers, last, fd) {
            assert forall|other: i64| #[trigger] has_deadline(e, other) && (last is Some
                ==> last->0 < other) implies fd <= other by {
                assert(armed(e.timers, other) && past(last, other));
            }
        }
    }
}

/// Handing expirations over is no look at the timers.
proof fn serving_is_no_look(e: EmulationsView)
    ensures
        !(e.serves().1 matches Progress::Act(_, Pending::TickClock { .. })),
    decreases e.due.len(),
{
    if e.due.len() > 0 && !e.write_ends.contains_key(e.due[0].fd) {
        let rest = EmulationsView { due: e.due.drop_first(), ..e };
        serving_is_no_look(EmulationsView { timers: rest.timers.remove(e.due[0].fd), ..rest });
    }
}

/// The timer of `fd` has a deadline.
pub open spec fn has_deadline(e: EmulationsView, fd: i64) -> bool {
    e.timers.contains_key(fd) && e.timers[fd].deadline is Some
}

/// `fd` is the least descriptor behind `last`, or of all, whose timer has a deadline.
pub open spec fn is_next(e: EmulationsView, last: Option<i64>, fd: i64) -> bool {
    &&& has_deadline(e, fd)
    &&& last is Some ==> last->0 < fd
    &&& forall|other: i64| #[trigger]
        has_deadline(e, other) && (last is Some ==> last->0 < other) ==> fd <= other
}

}
