//! Which calls are taken over by an emulation, and how each begins.

use vstd::prelude::*;
use crate::abi::{
    scratch, Regs, CS_64, SYS_CLOSE, SYS_EPOLL_PWAIT, SYS_EVENTFD, SYS_EVENTFD2, SYS_FCNTL,
    SYS_PREADV, SYS_PWRITEV, SYS_TIMERFD_CREATE, SYS_TIMERFD_GETTIME, SYS_TIMERFD_SETTIME,
};
use crate::bytes::le64_bytes;
use crate::decimal::digits;
use crate::emulated_syscalls::{
    ends_in, eventfd_address, Active, EmulationsView, Pending, Progress, Timer,
};
use crate::kernel::Kernel;
use crate::protocol::{Action, Event};
use crate::sequence::{started, Plan, SequenceView, Step, Turn};
use crate::timer_laws::{
    after, asks, entry_is_next, is_dropped, is_over, is_refused, offered, Come,
};
use crate::translation_laws::{clock_instead_of, is_before};

verus! {

/// The call is one that is made of older calls, by `plan`.
pub open spec fn is_planned(regs: Regs, plan: Plan, k: Kernel) -> bool {
    let nr = regs.orig_rax;
    ||| nr == SYS_TIMERFD_CREATE && k.timerfd_missing && plan == (Plan::TimerfdCreate {
        clockid: clock_instead_of(regs.rdi, k) as i32,
    })
    ||| nr == SYS_FCNTL && regs.rsi == 1030 && is_before(k, 2, 6, 24) && plan == Plan::DupfdCloexec
    ||| nr == SYS_PWRITEV && is_before(k, 2, 6, 30) && plan == (Plan::VectorIo { write: true })
    ||| nr == SYS_PREADV && is_before(k, 2, 6, 30) && plan == (Plan::VectorIo { write: false })
    ||| nr == SYS_EPOLL_PWAIT && is_before(k, 2, 6, 19) && plan == Plan::EpollPwait
}

/// The call is an `eventfd` that is made of a socket.
pub open spec fn is_eventfd(regs: Regs, k: Kernel) -> bool {
    &&& regs.orig_rax == SYS_EVENTFD || regs.orig_rax == SYS_EVENTFD2
    &&& k.eventfd_missing
    &&& regs.rdi < 0x1_0000_0000
}

/// The call is about a timer that is emulated.
pub open spec fn is_on_timer(e: EmulationsView, regs: Regs) -> bool {
    &&& regs.orig_rax == SYS_TIMERFD_SETTIME || regs.orig_rax == SYS_TIMERFD_GETTIME
    &&& e.timers.contains_key(regs.rdi as i64)
}

/// Only the calls that the kernel lacks, and those on timers that are emulated, are taken
/// over. Closing a descriptor gives up the timer that it has, and is left to the kernel as
/// every other call is.
pub proof fn other_calls_are_not_taken_over(e: EmulationsView, pid: i32, regs: Regs, k: Kernel)
    ensures
        ({
            let r = offered(e, pid, regs, k);
            let planned = exists|plan: Plan| is_planned(regs, plan, k);
            &&& regs.cs != CS_64 ==> is_refused(r, e)
            &&& regs.cs == CS_64 && regs.orig_rax == SYS_CLOSE ==> is_dropped(
                r.0,
                e,
                regs.rdi as i64,
            ) && r.1 == Progress::<Seq<u8>>::Done(false)
            &&& regs.orig_rax != SYS_CLOSE && !planned && !is_eventfd(regs, k) && !is_on_timer(
                e,
                regs,
            ) ==> is_refused(r, e)
        }),
        is_refused(e.proceeds(pid, Pending::Entry, Event::Failed, k), e),
        asks(e.begins(pid, true), e, Action::GetRegs { pid }),
        e.begins(pid, true).1->Act_1 == Pending::Entry,
        is_refused(e.begins(pid, false), e),
{
    reveal(EmulationsView::proceeds);
    let created = Plan::TimerfdCreate { clockid: clock_instead_of(regs.rdi, k) as i32 };
    if !(exists|plan: Plan| is_planned(regs, plan, k)) {
        assert(!is_planned(regs, created, k));
        assert(!is_planned(regs, Plan::DupfdCloexec, k));
        assert(!is_planned(regs, Plan::VectorIo { write: true }, k));
        assert(!is_planned(regs, Plan::VectorIo { write: false }, k));
        assert(!is_planned(regs, Plan::EpollPwait, k));
    }
}

/// Where the instruction stands that made the call: two bytes before the one that follows.
pub open spec fn instruction_of(regs: Regs) -> u64 {
    if regs.rip >= 2 { (regs.rip - 2) as u64 } else { (regs.rip + 0xffff_ffff_ffff_fffe) as u64 }
}

/// The word begins with the bytes of `syscall`, 0f 05, or with those of `int 0x80`, cd 80.
pub open spec fn is_entry(word: u64) -> bool {
    ||| word % 256 == 0x0f && (word / 256) % 256 == 0x05
    ||| word % 256 == 0xcd && (word / 256) % 256 == 0x80
}

/// These are the words that enter the kernel.
proof fn entries_enter_kernel(word: u64)
    ensures
        is_entry(word) <==> crate::emulated_syscalls::enters_kernel(word),
{
    assert((word % 256 == 0x0f && (word / 256) % 256 == 0x05 || word % 256 == 0xcd && (word / 256)
        % 256 == 0x80) <==> (word % 0x1_0000 == 0x050f || word % 0x1_0000 == 0x80cd))
        by (bit_vector);
}

/// The registers with which the first call of a plan is made in place of the call in `regs`.
pub open spec fn first_call(regs: Regs, plan: Plan) -> Regs {
    let space = scratch(regs.rsp);
    let bare = Regs { rsi: 0, rdx: 0, r10: 0, r8: 0, r9: 0, ..regs };
    match plan {
        Plan::EpollPwait => Regs {
            orig_rax: 14,
            rax: 14,
            rdi: 2,
            rsi: regs.r8,
            rdx: space,
            r10: 8,
            ..bare
        },
        Plan::VectorIo { .. } => Regs { orig_rax: 8, rax: 8, rsi: regs.r10, ..bare },
        Plan::DupfdCloexec => Regs { orig_rax: 72, rax: 72, rdx: regs.rdx, ..bare },
        Plan::Eventfd { .. } => Regs { orig_rax: 41, rax: 41, rdi: 1, rsi: 2, ..bare },
        Plan::TimerfdCreate { .. } => Regs { orig_rax: 22, rax: 22, rdi: space, ..bare },
    }
}

/// The plan is put into action, from `r` on: its first call is made in place of the one in
/// `regs`, and then the process is in the sequence of the plan. Where the registers cannot
/// be written the call is left to the kernel.
pub open spec fn is_launched(
    r: Come,
    e: EmulationsView,
    pid: i32,
    regs: Regs,
    plan: Plan,
    k: Kernel,
) -> bool {
    let running = Active::Sequence(started(plan, regs, instruction_of(regs)));
    &&& asks(r, e, Action::SetRegs { pid, regs: first_call(regs, plan) })
    &&& is_over(
        after(r, pid, Event::Done, k),
        EmulationsView { active: e.active.insert(pid, running), ..e },
    )
    &&& is_refused(after(r, pid, Event::Failed, k), e)
}

/// A plan is launched as it should.
proof fn plans_are_launched(e: EmulationsView, pid: i32, regs: Regs, plan: Plan, k: Kernel)
    ensures
        is_launched(
            e.launches(pid, regs, instruction_of(regs), plan),
            e,
            pid,
            regs,
            plan,
            k,
        ),
{
    reveal(EmulationsView::proceeds);
    let offset = regs.r10;
    assert((offset as i64) as u64 == offset) by (bit_vector);
    let gadget = instruction_of(regs);
    let r = e.launches(pid, regs, gadget, plan);
    assert(r.1->Act_1 == Pending::Start { regs, gadget, plan });
}

/// A call that is made of older calls has the instruction looked at that made it. Where
/// that enters the kernel the plan is put into action; otherwise, and where it cannot be
/// read, the call is left to the kernel.
pub proof fn planned_calls_are_taken_over(
    e: EmulationsView,
    pid: i32,
    regs: Regs,
    plan: Plan,
    word: u64,
    k: Kernel,
)
    requires
        regs.cs == CS_64,
        is_planned(regs, plan, k),
    ensures
        ({
            let r0 = offered(e, pid, regs, k);
            let r1 = after(r0, pid, Event::Word(word), k);
            &&& asks(r0, e, Action::Peek { pid, addr: instruction_of(regs) })
            &&& is_refused(after(r0, pid, Event::Failed, k), e)
            &&& is_entry(word) ==> is_launched(r1, e, pid, regs, plan, k)
            &&& !is_entry(word) ==> is_refused(r1, e)
        }),
{
    reveal(EmulationsView::proceeds);
    entries_enter_kernel(word);
    plans_are_launched(e, pid, regs, plan, k);
    let r0 = offered(e, pid, regs, k);
    assert(r0.1->Act_1 == Pending::Gadget { regs, plan });
}

/// The address of the socket for an eventfd: the UNIX family, a NUL, and the name
/// `sharun-efd-` with the process and the number of the eventfd.
pub open spec fn socket_name(pid: i32, number: u64) -> Seq<u8> {
    let sign = if pid < 0 { seq![45u8] } else { Seq::empty() };
    let magnitude = if pid < 0 { -pid } else { pid as int };
    seq![1u8, 0, 0, 115, 104, 97, 114, 117, 110, 45, 101, 102, 100, 45] + sign + digits(
        magnitude as nat,
    ) + seq![45u8] + digits(number as nat)
}

/// An `eventfd` has the instruction looked at that made it. Where that enters the kernel,
/// the address of its socket is put into scratch space, its number is used up, and an
/// initial value that is not zero is put 256 bytes behind. Then the plan is put into action.
/// Where any of this fails, the call is left to the kernel.
pub proof fn eventfds_are_taken_over(
    e: EmulationsView,
    pid: i32,
    regs: Regs,
    word: u64,
    k: Kernel,
)
    requires
        regs.cs == CS_64,
        is_eventfd(regs, k),
    ensures
        ({
            let r0 = offered(e, pid, regs, k);
            let r1 = after(r0, pid, Event::Word(word), k);
            let r2 = after(r1, pid, Event::Done, k);
            let r3 = after(r2, pid, Event::Done, k);
            let space = scratch(regs.rsp);
            let behind = if space < 0xffff_ffff_ffff_ff00 {
                (space + 256) as u64
            } else {
                (space - 0xffff_ffff_ffff_ff00) as u64
            };
            let name = socket_name(pid, e.sequence);
            let number = if e.sequence < u64::MAX { (e.sequence + 1) as u64 } else { 0 };
            let used = EmulationsView { sequence: number, ..e };
            let plan = Plan::Eventfd { length: name.len() as u64 };
            &&& asks(r0, e, Action::Peek { pid, addr: instruction_of(regs) })
            &&& is_refused(after(r0, pid, Event::Failed, k), e)
            &&& !is_entry(word) ==> is_refused(r1, e)
            &&& is_entry(word) ==> {
                &&& asks(r1, used, Action::Write { pid, addr: space, bytes: name })
                &&& is_refused(after(r1, pid, Event::Failed, k), used)
                &&& if regs.rdi == 0 {
                    is_launched(r2, used, pid, regs, plan, k)
                } else {
                    &&& asks(
                        r2,
                        used,
                        Action::Write { pid, addr: behind, bytes: le64_bytes(regs.rdi) },
                    )
                    &&& is_refused(after(r2, pid, Event::Failed, k), used)
                    &&& is_launched(r3, used, pid, regs, plan, k)
                }
            }
        }),
{
    entries_enter_kernel(word);
    let name = socket_name(pid, e.sequence);
    assert(eventfd_address(pid, e.sequence) =~= name);
    let number = if e.sequence < u64::MAX { (e.sequence + 1) as u64 } else { 0 };
    let used = EmulationsView { sequence: number, ..e };
    let plan = Plan::Eventfd { length: name.len() as u64 };
    let gadget = instruction_of(regs);
    let length = name.len() as u64;
    plans_are_launched(used, pid, regs, plan, k);
    entry_is_next(e, pid, Event::Regs(regs), k);
    eventfd_gadget_is_next(e, pid, regs, Event::Word(word), k);
    eventfd_gadget_is_next(e, pid, regs, Event::Failed, k);
    eventfd_address_is_next(used, pid, regs, gadget, length, Event::Done, k);
    eventfd_address_is_next(used, pid, regs, gadget, length, Event::Failed, k);
    let r0 = offered(e, pid, regs, k);
    assert(r0.1->Act_1 == Pending::EventfdGadget { regs });
    if is_entry(word) {
        let r1 = after(r0, pid, Event::Word(word), k);
        assert(r1.0 == used);
        assert(r1.1->Act_1 == Pending::EventfdAddress { regs, gadget, length });
    }
}

/// What follows the instruction that made an eventfd call.
proof fn eventfd_gadget_is_next(
    e: EmulationsView,
    pid: i32,
    regs: Regs,
    event: Event<Seq<u8>>,
    k: Kernel,
)
    ensures
        ({
            let r = e.proceeds(pid, Pending::EventfdGadget { regs }, event, k);
            match event {
                Event::Word(word) if crate::emulated_syscalls::enters_kernel(word) => r
                    == e.names_eventfd(pid, regs, instruction_of(regs)),
                _ => is_refused(r, e),
            }
        }),
{
    reveal(EmulationsView::proceeds);
}

/// What follows the address of the socket of an eventfd, and its initial value.
proof fn eventfd_address_is_next(
    e: EmulationsView,
    pid: i32,
    regs: Regs,
    gadget: u64,
    length: u64,
    event: Event<Seq<u8>>,
    k: Kernel,
)
    ensures
        ({
            let r = e.proceeds(pid, Pending::EventfdAddress { regs, gadget, length }, event, k);
            let then = e.proceeds(pid, Pending::EventfdInitial { regs, gadget, length }, event, k);
            let plan = Plan::Eventfd { length };
            let space = scratch(regs.rsp);
            &&& event !is Done ==> is_refused(r, e) && is_refused(then, e)
            &&& event is Done ==> then == e.launches(pid, regs, gadget, plan)
            &&& event is Done && regs.rdi == 0 ==> r == e.launches(pid, regs, gadget, plan)
            &&& event is Done && regs.rdi != 0 ==> asks(
                r,
                e,
                Action::Write {
                    pid,
                    addr: space.wrapping_add(256),
                    bytes: le64_bytes(regs.rdi),
                },
            ) && r.1->Act_1 == (Pending::EventfdInitial { regs, gadget, length })
        }),
{
    reveal(EmulationsView::proceeds);
}

/// The stops of a process in a sequence are the entry and the exit of its calls. At an
/// entry it runs on; at an exit, with the registers `at`, it goes on as the sequence says
/// for what the call returned. With the answer the emulation is over. A process whose
/// registers cannot be read is given up.
pub proof fn sequences_go_on(e: EmulationsView, pid: i32, s: SequenceView, at: Regs, k: Kernel)
    requires
        e.active.contains_key(pid) && e.active[pid] == Active::Sequence(s),
    ensures
        ({
            let r0 = e.stepped(pid);
            let r1 = after(r0, pid, Event::Regs(at), k);
            let (next, turn) = s.returned(at.rax as i64, at);
            let free = EmulationsView { active: e.active.remove(pid), ..e };
            if s.at_entry {
                is_over(
                    r0,
                    EmulationsView {
                        active: e.active.insert(pid, Active::Sequence(s.entered())),
                        ..e
                    },
                )
            } else {
                &&& asks(r0, e, Action::GetRegs { pid })
                &&& is_over(after(r0, pid, Event::Failed, k), free)
                &&& !(s.running matches Some(Step::Pipe { buffer })) ==> match turn {
                    Turn::More(made) => {
                        let running = EmulationsView {
                            active: e.active.insert(pid, Active::Sequence(next)),
                            ..e
                        };
                        &&& asks(r1, running, Action::SetRegs { pid, regs: made })
                        &&& is_over(after(r1, pid, Event::Done, k), running)
                        &&& is_over(after(r1, pid, Event::Failed, k), running)
                    },
                    Turn::Over(made) => {
                        &&& asks(r1, free, Action::SetRegs { pid, regs: made })
                        &&& is_over(after(r1, pid, Event::Done, k), free)
                        &&& is_over(after(r1, pid, Event::Failed, k), free)
                    },
                }
            }
        }),
{
    reveal(EmulationsView::proceeds);
}

/// A number of thirty-two bits as a signed one.
pub open spec fn signed(n: u32) -> i64 {
    if n < 0x8000_0000 { n as i64 } else { (n - 0x1_0000_0000) as i64 }
}

/// The pipe of a timerfd has its two ends read from scratch space, and its write end opened
/// by the tracer. Then there is a timer for the read end, without a deadline, on the clock
/// that was asked for, and the sequence goes on; any timer that was there before is given up.
pub proof fn pipes_become_timers(
    e: EmulationsView,
    pid: i32,
    s: SequenceView,
    buffer: u64,
    at: Regs,
    ends: Seq<u8>,
    handle: i32,
    k: Kernel,
)
    requires
        e.active.contains_key(pid) && e.active[pid] == Active::Sequence(s),
        !s.at_entry && s.running == Some(Step::Pipe { buffer }),
        !(-4095 <= at.rax as i64 && (at.rax as i64) < 0),
        ends.len() == 8,
    ensures
        ({
            let r0 = after(e.stepped(pid), pid, Event::Regs(at), k);
            let r1 = after(r0, pid, Event::Bytes(ends), k);
            let r2 = after(r1, pid, Event::Handle(handle), k);
            let read_end = signed(crate::bytes::le32(ends, 0));
            let write_end = signed(crate::bytes::le32(ends, 4));
            let collected = s.collected(at.rax as i64);
            let kept = EmulationsView {
                active: e.active.insert(pid, Active::Sequence(collected)),
                ..e
            };
            let timer = Timer { clockid: s.clockid, deadline: None, interval: (0i64, 0i64) };
            let (next, turn) = collected.piped(read_end, write_end).advanced(at);
            let (lost, error) = collected.noted(-5i64).advanced(at);
            &&& asks(r0, kept, Action::Read { pid, addr: buffer, len: 8 })
            &&& asks(r1, kept, Action::OpenPipe { pid, fd: write_end })
            &&& turn matches Turn::More(made) ==> {
                &&& r2.1 is Act && r2.1->Act_0 == (Action::<Seq<u8>>::SetRegs { pid, regs: made })
                &&& r2.0 == (EmulationsView {
                    active: e.active.insert(pid, Active::Sequence(next)),
                    timers: e.timers.insert(read_end, timer),
                    write_ends: e.write_ends.insert(read_end, handle),
                    released: if e.write_ends.contains_key(read_end) {
                        e.released.push(e.write_ends[read_end])
                    } else {
                        e.released
                    },
                    ..e
                })
            }
            &&& error matches Turn::Over(made) ==> {
                let free = EmulationsView { active: e.active.remove(pid), ..e };
                &&& asks(
                    after(r0, pid, Event::Failed, k),
                    free,
                    Action::SetRegs { pid, regs: made },
                )
                &&& asks(
                    after(r1, pid, Event::Failed, k),
                    free,
                    Action::SetRegs { pid, regs: made },
                )
            }
        }),
{
    reveal(EmulationsView::proceeds);
    let first = crate::bytes::le32(ends, 0);
    let second = crate::bytes::le32(ends, 4);
    assert((first as i32) as i64 == if first < 0x8000_0000 {
        first as i64
    } else {
        (first - 0x1_0000_0000) as i64
    }) by (bit_vector);
    assert((second as i32) as i64 == if second < 0x8000_0000 {
        second as i64
    } else {
        (second - 0x1_0000_0000) as i64
    }) by (bit_vector);
    assert(ends_in(ends) == (signed(first), signed(second)));
    let collected = s.collected(at.rax as i64);
    let kept = EmulationsView {
        active: e.active.insert(pid, Active::Sequence(collected)),
        ..e
    };
    let read_end = signed(first);
    let write_end = signed(second);
    let r0 = after(e.stepped(pid), pid, Event::Regs(at), k);
    assert(r0.0 == kept);
    assert(r0.1->Act_1 == Pending::PipeRead { regs: at });
    let r1 = after(r0, pid, Event::Bytes(ends), k);
    assert(r1.1->Act_1 == Pending::PipeOpen { regs: at, read_end, write_end });
    let timer = Timer { clockid: s.clockid, deadline: None, interval: (0i64, 0i64) };
    assert(e.timers.remove(read_end).insert(read_end, timer) =~= e.timers.insert(read_end, timer));
    assert(e.write_ends.remove(read_end).insert(read_end, handle) =~= e.write_ends.insert(
        read_end,
        handle,
    ));
    let (next, turn) = collected.piped(read_end, write_end).advanced(at);
    assert(kept.active.insert(pid, Active::Sequence(next)) =~= e.active.insert(
        pid,
        Active::Sequence(next),
    ));
    assert(kept.active.remove(pid) =~= e.active.remove(pid));
}

}
