//! The calls that are made for an eventfd and for a timerfd, whatever they return.

use vstd::prelude::*;
use crate::abi::{scratch, Call, Regs};
use crate::sequence::{
    first_cleanup, first_error, is_cleanup, is_error, started, steps, Outcome, Plan, SequenceView,
    Step, Turn, Which,
};

verus! {

/// A call with three arguments.
pub open spec fn call3(nr: u64, first: u64, second: u64, third: u64) -> Call {
    Call { nr, rdi: first, rsi: second, rdx: third, r10: 0, r8: 0, r9: 0 }
}

/// The process, at the exit of a call with the registers `at`, enters the kernel again for
/// the call `call`.
pub open spec fn enters_for(turn: Turn, at: Regs, gadget: u64, call: Call) -> bool {
    turn == Turn::More(
        Regs {
            rip: gadget,
            orig_rax: call.nr,
            rax: call.nr,
            rdi: call.rdi,
            rsi: call.rsi,
            rdx: call.rdx,
            r10: call.r10,
            r8: call.r8,
            r9: call.r9,
            ..at
        },
    )
}

/// The application gets its answer, and has all its other registers back.
pub open spec fn answers(turn: Turn, regs: Regs, answer: u64) -> bool {
    turn == Turn::Over(Regs { rax: answer, ..regs })
}

/// The call in flight is followed by `calls`, one after the other, for as long as each
/// succeeds. After the last one, or after one that failed, the application gets `answer`.
pub open spec fn makes(
    s: SequenceView,
    calls: Seq<Call>,
    regs: Regs,
    gadget: u64,
    answer: u64,
) -> bool
    decreases calls.len(),
{
    forall|rax: i64, at: Regs|
        {
            let (next, turn) = #[trigger] s.entered().returned(rax, at);
            if -4095 <= rax < 0 || calls.len() == 0 {
                -4095 <= rax ==> answers(turn, regs, answer)
            } else {
                rax >= 0 ==> enters_for(turn, at, gadget, calls[0]) && makes(
                    next,
                    calls.drop_first(),
                    regs,
                    gadget,
                    answer,
                )
            }
        }
}

/// The sequence has so far only succeeded, and no call in it is to be made after a failure.
spec fn is_smooth(s: SequenceView, regs: Regs, gadget: u64, answer: u64) -> bool {
    &&& s.saved == regs && s.gadget == gadget
    &&& s.results.len() > 0
    &&& forall|i: int| 0 <= i < s.results.len() ==> #[trigger] s.results[i] >= 0
    &&& match s.outcome {
        Outcome::Call(i) => i == 0 && s.results[0] as u64 == answer,
        Outcome::Adopted => s.fd >= 0 && s.fd as u64 == answer,
    }
    &&& forall|i: int| 0 <= i < s.queue.len() ==> !is_cleanup(#[trigger] s.queue[i])
}

/// Where nothing failed there is no first error.
proof fn no_error_is_first(results: Seq<i64>)
    requires
        forall|i: int| 0 <= i < results.len() ==> #[trigger] results[i] >= 0,
    ensures
        first_error(results) is None,
    decreases results.len(),
{
    if results.len() > 0 {
        assert forall|i: int| 0 <= i < results.len() - 1 implies #[trigger] results.drop_first()[i]
            >= 0 by {
            assert(results.drop_first()[i] == results[i + 1]);
        }
        no_error_is_first(results.drop_first());
    }
}

/// An error that follows successes is the first.
proof fn error_is_first(results: Seq<i64>, rax: i64)
    requires
        forall|i: int| 0 <= i < results.len() ==> #[trigger] results[i] >= 0,
        is_error(rax),
    ensures
        first_error(results.push(rax)) == Some(rax),
    decreases results.len(),
{
    let all = results.push(rax);
    if results.len() > 0 {
        assert(all[0] == results[0]);
        assert forall|i: int| 0 <= i < results.len() - 1 implies #[trigger] results.drop_first()[i]
            >= 0 by {
            assert(results.drop_first()[i] == results[i + 1]);
        }
        assert(all.drop_first() =~= results.drop_first().push(rax));
        error_is_first(results.drop_first(), rax);
    } else {
        assert(all[0] == rax);
    }
}

/// A queue without such a call has none that is made after a failure.
proof fn no_cleanup_is_first(queue: Seq<Step>)
    requires
        forall|i: int| 0 <= i < queue.len() ==> !is_cleanup(#[trigger] queue[i]),
    ensures
        first_cleanup(queue).0 is None,
    decreases queue.len(),
{
    if queue.len() > 0 {
        assert(!is_cleanup(queue[0]));
        assert forall|i: int| 0 <= i < queue.len() - 1 implies !is_cleanup(
            #[trigger] queue.drop_first()[i],
        ) by {
            assert(queue.drop_first()[i] == queue[i + 1]);
        }
        no_cleanup_is_first(queue.drop_first());
    }
}

/// A smooth sequence, whose queue is made of these calls, makes them.
#[verifier::spinoff_prover]
proof fn smooth_sequences_make(
    s: SequenceView,
    calls: Seq<Call>,
    regs: Regs,
    gadget: u64,
    answer: u64,
)
    requires
        is_smooth(s, regs, gadget, answer),
        calls.len() == s.queue.len(),
        forall|i: int| 0 <= i < calls.len() ==> s.call(#[trigger] s.queue[i]) == calls[i],
    ensures
        makes(s, calls, regs, gadget, answer),
    decreases calls.len(),
{
    assert forall|rax: i64, at: Regs|
        {
            let (next, turn) = #[trigger] s.entered().returned(rax, at);
            if -4095 <= rax < 0 || calls.len() == 0 {
                -4095 <= rax ==> answers(turn, regs, answer)
            } else {
                rax >= 0 ==> enters_for(turn, at, gadget, calls[0]) && makes(
                    next,
                    calls.drop_first(),
                    regs,
                    gadget,
                    answer,
                )
            }
        } by {
        let (next, turn) = s.entered().returned(rax, at);
        let results = s.results.push(rax);
        assert(results[0] == s.results[0]);
        if -4095 <= rax < 0 {
            error_is_first(s.results, rax);
            no_cleanup_is_first(s.queue);
        } else if rax >= 0 {
            assert forall|i: int| 0 <= i < results.len() implies #[trigger] results[i] >= 0 by {
                if i < s.results.len() {
                    assert(results[i] == s.results[i]);
                }
            }
            no_error_is_first(results);
            if calls.len() > 0 {
                assert(s.call(s.queue[0]) == calls[0]);
                assert forall|i: int| 0 <= i < next.queue.len() implies !is_cleanup(
                    #[trigger] next.queue[i],
                ) by {
                    assert(next.queue[i] == s.queue[i + 1]);
                }
                assert(is_smooth(next, regs, gadget, answer));
                assert forall|i: int| 0 <= i < calls.len() - 1 implies next.call(
                    #[trigger] next.queue[i],
                ) == calls.drop_first()[i] by {
                    assert(next.queue[i] == s.queue[i + 1]);
                    assert(s.call(s.queue[i + 1]) == calls[i + 1]);
                    same_descriptors_same_call(s, next, s.queue[i + 1]);
                }
                smooth_sequences_make(next, calls.drop_first(), regs, gadget, answer);
            }
        }
    }
}

/// A call depends on the descriptors alone.
proof fn same_descriptors_same_call(a: SequenceView, b: SequenceView, step: Step)
    requires
        a.fd == b.fd && a.read_end == b.read_end && a.write_end == b.write_end,
    ensures
        a.call(step) == b.call(step),
{
    assert(forall|w: Which| a.fd_of(w) == b.fd_of(w));
}

/// The calls behind the one that makes the socket of an eventfd.
pub open spec fn eventfd_calls(fd: u64, regs: Regs, length: u64) -> Seq<Call> {
    let space = scratch(regs.rsp);
    let value = if space < 0x1_0000_0000_0000_0000 - 256 {
        (space + 256) as u64
    } else {
        (space + 256 - 0x1_0000_0000_0000_0000) as u64
    };
    let always = seq![call3(49, fd, space, length), call3(42, fd, space, length)];
    let unblocked = if (regs.rsi / 0x800) % 2 == 1 {
        always.push(call3(72, fd, 4, 0x800))
    } else {
        always
    };
    if regs.rdi != 0 { unblocked.push(call3(1, fd, value, 8)) } else { unblocked }
}

/// The eventfd with any initial value and any flags is a datagram socket of the UNIX kind
/// that is bound to its address and then connected to that same address. With
/// `EFD_NONBLOCK` it does not block; an initial value that is not zero is written to it.
/// The answer is the socket, also where one of these later calls failed; without a socket it
/// is the error.
pub proof fn eventfd_is_a_connected_socket(
    regs: Regs,
    gadget: u64,
    length: u64,
    socket: i64,
    at: Regs,
)
    ensures
        ({
            let s0 = started(Plan::Eventfd { length }, regs, gadget);
            let (s1, turn) = s0.entered().returned(socket, at);
            let calls = eventfd_calls(socket as u64, regs, length);
            &&& s0.running is Some && s0.call(s0.running->0) == call3(41, 1, 2, 0)
            &&& -4095 <= socket < 0 ==> answers(turn, regs, socket as u64)
            &&& socket >= 0 ==> enters_for(turn, at, gadget, calls[0]) && makes(
                s1,
                calls.drop_first(),
                regs,
                gadget,
                socket as u64,
            )
        }),
{
    let s0 = started(Plan::Eventfd { length }, regs, gadget);
    let (s1, turn) = s0.entered().returned(socket, at);
    let flags = regs.rsi;
    assert(flags & 0x800 != 0 <==> (flags / 0x800) % 2 == 1) by (bit_vector);
    let calls = eventfd_calls(socket as u64, regs, length);
    let results = s0.results.push(socket);
    assert(results[0] == socket);
    if -4095 <= socket < 0 {
        error_is_first(s0.results, socket);
    } else if socket >= 0 {
        no_error_is_first(results);
        let queue = steps(Plan::Eventfd { length }, regs);
        assert(s1.queue =~= queue.skip(2));
        assert(calls.len() == queue.len() - 1);
        assert forall|i: int| 0 <= i < calls.len() - 1 implies s1.call(#[trigger] s1.queue[i])
            == calls.drop_first()[i] by {
            assert(s1.queue[i] == queue[i + 2]);
            assert(calls.drop_first()[i] == calls[i + 1]);
        }
        smooth_sequences_make(s1, calls.drop_first(), regs, gadget, socket as u64);
    }
}

/// The timerfd is the read end of a pipe whose write end is closed in the process. With
/// `TFD_NONBLOCK` it does not block. The answer is the read end, also where one of these
/// later calls failed; without a pipe it is the error.
pub proof fn timerfd_is_the_read_end_of_a_pipe(
    regs: Regs,
    gadget: u64,
    clockid: i32,
    made: i64,
    read_end: i64,
    write_end: i64,
    at: Regs,
)
    requires
        read_end >= 0,
    ensures
        ({
            let s0 = started(Plan::TimerfdCreate { clockid }, regs, gadget);
            let (over, error) = s0.entered().returned(made, at);
            let (s1, turn) = s0.entered().collected(made).piped(read_end, write_end).advanced(at);
            let rest = if (regs.rsi / 0x800) % 2 == 1 {
                seq![call3(72, read_end as u64, 4, 0x800)]
            } else {
                seq![]
            };
            &&& s0.running == Some(Step::Pipe { buffer: scratch(regs.rsp) })
            &&& s0.call(s0.running->0) == call3(22, scratch(regs.rsp), 0, 0)
            &&& s0.clockid == clockid
            &&& -4095 <= made < 0 ==> answers(error, regs, made as u64)
            &&& made >= 0 ==> enters_for(turn, at, gadget, call3(3, write_end as u64, 0, 0))
                && makes(s1, rest, regs, gadget, read_end as u64)
        }),
{
    let s0 = started(Plan::TimerfdCreate { clockid }, regs, gadget);
    let collected = s0.entered().collected(made).piped(read_end, write_end);
    let (s1, turn) = collected.advanced(at);
    let flags = regs.rsi;
    assert(flags & 0x800 != 0 <==> (flags / 0x800) % 2 == 1) by (bit_vector);
    let results = s0.results.push(made);
    assert(results[0] == made);
    if -4095 <= made < 0 {
        error_is_first(s0.results, made);
    } else if made >= 0 {
        no_error_is_first(results);
        let rest = if (regs.rsi / 0x800) % 2 == 1 {
            seq![call3(72, read_end as u64, 4, 0x800)]
        } else {
            seq![]
        };
        let queue = steps(Plan::TimerfdCreate { clockid }, regs);
        assert(s1.queue =~= queue.skip(2));
        assert forall|i: int| 0 <= i < rest.len() implies s1.call(#[trigger] s1.queue[i])
            == rest[i] by {
            assert(s1.queue[i] == queue[i + 2]);
        }
        smooth_sequences_make(s1, rest, regs, gadget, read_end as u64);
    }
}

/// A pipe that was made but could not be captured leads to no further call, and to the
/// error `EIO`.
pub proof fn lost_pipe_is_an_error(regs: Regs, gadget: u64, clockid: i32, made: i64, at: Regs)
    requires
        made >= 0,
    ensures
        ({
            let s0 = started(Plan::TimerfdCreate { clockid }, regs, gadget);
            let (s1, turn) = s0.entered().collected(made).noted(-5i64).advanced(at);
            answers(turn, regs, (0x1_0000_0000_0000_0000 - 5) as u64)
        }),
{
    let s0 = started(Plan::TimerfdCreate { clockid }, regs, gadget);
    let s1 = s0.entered().collected(made).noted(-5i64);
    assert(s0.results.push(made)[0] == made);
    error_is_first(s0.results.push(made), -5i64);
    assert(-5i64 as u64 == 0xffff_ffff_ffff_fffb) by (bit_vector);
    let queue = steps(Plan::TimerfdCreate { clockid }, regs);
    assert(s1.queue =~= queue.drop_first());
    no_cleanup_is_first(s1.queue);
}

/// The results that are errors are the negatives of the numbers from 1 to 4095.
pub proof fn errors_are_small_negatives(rc: i64)
    ensures
        is_error(rc) <==> 1 <= -rc <= 4095,
{
}

/// The first call of a sequence is in flight when it starts, so the next stop is the exit of
/// that call. Every later call stops at its entry first, and then at its exit. All along, the
/// registers that the application had and the instruction that enters the kernel are kept.
pub proof fn calls_stop_at_entry_and_exit(
    plan: Plan,
    regs: Regs,
    gadget: u64,
    s: SequenceView,
    rax: i64,
    at: Regs,
)
    ensures
        !started(plan, regs, gadget).at_entry,
        started(plan, regs, gadget).saved == regs,
        started(plan, regs, gadget).gadget == gadget,
        started(plan, regs, gadget).results.len() == 0,
        !s.entered().at_entry,
        !s.at_entry ==> s.entered() == s,
        ({
            let (next, turn) = s.returned(rax, at);
            &&& turn is More ==> next.at_entry && next.running is Some
            &&& next.saved == s.saved && next.gadget == s.gadget
            &&& next.results == s.results.push(rax)
        }),
{
}

}
