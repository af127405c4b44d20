//! Sequences of calls made inside a traced process to answer one call of its own.
//!
//! At the entry stop of the emulated call the registers are rewritten into the
//! first call of the sequence; the calls after that are entered by resuming at
//! the `syscall` instruction that the process just executed, so it never runs
//! application code in between and its stack is left alone.

use std::collections::VecDeque;
use vstd::prelude::*;
use crate::abi::{
    calling, scratch, scratch_below, with_call, Call, Regs, AF_UNIX, EINVAL, FD_CLOEXEC, F_DUPFD,
    F_SETFD, F_SETFL, O_NONBLOCK, SEEK_SET, SIG_SETMASK, SOCK_DGRAM, SYS_BIND, SYS_CLOSE,
    SYS_CONNECT, SYS_EPOLL_WAIT, SYS_FCNTL, SYS_LSEEK, SYS_PIPE, SYS_READV, SYS_RT_SIGPROCMASK,
    SYS_SOCKET, SYS_WRITE, SYS_WRITEV,
};

verus! {

/// `EFD_CLOEXEC`/`TFD_CLOEXEC` and `EFD_SEMAPHORE` are deliberately not
/// honoured: nothing on this path execs, and semaphore mode only changes what a
/// reader of a *counted* eventfd sees, which the socket in its place is not.
pub const EFD_NONBLOCK: u64 = 0x800;
pub const TFD_NONBLOCK: u64 = 0x800;

/// Which descriptor of the emulation a call refers to, for the steps that need
/// one that an earlier call produced.
#[derive(Clone, Copy, Debug, PartialEq, Eq, Structural)]
pub enum Which {
    /// The emulated descriptor itself: eventfd's socket, timerfd's read end.
    Result,
    ReadEnd,
    WriteEnd,
}

/// One call of a sequence. Steps that need a descriptor from an earlier call
/// name it rather than carrying a value.
#[derive(Clone, Copy, Debug, PartialEq, Eq, Structural)]
#[allow(inconsistent_fields)]
pub enum Step {
    Socket,
    Pipe { buffer: u64 },
    Attach { fd: Which, addr: u64, length: u64, connect: bool },
    Nonblock { fd: Which },
    WriteInitial { fd: Which, buffer: u64 },
    Close { fd: Which },
    /// `fcntl(fd, F_DUPFD, minimum)` on a descriptor of the process.
    FcntlDupfd { fd: u64, minimum: u64 },
    /// `fcntl(fd, F_SETFD, FD_CLOEXEC)` on the descriptor an earlier call returned.
    FcntlCloexec { fd: Which },
    /// `lseek(fd, offset, SEEK_SET)`: the offset half of a `pwritev` or `preadv`.
    Lseek { fd: u64, offset: i64 },
    /// `writev` or `readv`: the data half.
    VectorIo { write: bool, fd: u64, iov: u64, count: u64 },
    /// `rt_sigprocmask(SIG_SETMASK, mask, saved, 8)`. One marked `always` is made
    /// even after an earlier call has failed, so that a failed wait cannot leave
    /// the caller with the mask that the wait installed.
    Sigprocmask { mask: u64, saved: u64, always: bool },
    EpollWait { epfd: u64, events: u64, maxevents: u64, timeout: u64 },
}

/// What answers the emulated call.
#[derive(Clone, Copy, Debug, PartialEq, Eq, Structural)]
pub enum Outcome {
    /// The value that this one of the calls returned.
    Call(usize),
    /// The descriptor that the emulation adopted.
    Adopted,
}

/// The emulations that are sequences.
#[derive(Clone, Copy, Debug, PartialEq, Eq, Structural)]
pub enum Plan {
    EpollPwait,
    VectorIo { write: bool },
    DupfdCloexec,
    /// `length` is that of the socket address in scratch space.
    Eventfd { length: u64 },
    TimerfdCreate { clockid: i32 },
}

/// A sequence in progress. `Q` holds the calls still to make, `R` what the calls
/// so far returned.
pub struct Sequence<Q, R> {
    /// Registers as they were at the entry stop of the emulated call, so the
    /// process resumes where it left off with only the result replaced.
    pub saved: Regs,
    /// The `syscall` instruction to re-enter the kernel with.
    pub gadget: u64,
    pub queue: Q,
    /// The call in flight, whose result the next exit stop collects.
    pub running: Option<Step>,
    /// True while the next stop is that call's entry.
    pub at_entry: bool,
    pub results: R,
    pub outcome: Outcome,
    pub fd: i64,
    pub read_end: i64,
    pub write_end: i64,
    /// Clock the timerfd being created counts in.
    pub clockid: i32,
}

/// A sequence as it runs.
pub type Running = Sequence<VecDeque<Step>, Vec<i64>>;

/// A sequence as contracts speak of it.
pub type SequenceView = Sequence<Seq<Step>, Seq<i64>>;

/// What a finished call leads to.
#[derive(Clone, Copy, Debug, PartialEq, Eq, Structural)]
pub enum Turn {
    /// These registers make the next call.
    More(Regs),
    /// These registers give the application its answer.
    Over(Regs),
}

impl View for Running {
    type V = SequenceView;

    open spec fn view(&self) -> SequenceView {
        Sequence {
            saved: self.saved,
            gadget: self.gadget,
            queue: self.queue@,
            running: self.running,
            at_entry: self.at_entry,
            results: self.results@,
            outcome: self.outcome,
            fd: self.fd,
            read_end: self.read_end,
            write_end: self.write_end,
            clockid: self.clockid,
        }
    }
}

/// The calls of a plan, in order.
pub open spec fn steps(plan: Plan, regs: Regs) -> Seq<Step> {
    let space = scratch(regs.rsp);
    match plan {
        Plan::EpollPwait => seq![
            Step::Sigprocmask { mask: regs.r8, saved: space, always: false },
            Step::EpollWait {
                epfd: regs.rdi,
                events: regs.rsi,
                maxevents: regs.rdx,
                timeout: regs.r10,
            },
            Step::Sigprocmask { mask: space, saved: 0, always: true },
        ],
        Plan::VectorIo { write } => seq![
            Step::Lseek { fd: regs.rdi, offset: regs.r10 as i64 },
            Step::VectorIo { write, fd: regs.rdi, iov: regs.rsi, count: regs.rdx },
        ],
        Plan::DupfdCloexec => seq![
            Step::FcntlDupfd { fd: regs.rdi, minimum: regs.rdx },
            Step::FcntlCloexec { fd: Which::Result },
        ],
        Plan::Eventfd { length } => seq![
            Step::Socket,
            Step::Attach { fd: Which::Result, addr: space, length, connect: false },
            Step::Attach { fd: Which::Result, addr: space, length, connect: true },
        ] + (if regs.rsi & EFD_NONBLOCK != 0 {
            seq![Step::Nonblock { fd: Which::Result }]
        } else {
            seq![]
        }) + (if regs.rdi != 0 {
            seq![Step::WriteInitial { fd: Which::Result, buffer: space.wrapping_add(256) }]
        } else {
            seq![]
        }),
        Plan::TimerfdCreate { clockid } => seq![
            Step::Pipe { buffer: space },
            Step::Close { fd: Which::WriteEnd },
        ] + (if regs.rsi & TFD_NONBLOCK != 0 {
            seq![Step::Nonblock { fd: Which::ReadEnd }]
        } else {
            seq![]
        }),
    }
}

/// What answers the call that a plan emulates.
pub open spec fn outcome(plan: Plan) -> Outcome {
    match plan {
        Plan::EpollPwait => Outcome::Call(1),
        Plan::VectorIo { .. } => Outcome::Call(1),
        Plan::DupfdCloexec => Outcome::Call(0),
        Plan::Eventfd { .. } => Outcome::Call(0),
        Plan::TimerfdCreate { .. } => Outcome::Adopted,
    }
}

/// The clock of the timer that a plan creates.
pub open spec fn clock(plan: Plan) -> i32 {
    match plan {
        Plan::TimerfdCreate { clockid } => clockid,
        _ => 0,
    }
}

/// The sequence of a plan, its first call in flight.
pub open spec fn started(plan: Plan, regs: Regs, gadget: u64) -> SequenceView {
    Sequence {
        saved: regs,
        gadget,
        queue: steps(plan, regs).drop_first(),
        running: Some(steps(plan, regs)[0]),
        at_entry: false,
        results: Seq::empty(),
        outcome: outcome(plan),
        fd: -1i64,
        read_end: -1i64,
        write_end: -1i64,
        clockid: clock(plan),
    }
}

impl SequenceView {
    /// The descriptor that a step names.
    pub open spec fn fd_of(self, which: Which) -> u64 {
        match which {
            Which::Result => self.fd as u64,
            Which::ReadEnd => self.read_end as u64,
            Which::WriteEnd => self.write_end as u64,
        }
    }

    /// The call that a step asks for, with the descriptor it names filled in.
    pub open spec fn call(self, step: Step) -> Call {
        let none = Call { nr: 0, rdi: 0, rsi: 0, rdx: 0, r10: 0, r8: 0, r9: 0 };
        match step {
            Step::Socket => Call { nr: SYS_SOCKET, rdi: AF_UNIX, rsi: SOCK_DGRAM, ..none },
            Step::Pipe { buffer } => Call { nr: SYS_PIPE, rdi: buffer, ..none },
            Step::Attach { fd, addr, length, connect } => Call {
                nr: if connect { SYS_CONNECT } else { SYS_BIND },
                rdi: self.fd_of(fd),
                rsi: addr,
                rdx: length,
                ..none
            },
            Step::Nonblock { fd } => Call {
                nr: SYS_FCNTL,
                rdi: self.fd_of(fd),
                rsi: F_SETFL,
                rdx: O_NONBLOCK,
                ..none
            },
            Step::WriteInitial { fd, buffer } => Call {
                nr: SYS_WRITE,
                rdi: self.fd_of(fd),
                rsi: buffer,
                rdx: 8,
                ..none
            },
            Step::Close { fd } => Call { nr: SYS_CLOSE, rdi: self.fd_of(fd), ..none },
            Step::FcntlDupfd { fd, minimum } => Call {
                nr: SYS_FCNTL,
                rdi: fd,
                rsi: F_DUPFD,
                rdx: minimum,
                ..none
            },
            Step::FcntlCloexec { fd } => Call {
                nr: SYS_FCNTL,
                rdi: self.fd_of(fd),
                rsi: F_SETFD,
                rdx: FD_CLOEXEC,
                ..none
            },
            Step::Lseek { fd, offset } => Call {
                nr: SYS_LSEEK,
                rdi: fd,
                rsi: offset as u64,
                rdx: SEEK_SET,
                ..none
            },
            Step::VectorIo { write, fd, iov, count } => Call {
                nr: if write { SYS_WRITEV } else { SYS_READV },
                rdi: fd,
                rsi: iov,
                rdx: count,
                ..none
            },
            Step::Sigprocmask { mask, saved, always } => Call {
                nr: SYS_RT_SIGPROCMASK,
                rdi: SIG_SETMASK,
                rsi: mask,
                rdx: saved,
                r10: 8,
                ..none
            },
            Step::EpollWait { epfd, events, maxevents, timeout } => Call {
                nr: SYS_EPOLL_WAIT,
                rdi: epfd,
                rsi: events,
                rdx: maxevents,
                r10: timeout,
                ..none
            },
        }
    }

    /// The sequence once the call in flight has returned `rax`. The first call's
    /// result is the descriptor that the emulation is built on, where it is a
    /// call that returns one.
    pub open spec fn collected(self, rax: i64) -> SequenceView {
        Sequence {
            results: self.results.push(rax),
            running: None,
            fd: if self.results.len() == 0 && returns_fd(self.running) { rax } else { self.fd },
            ..self
        }
    }

    /// The sequence once both ends of the pipe are known. Its read end is the
    /// descriptor that the emulation is built on.
    pub open spec fn piped(self, read_end: i64, write_end: i64) -> SequenceView {
        Sequence { read_end, write_end, fd: read_end, ..self }
    }

    /// The sequence with one more result.
    pub open spec fn noted(self, result: i64) -> SequenceView {
        Sequence { results: self.results.push(result), ..self }
    }

    /// What the application is given when no call is left to make. It is what the
    /// call the emulation is *for* returned; only where that did not happen is the
    /// first error the honest answer.
    pub open spec fn answer(self) -> i64 {
        let value = match self.outcome {
            Outcome::Call(i) => if i < self.results.len() {
                self.results[i as int]
            } else {
                (-EINVAL) as i64
            },
            Outcome::Adopted => self.fd,
        };
        if value >= 0 {
            value
        } else {
            match first_error(self.results) {
                Some(error) => error,
                None => value,
            }
        }
    }

    /// The sequence and the registers after a call has been collected.
    pub open spec fn advanced(self, regs: Regs) -> (SequenceView, Turn) {
        let (next, rest) = next_step(self.queue, self.results);
        match next {
            Some(step) => (
                Sequence { queue: rest, running: Some(step), at_entry: true, ..self },
                Turn::More(Regs { rip: self.gadget, ..calling(regs, self.call(step)) }),
            ),
            None => (
                Sequence { queue: rest, ..self },
                Turn::Over(Regs { rax: self.answer() as u64, ..self.saved }),
            ),
        }
    }
}

/// The step is a call that returns a descriptor to build on.
pub open spec fn returns_fd(step: Option<Step>) -> bool {
    match step {
        Some(Step::Socket) => true,
        Some(Step::FcntlDupfd { .. }) => true,
        _ => false,
    }
}

/// The result of a call is an error.
pub open spec fn is_error(rc: i64) -> bool {
    -4095 <= rc < 0
}

/// The first error among the results.
pub open spec fn first_error(results: Seq<i64>) -> Option<i64>
    decreases results.len(),
{
    if results.len() == 0 {
        None
    } else if is_error(results[0]) {
        Some(results[0])
    } else {
        first_error(results.drop_first())
    }
}

/// Everything before the last result succeeded, and something did: there is
/// state to take back.
pub open spec fn took_effect(results: Seq<i64>) -> bool {
    results.len() > 1 && forall|i: int| 0 <= i < results.len() - 1 ==> #[trigger] results[i] >= 0
}

/// The step is to be made even after a failure.
pub open spec fn is_cleanup(step: Step) -> bool {
    match step {
        Step::Sigprocmask { always, .. } => always,
        _ => false,
    }
}

/// The first step of the queue that is to be made even after a failure, and what
/// follows it.
pub open spec fn first_cleanup(queue: Seq<Step>) -> (Option<Step>, Seq<Step>)
    decreases queue.len(),
{
    if queue.len() == 0 {
        (None, queue)
    } else if is_cleanup(queue[0]) {
        (Some(queue[0]), queue.drop_first())
    } else {
        first_cleanup(queue.drop_first())
    }
}

/// The step to make next, and what is then left of the queue. Once a call has
/// failed the rest is pointless, but for a step that takes back what the calls
/// before the failure installed.
pub open spec fn next_step(queue: Seq<Step>, results: Seq<i64>) -> (Option<Step>, Seq<Step>) {
    if first_error(results) is None {
        if queue.len() == 0 {
            (None, queue)
        } else {
            (Some(queue[0]), queue.drop_first())
        }
    } else if took_effect(results) {
        first_cleanup(queue)
    } else {
        (None, queue)
    }
}

/// The calls of a plan, in order.
pub fn steps_for(plan: Plan, regs: &Regs) -> (queue: VecDeque<Step>)
    ensures
        queue@ == steps(plan, *regs),
{
    let space = scratch_below(regs.rsp);
    let mut queue: VecDeque<Step> = VecDeque::new();
    match plan {
        Plan::EpollPwait => {
            queue.push_back(Step::Sigprocmask { mask: regs.r8, saved: space, always: false });
            queue.push_back(
                Step::EpollWait {
                    epfd: regs.rdi,
                    events: regs.rsi,
                    maxevents: regs.rdx,
                    timeout: regs.r10,
                },
            );
            queue.push_back(Step::Sigprocmask { mask: space, saved: 0, always: true });
        },
        Plan::VectorIo { write } => {
            queue.push_back(Step::Lseek { fd: regs.rdi, offset: regs.r10 as i64 });
            queue.push_back(
                Step::VectorIo { write, fd: regs.rdi, iov: regs.rsi, count: regs.rdx },
            );
        },
        Plan::DupfdCloexec => {
            queue.push_back(Step::FcntlDupfd { fd: regs.rdi, minimum: regs.rdx });
            queue.push_back(Step::FcntlCloexec { fd: Which::Result });
        },
        Plan::Eventfd { length } => {
            queue.push_back(Step::Socket);
            queue.push_back(
                Step::Attach { fd: Which::Result, addr: space, length, connect: false },
            );
            queue.push_back(
                Step::Attach { fd: Which::Result, addr: space, length, connect: true },
            );
            if regs.rsi & EFD_NONBLOCK != 0 {
                queue.push_back(Step::Nonblock { fd: Which::Result });
            }
            if regs.rdi != 0 {
                queue.push_back(
                    Step::WriteInitial { fd: Which::Result, buffer: space.wrapping_add(256) },
                );
            }
        },
        Plan::TimerfdCreate { clockid } => {
            queue.push_back(Step::Pipe { buffer: space });
            queue.push_back(Step::Close { fd: Which::WriteEnd });
            if regs.rsi & TFD_NONBLOCK != 0 {
                queue.push_back(Step::Nonblock { fd: Which::ReadEnd });
            }
        },
    }
    assert(queue@ =~= steps(plan, *regs));
    queue
}

/// Set up the sequence of a plan, with the registers that make its first call.
pub fn start(plan: Plan, regs: Regs, gadget: u64) -> (r: (Running, Regs))
    ensures
        r.0@ == started(plan, regs, gadget),
        r.1 == calling(
            regs,
            started(plan, regs, gadget).call(steps(plan, regs)[0]),
        ),
{
    let mut queue = steps_for(plan, &regs);
    let first = match queue.pop_front() {
        Some(step) => step,
        None => Step::Socket,
    };
    let (outcome, clockid) = match plan {
        Plan::EpollPwait => (Outcome::Call(1), 0),
        Plan::VectorIo { write } => (Outcome::Call(1), 0),
        Plan::DupfdCloexec => (Outcome::Call(0), 0),
        Plan::Eventfd { length } => (Outcome::Call(0), 0),
        Plan::TimerfdCreate { clockid } => (Outcome::Adopted, clockid),
    };
    let sequence = Sequence {
        saved: regs,
        gadget,
        queue,
        running: Some(first),
        at_entry: false,
        results: Vec::new(),
        outcome,
        fd: -1,
        read_end: -1,
        write_end: -1,
        clockid,
    };
    assert(sequence@.queue =~= steps(plan, regs).drop_first());
    assert(sequence@.results =~= Seq::<i64>::empty());
    let patched = with_call(regs, build(&first, &sequence));
    (sequence, patched)
}

fn fd_named(which: Which, sequence: &Running) -> (fd: u64)
    ensures
        fd == sequence@.fd_of(which),
{
    match which {
        Which::Result => sequence.fd as u64,
        Which::ReadEnd => sequence.read_end as u64,
        Which::WriteEnd => sequence.write_end as u64,
    }
}

/// Build the call a step asks for, with the descriptor it names filled in.
pub fn build(step: &Step, sequence: &Running) -> (call: Call)
    ensures
        call == sequence@.call(*step),
{
    let none = Call { nr: 0, rdi: 0, rsi: 0, rdx: 0, r10: 0, r8: 0, r9: 0 };
    match *step {
        Step::Socket => Call { nr: SYS_SOCKET, rdi: AF_UNIX, rsi: SOCK_DGRAM, ..none },
        Step::Pipe { buffer } => Call { nr: SYS_PIPE, rdi: buffer, ..none },
        Step::Attach { fd, addr, length, connect } => Call {
            nr: if connect { SYS_CONNECT } else { SYS_BIND },
            rdi: fd_named(fd, sequence),
            rsi: addr,
            rdx: length,
            ..none
        },
        Step::Nonblock { fd } => Call {
            nr: SYS_FCNTL,
            rdi: fd_named(fd, sequence),
            rsi: F_SETFL,
            rdx: O_NONBLOCK,
            ..none
        },
        Step::WriteInitial { fd, buffer } => Call {
            nr: SYS_WRITE,
            rdi: fd_named(fd, sequence),
            rsi: buffer,
            rdx: 8,
            ..none
        },
        Step::Close { fd } => Call { nr: SYS_CLOSE, rdi: fd_named(fd, sequence), ..none },
        Step::FcntlDupfd { fd, minimum } => Call {
            nr: SYS_FCNTL,
            rdi: fd,
            rsi: F_DUPFD,
            rdx: minimum,
            ..none
        },
        Step::FcntlCloexec { fd } => Call {
            nr: SYS_FCNTL,
            rdi: fd_named(fd, sequence),
            rsi: F_SETFD,
            rdx: FD_CLOEXEC,
            ..none
        },
        Step::Lseek { fd, offset } => Call {
            nr: SYS_LSEEK,
            rdi: fd,
            rsi: offset as u64,
            rdx: SEEK_SET,
            ..none
        },
        Step::VectorIo { write, fd, iov, count } => Call {
            nr: if write { SYS_WRITEV } else { SYS_READV },
            rdi: fd,
            rsi: iov,
            rdx: count,
            ..none
        },
        Step::Sigprocmask { mask, saved, always } => Call {
            nr: SYS_RT_SIGPROCMASK,
            rdi: SIG_SETMASK,
            rsi: mask,
            rdx: saved,
            r10: 8,
            ..none
        },
        Step::EpollWait { epfd, events, maxevents, timeout } => Call {
            nr: SYS_EPOLL_WAIT,
            rdi: epfd,
            rsi: events,
            rdx: maxevents,
            r10: timeout,
            ..none
        },
    }
}

impl Running {
    /// Take in what the call in flight returned; gives the step that it was.
    pub fn collect(&mut self, rax: i64) -> (step: Option<Step>)
        ensures
            final(self)@ == old(self)@.collected(rax),
            step == old(self).running,
    {
        let first = self.results.len() == 0;
        let step = self.running.take();
        self.results.push(rax);
        let fd_call = match step {
            Some(Step::Socket) => true,
            Some(Step::FcntlDupfd { fd, minimum }) => true,
            _ => false,
        };
        if first && fd_call {
            self.fd = rax;
        }
        step
    }

    fn first_failure(&self) -> (r: Option<i64>)
        ensures
            r == first_error(self@.results),
    {
        let mut i: usize = 0;
        assert(self@.results.skip(0) =~= self@.results);
        while i < self.results.len()
            invariant
                i <= self.results.len(),
                first_error(self@.results) == first_error(self@.results.skip(i as int)),
            decreases self.results.len() - i,
        {
            let rc = self.results[i];
            assert(self@.results.skip(i as int).drop_first() =~= self@.results.skip(i + 1));
            assert(self@.results.skip(i as int)[0] == rc);
            if -4095 <= rc && rc < 0 {
                return Some(rc);
            }
            i = i + 1;
        }
        None
    }

    fn has_effect(&self) -> (r: bool)
        ensures
            r == took_effect(self@.results),
    {
        if self.results.len() <= 1 {
            return false;
        }
        let mut i: usize = 0;
        while i < self.results.len() - 1
            invariant
                self.results.len() > 1,
                i <= self.results.len() - 1,
                forall|j: int| 0 <= j < i ==> #[trigger] self@.results[j] >= 0,
            decreases self.results.len() - i,
        {
            if self.results[i] < 0 {
                assert(self@.results[i as int] < 0);
                return false;
            }
            i = i + 1;
        }
        true
    }

    fn next(&mut self) -> (step: Option<Step>)
        ensures
            ({
                let (next, rest) = next_step(old(self)@.queue, old(self)@.results);
                &&& step == next
                &&& final(self)@ == (Sequence { queue: rest, ..old(self)@ })
            }),
    {
        if self.first_failure().is_none() {
            let step = self.queue.pop_front();
            assert(step is Some ==> self@.queue =~= old(self)@.queue.drop_first());
            return step;
        }
        if !self.has_effect() {
            return None;
        }
        while self.queue.len() > 0
            invariant
                first_cleanup(self@.queue) == first_cleanup(old(self)@.queue),
                self@ == (Sequence { queue: self@.queue, ..old(self)@ }),
                first_error(old(self)@.results) is Some,
                took_effect(old(self)@.results),
            decreases self.queue.len(),
        {
            let ghost before = self@.queue;
            if let Some(step) = self.queue.pop_front() {
                assert(self@.queue =~= before.drop_first());
                if let Step::Sigprocmask { mask, saved, always } = step {
                    if always {
                        return Some(step);
                    }
                }
            }
        }
        None
    }

    fn result(&self) -> (value: i64)
        ensures
            value == self@.answer(),
    {
        let value = match self.outcome {
            Outcome::Call(i) => if i < self.results.len() {
                self.results[i]
            } else {
                -EINVAL as i64
            },
            Outcome::Adopted => self.fd,
        };
        if value >= 0 {
            return value;
        }
        match self.first_failure() {
            Some(error) => error,
            None => value,
        }
    }

    /// Go on after a call has been collected: the registers either make the next
    /// call, or hand the application the result or the error.
    pub fn advance(&mut self, regs: Regs) -> (turn: Turn)
        ensures
            (final(self)@, turn) == old(self)@.advanced(regs),
    {
        match self.next() {
            Some(step) => {
                let call = build(&step, self);
                let patched = Regs { rip: self.gadget, ..with_call(regs, call) };
                self.running = Some(step);
                self.at_entry = true;
                Turn::More(patched)
            },
            None => Turn::Over(Regs { rax: self.result() as u64, ..self.saved }),
        }
    }
}

impl SequenceView {
    /// The sequence past the entry stop of the call in flight.
    pub open spec fn entered(self) -> SequenceView {
        Sequence { at_entry: false, ..self }
    }

    /// The sequence and the registers after the exit stop at which the call in
    /// flight returned `rax`, for a call that needs nothing else done.
    pub open spec fn returned(self, rax: i64, regs: Regs) -> (SequenceView, Turn) {
        self.collected(rax).advanced(regs)
    }
}

/// The application gets its own registers back, with only the result replaced.
pub proof fn only_the_result_changes(s: SequenceView, regs: Regs)
    ensures
        s.advanced(regs).1 matches Turn::Over(done) ==> done == (Regs { rax: done.rax, ..s.saved }),
{
}

/// Every further call is made from the `syscall` instruction that the process
/// executed itself, and leaves its stack pointer alone.
pub proof fn calls_are_made_from_the_gadget(s: SequenceView, regs: Regs)
    ensures
        s.advanced(regs).1 matches Turn::More(call) ==> call.rip == s.gadget && call.rsp == regs.rsp,
{
}

proof fn first_cleanup_shortens(queue: Seq<Step>)
    ensures
        first_cleanup(queue).0 is Some ==> first_cleanup(queue).1.len() < queue.len(),
        first_cleanup(queue).1.len() <= queue.len(),
    decreases queue.len(),
{
    if queue.len() > 0 && !is_cleanup(queue[0]) {
        first_cleanup_shortens(queue.drop_first());
    }
}

/// A sequence ends: every call that is still made takes one off the queue.
pub proof fn sequences_end(s: SequenceView, regs: Regs)
    ensures
        s.advanced(regs).1 is More ==> s.advanced(regs).0.queue.len() < s.queue.len(),
{
    first_cleanup_shortens(s.queue);
}

/// What the call that the emulation is for returned is the answer, whatever the
/// calls after it did.
pub proof fn later_failures_do_not_matter(s: SequenceView, regs: Regs)
    ensures
        s.outcome matches Outcome::Call(i) ==> i < s.results.len() && s.results[i as int] >= 0
            ==> s.advanced(regs).1 is Over ==> s.advanced(regs).1->Over_0.rax
            == s.results[i as int] as u64,
{
}

/// `epoll_pwait` waits with the mask of its caller in force, and the mask that
/// was there before is put back whatever the wait returned, including when it
/// failed; the answer is what the wait returned. Where the mask could not be
/// installed, nothing else is done and that error is the answer.
pub proof fn mask_is_put_back(regs: Regs, gadget: u64, set: i64, waited: i64, put_back: i64, a: Regs, b: Regs, c: Regs)
    ensures
        ({
            let space = scratch(regs.rsp);
            let s0 = started(Plan::EpollPwait, regs, gadget);
            let (s1, t1) = s0.entered().returned(set, a);
            let (s2, t2) = s1.entered().returned(waited, b);
            let (s3, t3) = s2.entered().returned(put_back, c);
            &&& s0.call(s0.running->0) == (Call {
                nr: SYS_RT_SIGPROCMASK,
                rdi: SIG_SETMASK,
                rsi: regs.r8,
                rdx: space,
                r10: 8,
                r8: 0,
                r9: 0,
            })
            &&& is_error(set) ==> t1 == Turn::Over(Regs { rax: set as u64, ..regs })
            &&& set >= 0 ==> {
                &&& t1 == Turn::More(
                    Regs {
                        rip: gadget,
                        ..calling(
                            a,
                            Call {
                                nr: SYS_EPOLL_WAIT,
                                rdi: regs.rdi,
                                rsi: regs.rsi,
                                rdx: regs.rdx,
                                r10: regs.r10,
                                r8: 0,
                                r9: 0,
                            },
                        )
                    },
                )
                &&& t2 == Turn::More(
                    Regs {
                        rip: gadget,
                        ..calling(
                            b,
                            Call {
                                nr: SYS_RT_SIGPROCMASK,
                                rdi: SIG_SETMASK,
                                rsi: space,
                                rdx: 0,
                                r10: 8,
                                r8: 0,
                                r9: 0,
                            },
                        )
                    },
                )
                &&& t3 is Over
                &&& waited >= 0 || is_error(waited) ==> t3 == Turn::Over(
                    Regs { rax: waited as u64, ..regs },
                )
            }
        }),
{
    let s0 = started(Plan::EpollPwait, regs, gadget);
    let (s1, t1) = s0.entered().returned(set, a);
    let r1 = s0.results.push(set);
    reveal_with_fuel(first_error, 4);
    reveal_with_fuel(first_cleanup, 3);
    if set >= 0 {
        let (s2, t2) = s1.entered().returned(waited, b);
        let r2 = r1.push(waited);
        assert(r2[0] == set);
        assert(r2.drop_first() =~= seq![waited]);
        let r3 = r2.push(put_back);
        assert(r3.drop_first() =~= seq![waited, put_back]);
        assert(r3.drop_first().drop_first() =~= seq![put_back]);
        if is_error(waited) {
            assert(r3[1] < 0);
            assert(!took_effect(r3));
        }
    }
}

/// `pwritev` and `preadv` seek to the offset and then transfer; the answer is the
/// transfer's. Where the seek fails nothing is transferred and that error is the
/// answer.
pub proof fn transfer_follows_seek(regs: Regs, gadget: u64, write: bool, seek: i64, moved: i64, a: Regs, b: Regs)
    ensures
        ({
            let s0 = started(Plan::VectorIo { write }, regs, gadget);
            let (s1, t1) = s0.entered().returned(seek, a);
            let (s2, t2) = s1.entered().returned(moved, b);
            &&& s0.call(s0.running->0) == (Call {
                nr: SYS_LSEEK,
                rdi: regs.rdi,
                rsi: regs.r10,
                rdx: SEEK_SET,
                r10: 0,
                r8: 0,
                r9: 0,
            })
            &&& is_error(seek) ==> t1 == Turn::Over(Regs { rax: seek as u64, ..regs })
            &&& seek >= 0 ==> {
                &&& t1 == Turn::More(
                    Regs {
                        rip: gadget,
                        ..calling(
                            a,
                            Call {
                                nr: if write { SYS_WRITEV } else { SYS_READV },
                                rdi: regs.rdi,
                                rsi: regs.rsi,
                                rdx: regs.rdx,
                                r10: 0,
                                r8: 0,
                                r9: 0,
                            },
                        )
                    },
                )
                &&& moved >= 0 || is_error(moved) ==> t2 == Turn::Over(
                    Regs { rax: moved as u64, ..regs },
                )
            }
        }),
{
    let s0 = started(Plan::VectorIo { write }, regs, gadget);
    let offset = regs.r10;
    assert((offset as i64) as u64 == offset) by (bit_vector);
    reveal_with_fuel(first_error, 3);
    reveal_with_fuel(first_cleanup, 2);
    let (s1, t1) = s0.entered().returned(seek, a);
    if seek >= 0 {
        assert(seq![seek, moved].drop_first() =~= seq![moved]);
        assert(s1.results.push(moved) =~= seq![seek, moved]);
    }
}

/// `F_DUPFD_CLOEXEC` duplicates the descriptor and then marks the duplicate; the
/// duplicate is the answer even where it could not be marked.
pub proof fn duplicate_is_marked(regs: Regs, gadget: u64, dup: i64, marked: i64, a: Regs, b: Regs)
    ensures
        ({
            let s0 = started(Plan::DupfdCloexec, regs, gadget);
            let (s1, t1) = s0.entered().returned(dup, a);
            let (s2, t2) = s1.entered().returned(marked, b);
            &&& s0.call(s0.running->0) == (Call {
                nr: SYS_FCNTL,
                rdi: regs.rdi,
                rsi: F_DUPFD,
                rdx: regs.rdx,
                r10: 0,
                r8: 0,
                r9: 0,
            })
            &&& is_error(dup) ==> t1 == Turn::Over(Regs { rax: dup as u64, ..regs })
            &&& dup >= 0 ==> {
                &&& t1 == Turn::More(
                    Regs {
                        rip: gadget,
                        ..calling(
                            a,
                            Call {
                                nr: SYS_FCNTL,
                                rdi: dup as u64,
                                rsi: F_SETFD,
                                rdx: FD_CLOEXEC,
                                r10: 0,
                                r8: 0,
                                r9: 0,
                            },
                        )
                    },
                )
                &&& t2 == Turn::Over(Regs { rax: dup as u64, ..regs })
            }
        }),
{
    let s0 = started(Plan::DupfdCloexec, regs, gadget);
    reveal_with_fuel(first_error, 3);
    reveal_with_fuel(first_cleanup, 2);
    let (s1, t1) = s0.entered().returned(dup, a);
    if dup >= 0 {
        assert(seq![dup, marked].drop_first() =~= seq![marked]);
        assert(s1.results.push(marked) =~= seq![dup, marked]);
    }
}

}
