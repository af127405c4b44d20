//! The tracer, driven from stop to stop.

use sharun_compat::abi::Regs;
use sharun_compat::kernel::Kernel;
use sharun_compat::protocol::{Action, Event};
use sharun_compat::time::push_time;
use sharun_compat::tracer::{tracer_options, Tracer};

const CHILD: i32 = 100;
const SPACE: u64 = 0x7ffe_fe00;

fn stopped_at(nr: u64, args: [u64; 6]) -> Regs {
    Regs {
        r15: 0, r14: 0, r13: 0, r12: 0, rbp: 0, rbx: 0, r11: 0x202, r10: args[3], r9: args[5],
        r8: args[4], rax: (-38i64) as u64, rcx: 0, rdx: args[2], rsi: args[1], rdi: args[0],
        orig_rax: nr, rip: 0x40_1002, cs: 0x33, eflags: 0, rsp: 0x7fff_0008, ss: 0, fs_base: 0,
        gs_base: 0, ds: 0, es: 0, fs: 0, gs: 0,
    }
}

fn oldest() -> Kernel {
    Kernel {
        version: Some((2, 6, 17)),
        ppoll_missing: true,
        epoll_create1_missing: true,
        prlimit64_missing: true,
        pipe2_missing: true,
        getrandom_missing: true,
        statx_missing: true,
        eventfd_missing: true,
        timerfd_missing: true,
        clocks: [0, 1, 2, 3, 1, 0, 1, 1],
    }
}

struct Session {
    tracer: Tracer,
    kernel: Kernel,
    /// What the tracer asked for last.
    asked: Action<Vec<u8>>,
}

impl Session {
    fn answer(&mut self, event: Event<Vec<u8>>) -> &Action<Vec<u8>> {
        self.asked = self.tracer.next(event, &self.kernel);
        &self.asked
    }

    /// A tracer that has started its child, waiting for a change.
    fn start(use_seccomp: bool, kernel: Kernel) -> Session {
        let (tracer, asked) = Tracer::supervise(CHILD, use_seccomp);
        let mut s = Session { tracer, kernel, asked };
        assert_eq!(s.asked, Action::WaitFor { pid: CHILD });
        s.answer(Event::Waited { pid: CHILD, status: 0x137f });
        while matches!(s.asked, Action::SetOptions { .. }) {
            s.answer(Event::Done);
        }
        assert_eq!(
            s.asked,
            Action::Resume { pid: CHILD, syscall: !use_seccomp, signal: None }
        );
        s.settle();
        s
    }

    /// The process was resumed; no deadline has passed.
    fn settle(&mut self) {
        assert!(matches!(self.asked, Action::Resume { .. }), "{:?}", self.asked);
        self.answer(Event::Done);
        assert_eq!(self.asked, Action::TakeAlarm);
        self.answer(Event::Failed);
        assert_eq!(self.asked, Action::Wait);
    }

    fn stop(&mut self, pid: i32, status: i32) {
        assert_eq!(self.asked, Action::Wait);
        self.answer(Event::Waited { pid, status });
    }

    /// The entry stop of a call that is not emulated; its translation.
    fn enter(&mut self, regs: Regs) {
        self.stop(CHILD, 0x857f);
        assert_eq!(self.asked, Action::GetRegs { pid: CHILD });
        self.answer(Event::Regs(regs));
        assert_eq!(self.asked, Action::GetRegs { pid: CHILD });
        self.answer(Event::Regs(regs));
    }

    /// The exit stop of the call.
    fn exit(&mut self, regs: Regs) {
        self.stop(CHILD, 0x857f);
        assert_eq!(self.asked, Action::GetRegs { pid: CHILD });
        self.answer(Event::Regs(regs));
    }

    fn set_regs(&self) -> Regs {
        match &self.asked {
            Action::SetRegs { regs, .. } => *regs,
            other => panic!("no registers: {other:?}"),
        }
    }

    fn expect_resume(&mut self, pid: i32, syscall: bool, signal: Option<i32>) {
        assert_eq!(self.asked, Action::Resume { pid, syscall, signal });
        self.settle();
    }
}

#[test]
fn options_are_tried_one_at_a_time() {
    assert_eq!(tracer_options(false), [1, 2, 4, 8, 0x10]);
    assert_eq!(tracer_options(true), [1, 2, 4, 8, 0x10, 0x80]);
    let (tracer, asked) = Tracer::supervise(CHILD, true);
    let mut s = Session { tracer, kernel: oldest(), asked };
    s.answer(Event::Waited { pid: CHILD, status: 0x137f });
    let mut tried = Vec::new();
    while let Action::SetOptions { options, .. } = s.asked {
        tried.push(options);
        // The kernel knows neither the third option nor the last.
        let known = options & 0x84 == 0;
        s.answer(if known { Event::Done } else { Event::Failed });
    }
    assert_eq!(tried, [1, 3, 7, 3, 0xb, 0x1b, 0x9b, 0x1b]);
    // Without stops of the filter every call is traced.
    assert_eq!(s.asked, Action::Resume { pid: CHILD, syscall: true, signal: None });
    assert_eq!(s.tracer.modes(), (false, true));
}

#[test]
fn a_child_that_ended_already_has_its_status_passed_on() {
    for (status, code) in [(0x0500, 5), (11, 139)] {
        let (mut tracer, _) = Tracer::supervise(CHILD, false);
        let event = Event::Waited { pid: CHILD, status };
        assert_eq!(tracer.next(event, &oldest()), Action::Exit { code });
        assert_eq!(tracer.next(Event::Done, &oldest()), Action::Exit { code });
    }
    // A real-time signal is not recognised there, and the tracer goes on.
    let (mut tracer, _) = Tracer::supervise(CHILD, false);
    let event = Event::Waited { pid: CHILD, status: 40 };
    assert_eq!(tracer.next(event, &oldest()), Action::SetOptions { pid: CHILD, options: 1 });
}

#[test]
fn the_tracer_ends_with_its_child() {
    let mut s = Session::start(false, oldest());
    s.stop(7, 0x0100);
    assert_eq!(s.asked, Action::TakeAlarm);
    s.answer(Event::Failed);
    s.stop(CHILD, 0x0300);
    assert_eq!(s.asked, Action::Exit { code: 3 });
    let mut s = Session::start(false, oldest());
    s.stop(CHILD, 9);
    assert_eq!(s.asked, Action::Exit { code: 137 });
}

#[test]
fn with_the_filter_the_tracer_stays_for_the_others() {
    let mut s = Session::start(true, oldest());
    assert_eq!(s.tracer.modes(), (true, false));
    s.stop(CHILD, 0x0300);
    assert_eq!(s.asked, Action::TakeAlarm);
    s.answer(Event::Failed);
    s.stop(7, 0x0100);
    s.answer(Event::Failed);
    assert_eq!(s.asked, Action::Wait);
    // An interrupted wait is made again.
    s.answer(Event::WaitFailed { errno: 4 });
    assert_eq!(s.asked, Action::TakeAlarm);
    s.answer(Event::Failed);
    s.answer(Event::WaitFailed { errno: 10 });
    assert_eq!(s.asked, Action::Exit { code: 3 });
    let mut s = Session::start(true, oldest());
    s.answer(Event::WaitFailed { errno: 10 });
    assert_eq!(s.asked, Action::Exit { code: 0 });
}

#[test]
fn new_processes_are_configured_once() {
    let mut s = Session::start(false, oldest());
    s.stop(7, 0x137f);
    for options in [1, 3, 7, 0xf, 0x1f] {
        assert_eq!(s.asked, Action::SetOptions { pid: 7, options });
        s.answer(Event::Done);
    }
    // The stop that a new process begins with is swallowed; a later one is not.
    s.expect_resume(7, true, None);
    s.stop(7, 0x137f);
    s.expect_resume(7, true, Some(19));
    // Another signal is delivered once the process is configured.
    s.stop(8, 0x0a7f);
    for _ in 0..5 {
        s.answer(Event::Done);
    }
    s.expect_resume(8, true, Some(10));
    // A process that ended is forgotten.
    s.stop(7, 0);
    s.answer(Event::Failed);
    s.stop(7, 0x137f);
    assert_eq!(s.asked, Action::SetOptions { pid: 7, options: 1 });
}

#[test]
fn events_are_resumed_without_a_signal() {
    let mut s = Session::start(false, oldest());
    s.stop(CHILD, 0x4_057f);
    s.expect_resume(CHILD, true, None);
    // A real-time signal is passed on.
    s.stop(CHILD, 0x227f);
    s.expect_resume(CHILD, true, Some(34));
}

#[test]
fn an_illegal_xgetbv_is_emulated() {
    let mut s = Session::start(false, oldest());
    let regs = stopped_at(u64::MAX, [0; 6]);
    s.stop(CHILD, 0x047f);
    assert_eq!(s.asked, Action::GetRegs { pid: CHILD });
    s.answer(Event::Regs(regs));
    assert_eq!(s.asked, Action::Peek { pid: CHILD, addr: 0x40_1002 });
    s.answer(Event::Word(0xd0_010f));
    assert_eq!(s.set_regs(), Regs { rax: 0, rdx: 0, rip: 0x40_1005, ..regs });
    s.answer(Event::Done);
    s.expect_resume(CHILD, true, None);
    // Any other instruction gets the signal, and so does one that cannot be read
    // or stepped over.
    for events in [
        vec![Event::Failed],
        vec![Event::Regs(regs), Event::Failed],
        vec![Event::Regs(regs), Event::Word(0x0b0f)],
        vec![Event::Regs(regs), Event::Word(0xd0_010f), Event::Failed],
    ] {
        s.stop(CHILD, 0x047f);
        for event in events {
            s.answer(event);
        }
        s.expect_resume(CHILD, true, Some(4));
    }
}

#[test]
fn simple_calls_are_renumbered() {
    let mut s = Session::start(false, oldest());
    let cases: Vec<(Regs, Regs)> = vec![
        {
            let r = stopped_at(293, [0x5000, 0x80000, 0, 0, 0, 0]);
            (r, Regs { orig_rax: 22, rax: 22, ..r })
        },
        {
            let r = stopped_at(291, [0x80000, 0, 0, 0, 0, 0]);
            (r, Regs { orig_rax: 213, rax: 213, rdi: 1, ..r })
        },
        {
            let r = stopped_at(302, [0, 7, 0, 0x5000, 0, 0]);
            (r, Regs { orig_rax: 97, rax: 97, rdi: 7, rsi: 0x5000, ..r })
        },
        {
            let r = stopped_at(302, [0, 7, 0x4000, 0x5000, 0, 0]);
            (r, Regs { orig_rax: 160, rax: 160, rdi: 7, rsi: 0x4000, ..r })
        },
        {
            let r = stopped_at(228, [6, 0x5000, 0, 0, 0, 0]);
            (r, Regs { rdi: 1, ..r })
        },
        {
            let r = stopped_at(202, [0x5000, 0x81, 1, 0, 0, 0]);
            (r, Regs { rsi: 1, ..r })
        },
        {
            let r = stopped_at(271, [0x5000, 1, 0, 0, 0, 0]);
            (r, Regs { orig_rax: 7, rax: 7, rdx: u64::MAX, ..r })
        },
    ];
    for (regs, patched) in cases {
        s.enter(regs);
        assert_eq!(s.set_regs(), patched);
        s.answer(Event::Done);
        s.expect_resume(CHILD, true, None);
        // Its result is its own.
        s.exit(Regs { rax: regs.orig_rax, ..patched });
        if patched.orig_rax != regs.orig_rax {
            s.expect_resume(CHILD, true, None);
        } else {
            while !matches!(s.asked, Action::Resume { .. }) {
                s.answer(Event::Done);
            }
            s.settle();
        }
    }
}

#[test]
fn calls_that_the_kernel_has_are_left_alone() {
    let modern = Kernel {
        version: Some((6, 0, 0)),
        ppoll_missing: false,
        epoll_create1_missing: false,
        prlimit64_missing: false,
        pipe2_missing: false,
        getrandom_missing: false,
        statx_missing: false,
        eventfd_missing: false,
        timerfd_missing: false,
        clocks: [0, 1, 2, 3, 4, 5, 6, 7],
    };
    let mut s = Session::start(false, modern);
    for nr in [202, 293, 291, 332, 302, 16, 228, 229, 230, 271, 318, 39] {
        let regs = stopped_at(nr, [0, 0x802c_542a, 0, 0, 1, 0]);
        s.enter(regs);
        s.expect_resume(CHILD, true, None);
        // A result that equals the number is a result.
        s.exit(Regs { rax: nr, ..regs });
        s.expect_resume(CHILD, true, None);
    }
    // Limits of another process are left to the kernel, wherever it is missing.
    let mut s = Session::start(false, oldest());
    s.enter(stopped_at(302, [55, 7, 0, 0, 0, 0]));
    s.expect_resume(CHILD, true, None);
}

#[test]
fn a_32_bit_process_is_not_translated() {
    let mut s = Session::start(false, oldest());
    let regs = Regs { cs: 0x23, ..stopped_at(332, [0, 0, 0, 0, 0x5000, 0]) };
    s.enter(regs);
    s.expect_resume(CHILD, true, None);
    s.exit(Regs { rax: 332, ..regs });
    s.expect_resume(CHILD, true, None);
}

#[test]
fn ppoll_timeouts_become_milliseconds() {
    let mut s = Session::start(false, oldest());
    let regs = stopped_at(271, [0x5000, 1, 0x6000, 0, 0, 0]);
    s.enter(regs);
    assert_eq!(s.asked, Action::Read { pid: CHILD, addr: 0x6000, len: 16 });
    let mut timeout = Vec::new();
    push_time(&mut timeout, (2, 30_000_000));
    s.answer(Event::Bytes(timeout));
    assert_eq!(s.set_regs(), Regs { orig_rax: 7, rax: 7, rdx: 2030, ..regs });
    s.answer(Event::Done);
    s.expect_resume(CHILD, true, None);
    s.exit(Regs { rax: 0, orig_rax: 7, ..regs });
    s.expect_resume(CHILD, true, None);
    // A timeout that cannot be read is none.
    s.enter(regs);
    s.answer(Event::Failed);
    assert_eq!(s.set_regs().rdx, u64::MAX);
}

#[test]
fn statx_is_answered_from_stat() {
    let mut s = Session::start(false, oldest());
    let regs = stopped_at(332, [5, 0x1000, 0x900, 0x7ff, 0x2000, 0]);
    s.enter(regs);
    let patched = s.set_regs();
    assert_eq!((patched.orig_rax, patched.rsp, patched.rdx, patched.r10), (262, SPACE, SPACE, 0x100));
    s.answer(Event::Done);
    s.expect_resume(CHILD, true, None);
    s.exit(Regs { rax: 0, ..patched });
    assert_eq!(s.asked, Action::Read { pid: CHILD, addr: SPACE, len: 144 });
    let mut stat = vec![0u8; 144];
    stat[48] = 77;
    s.answer(Event::Bytes(stat));
    match &s.asked {
        Action::Write { pid: CHILD, addr: 0x2000, bytes } => {
            assert_eq!(bytes.len(), 256);
            assert_eq!((bytes[0], bytes[1], bytes[40]), (0xff, 0x07, 77));
        },
        other => panic!("{other:?}"),
    }
    s.answer(Event::Done);
    // The stack is as the caller had it.
    assert_eq!(s.set_regs(), Regs { rax: 0, rsp: regs.rsp, ..patched });
    s.answer(Event::Done);
    s.expect_resume(CHILD, true, None);
}

#[test]
fn a_statx_that_cannot_be_completed_faults() {
    for steps in [vec![Event::Failed], vec![Event::Bytes(vec![0; 144]), Event::Failed]] {
        let mut s = Session::start(false, oldest());
        let regs = stopped_at(332, [5, 0x1000, 0x1000, 0, 0x2000, 0]);
        s.enter(regs);
        let patched = s.set_regs();
        assert_eq!((patched.orig_rax, patched.rsi), (5, SPACE));
        s.answer(Event::Done);
        s.expect_resume(CHILD, true, None);
        s.exit(Regs { rax: 0, ..patched });
        for event in steps {
            s.answer(event);
        }
        assert_eq!(s.set_regs(), Regs { rax: (-14i64) as u64, rsp: regs.rsp, ..patched });
    }
    // One that the kernel refused keeps its error, and the stack.
    let mut s = Session::start(false, oldest());
    let regs = stopped_at(332, [5, 0x1000, 0, 0, 0x2000, 0]);
    s.enter(regs);
    let patched = s.set_regs();
    s.answer(Event::Done);
    s.expect_resume(CHILD, true, None);
    s.exit(Regs { rax: (-2i64) as u64, ..patched });
    assert_eq!(s.set_regs(), Regs { rax: (-2i64) as u64, rsp: regs.rsp, ..patched });
    // One without a buffer, or that cannot be rewritten, is left to fail.
    let mut s = Session::start(false, oldest());
    s.enter(stopped_at(332, [5, 0x1000, 0, 0, 0, 0]));
    s.expect_resume(CHILD, true, None);
    s.exit(stopped_at(332, [5, 0x1000, 0, 0, 0, 0]));
    s.expect_resume(CHILD, true, None);
    s.enter(regs);
    s.answer(Event::Failed);
    s.expect_resume(CHILD, true, None);
    s.exit(Regs { rax: (-38i64) as u64, ..regs });
    s.expect_resume(CHILD, true, None);
}

#[test]
fn termios2_is_completed() {
    let mut s = Session::start(false, oldest());
    let regs = stopped_at(16, [1, 0x802c_542a, 0x3000, 0, 0, 0]);
    s.enter(regs);
    assert_eq!(s.set_regs(), Regs { rsi: 0x5401, ..regs });
    s.answer(Event::Done);
    s.expect_resume(CHILD, true, None);
    s.exit(Regs { rax: 0, rsi: 0x5401, ..regs });
    assert_eq!(s.asked, Action::Read { pid: CHILD, addr: 0x3000, len: 36 });
    let mut termios = vec![0u8; 36];
    termios[8] = 0x0f;
    s.answer(Event::Bytes(termios));
    assert_eq!(
        s.asked,
        Action::Write {
            pid: CHILD,
            addr: 0x3024,
            bytes: vec![0x00, 0x96, 0, 0, 0x00, 0x96, 0, 0],
        }
    );
    s.answer(Event::Done);
    s.expect_resume(CHILD, true, None);
    // A buffer that cannot be written is a fault.
    s.enter(regs);
    s.answer(Event::Done);
    s.expect_resume(CHILD, true, None);
    s.exit(Regs { rax: 0, ..regs });
    s.answer(Event::Failed);
    s.answer(Event::Failed);
    assert_eq!(s.set_regs().rax, (-14i64) as u64);
    s.answer(Event::Done);
    s.settle();
    // A request that sets leaves nothing to complete, nor does one that failed.
    s.enter(Regs { rsi: 0x402c_542b, ..regs });
    assert_eq!(s.set_regs().rsi, 0x5402);
    s.answer(Event::Done);
    s.expect_resume(CHILD, true, None);
    s.exit(Regs { rax: 0, ..regs });
    s.expect_resume(CHILD, true, None);
    s.enter(regs);
    s.answer(Event::Done);
    s.expect_resume(CHILD, true, None);
    s.exit(Regs { rax: (-25i64) as u64, ..regs });
    s.expect_resume(CHILD, true, None);
}

#[test]
fn futex_deadlines_become_relative() {
    let mut s = Session::start(false, oldest());
    let regs = stopped_at(202, [0x5000, 0x189, 1, 0x6000, 0, 0xffff_ffff]);
    s.enter(regs);
    assert_eq!(s.asked, Action::Read { pid: CHILD, addr: 0x6000, len: 16 });
    let mut deadline = Vec::new();
    push_time(&mut deadline, (1000, 100));
    s.answer(Event::Bytes(deadline));
    assert_eq!(s.asked, Action::Clock { id: 0 });
    s.answer(Event::Time((998, 200)));
    let mut left = Vec::new();
    push_time(&mut left, (1, 999_999_900));
    assert_eq!(s.asked, Action::Write { pid: CHILD, addr: SPACE, bytes: left });
    s.answer(Event::Done);
    let patched = s.set_regs();
    assert_eq!(patched, Regs { rsi: 0, rsp: SPACE, r10: SPACE, ..regs });
    s.answer(Event::Done);
    s.expect_resume(CHILD, true, None);
    s.exit(Regs { rax: (-110i64) as u64, ..patched });
    assert_eq!(s.set_regs(), Regs { rax: (-110i64) as u64, rsp: regs.rsp, ..patched });
    s.answer(Event::Done);
    s.expect_resume(CHILD, true, None);
    // Where the timeout cannot be converted the call is left as it is.
    for steps in [
        vec![Event::Failed],
        vec![Event::Bytes(vec![0; 16]), Event::Failed],
        vec![Event::Bytes(vec![0; 16]), Event::Time((1, 0)), Event::Failed],
    ] {
        s.enter(regs);
        for event in steps {
            s.answer(event);
        }
        s.expect_resume(CHILD, true, None);
        s.exit(regs);
        s.expect_resume(CHILD, true, None);
    }
}

#[test]
fn getrandom_is_filled_in() {
    let mut s = Session::start(false, oldest());
    let regs = stopped_at(318, [0x5000, 0x1_0010, 0, 0, 0, 0]);
    s.enter(regs);
    s.expect_resume(CHILD, true, None);
    s.exit(Regs { rax: 318, ..regs });
    assert_eq!(s.asked, Action::OpenRandom);
    s.answer(Event::Done);
    assert_eq!(s.asked, Action::ReadRandom { len: 0x1_0000 });
    s.answer(Event::Bytes(vec![1; 0x1_0000]));
    assert_eq!(s.asked, Action::Write { pid: CHILD, addr: 0x5000, bytes: vec![1; 0x1_0000] });
    s.answer(Event::Done);
    assert_eq!(s.asked, Action::ReadRandom { len: 0x10 });
    s.answer(Event::Bytes(vec![2; 0x10]));
    assert_eq!(s.asked, Action::Write { pid: CHILD, addr: 0x1_5000, bytes: vec![2; 0x10] });
    s.answer(Event::Done);
    assert_eq!(s.set_regs(), Regs { rax: 0x1_0010, ..regs });
    s.answer(Event::Done);
    s.expect_resume(CHILD, true, None);
    // As many bytes as the number of the call are a result, not an echo.
    let regs = stopped_at(318, [0x5000, 318, 0, 0, 0, 0]);
    s.enter(regs);
    s.expect_resume(CHILD, true, None);
    s.exit(Regs { rax: 318, ..regs });
    for event in [Event::Done, Event::Bytes(vec![3; 318]), Event::Done] {
        s.answer(event);
    }
    assert_eq!(s.set_regs(), Regs { rax: 318, ..regs });
}

#[test]
fn a_getrandom_that_cannot_be_filled_in_fails() {
    for (rdi, steps) in [
        (0, vec![]),
        (0x5000, vec![Event::Failed]),
        (0x5000, vec![Event::Done, Event::Failed]),
        (0x5000, vec![Event::Done, Event::Bytes(vec![0; 8]), Event::Failed]),
        // Fewer bytes than were asked for are none.
        (0x5000, vec![Event::Done, Event::Bytes(vec![0; 7])]),
    ] {
        let mut s = Session::start(false, oldest());
        let regs = stopped_at(318, [rdi, 8, 0, 0, 0, 0]);
        s.enter(regs);
        s.expect_resume(CHILD, true, None);
        s.exit(Regs { rax: 318, ..regs });
        for event in steps {
            s.answer(event);
        }
        assert_eq!(s.set_regs(), Regs { rax: (-38i64) as u64, ..regs });
    }
    // Asking for nothing succeeds.
    let mut s = Session::start(false, oldest());
    let regs = stopped_at(318, [0, 0, 0, 0, 0, 0]);
    s.enter(regs);
    s.expect_resume(CHILD, true, None);
    s.exit(Regs { rax: 318, ..regs });
    assert_eq!(s.set_regs(), Regs { rax: 0, ..regs });
}

#[test]
fn echoed_numbers_become_errors() {
    let mut s = Session::start(false, oldest());
    let regs = stopped_at(435, [0; 6]);
    s.enter(regs);
    s.expect_resume(CHILD, true, None);
    s.exit(Regs { rax: 435, ..regs });
    assert_eq!(s.set_regs(), Regs { rax: (-38i64) as u64, ..regs });
    s.answer(Event::Done);
    s.settle();
    // Numbers that the kernel has are not echoed.
    let regs = stopped_at(257, [0; 6]);
    s.enter(regs);
    s.expect_resume(CHILD, true, None);
    s.exit(Regs { rax: 257, ..regs });
    s.expect_resume(CHILD, true, None);
    // The result of a rewritten call is its own.
    let regs = stopped_at(291, [0; 6]);
    s.enter(regs);
    let patched = s.set_regs();
    s.answer(Event::Done);
    s.expect_resume(CHILD, true, None);
    s.exit(Regs { rax: 291, ..patched });
    s.expect_resume(CHILD, true, None);
    // On a newer kernel nothing is an echo.
    let mut s = Session::start(false, Kernel { version: Some((2, 6, 19)), ..oldest() });
    let regs = stopped_at(435, [0; 6]);
    s.enter(regs);
    s.expect_resume(CHILD, true, None);
    s.exit(Regs { rax: 435, ..regs });
    s.expect_resume(CHILD, true, None);
}

#[test]
fn the_table_of_the_kernel_bounds_the_echoes() {
    for (version, rax) in [((2, 6, 17), (-38i64) as u64), ((2, 6, 18), 279)] {
        let mut s = Session::start(false, Kernel { version: Some(version), ..oldest() });
        let regs = stopped_at(279, [0; 6]);
        s.enter(regs);
        s.expect_resume(CHILD, true, None);
        s.exit(Regs { rax: 279, ..regs });
        if rax != 279 {
            assert_eq!(s.set_regs(), Regs { rax, ..regs });
            s.answer(Event::Done);
        }
        s.expect_resume(CHILD, true, None);
        // The call before it is in both tables, and the one after it in neither.
        let regs = stopped_at(278, [0; 6]);
        s.enter(regs);
        s.expect_resume(CHILD, true, None);
        s.exit(Regs { rax: 278, ..regs });
        s.expect_resume(CHILD, true, None);
        let regs = stopped_at(280, [0; 6]);
        s.enter(regs);
        s.expect_resume(CHILD, true, None);
        s.exit(Regs { rax: 280, ..regs });
        assert_eq!(s.set_regs(), Regs { rax: (-38i64) as u64, ..regs });
    }
}

#[test]
fn a_process_that_cannot_be_read_is_resumed() {
    let mut s = Session::start(false, oldest());
    s.stop(CHILD, 0x857f);
    s.answer(Event::Failed);
    assert_eq!(s.asked, Action::GetRegs { pid: CHILD });
    s.answer(Event::Failed);
    s.expect_resume(CHILD, true, None);
    s.stop(CHILD, 0x857f);
    s.answer(Event::Failed);
    s.expect_resume(CHILD, true, None);
}

#[test]
fn signals_wait_until_an_emulation_is_over() {
    let mut s = Session::start(false, oldest());
    let regs = stopped_at(281, [4, 0x5000, 10, 0, 0x6000, 8]);
    s.stop(CHILD, 0x857f);
    s.answer(Event::Regs(regs));
    s.answer(Event::Word(0x050f));
    assert_eq!(s.set_regs().orig_rax, 14);
    s.answer(Event::Done);
    s.expect_resume(CHILD, true, None);
    // A signal arrives between the calls, and another one.
    s.stop(CHILD, 0x0a7f);
    s.expect_resume(CHILD, true, None);
    s.stop(CHILD, 0x0c7f);
    s.expect_resume(CHILD, true, None);
    // A stop is not held back.
    s.stop(CHILD, 0x057f);
    s.expect_resume(CHILD, true, Some(5));
    // The mask is set, waited on and put back.
    for (i, rax) in [0i64, -4, 0].iter().enumerate() {
        if i > 0 {
            s.stop(CHILD, 0x857f);
            s.expect_resume(CHILD, true, None);
        }
        s.exit(Regs { rax: *rax as u64, ..regs });
        assert!(matches!(s.asked, Action::SetRegs { .. }));
        s.answer(Event::Done);
        if i < 2 {
            s.expect_resume(CHILD, true, None);
        }
    }
    // They are delivered in the order they came, each once. The first stops the
    // process again on its way, and is passed on.
    s.expect_resume(CHILD, true, Some(10));
    s.stop(CHILD, 0x0a7f);
    s.expect_resume(CHILD, true, Some(10));
    s.enter(stopped_at(39, [0; 6]));
    s.expect_resume(CHILD, true, Some(12));
    s.exit(stopped_at(39, [0; 6]));
    s.expect_resume(CHILD, true, None);
}

#[test]
fn filtered_calls_are_translated() {
    let mut s = Session::start(true, oldest());
    let regs = stopped_at(293, [0x5000, 0, 0, 0, 0, 0]);
    s.stop(CHILD, 0x7_057f);
    assert_eq!(s.asked, Action::GetRegs { pid: CHILD });
    s.answer(Event::Regs(regs));
    assert_eq!(s.set_regs(), Regs { orig_rax: 22, rax: 22, ..regs });
    s.answer(Event::Done);
    s.expect_resume(CHILD, false, None);
    // Others are let through.
    s.stop(CHILD, 0x7_057f);
    s.answer(Event::Regs(stopped_at(39, [0; 6])));
    s.expect_resume(CHILD, false, None);
    s.stop(CHILD, 0x7_057f);
    s.answer(Event::Failed);
    s.expect_resume(CHILD, false, None);
    // A futex without a timeout needs no exit.
    s.stop(CHILD, 0x7_057f);
    s.answer(Event::Regs(stopped_at(202, [0, 0x80, 0, 0, 0, 0])));
    assert_eq!(s.set_regs().rsi, 0);
    s.answer(Event::Done);
    s.expect_resume(CHILD, false, None);
}

#[test]
fn the_exit_of_a_filtered_call_is_not_lost_to_a_signal() {
    let mut s = Session::start(true, oldest());
    let regs = stopped_at(332, [5, 0x1000, 0, 0, 0x2000, 0]);
    s.stop(CHILD, 0x7_057f);
    s.answer(Event::Regs(regs));
    let patched = s.set_regs();
    s.answer(Event::Done);
    s.expect_resume(CHILD, true, None);
    // The entry stop comes first.
    s.stop(CHILD, 0x857f);
    s.expect_resume(CHILD, true, None);
    s.stop(CHILD, 0x0a7f);
    s.expect_resume(CHILD, true, Some(10));
    s.exit(Regs { rax: 0, ..patched });
    assert_eq!(s.asked, Action::Read { pid: CHILD, addr: SPACE, len: 144 });
    s.answer(Event::Bytes(vec![0; 144]));
    s.answer(Event::Done);
    assert_eq!(s.set_regs().rsp, regs.rsp);
    s.answer(Event::Done);
    s.expect_resume(CHILD, false, None);
    // With nothing pending a signal is delivered as usual.
    s.stop(CHILD, 0x0a7f);
    s.expect_resume(CHILD, false, Some(10));
}

#[test]
fn a_filtered_getrandom_is_filled_in_at_its_exit() {
    let mut s = Session::start(true, oldest());
    let regs = stopped_at(318, [0x5000, 4, 0, 0, 0, 0]);
    s.stop(CHILD, 0x7_057f);
    s.answer(Event::Regs(regs));
    s.expect_resume(CHILD, true, None);
    s.stop(CHILD, 0x857f);
    s.expect_resume(CHILD, true, None);
    s.exit(regs);
    for event in [Event::Done, Event::Bytes(vec![9; 4]), Event::Done] {
        s.answer(event);
    }
    assert_eq!(s.set_regs(), Regs { rax: 4, ..regs });
    s.answer(Event::Done);
    s.expect_resume(CHILD, false, None);
}

#[test]
fn deadlines_are_served_between_waits() {
    let mut s = Session::start(false, oldest());
    s.answer(Event::WaitFailed { errno: 4 });
    assert_eq!(s.asked, Action::TakeAlarm);
    // No timer is set, so the alarm is turned off.
    s.answer(Event::Done);
    assert_eq!(s.asked, Action::SetTimer { seconds: 0, microseconds: 0 });
    s.answer(Event::Done);
    assert_eq!(s.asked, Action::Wait);
    assert_eq!(s.tracer.take_released(), Vec::<i32>::new());
}

#[test]
fn processes_do_not_share_calls() {
    let mut s = Session::start(false, oldest());
    // The child enters a statx, another process a call of its own.
    let regs = stopped_at(332, [5, 0x1000, 0, 0, 0x2000, 0]);
    s.enter(regs);
    let patched = s.set_regs();
    s.answer(Event::Done);
    s.expect_resume(CHILD, true, None);
    s.stop(7, 0x857f);
    let other = stopped_at(39, [0; 6]);
    s.answer(Event::Regs(other));
    s.answer(Event::Regs(other));
    s.expect_resume(7, true, None);
    s.stop(7, 0x857f);
    s.answer(Event::Regs(Regs { rax: 0, ..other }));
    s.expect_resume(7, true, None);
    // The statx is completed all the same.
    s.exit(Regs { rax: 0, ..patched });
    assert_eq!(s.asked, Action::Read { pid: CHILD, addr: SPACE, len: 144 });
}
