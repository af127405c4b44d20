//! Emulated calls, driven from stop to stop.

use sharun_compat::abi::Regs;
use sharun_compat::emulated_syscalls::{Emulations, Progress};
use sharun_compat::kernel::Kernel;
use sharun_compat::protocol::{Action, Event};
use sharun_compat::time::push_time;

const PID: i32 = 42;
const SPACE: u64 = 0x7ffe_fe00;

fn at_call(nr: u64, args: [u64; 6]) -> Regs {
    Regs {
        r15: 0, r14: 0, r13: 0, r12: 0, rbp: 0, rbx: 0, r11: 0x202, r10: args[3], r9: args[5],
        r8: args[4], rax: (-38i64) as u64, rcx: 0, rdx: args[2], rsi: args[1], rdi: args[0],
        orig_rax: nr, rip: 0x40_1002, cs: 0x33, eflags: 0, rsp: 0x7fff_0008, ss: 0, fs_base: 0,
        gs_base: 0, ds: 0, es: 0, fs: 0, gs: 0,
    }
}

fn ancient() -> Kernel {
    Kernel {
        version: Some((2, 6, 17)),
        ppoll_missing: true,
        epoll_create1_missing: true,
        prlimit64_missing: true,
        pipe2_missing: true,
        getrandom_missing: true,
        statx_missing: true,
        eventfd_missing: true,
        timerfd_missing: true,
        clocks: [0, 1, 2, 3, 1, 0, 1, 1],
    }
}

/// Answer the actions of an operation in turn; what it asked for, and how it ended.
fn drive(
    e: &mut Emulations,
    first: Progress<Vec<u8>>,
    kernel: &Kernel,
    answers: Vec<Event<Vec<u8>>>,
) -> (Vec<Action<Vec<u8>>>, bool) {
    let mut progress = first;
    let mut asked = Vec::new();
    let mut answers = answers.into_iter();
    loop {
        match progress {
            Progress::Done(taken) => {
                assert!(answers.next().is_none(), "too many answers after {asked:?}");
                return (asked, taken);
            },
            Progress::Act(action, at) => {
                asked.push(action);
                let event = answers.next().expect("no answer left");
                progress = e.proceed(PID, at, event, kernel);
            },
        }
    }
}

fn begin(e: &mut Emulations, regs: Regs, rest: Vec<Event<Vec<u8>>>) -> (Vec<Action<Vec<u8>>>, bool) {
    let first = e.begin(PID, true);
    let mut answers = vec![Event::Regs(regs)];
    answers.extend(rest);
    drive(e, first, &ancient(), answers)
}

fn step(e: &mut Emulations, answers: Vec<Event<Vec<u8>>>) -> Vec<Action<Vec<u8>>> {
    let first = e.step(PID);
    drive(e, first, &ancient(), answers).0
}

/// The registers that an operation wrote last.
fn written(asked: &[Action<Vec<u8>>]) -> Regs {
    match asked.last() {
        Some(Action::SetRegs { pid: PID, regs }) => *regs,
        other => panic!("no registers: {other:?}"),
    }
}

fn call_of(regs: Regs) -> (u64, [u64; 6]) {
    assert_eq!(regs.orig_rax, regs.rax);
    (regs.orig_rax, [regs.rdi, regs.rsi, regs.rdx, regs.r10, regs.r8, regs.r9])
}

/// The entry stop of an injected call, then its exit with this result.
fn finish(e: &mut Emulations, regs: Regs, rax: i64, first: bool) -> Vec<Action<Vec<u8>>> {
    if !first {
        assert_eq!(step(e, vec![]), []);
    }
    step(e, vec![Event::Regs(Regs { rax: rax as u64, ..regs }), Event::Done])
}

#[test]
fn eventfd_becomes_a_socket_connected_to_itself() {
    let mut e = Emulations::new();
    let regs = at_call(290, [3, 0x800, 0, 0, 0, 0]);
    let (asked, taken) = begin(
        &mut e,
        regs,
        vec![Event::Word(0x9999_050f), Event::Done, Event::Done, Event::Done],
    );
    assert!(taken && e.busy(PID));
    assert_eq!(asked[1], Action::Peek { pid: PID, addr: 0x40_1000 });
    assert_eq!(
        asked[2],
        Action::Write { pid: PID, addr: SPACE, bytes: b"\x01\0\0sharun-efd-42-0".to_vec() }
    );
    assert_eq!(
        asked[3],
        Action::Write { pid: PID, addr: SPACE + 256, bytes: vec![3, 0, 0, 0, 0, 0, 0, 0] }
    );
    assert_eq!(call_of(written(&asked)), (41, [1, 2, 0, 0, 0, 0]));

    let bind = written(&finish(&mut e, regs, 9, true));
    assert_eq!(call_of(bind), (49, [9, SPACE, 18, 0, 0, 0]));
    assert_eq!(bind.rip, 0x40_1000);
    let connect = written(&finish(&mut e, bind, 0, false));
    assert_eq!(call_of(connect), (42, [9, SPACE, 18, 0, 0, 0]));
    let nonblock = written(&finish(&mut e, connect, 0, false));
    assert_eq!(call_of(nonblock), (72, [9, 4, 0x800, 0, 0, 0]));
    let initial = written(&finish(&mut e, nonblock, 0, false));
    assert_eq!(call_of(initial), (1, [9, SPACE + 256, 8, 0, 0, 0]));
    let done = written(&finish(&mut e, initial, 8, false));
    // Only the result differs from what the application was stopped with.
    assert_eq!(done, Regs { rax: 9, ..regs });
    assert!(!e.busy(PID));
}

#[test]
fn successive_eventfds_have_addresses_of_their_own() {
    let mut e = Emulations::new();
    let regs = at_call(284, [0, 0, 0, 0, 0, 0]);
    for name in [&b"\x01\0\0sharun-efd-42-0"[..], &b"\x01\0\0sharun-efd-42-1"[..]] {
        let (asked, taken) = begin(&mut e, regs, vec![Event::Word(0x80cd), Event::Done, Event::Done]);
        assert!(taken);
        assert_eq!(asked[2], Action::Write { pid: PID, addr: SPACE, bytes: name.to_vec() });
        e.forget(PID);
    }
}

#[test]
fn a_failed_call_answers_with_its_error() {
    let mut e = Emulations::new();
    let regs = at_call(290, [0, 0, 0, 0, 0, 0]);
    begin(&mut e, regs, vec![Event::Word(0x050f), Event::Done, Event::Done]);
    let done = written(&finish(&mut e, regs, -24, true));
    assert_eq!(done, Regs { rax: (-24i64) as u64, ..regs });
    assert!(!e.busy(PID));
}

#[test]
fn calls_that_are_not_emulated_are_left() {
    let mut e = Emulations::new();
    let gone = |regs: Regs| {
        let mut e = Emulations::new();
        begin(&mut e, regs, vec![]).1
    };
    // An exit stop has no call to take over.
    let first = e.begin(PID, false);
    assert_eq!(drive(&mut e, first, &ancient(), vec![]), (vec![], false));
    // A 32-bit process means something else by the number.
    assert!(!gone(Regs { cs: 0x23, ..at_call(284, [0; 6]) }));
    // The initial value of an eventfd has 32 bits.
    assert!(!gone(at_call(290, [0x1_0000_0000, 0, 0, 0, 0, 0])));
    assert!(!gone(at_call(0, [0; 6])));
    assert!(!gone(at_call(72, [1, 1, 0, 0, 0, 0])));
    // No timer has this descriptor.
    assert!(!gone(at_call(286, [5, 0, 0, 0, 0, 0])));
    assert!(!gone(at_call(287, [5, 0, 0, 0, 0, 0])));
    // A kernel that has the calls.
    let modern = Kernel {
        version: Some((5, 0, 0)),
        eventfd_missing: false,
        timerfd_missing: false,
        ..ancient()
    };
    for nr in [284, 290, 283, 295, 296, 281] {
        let first = e.begin(PID, true);
        let answers = vec![Event::Regs(at_call(nr, [0; 6]))];
        assert!(!drive(&mut e, first, &modern, answers).1);
    }
    let first = e.begin(PID, true);
    let dup = vec![Event::Regs(at_call(72, [1, 1030, 0, 0, 0, 0]))];
    assert!(!drive(&mut e, first, &modern, dup).1);
    // The registers, or the instruction, cannot be read.
    let first = e.begin(PID, true);
    assert!(!drive(&mut e, first, &ancient(), vec![Event::Failed]).1);
    let regs = at_call(290, [0; 6]);
    assert!(!begin(&mut e, regs, vec![Event::Failed]).1);
    assert!(!begin(&mut e, regs, vec![Event::Word(0x1234)]).1);
    // The address, or the first call, cannot be put in place.
    assert!(!begin(&mut e, regs, vec![Event::Word(0x050f), Event::Failed]).1);
    assert!(!begin(&mut e, regs, vec![Event::Word(0x050f), Event::Done, Event::Failed]).1);
    assert!(!e.busy(PID));
}

#[test]
fn epoll_pwait_puts_the_mask_back() {
    let mut e = Emulations::new();
    let regs = at_call(281, [4, 0x5000, 10, u64::MAX, 0x6000, 8]);
    let (asked, taken) = begin(&mut e, regs, vec![Event::Word(0x050f), Event::Done]);
    assert!(taken);
    assert_eq!(call_of(written(&asked)), (14, [2, 0x6000, SPACE, 8, 0, 0]));
    let wait = written(&finish(&mut e, regs, 0, true));
    assert_eq!(call_of(wait), (232, [4, 0x5000, 10, u64::MAX, 0, 0]));
    // Also after the wait was interrupted.
    let restore = written(&finish(&mut e, wait, -4, false));
    assert_eq!(call_of(restore), (14, [2, SPACE, 0, 8, 0, 0]));
    let done = written(&finish(&mut e, restore, 0, false));
    assert_eq!(done, Regs { rax: (-4i64) as u64, ..regs });
}

#[test]
fn a_mask_that_was_not_set_is_not_put_back() {
    let mut e = Emulations::new();
    let regs = at_call(281, [4, 0x5000, 10, 0, 0x6000, 8]);
    begin(&mut e, regs, vec![Event::Word(0x050f), Event::Done]);
    let done = written(&finish(&mut e, regs, -14, true));
    assert_eq!(done, Regs { rax: (-14i64) as u64, ..regs });
}

#[test]
fn vector_io_seeks_first() {
    let mut e = Emulations::new();
    let regs = at_call(296, [7, 0x5000, 2, 4096, 0, 0]);
    let (asked, _) = begin(&mut e, regs, vec![Event::Word(0x050f), Event::Done]);
    assert_eq!(call_of(written(&asked)), (8, [7, 4096, 0, 0, 0, 0]));
    let write = written(&finish(&mut e, regs, 4096, true));
    assert_eq!(call_of(write), (20, [7, 0x5000, 2, 0, 0, 0]));
    // The answer is the transfer count, not the offset.
    assert_eq!(written(&finish(&mut e, write, 100, false)), Regs { rax: 100, ..regs });

    let regs = at_call(295, [7, 0x5000, 2, 4096, 0, 0]);
    begin(&mut e, regs, vec![Event::Word(0x050f), Event::Done]);
    let read = written(&finish(&mut e, regs, 4096, true));
    assert_eq!(call_of(read).0, 19);
    e.forget(PID);

    // Nothing is transferred where the seek failed.
    begin(&mut e, regs, vec![Event::Word(0x050f), Event::Done]);
    assert_eq!(written(&finish(&mut e, regs, -29, true)), Regs { rax: (-29i64) as u64, ..regs });
}

#[test]
fn a_duplicate_survives_a_failure_to_mark_it() {
    let mut e = Emulations::new();
    let regs = at_call(72, [1, 1030, 3, 0, 0, 0]);
    let (asked, _) = begin(&mut e, regs, vec![Event::Word(0x050f), Event::Done]);
    assert_eq!(call_of(written(&asked)), (72, [1, 0, 3, 0, 0, 0]));
    let mark = written(&finish(&mut e, regs, 11, true));
    assert_eq!(call_of(mark), (72, [11, 2, 1, 0, 0, 0]));
    assert_eq!(written(&finish(&mut e, mark, -9, false)), Regs { rax: 11, ..regs });
}

/// A timer on descriptor 5 whose handle is `handle`.
fn with_timer(e: &mut Emulations, handle: i32) {
    let regs = at_call(283, [1, 0x800, 0, 0, 0, 0]);
    let (asked, taken) = begin(e, regs, vec![Event::Word(0x050f), Event::Done]);
    assert!(taken);
    assert_eq!(call_of(written(&asked)), (22, [SPACE, 0, 0, 0, 0, 0]));
    let asked = step(
        e,
        vec![
            Event::Regs(Regs { rax: 0, ..regs }),
            Event::Bytes(vec![5, 0, 0, 0, 6, 0, 0, 0]),
            Event::Handle(handle),
            Event::Done,
        ],
    );
    assert_eq!(asked[1], Action::Read { pid: PID, addr: SPACE, len: 8 });
    assert_eq!(asked[2], Action::OpenPipe { pid: PID, fd: 6 });
    let close = written(&asked);
    assert_eq!(call_of(close), (3, [6, 0, 0, 0, 0, 0]));
    let nonblock = written(&finish(e, close, 0, false));
    assert_eq!(call_of(nonblock), (72, [5, 4, 0x800, 0, 0, 0]));
    assert_eq!(written(&finish(e, nonblock, 0, false)), Regs { rax: 5, ..regs });
}

fn setting(interval: (i64, i64), value: (i64, i64)) -> Vec<u8> {
    let mut bytes = Vec::new();
    push_time(&mut bytes, interval);
    push_time(&mut bytes, value);
    bytes
}

/// Set the timer for `value` from `now` on.
fn set(e: &mut Emulations, interval: (i64, i64), value: (i64, i64), now: (i64, i64)) {
    let regs = at_call(286, [5, 0, 0x5000, 0, 0, 0]);
    let (asked, taken) = begin(
        e,
        regs,
        vec![
            Event::Bytes(setting(interval, value)),
            Event::Time(now),
            Event::Time(now),
            Event::Done,
            Event::Done,
        ],
    );
    assert!(taken);
    assert_eq!(asked[4], Action::SetTimer { seconds: value.0, microseconds: value.1 / 1000 });
    // The call is answered when the one that stands in for it returns.
    assert_eq!(written(&asked), Regs { orig_rax: 39, rax: 39, ..regs });
    let answer = step(e, vec![Event::Regs(Regs { rax: 1234, ..regs }), Event::Done]);
    assert_eq!(written(&answer).rax, 0);
    assert!(!e.busy(PID));
}

#[test]
fn a_timer_tells_what_is_left() {
    let mut e = Emulations::new();
    with_timer(&mut e, 77);
    set(&mut e, (1, 0), (10, 500_000_000), (100, 600_000_000));
    let regs = at_call(287, [5, 0x6000, 0, 0, 0, 0]);
    let (asked, taken) = begin(
        &mut e,
        regs,
        vec![Event::Time((105, 0)), Event::Done, Event::Done],
    );
    assert!(taken);
    assert_eq!(asked[1], Action::Clock { id: 1 });
    assert_eq!(
        asked[2],
        Action::Write { pid: PID, addr: 0x6000, bytes: setting((1, 0), (6, 100_000_000)) }
    );
}

#[test]
fn a_setting_that_is_replaced_is_told() {
    let mut e = Emulations::new();
    with_timer(&mut e, 77);
    set(&mut e, (0, 0), (10, 0), (100, 0));
    let regs = at_call(286, [5, 1, 0x5000, 0x7000, 0, 0]);
    let (asked, taken) = begin(
        &mut e,
        regs,
        vec![
            Event::Bytes(setting((0, 5), (200, 0))),
            Event::Time((104, 0)),
            Event::Done,
            Event::Time((190, 0)),
            Event::Done,
            Event::Done,
        ],
    );
    assert!(taken);
    assert_eq!(
        asked[3],
        Action::Write { pid: PID, addr: 0x7000, bytes: setting((0, 0), (6, 0)) }
    );
    // An absolute deadline is not counted from now.
    assert_eq!(asked[5], Action::SetTimer { seconds: 10, microseconds: 0 });
}

#[test]
fn a_zero_value_turns_the_timer_off() {
    let mut e = Emulations::new();
    with_timer(&mut e, 77);
    set(&mut e, (0, 0), (10, 0), (100, 0));
    let regs = at_call(286, [5, 0, 0x5000, 0, 0, 0]);
    let (asked, _) = begin(
        &mut e,
        regs,
        vec![Event::Bytes(setting((0, 0), (0, 0))), Event::Done, Event::Done],
    );
    assert_eq!(asked[2], Action::SetTimer { seconds: 0, microseconds: 0 });
}

#[test]
fn expirations_are_handed_over() {
    let mut e = Emulations::new();
    with_timer(&mut e, 77);
    set(&mut e, (2, 0), (10, 0), (100, 0));
    // Nothing is done before the alarm goes off.
    let first = e.tick();
    assert_eq!(drive(&mut e, first, &ancient(), vec![Event::Failed]).0, [Action::TakeAlarm]);
    // Three periods have passed; the next one ends at 116.
    let first = e.tick();
    let (asked, _) = drive(
        &mut e,
        first,
        &ancient(),
        vec![
            Event::Done,
            Event::Time((115, 0)),
            Event::Wrote { written: 8, errno: 0 },
            Event::Time((115, 0)),
            Event::Done,
        ],
    );
    assert_eq!(
        asked,
        [
            Action::TakeAlarm,
            Action::Clock { id: 1 },
            Action::Expire { handle: 77, count: 3 },
            Action::Clock { id: 1 },
            Action::SetTimer { seconds: 1, microseconds: 0 },
        ]
    );
}

#[test]
fn a_one_shot_that_could_not_be_written_is_tried_again() {
    let mut e = Emulations::new();
    with_timer(&mut e, 77);
    set(&mut e, (0, 0), (10, 0), (100, 0));
    for attempt in 0..2 {
        let first = e.tick();
        let (asked, _) = drive(
            &mut e,
            first,
            &ancient(),
            vec![
                Event::Done,
                Event::Time((111, 0)),
                Event::Wrote { written: -1, errno: if attempt == 0 { 4 } else { 11 } },
                Event::Time((111, 0)),
                Event::Done,
            ],
        );
        assert_eq!(asked[2], Action::Expire { handle: 77, count: 1 });
        // An overdue deadline is given a microsecond.
        assert_eq!(asked[4], Action::SetTimer { seconds: 0, microseconds: 1 });
    }
    // Once it is written the timer is done.
    let first = e.tick();
    let answers = vec![
        Event::Done,
        Event::Time((112, 0)),
        Event::Wrote { written: 8, errno: 0 },
        Event::Done,
    ];
    let (asked, _) = drive(&mut e, first, &ancient(), answers);
    assert_eq!(asked[3], Action::SetTimer { seconds: 0, microseconds: 0 });
    assert_eq!(e.take_released(), Vec::<i32>::new());
}

#[test]
fn a_timer_without_a_reader_is_dropped() {
    let mut e = Emulations::new();
    with_timer(&mut e, 77);
    set(&mut e, (0, 0), (10, 0), (100, 0));
    let first = e.tick();
    let answers = vec![
        Event::Done,
        Event::Time((111, 0)),
        Event::Wrote { written: -1, errno: 32 },
        Event::Done,
    ];
    drive(&mut e, first, &ancient(), answers);
    assert_eq!(e.take_released(), [77]);
    assert_eq!(e.take_released(), Vec::<i32>::new());
    assert!(!begin(&mut e, at_call(287, [5, 0x6000, 0, 0, 0, 0]), vec![]).1);
}

#[test]
fn closing_a_timer_releases_its_handle() {
    let mut e = Emulations::new();
    with_timer(&mut e, 77);
    // The close itself is made by the application.
    assert!(!begin(&mut e, at_call(3, [5, 0, 0, 0, 0, 0]), vec![]).1);
    assert_eq!(e.take_released(), [77]);
    // A timer that takes over the descriptor has a handle of its own.
    with_timer(&mut e, 78);
    with_timer(&mut e, 79);
    assert_eq!(e.take_released(), [78]);
}

#[test]
fn a_pipe_that_cannot_be_held_is_an_error() {
    for (bytes, handle) in [(false, false), (true, false)] {
        let mut e = Emulations::new();
        let regs = at_call(283, [1, 0, 0, 0, 0, 0]);
        begin(&mut e, regs, vec![Event::Word(0x050f), Event::Done]);
        let mut answers = vec![Event::Regs(Regs { rax: 0, ..regs })];
        if bytes {
            answers.push(Event::Bytes(vec![5, 0, 0, 0, 6, 0, 0, 0]));
        }
        if !handle {
            answers.push(Event::Failed);
        }
        answers.push(Event::Done);
        let done = written(&step(&mut e, answers));
        assert_eq!(done, Regs { rax: (-5i64) as u64, ..regs });
        assert!(!e.busy(PID));
    }
}

#[test]
fn a_pipe_that_was_not_created_is_not_held() {
    let mut e = Emulations::new();
    with_timer(&mut e, 77);
    let regs = at_call(283, [1, 0, 0, 0, 0, 0]);
    begin(&mut e, regs, vec![Event::Word(0x050f), Event::Done]);
    // Whatever the scratch space holds is not read.
    let failed = Regs { rax: (-24i64) as u64, ..regs };
    let asked = step(&mut e, vec![Event::Regs(failed), Event::Done]);
    assert_eq!(asked.len(), 2);
    assert_eq!(asked[0], Action::GetRegs { pid: PID });
    assert_eq!(written(&asked), Regs { rax: (-24i64) as u64, ..regs });
    assert!(!e.busy(PID));
    assert_eq!(e.take_released(), []);
    // The timer that was there is still held.
    with_timer(&mut e, 78);
    assert_eq!(e.take_released(), [77]);
}

#[test]
fn the_nearest_deadline_sets_the_alarm() {
    let mut e = Emulations::new();
    with_timer(&mut e, 77);
    set(&mut e, (0, 0), (10, 0), (100, 0));
    // Another timer, on descriptor 8, with an earlier deadline.
    let regs = at_call(283, [0, 0, 0, 0, 0, 0]);
    begin(&mut e, regs, vec![Event::Word(0x050f), Event::Done]);
    let asked = step(
        &mut e,
        vec![
            Event::Regs(Regs { rax: 0, ..regs }),
            Event::Bytes(vec![8, 0, 0, 0, 9, 0, 0, 0]),
            Event::Handle(80),
            Event::Done,
        ],
    );
    let close = written(&asked);
    finish(&mut e, close, 0, false);
    let regs = at_call(286, [8, 0, 0x5000, 0, 0, 0]);
    let (asked, _) = begin(
        &mut e,
        regs,
        vec![
            Event::Bytes(setting((0, 0), (3, 2_000))),
            Event::Time((50, 0)),
            Event::Time((101, 0)),
            Event::Time((50, 0)),
            Event::Done,
            Event::Done,
        ],
    );
    assert_eq!(asked[3], Action::Clock { id: 1 });
    assert_eq!(asked[4], Action::Clock { id: 0 });
    assert_eq!(asked[5], Action::SetTimer { seconds: 3, microseconds: 2 });
    e.forget(PID);
    // Of two timers only the one whose deadline has passed is served.
    let first = e.tick();
    let (asked, _) = drive(
        &mut e,
        first,
        &ancient(),
        vec![
            Event::Done,
            Event::Time((101, 0)),
            Event::Time((60, 0)),
            Event::Wrote { written: 8, errno: 0 },
            Event::Failed,
            Event::Done,
        ],
    );
    assert_eq!(asked[3], Action::Expire { handle: 80, count: 1 });
    // A clock that cannot be read sets no alarm.
    assert_eq!(asked[5], Action::SetTimer { seconds: 0, microseconds: 0 });
}

#[test]
fn forgetting_one_process_leaves_the_others() {
    let mut e = Emulations::new();
    let regs = at_call(281, [0; 6]);
    begin(&mut e, regs, vec![Event::Word(0x050f), Event::Done]);
    e.forget(43);
    assert!(e.busy(PID) && !e.busy(43));
    e.forget(PID);
    assert!(!e.busy(PID));
    // A step of a process without an emulation does nothing.
    assert_eq!(step(&mut e, vec![]), []);
}

#[test]
fn a_process_that_cannot_be_read_loses_its_emulation() {
    let mut e = Emulations::new();
    let regs = at_call(281, [0; 6]);
    begin(&mut e, regs, vec![Event::Word(0x050f), Event::Done]);
    assert_eq!(step(&mut e, vec![Event::Failed]), [Action::GetRegs { pid: PID }]);
    assert!(!e.busy(PID));
}
