//! Numbers, times, versions and the translation of single values.

use nix::libc;
use sharun_compat::abi::{failure, scratch_below, with_call, with_number, Call, Regs};
use sharun_compat::bytes::{
    read_u16, read_u32, read_u64, write_u16, write_u32, write_u64,
};
use sharun_compat::decimal::{chars_of, parse_number, push_decimal};
use sharun_compat::futex::{timed_wait, timeout_clock, translate_futex, Futex};
use sharun_compat::kernel::{
    clockid_replacements, enabled, kernel_echoes_number, kernel_lt, needs_compat, not_implemented,
    probe_opened, release_version, replace_clock, termios2_missing, Kernel,
};
use sharun_compat::sigill::emulate_sigill;
use sharun_compat::statx::{
    build_statx, dev_major, dev_minor, rd_u32, rd_u64, translate_statx, wr_u32, wr_u64,
};
use sharun_compat::termios::{baud_from_cflag, legacy_termios_request, termios2_speeds};
use sharun_compat::time::{
    add, earlier, expirations, poll_timeout, push_time, rd64, read_time, sub,
};
use sharun_compat::wait::{decode, Wait};

fn blank() -> Regs {
    Regs {
        r15: 0, r14: 0, r13: 0, r12: 0, rbp: 0, rbx: 0, r11: 0, r10: 0, r9: 0, r8: 0, rax: 0,
        rcx: 0, rdx: 0, rsi: 0, rdi: 0, orig_rax: 0, rip: 0, cs: 0x33, eflags: 0, rsp: 0x7fff_0008,
        ss: 0, fs_base: 0, gs_base: 0, ds: 0, es: 0, fs: 0, gs: 0,
    }
}

fn modern() -> Kernel {
    Kernel {
        version: Some((6, 1, 0)),
        ppoll_missing: false,
        epoll_create1_missing: false,
        prlimit64_missing: false,
        pipe2_missing: false,
        getrandom_missing: false,
        statx_missing: false,
        eventfd_missing: false,
        timerfd_missing: false,
        clocks: [0, 1, 2, 3, 4, 5, 6, 7],
    }
}

#[test]
fn numbers_are_written_in_either_order() {
    let mut b = vec![0u8; 8];
    write_u16(&mut b, 1, 0x1234, true);
    assert_eq!(b, [0, 0x34, 0x12, 0, 0, 0, 0, 0]);
    write_u16(&mut b, 1, 0x1234, false);
    assert_eq!(b, [0, 0x12, 0x34, 0, 0, 0, 0, 0]);
    write_u32(&mut b, 4, 0xdead_beef, true);
    assert_eq!(&b[4..], [0xef, 0xbe, 0xad, 0xde]);
    write_u64(&mut b, 0, 0x0102_0304_0506_0708, false);
    assert_eq!(b, [1, 2, 3, 4, 5, 6, 7, 8]);
    assert_eq!(read_u64(&b, 0, true), 0x0807_0605_0403_0201);
    assert_eq!(read_u32(&b, 2, false), 0x0304_0506);
    assert_eq!(read_u16(&b, 6, true), 0x0807);
}

#[test]
fn numbers_round_trip_as_std_has_them() {
    for v in [0u64, 1, 0xff, 0x8000_0000_0000_0000, u64::MAX, 0x0123_4567_89ab_cdef] {
        let mut b = vec![7u8; 10];
        write_u64(&mut b, 1, v, true);
        assert_eq!(b[1..9], v.to_le_bytes());
        assert_eq!(read_u64(&b, 1, true), v);
        write_u64(&mut b, 1, v, false);
        assert_eq!(b[1..9], v.to_be_bytes());
        assert_eq!(read_u64(&b, 1, false), v);
        assert_eq!((b[0], b[9]), (7, 7));
    }
}

#[test]
fn times_carry_and_borrow() {
    assert_eq!(add((1, 600_000_000), (2, 500_000_000)), (4, 100_000_000));
    assert_eq!(sub((4, 100_000_000), (2, 500_000_000)), (1, 600_000_000));
    assert_eq!(sub((5, 0), (5, 0)), (0, 0));
    // A deadline that has passed has nothing left.
    assert_eq!(sub((1, 0), (2, 0)), (0, 0));
    assert_eq!(sub((2, 0), (2, 1)), (0, 0));
    assert!(earlier((1, 2), (1, 3)));
    assert!(!earlier((2, 0), (1, 999_999_999)));
}

#[test]
fn times_are_read_as_they_were_written() {
    let mut b = vec![9u8];
    push_time(&mut b, (-2, 5));
    assert_eq!(b.len(), 17);
    assert_eq!(rd64(&b, 1), -2);
    assert_eq!(rd64(&b, 9), 5);
    assert_eq!(read_time(&b, 1), (-2, 5));
}

#[test]
fn missed_periods_are_counted_together() {
    assert_eq!(expirations((10, 0), (0, 0), (12, 0)), (1, None));
    assert_eq!(expirations((10, 0), (1, 0), (10, 0)), (1, Some((11, 0))));
    assert_eq!(expirations((10, 0), (1, 0), (13, 500_000_000)), (4, Some((14, 0))));
}

#[test]
fn poll_timeouts_are_clamped_milliseconds() {
    assert_eq!(poll_timeout((1, 500_000_000)), 1500);
    assert_eq!(poll_timeout((0, 999_999)), 0);
    assert_eq!(poll_timeout((i64::MAX, 0)), i32::MAX);
    assert_eq!(poll_timeout((i64::MIN, 0)), -1);
    assert_eq!(poll_timeout((-1, 0)), -1);
}

#[test]
fn registers_of_calls() {
    let regs = blank();
    let call = Call { nr: 41, rdi: 1, rsi: 2, rdx: 3, r10: 4, r8: 5, r9: 6 };
    let with = with_call(regs, call);
    assert_eq!((with.orig_rax, with.rax), (41, 41));
    assert_eq!((with.rdi, with.rsi, with.rdx, with.r10, with.r8, with.r9), (1, 2, 3, 4, 5, 6));
    assert_eq!((with.rsp, with.cs), (regs.rsp, regs.cs));
    assert_eq!(with_number(regs, 39), Regs { orig_rax: 39, rax: 39, ..regs });
    assert_eq!(scratch_below(0x7fff_0008), 0x7ffe_fe00);
    assert_eq!(scratch_below(0x100) % 16, 0);
    assert_eq!(failure(38), (-38i64) as u64);
}

#[test]
fn decimal_numbers_are_read_and_written() {
    let s = chars_of("12a");
    assert_eq!(parse_number(&s, 0, 2, 100), Some(12));
    assert_eq!(parse_number(&s, 0, 2, 11), None);
    assert_eq!(parse_number(&s, 0, 3, 100), None);
    assert_eq!(parse_number(&s, 1, 1, 100), None);
    let mut out = b"n".to_vec();
    push_decimal(&mut out, 0);
    push_decimal(&mut out, 18_446_744_073_709_551_615);
    assert_eq!(out, b"n018446744073709551615");
}

#[test]
fn releases_name_versions() {
    assert_eq!(release_version("2.6.17-10-generic"), (2, 6, 17));
    assert_eq!(release_version("6.1"), (6, 1, 0));
    assert_eq!(release_version("4"), (4, 0, 0));
    assert_eq!(release_version(""), (0, 0, 0));
    assert_eq!(release_version("v5.4"), (0, 5, 4));
    // Two separators in a row leave a part empty.
    assert_eq!(release_version("5..4"), (5, 0, 4));
    assert_eq!(release_version("99999999999999999999.1"), (0, 1, 0));
}

#[test]
fn versions_are_ordered() {
    assert!(kernel_lt(Some((2, 6, 17)), 2, 6, 18));
    assert!(!kernel_lt(Some((2, 6, 18)), 2, 6, 18));
    assert!(kernel_lt(Some((2, 5, 99)), 2, 6, 0));
    assert!(!kernel_lt(Some((3, 0, 0)), 2, 6, 39));
    // A kernel that does not tell its version counts as new.
    assert!(!kernel_lt(None, 99, 0, 0));
    assert!(termios2_missing(Some((2, 6, 19))));
    assert!(!termios2_missing(Some((2, 6, 20))));
    assert!(kernel_echoes_number(Some((2, 6, 18))));
    assert!(!kernel_echoes_number(Some((2, 6, 19))));
}

#[test]
fn missing_calls_are_recognised() {
    assert!(not_implemented(318, -1, 38));
    assert!(not_implemented(318, 318, 0));
    assert!(!not_implemented(318, -1, 11));
    assert!(!not_implemented(318, 16, 38));
    assert!(probe_opened(291, 5, 0));
    assert!(!probe_opened(291, 291, 0));
    assert!(!probe_opened(291, -1, 38));
}

#[test]
fn the_layer_is_needed_on_old_kernels() {
    assert!(needs_compat(Some((3, 19, 0)), || false));
    assert!(!needs_compat(Some((4, 0, 0)), || false));
    assert!(needs_compat(Some((4, 0, 0)), || true));
    // The version decides without the probe.
    assert!(needs_compat(Some((2, 6, 17)), || panic!("probed")));
}

#[test]
fn settings_decide_whether_the_layer_runs() {
    assert!(!enabled(true, Some("1"), || true));
    assert!(!enabled(false, Some("0"), || true));
    assert!(enabled(false, Some("1"), || false));
    assert!(enabled(false, Some(""), || false));
    assert!(enabled(false, Some("00"), || false));
    assert!(enabled(false, None, || true));
    assert!(!enabled(false, None, || false));
}

#[test]
fn clocks_that_are_missing_are_replaced() {
    assert_eq!(clockid_replacements([true; 4]), [0, 1, 2, 3, 4, 5, 6, 7]);
    assert_eq!(clockid_replacements([false; 4]), [0, 1, 2, 3, 1, 0, 1, 1]);
    let kernel = Kernel { clocks: clockid_replacements([true, false, true, false]), ..modern() };
    assert_eq!(replace_clock(&kernel, 4), 4);
    assert_eq!(replace_clock(&kernel, 5), 0);
    assert_eq!(replace_clock(&kernel, 7), 1);
    assert_eq!(replace_clock(&kernel, 11), 11);
    assert_eq!(replace_clock(&kernel, u64::MAX), u64::MAX);
}

#[test]
fn wait_statuses_are_decoded() {
    assert_eq!(decode(7, 0x0300), Wait::Exited { pid: 7, code: 3 });
    assert_eq!(decode(7, 9), Wait::Signaled { pid: 7, signal: 9 });
    // The core dump bit is not part of the signal.
    assert_eq!(decode(7, 0x8b), Wait::Signaled { pid: 7, signal: 11 });
    assert_eq!(decode(7, 0x137f), Wait::Stopped { pid: 7, signal: 19 });
    // A real-time signal.
    assert_eq!(decode(7, 0x227f), Wait::Stopped { pid: 7, signal: 34 });
    assert_eq!(decode(7, 0x857f), Wait::Syscall { pid: 7 });
    assert_eq!(decode(7, 0x7_057f), Wait::Event { pid: 7, event: 7 });
}

#[test]
fn termios_requests_have_older_forms() {
    assert_eq!(legacy_termios_request(0x802c_542a), Some(0x5401));
    assert_eq!(legacy_termios_request(0x402c_542b), Some(0x5402));
    assert_eq!(legacy_termios_request(0x402c_542c), Some(0x5403));
    assert_eq!(legacy_termios_request(0x402c_542d), Some(0x5404));
    assert_eq!(legacy_termios_request(0x5401), None);
}

#[test]
fn line_speeds_are_decoded() {
    let codes: Vec<(u32, u32)> = vec![
        (libc::B0, 0), (libc::B50, 50), (libc::B75, 75), (libc::B110, 110), (libc::B134, 134),
        (libc::B150, 150), (libc::B200, 200), (libc::B300, 300), (libc::B600, 600),
        (libc::B1200, 1200), (libc::B1800, 1800), (libc::B2400, 2400), (libc::B4800, 4800),
        (libc::B9600, 9600), (libc::B19200, 19200), (libc::B38400, 38400),
        (libc::B57600, 57600), (libc::B115200, 115200), (libc::B230400, 230400),
        (libc::B460800, 460800), (libc::B500000, 500000), (libc::B576000, 576000),
        (libc::B921600, 921600), (libc::B1000000, 1000000), (libc::B1152000, 1152000),
        (libc::B1500000, 1500000), (libc::B2000000, 2000000), (libc::B2500000, 2500000),
        (libc::B3000000, 3000000), (libc::B3500000, 3500000), (libc::B4000000, 4000000),
    ];
    for (code, speed) in codes {
        assert_eq!(baud_from_cflag(code), speed);
        // Other flags do not matter.
        assert_eq!(baud_from_cflag(code | 0xcb0), speed);
    }
    assert_eq!(baud_from_cflag(0x1000), 0);
}

#[test]
fn speeds_follow_the_settings() {
    let mut termios = vec![0u8; 36];
    termios[8] = 0x0d;
    assert_eq!(termios2_speeds(Some(termios)), [0x80, 0x25, 0, 0, 0x80, 0x25, 0, 0]);
    assert_eq!(termios2_speeds(None), [0; 8]);
}

#[test]
fn devices_are_split_as_libc_splits_them() {
    for (major, minor) in [(0u32, 0u32), (8, 1), (259, 0x12345), (0xfff, 0xff), (0xabcde, 0xfffff)] {
        let dev = libc::makedev(major, minor);
        assert_eq!(dev_major(dev), major);
        assert_eq!(dev_minor(dev), minor);
    }
    assert_eq!(dev_major(u64::MAX), u32::MAX);
    assert_eq!(dev_minor(u64::MAX), u32::MAX);
}

#[test]
fn stat_becomes_statx() {
    let mut stat = vec![0u8; 144];
    wr_u64(&mut stat, 0, 0x0801);
    wr_u64(&mut stat, 8, 1_234_567);
    wr_u64(&mut stat, 16, 3);
    wr_u32(&mut stat, 24, 0o100644);
    wr_u32(&mut stat, 28, 1000);
    wr_u32(&mut stat, 32, 100);
    wr_u64(&mut stat, 40, 0x0502);
    wr_u64(&mut stat, 48, 4321);
    wr_u64(&mut stat, 56, 4096);
    wr_u64(&mut stat, 64, 16);
    for (i, off) in [72, 80, 88, 96, 104, 112].iter().enumerate() {
        wr_u64(&mut stat, *off, 100 + i as u64);
    }
    let s = build_statx(&stat);
    assert_eq!(s.len(), 256);
    assert_eq!(rd_u32(&s, 0), 0x7ff);
    assert_eq!(rd_u32(&s, 4), 4096);
    assert_eq!(rd_u64(&s, 8), 0);
    assert_eq!(rd_u32(&s, 16), 3);
    assert_eq!(rd_u32(&s, 20), 1000);
    assert_eq!(rd_u32(&s, 24), 100);
    assert_eq!(read_u16(&s, 28, true), 0o100644);
    assert_eq!(rd_u64(&s, 32), 1_234_567);
    assert_eq!(rd_u64(&s, 40), 4321);
    assert_eq!(rd_u64(&s, 48), 16);
    assert_eq!((rd_u64(&s, 64), rd_u32(&s, 72)), (100, 101));
    assert_eq!((rd_u64(&s, 80), rd_u32(&s, 88)), (0, 0));
    assert_eq!((rd_u64(&s, 96), rd_u32(&s, 104)), (104, 105));
    assert_eq!((rd_u64(&s, 112), rd_u32(&s, 120)), (102, 103));
    assert_eq!((rd_u32(&s, 128), rd_u32(&s, 132)), (5, 2));
    assert_eq!((rd_u32(&s, 136), rd_u32(&s, 140)), (8, 1));
    assert!(s[144..].iter().all(|b| *b == 0));
}

#[test]
fn statx_becomes_an_older_call() {
    let regs = Regs { orig_rax: 332, rdi: 5, rsi: 0x1000, rdx: 0x900, r10: 0x7ff, r8: 0x2000, ..blank() };
    let space = 0x7ffe_fe00;
    let by_path = translate_statx(regs);
    // Only the flag that is as old as the call is kept.
    assert_eq!(
        by_path,
        Regs { orig_rax: 262, rax: 262, rsp: space, rdx: space, r10: 0x100, ..regs }
    );
    let by_fd = translate_statx(Regs { rdx: 0x1000, ..regs });
    assert_eq!(
        by_fd,
        Regs { orig_rax: 5, rax: 5, rsp: space, rsi: space, rdx: 0, ..regs }
    );
}

#[test]
fn futex_operations_lose_flags_and_bitsets() {
    let old = Some((2, 6, 17));
    let regs = Regs { orig_rax: 202, rsi: 0x89, r10: 0, ..blank() };
    // A private wait with a bitset and no timeout is a plain wait.
    assert_eq!(translate_futex(old, regs), Futex::Rewrite(Regs { rsi: 0, ..regs }));
    assert_eq!(
        translate_futex(old, Regs { rsi: 0x8a, ..regs }),
        Futex::Rewrite(Regs { rsi: 1, ..regs })
    );
    assert_eq!(
        translate_futex(old, Regs { rsi: 0x81, ..regs }),
        Futex::Rewrite(Regs { rsi: 1, ..regs })
    );
    // A bare command is left as it is, and so is everything on a newer kernel.
    assert_eq!(translate_futex(old, Regs { rsi: 1, ..regs }), Futex::Keep);
    assert_eq!(translate_futex(Some((2, 6, 29)), regs), Futex::Keep);
    assert_eq!(translate_futex(None, regs), Futex::Keep);
    // An absolute timeout has to be made relative; that of a plain wait is.
    let timed = Regs { r10: 0x5000, ..regs };
    assert_eq!(translate_futex(old, timed), Futex::Timed);
    assert_eq!(translate_futex(old, Regs { rsi: 0x180, ..timed }), Futex::Timed);
    assert_eq!(
        translate_futex(old, Regs { rsi: 0x80, ..timed }),
        Futex::Rewrite(Regs { rsi: 0, ..timed })
    );
    assert_eq!(timeout_clock(timed), 1);
    assert_eq!(timeout_clock(Regs { rsi: 0x189, ..timed }), 0);
    let space = 0x7ffe_fe00;
    assert_eq!(timed_wait(timed), Regs { rsi: 0, rsp: space, r10: space, ..timed });
}

#[test]
fn xgetbv_is_emulated() {
    let regs = Regs { rip: 0x4000, rax: 5, rdx: 6, ..blank() };
    assert_eq!(
        emulate_sigill(regs, 0xffff_ffff_ffd0_010f),
        Some(Regs { rip: 0x4003, rax: 0, rdx: 0, ..regs })
    );
    assert_eq!(emulate_sigill(regs, 0xd0_0b0f), None);
    assert_eq!(emulate_sigill(regs, 0x0f01_d000), None);
    assert_eq!(emulate_sigill(Regs { rip: u64::MAX, ..regs }, 0xd0_010f).unwrap().rip, 2);
}
