//! The seccomp filter, and how an application is started.

use sharun_compat::kernel::Kernel;
use sharun_compat::launch::{run_apprun_traced, Launch, LaunchEvent};
use sharun_compat::seccomp::{
    build_filter, exec_refused, filter_reported, install_seccomp_filter, wanted_syscalls,
    Instruction, AUDIT_ARCH_X86_64, SECCOMP_RET_ALLOW, SECCOMP_RET_TRACE,
};

fn lacking_all() -> Kernel {
    Kernel {
        version: Some((2, 6, 17)),
        ppoll_missing: true,
        epoll_create1_missing: true,
        prlimit64_missing: true,
        pipe2_missing: true,
        getrandom_missing: true,
        statx_missing: true,
        eventfd_missing: true,
        timerfd_missing: true,
        clocks: [0, 1, 2, 3, 1, 0, 1, 1],
    }
}

/// Run a filter as the kernel does.
fn run_filter(filter: &[Instruction], nr: u32, arch: u32) -> u32 {
    let mut pc = 0;
    let mut loaded = 0;
    loop {
        let i = filter[pc];
        pc += 1;
        match i.code {
            0x20 => loaded = if i.k == 0 { nr } else { arch },
            0x15 => pc += if loaded == i.k { i.jt as usize } else { i.jf as usize },
            0x06 => return i.k,
            _ => unreachable!(),
        }
    }
}

#[test]
fn calls_that_are_missing_are_wanted() {
    assert_eq!(wanted_syscalls(&lacking_all()), [202, 293, 332, 318]);
    let newer = Kernel { version: Some((2, 6, 25)), pipe2_missing: false, ..lacking_all() };
    assert_eq!(wanted_syscalls(&newer), [332, 318]);
    let unknown = Kernel { version: None, statx_missing: false, ..lacking_all() };
    assert_eq!(wanted_syscalls(&unknown), [293, 318]);
}

#[test]
fn the_filter_stops_on_wanted_calls_only() {
    let wanted = vec![202, 293, 332, 318];
    let filter = build_filter(&wanted);
    assert_eq!(filter.len(), 10);
    for nr in 0..500 {
        let verdict = if wanted.contains(&nr) { SECCOMP_RET_TRACE } else { SECCOMP_RET_ALLOW };
        assert_eq!(run_filter(&filter, nr, AUDIT_ARCH_X86_64), verdict);
        // The numbers mean something else to a 32-bit process.
        assert_eq!(run_filter(&filter, nr, 0x4000_0003), SECCOMP_RET_ALLOW);
    }
}

#[test]
fn a_filter_without_wanted_calls_allows_everything() {
    let filter = build_filter(&vec![]);
    assert_eq!(filter.len(), 5);
    assert_eq!(run_filter(&filter, 0, AUDIT_ARCH_X86_64), SECCOMP_RET_ALLOW);
}

#[test]
fn the_longest_filter_still_jumps_right() {
    let wanted: Vec<u32> = (1000..1255).collect();
    let filter = build_filter(&wanted);
    assert_eq!(run_filter(&filter, 1000, AUDIT_ARCH_X86_64), SECCOMP_RET_TRACE);
    assert_eq!(run_filter(&filter, 1254, AUDIT_ARCH_X86_64), SECCOMP_RET_TRACE);
    assert_eq!(run_filter(&filter, 1255, AUDIT_ARCH_X86_64), SECCOMP_RET_ALLOW);
}

#[test]
fn no_filter_where_programs_would_not_run() {
    assert!(install_seccomp_filter(&lacking_all(), true).is_none());
    assert_eq!(
        install_seccomp_filter(&lacking_all(), false),
        Some(build_filter(&vec![202, 293, 332, 318]))
    );
    assert!(!exec_refused(Ok(true)));
    assert!(exec_refused(Ok(false)));
    assert!(exec_refused(Err(Some(1))));
    assert!(!exec_refused(Err(Some(2))));
    assert!(!exec_refused(Err(None)));
}

#[test]
fn one_byte_reports_the_filter() {
    assert!(filter_reported(1, 1));
    assert!(!filter_reported(1, 0));
    assert!(!filter_reported(0, 1));
    assert!(!filter_reported(-1, 1));
}

#[test]
fn the_child_asks_to_be_traced_and_stops() {
    let mut at = Launch::ProbePtrace;
    let mut seen = vec![at];
    for event in [
        LaunchEvent::Yes,
        LaunchEvent::No,
        LaunchEvent::Yes,
        LaunchEvent::Child,
        LaunchEvent::Yes,
        LaunchEvent::Yes,
        LaunchEvent::Yes,
        LaunchEvent::Yes,
    ] {
        at = run_apprun_traced(at, event);
        seen.push(at);
    }
    assert_eq!(
        seen,
        [
            Launch::ProbePtrace,
            Launch::ProbeExec,
            Launch::OpenPipe,
            Launch::Fork { pipe: true },
            Launch::TraceMe { pipe: true },
            Launch::InstallFilter { pipe: true },
            Launch::Report { installed: true },
            Launch::Stop,
            Launch::Run,
        ]
    );
    assert_eq!(run_apprun_traced(at, LaunchEvent::No), Launch::Run);
}

#[test]
fn the_parent_supervises() {
    let fork = Launch::Fork { pipe: true };
    let read = run_apprun_traced(fork, LaunchEvent::Parent);
    assert_eq!(read, Launch::ReadReport);
    assert_eq!(
        run_apprun_traced(read, LaunchEvent::Reported { read: 1, byte: 1 }),
        Launch::Supervise { use_seccomp: true }
    );
    assert_eq!(
        run_apprun_traced(read, LaunchEvent::Reported { read: 0, byte: 0 }),
        Launch::Supervise { use_seccomp: false }
    );
    assert_eq!(
        run_apprun_traced(Launch::Fork { pipe: false }, LaunchEvent::Parent),
        Launch::Supervise { use_seccomp: false }
    );
}

#[test]
fn failures_leave_the_application_to_run() {
    assert_eq!(run_apprun_traced(Launch::ProbePtrace, LaunchEvent::No), Launch::Run);
    assert_eq!(run_apprun_traced(Launch::Fork { pipe: true }, LaunchEvent::No), Launch::Run);
    assert_eq!(run_apprun_traced(Launch::TraceMe { pipe: false }, LaunchEvent::No), Launch::Run);
    let hush = run_apprun_traced(Launch::TraceMe { pipe: true }, LaunchEvent::No);
    assert_eq!(hush, Launch::Hush);
    assert_eq!(run_apprun_traced(hush, LaunchEvent::Yes), Launch::Run);
    // Without a pipe nothing is reported, but the child still stops.
    assert_eq!(
        run_apprun_traced(Launch::InstallFilter { pipe: false }, LaunchEvent::Yes),
        Launch::Stop
    );
}
