//! The constants are those of the system's own headers.

use goblin::elf::{dynamic, section_header};
use nix::libc;
use sharun_compat::{abi, elf, futex, seccomp, statx, termios, tracer};

#[test]
fn syscall_numbers_are_those_of_x86_64() {
    let pairs: Vec<(u64, libc::c_long)> = vec![
        (abi::SYS_WRITE, libc::SYS_write),
        (abi::SYS_CLOSE, libc::SYS_close),
        (abi::SYS_FSTAT, libc::SYS_fstat),
        (abi::SYS_POLL, libc::SYS_poll),
        (abi::SYS_LSEEK, libc::SYS_lseek),
        (abi::SYS_RT_SIGPROCMASK, libc::SYS_rt_sigprocmask),
        (abi::SYS_IOCTL, libc::SYS_ioctl),
        (abi::SYS_READV, libc::SYS_readv),
        (abi::SYS_WRITEV, libc::SYS_writev),
        (abi::SYS_PIPE, libc::SYS_pipe),
        (abi::SYS_GETPID, libc::SYS_getpid),
        (abi::SYS_SOCKET, libc::SYS_socket),
        (abi::SYS_CONNECT, libc::SYS_connect),
        (abi::SYS_BIND, libc::SYS_bind),
        (abi::SYS_FCNTL, libc::SYS_fcntl),
        (abi::SYS_GETRLIMIT, libc::SYS_getrlimit),
        (abi::SYS_SETRLIMIT, libc::SYS_setrlimit),
        (abi::SYS_FUTEX, libc::SYS_futex),
        (abi::SYS_EPOLL_CREATE, libc::SYS_epoll_create),
        (abi::SYS_CLOCK_GETTIME, libc::SYS_clock_gettime),
        (abi::SYS_CLOCK_GETRES, libc::SYS_clock_getres),
        (abi::SYS_CLOCK_NANOSLEEP, libc::SYS_clock_nanosleep),
        (abi::SYS_EPOLL_WAIT, libc::SYS_epoll_wait),
        (abi::SYS_NEWFSTATAT, libc::SYS_newfstatat),
        (abi::SYS_PPOLL, libc::SYS_ppoll),
        (abi::SYS_EPOLL_PWAIT, libc::SYS_epoll_pwait),
        (abi::SYS_TIMERFD_CREATE, libc::SYS_timerfd_create),
        (abi::SYS_EVENTFD, libc::SYS_eventfd),
        (abi::SYS_TIMERFD_SETTIME, libc::SYS_timerfd_settime),
        (abi::SYS_TIMERFD_GETTIME, libc::SYS_timerfd_gettime),
        (abi::SYS_EVENTFD2, libc::SYS_eventfd2),
        (abi::SYS_EPOLL_CREATE1, libc::SYS_epoll_create1),
        (abi::SYS_PIPE2, libc::SYS_pipe2),
        (abi::SYS_PREADV, libc::SYS_preadv),
        (abi::SYS_PWRITEV, libc::SYS_pwritev),
        (abi::SYS_PRLIMIT64, libc::SYS_prlimit64),
        (abi::SYS_GETRANDOM, libc::SYS_getrandom),
        (abi::SYS_STATX, libc::SYS_statx),
    ];
    for (ours, theirs) in pairs {
        assert_eq!(ours, theirs as u64);
    }
}

#[test]
fn errors_signals_and_flags_are_those_of_libc() {
    assert_eq!(abi::EPERM, libc::EPERM);
    assert_eq!(abi::EINTR, libc::EINTR);
    assert_eq!(abi::EIO, libc::EIO);
    assert_eq!(abi::ECHILD, libc::ECHILD);
    assert_eq!(abi::EAGAIN, libc::EAGAIN);
    assert_eq!(abi::EFAULT, libc::EFAULT);
    assert_eq!(abi::EINVAL, libc::EINVAL);
    assert_eq!(abi::ENOSYS, libc::ENOSYS);
    assert_eq!(abi::SIGILL, libc::SIGILL);
    assert_eq!(abi::SIGTRAP, libc::SIGTRAP);
    assert_eq!(abi::SIGSTOP, libc::SIGSTOP);
    assert_eq!(abi::AF_UNIX, libc::AF_UNIX as u64);
    assert_eq!(abi::SOCK_DGRAM, libc::SOCK_DGRAM as u64);
    assert_eq!(abi::F_DUPFD, libc::F_DUPFD as u64);
    assert_eq!(abi::F_SETFD, libc::F_SETFD as u64);
    assert_eq!(abi::F_SETFL, libc::F_SETFL as u64);
    assert_eq!(abi::F_DUPFD_CLOEXEC, libc::F_DUPFD_CLOEXEC as u64);
    assert_eq!(abi::FD_CLOEXEC, libc::FD_CLOEXEC as u64);
    assert_eq!(abi::O_NONBLOCK, libc::O_NONBLOCK as u64);
    assert_eq!(abi::SEEK_SET, libc::SEEK_SET as u64);
    assert_eq!(abi::SIG_SETMASK, libc::SIG_SETMASK as u64);
    assert_eq!(statx::AT_EMPTY_PATH, libc::AT_EMPTY_PATH as u64);
    assert_eq!(statx::AT_SYMLINK_NOFOLLOW, libc::AT_SYMLINK_NOFOLLOW as u64);
    assert_eq!(statx::STATX_BASIC_STATS, libc::STATX_BASIC_STATS);
    assert_eq!(statx::STAT_SIZE, std::mem::size_of::<libc::stat>());
    assert_eq!(statx::STATX_SIZE, std::mem::size_of::<libc::statx>());
    assert_eq!(termios::TCGETS, libc::TCGETS as u64);
    assert_eq!(termios::TCSETS, libc::TCSETS as u64);
    assert_eq!(termios::TCSETSW, libc::TCSETSW as u64);
    assert_eq!(termios::TCSETSF, libc::TCSETSF as u64);
    assert_eq!(termios::TCGETS2, libc::TCGETS2 as u64);
    assert_eq!(futex::FUTEX_WAIT, libc::FUTEX_WAIT as u32);
    assert_eq!(futex::FUTEX_WAKE, libc::FUTEX_WAKE as u32);
    assert_eq!(futex::FUTEX_WAIT_BITSET, libc::FUTEX_WAIT_BITSET as u32);
    assert_eq!(futex::FUTEX_WAKE_BITSET, libc::FUTEX_WAKE_BITSET as u32);
    assert_eq!(futex::FUTEX_CLOCK_REALTIME, libc::FUTEX_CLOCK_REALTIME as u32);
}

#[test]
fn tracing_and_filter_constants_are_those_of_libc() {
    assert_eq!(tracer::PTRACE_O_TRACESYSGOOD, libc::PTRACE_O_TRACESYSGOOD as u32);
    assert_eq!(tracer::PTRACE_O_TRACEFORK, libc::PTRACE_O_TRACEFORK as u32);
    assert_eq!(tracer::PTRACE_O_TRACEVFORK, libc::PTRACE_O_TRACEVFORK as u32);
    assert_eq!(tracer::PTRACE_O_TRACECLONE, libc::PTRACE_O_TRACECLONE as u32);
    assert_eq!(tracer::PTRACE_O_TRACEEXEC, libc::PTRACE_O_TRACEEXEC as u32);
    assert_eq!(tracer::PTRACE_O_TRACESECCOMP, libc::PTRACE_O_TRACESECCOMP as u32);
    assert_eq!(tracer::PTRACE_EVENT_SECCOMP, libc::PTRACE_EVENT_SECCOMP as u32);
    assert_eq!(seccomp::BPF_LD_W_ABS, (libc::BPF_LD | libc::BPF_W | libc::BPF_ABS) as u16);
    assert_eq!(seccomp::BPF_JEQ_K, (libc::BPF_JMP | libc::BPF_JEQ | libc::BPF_K) as u16);
    assert_eq!(seccomp::BPF_RET_K, (libc::BPF_RET | libc::BPF_K) as u16);
    assert_eq!(seccomp::SECCOMP_RET_ALLOW, libc::SECCOMP_RET_ALLOW);
    assert_eq!(seccomp::SECCOMP_RET_TRACE, libc::SECCOMP_RET_TRACE);
}

#[test]
fn elf_constants_are_those_of_goblin() {
    assert_eq!(elf::SHT_NULL, section_header::SHT_NULL);
    assert_eq!(elf::SHT_STRTAB, section_header::SHT_STRTAB);
    assert_eq!(elf::SHT_HASH, section_header::SHT_HASH);
    assert_eq!(elf::SHT_DYNAMIC, section_header::SHT_DYNAMIC);
    assert_eq!(elf::SHT_GNU_HASH, section_header::SHT_GNU_HASH);
    assert_eq!(elf::SHT_GNU_VERNEED, section_header::SHT_GNU_VERNEED);
    assert_eq!(elf::SHT_GNU_VERSYM, section_header::SHT_GNU_VERSYM);
    assert_eq!(elf::DT_HASH, dynamic::DT_HASH);
    assert_eq!(elf::DT_STRTAB, dynamic::DT_STRTAB);
    assert_eq!(elf::DT_STRSZ, dynamic::DT_STRSZ);
    assert_eq!(elf::DT_VERSYM, dynamic::DT_VERSYM);
    assert_eq!(elf::DT_VERNEED, dynamic::DT_VERNEED);
    assert_eq!(elf::DT_VERNEEDNUM, dynamic::DT_VERNEEDNUM);
}
