//! What the running kernel has and lacks.

use vstd::prelude::*;
use crate::abi::ENOSYS;
use crate::decimal::{chars_of, is_digit, number, parse_number};

verus! {

/// A kernel version: major, minor, patch.
pub type Version = (u64, u64, u64);

/// What was found out about the running kernel, once, before anything is traced.
#[derive(Clone, Copy, Debug)]
pub struct Kernel {
    /// The version, where the kernel tells it.
    pub version: Option<Version>,
    pub ppoll_missing: bool,
    pub epoll_create1_missing: bool,
    pub prlimit64_missing: bool,
    pub pipe2_missing: bool,
    pub getrandom_missing: bool,
    pub statx_missing: bool,
    pub eventfd_missing: bool,
    pub timerfd_missing: bool,
    /// The clock to use in place of each of the first eight clock ids.
    pub clocks: [u64; 8],
}

/// The end of the run of digits that begins at `i`.
pub open spec fn digits_end(s: Seq<char>, i: int) -> int
    decreases s.len() - i,
{
    if 0 <= i < s.len() && is_digit(s[i]) {
        digits_end(s, i + 1)
    } else {
        i
    }
}

/// The number that the run of digits at `i` spells; zero where there is none,
/// or where it does not fit.
pub open spec fn number_at(s: Seq<char>, i: int) -> u64 {
    if 0 <= i <= s.len() {
        match number(s.subrange(i, digits_end(s, i)), u64::MAX as nat) {
            Some(n) => n as u64,
            None => 0,
        }
    } else {
        0
    }
}

/// The version that a release string such as `2.6.17-10-generic` names: its first
/// three numbers, each separated from the one before it by one character.
pub open spec fn version_of(release: Seq<char>) -> Version {
    let a = 0;
    let b = digits_end(release, a) + 1;
    let c = digits_end(release, b) + 1;
    (number_at(release, a), number_at(release, b), number_at(release, c))
}

/// The order of versions.
pub open spec fn older(v: Version, w: Version) -> bool {
    v.0 < w.0 || (v.0 == w.0 && (v.1 < w.1 || (v.1 == w.1 && v.2 < w.2)))
}

/// The kernel says that it is older than `w`. One that does not say counts as new.
pub open spec fn lt(version: Option<Version>, w: Version) -> bool {
    match version {
        Some(v) => older(v, w),
        None => false,
    }
}

fn end_of_digits(s: &Vec<char>, from: usize) -> (end: usize)
    requires
        from <= s.len(),
    ensures
        end == digits_end(s@, from as int),
        from <= end <= s.len(),
{
    let mut i: usize = from;
    while i < s.len() && '0' <= s[i] && s[i] <= '9'
        invariant
            from <= i <= s.len(),
            digits_end(s@, from as int) == digits_end(s@, i as int),
        decreases s.len() - i,
    {
        i = i + 1;
    }
    i
}

/// The number at `from`, and where the next one begins.
fn read_number(s: &Vec<char>, from: Option<usize>) -> (r: (u64, Option<usize>))
    requires
        from is Some ==> from->0 <= s.len(),
    ensures
        from is None ==> r == (0u64, None::<usize>),
        from matches Some(at) ==> r.0 == number_at(s@, at as int) && match r.1 {
            Some(next) => next == digits_end(s@, at as int) + 1 && next <= s.len(),
            None => digits_end(s@, at as int) == s.len(),
        },
{
    let Some(from) = from else {
        return (0, None);
    };
    let end = end_of_digits(s, from);
    let n = match parse_number(s, from, end, u64::MAX) {
        Some(n) => n,
        None => 0,
    };
    (n, if end < s.len() { Some(end + 1) } else { None })
}

/// Read the version out of a release string.
pub fn release_version(release: &str) -> (v: Version)
    ensures
        v == version_of(release@),
{
    let s = chars_of(release);
    let (a, after_a) = read_number(&s, Some(0));
    let (b, after_b) = read_number(&s, after_a);
    let (c, _) = read_number(&s, after_b);
    (a, b, c)
}

/// Whether the kernel is older than the version named.
pub fn kernel_lt(version: Option<Version>, want_major: u64, want_minor: u64, want_patch: u64) -> (r: bool)
    ensures
        r == lt(version, (want_major, want_minor, want_patch)),
{
    match version {
        Some((a, b, c)) => {
            a < want_major || (a == want_major && (b < want_minor || (b == want_minor && c
                < want_patch)))
        },
        None => false,
    }
}

/// True when a raw result of call `nr` means that the kernel does not have it:
/// -1 with `ENOSYS`, or the number itself (seen on some old kernels, where it
/// would otherwise look like success).
pub fn not_implemented(nr: i64, rc: i64, errno: i32) -> (r: bool)
    ensures
        r == (rc == nr || (rc == -1 && errno == ENOSYS)),
{
    rc == nr || (rc == -1 && errno == ENOSYS)
}

/// Whether a probe that asked for a file descriptor was given one, which is then
/// to be closed.
pub fn probe_opened(nr: i64, rc: i64, errno: i32) -> (r: bool)
    ensures
        r == (rc >= 0 && rc != nr),
{
    !not_implemented(nr, rc, errno) && rc >= 0
}

/// Whether the kernel lacks the termios2 requests, which arrived in 2.6.20.
pub fn termios2_missing(version: Option<Version>) -> (r: bool)
    ensures
        r == lt(version, (2, 6, 20)),
{
    kernel_lt(version, 2, 6, 20)
}

/// Whether the kernel can answer a call that it does not have with the call's own
/// number. Kernels before 2.6.19 do so to a process that is being traced.
pub fn kernel_echoes_number(version: Option<Version>) -> (r: bool)
    ensures
        r == lt(version, (2, 6, 19)),
{
    kernel_lt(version, 2, 6, 19)
}

/// Whether the kernel is old enough to plausibly need the layer. The probe for
/// `statx` is made only where the version does not decide.
pub fn needs_compat(version: Option<Version>, statx_missing: impl FnOnce() -> bool) -> (r: bool)
    requires
        statx_missing.requires(()),
    ensures
        lt(version, (4, 0, 0)) ==> r,
        !lt(version, (4, 0, 0)) ==> statx_missing.ensures((), r),
{
    if kernel_lt(version, 4, 0, 0) {
        return true;
    }
    statx_missing()
}

/// Whether the tracer should run for this launch. An application that ships
/// 32-bit libraries is left alone; otherwise the setting decides, and where there
/// is none the kernel does.
pub fn enabled(has_lib32: bool, setting: Option<&str>, needs_compat: impl FnOnce() -> bool) -> (r:
    bool)
    requires
        needs_compat.requires(()),
    ensures
        has_lib32 ==> !r,
        !has_lib32 ==> match setting {
            Some(s) => r == (s@ != seq!['0']),
            None => needs_compat.ensures((), r),
        },
{
    if has_lib32 {
        return false;
    }
    match setting {
        Some(s) => {
            let v = chars_of(s);
            let zero = v.len() == 1 && v[0] == '0';
            assert(zero ==> s@ =~= seq!['0']);
            !zero
        },
        None => needs_compat(),
    }
}

/// The clock that stands in for the clock `id` where the kernel lacks it:
/// `CLOCK_MONOTONIC_RAW`, `CLOCK_MONOTONIC_COARSE` and `CLOCK_BOOTTIME` become
/// `CLOCK_MONOTONIC`, `CLOCK_REALTIME_COARSE` becomes `CLOCK_REALTIME`.
pub open spec fn fallback_clock(id: int) -> u64 {
    if id == 5 { 0 } else { 1 }
}

/// Build the table of clocks from which of the ids 4 to 7 the kernel answers.
/// Every other id stands for itself.
pub fn clockid_replacements(answered: [bool; 4]) -> (clocks: [u64; 8])
    ensures
        forall|id: int|
            0 <= id < 8 ==> #[trigger] clocks[id] == if id >= 4 && !answered[id - 4] {
                fallback_clock(id)
            } else {
                id as u64
            },
{
    [
        0,
        1,
        2,
        3,
        if answered[0] { 4 } else { 1 },
        if answered[1] { 5 } else { 0 },
        if answered[2] { 6 } else { 1 },
        if answered[3] { 7 } else { 1 },
    ]
}

/// The clock to use for `id`.
pub open spec fn clock_for(k: Kernel, id: u64) -> u64 {
    if id < 8 { k.clocks[id as int] } else { id }
}

/// The clock to use for `id`: an id outside the table stands for itself.
pub fn replace_clock(k: &Kernel, id: u64) -> (r: u64)
    ensures
        r == clock_for(*k, id),
{
    if id < 8 { k.clocks[id as usize] } else { id }
}

}
