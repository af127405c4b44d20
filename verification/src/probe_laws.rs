//! What is found out about the kernel before anything is traced, as callers are promised it.

use vstd::prelude::*;
use crate::kernel::{
    clockid_replacements, kernel_echoes_number, kernel_lt, not_implemented, probe_opened,
    termios2_missing, Kernel, Version,
};
use crate::maps::{code_pointers, in_ranges};
use crate::seccomp::{
    exec_refused, filter_reported, filter_stops_on_what_is_missing, install_seccomp_filter,
    verdict, Instruction,
};

verus! {

/// A kernel lacks a call exactly where it gives back the number of the call, or the error
/// that says so. Only a result of zero or more that is not the number is a descriptor.
pub proof fn missing_calls_are_told(nr: i64, rc: i64, errno: i32, missing: bool, opened: bool)
    requires
        call_ensures(not_implemented, (nr, rc, errno), missing),
        call_ensures(probe_opened, (nr, rc, errno), opened),
    ensures
        rc == nr ==> missing && !opened,
        rc != nr && rc >= 0 ==> !missing && opened,
        rc != nr && rc == -1 ==> !opened && (missing <==> errno == 38),
        rc != nr && rc < -1 ==> !missing && !opened,
{
}

/// The kernel is older than a version where its own comes before it, part by part. It lacks
/// the termios2 requests before 2.6.20, and answers with the number of a call before 2.6.19.
/// One that does not tell its version lacks nothing on that account.
pub proof fn versions_tell_what_is_missing(
    version: Option<Version>,
    a: u64,
    b: u64,
    c: u64,
    is_older: bool,
    no_termios2: bool,
    echoes: bool,
)
    requires
        call_ensures(kernel_lt, (version, a, b, c), is_older),
        call_ensures(termios2_missing, (version,), no_termios2),
        call_ensures(kernel_echoes_number, (version,), echoes),
    ensures
        version is None ==> !is_older && !no_termios2 && !echoes,
        version matches Some(v) ==> {
            &&& is_older <==> v.0 < a || v.0 == a && v.1 < b || v.0 == a && v.1 == b && v.2 < c
            &&& no_termios2 <==> v.0 < 2 || v.0 == 2 && v.1 < 6 || v.0 == 2 && v.1 == 6 && v.2 < 20
            &&& echoes <==> v.0 < 2 || v.0 == 2 && v.1 < 6 || v.0 == 2 && v.1 == 6 && v.2 < 19
        },
{
}

/// Each clock that the kernel answers stands for itself, and so do those before 4. In place of
/// one that it does not answer there is the monotonic clock, or for 5 the real-time clock.
pub proof fn unanswered_clocks_are_replaced(answered: [bool; 4], clocks: [u64; 8], id: int)
    requires
        call_ensures(clockid_replacements, (answered,), clocks),
        0 <= id < 8,
    ensures
        id < 4 || answered[id - 4] ==> clocks[id] == id,
        id >= 4 && id != 5 && !answered[id - 4] ==> clocks[id] == 1,
        id == 5 && !answered[1] ==> clocks[id] == 0,
{
}

/// A program could not be run without privileges where it failed, or where the kernel did not
/// permit it; any other error says nothing of that.
pub proof fn refused_programs_are_told(
    errno: i32,
    failed: bool,
    denied: bool,
    unknown: bool,
    ran: bool,
)
    requires
        call_ensures(exec_refused, (Ok::<bool, Option<i32>>(false),), failed),
        call_ensures(exec_refused, (Ok::<bool, Option<i32>>(true),), ran),
        call_ensures(exec_refused, (Err::<bool, Option<i32>>(Some(errno)),), denied),
        call_ensures(exec_refused, (Err::<bool, Option<i32>>(None),), unknown),
    ensures
        failed && !ran && !unknown,
        denied <==> errno == 1,
{
}

/// The filter is installed where one byte was read and it is one.
pub proof fn installed_filters_are_reported(read: i64, byte: u8, installed: bool)
    requires
        call_ensures(filter_reported, (read, byte), installed),
    ensures
        read != 1 || byte != 1 ==> !installed,
        read == 1 && byte == 1 ==> installed,
{
}

/// There is a filter to install unless giving up privileges keeps programs from running. It
/// traces a 64-bit call that the kernel lacks, and `futex` before 2.6.25, and allows all else.
pub proof fn filters_are_installed(
    k: Kernel,
    broken: bool,
    filter: Option<Vec<Instruction>>,
    nr: u32,
    arch: u32,
)
    requires
        call_ensures(install_seccomp_filter, (&k, broken), filter),
    ensures
        broken ==> filter is None,
        !broken ==> filter is Some && ({
            let is_old = k.version matches Some(v) && (v.0 < 2 || v.0 == 2 && (v.1 < 6 || v.1 == 6
                && v.2 < 25));
            let missing = nr == 202 && is_old || nr == 293 && k.pipe2_missing || nr == 332
                && k.statx_missing || nr == 318 && k.getrandom_missing;
            verdict(filter->0@, 0, 0, nr, arch) == Some(
                if arch == 0xc000_003e && missing { 0x7ff0_0000u32 } else { 0x7fff_0000 },
            )
        }),
{
    filter_stops_on_what_is_missing(k, nr, arch);
}

/// The pointers into code that are found among words are the words that are not zero and lie
/// in one of the ranges.
pub proof fn code_pointers_are_found(
    words: Vec<u64>,
    ranges: Vec<(u64, u64)>,
    hits: Vec<u64>,
    w: u64,
)
    requires
        call_ensures(code_pointers, (&words, &ranges), hits),
    ensures
        hits.len() <= words.len(),
        hits@.contains(w) <==> words@.contains(w) && w != 0 && exists|i: int|
            0 <= i < ranges.len() && (#[trigger] ranges@[i]).0 <= w && w < ranges@[i].1,
{
    let is_hit = |w: u64| w != 0 && in_ranges(ranges@, w);
    words@.lemma_filter_len(is_hit);
    if words@.contains(w) && is_hit(w) {
        let i = words@.index_of(w);
        words@.lemma_filter_contains(is_hit, i);
    }
    if hits@.contains(w) {
        let i = choose|i: int| 0 <= i < hits.len() && hits@[i] == w;
        words@.lemma_filter_pred(is_hit, i);
        words@.lemma_filter_contains_rev(is_hit, w);
    }
}

}
