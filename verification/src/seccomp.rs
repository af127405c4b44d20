//! The seccomp filter that has the tracer stop only on the calls that the kernel
//! lacks.

use vstd::prelude::*;
use crate::abi::{EPERM, SYS_FUTEX, SYS_GETRANDOM, SYS_PIPE2, SYS_STATX};
use crate::kernel::{kernel_lt, lt, Kernel};

verus! {

/// Load the word at an offset of the call's description.
pub const BPF_LD_W_ABS: u16 = 0x20;
/// Jump if the loaded word equals the operand.
pub const BPF_JEQ_K: u16 = 0x15;
/// Return the operand.
pub const BPF_RET_K: u16 = 0x06;
pub const SECCOMP_RET_ALLOW: u32 = 0x7fff_0000;
pub const SECCOMP_RET_TRACE: u32 = 0x7ff0_0000;
pub const AUDIT_ARCH_X86_64: u32 = 0xc000_003e;
/// Where the number of the call stands in its description.
pub const DATA_NR: u32 = 0;
/// Where the architecture of the call stands in its description.
pub const DATA_ARCH: u32 = 4;

/// One instruction of a filter.
#[derive(Clone, Copy, Debug, PartialEq, Eq, Structural)]
pub struct Instruction {
    pub code: u16,
    pub jt: u8,
    pub jf: u8,
    pub k: u32,
}

/// What a filter answers to a call, from the instruction at `pc` on, with `loaded`
/// in the accumulator. Instructions that it does not use have no meaning here.
pub open spec fn verdict(
    filter: Seq<Instruction>,
    pc: int,
    loaded: u32,
    nr: u32,
    arch: u32,
) -> Option<u32>
    decreases if pc < filter.len() { filter.len() - pc } else { 0 },
{
    if 0 <= pc < filter.len() {
        let i = filter[pc];
        if i.code == BPF_RET_K {
            Some(i.k)
        } else if i.code == BPF_LD_W_ABS && i.k == DATA_NR {
            verdict(filter, pc + 1, nr, nr, arch)
        } else if i.code == BPF_LD_W_ABS && i.k == DATA_ARCH {
            verdict(filter, pc + 1, arch, nr, arch)
        } else if i.code == BPF_JEQ_K {
            verdict(filter, pc + 1 + if loaded == i.k { i.jt } else { i.jf }, loaded, nr, arch)
        } else {
            None
        }
    } else {
        None
    }
}

/// The calls to stop on.
pub open spec fn lacking(k: Kernel) -> Seq<u32> {
    (if lt(k.version, (2, 6, 25)) { seq![SYS_FUTEX as u32] } else { Seq::empty() })
        + (if k.pipe2_missing { seq![SYS_PIPE2 as u32] } else { Seq::empty() })
        + (if k.statx_missing { seq![SYS_STATX as u32] } else { Seq::empty() })
        + (if k.getrandom_missing { seq![SYS_GETRANDOM as u32] } else { Seq::empty() })
}

/// The filter that stops on the calls in `wanted` and allows every other: on a
/// match it skips what is left of the comparisons.
pub open spec fn filter_for(wanted: Seq<u32>) -> Seq<Instruction> {
    let n = wanted.len();
    seq![
        Instruction { code: BPF_LD_W_ABS, jt: 0, jf: 0, k: DATA_ARCH },
        Instruction { code: BPF_JEQ_K, jt: 1, jf: 0, k: AUDIT_ARCH_X86_64 },
        Instruction { code: BPF_RET_K, jt: 0, jf: 0, k: SECCOMP_RET_ALLOW },
        Instruction { code: BPF_LD_W_ABS, jt: 0, jf: 0, k: DATA_NR },
    ] + Seq::new(
        n,
        |i: int| Instruction { code: BPF_JEQ_K, jt: (n - i) as u8, jf: 0, k: wanted[i] },
    ) + seq![Instruction { code: BPF_RET_K, jt: 0, jf: 0, k: SECCOMP_RET_ALLOW }] + if n > 0 {
        seq![Instruction { code: BPF_RET_K, jt: 0, jf: 0, k: SECCOMP_RET_TRACE }]
    } else {
        Seq::empty()
    }
}

/// The calls that the kernel actually lacks or, for `futex`, whose bitset operations
/// it lacks. On anything newer the translation is wrong or pointless, and stopping
/// just costs a signal per call.
pub fn wanted_syscalls(kernel: &Kernel) -> (wanted: Vec<u32>)
    ensures
        wanted@ == lacking(*kernel),
{
    let mut wanted: Vec<u32> = Vec::new();
    if kernel_lt(kernel.version, 2, 6, 25) {
        wanted.push(SYS_FUTEX as u32);
    }
    if kernel.pipe2_missing {
        wanted.push(SYS_PIPE2 as u32);
    }
    if kernel.statx_missing {
        wanted.push(SYS_STATX as u32);
    }
    if kernel.getrandom_missing {
        wanted.push(SYS_GETRANDOM as u32);
    }
    assert(wanted@ =~= lacking(*kernel));
    wanted
}

fn stmt(code: u16, k: u32) -> (i: Instruction)
    ensures
        i == (Instruction { code, jt: 0, jf: 0, k }),
{
    Instruction { code, jt: 0, jf: 0, k }
}

/// Build the filter that stops on the calls in `wanted`. A jump is at most 255
/// instructions long.
pub fn build_filter(wanted: &Vec<u32>) -> (filter: Vec<Instruction>)
    requires
        wanted.len() <= 255,
    ensures
        filter@ == filter_for(wanted@),
{
    let n = wanted.len();
    let mut filter: Vec<Instruction> = Vec::new();
    filter.push(stmt(BPF_LD_W_ABS, DATA_ARCH));
    filter.push(Instruction { code: BPF_JEQ_K, jt: 1, jf: 0, k: AUDIT_ARCH_X86_64 });
    filter.push(stmt(BPF_RET_K, SECCOMP_RET_ALLOW));
    filter.push(stmt(BPF_LD_W_ABS, DATA_NR));
    let mut i: usize = 0;
    while i < n
        invariant
            i <= n == wanted.len() <= 255,
            filter@ == filter_for(wanted@).take(4 + i),
        decreases n - i,
    {
        filter.push(Instruction { code: BPF_JEQ_K, jt: (n - i) as u8, jf: 0, k: wanted[i] });
        assert(filter@ =~= filter_for(wanted@).take(5 + i));
        i = i + 1;
    }
    filter.push(stmt(BPF_RET_K, SECCOMP_RET_ALLOW));
    if n > 0 {
        filter.push(stmt(BPF_RET_K, SECCOMP_RET_TRACE));
    }
    assert(filter@ =~= filter_for(wanted@));
    filter
}

/// The filter to install. There is none where it must not be installed, because
/// giving up privileges for it would make the kernel refuse to run programs: then
/// every call has to be traced.
pub fn install_seccomp_filter(kernel: &Kernel, nnp_exec_broken: bool) -> (filter: Option<
    Vec<Instruction>,
>)
    ensures
        filter is None <==> nnp_exec_broken,
        filter matches Some(f) ==> f@ == filter_for(lacking(*kernel)),
{
    if nnp_exec_broken {
        return None;
    }
    let wanted = wanted_syscalls(kernel);
    Some(build_filter(&wanted))
}

/// Whether a program that gave up gaining privileges could not be run: it failed,
/// or the kernel did not permit it.
pub fn exec_refused(outcome: Result<bool, Option<i32>>) -> (r: bool)
    ensures
        r == match outcome {
            Ok(succeeded) => !succeeded,
            Err(errno) => errno == Some(EPERM),
        },
{
    match outcome {
        Ok(succeeded) => !succeeded,
        Err(Some(errno)) => errno == EPERM,
        Err(None) => false,
    }
}

/// Whether the process reported that it installed the filter: `read` bytes came,
/// the first being `byte`.
pub fn filter_reported(read: i64, byte: u8) -> (r: bool)
    ensures
        r == (read == 1 && byte == 1),
{
    read == 1 && byte == 1
}

/// The filter stops on exactly the 64-bit calls that are wanted, and allows
/// everything else.
pub proof fn filter_stops_on_wanted(wanted: Seq<u32>, nr: u32, arch: u32)
    requires
        wanted.len() <= 255,
    ensures
        verdict(filter_for(wanted), 0, 0, nr, arch) == Some(
            if arch == AUDIT_ARCH_X86_64 && wanted.contains(nr) {
                SECCOMP_RET_TRACE
            } else {
                SECCOMP_RET_ALLOW
            },
        ),
{
    let filter = filter_for(wanted);
    comparisons_decide(wanted, 0, nr, arch);
    reveal_with_fuel(verdict, 4);
    assert(filter[0] == (Instruction { code: BPF_LD_W_ABS, jt: 0, jf: 0, k: DATA_ARCH }));
    assert(filter[1] == (Instruction { code: BPF_JEQ_K, jt: 1, jf: 0, k: AUDIT_ARCH_X86_64 }));
    assert(filter[2] == (Instruction { code: BPF_RET_K, jt: 0, jf: 0, k: SECCOMP_RET_ALLOW }));
    assert(filter[3] == (Instruction { code: BPF_LD_W_ABS, jt: 0, jf: 0, k: DATA_NR }));
    if arch == AUDIT_ARCH_X86_64 {
        assert(verdict(filter, 3, arch, nr, arch) == verdict(filter, 4, nr, nr, arch));
    }
}

/// From the comparison numbered `i` on, the filter stops on what is left in `wanted`.
proof fn comparisons_decide(wanted: Seq<u32>, i: int, nr: u32, arch: u32)
    requires
        wanted.len() <= 255,
        0 <= i <= wanted.len(),
    ensures
        verdict(filter_for(wanted), 4 + i, nr, nr, arch) == Some(
            if exists|j: int| i <= j < wanted.len() && wanted[j] == nr {
                SECCOMP_RET_TRACE
            } else {
                SECCOMP_RET_ALLOW
            },
        ),
    decreases wanted.len() - i,
{
    let filter = filter_for(wanted);
    let n = wanted.len() as int;
    if i < n {
        comparisons_decide(wanted, i + 1, nr, arch);
        assert(filter[4 + i] == (Instruction {
            code: BPF_JEQ_K,
            jt: (n - i) as u8,
            jf: 0,
            k: wanted[i],
        }));
        assert(filter[5 + n] == (Instruction {
            code: BPF_RET_K,
            jt: 0,
            jf: 0,
            k: SECCOMP_RET_TRACE,
        }));
        if wanted[i] == nr {
            assert(verdict(filter, 5 + n, nr, nr, arch) == Some(SECCOMP_RET_TRACE));
        }
    } else {
        assert(filter[4 + n] == (Instruction {
            code: BPF_RET_K,
            jt: 0,
            jf: 0,
            k: SECCOMP_RET_ALLOW,
        }));
    }
}

/// On a given kernel the filter stops on a 64-bit call exactly where the kernel lacks it, or
/// on any `futex` where the kernel is before 2.6.25. Everything else is allowed.
pub proof fn filter_stops_on_what_is_missing(k: Kernel, nr: u32, arch: u32)
    ensures
        ({
            let is_old = k.version matches Some(v) && (v.0 < 2 || v.0 == 2 && (v.1 < 6 || v.1 == 6
                && v.2 < 25));
            let missing = nr == 202 && is_old || nr == 293 && k.pipe2_missing || nr == 332
                && k.statx_missing || nr == 318 && k.getrandom_missing;
            verdict(filter_for(lacking(k)), 0, 0, nr, arch) == Some(
                if arch == 0xc000_003e && missing { 0x7ff0_0000u32 } else { 0x7fff_0000 },
            )
        }),
{
    let wanted = lacking(k);
    filter_stops_on_wanted(wanted, nr, arch);
    let a = if lt(k.version, (2, 6, 25)) { seq![202u32] } else { Seq::empty() };
    let b = if k.pipe2_missing { seq![293u32] } else { Seq::empty() };
    let c = if k.statx_missing { seq![332u32] } else { Seq::empty() };
    let d = if k.getrandom_missing { seq![318u32] } else { Seq::empty() };
    assert(wanted == a + b + c + d);
    let n = a.len() + b.len() + c.len();
    if nr == 202 && a.len() > 0 {
        assert(wanted[0] == 202);
    }
    if nr == 293 && b.len() > 0 {
        assert(wanted[a.len() as int] == 293);
    }
    if nr == 332 && c.len() > 0 {
        assert(wanted[(a.len() + b.len()) as int] == 332);
    }
    if nr == 318 && d.len() > 0 {
        assert(wanted[n as int] == 318);
    }
}

/// The filter word by word: the architecture is loaded and compared, any other than the
/// 64-bit one is allowed, then the number is loaded and compared with each call that is
/// wanted; what matches none is allowed, and what matches one is traced.
pub proof fn filter_is_made_of(wanted: Seq<u32>, i: int)
    requires
        0 < wanted.len() <= 255,
        0 <= i < wanted.len(),
    ensures
        ({
            let f = filter_for(wanted);
            let n = wanted.len();
            &&& f.len() == n + 6
            &&& f[0] == (Instruction { code: 0x20, jt: 0, jf: 0, k: 4 })
            &&& f[1] == (Instruction { code: 0x15, jt: 1, jf: 0, k: 0xc000_003e })
            &&& f[2] == (Instruction { code: 0x06, jt: 0, jf: 0, k: 0x7fff_0000 })
            &&& f[3] == (Instruction { code: 0x20, jt: 0, jf: 0, k: 0 })
            &&& f[4 + i] == (Instruction { code: 0x15, jt: (n - i) as u8, jf: 0, k: wanted[i] })
            &&& f[(4 + n) as int] == (Instruction { code: 0x06, jt: 0, jf: 0, k: 0x7fff_0000 })
            &&& f[(5 + n) as int] == (Instruction { code: 0x06, jt: 0, jf: 0, k: 0x7ff0_0000 })
        }),
{
}

}
