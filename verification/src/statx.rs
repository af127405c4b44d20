//! `statx`, which arrived in 4.11, on top of `newfstatat` and `fstat`.

use vstd::prelude::*;
use crate::abi::{
    renumbered, scratch, scratch_below, with_number, Regs, SYS_FSTAT, SYS_NEWFSTATAT,
};
use crate::bytes::{
    le16, le16_bytes, le32, le32_bytes, le64, le64_bytes, put, read_u32, read_u64, u16_at,
    u16_bytes, u16_round_trip, u32_at, u32_bytes, u32_round_trip, u64_at, u64_bytes,
    u64_round_trip, write_u16, write_u32, write_u64,
};

verus! {

/// The fields that every `struct stat` has.
pub const STATX_BASIC_STATS: u32 = 0x7ff;
pub const AT_EMPTY_PATH: u64 = 0x1000;
pub const AT_SYMLINK_NOFOLLOW: u64 = 0x100;
/// The size of `struct stat`.
pub const STAT_SIZE: usize = 144;
/// The size of `struct statx`.
pub const STATX_SIZE: usize = 256;

/// The major number of a device: twelve bits from bit 8 on, and those from bit 44.
pub open spec fn major(dev: u64) -> u32 {
    (((dev >> 8) & 0xfff) | ((dev >> 32) & !0xfffu64)) as u32
}

/// The minor number of a device: the low byte, and the bits from 20 on.
pub open spec fn minor(dev: u64) -> u32 {
    ((dev & 0xff) | ((dev >> 12) & !0xffu64)) as u32
}

/// The device with these numbers.
pub open spec fn device(major: u32, minor: u32) -> u64 {
    ((major as u64 & 0xfff) << 8) | ((major as u64 & !0xfffu64) << 32) | (minor as u64 & 0xff)
        | ((minor as u64 & !0xffu64) << 12)
}

/// What a `struct stat` says.
#[derive(Clone, Copy, Debug)]
pub struct Stat {
    pub dev: u64,
    pub ino: u64,
    pub nlink: u64,
    pub mode: u32,
    pub uid: u32,
    pub gid: u32,
    pub rdev: u64,
    pub size: u64,
    pub blksize: u64,
    pub blocks: u64,
    pub atime: u64,
    pub atime_ns: u64,
    pub mtime: u64,
    pub mtime_ns: u64,
    pub ctime: u64,
    pub ctime_ns: u64,
}

/// What the `struct stat` in `b` says.
#[verifier::opaque]
pub open spec fn stat_in(b: Seq<u8>) -> Stat {
    Stat {
        dev: le64(b, 0),
        ino: le64(b, 8),
        nlink: le64(b, 16),
        mode: le32(b, 24),
        uid: le32(b, 28),
        gid: le32(b, 32),
        rdev: le64(b, 40),
        size: le64(b, 48),
        blksize: le64(b, 56),
        blocks: le64(b, 64),
        atime: le64(b, 72),
        atime_ns: le64(b, 80),
        mtime: le64(b, 88),
        mtime_ns: le64(b, 96),
        ctime: le64(b, 104),
        ctime_ns: le64(b, 112),
    }
}

/// A number of one of three widths.
#[derive(Clone, Copy, Debug)]
pub enum Number {
    U16(u16),
    U32(u32),
    U64(u64),
}

/// How many bytes a number has.
pub open spec fn width(n: Number) -> int {
    match n {
        Number::U16(_) => 2,
        Number::U32(_) => 4,
        Number::U64(_) => 8,
    }
}

/// The bytes of a number.
#[verifier::opaque]
pub open spec fn bytes_of(n: Number) -> Seq<u8> {
    match n {
        Number::U16(v) => le16_bytes(v),
        Number::U32(v) => le32_bytes(v),
        Number::U64(v) => le64_bytes(v),
    }
}

/// A number is read at `o`.
pub open spec fn holds(s: Seq<u8>, o: int, n: Number) -> bool {
    match n {
        Number::U16(v) => le16(s, o) == v,
        Number::U32(v) => le32(s, o) == v,
        Number::U64(v) => le64(s, o) == v,
    }
}

/// The fields of the `struct statx` that says the same, each with its offset: the
/// device numbers taken apart, and the wider ones cut to the width they have there.
#[verifier::opaque]
pub open spec fn fields(stat: Stat) -> Seq<(int, Number)> {
    seq![
        (0int, Number::U32(STATX_BASIC_STATS)),
        (4int, Number::U32(stat.blksize as u32)),
        (16int, Number::U32(stat.nlink as u32)),
        (20int, Number::U32(stat.uid)),
        (24int, Number::U32(stat.gid)),
        (28int, Number::U16(stat.mode as u16)),
        (32int, Number::U64(stat.ino)),
        (40int, Number::U64(stat.size)),
        (48int, Number::U64(stat.blocks)),
        (64int, Number::U64(stat.atime)),
        (72int, Number::U32(stat.atime_ns as u32)),
        (96int, Number::U64(stat.ctime)),
        (104int, Number::U32(stat.ctime_ns as u32)),
        (112int, Number::U64(stat.mtime)),
        (120int, Number::U32(stat.mtime_ns as u32)),
        (128int, Number::U32(major(stat.rdev))),
        (132int, Number::U32(minor(stat.rdev))),
        (136int, Number::U32(major(stat.dev))),
        (140int, Number::U32(minor(stat.dev))),
    ]
}

/// A `struct statx` with the first `n` of these fields, and zero elsewhere.
pub open spec fn placed(fields: Seq<(int, Number)>, n: nat) -> Seq<u8>
    decreases n,
{
    if n == 0 {
        Seq::new(STATX_SIZE as nat, |i: int| 0u8)
    } else {
        put(placed(fields, (n - 1) as nat), fields[n - 1].0, bytes_of(fields[n - 1].1))
    }
}

/// The `struct statx` that says what the `struct stat` in `b` says.
pub open spec fn statx_of(b: Seq<u8>) -> Seq<u8> {
    placed(fields(stat_in(b)), 19)
}

/// The call that is made in place of the `statx` in `regs`, with its result in
/// scratch space. A call on a descriptor becomes `fstat`. Of the flags of any
/// other only the one that is as old as `newfstatat` is kept.
pub open spec fn stat_call(regs: Regs) -> Regs {
    let space = scratch(regs.rsp);
    if regs.rdx & AT_EMPTY_PATH != 0 {
        renumbered(Regs { rsp: space, rsi: space, rdx: 0, ..regs }, SYS_FSTAT)
    } else {
        renumbered(
            Regs { rsp: space, r10: regs.rdx & AT_SYMLINK_NOFOLLOW, rdx: space, ..regs },
            SYS_NEWFSTATAT,
        )
    }
}

/// Read the thirty-two-bit number at `o`.
pub fn rd_u32(b: &[u8], o: usize) -> (v: u32)
    requires
        o + 4 <= b.len(),
    ensures
        v == le32(b@, o as int),
{
    reveal(u32_at);
    read_u32(b, o, true)
}

/// Read the sixty-four-bit number at `o`.
pub fn rd_u64(b: &[u8], o: usize) -> (v: u64)
    requires
        o + 8 <= b.len(),
    ensures
        v == le64(b@, o as int),
{
    reveal(u64_at);
    read_u64(b, o, true)
}

/// Write the thirty-two-bit number `v` at `o`.
pub fn wr_u32(b: &mut [u8], o: usize, v: u32)
    requires
        o + 4 <= old(b).len(),
    ensures
        final(b)@ == put(old(b)@, o as int, le32_bytes(v)),
{
    reveal(u32_bytes);
    write_u32(b, o, v, true)
}

/// Write the sixty-four-bit number `v` at `o`.
pub fn wr_u64(b: &mut [u8], o: usize, v: u64)
    requires
        o + 8 <= old(b).len(),
    ensures
        final(b)@ == put(old(b)@, o as int, le64_bytes(v)),
{
    reveal(u64_bytes);
    write_u64(b, o, v, true)
}

/// The major number of a device.
pub fn dev_major(dev: u64) -> (r: u32)
    ensures
        r == major(dev),
{
    (((dev >> 8) & 0xfff) | ((dev >> 32) & !0xfffu64)) as u32
}

/// The minor number of a device.
pub fn dev_minor(dev: u64) -> (r: u32)
    ensures
        r == minor(dev),
{
    ((dev & 0xff) | ((dev >> 12) & !0xffu64)) as u32
}

/// Read a `struct stat`.
fn read_stat(stat: &[u8]) -> (r: Stat)
    requires
        stat.len() >= 120,
    ensures
        r == stat_in(stat@),
{
    reveal(stat_in);
    Stat {
        dev: rd_u64(stat, 0),
        ino: rd_u64(stat, 8),
        nlink: rd_u64(stat, 16),
        mode: rd_u32(stat, 24),
        uid: rd_u32(stat, 28),
        gid: rd_u32(stat, 32),
        rdev: rd_u64(stat, 40),
        size: rd_u64(stat, 48),
        blksize: rd_u64(stat, 56),
        blocks: rd_u64(stat, 64),
        atime: rd_u64(stat, 72),
        atime_ns: rd_u64(stat, 80),
        mtime: rd_u64(stat, 88),
        mtime_ns: rd_u64(stat, 96),
        ctime: rd_u64(stat, 104),
        ctime_ns: rd_u64(stat, 112),
    }
}

/// Write a number at `o`.
fn write_number(s: &mut Vec<u8>, o: usize, n: Number)
    requires
        o + 8 <= old(s).len(),
    ensures
        final(s)@ == put(old(s)@, o as int, bytes_of(n)),
        final(s).len() == old(s).len(),
{
    reveal(bytes_of);
    reveal(u16_bytes);
    match n {
        Number::U16(v) => write_u16(s, o, v, true),
        Number::U32(v) => wr_u32(s, o, v),
        Number::U64(v) => wr_u64(s, o, v),
    }
}

/// Build the `struct statx` that says what a `struct stat` says.
pub fn build_statx(stat: &[u8]) -> (s: Vec<u8>)
    requires
        stat.len() >= 120,
    ensures
        s@ == statx_of(stat@),
{
    let stat = read_stat(stat);
    let ghost f = fields(stat);
    proof {
        fields_are_those(stat);
    }
    let mut s: Vec<u8> = vec![0; STATX_SIZE];
    assert(s@ =~= placed(f, 0));
    write_number(&mut s, 0, Number::U32(STATX_BASIC_STATS));
    assert(s@ == placed(f, 1));
    write_number(&mut s, 4, Number::U32(stat.blksize as u32));
    assert(s@ == placed(f, 2));
    write_number(&mut s, 16, Number::U32(stat.nlink as u32));
    assert(s@ == placed(f, 3));
    write_number(&mut s, 20, Number::U32(stat.uid));
    assert(s@ == placed(f, 4));
    write_number(&mut s, 24, Number::U32(stat.gid));
    assert(s@ == placed(f, 5));
    write_number(&mut s, 28, Number::U16(stat.mode as u16));
    assert(s@ == placed(f, 6));
    write_number(&mut s, 32, Number::U64(stat.ino));
    assert(s@ == placed(f, 7));
    write_number(&mut s, 40, Number::U64(stat.size));
    assert(s@ == placed(f, 8));
    write_number(&mut s, 48, Number::U64(stat.blocks));
    assert(s@ == placed(f, 9));
    write_number(&mut s, 64, Number::U64(stat.atime));
    assert(s@ == placed(f, 10));
    write_number(&mut s, 72, Number::U32(stat.atime_ns as u32));
    assert(s@ == placed(f, 11));
    write_number(&mut s, 96, Number::U64(stat.ctime));
    assert(s@ == placed(f, 12));
    write_number(&mut s, 104, Number::U32(stat.ctime_ns as u32));
    assert(s@ == placed(f, 13));
    write_number(&mut s, 112, Number::U64(stat.mtime));
    assert(s@ == placed(f, 14));
    write_number(&mut s, 120, Number::U32(stat.mtime_ns as u32));
    assert(s@ == placed(f, 15));
    write_number(&mut s, 128, Number::U32(dev_major(stat.rdev)));
    assert(s@ == placed(f, 16));
    write_number(&mut s, 132, Number::U32(dev_minor(stat.rdev)));
    assert(s@ == placed(f, 17));
    write_number(&mut s, 136, Number::U32(dev_major(stat.dev)));
    assert(s@ == placed(f, 18));
    write_number(&mut s, 140, Number::U32(dev_minor(stat.dev)));
    assert(s@ == placed(f, 19));
    s
}

/// The registers of the call that is made in place of a `statx`.
pub fn translate_statx(regs: Regs) -> (r: Regs)
    ensures
        r == stat_call(regs),
{
    let space = scratch_below(regs.rsp);
    if regs.rdx & AT_EMPTY_PATH != 0 {
        with_number(Regs { rsp: space, rsi: space, rdx: 0, ..regs }, SYS_FSTAT)
    } else {
        with_number(
            Regs { rsp: space, r10: regs.rdx & AT_SYMLINK_NOFOLLOW, rdx: space, ..regs },
            SYS_NEWFSTATAT,
        )
    }
}

/// A device number is taken apart without loss: its two numbers make it up again,
/// and are those that it was made of.
pub proof fn devices_are_taken_apart(dev: u64, ma: u32, mi: u32)
    ensures
        device(major(dev), minor(dev)) == dev,
        major(device(ma, mi)) == ma,
        minor(device(ma, mi)) == mi,
{
    assert(device(major(dev), minor(dev)) == dev) by (bit_vector);
    assert(major(device(ma, mi)) == ma) by (bit_vector);
    assert(minor(device(ma, mi)) == mi) by (bit_vector);
}

/// A number whose bytes stand at `o` is read there.
proof fn numbers_are_read(s: Seq<u8>, o: int, n: Number)
    requires
        0 <= o,
        o + width(n) <= s.len(),
        s.subrange(o, o + width(n)) == bytes_of(n),
    ensures
        holds(s, o, n),
{
    reveal(bytes_of);
    let w = width(n);
    numbers_have_width(n);
    assert(put(s, o, bytes_of(n)) =~= s) by {
        assert forall|i: int| 0 <= i < w implies s[o + i] == bytes_of(n)[i] by {
            assert(s[o + i] == s.subrange(o, o + w)[i]);
        }
    }
    match n {
        Number::U16(v) => {
            u16_round_trip(s, o, v, true);
            reveal(u16_at);
            reveal(u16_bytes);
        },
        Number::U32(v) => {
            u32_round_trip(s, o, v, true);
            reveal(u32_at);
            reveal(u32_bytes);
        },
        Number::U64(v) => {
            u64_round_trip(s, o, v, true);
            reveal(u64_at);
            reveal(u64_bytes);
        },
    }
}

/// A number has as many bytes as it is wide.
proof fn numbers_have_width(n: Number)
    ensures
        bytes_of(n).len() == width(n),
{
    reveal(bytes_of);
}

/// The fields one by one.
#[verifier::spinoff_prover]
proof fn fields_are_those(stat: Stat)
    ensures
        fields(stat).len() == 19,
        fields(stat)[0] == (0int, Number::U32(STATX_BASIC_STATS)),
        fields(stat)[1] == (4int, Number::U32(stat.blksize as u32)),
        fields(stat)[2] == (16int, Number::U32(stat.nlink as u32)),
        fields(stat)[3] == (20int, Number::U32(stat.uid)),
        fields(stat)[4] == (24int, Number::U32(stat.gid)),
        fields(stat)[5] == (28int, Number::U16(stat.mode as u16)),
        fields(stat)[6] == (32int, Number::U64(stat.ino)),
        fields(stat)[7] == (40int, Number::U64(stat.size)),
        fields(stat)[8] == (48int, Number::U64(stat.blocks)),
        fields(stat)[9] == (64int, Number::U64(stat.atime)),
        fields(stat)[10] == (72int, Number::U32(stat.atime_ns as u32)),
        fields(stat)[11] == (96int, Number::U64(stat.ctime)),
        fields(stat)[12] == (104int, Number::U32(stat.ctime_ns as u32)),
        fields(stat)[13] == (112int, Number::U64(stat.mtime)),
        fields(stat)[14] == (120int, Number::U32(stat.mtime_ns as u32)),
        fields(stat)[15] == (128int, Number::U32(major(stat.rdev))),
        fields(stat)[16] == (132int, Number::U32(minor(stat.rdev))),
        fields(stat)[17] == (136int, Number::U32(major(stat.dev))),
        fields(stat)[18] == (140int, Number::U32(minor(stat.dev))),
{
    reveal(fields);
}

/// Where the first `n` fields end.
spec fn end(f: Seq<(int, Number)>, n: nat) -> int {
    if n == 0 { 0 } else { f[n - 1].0 + width(f[n - 1].1) }
}

/// Each of the first `n` fields begins where the one before it ends, or behind.
spec fn are_ordered(f: Seq<(int, Number)>, n: nat) -> bool
    decreases n,
{
    n > 0 ==> end(f, (n - 1) as nat) <= f[n - 1].0 && are_ordered(f, (n - 1) as nat)
}

/// Byte `k` belongs to one of the first `n` fields.
spec fn is_covered(f: Seq<(int, Number)>, n: nat, k: int) -> bool
    decreases n,
{
    n > 0 && (f[n - 1].0 <= k < end(f, n) || is_covered(f, (n - 1) as nat, k))
}

/// Fields that are in order end one after the other.
proof fn ends_are_ordered(f: Seq<(int, Number)>, n: nat, i: nat)
    requires
        are_ordered(f, n),
        i <= n,
    ensures
        0 <= end(f, i) <= end(f, n),
    decreases n,
{
    if i < n {
        ends_are_ordered(f, (n - 1) as nat, i);
    } else if n > 0 {
        ends_are_ordered(f, (n - 1) as nat, (n - 1) as nat);
    }
}

/// Fields that are in order do not change the size.
proof fn size_is_kept(f: Seq<(int, Number)>, n: nat)
    requires
        are_ordered(f, n),
        end(f, n) <= STATX_SIZE,
    ensures
        placed(f, n).len() == STATX_SIZE,
    decreases n,
{
    if n > 0 {
        ends_are_ordered(f, n, (n - 1) as nat);
        numbers_have_width(f[n - 1].1);
        size_is_kept(f, (n - 1) as nat);
    }
}

/// Fields that are in order stand at their offsets.
proof fn field_stands(f: Seq<(int, Number)>, n: nat, i: nat)
    requires
        are_ordered(f, n),
        end(f, n) <= STATX_SIZE,
        i < n,
    ensures
        0 <= f[i as int].0,
        end(f, i + 1) <= STATX_SIZE,
        placed(f, n).len() == STATX_SIZE,
        placed(f, n).subrange(f[i as int].0, end(f, i + 1)) == bytes_of(f[i as int].1),
    decreases n,
{
    let m = (n - 1) as nat;
    let at = f[i as int].0;
    ends_are_ordered(f, n, m);
    ends_are_ordered(f, n, i);
    ends_are_ordered(f, n, i + 1);
    size_is_kept(f, n);
    size_is_kept(f, m);
    numbers_have_width(f[m as int].1);
    numbers_have_width(f[i as int].1);
    if i == m {
        assert(placed(f, n).subrange(at, end(f, i + 1)) =~= bytes_of(f[i as int].1));
    } else {
        field_stands(f, m, i);
        ends_are_ordered(f, m, i + 1);
        assert(placed(f, n).subrange(at, end(f, i + 1)) =~= placed(f, m).subrange(
            at,
            end(f, i + 1),
        ));
    }
}

/// What belongs to no field is zero.
proof fn gaps_are_zero(f: Seq<(int, Number)>, n: nat, k: int)
    requires
        are_ordered(f, n),
        end(f, n) <= STATX_SIZE,
        0 <= k < STATX_SIZE,
        !is_covered(f, n, k),
    ensures
        placed(f, n)[k] == 0,
    decreases n,
{
    if n > 0 {
        ends_are_ordered(f, n, (n - 1) as nat);
        numbers_have_width(f[n - 1].1);
        size_is_kept(f, (n - 1) as nat);
        gaps_are_zero(f, (n - 1) as nat, k);
    }
}

/// The fields of a `struct statx` are in order.
#[verifier::spinoff_prover]
proof fn fields_are_ordered(stat: Stat)
    ensures
        are_ordered(fields(stat), 19),
        end(fields(stat), 19) == 144,
{
    fields_are_those(stat);
    reveal_with_fuel(are_ordered, 20);
}

/// Field `i` is read at its offset.
proof fn field_is_read(b: Seq<u8>, i: nat)
    requires
        i < 19,
    ensures
        holds(statx_of(b), fields(stat_in(b))[i as int].0, fields(stat_in(b))[i as int].1),
{
    let f = fields(stat_in(b));
    fields_are_ordered(stat_in(b));
    field_stands(f, 19, i);
    numbers_are_read(statx_of(b), f[i as int].0, f[i as int].1);
}

/// The bytes of a `struct statx` that belong to no field.
pub open spec fn is_gap(k: int) -> bool {
    8 <= k < 16 || 30 <= k < 32 || 56 <= k < 64 || 76 <= k < 96 || 108 <= k < 112 || 124 <= k < 128
        || 144 <= k < STATX_SIZE
}

/// A byte that belongs to no field is in none of them.
#[verifier::spinoff_prover]
proof fn gaps_are_not_covered(stat: Stat, k: int)
    requires
        is_gap(k),
    ensures
        !is_covered(fields(stat), 19, k),
{
    fields_are_those(stat);
    reveal_with_fuel(is_covered, 20);
}

/// The `struct statx` carries the fields of the `struct stat`, the device numbers
/// taken apart and the wider ones cut to the width they have there, and says so in
/// its mask. Nothing else in it is set.
pub proof fn fields_are_carried_over(b: Seq<u8>, stat: Stat)
    requires
        stat == stat_in(b),
    ensures
        statx_of(b).len() == STATX_SIZE,
        holds(statx_of(b), 0, Number::U32(STATX_BASIC_STATS)),
        holds(statx_of(b), 4, Number::U32(stat.blksize as u32)),
        holds(statx_of(b), 16, Number::U32(stat.nlink as u32)),
        holds(statx_of(b), 20, Number::U32(stat.uid)),
        holds(statx_of(b), 24, Number::U32(stat.gid)),
        holds(statx_of(b), 28, Number::U16(stat.mode as u16)),
        holds(statx_of(b), 32, Number::U64(stat.ino)),
        holds(statx_of(b), 40, Number::U64(stat.size)),
        holds(statx_of(b), 48, Number::U64(stat.blocks)),
        holds(statx_of(b), 64, Number::U64(stat.atime)),
        holds(statx_of(b), 72, Number::U32(stat.atime_ns as u32)),
        holds(statx_of(b), 96, Number::U64(stat.ctime)),
        holds(statx_of(b), 104, Number::U32(stat.ctime_ns as u32)),
        holds(statx_of(b), 112, Number::U64(stat.mtime)),
        holds(statx_of(b), 120, Number::U32(stat.mtime_ns as u32)),
        holds(statx_of(b), 128, Number::U32(major(stat.rdev))),
        holds(statx_of(b), 132, Number::U32(minor(stat.rdev))),
        holds(statx_of(b), 136, Number::U32(major(stat.dev))),
        holds(statx_of(b), 140, Number::U32(minor(stat.dev))),
        forall|k: int| is_gap(k) ==> #[trigger] statx_of(b)[k] == 0,
{
    fields_are_those(stat);
    fields_are_ordered(stat);
    size_is_kept(fields(stat), 19);
    field_is_read(b, 0);
    field_is_read(b, 1);
    field_is_read(b, 2);
    field_is_read(b, 3);
    field_is_read(b, 4);
    field_is_read(b, 5);
    field_is_read(b, 6);
    field_is_read(b, 7);
    field_is_read(b, 8);
    field_is_read(b, 9);
    field_is_read(b, 10);
    field_is_read(b, 11);
    field_is_read(b, 12);
    field_is_read(b, 13);
    field_is_read(b, 14);
    field_is_read(b, 15);
    field_is_read(b, 16);
    field_is_read(b, 17);
    field_is_read(b, 18);
    assert forall|k: int| is_gap(k) implies #[trigger] statx_of(b)[k] == 0 by {
        gaps_are_not_covered(stat, k);
        gaps_are_zero(fields(stat), 19, k);
    }
}

}
