//! Integers as bytes, in either byte order.

use vstd::prelude::*;

verus! {

/// The sixteen-bit number at `o`, least significant byte first.
pub open spec fn le16(b: Seq<u8>, o: int) -> u16 {
    (b[o] + b[o + 1] * 0x100) as u16
}

/// The thirty-two-bit number at `o`, least significant byte first.
pub open spec fn le32(b: Seq<u8>, o: int) -> u32 {
    (b[o] + b[o + 1] * 0x100 + b[o + 2] * 0x1_0000 + b[o + 3] * 0x100_0000) as u32
}

/// The sixty-four-bit number at `o`, least significant byte first.
pub open spec fn le64(b: Seq<u8>, o: int) -> u64 {
    (le32(b, o) + le32(b, o + 4) * 0x1_0000_0000) as u64
}

/// The sixteen-bit number at `o`, most significant byte first.
pub open spec fn be16(b: Seq<u8>, o: int) -> u16 {
    (b[o] * 0x100 + b[o + 1]) as u16
}

/// The thirty-two-bit number at `o`, most significant byte first.
pub open spec fn be32(b: Seq<u8>, o: int) -> u32 {
    (b[o] * 0x100_0000 + b[o + 1] * 0x1_0000 + b[o + 2] * 0x100 + b[o + 3]) as u32
}

/// The sixty-four-bit number at `o`, most significant byte first.
pub open spec fn be64(b: Seq<u8>, o: int) -> u64 {
    (be32(b, o) * 0x1_0000_0000 + be32(b, o + 4)) as u64
}

/// The bytes of `v`, least significant first.
pub open spec fn le16_bytes(v: u16) -> Seq<u8> {
    seq![(v % 0x100) as u8, (v / 0x100) as u8]
}

/// The bytes of `v`, least significant first.
pub open spec fn le32_bytes(v: u32) -> Seq<u8> {
    seq![
        (v % 0x100) as u8,
        (v / 0x100 % 0x100) as u8,
        (v / 0x1_0000 % 0x100) as u8,
        (v / 0x100_0000) as u8,
    ]
}

/// The bytes of `v`, least significant first.
pub open spec fn le64_bytes(v: u64) -> Seq<u8> {
    le32_bytes((v % 0x1_0000_0000) as u32) + le32_bytes((v / 0x1_0000_0000) as u32)
}

/// The bytes of `v`, most significant first.
pub open spec fn be16_bytes(v: u16) -> Seq<u8> {
    seq![(v / 0x100) as u8, (v % 0x100) as u8]
}

/// The bytes of `v`, most significant first.
pub open spec fn be32_bytes(v: u32) -> Seq<u8> {
    seq![
        (v / 0x100_0000) as u8,
        (v / 0x1_0000 % 0x100) as u8,
        (v / 0x100 % 0x100) as u8,
        (v % 0x100) as u8,
    ]
}

/// The bytes of `v`, most significant first.
pub open spec fn be64_bytes(v: u64) -> Seq<u8> {
    be32_bytes((v / 0x1_0000_0000) as u32) + be32_bytes((v % 0x1_0000_0000) as u32)
}

/// `b` with `s` in place of what stood at `o`.
pub open spec fn put(b: Seq<u8>, o: int, s: Seq<u8>) -> Seq<u8> {
    Seq::new(b.len(), |i: int| if o <= i < o + s.len() { s[i - o] } else { b[i] })
}

/// The sixteen-bit number at `off`, in the byte order that `le` names.
#[verifier::opaque]
pub open spec fn u16_at(b: Seq<u8>, off: int, le: bool) -> u16 {
    if le { le16(b, off) } else { be16(b, off) }
}

/// The thirty-two-bit number at `off`, in the byte order that `le` names.
#[verifier::opaque]
pub open spec fn u32_at(b: Seq<u8>, off: int, le: bool) -> u32 {
    if le { le32(b, off) } else { be32(b, off) }
}

/// The sixty-four-bit number at `off`, in the byte order that `le` names.
#[verifier::opaque]
pub open spec fn u64_at(b: Seq<u8>, off: int, le: bool) -> u64 {
    if le { le64(b, off) } else { be64(b, off) }
}

/// The bytes of `v` in the byte order that `le` names.
#[verifier::opaque]
pub open spec fn u16_bytes(v: u16, le: bool) -> Seq<u8> {
    if le { le16_bytes(v) } else { be16_bytes(v) }
}

/// The bytes of `v` in the byte order that `le` names.
#[verifier::opaque]
pub open spec fn u32_bytes(v: u32, le: bool) -> Seq<u8> {
    if le { le32_bytes(v) } else { be32_bytes(v) }
}

/// The bytes of `v` in the byte order that `le` names.
#[verifier::opaque]
pub open spec fn u64_bytes(v: u64, le: bool) -> Seq<u8> {
    if le { le64_bytes(v) } else { be64_bytes(v) }
}

/// Read the sixteen-bit number at `off`.
pub fn read_u16(data: &[u8], off: usize, le: bool) -> (v: u16)
    requires
        off + 2 <= data.len(),
    ensures
        v == u16_at(data@, off as int, le),
{
    reveal(u16_at);
    let a = data[off] as u16;
    let b = data[off + 1] as u16;
    if le { a + b * 0x100 } else { a * 0x100 + b }
}

/// Read the thirty-two-bit number at `off`.
pub fn read_u32(data: &[u8], off: usize, le: bool) -> (v: u32)
    requires
        off + 4 <= data.len(),
    ensures
        v == u32_at(data@, off as int, le),
{
    reveal(u32_at);
    let a = data[off] as u32;
    let b = data[off + 1] as u32;
    let c = data[off + 2] as u32;
    let d = data[off + 3] as u32;
    if le {
        a + b * 0x100 + c * 0x1_0000 + d * 0x100_0000
    } else {
        a * 0x100_0000 + b * 0x1_0000 + c * 0x100 + d
    }
}

/// Read the sixty-four-bit number at `off`.
pub fn read_u64(data: &[u8], off: usize, le: bool) -> (v: u64)
    requires
        off + 8 <= data.len(),
    ensures
        v == u64_at(data@, off as int, le),
{
    reveal(u64_at);
    reveal(u32_at);
    let first = read_u32(data, off, le) as u64;
    let second = read_u32(data, off + 4, le) as u64;
    if le { first + second * 0x1_0000_0000 } else { first * 0x1_0000_0000 + second }
}

/// Write the sixteen-bit number `v` at `off`; every other byte stays.
pub fn write_u16(data: &mut [u8], off: usize, v: u16, le: bool)
    requires
        off + 2 <= old(data).len(),
    ensures
        final(data)@ == put(old(data)@, off as int, u16_bytes(v, le)),
{
    reveal(u16_bytes);
    let low = (v % 0x100) as u8;
    let high = (v / 0x100) as u8;
    data[off] = if le { low } else { high };
    data[off + 1] = if le { high } else { low };
    assert(data@ =~= put(old(data)@, off as int, u16_bytes(v, le)));
}

/// Write the thirty-two-bit number `v` at `off`; every other byte stays.
pub fn write_u32(data: &mut [u8], off: usize, v: u32, le: bool)
    requires
        off + 4 <= old(data).len(),
    ensures
        final(data)@ == put(old(data)@, off as int, u32_bytes(v, le)),
{
    reveal(u32_bytes);
    let a = (v % 0x100) as u8;
    let b = (v / 0x100 % 0x100) as u8;
    let c = (v / 0x1_0000 % 0x100) as u8;
    let d = (v / 0x100_0000) as u8;
    data[off] = if le { a } else { d };
    data[off + 1] = if le { b } else { c };
    data[off + 2] = if le { c } else { b };
    data[off + 3] = if le { d } else { a };
    assert(data@ =~= put(old(data)@, off as int, u32_bytes(v, le)));
}

/// Write the sixty-four-bit number `v` at `off`; every other byte stays.
pub fn write_u64(data: &mut [u8], off: usize, v: u64, le: bool)
    requires
        off + 8 <= old(data).len(),
    ensures
        final(data)@ == put(old(data)@, off as int, u64_bytes(v, le)),
{
    reveal(u64_bytes);
    reveal(u32_bytes);
    let low = (v % 0x1_0000_0000) as u32;
    let high = (v / 0x1_0000_0000) as u32;
    write_u32(data, off, if le { low } else { high }, le);
    write_u32(data, off + 4, if le { high } else { low }, le);
    assert(data@ =~= put(old(data)@, off as int, u64_bytes(v, le)));
}

/// A sixteen-bit number has two bytes.
pub broadcast proof fn u16_has_two_bytes(v: u16, le: bool)
    ensures
        (#[trigger] u16_bytes(v, le)).len() == 2,
{
    reveal(u16_bytes);
}

/// A thirty-two-bit number has four bytes.
pub broadcast proof fn u32_has_four_bytes(v: u32, le: bool)
    ensures
        (#[trigger] u32_bytes(v, le)).len() == 4,
{
    reveal(u32_bytes);
}

/// A sixty-four-bit number has eight bytes.
pub broadcast proof fn u64_has_eight_bytes(v: u64, le: bool)
    ensures
        (#[trigger] u64_bytes(v, le)).len() == 8,
{
    reveal(u64_bytes);
}

/// What `write_u16` stored, `read_u16` gives back.
pub proof fn u16_round_trip(b: Seq<u8>, off: int, v: u16, le: bool)
    requires
        0 <= off,
        off + 2 <= b.len(),
    ensures
        u16_at(put(b, off, u16_bytes(v, le)), off, le) == v,
{
    reveal(u16_at);
    reveal(u16_bytes);
}

/// What `write_u32` stored, `read_u32` gives back.
pub proof fn u32_round_trip(b: Seq<u8>, off: int, v: u32, le: bool)
    requires
        0 <= off,
        off + 4 <= b.len(),
    ensures
        u32_at(put(b, off, u32_bytes(v, le)), off, le) == v,
{
    reveal(u32_at);
    reveal(u32_bytes);
}

/// What `write_u64` stored, `read_u64` gives back.
pub proof fn u64_round_trip(b: Seq<u8>, off: int, v: u64, le: bool)
    requires
        0 <= off,
        off + 8 <= b.len(),
    ensures
        u64_at(put(b, off, u64_bytes(v, le)), off, le) == v,
{
    reveal(u64_at);
    reveal(u64_bytes);
    reveal(u32_at);
    reveal(u32_bytes);
    let w = put(b, off, u64_bytes(v, le));
    let low = (v % 0x1_0000_0000) as u32;
    let high = (v / 0x1_0000_0000) as u32;
    let first = if le { low } else { high };
    let second = if le { high } else { low };
    u32_round_trip(b, off, first, le);
    u32_round_trip(b, off + 4, second, le);
    assert(u32_at(w, off, le) == first);
    assert(u32_at(w, off + 4, le) == second);
}

/// A number depends on its own bytes only.
pub proof fn u16_depends_on_its_bytes(b: Seq<u8>, c: Seq<u8>, off: int, le: bool)
    requires
        forall|i: int| off <= i < off + 2 ==> #[trigger] b[i] == c[i],
    ensures
        u16_at(b, off, le) == u16_at(c, off, le),
{
    reveal(u16_at);
}

/// A number depends on its own bytes only.
pub proof fn u32_depends_on_its_bytes(b: Seq<u8>, c: Seq<u8>, off: int, le: bool)
    requires
        forall|i: int| off <= i < off + 4 ==> #[trigger] b[i] == c[i],
    ensures
        u32_at(b, off, le) == u32_at(c, off, le),
{
    reveal(u32_at);
}

/// A number depends on its own bytes only.
pub proof fn u64_depends_on_its_bytes(b: Seq<u8>, c: Seq<u8>, off: int, le: bool)
    requires
        forall|i: int| off <= i < off + 8 ==> #[trigger] b[i] == c[i],
    ensures
        u64_at(b, off, le) == u64_at(c, off, le),
{
    reveal(u64_at);
    reveal(u32_at);
    u32_depends_on_its_bytes(b, c, off, le);
    u32_depends_on_its_bytes(b, c, off + 4, le);
}

}
