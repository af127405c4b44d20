//! Names of symbol versions.

use vstd::prelude::*;
use crate::decimal::{chars_of, number, parse_number};
use crate::kernel::older;
use crate::text::{from_utf8_lossy, text_of};

verus! {

/// The first dot at or after `i`, or the end.
pub open spec fn dot_at(s: Seq<char>, i: int) -> int
    decreases s.len() - i,
{
    if 0 <= i < s.len() && s[i] != '.' {
        dot_at(s, i + 1)
    } else {
        i
    }
}

/// The number that a part of a version spells. A plus sign may stand before it.
pub open spec fn part_number(part: Seq<char>) -> Option<nat> {
    number(
        if part.len() > 0 && part[0] == '+' { part.skip(1) } else { part },
        u32::MAX as nat,
    )
}

/// The first `n` parts of a version, or all of them where there are fewer. Each has
/// to be a number.
pub open spec fn parts(s: Seq<char>, n: nat) -> Option<Seq<nat>>
    decreases n,
{
    if n == 0 {
        Some(Seq::empty())
    } else {
        let dot = dot_at(s, 0);
        match part_number(s.take(dot)) {
            Some(v) => if dot == s.len() {
                Some(seq![v])
            } else {
                match parts(s.skip(dot + 1), (n - 1) as nat) {
                    Some(rest) => Some(seq![v] + rest),
                    None => None,
                }
            },
            None => None,
        }
    }
}

/// Part `i` of a version, zero where it has none.
pub open spec fn part_or_zero(v: Seq<nat>, i: int) -> u64 {
    if 0 <= i < v.len() { v[i] as u64 } else { 0 }
}

/// The prefix of the names of glibc's versions.
pub open spec fn glibc_prefix() -> Seq<char> {
    seq!['G', 'L', 'I', 'B', 'C', '_']
}

/// `name` is a version of glibc before 2.17, the first with the second version of
/// the ABI.
pub open spec fn elfv1_only(name: Seq<char>) -> bool {
    &&& name.len() >= 6
    &&& name.take(6) == glibc_prefix()
    &&& match parts(name.skip(6), 3) {
        Some(v) => older(
            (part_or_zero(v, 0), part_or_zero(v, 1), part_or_zero(v, 2)),
            (2, 17, 0),
        ),
        None => false,
    }
}

/// One step of the hash function.
pub open spec fn hash_step(h: u32, c: u8) -> u32 {
    let sum = (h << 4).wrapping_add(c as u32);
    let top = sum & 0xf000_0000;
    (sum ^ (top >> 24)) & !top
}

/// The hash of a name, as the dynamic linker computes it.
pub open spec fn hash_of(name: Seq<u8>) -> u32
    decreases name.len(),
{
    if name.len() == 0 {
        0
    } else {
        hash_step(hash_of(name.drop_last()), name.last())
    }
}

/// The first NUL at or after `i`, or the end.
pub open spec fn nul_at(data: Seq<u8>, i: int) -> int
    decreases data.len() - i,
{
    if 0 <= i < data.len() && data[i] != 0 {
        nul_at(data, i + 1)
    } else {
        i
    }
}

/// There is a string at `off`: a NUL ends it.
pub open spec fn has_string(data: Seq<u8>, off: int) -> bool {
    0 <= off < data.len() && nul_at(data, off) < data.len()
}

/// The string at `off`, without the NUL that ends it.
pub open spec fn string_at(data: Seq<u8>, off: int) -> Seq<u8> {
    data.subrange(off, nul_at(data, off))
}

/// Dots are found at the same places in what follows `from`.
proof fn dot_shifts(s: Seq<char>, from: int, i: int)
    requires
        0 <= from,
        0 <= i,
        from + i <= s.len(),
    ensures
        dot_at(s, from + i) == from + dot_at(s.skip(from), i),
    decreases s.len() - from - i,
{
    if from + i < s.len() && s[from + i] != '.' {
        dot_shifts(s, from, i + 1);
    }
}

/// The number that the characters from `from` up to `to` spell.
fn read_part(s: &Vec<char>, from: usize, to: usize) -> (r: Option<u64>)
    requires
        from <= to <= s.len(),
    ensures
        match r {
            Some(v) => part_number(s@.subrange(from as int, to as int)) == Some(v as nat) && v
                <= u32::MAX,
            None => part_number(s@.subrange(from as int, to as int)) is None,
        },
{
    let ghost part = s@.subrange(from as int, to as int);
    if from < to && s[from] == '+' {
        assert(part.skip(1) =~= s@.subrange(from + 1, to as int));
        return parse_number(s, from + 1, to, u32::MAX as u64);
    }
    parse_number(s, from, to, u32::MAX as u64)
}

/// The first three parts of the version that begins at `from`.
fn read_parts(s: &Vec<char>, from: usize) -> (r: Option<(u64, u64, u64)>)
    requires
        from <= s.len(),
    ensures
        match (r, parts(s@.skip(from as int), 3)) {
            (Some((a, b, c)), Some(v)) => a == part_or_zero(v, 0) && b == part_or_zero(v, 1) && c
                == part_or_zero(v, 2),
            (None, None) => true,
            _ => false,
        },
{
    let mut nums: [u64; 3] = [0, 0, 0];
    let ghost mut read: Seq<nat> = Seq::empty();
    let mut at: usize = from;
    let mut n: usize = 0;
    let mut ended = false;
    while n < 3 && !ended
        invariant
            n <= 3,
            at <= s.len(),
            read.len() == n,
            forall|i: int| 0 <= i < 3 ==> #[trigger] nums[i] == part_or_zero(read, i),
            !ended ==> parts(s@.skip(from as int), 3) == match parts(
                s@.skip(at as int),
                (3 - n) as nat,
            ) {
                Some(rest) => Some(read + rest),
                None => None,
            },
            ended ==> parts(s@.skip(from as int), 3) == Some(read),
        decreases 3 - n, if ended { 0int } else { 1int },
    {
        let ghost was = at;
        let ghost rest = s@.skip(at as int);
        let mut dot: usize = at;
        while dot < s.len() && s[dot] != '.'
            invariant
                at <= dot <= s.len(),
                dot_at(s@, at as int) == dot_at(s@, dot as int),
            decreases s.len() - dot,
        {
            dot = dot + 1;
        }
        proof {
            dot_shifts(s@, at as int, 0);
            assert(rest.take(dot - at) =~= s@.subrange(at as int, dot as int));
            reveal_with_fuel(parts, 2);
        }
        match read_part(s, at, dot) {
            Some(v) => {
                nums[n] = v;
                let ghost before = read;
                proof {
                    read = read.push(v as nat);
                }
                n = n + 1;
                if dot == s.len() {
                    ended = true;
                    assert(before + seq![v as nat] =~= read);
                } else {
                    at = dot + 1;
                    proof {
                        assert(rest.skip(dot - was + 1) =~= s@.skip(at as int));
                        let later = parts(s@.skip(at as int), (3 - n) as nat);
                        if later is Some {
                            assert(before + (seq![v as nat] + later->0) =~= read + later->0);
                        }
                    }
                }
            },
            None => {
                return None;
            },
        }
    }
    proof {
        if !ended {
            assert(read + Seq::<nat>::empty() =~= read);
        }
    }
    Some((nums[0], nums[1], nums[2]))
}

/// Whether a version name is one of glibc before 2.17.
pub fn is_elfv1_only(name: &str) -> (r: bool)
    ensures
        r == elfv1_only(name@),
{
    let s = chars_of(name);
    if s.len() < 6 {
        return false;
    }
    let glibc = s[0] == 'G' && s[1] == 'L' && s[2] == 'I' && s[3] == 'B' && s[4] == 'C' && s[5]
        == '_';
    if !glibc {
        assert(name@.take(6) != glibc_prefix()) by {
            if name@.take(6) == glibc_prefix() {
                assert(name@[0] == name@.take(6)[0]);
                assert(name@[1] == name@.take(6)[1]);
                assert(name@[2] == name@.take(6)[2]);
                assert(name@[3] == name@.take(6)[3]);
                assert(name@[4] == name@.take(6)[4]);
                assert(name@[5] == name@.take(6)[5]);
            }
        }
        return false;
    }
    assert(name@.take(6) =~= glibc_prefix());
    match read_parts(&s, 6) {
        Some((a, b, c)) => a < 2 || (a == 2 && b < 17),
        None => false,
    }
}

/// The hash of a name, as the dynamic linker computes it.
pub fn elf_hash(name: &[u8]) -> (h: u32)
    ensures
        h == hash_of(name@),
{
    let mut h: u32 = 0;
    let mut i: usize = 0;
    while i < name.len()
        invariant
            i <= name.len(),
            h == hash_of(name@.take(i as int)),
        decreases name.len() - i,
    {
        assert(name@.take(i + 1).drop_last() =~= name@.take(i as int));
        h = (h << 4).wrapping_add(name[i] as u32);
        let g = h & 0xf000_0000;
        if g != 0 {
            h = h ^ (g >> 24);
            h = h & !g;
        } else {
            assert((h ^ (g >> 24)) & !g == h) by (bit_vector)
                requires
                    g == 0,
            ;
        }
        i = i + 1;
    }
    assert(name@.take(name.len() as int) =~= name@);
    h
}

/// Where the string at `start` ends. There is none where no NUL follows.
pub(crate) fn find_nul(data: &[u8], start: usize) -> (end: Option<usize>)
    ensures
        end is Some <==> has_string(data@, start as int),
        end matches Some(e) ==> e == nul_at(data@, start as int) && start <= e < data.len(),
{
    let mut i: usize = start;
    while i < data.len() && data[i] != 0
        invariant
            start <= i,
            i <= data.len() || i == start,
            nul_at(data@, start as int) == nul_at(data@, i as int),
        decreases data.len() - i,
    {
        i = i + 1;
    }
    if i < data.len() {
        Some(i)
    } else {
        None
    }
}

/// Read the string at `off`.
pub fn read_str(data: &[u8], off: u64) -> (s: String)
    requires
        has_string(data@, off as int),
    ensures
        s@ == text_of(string_at(data@, off as int)),
{
    let ghost size = data.len();
    assert(off < size);
    let start = off as usize;
    let mut bytes: Vec<u8> = Vec::new();
    let mut i: usize = start;
    while i < data.len() && data[i] != 0
        invariant
            start == off,
            start <= i <= data.len(),
            nul_at(data@, start as int) == nul_at(data@, i as int),
            bytes@ == data@.subrange(start as int, i as int),
        decreases data.len() - i,
    {
        bytes.push(data[i]);
        i = i + 1;
        assert(bytes@ =~= data@.subrange(start as int, i as int));
    }
    from_utf8_lossy(&bytes)
}

/// A hash has 28 bits, whatever the name.
pub proof fn hashes_are_short(name: Seq<u8>)
    ensures
        hash_of(name) < 0x1000_0000,
    decreases name.len(),
{
    if name.len() > 0 {
        let h = hash_of(name.drop_last());
        let c = name.last();
        let sum = (h << 4).wrapping_add(c as u32);
        assert((sum ^ ((sum & 0xf000_0000) >> 24)) & !(sum & 0xf000_0000) < 0x1000_0000)
            by (bit_vector);
    }
}

/// A version that does not begin as glibc's do is never one of those before 2.17,
/// and neither is one whose first part is greater than two.
pub proof fn newer_versions_are_kept(name: Seq<char>)
    ensures
        name.len() < 6 || name.take(6) != glibc_prefix() ==> !elfv1_only(name),
        parts(name.skip(6), 3) matches Some(v) && part_or_zero(v, 0) > 2 ==> !elfv1_only(name),
        parts(name.skip(6), 3) matches Some(v) && part_or_zero(v, 0) == 2 && part_or_zero(v, 1)
            >= 17 ==> !elfv1_only(name),
{
}

}
