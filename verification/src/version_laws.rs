//! How numbers, versions and names are read out of text.

use vstd::prelude::*;
use crate::decimal::{all_digits, digits, is_digit, number, value};
use crate::kernel::{digits_end, number_at, version_of};
use crate::text::{ascii_is_utf8, text_of};
use crate::versions::{
    dot_at, elfv1_only, glibc_prefix, has_string, hash_of, hash_step, nul_at, part_number,
    parts, string_at,
};

verus! {

/// `s` is made of the characters from `0` to `9` only.
pub open spec fn is_decimal(s: Seq<char>) -> bool {
    forall|i: int| 0 <= i < s.len() ==> '0' <= #[trigger] s[i] <= '9'
}

/// Each further digit counts ten times less than the one before it.
pub proof fn digits_count_by_ten(s: Seq<char>, c: char)
    requires
        '0' <= c <= '9',
    ensures
        value(Seq::empty()) == 0,
        value(s.push(c)) == 10 * value(s) + (c as int - 48),
{
    assert(s.push(c).drop_last() =~= s);
}

/// The digits of a number as characters.
pub open spec fn spelled(n: nat) -> Seq<char> {
    Seq::new(digits(n).len(), |i: int| digits(n)[i] as char)
}

/// Every number is spelled in decimal digits that give it back, and without a zero in front
/// unless it is zero.
pub proof fn numbers_are_spelled(n: nat)
    ensures
        is_decimal(spelled(n)),
        spelled(n).len() > 0,
        value(spelled(n)) == n,
        n > 0 ==> spelled(n)[0] != '0',
        forall|i: int| 0 <= i < digits(n).len() ==> 48 <= #[trigger] digits(n)[i] <= 57,
    decreases n,
{
    if n < 10 {
        assert(spelled(n).drop_last() =~= Seq::<char>::empty());
        assert(value(spelled(n).drop_last()) == 0);
        assert(spelled(n).last() == digits(n)[0] as char);
    } else {
        numbers_are_spelled(n / 10);
        assert(spelled(n) =~= spelled(n / 10).push((48 + n % 10) as u8 as char));
        digits_count_by_ten(spelled(n / 10), (48 + n % 10) as u8 as char);
    }
}

/// A text is a number where it is one or more digits and what they give is no more than the
/// limit.
pub proof fn numbers_are_digits(s: Seq<char>, max: nat)
    ensures
        s.len() > 0 && is_decimal(s) && value(s) <= max ==> number(s, max) == Some(value(s)),
        s.len() == 0 || !is_decimal(s) || value(s) > max ==> number(s, max) is None,
{
    if is_decimal(s) {
        assert(all_digits(s));
    }
    if all_digits(s) {
        assert forall|i: int| 0 <= i < s.len() implies '0' <= #[trigger] s[i] <= '9' by {
            assert(is_digit(s[i]));
        }
    }
}

/// What a run of digits in a release string counts for: nothing where it is empty or too
/// large.
pub open spec fn counted(s: Seq<char>) -> int {
    if s.len() > 0 && value(s) <= u64::MAX { value(s) as int } else { 0 }
}

/// A run of digits ends before the first character that is none.
proof fn run_ends(s: Seq<char>, i: int, j: int)
    requires
        0 <= i <= j <= s.len(),
        is_decimal(s.subrange(i, j)),
        j == s.len() || !('0' <= s[j] <= '9'),
    ensures
        digits_end(s, i) == j,
    decreases j - i,
{
    if i < j {
        assert(s.subrange(i, j)[0] == s[i]);
        assert(s.subrange(i + 1, j) =~= s.subrange(i, j).skip(1));
        assert forall|n: int| 0 <= n < j - i - 1 implies '0' <= #[trigger] s.subrange(i + 1, j)[n]
            <= '9' by {
            assert(s.subrange(i + 1, j)[n] == s.subrange(i, j)[n + 1]);
        }
        run_ends(s, i + 1, j);
    }
}

/// The number at a run of digits is what they count for.
proof fn run_counts(s: Seq<char>, i: int, j: int)
    requires
        0 <= i <= j <= s.len(),
        is_decimal(s.subrange(i, j)),
        j == s.len() || !('0' <= s[j] <= '9'),
    ensures
        number_at(s, i) == counted(s.subrange(i, j)),
        digits_end(s, i) == j,
{
    run_ends(s, i, j);
    numbers_are_digits(s.subrange(i, j), u64::MAX as nat);
}

/// The version in a release string is made of its first three runs of digits, with any one
/// character that is no digit between them, whatever follows the third. A run that is not
/// there counts for nothing.
pub proof fn releases_are_read(
    x: Seq<char>,
    p: char,
    y: Seq<char>,
    q: char,
    z: Seq<char>,
    rest: Seq<char>,
)
    requires
        is_decimal(x) && is_decimal(y) && is_decimal(z),
        !('0' <= p <= '9') && !('0' <= q <= '9'),
        rest.len() > 0 ==> !('0' <= rest[0] <= '9'),
    ensures
        ({
            let v = version_of(x.push(p) + y.push(q) + z + rest);
            v.0 == counted(x) && v.1 == counted(y) && v.2 == counted(z)
        }),
        ({
            let v = version_of(x.push(p) + y);
            v.0 == counted(x) && v.1 == counted(y) && v.2 == 0
        }),
        ({
            let v = version_of(x);
            v.0 == counted(x) && v.1 == 0 && v.2 == 0
        }),
{
    let s = x.push(p) + y.push(q) + z + rest;
    let a = x.len() as int;
    let b = a + 1 + y.len();
    let c = b + 1 + z.len();
    assert(s.subrange(0, a) =~= x);
    assert(s.subrange(a + 1, b) =~= y);
    assert(s.subrange(b + 1, c) =~= z);
    assert(s[a] == p);
    assert(s[b] == q);
    if rest.len() > 0 {
        assert(s[c] == rest[0]);
    }
    run_counts(s, 0, a);
    run_counts(s, a + 1, b);
    run_counts(s, b + 1, c);
    let s = x.push(p) + y;
    assert(s.subrange(0, a) =~= x);
    assert(s.subrange(a + 1, b) =~= y);
    assert(s[a] == p);
    run_counts(s, 0, a);
    run_counts(s, a + 1, b);
    assert(x.subrange(0, a) =~= x);
    run_counts(x, 0, a);
}

/// `s` holds no dot.
pub open spec fn is_dotless(s: Seq<char>) -> bool {
    forall|i: int| 0 <= i < s.len() ==> #[trigger] s[i] != '.'
}

/// The first dot is behind what holds none.
proof fn dot_is_found(s: Seq<char>, i: int, j: int)
    requires
        0 <= i <= j <= s.len(),
        forall|n: int| i <= n < j ==> #[trigger] s[n] != '.',
        j == s.len() || s[j] == '.',
    ensures
        dot_at(s, i) == j,
    decreases j - i,
{
    if i < j {
        dot_is_found(s, i + 1, j);
    }
}

/// A part of a version is a number with or without one plus sign before it. It is one or
/// more digits, and has thirty-two bits.
pub proof fn parts_are_numbers(part: Seq<char>)
    ensures
        part.len() > 0 && is_decimal(part) && value(part) <= 0xffff_ffff ==> part_number(part)
            == Some(value(part)) && part_number(seq!['+'] + part) == Some(value(part)),
        part.len() == 0 || !is_decimal(part) || value(part) > 0xffff_ffff ==> part_number(
            seq!['+'] + part,
        ) is None && (part.len() == 0 || part[0] != '+' ==> part_number(part) is None),
{
    numbers_are_digits(part, 0xffff_ffff);
    let signed = seq!['+'] + part;
    assert(signed[0] == '+');
    assert(signed.skip(1) =~= part);
    if part.len() > 0 && is_decimal(part) {
        assert('0' <= part[0] <= '9');
    }
}

/// A version is read part by part, up to a dot each. It is refused where one of the first
/// `n` parts is no number; what follows them does not matter.
pub proof fn versions_are_read_by_parts(part: Seq<char>, rest: Seq<char>, n: nat)
    requires
        is_dotless(part),
    ensures
        parts(rest, 0) == Some(Seq::<nat>::empty()),
        parts(part, n + 1) == match part_number(part) {
            Some(v) => Some(seq![v]),
            None => None,
        },
        parts(part.push('.') + rest, n + 1) == match (part_number(part), parts(rest, n)) {
            (Some(v), Some(vs)) => Some(seq![v] + vs),
            _ => None,
        },
{
    let len = part.len() as int;
    dot_is_found(part, 0, len);
    assert(part.take(len) =~= part);
    let s = part.push('.') + rest;
    assert(s[len] == '.');
    assert forall|i: int| 0 <= i < len implies #[trigger] s[i] != '.' by {
        assert(s[i] == part[i]);
    }
    dot_is_found(s, 0, len);
    assert(s.take(len) =~= part);
    assert(s.skip(len + 1) =~= rest);
}

/// The parts of a version have thirty-two bits each.
proof fn parts_are_short(s: Seq<char>, n: nat)
    ensures
        parts(s, n) matches Some(v) ==> forall|i: int|
            0 <= i < v.len() ==> #[trigger] v[i] <= 0xffff_ffff,
    decreases n,
{
    if n > 0 {
        let dot = dot_at(s, 0);
        parts_are_short(s.skip(dot + 1), (n - 1) as nat);
    }
}

/// Part `i` of a version, where a part that is not there is zero.
pub open spec fn part_of(v: Seq<nat>, i: int) -> nat {
    if i < v.len() { v[i] } else { 0 }
}

/// The name of a version is one that only the first ABI has exactly where it begins with
/// `GLIBC_`, its first parts are numbers, and it is before 2.17: the first part is less than
/// 2, or it is 2 and the second is less than 17. No further part plays a role.
pub proof fn first_abi_ends_with_2_17(name: Seq<char>)
    ensures
        ({
            let is_glibc = name.len() >= 6 && name[0] == 'G' && name[1] == 'L' && name[2] == 'I'
                && name[3] == 'B' && name[4] == 'C' && name[5] == '_';
            let read = parts(name.skip(6), 3);
            let first = part_of(read->0, 0);
            let second = part_of(read->0, 1);
            &&& is_glibc && read is Some ==> (elfv1_only(name) <==> first < 2 || first == 2
                && second < 17)
            &&& !is_glibc || read is None ==> !elfv1_only(name)
        }),
{
    parts_are_short(name.skip(6), 3);
    if name.len() >= 6 {
        let head = name.take(6);
        if head == glibc_prefix() {
            assert(name[0] == head[0]);
            assert(name[1] == head[1]);
            assert(name[2] == head[2]);
            assert(name[3] == head[3]);
            assert(name[4] == head[4]);
            assert(name[5] == head[5]);
        } else if name[0] == 'G' && name[1] == 'L' && name[2] == 'I' && name[3] == 'B' && name[4]
            == 'C' && name[5] == '_' {
            assert(head =~= glibc_prefix());
        }
    }
}

/// A name of the form `GLIBC_a.b.c`, with any numbers, tells the first ABI exactly where
/// `a.b` is before 2.17; so does one without the third part, whatever follows a third part.
pub proof fn glibc_versions_are_told(a: u32, b: u32, c: u32, more: Seq<char>)
    ensures
        ({
            let two = glibc_prefix() + spelled(a as nat).push('.') + spelled(b as nat);
            let three = glibc_prefix() + (spelled(a as nat).push('.') + (spelled(b as nat).push('.')
                + spelled(c as nat)));
            let four = glibc_prefix() + (spelled(a as nat).push('.') + (spelled(b as nat).push('.')
                + (spelled(c as nat).push('.') + more)));
            let is_first = a < 2 || a == 2 && b < 17;
            &&& elfv1_only(two) == is_first
            &&& elfv1_only(three) == is_first
            &&& elfv1_only(four) == is_first
        }),
{
    let x = spelled(a as nat);
    let y = spelled(b as nat);
    let z = spelled(c as nat);
    numbers_are_spelled(a as nat);
    numbers_are_spelled(b as nat);
    numbers_are_spelled(c as nat);
    decimals_are_dotless(x);
    decimals_are_dotless(y);
    decimals_are_dotless(z);
    parts_are_numbers(x);
    parts_are_numbers(y);
    parts_are_numbers(z);
    versions_are_read_by_parts(y, Seq::empty(), 1);
    versions_are_read_by_parts(x, y, 2);
    let two = glibc_prefix() + x.push('.') + y;
    assert(two.skip(6) =~= x.push('.') + y);
    first_abi_ends_with_2_17(two);
    versions_are_read_by_parts(z, more, 0);
    versions_are_read_by_parts(y, z, 1);
    let last = y.push('.') + z;
    versions_are_read_by_parts(x, last, 2);
    let three = glibc_prefix() + (x.push('.') + last);
    assert(three.skip(6) =~= x.push('.') + last);
    first_abi_ends_with_2_17(three);
    let tail = z.push('.') + more;
    let later = y.push('.') + tail;
    versions_are_read_by_parts(y, tail, 1);
    versions_are_read_by_parts(x, later, 2);
    let four = glibc_prefix() + (x.push('.') + later);
    assert(four.skip(6) =~= x.push('.') + later);
    first_abi_ends_with_2_17(four);
}

/// A decimal number holds no dot.
proof fn decimals_are_dotless(s: Seq<char>)
    requires
        is_decimal(s),
    ensures
        is_dotless(s),
{
    assert forall|i: int| 0 <= i < s.len() implies #[trigger] s[i] != '.' by {
        assert('0' <= s[i] <= '9');
    }
}

/// The hash of a name takes in one byte after the other: what is there moves up by four
/// bits, the byte is added, and what goes beyond twenty-eight bits comes back in at the bits
/// from 4 on.
pub proof fn hashes_take_in_bytes(name: Seq<u8>, c: u8)
    ensures
        hash_of(Seq::empty()) == 0,
        ({
            let sum = (hash_of(name) * 16 + c) % 0x1_0000_0000;
            hash_of(name.push(c)) == ((sum % 0x1000_0000) as u32) ^ ((sum / 0x1000_0000 * 16)
                as u32)
        }),
{
    assert(name.push(c).drop_last() =~= name);
    let h = hash_of(name);
    steps_come_back(h, c);
}

/// One step of the hash in arithmetic.
proof fn steps_come_back(h: u32, c: u8)
    ensures
        ({
            let sum = (h * 16 + c) % 0x1_0000_0000;
            hash_step(h, c) == ((sum % 0x1000_0000) as u32) ^ ((sum / 0x1000_0000 * 16) as u32)
        }),
{
    let shifted = h << 4u32;
    assert(shifted == (h * 16) % 0x1_0000_0000) by (bit_vector)
        requires
            shifted == h << 4u32,
    ;
    let sum = shifted.wrapping_add(c as u32);
    assert(sum == (h * 16 + c) % 0x1_0000_0000);
    let top = sum & 0xf000_0000;
    assert((sum ^ (top >> 24)) & !top == ((sum % 0x1000_0000) as u32) ^ ((sum / 0x1000_0000 * 16)
        as u32)) by (bit_vector)
        requires
            top == sum & 0xf000_0000,
    ;
}

/// A string ends before the first NUL at or behind its beginning. Without one there is none.
pub proof fn strings_end_with_nul(before: Seq<u8>, s: Seq<u8>, rest: Seq<u8>)
    requires
        forall|i: int| 0 <= i < s.len() ==> #[trigger] s[i] != 0,
    ensures
        has_string(before + s.push(0) + rest, before.len() as int),
        string_at(before + s.push(0) + rest, before.len() as int) == s,
        !has_string(before + s, before.len() as int),
{
    let off = before.len() as int;
    let end = off + s.len();
    let data = before + s.push(0) + rest;
    assert(data[end] == 0);
    assert forall|i: int| off <= i < end implies #[trigger] data[i] != 0 by {
        assert(data[i] == s[i - off]);
    }
    nul_is_found(data, off, end);
    assert(data.subrange(off, end) =~= s);
    let open = before + s;
    assert forall|i: int| off <= i < end implies #[trigger] open[i] != 0 by {
        assert(open[i] == s[i - off]);
    }
    nul_is_found(open, off, end);
}

/// The first NUL is behind what holds none.
proof fn nul_is_found(data: Seq<u8>, i: int, j: int)
    requires
        0 <= i <= j <= data.len(),
        forall|n: int| i <= n < j ==> #[trigger] data[n] != 0,
        j == data.len() || data[j] == 0,
    ensures
        nul_at(data, i) == j,
    decreases j - i,
{
    if i < j {
        nul_is_found(data, i + 1, j);
    }
}

/// ASCII bytes are read as the characters with these codes.
pub proof fn ascii_names_are_read(bytes: Seq<u8>)
    requires
        forall|i: int| 0 <= i < bytes.len() ==> #[trigger] bytes[i] < 0x80,
    ensures
        text_of(bytes).len() == bytes.len(),
        forall|i: int| 0 <= i < bytes.len() ==> #[trigger] text_of(bytes)[i] as int == bytes[i],
{
    ascii_is_utf8(bytes);
}

}
