//! The memory map of a process, as `/proc/<pid>/maps` tells it.

use vstd::prelude::*;
use crate::decimal::chars_of;

verus! {

/// The characters that Unicode counts as white space.
pub open spec fn is_space(c: char) -> bool {
    ||| '\u{9}' <= c <= '\u{d}'
    ||| c == ' '
    ||| c == '\u{85}'
    ||| c == '\u{a0}'
    ||| c == '\u{1680}'
    ||| '\u{2000}' <= c <= '\u{200a}'
    ||| c == '\u{2028}'
    ||| c == '\u{2029}'
    ||| c == '\u{202f}'
    ||| c == '\u{205f}'
    ||| c == '\u{3000}'
}

/// The end of the line that begins at `i`: the next line feed, or the end.
pub open spec fn line_end(s: Seq<char>, i: int) -> int
    decreases s.len() - i,
{
    if 0 <= i < s.len() && s[i] != '\n' {
        line_end(s, i + 1)
    } else {
        i
    }
}

/// The first character at or after `i`, before `end`, that is not white space.
pub open spec fn word_start(s: Seq<char>, i: int, end: int) -> int
    decreases end - i,
{
    if i < end && is_space(s[i]) {
        word_start(s, i + 1, end)
    } else {
        i
    }
}

/// The first character at or after `i`, before `end`, that is white space.
pub open spec fn word_end(s: Seq<char>, i: int, end: int) -> int
    decreases end - i,
{
    if i < end && !is_space(s[i]) {
        word_end(s, i + 1, end)
    } else {
        i
    }
}

/// Where column `n` of the line from `i` up to `end` begins and ends.
pub open spec fn column(s: Seq<char>, i: int, end: int, n: nat) -> Option<(int, int)>
    decreases n,
{
    let a = word_start(s, i, end);
    let b = word_end(s, a, end);
    if a >= end {
        None
    } else if n == 0 {
        Some((a, b))
    } else {
        column(s, b, end, (n - 1) as nat)
    }
}

/// The value of a hexadecimal digit.
pub open spec fn hex_digit(c: char) -> Option<int> {
    if '0' <= c <= '9' {
        Some(c as int - '0' as int)
    } else if 'a' <= c <= 'f' {
        Some(c as int - 'a' as int + 10)
    } else if 'A' <= c <= 'F' {
        Some(c as int - 'A' as int + 10)
    } else {
        None
    }
}

/// The number that hexadecimal digits spell, where all are digits.
pub open spec fn hex_value(s: Seq<char>) -> Option<int>
    decreases s.len(),
{
    if s.len() == 0 {
        Some(0)
    } else {
        match (hex_value(s.drop_last()), hex_digit(s.last())) {
            (Some(v), Some(d)) => Some(v * 16 + d),
            _ => None,
        }
    }
}

/// The number that `s` spells in hexadecimal, where it is one or more digits, after
/// a plus sign or not, and fits.
pub open spec fn hex_number(s: Seq<char>) -> Option<u64> {
    let digits = if s.len() > 0 && s[0] == '+' { s.skip(1) } else { s };
    match hex_value(digits) {
        Some(v) => if digits.len() > 0 && v <= u64::MAX {
            Some(v as u64)
        } else {
            None
        },
        None => None,
    }
}

/// The first hyphen at or after `i`, before `end`, or `end`.
pub open spec fn hyphen_at(s: Seq<char>, i: int, end: int) -> int
    decreases end - i,
{
    if i < end && s[i] != '-' {
        hyphen_at(s, i + 1, end)
    } else {
        i
    }
}

/// The addresses that a column such as `7f00-7f80` gives.
pub open spec fn address_range(s: Seq<char>, from: int, to: int) -> Option<(u64, u64)> {
    let h = hyphen_at(s, from, to);
    if h >= to {
        None
    } else {
        match (hex_number(s.subrange(from, h)), hex_number(s.subrange(h + 1, to))) {
            (Some(start), Some(end)) => Some((start, end)),
            _ => None,
        }
    }
}

/// The addresses of the mapping that the line from `i` up to `end` describes.
pub open spec fn mapping(s: Seq<char>, i: int, end: int) -> Option<(u64, u64)> {
    match column(s, i, end, 0) {
        Some((a, b)) => address_range(s, a, b),
        None => None,
    }
}

/// Column `n` of a line, empty where the line has fewer.
pub open spec fn column_text(s: Seq<char>, i: int, end: int, n: nat) -> Seq<char> {
    match column(s, i, end, n) {
        Some((a, b)) => s.subrange(a, b),
        None => Seq::empty(),
    }
}

/// What the lines from `i` on say of the address: the file that is mapped there, and
/// how.
pub open spec fn module_text(s: Seq<char>, i: int, addr: u64) -> Seq<char>
    decreases if i < s.len() { s.len() - i } else { 0 },
{
    if i >= s.len() || i < 0 {
        "<unknown>"@
    } else {
        proof {
            line_end_is_within(s, i);
        }
        let end = line_end(s, i);
        let rest = end + 1;
        match mapping(s, i, end) {
            Some((start, stop)) => if start <= addr < stop {
                column_text(s, i, end, 5) + " ["@ + column_text(s, i, end, 1) + "]"@
            } else {
                module_text(s, rest, addr)
            },
            None => module_text(s, rest, addr),
        }
    }
}

/// The mapping may be read and executed.
pub open spec fn is_executable(perms: Seq<char>) -> bool {
    perms.len() > 0 && perms[0] == 'r' && perms.contains('x')
}

/// The addresses of the mapping that a line describes, where it may be executed.
pub open spec fn executable_mapping(s: Seq<char>, i: int, end: int) -> Option<(u64, u64)> {
    match column(s, i, end, 1) {
        Some((a, b)) => if is_executable(s.subrange(a, b)) {
            mapping(s, i, end)
        } else {
            None
        },
        None => None,
    }
}

/// The executable mappings that the lines from `i` on describe.
pub open spec fn executable(s: Seq<char>, i: int) -> Seq<(u64, u64)>
    decreases if i < s.len() { s.len() - i } else { 0 },
{
    if i >= s.len() || i < 0 {
        Seq::empty()
    } else {
        proof {
            line_end_is_within(s, i);
        }
        let end = line_end(s, i);
        let rest = end + 1;
        match executable_mapping(s, i, end) {
            Some(range) => seq![range] + executable(s, rest),
            None => executable(s, rest),
        }
    }
}

/// The address lies in one of the ranges.
pub open spec fn in_ranges(ranges: Seq<(u64, u64)>, addr: u64) -> bool {
    exists|i: int| 0 <= i < ranges.len() && (#[trigger] ranges[i]).0 <= addr < ranges[i].1
}

/// A line ends where it begins, or later.
pub proof fn line_end_is_within(s: Seq<char>, i: int)
    requires
        0 <= i <= s.len(),
    ensures
        i <= line_end(s, i) <= s.len(),
    decreases s.len() - i,
{
    if i < s.len() && s[i] != '\n' {
        line_end_is_within(s, i + 1);
    }
}

fn find_line_end(s: &Vec<char>, from: usize) -> (end: usize)
    requires
        from <= s.len(),
    ensures
        end == line_end(s@, from as int),
        from <= end <= s.len(),
{
    let mut i: usize = from;
    while i < s.len() && s[i] != '\n'
        invariant
            from <= i <= s.len(),
            line_end(s@, from as int) == line_end(s@, i as int),
        decreases s.len() - i,
    {
        i = i + 1;
    }
    i
}

fn space(c: char) -> (r: bool)
    ensures
        r == is_space(c),
{
    ('\u{9}' <= c && c <= '\u{d}') || c == ' ' || c == '\u{85}' || c == '\u{a0}' || c == '\u{1680}'
        || ('\u{2000}' <= c && c <= '\u{200a}') || c == '\u{2028}' || c == '\u{2029}' || c
        == '\u{202f}' || c == '\u{205f}' || c == '\u{3000}'
}

/// Find column `n` of the line from `from` up to `end`.
fn find_column(s: &Vec<char>, from: usize, end: usize, n: usize) -> (r: Option<(usize, usize)>)
    requires
        from <= end <= s.len(),
    ensures
        match r {
            Some((a, b)) => column(s@, from as int, end as int, n as nat) == Some(
                (a as int, b as int),
            ) && from <= a <= b <= end,
            None => column(s@, from as int, end as int, n as nat) is None,
        },
    decreases n,
{
    let mut a: usize = from;
    while a < end && space(s[a])
        invariant
            from <= a <= end <= s.len(),
            word_start(s@, from as int, end as int) == word_start(s@, a as int, end as int),
        decreases end - a,
    {
        a = a + 1;
    }
    if a >= end {
        return None;
    }
    let mut b: usize = a;
    while b < end && !space(s[b])
        invariant
            a <= b <= end <= s.len(),
            word_end(s@, a as int, end as int) == word_end(s@, b as int, end as int),
        decreases end - b,
    {
        b = b + 1;
    }
    if n == 0 {
        Some((a, b))
    } else {
        find_column(s, b, end, n - 1)
    }
}

/// The value of a hexadecimal digit.
fn digit(c: char) -> (r: Option<u64>)
    ensures
        match r {
            Some(d) => hex_digit(c) == Some(d as int) && d < 16,
            None => hex_digit(c) is None,
        },
{
    if '0' <= c && c <= '9' {
        Some(c as u64 - '0' as u64)
    } else if 'a' <= c && c <= 'f' {
        Some(c as u64 - 'a' as u64 + 10)
    } else if 'A' <= c && c <= 'F' {
        Some(c as u64 - 'A' as u64 + 10)
    } else {
        None
    }
}

/// Digits before others do not make the number less.
proof fn hex_prefix(s: Seq<char>, k: int)
    requires
        0 <= k <= s.len(),
    ensures
        hex_value(s) is Some ==> hex_value(s.take(k)) is Some && 0 <= hex_value(s.take(k))->0
            <= hex_value(s)->0,
    decreases s.len() - k, s.len(),
{
    if k < s.len() {
        hex_prefix(s, k + 1);
        let t = s.take(k + 1);
        assert(t.drop_last() =~= s.take(k));
        hex_is_positive(s.take(k));
    } else {
        assert(s.take(k) =~= s);
        hex_is_positive(s);
    }
}

proof fn hex_is_positive(s: Seq<char>)
    ensures
        hex_value(s) is Some ==> hex_value(s)->0 >= 0,
    decreases s.len(),
{
    if s.len() > 0 {
        hex_is_positive(s.drop_last());
    }
}

/// Read the hexadecimal number from `from` up to `to`.
fn read_hex(s: &Vec<char>, from: usize, to: usize) -> (r: Option<u64>)
    requires
        from <= to <= s.len(),
    ensures
        r == hex_number(s@.subrange(from as int, to as int)),
{
    let ghost whole = s@.subrange(from as int, to as int);
    let start = if from < to && s[from] == '+' { from + 1 } else { from };
    let ghost digits = if whole.len() > 0 && whole[0] == '+' { whole.skip(1) } else { whole };
    assert(digits =~= s@.subrange(start as int, to as int));
    if start == to {
        return None;
    }
    let mut n: u64 = 0;
    let mut i: usize = start;
    assert(digits.take(0) =~= Seq::empty());
    while i < to
        invariant
            start <= i <= to <= s.len(),
            digits == s@.subrange(start as int, to as int),
            digits.len() > 0,
            whole == s@.subrange(from as int, to as int),
            digits == (if whole.len() > 0 && whole[0] == '+' { whole.skip(1) } else { whole }),
            hex_value(digits.take(i - start)) == Some(n as int),
        decreases to - i,
    {
        let ghost next = digits.take(i - start + 1);
        assert(next.drop_last() =~= digits.take(i - start));
        assert(next.last() == s[i as int]);
        proof {
            hex_prefix(digits, i - start + 1);
        }
        match digit(s[i]) {
            Some(d) => {
                if n > (u64::MAX - d) / 16 {
                    assert(n * 16 + d > u64::MAX);
                    return None;
                }
                n = n * 16 + d;
            },
            None => {
                return None;
            },
        }
        i = i + 1;
    }
    assert(digits.take(digits.len() as int) =~= digits);
    Some(n)
}

/// Read the addresses in the column from `from` up to `to`.
fn read_range(s: &Vec<char>, from: usize, to: usize) -> (r: Option<(u64, u64)>)
    requires
        from <= to <= s.len(),
    ensures
        r == address_range(s@, from as int, to as int),
{
    let mut h: usize = from;
    while h < to && s[h] != '-'
        invariant
            from <= h <= to <= s.len(),
            hyphen_at(s@, from as int, to as int) == hyphen_at(s@, h as int, to as int),
        decreases to - h,
    {
        h = h + 1;
    }
    if h >= to {
        return None;
    }
    match (read_hex(s, from, h), read_hex(s, h + 1, to)) {
        (Some(start), Some(end)) => Some((start, end)),
        _ => None,
    }
}

/// Read the addresses of the mapping that a line describes.
fn read_mapping(s: &Vec<char>, from: usize, end: usize) -> (r: Option<(u64, u64)>)
    requires
        from <= end <= s.len(),
    ensures
        r == mapping(s@, from as int, end as int),
{
    match find_column(s, from, end, 0) {
        Some((a, b)) => read_range(s, a, b),
        None => None,
    }
}

/// The text of column `n` of a line.
fn read_column(maps: &str, s: &Vec<char>, from: usize, end: usize, n: usize) -> (text: String)
    requires
        s@ == maps@,
        from <= end <= s.len(),
    ensures
        text@ == column_text(maps@, from as int, end as int, n as nat),
{
    match find_column(s, from, end, n) {
        Some((a, b)) => String::from_str(maps.substring_char(a, b)),
        None => {
            let text = String::new();
            assert(text@ =~= Seq::<char>::empty());
            text
        },
    }
}

/// Which file is mapped at an address, and how. `maps` is missing where the map could
/// not be read.
pub fn module_for(maps: Option<&str>, addr: u64) -> (text: String)
    ensures
        match maps {
            Some(maps) => text@ == module_text(maps@, 0, addr),
            None => text@ == "<no maps>"@,
        },
{
    let Some(given) = maps else {
        return String::from_str("<no maps>");
    };
    let s = chars_of(given);
    let mut i: usize = 0;
    while i < s.len()
        invariant
            maps == Some(given),
            s@ == given@,
            i <= s.len(),
            module_text(given@, 0, addr) == module_text(given@, i as int, addr),
        decreases s.len() - i,
    {
        let end = find_line_end(&s, i);
        if let Some((start, stop)) = read_mapping(&s, i, end) {
            if start <= addr && addr < stop {
                let path = read_column(given, &s, i, end, 5);
                let perms = read_column(given, &s, i, end, 1);
                return path.concat(" [").concat(perms.as_str()).concat("]");
            }
        }
        if end == s.len() {
            assert(module_text(given@, end + 1, addr) == "<unknown>"@);
            return String::from_str("<unknown>");
        }
        i = end + 1;
    }
    String::from_str("<unknown>")
}

fn may_execute(s: &Vec<char>, from: usize, to: usize) -> (r: bool)
    requires
        from <= to <= s.len(),
    ensures
        r == is_executable(s@.subrange(from as int, to as int)),
{
    let ghost perms = s@.subrange(from as int, to as int);
    if from == to || s[from] != 'r' {
        return false;
    }
    let mut i: usize = from;
    while i < to
        invariant
            from <= i <= to <= s.len(),
            from < to,
            perms == s@.subrange(from as int, to as int),
            perms[0] == 'r',
            forall|j: int| 0 <= j < i - from ==> #[trigger] perms[j] != 'x',
        decreases to - i,
    {
        if s[i] == 'x' {
            assert(perms[i - from] == 'x');
            return true;
        }
        i = i + 1;
    }
    false
}

/// The executable mappings of a process, for spotting return addresses on its stack.
/// There are none where the map could not be read.
pub fn executable_ranges(maps: Option<&str>) -> (ranges: Vec<(u64, u64)>)
    ensures
        match maps {
            Some(maps) => ranges@ == executable(maps@, 0),
            None => ranges.len() == 0,
        },
{
    let mut ranges: Vec<(u64, u64)> = Vec::new();
    let Some(given) = maps else {
        return ranges;
    };
    let s = chars_of(given);
    let mut i: usize = 0;
    assert(ranges@ + executable(given@, 0) =~= executable(given@, 0));
    while i < s.len()
        invariant
            maps == Some(given),
            s@ == given@,
            i <= s.len(),
            ranges@ + executable(given@, i as int) == executable(given@, 0),
        decreases s.len() - i,
    {
        let end = find_line_end(&s, i);
        let ghost before = ranges@;
        let ghost rest = executable(given@, end + 1);
        if let Some((a, b)) = find_column(&s, i, end, 1) {
            if may_execute(&s, a, b) {
                if let Some(range) = read_mapping(&s, i, end) {
                    ranges.push(range);
                    assert(before + (seq![range] + rest) =~= ranges@ + rest);
                }
            }
        }
        if end == s.len() {
            assert(rest =~= Seq::empty());
            assert(ranges@ + rest =~= ranges@);
            return ranges;
        }
        i = end + 1;
    }
    assert(ranges@ + executable(given@, i as int) =~= ranges@);
    ranges
}

/// The words that point into one of the ranges: candidates for return addresses.
pub fn code_pointers(words: &Vec<u64>, ranges: &Vec<(u64, u64)>) -> (hits: Vec<u64>)
    ensures
        hits@ == words@.filter(|w: u64| w != 0 && in_ranges(ranges@, w)),
{
    let ghost hit = |w: u64| w != 0 && in_ranges(ranges@, w);
    let mut hits: Vec<u64> = Vec::new();
    let mut i: usize = 0;
    assert(words@.take(0).filter(hit) =~= Seq::empty()) by {
        reveal(Seq::filter);
    }
    while i < words.len()
        invariant
            i <= words.len(),
            hit == (|w: u64| w != 0 && in_ranges(ranges@, w)),
            hits@ == words@.take(i as int).filter(hit),
        decreases words.len() - i,
    {
        let word = words[i];
        let mut found = false;
        let mut j: usize = 0;
        while j < ranges.len() && !found
            invariant
                j <= ranges.len(),
                found ==> in_ranges(ranges@, word),
                !found ==> forall|m: int|
                    0 <= m < j ==> !((#[trigger] ranges@[m]).0 <= word < ranges@[m].1),
            decreases ranges.len() - j, if found { 0int } else { 1int },
        {
            if ranges[j].0 <= word && word < ranges[j].1 {
                assert(ranges@[j as int].0 <= word < ranges@[j as int].1);
                found = true;
            } else {
                j = j + 1;
            }
        }
        assert(words@.take(i + 1).drop_last() =~= words@.take(i as int));
        assert(words@.take(i + 1).last() == word);
        proof {
            reveal(Seq::filter);
        }
        if word != 0 && found {
            hits.push(word);
        }
        i = i + 1;
    }
    assert(words@.take(words.len() as int) =~= words@);
    hits
}

}
