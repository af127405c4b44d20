//! How the memory map of a process is read, line by line and column by column.

use vstd::prelude::*;
use crate::maps::{
    address_range, column, column_text, executable, executable_mapping, hex_digit, hex_number,
    hex_value, hyphen_at, in_ranges, is_space, line_end, line_end_is_within,
    mapping, module_text, word_end, word_start,
};

verus! {

/// The end of a line is found wherever the text begins.
proof fn line_end_shifts(p: Seq<char>, s: Seq<char>, i: int)
    requires
        0 <= i,
    ensures
        line_end(p + s, p.len() + i) == p.len() + line_end(s, i),
    decreases s.len() - i,
{
    if i < s.len() && s[i] != '\n' {
        assert((p + s)[p.len() + i] == s[i]);
        line_end_shifts(p, s, i + 1);
    } else if i < s.len() {
        assert((p + s)[p.len() + i] == s[i]);
    }
}

/// Words and hyphens are found wherever the text begins.
proof fn words_shift(p: Seq<char>, s: Seq<char>, i: int, end: int)
    requires
        0 <= i,
        end <= s.len(),
    ensures
        word_start(p + s, p.len() + i, p.len() + end) == p.len() + word_start(s, i, end),
        word_end(p + s, p.len() + i, p.len() + end) == p.len() + word_end(s, i, end),
        hyphen_at(p + s, p.len() + i, p.len() + end) == p.len() + hyphen_at(s, i, end),
    decreases end - i,
{
    if i < end {
        assert((p + s)[p.len() + i] == s[i]);
        words_shift(p, s, i + 1, end);
    }
}

/// A word begins and ends within its line.
proof fn words_are_within(s: Seq<char>, i: int, end: int)
    ensures
        i <= word_start(s, i, end) && (i <= end ==> word_start(s, i, end) <= end),
        i <= word_end(s, i, end) && (i <= end ==> word_end(s, i, end) <= end),
        i <= hyphen_at(s, i, end) && (i <= end ==> hyphen_at(s, i, end) <= end),
    decreases end - i,
{
    if i < end {
        words_are_within(s, i + 1, end);
    }
}

/// Words and hyphens of a line depend on the line alone.
proof fn words_are_local(s: Seq<char>, t: Seq<char>, i: int, end: int)
    requires
        0 <= i,
        end <= s.len() && end <= t.len(),
        forall|j: int| 0 <= j < end ==> s[j] == t[j],
    ensures
        word_start(s, i, end) == word_start(t, i, end),
        word_end(s, i, end) == word_end(t, i, end),
        hyphen_at(s, i, end) == hyphen_at(t, i, end),
    decreases end - i,
{
    if i < end {
        assert(s[i] == t[i]);
        words_are_local(s, t, i + 1, end);
    }
}

/// Columns are found wherever the text begins.
proof fn columns_shift(p: Seq<char>, s: Seq<char>, i: int, end: int, n: nat)
    requires
        0 <= i,
        end <= s.len(),
    ensures
        column(p + s, p.len() + i, p.len() + end, n) == match column(s, i, end, n) {
            Some((a, b)) => Some((p.len() + a, p.len() + b)),
            None => None,
        },
        column(s, i, end, n) matches Some((a, b)) ==> i <= a <= b <= end,
    decreases n,
{
    words_shift(p, s, i, end);
    let a = word_start(s, i, end);
    words_are_within(s, i, end);
    words_shift(p, s, a, end);
    let b = word_end(s, a, end);
    words_are_within(s, a, end);
    if n > 0 {
        columns_shift(p, s, b, end, (n - 1) as nat);
    }
}

/// Columns of a line depend on the line alone.
proof fn columns_are_local(s: Seq<char>, t: Seq<char>, i: int, end: int, n: nat)
    requires
        0 <= i,
        end <= s.len() && end <= t.len(),
        forall|j: int| 0 <= j < end ==> s[j] == t[j],
    ensures
        column(s, i, end, n) == column(t, i, end, n),
    decreases n,
{
    words_are_local(s, t, i, end);
    let a = word_start(s, i, end);
    words_are_within(s, i, end);
    words_are_local(s, t, a, end);
    let b = word_end(s, a, end);
    words_are_within(s, a, end);
    if n > 0 {
        columns_are_local(s, t, b, end, (n - 1) as nat);
    }
}

/// What a column holds, and the addresses in a line, do not depend on where the text begins.
proof fn lines_shift(p: Seq<char>, s: Seq<char>, i: int, end: int, n: nat)
    requires
        0 <= i,
        end <= s.len(),
    ensures
        column_text(p + s, p.len() + i, p.len() + end, n) == column_text(s, i, end, n),
        mapping(p + s, p.len() + i, p.len() + end) == mapping(s, i, end),
        executable_mapping(p + s, p.len() + i, p.len() + end) == executable_mapping(s, i, end),
{
    let t = p + s;
    columns_shift(p, s, i, end, n);
    columns_shift(p, s, i, end, 0);
    columns_shift(p, s, i, end, 1);
    if column(s, i, end, n) is Some {
        let (a, b) = column(s, i, end, n)->0;
        assert(t.subrange(p.len() + a, p.len() + b) =~= s.subrange(a, b));
    }
    if column(s, i, end, 1) is Some {
        let (a, b) = column(s, i, end, 1)->0;
        assert(t.subrange(p.len() + a, p.len() + b) =~= s.subrange(a, b));
    }
    if column(s, i, end, 0) is Some {
        let (a, b) = column(s, i, end, 0)->0;
        ranges_shift(p, s, a, b);
    }
}

/// The addresses in a column do not depend on where the text begins.
proof fn ranges_shift(p: Seq<char>, s: Seq<char>, a: int, b: int)
    requires
        0 <= a <= b <= s.len(),
    ensures
        address_range(p + s, p.len() + a, p.len() + b) == address_range(s, a, b),
{
    let t = p + s;
    words_shift(p, s, a, b);
    words_are_within(s, a, b);
    let h = hyphen_at(s, a, b);
    if h < b {
        assert(t.subrange(p.len() + a, p.len() + h) =~= s.subrange(a, h));
        assert(t.subrange(p.len() + h + 1, p.len() + b) =~= s.subrange(h + 1, b));
    }
}

/// What a column holds, and the addresses in a line, depend on the line alone.
proof fn lines_are_local(s: Seq<char>, t: Seq<char>, end: int, n: nat)
    requires
        0 <= end <= s.len() && end <= t.len(),
        forall|j: int| 0 <= j < end ==> s[j] == t[j],
    ensures
        column_text(s, 0, end, n) == column_text(t, 0, end, n),
        mapping(s, 0, end) == mapping(t, 0, end),
        executable_mapping(s, 0, end) == executable_mapping(t, 0, end),
{
    let none = Seq::<char>::empty();
    columns_are_local(s, t, 0, end, n);
    columns_are_local(s, t, 0, end, 0);
    columns_are_local(s, t, 0, end, 1);
    columns_shift(none, s, 0, end, n);
    columns_shift(none, s, 0, end, 0);
    columns_shift(none, s, 0, end, 1);
    if column(s, 0, end, n) is Some {
        let (a, b) = column(s, 0, end, n)->0;
        assert(s.subrange(a, b) =~= t.subrange(a, b));
    }
    if column(s, 0, end, 1) is Some {
        let (a, b) = column(s, 0, end, 1)->0;
        assert(s.subrange(a, b) =~= t.subrange(a, b));
    }
    if column(s, 0, end, 0) is Some {
        let (a, b) = column(s, 0, end, 0)->0;
        words_are_local(s, t, a, b);
        words_are_within(s, a, b);
        let h = hyphen_at(s, a, b);
        if h < b {
            assert(s.subrange(a, h) =~= t.subrange(a, h));
            assert(s.subrange(h + 1, b) =~= t.subrange(h + 1, b));
        }
    }
}

/// What the lines say does not depend on what stands before them.
proof fn maps_shift(p: Seq<char>, s: Seq<char>, i: int, addr: u64)
    requires
        0 <= i,
    ensures
        executable(p + s, p.len() + i) == executable(s, i),
        module_text(p + s, p.len() + i, addr) == module_text(s, i, addr),
    decreases if i < s.len() { s.len() - i } else { 0 },
{
    if i < s.len() {
        line_end_shifts(p, s, i);
        line_end_is_within(s, i);
        let end = line_end(s, i);
        lines_shift(p, s, i, end, 5);
        lines_shift(p, s, i, end, 1);
        maps_shift(p, s, end + 1, addr);
        assert(p.len() + end + 1 == p.len() + (end + 1));
    }
}

/// `line` is one line: it holds no line feed.
pub open spec fn is_line(line: Seq<char>) -> bool {
    forall|i: int| 0 <= i < line.len() ==> #[trigger] line[i] != '\n'
}

/// A line ends before the line feed behind it.
proof fn line_is_found(s: Seq<char>, i: int, j: int)
    requires
        0 <= i <= j <= s.len(),
        forall|n: int| i <= n < j ==> #[trigger] s[n] != '\n',
        j == s.len() || s[j] == '\n',
    ensures
        line_end(s, i) == j,
    decreases j - i,
{
    if i < j {
        line_is_found(s, i + 1, j);
    }
}

/// Maps are read line by line, each line by itself. The executable mappings are those of all
/// lines in their order. An address belongs to the first line whose mapping holds it, and is
/// told by what its sixth column names and, in brackets, its second; an address in none of
/// them is not known.
pub proof fn maps_are_read_by_lines(line: Seq<char>, rest: Seq<char>, addr: u64)
    requires
        is_line(line),
    ensures
        ({
            let end = line.len() as int;
            let found = executable_mapping(line, 0, end);
            let range = mapping(line, 0, end);
            let holds = range matches Some((start, stop)) && start <= addr && addr < stop;
            let text = line.push('\n') + rest;
            &&& executable(Seq::empty(), 0).len() == 0
            &&& module_text(Seq::empty(), 0, addr) == "<unknown>"@
            &&& found is Some ==> executable(text, 0) == seq![found->0] + executable(rest, 0)
            &&& found is None ==> executable(text, 0) == executable(rest, 0)
            &&& holds ==> module_text(text, 0, addr) == column_text(line, 0, end, 5) + " ["@
                + column_text(line, 0, end, 1) + "]"@
            &&& !holds ==> module_text(text, 0, addr) == module_text(rest, 0, addr)
        }),
{
    let end = line.len() as int;
    let text = line.push('\n') + rest;
    assert(text[end] == '\n');
    assert forall|n: int| 0 <= n < end implies #[trigger] text[n] != '\n' by {
        assert(text[n] == line[n]);
    }
    line_is_found(text, 0, end);
    lines_are_local(text, line, end, 5);
    lines_are_local(text, line, end, 1);
    maps_shift(line.push('\n'), rest, 0, addr);
    assert(line.push('\n').len() == end + 1);
}

/// The text is one word: it is not empty and holds no white space.
pub open spec fn is_word(s: Seq<char>) -> bool {
    s.len() > 0 && forall|i: int| 0 <= i < s.len() ==> !is_space(#[trigger] s[i])
}

/// The text is white space throughout.
pub open spec fn is_blank(s: Seq<char>) -> bool {
    forall|i: int| 0 <= i < s.len() ==> is_space(#[trigger] s[i])
}

/// White space before a word is passed over.
proof fn blank_is_skipped(s: Seq<char>, i: int, j: int, end: int)
    requires
        0 <= i <= j <= end <= s.len(),
        forall|n: int| i <= n < j ==> is_space(#[trigger] s[n]),
        j == end || !is_space(s[j]),
    ensures
        word_start(s, i, end) == j,
    decreases j - i,
{
    if i < j {
        blank_is_skipped(s, i + 1, j, end);
    }
}

/// A word ends before the white space behind it.
proof fn word_is_taken(s: Seq<char>, i: int, j: int, end: int)
    requires
        0 <= i <= j <= end <= s.len(),
        forall|n: int| i <= n < j ==> !is_space(#[trigger] s[n]),
        j == end || is_space(s[j]),
    ensures
        word_end(s, i, end) == j,
    decreases j - i,
{
    if i < j {
        word_is_taken(s, i + 1, j, end);
    }
}

/// The columns of a line are its words, whatever white space stands before and between them.
/// A line has no column behind its last word.
pub proof fn columns_are_words(blank: Seq<char>, word: Seq<char>, rest: Seq<char>, n: nat)
    requires
        is_blank(blank),
        is_word(word),
        rest.len() > 0 ==> is_space(rest[0]),
    ensures
        ({
            let line = blank + word + rest;
            let end = line.len() as int;
            &&& column_text(line, 0, end, 0) == word
            &&& column(line, 0, end, 0) == Some(
                (blank.len() as int, (blank.len() + word.len()) as int),
            )
            &&& column_text(line, 0, end, n + 1) == column_text(rest, 0, rest.len() as int, n)
            &&& column(line, 0, end, n + 1) is Some <==> column(rest, 0, rest.len() as int, n)
                is Some
            &&& column(blank, 0, blank.len() as int, n) is None
        }),
{
    let line = blank + word + rest;
    let end = line.len() as int;
    let a = blank.len() as int;
    let b = a + word.len();
    assert forall|i: int| 0 <= i < a implies is_space(#[trigger] line[i]) by {
        assert(line[i] == blank[i]);
    }
    assert(line[a] == word[0]);
    assert forall|i: int| a <= i < b implies !is_space(#[trigger] line[i]) by {
        assert(line[i] == word[i - a]);
    }
    if rest.len() > 0 {
        assert(line[b] == rest[0]);
    }
    blank_is_skipped(line, 0, a, end);
    word_is_taken(line, a, b, end);
    assert(line.subrange(a, b) =~= word);
    let p = blank + word;
    assert(p + rest =~= line);
    lines_shift(p, rest, 0, rest.len() as int, n);
    columns_shift(p, rest, 0, rest.len() as int, n);
    columns_shift(Seq::empty(), rest, 0, rest.len() as int, n);
    blank_is_skipped(blank, 0, a, a);
    if column(rest, 0, rest.len() as int, n) is Some {
        let (x, y) = column(rest, 0, rest.len() as int, n)->0;
        assert(line.subrange(p.len() + x, p.len() + y) =~= rest.subrange(x, y));
    }
}

/// `c` is a hexadecimal digit that stands for `d`.
pub open spec fn is_hex(c: char, d: int) -> bool {
    ||| 0 <= d <= 9 && c as int == 48 + d
    ||| 10 <= d <= 15 && (c as int == 87 + d || c as int == 55 + d)
}

/// Each further hexadecimal digit counts sixteen times less than the one before it. A text
/// with any other character in it is no number, nor is an empty one, nor one that needs more
/// than sixty-four bits. A plus sign may stand before it.
pub proof fn hex_digits_count_by_sixteen(s: Seq<char>, c: char, d: int)
    ensures
        hex_value(Seq::empty()) == Some(0int),
        is_hex(c, d) && hex_value(s) is Some ==> hex_value(s.push(c)) == Some(
            16 * hex_value(s)->0 + d,
        ),
        hex_value(s) is None || (forall|e: int| !is_hex(c, e)) ==> hex_value(s.push(c)) is None,
        s.len() > 0 && hex_value(s) is Some && 0 <= hex_value(s)->0 <= u64::MAX ==> hex_number(s)
            == Some(hex_value(s)->0 as u64) && hex_number(seq!['+'] + s) == Some(
            hex_value(s)->0 as u64,
        ),
        s.len() == 0 || hex_value(s) is None || hex_value(s)->0 > u64::MAX ==> hex_number(
            seq!['+'] + s,
        ) is None && (s.len() == 0 || s[0] != '+' ==> hex_number(s) is None),
{
    assert(s.push(c).drop_last() =~= s);
    let signed = seq!['+'] + s;
    assert(signed[0] == '+');
    assert(signed.skip(1) =~= s);
    if hex_digit(c) is Some {
        assert(is_hex(c, hex_digit(c)->0));
    }
    if s.len() > 0 && hex_value(s) is Some {
        first_is_hex(s);
    }
}

/// The first character of a hexadecimal number is a digit.
proof fn first_is_hex(s: Seq<char>)
    requires
        s.len() > 0,
        hex_value(s) is Some,
    ensures
        hex_digit(s[0]) is Some,
    decreases s.len(),
{
    if s.len() > 1 {
        first_is_hex(s.drop_last());
    }
}

/// A column gives the addresses of a mapping as two numbers with a hyphen between them, the
/// first hyphen counting. Without one, or where either is no number, it gives none.
pub proof fn addresses_are_two_numbers(x: Seq<char>, y: Seq<char>)
    requires
        forall|i: int| 0 <= i < x.len() ==> #[trigger] x[i] != '-',
    ensures
        ({
            let s = x.push('-') + y;
            let r = address_range(s, 0, s.len() as int);
            &&& hex_number(x) is Some && hex_number(y) is Some ==> r == Some(
                (hex_number(x)->0, hex_number(y)->0),
            )
            &&& hex_number(x) is None || hex_number(y) is None ==> r is None
            &&& address_range(x, 0, x.len() as int) is None
        }),
{
    let s = x.push('-') + y;
    let h = x.len() as int;
    assert(s[h] == '-');
    assert forall|i: int| 0 <= i < h implies #[trigger] s[i] != '-' by {
        assert(s[i] == x[i]);
    }
    hyphen_is_found(s, 0, h, s.len() as int);
    hyphen_is_found(x, 0, h, h);
    assert(s.subrange(0, h) =~= x);
    assert(s.subrange(h + 1, s.len() as int) =~= y);
}

/// The first hyphen is behind what holds none.
proof fn hyphen_is_found(s: Seq<char>, i: int, j: int, end: int)
    requires
        0 <= i <= j <= end <= s.len(),
        forall|n: int| i <= n < j ==> #[trigger] s[n] != '-',
        j == end || s[j] == '-',
    ensures
        hyphen_at(s, i, end) == j,
    decreases j - i,
{
    if i < j {
        hyphen_is_found(s, i + 1, j, end);
    }
}

/// The mapping of a line is told by its first column, and is executable exactly where its
/// second column begins with `r` and has an `x` somewhere.
pub proof fn lines_tell_mappings(
    blank: Seq<char>,
    addresses: Seq<char>,
    gap: Seq<char>,
    perms: Seq<char>,
    rest: Seq<char>,
)
    requires
        is_blank(blank) && is_blank(gap) && gap.len() > 0,
        is_word(addresses) && is_word(perms),
        rest.len() > 0 ==> is_space(rest[0]),
    ensures
        ({
            let line = blank + addresses + (gap + perms + rest);
            let end = line.len() as int;
            let range = address_range(addresses, 0, addresses.len() as int);
            let runs = perms[0] == 'r' && exists|i: int|
                0 <= i < perms.len() && #[trigger] perms[i] == 'x';
            &&& mapping(line, 0, end) == range
            &&& runs ==> executable_mapping(line, 0, end) == range
            &&& !runs ==> executable_mapping(line, 0, end) is None
        }),
{
    let tail = gap + perms + rest;
    let line = blank + addresses + tail;
    let end = line.len() as int;
    assert(tail[0] == gap[0]);
    columns_are_words(blank, addresses, tail, 0);
    columns_are_words(gap, perms, rest, 0);
    let a = blank.len() as int;
    let b = a + addresses.len();
    let shifted = addresses + tail;
    assert(blank + shifted =~= line);
    ranges_shift(blank, shifted, 0, addresses.len() as int);
    ranges_are_local(shifted, addresses, addresses.len() as int);
    columns_shift(Seq::empty(), line, 0, end, 1);
    let (x, y) = column(line, 0, end, 1)->0;
    assert(line.subrange(x, y) == perms);
}

/// The addresses in a column depend on it alone.
proof fn ranges_are_local(s: Seq<char>, t: Seq<char>, end: int)
    requires
        0 <= end <= s.len() && end <= t.len(),
        forall|j: int| 0 <= j < end ==> s[j] == t[j],
    ensures
        address_range(s, 0, end) == address_range(t, 0, end),
{
    words_are_local(s, t, 0, end);
    words_are_within(s, 0, end);
    let h = hyphen_at(s, 0, end);
    if h < end {
        assert(s.subrange(0, h) =~= t.subrange(0, h));
        assert(s.subrange(h + 1, end) =~= t.subrange(h + 1, end));
    }
}

/// An address lies in the ranges where it lies in one of them: from its start on, and before
/// its end.
pub proof fn ranges_are_half_open(ranges: Seq<(u64, u64)>, range: (u64, u64), addr: u64)
    ensures
        !in_ranges(Seq::empty(), addr),
        in_ranges(ranges.push(range), addr) <==> in_ranges(ranges, addr) || range.0 <= addr && addr
            < range.1,
{
    let more = ranges.push(range);
    if in_ranges(ranges, addr) {
        let i = choose|i: int|
            0 <= i < ranges.len() && (#[trigger] ranges[i]).0 <= addr < ranges[i].1;
        assert(more[i] == ranges[i]);
    }
    if range.0 <= addr && addr < range.1 {
        assert(more[ranges.len() as int] == range);
    }
}

/// A last line without a line feed is read as one with it.
pub proof fn last_lines_are_read(line: Seq<char>, addr: u64)
    requires
        is_line(line),
        line.len() > 0,
    ensures
        executable(line, 0) == executable(line.push('\n'), 0),
        module_text(line, 0, addr) == module_text(line.push('\n'), 0, addr),
{
    let end = line.len() as int;
    maps_are_read_by_lines(line, Seq::empty(), addr);
    assert(line.push('\n') + Seq::<char>::empty() =~= line.push('\n'));
    line_is_found(line, 0, end);
    reveal_with_fuel(executable, 2);
    reveal_with_fuel(module_text, 2);
}

/// White space are the characters with these codes.
pub proof fn white_space_is_known(c: char)
    ensures
        is_space(c) <==> {
            let code = c as int;
            ||| 9 <= code <= 13
            ||| code == 32 || code == 133 || code == 160 || code == 5760
            ||| 8192 <= code <= 8202
            ||| code == 8232 || code == 8233 || code == 8239 || code == 8287 || code == 12288
        },
{
}

}
