//! The memory of a traced process, which is read and written a word at a time.

use vstd::prelude::*;
use crate::bytes::{
    le32, le32_bytes, le64, le64_bytes, read_u64, u64_at, u64_bytes, write_u64,
};
use crate::text::{from_utf8_lossy, text_of};

verus! {

/// The longest string that is read without its end.
pub const CSTR_LIMIT: usize = 256;

/// How many words hold `len` bytes.
pub open spec fn word_count(len: int) -> int {
    (len + 7) / 8
}

/// The address of the word numbered `i` from `addr` on. Addresses wrap around.
pub open spec fn word_address(addr: u64, i: int) -> u64 {
    ((addr + 8 * i) % 0x1_0000_0000_0000_0000) as u64
}

/// The bytes in `words`.
pub open spec fn bytes_in(words: Seq<u64>) -> Seq<u8> {
    Seq::new(8 * words.len(), |i: int| le64_bytes(words[i as int / 8])[i % 8])
}

/// The bytes that stand behind `len` bytes in the last of the words that hold them,
/// where `there` is that word.
#[verifier::opaque]
pub open spec fn tail(len: int, there: u64) -> Seq<u8> {
    if len % 8 == 0 { Seq::empty() } else { le64_bytes(there).skip(len % 8) }
}

/// The words that hold `bytes`. The last one, where it is not filled, keeps what
/// stands behind them in `there`.
#[verifier::opaque]
pub open spec fn words_for(bytes: Seq<u8>, there: u64) -> Seq<u64> {
    let filled = bytes + tail(bytes.len() as int, there);
    Seq::new(word_count(bytes.len() as int) as nat, |i: int| le64(filled, 8 * i))
}

/// The last of the words that hold `len` bytes is not filled by them.
pub open spec fn is_partial(len: int) -> bool {
    len % 8 != 0
}

/// How far `a` is from `addr` on. Addresses wrap around.
pub open spec fn distance(a: u64, addr: u64) -> int {
    (a - addr) % 0x1_0000_0000_0000_0000
}

/// The word at `at` in the memory `mem`.
#[verifier::opaque]
pub open spec fn peeked(mem: spec_fn(u64) -> u8, at: u64) -> u64 {
    le64(Seq::new(8, |i: int| mem(((at + i) % 0x1_0000_0000_0000_0000) as u64)), 0)
}

/// The memory `mem` after `word` was written at `at`.
#[verifier::opaque]
pub open spec fn poked(mem: spec_fn(u64) -> u8, at: u64, word: u64) -> spec_fn(u64) -> u8 {
    |a: u64|
        if distance(a, at) < 8 {
            le64_bytes(word)[distance(a, at)]
        } else {
            mem(a)
        }
}

/// The memory `mem` after the first `n` of `words` were written, from `addr` on.
pub open spec fn written(mem: spec_fn(u64) -> u8, addr: u64, words: Seq<u64>, n: nat) -> spec_fn(
    u64,
) -> u8
    decreases n,
{
    if n == 0 {
        mem
    } else {
        poked(
            written(mem, addr, words, (n - 1) as nat),
            word_address(addr, n - 1),
            words[n - 1],
        )
    }
}

/// How long the string is that begins at the start of `bytes`: up to a NUL, or all
/// of them.
pub open spec fn string_len(bytes: Seq<u8>) -> int
    decreases bytes.len(),
{
    if bytes.len() == 0 || bytes[0] == 0 {
        0
    } else {
        1 + string_len(bytes.drop_first())
    }
}

fn count_words(len: usize) -> (n: usize)
    ensures
        n == word_count(len as int),
{
    len / 8 + if len % 8 == 0 { 0 } else { 1 }
}

/// The eight bytes of a word.
pub fn bytes_of_word(word: u64) -> (bytes: Vec<u8>)
    ensures
        bytes@ == le64_bytes(word),
{
    reveal(u64_bytes);
    let mut bytes: Vec<u8> = vec![0; 8];
    write_u64(&mut bytes, 0, word, true);
    assert(bytes@ =~= le64_bytes(word));
    bytes
}

/// The addresses of the words that hold the `len` bytes at `addr`.
pub fn struct_addresses(addr: u64, len: usize) -> (addresses: Vec<u64>)
    ensures
        addresses@ == Seq::new(
            word_count(len as int) as nat,
            |i: int| word_address(addr, i),
        ),
{
    let count = count_words(len);
    let mut addresses: Vec<u64> = Vec::new();
    let mut at: u64 = addr;
    while addresses.len() < count
        invariant
            count == word_count(len as int),
            addresses.len() <= count,
            at == word_address(addr, addresses.len() as int),
            forall|i: int| 0 <= i < addresses.len() ==> addresses[i] == word_address(addr, i),
        decreases count - addresses.len(),
    {
        addresses.push(at);
        at = at.wrapping_add(8);
    }
    assert(addresses@ =~= Seq::new(
        word_count(len as int) as nat,
        |i: int| word_address(addr, i),
    ));
    addresses
}

/// The `len` bytes that begin with `words`, which hold as many of the words at
/// their address as could be read.
pub fn read_struct(words: &Vec<u64>, len: usize) -> (r: Option<Vec<u8>>)
    ensures
        r is Some <==> word_count(len as int) <= words.len(),
        r matches Some(bytes) ==> bytes@ == bytes_in(words@).take(len as int),
{
    if words.len() < count_words(len) {
        return None;
    }
    let mut bytes: Vec<u8> = Vec::new();
    let mut word: Vec<u8> = bytes_of_word(0);
    let mut i: usize = 0;
    while i < len
        invariant
            i <= len,
            word_count(len as int) <= words.len(),
            word.len() == 8,
            i % 8 != 0 ==> word@ == le64_bytes(words[i as int / 8]),
            bytes@ == bytes_in(words@).take(i as int),
        decreases len - i,
    {
        if i % 8 == 0 {
            word = bytes_of_word(words[i / 8]);
        }
        bytes.push(word[i % 8]);
        assert(bytes@ =~= bytes_in(words@).take(i + 1));
        assert((i + 1) % 8 != 0 ==> (i + 1) / 8 == i / 8);
        i = i + 1;
    }
    Some(bytes)
}

/// The address of the word that has to be read before `len` bytes are written at
/// `addr`: the last one, where they do not fill it.
pub fn tail_address(addr: u64, len: usize) -> (r: Option<u64>)
    ensures
        r == (if is_partial(len as int) {
            Some(word_address(addr, word_count(len as int) - 1))
        } else {
            None
        }),
{
    if len % 8 == 0 {
        return None;
    }
    let full: u64 = (len / 8) as u64;
    assert(word_count(len as int) - 1 == full);
    Some(addr.wrapping_add(full.wrapping_mul(8)))
}

/// The word that holds the bytes from `off` on, and behind the last of them what
/// `kept` has there.
fn next_word(bytes: &[u8], off: usize, kept: u64) -> (word: u64)
    requires
        off < bytes.len(),
        off % 8 == 0,
    ensures
        word == words_for(bytes@, kept)[off as int / 8],
{
    reveal(words_for);
    reveal(u64_at);
    let ghost filled = bytes@ + tail(bytes.len() as int, kept);
    let left = bytes.len() - off;
    let n: usize = if left < 8 { left } else { 8 };
    let mut chunk = bytes_of_word(kept);
    let mut j: usize = 0;
    while j < n
        invariant
            off + n <= bytes.len(),
            n <= 8,
            j <= n,
            chunk.len() == 8,
            forall|m: int| 0 <= m < 8 ==> #[trigger] chunk[m] == if m < j {
                bytes[off + m]
            } else {
                le64_bytes(kept)[m]
            },
        decreases n - j,
    {
        chunk[j] = bytes[off + j];
        j = j + 1;
    }
    proof {
        tail_fills_the_word(bytes.len() as int, kept);
    }
    assert forall|m: int| 0 <= m < 8 implies #[trigger] chunk[m] == filled[off + m] by {
        if m >= n {
            tail_is_of_the_word(bytes.len() as int, kept, m - n);
        }
    }
    proof {
        words_agree(chunk@, 0, filled, off as int);
    }
    read_u64(&chunk, 0, true)
}

/// The words to write so that `bytes` stand at `addr`, each with its address. `there`
/// is the word at [`tail_address`], where there is one and it could be read.
pub fn write_struct(addr: u64, bytes: &[u8], there: Option<u64>) -> (r: Option<Vec<(u64, u64)>>)
    ensures
        r is None <==> is_partial(bytes.len() as int) && there is None,
        r matches Some(words) ==> {
            &&& words.len() == word_count(bytes.len() as int)
            &&& forall|i: int|
                0 <= i < words.len() ==> #[trigger] words[i] == (
                    word_address(addr, i),
                    words_for(bytes@, there->0)[i],
                )
        },
{
    let kept: u64 = match there {
        Some(word) => word,
        None => {
            if bytes.len() % 8 != 0 {
                return None;
            }
            0
        },
    };
    assert(words_for(bytes@, kept) =~= words_for(bytes@, there->0)) by {
        reveal(words_for);
        reveal(tail);
    }
    let mut words: Vec<(u64, u64)> = Vec::new();
    let mut at: u64 = addr;
    let mut off: usize = 0;
    while off < bytes.len()
        invariant
            off <= bytes.len(),
            words.len() == word_count(off as int),
            off < bytes.len() ==> off == 8 * words.len(),
            at == word_address(addr, words.len() as int),
            forall|i: int|
                0 <= i < words.len() ==> #[trigger] words[i] == (
                    word_address(addr, i),
                    words_for(bytes@, kept)[i],
                ),
        decreases bytes.len() - off,
    {
        words.push((at, next_word(bytes, off, kept)));
        at = at.wrapping_add(8);
        off = if bytes.len() - off < 8 { bytes.len() } else { off + 8 };
    }
    Some(words)
}

/// The string that is read from the words at `addr`. There is none at address zero.
pub open spec fn string_bytes(addr: u64, words: Seq<u64>) -> Seq<u8> {
    if addr == 0 {
        Seq::empty()
    } else {
        bytes_in(words).take(string_len(bytes_in(words)))
    }
}

/// The string at `addr`, which begins with `words`, and whether more of it is to be
/// read: its end was not among them and it is not too long yet.
pub fn read_cstr(addr: u64, words: &Vec<u64>) -> (r: (String, bool))
    ensures
        r.0@ == text_of(string_bytes(addr, words@)),
        r.1 == (addr != 0 && string_len(bytes_in(words@)) == bytes_in(words@).len() && bytes_in(
            words@,
        ).len() < CSTR_LIMIT),
{
    let mut out: Vec<u8> = Vec::new();
    let ghost all = bytes_in(words@);
    if addr == 0 {
        assert(out@ =~= string_bytes(addr, words@));
        return (from_utf8_lossy(&out), false);
    }
    let mut i: usize = 0;
    let mut ended = false;
    assert(all.skip(0) =~= all);
    while i < words.len() && !ended
        invariant
            i <= words.len(),
            all == bytes_in(words@),
            out@ == all.take(out.len() as int),
            out.len() <= all.len(),
            ended ==> string_len(all) == out.len() < all.len(),
            !ended ==> out.len() == 8 * i && string_len(all) == out.len() + string_len(
                all.skip(out.len() as int),
            ),
        decreases words.len() - i, if ended { 0int } else { 1int },
    {
        let word = bytes_of_word(words[i]);
        let mut j: usize = 0;
        while j < 8 && !ended
            invariant
                j <= 8,
                i < words.len(),
                word@ == le64_bytes(words[i as int]),
                all == bytes_in(words@),
                out@ == all.take(out.len() as int),
                out.len() <= all.len(),
                ended ==> string_len(all) == out.len() < all.len(),
                !ended ==> out.len() == 8 * i + j && string_len(all) == out.len() + string_len(
                    all.skip(out.len() as int),
                ),
            decreases 8 - j, if ended { 0int } else { 1int },
        {
            let b = word[j];
            assert(all[8 * i + j] == b);
            if b == 0 {
                ended = true;
            } else {
                assert(all.skip(out.len() as int).drop_first() =~= all.skip(out.len() + 1));
                out.push(b);
                assert(out@ =~= all.take(out.len() as int));
                j = j + 1;
            }
        }
        if !ended {
            i = i + 1;
        }
    }
    (from_utf8_lossy(&out), !ended && words.len() < CSTR_LIMIT / 8)
}

/// Bytes that were written are the bytes that are read back from the same words.
pub proof fn structs_round_trip(bytes: Seq<u8>, there: u64)
    ensures
        words_for(bytes, there).len() == word_count(bytes.len() as int),
        bytes_in(words_for(bytes, there)).take(bytes.len() as int) == bytes,
{
    words_are_filled(bytes, there);
    assert(bytes_in(words_for(bytes, there)).take(bytes.len() as int) =~= bytes);
}

/// The words hold the bytes, and behind them what stood there.
proof fn words_are_filled(bytes: Seq<u8>, there: u64)
    ensures
        words_for(bytes, there).len() == word_count(bytes.len() as int),
        bytes_in(words_for(bytes, there)) == bytes + tail(bytes.len() as int, there),
{
    reveal(words_for);
    let filled = bytes + tail(bytes.len() as int, there);
    let words = words_for(bytes, there);
    tail_fills_the_word(bytes.len() as int, there);
    assert forall|i: int| 0 <= i < filled.len() implies bytes_in(words)[i] == filled[i] by {
        let at = i / 8 * 8;
        word_bytes(filled, at);
        assert(words[i / 8] == le64(filled, at));
        assert(filled.subrange(at, at + 8)[i % 8] == filled[i]);
    }
    assert(bytes_in(words) =~= filled);
}

/// Writing words changes the bytes that they cover, and no others.
proof fn words_are_written(mem: spec_fn(u64) -> u8, addr: u64, words: Seq<u64>, n: nat, a: u64)
    requires
        n <= words.len(),
        8 * n <= 0x1_0000_0000_0000_0000,
    ensures
        written(mem, addr, words, n)(a) == if distance(a, addr) < 8 * n {
            bytes_in(words)[distance(a, addr)]
        } else {
            mem(a)
        },
    decreases n,
{
    reveal(poked);
    if n > 0 {
        let m = (n - 1) as nat;
        let at = word_address(addr, n - 1);
        let d = distance(a, addr);
        words_are_written(mem, addr, words, m, a);
        assert(distance(a, at) == (d - 8 * m) % 0x1_0000_0000_0000_0000) by {
            distances_add_up(a, addr, 8 * m as int);
        }
        if 8 * m <= d < 8 * n {
            assert(distance(a, at) == d - 8 * m);
            assert(d / 8 == m && d % 8 == d - 8 * m);
        } else {
            assert(distance(a, at) >= 8);
        }
    }
}

/// How far an address is from one that is `by` further on.
pub proof fn distances_add_up(a: u64, addr: u64, by: int)
    requires
        0 <= by < 0x1_0000_0000_0000_0000,
    ensures
        distance(a, ((addr + by) % 0x1_0000_0000_0000_0000) as u64) == (distance(a, addr) - by)
            % 0x1_0000_0000_0000_0000,
{
}

/// An address is as far on from `by` bytes behind `addr` as is left of its distance.
proof fn addresses_are_reached(a: u64, addr: u64, by: int)
    requires
        0 <= by <= distance(a, addr),
    ensures
        ((addr + by) % 0x1_0000_0000_0000_0000 + (distance(a, addr) - by))
            % 0x1_0000_0000_0000_0000 == a,
{
}

/// The word that was read at `at` has the bytes that stand there.
proof fn words_are_read(mem: spec_fn(u64) -> u8, at: u64, i: int)
    requires
        0 <= i < 8,
    ensures
        le64_bytes(peeked(mem, at))[i] == mem(((at + i) % 0x1_0000_0000_0000_0000) as u64),
{
    reveal(peeked);
    let b = Seq::new(8, |i: int| mem(((at + i) % 0x1_0000_0000_0000_0000) as u64));
    word_bytes(b, 0);
    assert(b.subrange(0, 8)[i] == b[i]);
}

/// Where a byte stands that follows `len` bytes in their last word.
proof fn tail_is_in_the_last_word(len: int, d: int)
    requires
        0 <= len <= d < 8 * word_count(len),
    ensures
        is_partial(len),
        8 * (word_count(len) - 1) <= len,
        0 <= d - 8 * (word_count(len) - 1) < 8,
        d - 8 * (word_count(len) - 1) == len % 8 + (d - len),
{
}

/// The bytes that are kept are those of the word.
proof fn tail_is_of_the_word(len: int, there: u64, j: int)
    requires
        is_partial(len),
        0 <= j < 8 - len % 8,
    ensures
        tail(len, there)[j] == le64_bytes(there)[len % 8 + j],
{
    reveal(tail);
}

/// How many bytes are kept.
proof fn tail_fills_the_word(len: int, there: u64)
    requires
        0 <= len,
    ensures
        len + tail(len, there).len() == 8 * word_count(len),
{
    reveal(tail);
}

/// What stands behind the bytes in the last word is what is kept there.
proof fn tail_is_kept(mem: spec_fn(u64) -> u8, addr: u64, len: int, there: u64, a: u64)
    requires
        0 <= len <= distance(a, addr) < 8 * word_count(len),
        there == peeked(mem, word_address(addr, word_count(len) - 1)),
    ensures
        is_partial(len),
        tail(len, there)[distance(a, addr) - len] == mem(a),
{
    let last = word_count(len) - 1;
    let d = distance(a, addr);
    tail_is_in_the_last_word(len, d);
    tail_is_of_the_word(len, there, d - len);
    words_are_read(mem, word_address(addr, last), d - 8 * last);
    addresses_are_reached(a, addr, 8 * last);
}

/// Writing the words for `bytes` puts them, and what is kept behind them, at their place.
proof fn filled_words_are_written(
    mem: spec_fn(u64) -> u8,
    addr: u64,
    bytes: Seq<u8>,
    there: u64,
    n: nat,
    a: u64,
)
    requires
        bytes.len() <= usize::MAX,
        n <= word_count(bytes.len() as int),
    ensures
        0 <= distance(a, addr),
        written(mem, addr, words_for(bytes, there), n)(a) == if distance(a, addr) < 8 * n {
            (bytes + tail(bytes.len() as int, there))[distance(a, addr)]
        } else {
            mem(a)
        },
{
    words_are_filled(bytes, there);
    words_are_written(mem, addr, words_for(bytes, there), n, a);
}

/// Writing `bytes` at `addr` puts each of them at its place, and changes no byte before
/// or behind them: not in the last word, and not where only the first `n` words could
/// be written.
pub proof fn only_the_bytes_are_written(
    mem: spec_fn(u64) -> u8,
    addr: u64,
    bytes: Seq<u8>,
    there: u64,
    n: nat,
    a: u64,
)
    requires
        bytes.len() <= usize::MAX,
        is_partial(bytes.len() as int) ==> there == peeked(
            mem,
            word_address(addr, word_count(bytes.len() as int) - 1),
        ),
        n <= word_count(bytes.len() as int),
    ensures
        distance(a, addr) >= bytes.len() ==> written(mem, addr, words_for(bytes, there), n)(a)
            == mem(a),
        n == word_count(bytes.len() as int) && distance(a, addr) < bytes.len() ==> written(
            mem,
            addr,
            words_for(bytes, there),
            n,
        )(a) == bytes[distance(a, addr)],
{
    let len = bytes.len() as int;
    let d = distance(a, addr);
    filled_words_are_written(mem, addr, bytes, there, n, a);
    tail_fills_the_word(len, there);
    if len <= d < 8 * n {
        tail_is_kept(mem, addr, len, there, a);
    }
}

/// Words made of the same bytes are the same.
proof fn words_agree(b: Seq<u8>, at: int, c: Seq<u8>, to: int)
    requires
        forall|m: int| 0 <= m < 8 ==> #[trigger] b[at + m] == c[to + m],
    ensures
        le64(b, at) == le64(c, to),
{
    assert(b[at + 0] == c[to + 0] && b[at + 1] == c[to + 1] && b[at + 2] == c[to + 2]);
    assert(b[at + 3] == c[to + 3] && b[at + 4] == c[to + 4] && b[at + 5] == c[to + 5]);
    assert(b[at + 6] == c[to + 6] && b[at + 7] == c[to + 7]);
}

/// A number made of four bytes has those bytes.
proof fn four_bytes(a: u8, b: u8, c: u8, d: u8)
    ensures
        le32_bytes((a + b * 0x100 + c * 0x1_0000 + d * 0x100_0000) as u32) == seq![a, b, c, d],
{
    let v = a + b * 0x100 + c * 0x1_0000 + d * 0x100_0000;
    let w = b + c * 0x100 + d * 0x1_0000;
    let x = c + d * 0x100;
    assert(v == a + 0x100 * w && v / 0x100 == w && v % 0x100 == a);
    assert(w == b + 0x100 * x && w / 0x100 == x && w % 0x100 == b);
    assert(v / 0x1_0000 == x);
    assert(v / 0x100_0000 == d);
    assert(le32_bytes(v as u32) =~= seq![a, b, c, d]);
}

/// A number made of two halves has the bytes of those.
proof fn two_halves(low: u32, high: u32)
    ensures
        le64_bytes((low + high * 0x1_0000_0000) as u64) == le32_bytes(low) + le32_bytes(high),
{
    let v = (low + high * 0x1_0000_0000) as u64;
    assert(v % 0x1_0000_0000 == low && v / 0x1_0000_0000 == high);
}

/// A word read from bytes has those bytes.
proof fn word_bytes(b: Seq<u8>, at: int)
    requires
        0 <= at,
        at + 8 <= b.len(),
    ensures
        le64_bytes(le64(b, at)) == b.subrange(at, at + 8),
{
    four_bytes(b[at], b[at + 1], b[at + 2], b[at + 3]);
    four_bytes(b[at + 4], b[at + 5], b[at + 6], b[at + 7]);
    two_halves(le32(b, at), le32(b, at + 4));
    assert(seq![b[at], b[at + 1], b[at + 2], b[at + 3]] + seq![
        b[at + 4],
        b[at + 5],
        b[at + 6],
        b[at + 7],
    ] =~= b.subrange(at, at + 8));
}

/// A string ends before its first NUL, wherever that is; without one all bytes belong to it.
pub proof fn strings_end_before_nul(s: Seq<u8>, rest: Seq<u8>)
    requires
        forall|i: int| 0 <= i < s.len() ==> #[trigger] s[i] != 0,
    ensures
        string_len(s) == s.len(),
        string_len(s.push(0) + rest) == s.len(),
    decreases s.len(),
{
    let all = s.push(0) + rest;
    if s.len() == 0 {
        assert(all[0] == 0);
    } else {
        assert(all[0] == s[0]);
        let less = s.drop_first();
        assert forall|i: int| 0 <= i < less.len() implies #[trigger] less[i] != 0 by {
            assert(less[i] == s[i + 1]);
        }
        assert(all.drop_first() =~= less.push(0) + rest);
        strings_end_before_nul(less, rest);
    }
}

/// The string that is read is made of the bytes of the words up to a NUL. At address zero
/// there is none.
pub proof fn strings_are_read_from_words(addr: u64, words: Seq<u64>, s: Seq<u8>, rest: Seq<u8>)
    requires
        forall|i: int| 0 <= i < s.len() ==> #[trigger] s[i] != 0,
    ensures
        string_bytes(0, words).len() == 0,
        addr != 0 && bytes_in(words) == s ==> string_bytes(addr, words) == s,
        addr != 0 && bytes_in(words) == s.push(0) + rest ==> string_bytes(addr, words) == s,
{
    strings_end_before_nul(s, rest);
    assert(s.take(s.len() as int) =~= s);
    assert((s.push(0) + rest).take(s.len() as int) =~= s);
}

/// The bytes of words follow each other, those of each word least significant first.
pub proof fn words_are_made_of_bytes(words: Seq<u64>, i: int, j: int)
    requires
        0 <= i < words.len(),
        0 <= j < 8,
    ensures
        bytes_in(words).len() == 8 * words.len(),
        bytes_in(words)[8 * i + j] == le64_bytes(words[i])[j],
{
    assert((8 * i + j) / 8 == i && (8 * i + j) % 8 == j);
}

/// Bytes take as many words as they need and no more. The last one is not filled where the
/// number of bytes is no multiple of eight. The words follow each other eight bytes apart,
/// and addresses wrap around.
pub proof fn words_follow_each_other(addr: u64, len: usize, i: int)
    requires
        0 <= i,
        8 * i < 0x1_0000_0000_0000_0000,
    ensures
        len <= 8 * word_count(len as int) < len + 8,
        is_partial(len as int) <==> 8 * word_count(len as int) != len,
        addr + 8 * i < 0x1_0000_0000_0000_0000 ==> word_address(addr, i) == addr + 8 * i,
        addr + 8 * i >= 0x1_0000_0000_0000_0000 ==> word_address(addr, i) == addr + 8 * i
            - 0x1_0000_0000_0000_0000,
{
}

}
