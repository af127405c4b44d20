//! Rewrite requirements of glibc versions that only the first version of the ABI
//! has to the baseline of the second, `GLIBC_2.17`.
//!
//! An object that was linked against such versions is refused by a glibc that does
//! not define them. With the requirement raised it stays versioned and loads.
//!
//! The new name needs room in the table of strings. The table is moved down over
//! the hash table that stands before it, which the GNU hash table makes needless.

use vstd::prelude::*;
use crate::bytes::{
    put, read_u16, read_u32, read_u64, u16_at, u32_at, u32_bytes, u64_at, u64_bytes, write_u32,
    write_u64,
};
use crate::elf::{
    elf_layout, fits, in_file, parse_elf, ElfError, Layout, LayoutView, Reason, Section, DT_HASH,
    DT_STRSZ, DT_STRTAB, IGNORED_TAG, SHT_DYNAMIC, SHT_GNU_HASH, SHT_GNU_VERNEED, SHT_HASH,
    SHT_NULL, SHT_STRTAB,
};
use crate::text::text_of;
use crate::versions::{
    elf_hash, elfv1_only, find_nul, has_string, hash_of, is_elfv1_only, read_str, string_at,
};

verus! {

broadcast use {
    crate::bytes::u16_has_two_bytes,
    crate::bytes::u32_has_four_bytes,
    crate::bytes::u64_has_eight_bytes,
};

/// The length of the new name with the NUL that ends it.
pub const NEW_VERSION_LEN: u64 = 11;

/// The new name, `GLIBC_2.17`.
pub open spec fn new_version() -> Seq<u8> {
    seq![71u8, 76, 73, 66, 67, 95, 50, 46, 49, 55]
}

/// What the dynamic section says of the tables: where the strings stand, how long
/// they are, and where the hash table stands. Of entries that repeat a tag the last
/// one counts.
#[derive(Clone, Copy, Debug)]
pub struct Tables {
    pub strtab: Option<u64>,
    pub strsz: u64,
    pub hash: Option<u64>,
}

/// The tables, with the entry of `tag` taken into account.
pub open spec fn noted(t: Tables, tag: u64, value: u64) -> Tables {
    if tag == DT_STRTAB {
        Tables { strtab: Some(value), ..t }
    } else if tag == DT_STRSZ {
        Tables { strsz: value, ..t }
    } else if tag == DT_HASH {
        Tables { hash: Some(value), ..t }
    } else {
        t
    }
}

/// The entries with this tag are read or changed.
pub open spec fn is_table_tag(tag: u64) -> bool {
    tag == DT_STRTAB || tag == DT_STRSZ || tag == DT_HASH
}

/// The tables that the `n` dynamic entries at `off` tell of, after `t`. None where
/// what is read runs off the file.
pub open spec fn tables_at(data: Seq<u8>, off: int, n: nat, le: bool, t: Tables) -> Option<Tables>
    decreases n,
{
    if n == 0 {
        Some(t)
    } else if !in_file(data, off, 8) {
        None
    } else {
        let tag = u64_at(data, off, le);
        if is_table_tag(tag) && !in_file(data, off + 8, 8) {
            None
        } else {
            tables_at(
                data,
                off + 16,
                (n - 1) as nat,
                le,
                noted(t, tag, u64_at(data, off + 8, le)),
            )
        }
    }
}

/// The versions before 2.17 among at most `n` required of one library, the first of
/// them at `a`: where each stands. Names are counted from `names`. None where what
/// is read runs off the file.
pub open spec fn outdated_aux(data: Seq<u8>, a: int, n: nat, names: int, le: bool) -> Option<
    Seq<int>,
>
    decreases n,
{
    if n == 0 {
        Some(Seq::empty())
    } else if !in_file(data, a, 16) {
        None
    } else {
        let name = names + u32_at(data, a + 8, le);
        let next = u32_at(data, a + 12, le);
        if !has_string(data, name) {
            None
        } else {
            let here = if elfv1_only(text_of(string_at(data, name))) {
                seq![a]
            } else {
                Seq::empty()
            };
            if next == 0 {
                Some(here)
            } else {
                match outdated_aux(data, a + next, (n - 1) as nat, names, le) {
                    Some(rest) => Some(here + rest),
                    None => None,
                }
            }
        }
    }
}

/// The versions before 2.17 among those required of the libraries from `p` on.
pub open spec fn outdated_needs(data: Seq<u8>, p: int, names: int, le: bool) -> Option<Seq<int>>
    decreases if p < data.len() { data.len() - p } else { 0 },
{
    if !in_file(data, p, 16) {
        None
    } else {
        let count = u16_at(data, p + 2, le) as nat;
        let next = u32_at(data, p + 12, le);
        match outdated_aux(data, p + u32_at(data, p + 8, le), count, names, le) {
            Some(here) => if next == 0 {
                Some(here)
            } else {
                match outdated_needs(data, p + next, names, le) {
                    Some(rest) => Some(here + rest),
                    None => None,
                }
            },
            None => None,
        }
    }
}

/// The versions before 2.17 that the file requires, as `sections` tell, which are
/// the last of `all`.
pub open spec fn outdated(
    data: Seq<u8>,
    sections: Seq<Section>,
    all: Seq<Section>,
    le: bool,
) -> Option<Seq<int>>
    decreases sections.len(),
{
    if sections.len() == 0 {
        Some(Seq::empty())
    } else {
        let s = sections[0];
        let here = if s.sh_type != SHT_GNU_VERNEED {
            Some(Seq::empty())
        } else if s.link >= all.len() {
            None
        } else {
            outdated_needs(data, s.offset as int, all[s.link as int].offset as int, le)
        };
        match (here, outdated(data, sections.drop_first(), all, le)) {
            (Some(here), Some(rest)) => Some(here + rest),
            _ => None,
        }
    }
}

/// The section holds the strings.
pub open spec fn is_strings(s: Section, strtab: u64) -> bool {
    s.sh_type == SHT_STRTAB && s.offset == strtab
}

/// The section holds the hash table.
pub open spec fn is_hash(s: Section, hash: u64) -> bool {
    s.sh_type == SHT_HASH && s.offset == hash
}

/// The section stands between the hash table and the strings.
pub open spec fn is_between(s: Section, hash: u64, strtab: u64) -> bool {
    s.sh_type != SHT_NULL && hash < s.offset < strtab
}

/// Why the strings cannot be moved over the hash table, as far as the sections tell.
pub open spec fn refusal(sections: Seq<Section>, strtab: u64, hash: u64) -> Option<Reason> {
    if !exists|i: int| 0 <= i < sections.len() && is_strings(#[trigger] sections[i], strtab) {
        Some(Reason::NoDynstr)
    } else if !exists|i: int| 0 <= i < sections.len() && is_hash(#[trigger] sections[i], hash) {
        Some(Reason::NoHash)
    } else if !exists|i: int|
        0 <= i < sections.len() && (#[trigger] sections[i]).sh_type == SHT_GNU_HASH {
        Some(Reason::NoGnuHash)
    } else if exists|i: int|
        0 <= i < sections.len() && is_between(#[trigger] sections[i], hash, strtab) {
        Some(Reason::Unrelated)
    } else {
        None
    }
}

/// The strings stand over the hash table, with the new name behind them.
pub open spec fn moved(data: Seq<u8>, strtab: int, strsz: int, hash: int) -> Seq<u8> {
    put(data, hash, data.subrange(strtab, strtab + strsz) + new_version().push(0))
}

/// The `n` dynamic entries at `off`, which now tell of the moved strings and no
/// longer of the hash table. None where they run off the file.
pub open spec fn retagged(
    data: Seq<u8>,
    off: int,
    n: nat,
    le: bool,
    strtab: u64,
    strsz: u64,
) -> Option<Seq<u8>>
    decreases n,
{
    if n == 0 {
        Some(data)
    } else if !in_file(data, off, 8) {
        None
    } else {
        let tag = u64_at(data, off, le);
        if (tag == DT_STRTAB || tag == DT_STRSZ) && !in_file(data, off + 8, 8) {
            None
        } else {
            let d = if tag == DT_STRTAB {
                put(data, off + 8, u64_bytes(strtab, le))
            } else if tag == DT_STRSZ {
                put(data, off + 8, u64_bytes(strsz, le))
            } else if tag == DT_HASH {
                put(data, off, u64_bytes(IGNORED_TAG, le))
            } else {
                data
            };
            retagged(d, off + 16, (n - 1) as nat, le, strtab, strsz)
        }
    }
}

/// The header at `off` of the section of the strings, which now stands at `hash` and
/// has `size` bytes.
pub open spec fn header_moved(
    data: Seq<u8>,
    off: int,
    s: Section,
    le: bool,
    hash: u64,
    size: u64,
) -> Option<Seq<u8>> {
    if s.addr < s.offset || hash + (s.addr - s.offset) > u64::MAX || !in_file(
        data,
        off + 0x10,
        0x18,
    ) {
        None
    } else {
        let d = put(
            data,
            off + 0x10,
            u64_bytes((hash + (s.addr - s.offset)) as u64, le),
        );
        let d = put(d, off + 0x18, u64_bytes(hash, le));
        Some(put(d, off + 0x20, u64_bytes(size, le)))
    }
}

/// The headers of the sections from `i` on, that of the strings moved and that of
/// the hash table made void. None where a header runs off the file or the addresses.
pub open spec fn relinked(
    data: Seq<u8>,
    layout: LayoutView,
    i: nat,
    strtab: u64,
    hash: u64,
    size: u64,
) -> Option<Seq<u8>>
    decreases layout.sections.len() - i,
{
    if i >= layout.sections.len() {
        Some(data)
    } else {
        let s = layout.sections[i as int];
        let off = layout.shoff + i * layout.shentsize;
        let le = layout.little_endian;
        let here = if off > u64::MAX {
            None
        } else if is_strings(s, strtab) {
            header_moved(data, off, s, le, hash, size)
        } else if is_hash(s, hash) {
            if in_file(data, off + 4, 4) {
                Some(put(data, off + 4, u32_bytes(SHT_NULL, le)))
            } else {
                None
            }
        } else {
            Some(data)
        };
        match here {
            Some(d) => relinked(d, layout, i + 1, strtab, hash, size),
            None => None,
        }
    }
}

/// The requirements at `bad` ask for the new name, which is the string at `name`.
pub open spec fn renamed(data: Seq<u8>, bad: Seq<int>, le: bool, name: u32) -> Seq<u8>
    decreases bad.len(),
{
    if bad.len() == 0 {
        data
    } else {
        let d = renamed(data, bad.drop_last(), le, name);
        let a = bad.last();
        put(
            put(d, a, u32_bytes(hash_of(new_version()), le)),
            a + 8,
            u32_bytes(name, le),
        )
    }
}

/// The first dynamic section.
pub open spec fn dynamic_section(sections: Seq<Section>) -> Option<Section>
    decreases sections.len(),
{
    if sections.len() == 0 {
        None
    } else if sections[0].sh_type == SHT_DYNAMIC {
        Some(sections[0])
    } else {
        dynamic_section(sections.drop_first())
    }
}

/// What becomes of a file whose outdated requirements are those at `bad`.
pub open spec fn rewritten(
    data: Seq<u8>,
    layout: LayoutView,
    dynamic: Section,
    strtab: u64,
    strsz: u64,
    hash: u64,
    bad: Seq<int>,
) -> Option<Result<(Seq<u8>, nat), Reason>> {
    let le = layout.little_endian;
    let size = strsz + NEW_VERSION_LEN;
    match refusal(layout.sections, strtab, hash) {
        Some(reason) => Some(Err(reason)),
        None => if strtab + strsz > u64::MAX || strtab + strsz < hash || size > u64::MAX {
            None
        } else if strtab + strsz - hash < size {
            Some(Err(Reason::NoRoom))
        } else if !in_file(data, strtab as int, strsz as int) {
            None
        } else {
            let d = moved(data, strtab as int, strsz as int, hash as int);
            match retagged(
                d,
                dynamic.offset as int,
                (dynamic.size / 16) as nat,
                le,
                hash,
                size as u64,
            ) {
                Some(d) => match relinked(d, layout, 0, strtab, hash, size as u64) {
                    Some(d) => Some(Ok((renamed(d, bad, le, strsz as u32), bad.len()))),
                    None => None,
                },
                None => None,
            }
        },
    }
}

/// What becomes of a file with these headers: the file with its requirements raised
/// and their number, or the reason why it is not handled. None where what the
/// headers tell of runs off the file or the addresses.
pub open spec fn fixed(data: Seq<u8>, layout: LayoutView) -> Option<
    Result<(Seq<u8>, nat), Reason>,
> {
    let le = layout.little_endian;
    if !layout.is_64 {
        Some(Err(Reason::NotElf64))
    } else {
        match dynamic_section(layout.sections) {
            None => Some(Err(Reason::NoDynamic)),
            Some(dynamic) => match tables_at(
                data,
                dynamic.offset as int,
                (dynamic.size / 16) as nat,
                le,
                Tables { strtab: None, strsz: 0, hash: None },
            ) {
                None => None,
                Some(t) => match t.strtab {
                    None => Some(Err(Reason::NoStrtab)),
                    Some(strtab) => match outdated(data, layout.sections, layout.sections, le) {
                        None => None,
                        Some(bad) => if bad.len() == 0 {
                            Some(Ok((data, 0)))
                        } else {
                            match t.hash {
                                None => Some(Err(Reason::NoHashTag)),
                                Some(hash) => rewritten(
                                    data,
                                    layout,
                                    dynamic,
                                    strtab,
                                    t.strsz,
                                    hash,
                                    bad,
                                ),
                            }
                        },
                    },
                },
            },
        }
    }
}

/// The outcome for a file, its headers read.
pub open spec fn fix_outcome(data: Seq<u8>) -> Option<Result<(Seq<u8>, nat), Reason>> {
    match elf_layout(data) {
        Ok(layout) => fixed(data, layout),
        Err(text) => Some(Err(Reason::NotElf(text))),
    }
}

/// An outcome, as contracts speak of it.
pub open spec fn fix_view(r: Result<(Vec<u8>, usize), ElfError>) -> Result<
    (Seq<u8>, nat),
    Reason,
> {
    match r {
        Ok((data, count)) => Ok((data@, count as nat)),
        Err(e) => Err(e@),
    }
}

fn read_tables(data: &Vec<u8>, dynamic: Section, le: bool) -> (r: Option<Tables>)
    ensures
        r == tables_at(
            data@,
            dynamic.offset as int,
            (dynamic.size / 16) as nat,
            le,
            (Tables { strtab: None, strsz: 0, hash: None }),
        ),
{
    let count = dynamic.size / 16;
    let mut t = Tables { strtab: None, strsz: 0, hash: None };
    let ghost none = t;
    let ghost all = tables_at(data@, dynamic.offset as int, count as nat, le, none);
    let mut off: u128 = dynamic.offset as u128;
    let mut i: u64 = 0;
    while i < count
        invariant
            i <= count,
            off == dynamic.offset + 16 * i,
            count == dynamic.size / 16,
            none == (Tables { strtab: None, strsz: 0, hash: None }),
            all == tables_at(data@, dynamic.offset as int, count as nat, le, none),
            all == tables_at(data@, off as int, (count - i) as nat, le, t),
        decreases count - i,
    {
        if !fits(data, off, 8) {
            return None;
        }
        let at = off as usize;
        let tag = read_u64(data, at, le);
        if tag == DT_STRTAB || tag == DT_STRSZ || tag == DT_HASH {
            if !fits(data, off + 8, 8) {
                return None;
            }
            let value = read_u64(data, at + 8, le);
            if tag == DT_STRTAB {
                t = Tables { strtab: Some(value), ..t };
            } else if tag == DT_STRSZ {
                t = Tables { strsz: value, ..t };
            } else {
                t = Tables { hash: Some(value), ..t };
            }
        }
        off = off + 16;
        i = i + 1;
    }
    Some(t)
}

/// Positions, as contracts speak of them.
pub open spec fn positions(v: Seq<usize>) -> Seq<int> {
    v.map_values(|a: usize| a as int)
}

/// Find the outdated versions required of one library, and append where they stand.
fn find_aux(
    data: &Vec<u8>,
    first: u128,
    count: u16,
    names: u64,
    le: bool,
    bad: &mut Vec<usize>,
) -> (r: bool)
    requires
        first <= u64::MAX + u32::MAX,
    ensures
        match outdated_aux(data@, first as int, count as nat, names as int, le) {
            Some(here) => r && positions(final(bad)@) == positions(old(bad)@) + here,
            None => !r,
        },
{
    let mut a: u128 = first;
    let mut left: u16 = count;
    let ghost all = outdated_aux(data@, first as int, count as nat, names as int, le);
    let ghost mut found: Seq<int> = Seq::empty();
    assert(all == match all {
        Some(rest) => Some(found + rest),
        None => None,
    }) by {
        if all is Some {
            assert(found + all->0 =~= all->0);
        }
    }
    assert(positions(bad@) =~= positions(old(bad)@) + found);
    while left > 0
        invariant
            all == match outdated_aux(data@, a as int, left as nat, names as int, le) {
                Some(rest) => Some(found + rest),
                None => None,
            },
            all == outdated_aux(data@, first as int, count as nat, names as int, le),
            positions(bad@) == positions(old(bad)@) + found,
        decreases left,
    {
        if !fits(data, a, 16) {
            return false;
        }
        let at = a as usize;
        let name = names as u128 + read_u32(data, at + 8, le) as u128;
        let next = read_u32(data, at + 12, le);
        if name >= data.len() as u128 {
            return false;
        }
        if find_nul(data, name as usize).is_none() {
            return false;
        }
        let text = read_str(data, name as u64);
        let outdated = is_elfv1_only(text.as_str());
        let ghost before = found;
        let ghost here = if outdated { seq![a as int] } else { Seq::empty() };
        let ghost listed = positions(bad@);
        if outdated {
            bad.push(at);
        }
        proof {
            found = found + here;
            assert(positions(bad@) =~= listed + here);
            assert(positions(bad@) =~= positions(old(bad)@) + found);
        }
        if next == 0 {
            assert(found == all->0);
            return true;
        }
        proof {
            let rest = outdated_aux(data@, a + next, (left - 1) as nat, names as int, le);
            if rest is Some {
                assert(before + (here + rest->0) =~= found + rest->0);
            }
        }
        a = a + next as u128;
        left = left - 1;
    }
    assert(found + Seq::<int>::empty() =~= found);
    true
}

/// Find the outdated versions required of the libraries from `first` on.
fn find_needs(data: &Vec<u8>, first: u64, names: u64, le: bool, bad: &mut Vec<usize>) -> (r: bool)
    ensures
        match outdated_needs(data@, first as int, names as int, le) {
            Some(here) => r && positions(final(bad)@) == positions(old(bad)@) + here,
            None => !r,
        },
{
    let mut p: u128 = first as u128;
    let ghost all = outdated_needs(data@, first as int, names as int, le);
    let ghost mut found: Seq<int> = Seq::empty();
    assert(all == match all {
        Some(rest) => Some(found + rest),
        None => None,
    }) by {
        if all is Some {
            assert(found + all->0 =~= all->0);
        }
    }
    assert(positions(bad@) =~= positions(old(bad)@) + found);
    while fits(data, p, 16)
        invariant
            all == match outdated_needs(data@, p as int, names as int, le) {
                Some(rest) => Some(found + rest),
                None => None,
            },
            all == outdated_needs(data@, first as int, names as int, le),
            positions(bad@) == positions(old(bad)@) + found,
        decreases if p < data.len() { data.len() - p } else { 0 },
    {
        let at = p as usize;
        let count = read_u16(data, at + 2, le);
        let aux = p + read_u32(data, at + 8, le) as u128;
        let next = read_u32(data, at + 12, le);
        let ghost before = found;
        let ghost start = positions(bad@);
        if !find_aux(data, aux, count, names, le, bad) {
            return false;
        }
        let ghost here = outdated_aux(data@, aux as int, count as nat, names as int, le)->0;
        proof {
            found = found + here;
            assert(positions(bad@) =~= positions(old(bad)@) + found);
        }
        if next == 0 {
            return true;
        }
        proof {
            let rest = outdated_needs(data@, p + next, names as int, le);
            if rest is Some {
                assert(before + (here + rest->0) =~= found + rest->0);
            }
        }
        p = p + next as u128;
    }
    false
}

/// Find the outdated versions that the file requires.
fn find_outdated(data: &Vec<u8>, sections: &Vec<Section>, le: bool) -> (r: Option<Vec<usize>>)
    ensures
        match r {
            Some(bad) => outdated(data@, sections@, sections@, le) == Some(positions(bad@)),
            None => outdated(data@, sections@, sections@, le) is None,
        },
{
    let mut bad: Vec<usize> = Vec::new();
    let mut i: usize = 0;
    let ghost all = outdated(data@, sections@, sections@, le);
    assert(sections@.skip(0) =~= sections@);
    assert(positions(bad@) =~= Seq::empty());
    assert(all is Some ==> positions(bad@) + all->0 =~= all->0);
    while i < sections.len()
        invariant
            i <= sections.len(),
            all == match outdated(data@, sections@.skip(i as int), sections@, le) {
                Some(rest) => Some(positions(bad@) + rest),
                None => None,
            },
            all == outdated(data@, sections@, sections@, le),
        decreases sections.len() - i,
    {
        let s = sections[i];
        let ghost before = positions(bad@);
        let ghost rest = outdated(data@, sections@.skip(i + 1), sections@, le);
        assert(sections@.skip(i as int).drop_first() =~= sections@.skip(i + 1));
        if s.sh_type == SHT_GNU_VERNEED {
            if s.link as usize >= sections.len() {
                return None;
            }
            let names = sections[s.link as usize].offset;
            if !find_needs(data, s.offset, names, le, &mut bad) {
                return None;
            }
            proof {
                let here = outdated_needs(data@, s.offset as int, names as int, le)->0;
                if rest is Some {
                    assert(before + (here + rest->0) =~= positions(bad@) + rest->0);
                }
            }
        } else {
            assert(rest is Some ==> Seq::<int>::empty() + rest->0 =~= rest->0);
        }
        i = i + 1;
    }
    assert(positions(bad@) + Seq::<int>::empty() =~= positions(bad@));
    Some(bad)
}

/// The first dynamic section.
fn find_dynamic(sections: &Vec<Section>) -> (r: Option<Section>)
    ensures
        r == dynamic_section(sections@),
{
    let mut i: usize = 0;
    assert(sections@.skip(0) =~= sections@);
    while i < sections.len()
        invariant
            i <= sections.len(),
            dynamic_section(sections@) == dynamic_section(sections@.skip(i as int)),
        decreases sections.len() - i,
    {
        assert(sections@.skip(i as int).drop_first() =~= sections@.skip(i + 1));
        if sections[i].sh_type == SHT_DYNAMIC {
            return Some(sections[i]);
        }
        i = i + 1;
    }
    None
}

/// Why the strings cannot be moved, as far as the sections tell.
fn check_sections(sections: &Vec<Section>, strtab: u64, hash: u64) -> (r: Option<ElfError>)
    ensures
        match r {
            Some(e) => refusal(sections@, strtab, hash) == Some(e@),
            None => refusal(sections@, strtab, hash) is None,
        },
{
    let mut dynstr = false;
    let mut hashed = false;
    let mut gnu_hash = false;
    let mut between = false;
    let mut i: usize = 0;
    while i < sections.len()
        invariant
            i <= sections.len(),
            dynstr <==> exists|j: int| 0 <= j < i && is_strings(#[trigger] sections@[j], strtab),
            hashed <==> exists|j: int| 0 <= j < i && is_hash(#[trigger] sections@[j], hash),
            gnu_hash <==> exists|j: int|
                0 <= j < i && (#[trigger] sections@[j]).sh_type == SHT_GNU_HASH,
            between <==> exists|j: int|
                0 <= j < i && is_between(#[trigger] sections@[j], hash, strtab),
        decreases sections.len() - i,
    {
        let s = sections[i];
        assert(sections@[i as int] == s);
        dynstr = dynstr || (s.sh_type == SHT_STRTAB && s.offset == strtab);
        hashed = hashed || (s.sh_type == SHT_HASH && s.offset == hash);
        gnu_hash = gnu_hash || s.sh_type == SHT_GNU_HASH;
        between = between || (s.sh_type != SHT_NULL && s.offset > hash && s.offset < strtab);
        i = i + 1;
    }
    if !dynstr {
        Some(ElfError::NoDynstr)
    } else if !hashed {
        Some(ElfError::NoHash)
    } else if !gnu_hash {
        Some(ElfError::NoGnuHash)
    } else if between {
        Some(ElfError::Unrelated)
    } else {
        None
    }
}

/// Move the strings over the hash table and append the new name.
fn move_strings(data: &mut Vec<u8>, strtab: usize, strsz: usize, hash: usize)
    requires
        strtab + strsz <= old(data).len(),
        hash + strsz + NEW_VERSION_LEN <= strtab + strsz,
    ensures
        final(data)@ == moved(old(data)@, strtab as int, strsz as int, hash as int),
{
    let ghost before = data@;
    let ghost strings = before.subrange(strtab as int, strtab + strsz);
    // The strings move down, so each is read before it is written over.
    let mut i: usize = 0;
    while i < strsz
        invariant
            i <= strsz,
            data.len() == before.len(),
            strtab + strsz <= before.len(),
            hash + strsz + NEW_VERSION_LEN <= strtab + strsz,
            forall|k: int|
                0 <= k < before.len() ==> #[trigger] data@[k] == if hash <= k < hash + i {
                    before[strtab + (k - hash)]
                } else {
                    before[k]
                },
        decreases strsz - i,
    {
        data[hash + i] = data[strtab + i];
        i = i + 1;
    }
    let name: [u8; 11] = [71, 76, 73, 66, 67, 95, 50, 46, 49, 55, 0];
    let mut j: usize = 0;
    while j < 11
        invariant
            j <= 11,
            name@ == seq![71u8, 76, 73, 66, 67, 95, 50, 46, 49, 55, 0],
            data.len() == before.len(),
            strtab + strsz <= before.len(),
            hash + strsz + NEW_VERSION_LEN <= strtab + strsz,
            forall|k: int|
                0 <= k < before.len() ==> #[trigger] data@[k] == if hash <= k < hash + strsz {
                    before[strtab + (k - hash)]
                } else if hash + strsz <= k < hash + strsz + j {
                    name@[k - hash - strsz]
                } else {
                    before[k]
                },
        decreases 11 - j,
    {
        data[hash + strsz + j] = name[j];
        j = j + 1;
    }
    assert(new_version().push(0) =~= name@);
    assert(data@ =~= moved(before, strtab as int, strsz as int, hash as int));
}

/// Have the dynamic section tell of the moved strings.
fn retag(data: &mut Vec<u8>, dynamic: Section, le: bool, strtab: u64, strsz: u64) -> (r: bool)
    ensures
        match retagged(
            old(data)@,
            dynamic.offset as int,
            (dynamic.size / 16) as nat,
            le,
            strtab,
            strsz,
        ) {
            Some(d) => r && final(data)@ == d,
            None => !r,
        },
{
    let count = dynamic.size / 16;
    let ghost all = retagged(data@, dynamic.offset as int, count as nat, le, strtab, strsz);
    let mut off: u128 = dynamic.offset as u128;
    let mut i: u64 = 0;
    while i < count
        invariant
            i <= count,
            off == dynamic.offset + 16 * i,
            count == dynamic.size / 16,
            all == retagged(
                old(data)@,
                dynamic.offset as int,
                count as nat,
                le,
                strtab,
                strsz,
            ),
            all == retagged(data@, off as int, (count - i) as nat, le, strtab, strsz),
        decreases count - i,
    {
        if !fits(data, off, 8) {
            return false;
        }
        let at = off as usize;
        let tag = read_u64(data, at, le);
        if tag == DT_STRTAB || tag == DT_STRSZ {
            if !fits(data, off + 8, 8) {
                return false;
            }
            write_u64(data, at + 8, if tag == DT_STRTAB { strtab } else { strsz }, le);
        } else if tag == DT_HASH {
            write_u64(data, at, IGNORED_TAG, le);
        }
        off = off + 16;
        i = i + 1;
    }
    true
}

/// Change the header of the section of the strings.
fn move_header(data: &mut Vec<u8>, off: u64, s: Section, le: bool, hash: u64, size: u64) -> (r: bool)
    ensures
        match header_moved(old(data)@, off as int, s, le, hash, size) {
            Some(d) => r && final(data)@ == d,
            None => !r,
        },
{
    if s.addr < s.offset || s.addr - s.offset > u64::MAX - hash {
        return false;
    }
    if !fits(data, off as u128 + 0x10, 0x18) {
        return false;
    }
    let at = off as usize;
    write_u64(data, at + 0x10, hash + (s.addr - s.offset), le);
    write_u64(data, at + 0x18, hash, le);
    write_u64(data, at + 0x20, size, le);
    true
}

/// Change the headers of the sections that were merged.
fn relink(data: &mut Vec<u8>, layout: &Layout, strtab: u64, hash: u64, size: u64) -> (r: bool)
    ensures
        match relinked(old(data)@, layout@, 0, strtab, hash, size) {
            Some(d) => r && final(data)@ == d,
            None => !r,
        },
{
    let le = layout.little_endian;
    let ghost all = relinked(data@, layout@, 0, strtab, hash, size);
    let mut off: u128 = layout.shoff as u128;
    let mut i: usize = 0;
    while i < layout.sections.len()
        invariant
            i <= layout.sections.len(),
            le == layout.little_endian,
            off == layout.shoff + i * layout.shentsize,
            off <= u64::MAX + i * 0x1_0000,
            all == relinked(old(data)@, layout@, 0, strtab, hash, size),
            all == relinked(data@, layout@, i as nat, strtab, hash, size),
        decreases layout.sections.len() - i,
    {
        if off > u64::MAX as u128 {
            return false;
        }
        let s = layout.sections[i];
        if s.sh_type == SHT_STRTAB && s.offset == strtab {
            if !move_header(data, off as u64, s, le, hash, size) {
                return false;
            }
        } else if s.sh_type == SHT_HASH && s.offset == hash {
            if !fits(data, off + 4, 4) {
                return false;
            }
            write_u32(data, off as usize + 4, SHT_NULL, le);
        }
        assert((i + 1) * layout.shentsize == i * layout.shentsize + layout.shentsize)
            by (nonlinear_arith);
        off = off + layout.shentsize as u128;
        i = i + 1;
    }
    true
}

/// Point every outdated requirement at the new name.
fn rename(data: &mut Vec<u8>, bad: &Vec<usize>, le: bool, name: u32)
    requires
        forall|i: int| 0 <= i < bad.len() ==> #[trigger] bad@[i] + 16 <= old(data).len(),
    ensures
        final(data)@ == renamed(old(data)@, positions(bad@), le, name),
{
    let version: [u8; 10] = [71, 76, 73, 66, 67, 95, 50, 46, 49, 55];
    assert(version@ =~= new_version());
    let hash = elf_hash(&version);
    let ghost all = positions(bad@);
    let mut i: usize = 0;
    assert(all.take(0) =~= Seq::empty());
    while i < bad.len()
        invariant
            i <= bad.len(),
            all == positions(bad@),
            hash == hash_of(new_version()),
            data.len() == old(data).len(),
            forall|i: int| 0 <= i < bad.len() ==> #[trigger] bad@[i] + 16 <= old(data).len(),
            data@ == renamed(old(data)@, all.take(i as int), le, name),
        decreases bad.len() - i,
    {
        let a = bad[i];
        assert(bad@[i as int] + 16 <= old(data).len());
        assert(all.take(i + 1).drop_last() =~= all.take(i as int));
        assert(all.take(i + 1).last() == a);
        write_u32(data, a, hash, le);
        write_u32(data, a + 8, name, le);
        i = i + 1;
    }
    assert(all.take(all.len() as int) =~= all);
}

proof fn aux_in_file(data: Seq<u8>, a: int, n: nat, names: int, le: bool)
    requires
        outdated_aux(data, a, n, names, le) is Some,
    ensures
        forall|i: int|
            0 <= i < outdated_aux(data, a, n, names, le)->0.len() ==> in_file(
                data,
                #[trigger] outdated_aux(data, a, n, names, le)->0[i],
                16,
            ),
    decreases n,
{
    if n > 0 {
        let next = u32_at(data, a + 12, le);
        if next != 0 {
            aux_in_file(data, a + next, (n - 1) as nat, names, le);
        }
    }
}

proof fn needs_in_file(data: Seq<u8>, p: int, names: int, le: bool)
    requires
        outdated_needs(data, p, names, le) is Some,
    ensures
        forall|i: int|
            0 <= i < outdated_needs(data, p, names, le)->0.len() ==> in_file(
                data,
                #[trigger] outdated_needs(data, p, names, le)->0[i],
                16,
            ),
    decreases if p < data.len() { data.len() - p } else { 0 },
{
    let count = u16_at(data, p + 2, le) as nat;
    let next = u32_at(data, p + 12, le);
    aux_in_file(data, p + u32_at(data, p + 8, le), count, names, le);
    if next != 0 {
        needs_in_file(data, p + next, names, le);
    }
}

/// Every outdated requirement lies in the file.
pub proof fn outdated_in_file(data: Seq<u8>, sections: Seq<Section>, all: Seq<Section>, le: bool)
    requires
        outdated(data, sections, all, le) is Some,
    ensures
        forall|i: int|
            0 <= i < outdated(data, sections, all, le)->0.len() ==> in_file(
                data,
                #[trigger] outdated(data, sections, all, le)->0[i],
                16,
            ),
    decreases sections.len(),
{
    if sections.len() > 0 {
        let s = sections[0];
        outdated_in_file(data, sections.drop_first(), all, le);
        if s.sh_type == SHT_GNU_VERNEED && s.link < all.len() {
            needs_in_file(data, s.offset as int, all[s.link as int].offset as int, le);
        }
    }
}

proof fn retagging_keeps_length(
    data: Seq<u8>,
    off: int,
    n: nat,
    le: bool,
    strtab: u64,
    strsz: u64,
)
    ensures
        retagged(data, off, n, le, strtab, strsz) matches Some(d) ==> d.len() == data.len(),
    decreases n,
{
    if n > 0 {
        let tag = u64_at(data, off, le);
        let d = if tag == DT_STRTAB {
            put(data, off + 8, u64_bytes(strtab, le))
        } else if tag == DT_STRSZ {
            put(data, off + 8, u64_bytes(strsz, le))
        } else if tag == DT_HASH {
            put(data, off, u64_bytes(IGNORED_TAG, le))
        } else {
            data
        };
        retagging_keeps_length(d, off + 16, (n - 1) as nat, le, strtab, strsz);
    }
}

proof fn relinking_keeps_length(
    data: Seq<u8>,
    layout: LayoutView,
    i: nat,
    strtab: u64,
    hash: u64,
    size: u64,
)
    ensures
        relinked(data, layout, i, strtab, hash, size) matches Some(d) ==> d.len() == data.len(),
    decreases layout.sections.len() - i,
{
    if i < layout.sections.len() {
        let s = layout.sections[i as int];
        let off = layout.shoff + i * layout.shentsize;
        let le = layout.little_endian;
        let d = if is_strings(s, strtab) {
            header_moved(data, off, s, le, hash, size)->0
        } else if is_hash(s, hash) {
            put(data, off + 4, u32_bytes(SHT_NULL, le))
        } else {
            data
        };
        relinking_keeps_length(d, layout, i + 1, strtab, hash, size);
    }
}

/// Rewrite the file, whose outdated requirements are those at `bad`.
fn rewrite(
    layout: &Layout,
    data: &Vec<u8>,
    dynamic: Section,
    strtab: u64,
    strsz: u64,
    hash: u64,
    bad: &Vec<usize>,
) -> (r: Option<Result<(Vec<u8>, usize), ElfError>>)
    requires
        forall|i: int| 0 <= i < bad.len() ==> #[trigger] bad@[i] + 16 <= data.len(),
    ensures
        match r {
            Some(outcome) => rewritten(
                data@,
                layout@,
                dynamic,
                strtab,
                strsz,
                hash,
                positions(bad@),
            ) == Some(fix_view(outcome)),
            None => rewritten(data@, layout@, dynamic, strtab, strsz, hash, positions(bad@)) is None,
        },
{
    if let Some(e) = check_sections(&layout.sections, strtab, hash) {
        return Some(Err(e));
    }
    if strsz > u64::MAX - strtab || strtab + strsz < hash || strsz > u64::MAX - NEW_VERSION_LEN {
        return None;
    }
    let size = strsz + NEW_VERSION_LEN;
    if strtab + strsz - hash < size {
        return Some(Err(ElfError::NoRoom));
    }
    if !fits(data, strtab as u128, strsz as u128) {
        return None;
    }
    let le = layout.little_endian;
    let mut image = data.clone();
    assert(image@ =~= data@);
    move_strings(&mut image, strtab as usize, strsz as usize, hash as usize);
    let ghost d1 = image@;
    if !retag(&mut image, dynamic, le, hash, size) {
        return None;
    }
    let ghost d2 = image@;
    if !relink(&mut image, layout, strtab, hash, size) {
        return None;
    }
    proof {
        retagging_keeps_length(
            d1,
            dynamic.offset as int,
            (dynamic.size / 16) as nat,
            le,
            hash,
            size,
        );
        relinking_keeps_length(d2, layout@, 0, strtab, hash, size);
    }
    rename(&mut image, bad, le, strsz as u32);
    Some(Ok((image, bad.len())))
}

/// Raise the outdated requirements of the file `data`, whose headers are `layout`.
pub fn fix_image(layout: &Layout, data: &Vec<u8>) -> (r: Option<
    Result<(Vec<u8>, usize), ElfError>,
>)
    ensures
        match r {
            Some(outcome) => fixed(data@, layout@) == Some(fix_view(outcome)),
            None => fixed(data@, layout@) is None,
        },
{
    if !layout.is_64 {
        return Some(Err(ElfError::NotElf64));
    }
    let le = layout.little_endian;
    let Some(dynamic) = find_dynamic(&layout.sections) else {
        return Some(Err(ElfError::NoDynamic));
    };
    let Some(tables) = read_tables(data, dynamic, le) else {
        return None;
    };
    let Some(strtab) = tables.strtab else {
        return Some(Err(ElfError::NoStrtab));
    };
    // The outdated requirements are found before anything is touched.
    let Some(bad) = find_outdated(data, &layout.sections, le) else {
        return None;
    };
    if bad.len() == 0 {
        let image = data.clone();
        assert(image@ =~= data@);
        return Some(Ok((image, 0)));
    }
    let Some(hash) = tables.hash else {
        return Some(Err(ElfError::NoHashTag));
    };
    proof {
        outdated_in_file(data@, layout.sections@, layout.sections@, le);
        assert forall|i: int| 0 <= i < bad.len() implies #[trigger] bad@[i] + 16 <= data.len() by {
            assert(positions(bad@)[i] == bad@[i]);
        }
    }
    rewrite(layout, data, dynamic, strtab, tables.strsz, hash, &bad)
}

/// Raise the outdated requirements of the file `data`: the file, and how many there
/// were. Where there were none the file is unchanged.
pub fn fix(data: &Vec<u8>) -> (r: Result<(Vec<u8>, usize), ElfError>)
    requires
        fix_outcome(data@) is Some,
    ensures
        fix_outcome(data@) == Some(fix_view(r)),
{
    match parse_elf(data) {
        Ok(layout) => fix_image(&layout, data).unwrap(),
        Err(text) => Err(ElfError::NotElf(text)),
    }
}

/// Raise the outdated requirements of the file `data`, unless what its headers tell
/// of runs off the file.
pub fn try_fix(data: &Vec<u8>) -> (r: Option<Result<(Vec<u8>, usize), ElfError>>)
    ensures
        match r {
            Some(outcome) => fix_outcome(data@) == Some(fix_view(outcome)),
            None => fix_outcome(data@) is None,
        },
{
    if let Ok(layout) = parse_elf(data) {
        if fix_image(&layout, data).is_none() {
            return None;
        }
    }
    Some(fix(data))
}

}
