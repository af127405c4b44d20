//! Strip ELF symbol version requirements from shared objects.
//!
//! An object that was linked against versions which the running library does not
//! define is refused by the dynamic linker. Without the requirements it binds to
//! whatever the running library provides.

use vstd::prelude::*;
use crate::bytes::{
    put, read_u64, u16_at, u16_bytes, u16_depends_on_its_bytes, u16_round_trip, u64_at, u64_bytes,
    u64_depends_on_its_bytes, u64_round_trip, write_u16, write_u64,
};
use crate::elf::{
    elf_layout, fits, in_file, parse_elf, ElfError, Layout, LayoutView, Reason, Section,
    DT_VERNEED, DT_VERNEEDNUM, DT_VERSYM, IGNORED_TAG, SHT_DYNAMIC, SHT_GNU_VERSYM,
};

verus! {

broadcast use {
    crate::bytes::u16_has_two_bytes,
    crate::bytes::u32_has_four_bytes,
    crate::bytes::u64_has_eight_bytes,
};

/// The index of a symbol without a version.
pub const VER_NDX_GLOBAL: u16 = 1;

/// The tag is one of those that tell of symbol versions.
pub open spec fn is_version_tag(tag: u64) -> bool {
    tag == DT_VERSYM || tag == DT_VERNEED || tag == DT_VERNEEDNUM
}

/// The `n` entries of a dynamic section at `off`, the version tags among them
/// replaced, and how many there were. None where the entries run off the file.
pub open spec fn untagged(data: Seq<u8>, off: int, n: nat, le: bool) -> Option<(Seq<u8>, nat)>
    decreases n,
{
    if n == 0 {
        Some((data, 0))
    } else if !in_file(data, off, 8) {
        None
    } else if is_version_tag(u64_at(data, off, le)) {
        match untagged(
            put(data, off, u64_bytes(IGNORED_TAG, le)),
            off + 16,
            (n - 1) as nat,
            le,
        ) {
            Some((r, c)) => Some((r, c + 1)),
            None => None,
        }
    } else {
        untagged(data, off + 16, (n - 1) as nat, le)
    }
}

/// The `n` version indices at `off`, all of them made that of a symbol without a
/// version. None where they run off the file.
pub open spec fn unindexed(data: Seq<u8>, off: int, n: nat, le: bool) -> Option<Seq<u8>>
    decreases n,
{
    if n == 0 {
        Some(data)
    } else if !in_file(data, off, 2) {
        None
    } else {
        unindexed(
            put(data, off, u16_bytes(VER_NDX_GLOBAL, le)),
            off + 2,
            (n - 1) as nat,
            le,
        )
    }
}

/// How many entries a dynamic section has.
pub open spec fn entry_count(s: Section) -> nat {
    (s.size / 16) as nat
}

/// How many version indices are replaced: all but that of the null symbol.
pub open spec fn index_count(s: Section) -> nat {
    if s.size < 2 { 0 } else { ((s.size - 2) / 2) as nat }
}

/// One section is stripped. None where it runs off the file, or off the addresses.
pub open spec fn section_stripped(data: Seq<u8>, s: Section, le: bool) -> Option<(Seq<u8>, nat)> {
    if s.offset + s.size > u64::MAX {
        None
    } else if s.sh_type == SHT_DYNAMIC {
        if s.offset + 16 > u64::MAX {
            None
        } else {
            untagged(data, s.offset as int, entry_count(s), le)
        }
    } else if s.sh_type == SHT_GNU_VERSYM {
        if s.offset + 2 > u64::MAX {
            None
        } else {
            match unindexed(data, s.offset + 2, index_count(s), le) {
                Some(r) => Some((r, 0)),
                None => None,
            }
        }
    } else {
        Some((data, 0))
    }
}

/// The sections are stripped one after the other, and the version tags counted.
pub open spec fn sections_stripped(data: Seq<u8>, sections: Seq<Section>, le: bool) -> Option<
    (Seq<u8>, nat),
>
    decreases sections.len(),
{
    if sections.len() == 0 {
        Some((data, 0))
    } else {
        match section_stripped(data, sections[0], le) {
            Some((d, c)) => match sections_stripped(d, sections.drop_first(), le) {
                Some((r, m)) => Some((r, c + m)),
                None => None,
            },
            None => None,
        }
    }
}

/// What becomes of a file with these headers: the stripped file and the number of
/// tags that were removed, or the reason why it is not handled. None where what the
/// headers tell of runs off the file, or there are more tags than can be counted.
pub open spec fn stripped(data: Seq<u8>, layout: LayoutView) -> Option<
    Result<(Seq<u8>, nat), Reason>,
> {
    if !layout.is_64 {
        Some(Err(Reason::NotElf64))
    } else {
        match sections_stripped(data, layout.sections, layout.little_endian) {
            Some((r, c)) => if c <= u64::MAX {
                Some(Ok((r, c)))
            } else {
                None
            },
            None => None,
        }
    }
}

/// The outcome for a file, its headers read.
pub open spec fn strip_outcome(data: Seq<u8>) -> Option<Result<(Seq<u8>, nat), Reason>> {
    match elf_layout(data) {
        Ok(layout) => stripped(data, layout),
        Err(text) => Some(Err(Reason::NotElf(text))),
    }
}

/// An outcome, as contracts speak of it.
pub open spec fn outcome_view(r: Result<(Vec<u8>, u64), ElfError>) -> Result<
    (Seq<u8>, nat),
    Reason,
> {
    match r {
        Ok((data, tags)) => Ok((data@, tags as nat)),
        Err(e) => Err(e@),
    }
}

fn untag(data: &mut Vec<u8>, s: Section, le: bool) -> (r: Option<u64>)
    requires
        s.offset + s.size <= u64::MAX,
    ensures
        match r {
            Some(tags) => untagged(old(data)@, s.offset as int, entry_count(s), le) == Some(
                (final(data)@, tags as nat),
            ) && tags <= s.size / 16,
            None => untagged(old(data)@, s.offset as int, entry_count(s), le) is None,
        },
{
    let count = s.size / 16;
    let mut tags: u64 = 0;
    let mut i: u64 = 0;
    while i < count
        invariant
            i <= count == s.size / 16,
            s.offset + s.size <= u64::MAX,
            tags <= i,
            untagged(old(data)@, s.offset as int, entry_count(s), le) == match untagged(
                data@,
                s.offset + 16 * i,
                (count - i) as nat,
                le,
            ) {
                Some((r, c)) => Some((r, tags as nat + c)),
                None => None,
            },
        decreases count - i,
    {
        let off = s.offset + 16 * i;
        if !fits(data, off as u128, 8) {
            return None;
        }
        let tag = read_u64(data, off as usize, le);
        if tag == DT_VERSYM || tag == DT_VERNEED || tag == DT_VERNEEDNUM {
            write_u64(data, off as usize, IGNORED_TAG, le);
            tags = tags + 1;
        }
        i = i + 1;
    }
    Some(tags)
}

fn unindex(data: &mut Vec<u8>, s: Section, le: bool) -> (r: bool)
    requires
        s.offset + s.size <= u64::MAX,
        s.offset + 2 <= u64::MAX,
    ensures
        r ==> unindexed(old(data)@, s.offset + 2, index_count(s), le) == Some(final(data)@),
        !r ==> unindexed(old(data)@, s.offset + 2, index_count(s), le) is None,
{
    let count = if s.size < 2 { 0 } else { (s.size - 2) / 2 };
    let mut i: u64 = 0;
    while i < count
        invariant
            i <= count == index_count(s),
            s.offset + s.size <= u64::MAX,
            s.offset + 2 <= u64::MAX,
            unindexed(old(data)@, s.offset + 2, index_count(s), le) == unindexed(
                data@,
                s.offset + 2 + 2 * i,
                (count - i) as nat,
                le,
            ),
        decreases count - i,
    {
        let off = s.offset + 2 + 2 * i;
        if !fits(data, off as u128, 2) {
            return false;
        }
        write_u16(data, off as usize, VER_NDX_GLOBAL, le);
        i = i + 1;
    }
    true
}

fn strip_section(data: &mut Vec<u8>, s: Section, le: bool) -> (r: Option<u64>)
    ensures
        match r {
            Some(tags) => section_stripped(old(data)@, s, le) == Some((final(data)@, tags as nat)),
            None => section_stripped(old(data)@, s, le) is None,
        },
{
    if s.size > u64::MAX - s.offset {
        return None;
    }
    if s.sh_type == SHT_DYNAMIC {
        if s.offset > u64::MAX - 16 {
            return None;
        }
        untag(data, s, le)
    } else if s.sh_type == SHT_GNU_VERSYM {
        if s.offset > u64::MAX - 2 {
            return None;
        }
        if unindex(data, s, le) {
            Some(0)
        } else {
            None
        }
    } else {
        Some(0)
    }
}

/// Strip the file `data`, whose headers are `layout`.
pub fn strip_image(layout: &Layout, data: &Vec<u8>) -> (r: Option<
    Result<(Vec<u8>, u64), ElfError>,
>)
    ensures
        match r {
            Some(outcome) => stripped(data@, layout@) == Some(outcome_view(outcome)),
            None => stripped(data@, layout@) is None,
        },
{
    if !layout.is_64 {
        return Some(Err(ElfError::NotElf64));
    }
    let le = layout.little_endian;
    let ghost all = sections_stripped(data@, layout.sections@, le);
    let mut image = data.clone();
    assert(image@ =~= data@);
    let mut tags: u64 = 0;
    let mut i: usize = 0;
    assert(layout.sections@.skip(0) =~= layout.sections@);
    while i < layout.sections.len()
        invariant
            i <= layout.sections.len(),
            all == match sections_stripped(image@, layout.sections@.skip(i as int), le) {
                Some((r, c)) => Some((r, tags as nat + c)),
                None => None,
            },
            all == sections_stripped(data@, layout.sections@, le),
            le == layout.little_endian,
            layout.is_64,
        decreases layout.sections.len() - i,
    {
        assert(layout.sections@.skip(i as int).drop_first() =~= layout.sections@.skip(i + 1));
        match strip_section(&mut image, layout.sections[i], le) {
            Some(more) => {
                if more > u64::MAX - tags {
                    return None;
                }
                tags = tags + more;
            },
            None => {
                return None;
            },
        }
        i = i + 1;
    }
    Some(Ok((image, tags)))
}

/// Strip the file `data`: the stripped file, and how many version tags it had.
pub fn strip(data: &Vec<u8>) -> (r: Result<(Vec<u8>, u64), ElfError>)
    requires
        strip_outcome(data@) is Some,
    ensures
        strip_outcome(data@) == Some(outcome_view(r)),
{
    match parse_elf(data) {
        Ok(layout) => strip_image(&layout, data).unwrap(),
        Err(text) => Err(ElfError::NotElf(text)),
    }
}

/// Strip the file `data`, unless what its headers tell of runs off the file.
pub fn try_strip(data: &Vec<u8>) -> (r: Option<Result<(Vec<u8>, u64), ElfError>>)
    ensures
        match r {
            Some(outcome) => strip_outcome(data@) == Some(outcome_view(outcome)),
            None => strip_outcome(data@) is None,
        },
{
    if let Ok(layout) = parse_elf(data) {
        if strip_image(&layout, data).is_none() {
            return None;
        }
    }
    Some(strip(data))
}

/// How many of the `n` entries at `off` have a version tag.
pub open spec fn tag_count(data: Seq<u8>, off: int, n: nat, le: bool) -> nat
    decreases n,
{
    if n == 0 {
        0
    } else {
        tag_count(data, off + 16, (n - 1) as nat, le) + if is_version_tag(u64_at(data, off, le)) {
            1nat
        } else {
            0nat
        }
    }
}

/// Entries that were not touched count the same.
proof fn counts_agree(b: Seq<u8>, c: Seq<u8>, off: int, n: nat, le: bool)
    requires
        0 <= off,
        n > 0 ==> off + 16 * n - 8 <= b.len(),
        forall|k: int| off <= k < b.len() ==> #[trigger] b[k] == c[k],
    ensures
        tag_count(b, off, n, le) == tag_count(c, off, n, le),
    decreases n,
{
    if n > 0 {
        u64_depends_on_its_bytes(b, c, off, le);
        counts_agree(b, c, off + 16, (n - 1) as nat, le);
    }
}

/// In a dynamic section exactly the version tags are replaced, and they are counted.
pub proof fn version_tags_are_replaced(data: Seq<u8>, off: int, n: nat, le: bool)
    requires
        0 <= off,
        untagged(data, off, n, le) is Some,
    ensures
        ({
            let (r, c) = untagged(data, off, n, le)->0;
            &&& r.len() == data.len()
            &&& c == tag_count(data, off, n, le)
            &&& forall|i: int|
                0 <= i < n ==> #[trigger] u64_at(r, off + 16 * i, le) == if is_version_tag(
                    u64_at(data, off + 16 * i, le),
                ) {
                    IGNORED_TAG
                } else {
                    u64_at(data, off + 16 * i, le)
                }
            &&& forall|k: int|
                0 <= k < data.len() && !(off <= k < off + 16 * n && (k - off) % 16 < 8)
                    ==> #[trigger] r[k] == data[k]
        }),
    decreases n,
{
    if n > 0 {
        let m = (n - 1) as nat;
        let replaced = is_version_tag(u64_at(data, off, le));
        let d = if replaced { put(data, off, u64_bytes(IGNORED_TAG, le)) } else { data };
        version_tags_are_replaced(d, off + 16, m, le);
        entries_lie_in_the_file(d, off + 16, m, le);
        let (r, c) = untagged(data, off, n, le)->0;
        u64_round_trip(data, off, IGNORED_TAG, le);
        counts_agree(d, data, off + 16, m, le);
        assert forall|i: int| 0 <= i < n implies #[trigger] u64_at(r, off + 16 * i, le)
            == if is_version_tag(u64_at(data, off + 16 * i, le)) {
            IGNORED_TAG
        } else {
            u64_at(data, off + 16 * i, le)
        } by {
            if i == 0 {
                u64_depends_on_its_bytes(r, d, off, le);
            } else {
                assert(off + 16 * i == off + 16 + 16 * (i - 1));
                let _ = u64_at(r, off + 16 + 16 * (i - 1), le);
                u64_depends_on_its_bytes(d, data, off + 16 * i, le);
            }
        }
        assert forall|k: int|
            0 <= k < data.len() && !(off <= k < off + 16 * n && (k - off) % 16 < 8) implies
            #[trigger] r[k] == data[k] by {
            if off + 16 <= k {
                assert((k - off - 16) % 16 == (k - off) % 16);
            }
            assert(d[k] == data[k]);
        }
    }
}

/// In a section of version indices all but the first become that of a symbol
/// without a version.
pub proof fn version_indices_are_replaced(data: Seq<u8>, off: int, n: nat, le: bool)
    requires
        0 <= off,
        unindexed(data, off, n, le) is Some,
    ensures
        ({
            let r = unindexed(data, off, n, le)->0;
            &&& r.len() == data.len()
            &&& forall|i: int|
                0 <= i < n ==> #[trigger] u16_at(r, off + 2 * i, le) == VER_NDX_GLOBAL
            &&& forall|k: int|
                0 <= k < data.len() && !(off <= k < off + 2 * n) ==> #[trigger] r[k] == data[k]
        }),
    decreases n,
{
    if n > 0 {
        let m = (n - 1) as nat;
        let d = put(data, off, u16_bytes(VER_NDX_GLOBAL, le));
        version_indices_are_replaced(d, off + 2, m, le);
        let r = unindexed(data, off, n, le)->0;
        u16_round_trip(data, off, VER_NDX_GLOBAL, le);
        assert forall|i: int| 0 <= i < n implies #[trigger] u16_at(r, off + 2 * i, le)
            == VER_NDX_GLOBAL by {
            if i == 0 {
                u16_depends_on_its_bytes(r, d, off, le);
            } else {
                assert(off + 2 * i == off + 2 + 2 * (i - 1));
                let _ = u16_at(r, off + 2 + 2 * (i - 1), le);
            }
        }
    }
}

/// Byte `k` is among those that stripping the section may change.
pub open spec fn touches(s: Section, k: int) -> bool {
    if s.sh_type == SHT_DYNAMIC {
        s.offset <= k < s.offset + 16 * entry_count(s)
    } else if s.sh_type == SHT_GNU_VERSYM {
        s.offset + 2 <= k < s.offset + 2 + 2 * index_count(s)
    } else {
        false
    }
}

/// Stripping a section changes nothing outside it.
pub proof fn section_keeps_the_rest(data: Seq<u8>, s: Section, le: bool)
    requires
        section_stripped(data, s, le) is Some,
    ensures
        ({
            let (r, c) = section_stripped(data, s, le)->0;
            &&& r.len() == data.len()
            &&& forall|k: int|
                0 <= k < data.len() && !touches(s, k) ==> #[trigger] r[k] == data[k]
        }),
{
    if s.sh_type == SHT_DYNAMIC {
        version_tags_are_replaced(data, s.offset as int, entry_count(s), le);
    } else if s.sh_type == SHT_GNU_VERSYM {
        version_indices_are_replaced(data, s.offset + 2, index_count(s), le);
    }
}

/// Stripping changes nothing outside the dynamic sections and those of the version
/// indices, and keeps the length of the file.
pub proof fn stripping_keeps_the_rest(data: Seq<u8>, sections: Seq<Section>, le: bool)
    requires
        sections_stripped(data, sections, le) is Some,
    ensures
        ({
            let (r, c) = sections_stripped(data, sections, le)->0;
            &&& r.len() == data.len()
            &&& forall|k: int|
                0 <= k < data.len() && (forall|i: int|
                    0 <= i < sections.len() ==> !touches(#[trigger] sections[i], k))
                    ==> #[trigger] r[k] == data[k]
        }),
    decreases sections.len(),
{
    if sections.len() > 0 {
        let (d, _) = section_stripped(data, sections[0], le)->0;
        let rest = sections.drop_first();
        section_keeps_the_rest(data, sections[0], le);
        stripping_keeps_the_rest(d, rest, le);
        let (r, _) = sections_stripped(data, sections, le)->0;
        assert forall|k: int|
            0 <= k < data.len() && (forall|i: int|
                0 <= i < sections.len() ==> !touches(#[trigger] sections[i], k)) implies
            #[trigger] r[k] == data[k] by {
            assert forall|i: int| 0 <= i < rest.len() implies !touches(#[trigger] rest[i], k) by {
                assert(rest[i] == sections[i + 1]);
            }
            assert(!touches(sections[0], k));
            assert(d[k] == data[k]);
        }
    }
}

/// No later section shares a byte with section `j`.
pub open spec fn apart_from_later(sections: Seq<Section>, j: int) -> bool {
    forall|i: int, k: int|
        j < i < sections.len() ==> !(touches(sections[j], k) && #[trigger] touches(sections[i], k))
}

/// No version tag is left in a dynamic section, and no version index but the null
/// symbol's in a section of those, where no section that is stripped after it
/// overlaps it.
pub proof fn versions_are_gone(data: Seq<u8>, sections: Seq<Section>, le: bool, j: int)
    requires
        sections_stripped(data, sections, le) is Some,
        0 <= j < sections.len(),
        apart_from_later(sections, j),
    ensures
        ({
            let (r, c) = sections_stripped(data, sections, le)->0;
            let s = sections[j];
            &&& s.sh_type == SHT_DYNAMIC ==> forall|i: int|
                0 <= i < entry_count(s) ==> !is_version_tag(
                    #[trigger] u64_at(r, s.offset + 16 * i, le),
                )
            &&& s.sh_type == SHT_GNU_VERSYM ==> forall|i: int|
                0 <= i < index_count(s) ==> #[trigger] u16_at(r, s.offset + 2 + 2 * i, le)
                    == VER_NDX_GLOBAL
        }),
    decreases sections.len(),
{
    let rest = sections.drop_first();
    let (d, _) = section_stripped(data, sections[0], le)->0;
    section_keeps_the_rest(data, sections[0], le);
    if j > 0 {
        assert(sections[j] == rest[j - 1]);
        assert forall|i: int, k: int| j - 1 < i < rest.len() implies !(touches(rest[j - 1], k)
            && #[trigger] touches(rest[i], k)) by {
            assert(rest[i] == sections[i + 1]);
        }
        versions_are_gone(d, rest, le, j - 1);
    } else {
        let s = sections[0];
        let (r, _) = sections_stripped(data, sections, le)->0;
        stripping_keeps_the_rest(d, rest, le);
        assert forall|k: int| 0 <= k < d.len() && touches(s, k) implies #[trigger] r[k] == d[k] by {
            assert forall|i: int| 0 <= i < rest.len() implies !touches(#[trigger] rest[i], k) by {
                assert(rest[i] == sections[i + 1]);
            }
        }
        if s.sh_type == SHT_DYNAMIC {
            let n = entry_count(s);
            version_tags_are_replaced(data, s.offset as int, n, le);
            entries_lie_in_the_file(data, s.offset as int, n, le);
            assert forall|i: int| 0 <= i < n implies !is_version_tag(
                #[trigger] u64_at(r, s.offset + 16 * i, le),
            ) by {
                u64_depends_on_its_bytes(r, d, s.offset + 16 * i, le);
                assert(u64_at(d, s.offset + 16 * i, le) == u64_at(d, s.offset as int + 16 * i, le));
            }
        } else if s.sh_type == SHT_GNU_VERSYM {
            let n = index_count(s);
            version_indices_are_replaced(data, s.offset + 2, n, le);
            indices_lie_in_the_file(data, s.offset + 2, n, le);
            assert forall|i: int| 0 <= i < n implies #[trigger] u16_at(
                r,
                s.offset + 2 + 2 * i,
                le,
            ) == VER_NDX_GLOBAL by {
                u16_depends_on_its_bytes(r, d, s.offset + 2 + 2 * i, le);
            }
        }
    }
}

/// Entries that were gone through lie in the file.
pub proof fn entries_lie_in_the_file(data: Seq<u8>, off: int, n: nat, le: bool)
    requires
        0 <= off,
        untagged(data, off, n, le) is Some,
    ensures
        n > 0 ==> off + 16 * n - 8 <= data.len(),
    decreases n,
{
    if n > 0 {
        let d = if is_version_tag(u64_at(data, off, le)) {
            put(data, off, u64_bytes(IGNORED_TAG, le))
        } else {
            data
        };
        entries_lie_in_the_file(d, off + 16, (n - 1) as nat, le);
    }
}

/// Version indices that were gone through lie in the file.
pub proof fn indices_lie_in_the_file(data: Seq<u8>, off: int, n: nat, le: bool)
    requires
        0 <= off,
        unindexed(data, off, n, le) is Some,
    ensures
        n > 0 ==> off + 2 * n <= data.len(),
    decreases n,
{
    if n > 0 {
        indices_lie_in_the_file(
            put(data, off, u16_bytes(VER_NDX_GLOBAL, le)),
            off + 2,
            (n - 1) as nat,
            le,
        );
    }
}

}
