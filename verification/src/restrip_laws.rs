//! What holds of a file that is stripped a second time.

use vstd::prelude::*;
use crate::bytes::{put, u16_at, u16_bytes, u64_at};
use crate::elf::{elf_layout, in_file, LayoutView, Reason, Section, SHT_DYNAMIC, SHT_GNU_VERSYM};
use crate::unversion::{
    apart_from_later, entries_lie_in_the_file, entry_count, index_count, indices_lie_in_the_file,
    is_version_tag, section_keeps_the_rest, section_stripped, sections_stripped, strip_outcome,
    stripped, stripping_keeps_the_rest, touches, unindexed, untagged, versions_are_gone,
    VER_NDX_GLOBAL,
};

verus! {

broadcast use {
    crate::bytes::u16_has_two_bytes,
    crate::bytes::u32_has_four_bytes,
    crate::bytes::u64_has_eight_bytes,
};

/// No two sections share a byte that stripping may change.
pub open spec fn are_apart(sections: Seq<Section>) -> bool {
    forall|i: int, j: int, k: int|
        0 <= i < j < sections.len() ==> !(#[trigger] touches(sections[i], k) && #[trigger] touches(
            sections[j],
            k,
        ))
}

/// What stripping reads of the section lies in a file of `len` bytes.
spec fn lies_in(s: Section, len: int) -> bool {
    &&& s.offset + s.size <= u64::MAX
    &&& s.sh_type == SHT_DYNAMIC ==> s.offset + 16 <= u64::MAX && (entry_count(s) > 0 ==> s.offset
        + 16 * entry_count(s) - 8 <= len)
    &&& s.sh_type == SHT_GNU_VERSYM ==> s.offset + 2 <= u64::MAX && (index_count(s) > 0
        ==> s.offset + 2 + 2 * index_count(s) <= len)
}

/// There is nothing left to strip in the section.
spec fn is_bare(r: Seq<u8>, s: Section, le: bool) -> bool {
    &&& s.sh_type == SHT_DYNAMIC ==> forall|i: int|
        0 <= i < entry_count(s) ==> !is_version_tag(#[trigger] u64_at(r, s.offset + 16 * i, le))
    &&& s.sh_type == SHT_GNU_VERSYM ==> forall|i: int|
        0 <= i < index_count(s) ==> #[trigger] u16_at(r, s.offset + 2 + 2 * i, le)
            == VER_NDX_GLOBAL
}

/// Sections that were stripped lie in the file.
proof fn sections_lie_in_the_file(data: Seq<u8>, sections: Seq<Section>, le: bool, j: int)
    requires
        sections_stripped(data, sections, le) is Some,
        0 <= j < sections.len(),
    ensures
        lies_in(sections[j], data.len() as int),
    decreases sections.len(),
{
    let s = sections[0];
    let (d, _) = section_stripped(data, s, le)->0;
    section_keeps_the_rest(data, s, le);
    if j > 0 {
        assert(sections[j] == sections.drop_first()[j - 1]);
        sections_lie_in_the_file(d, sections.drop_first(), le, j - 1);
    } else if s.sh_type == SHT_DYNAMIC {
        entries_lie_in_the_file(data, s.offset as int, entry_count(s), le);
    } else if s.sh_type == SHT_GNU_VERSYM {
        indices_lie_in_the_file(data, s.offset + 2, index_count(s), le);
    }
}

/// Entries without a version tag are left as they are.
proof fn bare_entries_are_left(r: Seq<u8>, off: int, n: nat, le: bool)
    requires
        0 <= off,
        n > 0 ==> off + 16 * n - 8 <= r.len(),
        forall|i: int| 0 <= i < n ==> !is_version_tag(#[trigger] u64_at(r, off + 16 * i, le)),
    ensures
        untagged(r, off, n, le) == Some((r, 0nat)),
    decreases n,
{
    if n > 0 {
        assert(!is_version_tag(u64_at(r, off + 16 * 0, le)));
        assert(in_file(r, off, 8));
        assert forall|i: int| 0 <= i < n - 1 implies !is_version_tag(
            #[trigger] u64_at(r, off + 16 + 16 * i, le),
        ) by {
            assert(off + 16 + 16 * i == off + 16 * (i + 1));
            assert(!is_version_tag(u64_at(r, off + 16 * (i + 1), le)));
        }
        bare_entries_are_left(r, off + 16, (n - 1) as nat, le);
    }
}

/// A number that is written where it stands changes nothing.
proof fn same_number_is_left(b: Seq<u8>, off: int, le: bool)
    requires
        0 <= off,
        off + 2 <= b.len(),
    ensures
        put(b, off, u16_bytes(u16_at(b, off, le), le)) == b,
{
    reveal(u16_at);
    reveal(u16_bytes);
    let bytes = u16_bytes(u16_at(b, off, le), le);
    assert(bytes[0] == b[off] && bytes[1] == b[off + 1]);
    assert(put(b, off, bytes) =~= b);
}

/// Version indices that are those of symbols without a version are left as they are.
proof fn bare_indices_are_left(r: Seq<u8>, off: int, n: nat, le: bool)
    requires
        0 <= off,
        n > 0 ==> off + 2 * n <= r.len(),
        forall|i: int| 0 <= i < n ==> #[trigger] u16_at(r, off + 2 * i, le) == VER_NDX_GLOBAL,
    ensures
        unindexed(r, off, n, le) == Some(r),
    decreases n,
{
    if n > 0 {
        assert(u16_at(r, off + 2 * 0, le) == VER_NDX_GLOBAL);
        assert(in_file(r, off, 2));
        same_number_is_left(r, off, le);
        assert forall|i: int| 0 <= i < n - 1 implies #[trigger] u16_at(r, off + 2 + 2 * i, le)
            == VER_NDX_GLOBAL by {
            assert(off + 2 + 2 * i == off + 2 * (i + 1));
            assert(u16_at(r, off + 2 * (i + 1), le) == VER_NDX_GLOBAL);
        }
        bare_indices_are_left(r, off + 2, (n - 1) as nat, le);
    }
}

/// Sections in which nothing is left to strip are left as they are.
proof fn bare_sections_are_left(r: Seq<u8>, sections: Seq<Section>, le: bool)
    requires
        forall|j: int|
            0 <= j < sections.len() ==> lies_in(#[trigger] sections[j], r.len() as int) && is_bare(
                r,
                sections[j],
                le,
            ),
    ensures
        sections_stripped(r, sections, le) == Some((r, 0nat)),
    decreases sections.len(),
{
    if sections.len() > 0 {
        let s = sections[0];
        let rest = sections.drop_first();
        if s.sh_type == SHT_DYNAMIC {
            bare_entries_are_left(r, s.offset as int, entry_count(s), le);
        } else if s.sh_type == SHT_GNU_VERSYM {
            bare_indices_are_left(r, s.offset + 2, index_count(s), le);
        }
        assert(section_stripped(r, s, le) == Some((r, 0nat)));
        assert forall|j: int| 0 <= j < rest.len() implies lies_in(
            #[trigger] rest[j],
            r.len() as int,
        ) && is_bare(r, rest[j], le) by {
            assert(rest[j] == sections[j + 1]);
        }
        bare_sections_are_left(r, rest, le);
    }
}

/// Sections that were stripped have nothing left to strip, where they do not overlap:
/// stripping them again changes nothing and counts nothing.
pub proof fn sections_are_stripped_once(data: Seq<u8>, sections: Seq<Section>, le: bool)
    requires
        sections_stripped(data, sections, le) is Some,
        are_apart(sections),
    ensures
        ({
            let r = (sections_stripped(data, sections, le)->0).0;
            sections_stripped(r, sections, le) == Some((r, 0nat))
        }),
{
    let r = (sections_stripped(data, sections, le)->0).0;
    stripping_keeps_the_rest(data, sections, le);
    assert forall|j: int| 0 <= j < sections.len() implies lies_in(
        #[trigger] sections[j],
        r.len() as int,
    ) && is_bare(r, sections[j], le) by {
        sections_lie_in_the_file(data, sections, le, j);
        assert(apart_from_later(sections, j));
        versions_are_gone(data, sections, le, j);
    }
    bare_sections_are_left(r, sections, le);
}

/// A file that was stripped is left as it is when it is stripped again, and no tag is
/// counted. This is so where the sections do not overlap, and for the whole file where
/// its headers are read as before.
pub proof fn files_are_stripped_once(data: Seq<u8>, layout: LayoutView, r: Seq<u8>, count: nat)
    requires
        stripped(data, layout) matches Some(Ok(o)) && o == (r, count),
        are_apart(layout.sections),
    ensures
        stripped(r, layout) == Some(Ok::<(Seq<u8>, nat), Reason>((r, 0nat))),
        elf_layout(r) == Ok::<LayoutView, Seq<char>>(layout) ==> strip_outcome(r) == Some(
            Ok::<(Seq<u8>, nat), Reason>((r, 0nat)),
        ),
{
    sections_are_stripped_once(data, layout.sections, layout.little_endian);
}

}
