//! What holds of a file whose version requirements were raised.

use vstd::prelude::*;
use crate::bytes::{
    put, u32_at, u32_bytes, u32_depends_on_its_bytes, u32_round_trip, u64_at, u64_bytes,
    u64_depends_on_its_bytes, u64_round_trip,
};
use crate::decimal::value;
use crate::elf::{in_file, LayoutView, Section, DT_HASH, DT_STRSZ, DT_STRTAB, IGNORED_TAG, SHT_NULL};
use crate::fix_versions::{
    dynamic_section, fixed, header_moved, is_hash, is_strings, is_table_tag, moved, new_version,
    noted, outdated, outdated_in_file, relinked, renamed, retagged, rewritten, tables_at, Tables,
    NEW_VERSION_LEN,
};
use crate::versions::{
    dot_at, elfv1_only, has_string, hash_of, nul_at, part_number, parts, string_at,
};

verus! {

broadcast use {
    crate::bytes::u16_has_two_bytes,
    crate::bytes::u32_has_four_bytes,
    crate::bytes::u64_has_eight_bytes,
};

/// Byte `k` is among the strings in their new place.
pub open spec fn in_strings(k: int, hash: u64, strsz: u64) -> bool {
    hash <= k < hash + strsz + NEW_VERSION_LEN
}

/// Byte `k` is in the dynamic section.
pub open spec fn in_dynamic(k: int, dynamic: Section) -> bool {
    dynamic.offset <= k < dynamic.offset + 16 * (dynamic.size / 16)
}

/// Where the header of section `i` stands.
pub open spec fn header_at(layout: LayoutView, i: int) -> int {
    layout.shoff + i * layout.shentsize
}

/// Byte `k` is in a part of header `i` that is changed.
pub open spec fn in_header(k: int, layout: LayoutView, i: int, strtab: u64, hash: u64) -> bool {
    let off = header_at(layout, i);
    if is_strings(layout.sections[i], strtab) {
        off + 0x10 <= k < off + 0x28
    } else {
        is_hash(layout.sections[i], hash) && off + 4 <= k < off + 8
    }
}

/// Byte `k` is in a part of a section header that is changed.
pub open spec fn in_headers(k: int, layout: LayoutView, strtab: u64, hash: u64) -> bool {
    exists|i: int|
        0 <= i < layout.sections.len() && #[trigger] in_header(k, layout, i, strtab, hash)
}

/// Byte `k` is in a part of the requirement at `a` that is changed: its hash or its
/// name.
pub open spec fn in_requirement(k: int, a: int) -> bool {
    a <= k < a + 4 || a + 8 <= k < a + 12
}

/// Byte `k` is in a part of one of the requirements at `bad` that is changed.
pub open spec fn in_requirements(k: int, bad: Seq<int>) -> bool {
    exists|i: int| 0 <= i < bad.len() && in_requirement(k, #[trigger] bad[i])
}

/// The parts of the file that are changed do not overlap one another: the new place
/// of the strings, the dynamic section, the section headers and the requirements.
pub open spec fn parts_are_apart(
    layout: LayoutView,
    dynamic: Section,
    strtab: u64,
    strsz: u64,
    hash: u64,
    bad: Seq<int>,
) -> bool {
    &&& forall|k: int|
        #![trigger in_requirements(k, bad)]
        #![trigger in_headers(k, layout, strtab, hash)]
        {
            &&& !(in_strings(k, hash, strsz) && in_dynamic(k, dynamic))
            &&& !(in_strings(k, hash, strsz) && in_headers(k, layout, strtab, hash))
            &&& !(in_strings(k, hash, strsz) && in_requirements(k, bad))
            &&& !(in_dynamic(k, dynamic) && in_headers(k, layout, strtab, hash))
            &&& !(in_dynamic(k, dynamic) && in_requirements(k, bad))
            &&& !(in_headers(k, layout, strtab, hash) && in_requirements(k, bad))
        }
    &&& forall|i: int, j: int|
        0 <= i < bad.len() && 0 <= j < bad.len() && #[trigger] bad[i] < #[trigger] bad[j] ==> bad[i]
            + 16 <= bad[j]
}

/// One of the `n` dynamic entries at `off` has this tag.
pub open spec fn has_tag(data: Seq<u8>, off: int, n: nat, le: bool, tag: u64) -> bool {
    exists|i: int| 0 <= i < n && #[trigger] u64_at(data, off + 16 * i, le) == tag
}

/// The entry at `off` after it was changed.
spec fn entry(data: Seq<u8>, off: int, le: bool, strtab: u64, strsz: u64) -> Seq<u8> {
    let tag = u64_at(data, off, le);
    if tag == DT_STRTAB {
        put(data, off + 8, u64_bytes(strtab, le))
    } else if tag == DT_STRSZ {
        put(data, off + 8, u64_bytes(strsz, le))
    } else if tag == DT_HASH {
        put(data, off, u64_bytes(IGNORED_TAG, le))
    } else {
        data
    }
}

/// Changing the dynamic entries changes nothing else.
proof fn retagging_keeps_the_rest(
    data: Seq<u8>,
    off: int,
    n: nat,
    le: bool,
    strtab: u64,
    strsz: u64,
)
    requires
        0 <= off,
        retagged(data, off, n, le, strtab, strsz) is Some,
    ensures
        ({
            let d = retagged(data, off, n, le, strtab, strsz)->0;
            &&& d.len() == data.len()
            &&& forall|k: int|
                0 <= k < data.len() && !(off <= k < off + 16 * n) ==> #[trigger] d[k] == data[k]
            &&& n > 0 ==> off + 16 * n - 8 <= data.len()
        }),
    decreases n,
{
    if n > 0 {
        let e = entry(data, off, le, strtab, strsz);
        retagging_keeps_the_rest(e, off + 16, (n - 1) as nat, le, strtab, strsz);
        let d = retagged(data, off, n, le, strtab, strsz)->0;
        assert forall|k: int| 0 <= k < data.len() && !(off <= k < off + 16 * n) implies
            #[trigger] d[k] == data[k] by {
            assert(e[k] == data[k]);
        }
    }
}

/// Whether a tag occurs does not depend on what stands outside the entries.
proof fn tags_agree(b: Seq<u8>, c: Seq<u8>, off: int, n: nat, le: bool, tag: u64)
    requires
        0 <= off,
        n > 0 ==> off + 16 * n - 8 <= b.len(),
        forall|k: int| off <= k < off + 16 * n && k < b.len() ==> #[trigger] b[k] == c[k],
    ensures
        has_tag(b, off, n, le, tag) == has_tag(c, off, n, le, tag),
{
    assert forall|i: int| 0 <= i < n implies #[trigger] u64_at(b, off + 16 * i, le) == u64_at(
        c,
        off + 16 * i,
        le,
    ) by {
        u64_depends_on_its_bytes(b, c, off + 16 * i, le);
    }
    if has_tag(b, off, n, le, tag) {
        let i = choose|i: int| 0 <= i < n && #[trigger] u64_at(b, off + 16 * i, le) == tag;
        assert(u64_at(c, off + 16 * i, le) == tag);
    }
    if has_tag(c, off, n, le, tag) {
        let i = choose|i: int| 0 <= i < n && #[trigger] u64_at(c, off + 16 * i, le) == tag;
        assert(u64_at(b, off + 16 * i, le) == tag);
    }
}

/// A tag occurs among entries where it is the first one's, or occurs among the rest.
pub proof fn tag_is_first_or_later(data: Seq<u8>, off: int, n: nat, le: bool, tag: u64)
    requires
        n > 0,
    ensures
        has_tag(data, off, n, le, tag) <==> u64_at(data, off, le) == tag || has_tag(
            data,
            off + 16,
            (n - 1) as nat,
            le,
            tag,
        ),
{
    if has_tag(data, off, n, le, tag) {
        let i = choose|i: int| 0 <= i < n && #[trigger] u64_at(data, off + 16 * i, le) == tag;
        if i > 0 {
            assert(off + 16 * i == off + 16 + 16 * (i - 1));
            assert(u64_at(data, off + 16 + 16 * (i - 1), le) == tag);
        }
    }
    if u64_at(data, off, le) == tag {
        assert(u64_at(data, off + 16 * 0, le) == tag);
    }
    if has_tag(data, off + 16, (n - 1) as nat, le, tag) {
        let i = choose|i: int|
            0 <= i < n - 1 && #[trigger] u64_at(data, off + 16 + 16 * i, le) == tag;
        assert(off + 16 + 16 * i == off + 16 * (i + 1));
        assert(u64_at(data, off + 16 * (i + 1), le) == tag);
    }
}

/// What tables the entries tell of does not depend on what stands elsewhere.
proof fn tables_agree(b: Seq<u8>, c: Seq<u8>, off: int, n: nat, le: bool, t: Tables)
    requires
        0 <= off,
        b.len() == c.len(),
        forall|k: int| off <= k < off + 16 * n && k < b.len() ==> #[trigger] b[k] == c[k],
    ensures
        tables_at(b, off, n, le, t) == tables_at(c, off, n, le, t),
    decreases n,
{
    if n > 0 && in_file(b, off, 8) {
        u64_depends_on_its_bytes(b, c, off, le);
        let tag = u64_at(b, off, le);
        if in_file(b, off + 8, 8) {
            u64_depends_on_its_bytes(b, c, off + 8, le);
        }
        if !is_table_tag(tag) || in_file(b, off + 8, 8) {
            assert(noted(t, tag, u64_at(b, off + 8, le)) == noted(t, tag, u64_at(c, off + 8, le)));
            tables_agree(
                b,
                c,
                off + 16,
                (n - 1) as nat,
                le,
                noted(t, tag, u64_at(b, off + 8, le)),
            );
        }
    }
}

/// What the tables are once an entry with this tag was changed and noted.
spec fn noted_changed(t: Tables, tag: u64, strtab: u64, strsz: u64) -> Tables {
    if tag == DT_STRTAB {
        Tables { strtab: Some(strtab), ..t }
    } else if tag == DT_STRSZ {
        Tables { strsz, ..t }
    } else {
        t
    }
}

/// A changed entry tells of the moved strings, and of no hash table. `d` is any file
/// that has the changed entry.
#[verifier::spinoff_prover]
proof fn changed_entry_tells(
    data: Seq<u8>,
    d: Seq<u8>,
    off: int,
    le: bool,
    strtab: u64,
    strsz: u64,
    t: Tables,
)
    requires
        in_file(data, off, 8),
        u64_at(data, off, le) == DT_STRTAB || u64_at(data, off, le) == DT_STRSZ ==> in_file(
            data,
            off + 8,
            8,
        ),
        d.len() == data.len(),
        forall|k: int|
            off <= k < off + 16 && k < data.len() ==> #[trigger] d[k] == entry(
                data,
                off,
                le,
                strtab,
                strsz,
            )[k],
    ensures
        is_table_tag(u64_at(d, off, le)) ==> in_file(d, off + 8, 8),
        noted(t, u64_at(d, off, le), u64_at(d, off + 8, le)) == noted_changed(
            t,
            u64_at(data, off, le),
            strtab,
            strsz,
        ),
{
    let tag = u64_at(data, off, le);
    let e = entry(data, off, le, strtab, strsz);
    u64_depends_on_its_bytes(d, e, off, le);
    if tag == DT_STRTAB || tag == DT_STRSZ {
        let value = if tag == DT_STRTAB { strtab } else { strsz };
        u64_round_trip(data, off + 8, value, le);
        u64_depends_on_its_bytes(e, data, off, le);
        u64_depends_on_its_bytes(d, e, off + 8, le);
    } else if tag == DT_HASH {
        u64_round_trip(data, off, IGNORED_TAG, le);
    }
}

/// The entries behind the first have the same tags after it was changed.
proof fn later_tags_stay(data: Seq<u8>, off: int, n: nat, le: bool, strtab: u64, strsz: u64)
    requires
        0 <= off,
        n > 0,
        retagged(data, off, n, le, strtab, strsz) is Some,
    ensures
        ({
            let e = entry(data, off, le, strtab, strsz);
            let m = (n - 1) as nat;
            &&& e.len() == data.len()
            &&& has_tag(e, off + 16, m, le, DT_STRTAB) == has_tag(
                data,
                off + 16,
                m,
                le,
                DT_STRTAB,
            )
            &&& has_tag(e, off + 16, m, le, DT_STRSZ) == has_tag(data, off + 16, m, le, DT_STRSZ)
        }),
{
    let e = entry(data, off, le, strtab, strsz);
    let m = (n - 1) as nat;
    retagging_keeps_the_rest(e, off + 16, m, le, strtab, strsz);
    tags_agree(e, data, off + 16, m, le, DT_STRTAB);
    tags_agree(e, data, off + 16, m, le, DT_STRSZ);
}

/// The changed entries tell of the moved strings, and of no hash table.
#[verifier::spinoff_prover]
proof fn retagged_entries_tell(
    data: Seq<u8>,
    off: int,
    n: nat,
    le: bool,
    strtab: u64,
    strsz: u64,
    t: Tables,
)
    requires
        0 <= off,
        retagged(data, off, n, le, strtab, strsz) is Some,
    ensures
        tables_at(retagged(data, off, n, le, strtab, strsz)->0, off, n, le, t) == Some(
            (Tables {
                strtab: if has_tag(data, off, n, le, DT_STRTAB) { Some(strtab) } else { t.strtab },
                strsz: if has_tag(data, off, n, le, DT_STRSZ) { strsz } else { t.strsz },
                hash: t.hash,
            }),
        ),
    decreases n,
{
    if n > 0 {
        let m = (n - 1) as nat;
        let tag = u64_at(data, off, le);
        let e = entry(data, off, le, strtab, strsz);
        let d = retagged(e, off + 16, m, le, strtab, strsz)->0;
        assert(retagged(data, off, n, le, strtab, strsz) == Some(d));
        retagging_keeps_the_rest(e, off + 16, m, le, strtab, strsz);
        later_tags_stay(data, off, n, le, strtab, strsz);
        changed_entry_tells(data, d, off, le, strtab, strsz, t);
        tag_is_first_or_later(data, off, n, le, DT_STRTAB);
        tag_is_first_or_later(data, off, n, le, DT_STRSZ);
        retagged_entries_tell(
            e,
            off + 16,
            m,
            le,
            strtab,
            strsz,
            noted_changed(t, tag, strtab, strsz),
        );
    }
}

/// Changing the section headers changes nothing else.
proof fn relinking_keeps_the_rest(
    data: Seq<u8>,
    layout: LayoutView,
    i: nat,
    strtab: u64,
    hash: u64,
    size: u64,
)
    requires
        relinked(data, layout, i, strtab, hash, size) is Some,
    ensures
        ({
            let d = relinked(data, layout, i, strtab, hash, size)->0;
            &&& d.len() == data.len()
            &&& forall|k: int|
                0 <= k < data.len() && (forall|j: int|
                    i <= j < layout.sections.len() ==> !(#[trigger] in_header(
                        k,
                        layout,
                        j,
                        strtab,
                        hash,
                    ))) ==> #[trigger] d[k] == data[k]
        }),
    decreases layout.sections.len() - i,
{
    if i < layout.sections.len() {
        let e = one_relinked(data, layout, i, strtab, hash, size);
        relinking_keeps_the_rest(e, layout, i + 1, strtab, hash, size);
        let d = relinked(data, layout, i, strtab, hash, size)->0;
        assert forall|k: int|
            0 <= k < data.len() && (forall|j: int|
                i <= j < layout.sections.len() ==> !(#[trigger] in_header(
                    k,
                    layout,
                    j,
                    strtab,
                    hash,
                ))) implies #[trigger] d[k] == data[k] by {
            assert(!in_header(k, layout, i as int, strtab, hash));
            assert(e[k] == data[k]);
        }
    }
}

/// The file after the header of section `i` was changed.
spec fn one_relinked(
    data: Seq<u8>,
    layout: LayoutView,
    i: nat,
    strtab: u64,
    hash: u64,
    size: u64,
) -> Seq<u8> {
    let s = layout.sections[i as int];
    let off = header_at(layout, i as int);
    let le = layout.little_endian;
    if is_strings(s, strtab) {
        header_moved(data, off, s, le, hash, size)->0
    } else if is_hash(s, hash) {
        put(data, off + 4, u32_bytes(SHT_NULL, le))
    } else {
        data
    }
}

/// Changing the requirements changes nothing else, and each then asks for the name.
proof fn renaming_raises(data: Seq<u8>, bad: Seq<int>, le: bool, name: u32)
    requires
        forall|i: int| 0 <= i < bad.len() ==> in_file(data, #[trigger] bad[i], 16),
        forall|i: int, j: int|
            0 <= i < bad.len() && 0 <= j < bad.len() && #[trigger] bad[i] < #[trigger] bad[j]
                ==> bad[i] + 16 <= bad[j],
    ensures
        ({
            let d = renamed(data, bad, le, name);
            &&& d.len() == data.len()
            &&& forall|k: int|
                0 <= k < data.len() && !in_requirements(k, bad) ==> #[trigger] d[k] == data[k]
            &&& forall|i: int|
                0 <= i < bad.len() ==> u32_at(d, #[trigger] bad[i], le) == hash_of(new_version())
                    && u32_at(d, bad[i] + 8, le) == name
        }),
    decreases bad.len(),
{
    if bad.len() > 0 {
        let rest = bad.drop_last();
        let a = bad.last();
        assert forall|i: int, j: int|
            0 <= i < rest.len() && 0 <= j < rest.len() && #[trigger] rest[i] < #[trigger] rest[j]
                implies rest[i] + 16 <= rest[j] by {
            assert(bad[i] < bad[j]);
        }
        renaming_raises(data, rest, le, name);
        let b = renamed(data, rest, le, name);
        let h = hash_of(new_version());
        let c = put(b, a, u32_bytes(h, le));
        let d = put(c, a + 8, u32_bytes(name, le));
        assert(in_file(data, bad[bad.len() - 1], 16));
        u32_round_trip(b, a, h, le);
        u32_round_trip(c, a + 8, name, le);
        u32_depends_on_its_bytes(d, c, a, le);
        assert forall|i: int| 0 <= i < bad.len() implies u32_at(d, #[trigger] bad[i], le) == h
            && u32_at(d, bad[i] + 8, le) == name by {
            if bad[i] != a {
                assert(rest[i] == bad[i]);
                assert(in_file(data, bad[i], 16));
                assert(bad[i] + 16 <= a || a + 16 <= bad[i]) by {
                    assert(bad[bad.len() - 1] == a);
                }
                u32_depends_on_its_bytes(d, b, bad[i], le);
                u32_depends_on_its_bytes(d, b, bad[i] + 8, le);
            }
        }
        assert forall|k: int| 0 <= k < data.len() && !in_requirements(k, bad) implies
            #[trigger] d[k] == data[k] by {
            assert(!in_requirement(k, bad[bad.len() - 1]));
            if in_requirements(k, rest) {
                let i = choose|i: int|
                    0 <= i < rest.len() && in_requirement(k, #[trigger] rest[i]);
                assert(in_requirement(k, bad[i]));
            }
            assert(b[k] == data[k]);
        }
    }
}

/// A string that is followed by a NUL is read up to it.
pub proof fn strings_end_at_nul(data: Seq<u8>, off: int, s: Seq<u8>)
    requires
        0 <= off,
        off + s.len() < data.len(),
        data[off + s.len()] == 0,
        forall|i: int| 0 <= i < s.len() ==> #[trigger] s[i] != 0 && data[off + i] == s[i],
    ensures
        has_string(data, off),
        string_at(data, off) == s,
{
    nul_follows(data, off, s, 0);
    assert(string_at(data, off) =~= s);
}

proof fn nul_follows(data: Seq<u8>, off: int, s: Seq<u8>, i: int)
    requires
        0 <= off,
        0 <= i <= s.len(),
        off + s.len() < data.len(),
        data[off + s.len()] == 0,
        forall|i: int| 0 <= i < s.len() ==> #[trigger] s[i] != 0 && data[off + i] == s[i],
    ensures
        nul_at(data, off + i) == off + s.len(),
    decreases s.len() - i,
{
    if i < s.len() {
        assert(s[i] != 0);
        nul_follows(data, off, s, i + 1);
    }
}

/// Every requirement that was outdated asks for the new version afterwards: by its
/// hash, and by its name, which stands behind the strings in their new place. The
/// strings are all there, the dynamic section tells of them, and nothing else in the
/// file has changed. This is so where the parts of the file that are changed do not
/// overlap one another.
#[verifier::spinoff_prover]
pub proof fn requirements_are_raised(
    data: Seq<u8>,
    layout: LayoutView,
    dynamic: Section,
    strtab: u64,
    strsz: u64,
    hash: u64,
    bad: Seq<int>,
    r: Seq<u8>,
    t: Tables,
)
    requires
        rewritten(data, layout, dynamic, strtab, strsz, hash, bad) matches Some(Ok(o)) && o == (
            r,
            bad.len(),
        ),
        outdated(data, layout.sections, layout.sections, layout.little_endian) == Some(bad),
        parts_are_apart(layout, dynamic, strtab, strsz, hash, bad),
    ensures
        r.len() == data.len(),
        forall|i: int|
            0 <= i < bad.len() ==> u32_at(r, #[trigger] bad[i], layout.little_endian) == hash_of(
                new_version(),
            ) && u32_at(r, bad[i] + 8, layout.little_endian) == strsz as u32,
        has_string(r, hash + strsz),
        string_at(r, hash + strsz) == new_version(),
        r.subrange(hash as int, hash + strsz) == data.subrange(strtab as int, strtab + strsz),
        tables_at(
            r,
            dynamic.offset as int,
            (dynamic.size / 16) as nat,
            layout.little_endian,
            t,
        ) == Some(
            (Tables {
                strtab: if has_tag(
                    data,
                    dynamic.offset as int,
                    (dynamic.size / 16) as nat,
                    layout.little_endian,
                    DT_STRTAB,
                ) {
                    Some(hash)
                } else {
                    t.strtab
                },
                strsz: if has_tag(
                    data,
                    dynamic.offset as int,
                    (dynamic.size / 16) as nat,
                    layout.little_endian,
                    DT_STRSZ,
                ) {
                    (strsz + NEW_VERSION_LEN) as u64
                } else {
                    t.strsz
                },
                hash: t.hash,
            }),
        ),
        forall|k: int|
            0 <= k < data.len() && !in_strings(k, hash, strsz) && !in_dynamic(k, dynamic)
                && !in_headers(k, layout, strtab, hash) && !in_requirements(k, bad)
                ==> #[trigger] r[k] == data[k],
{
    let le = layout.little_endian;
    let size = (strsz + NEW_VERSION_LEN) as u64;
    let doff = dynamic.offset as int;
    let n = (dynamic.size / 16) as nat;
    let d1 = moved(data, strtab as int, strsz as int, hash as int);
    let d2 = retagged(d1, doff, n, le, hash, size)->0;
    let d3 = relinked(d2, layout, 0, strtab, hash, size)->0;
    assert(r == renamed(d3, bad, le, strsz as u32));
    outdated_in_file(data, layout.sections, layout.sections, le);
    assert forall|i: int| 0 <= i < bad.len() implies in_file(data, #[trigger] bad[i], 16) by {
        assert(bad[i] == outdated(data, layout.sections, layout.sections, le)->0[i]);
    }
    retagging_keeps_the_rest(d1, doff, n, le, hash, size);
    relinking_keeps_the_rest(d2, layout, 0, strtab, hash, size);
    renaming_raises(d3, bad, le, strsz as u32);
    // What each step leaves alone.
    assert forall|k: int| 0 <= k < data.len() && !in_strings(k, hash, strsz) implies
        #[trigger] d1[k] == data[k] by {}
    assert forall|k: int| 0 <= k < data.len() && !in_headers(k, layout, strtab, hash) implies
        #[trigger] d3[k] == d2[k] by {
        assert forall|j: int| 0 <= j < layout.sections.len() implies !(#[trigger] in_header(
            k,
            layout,
            j,
            strtab,
            hash,
        )) by {}
    }
    // The strings.
    assert forall|k: int| in_strings(k, hash, strsz) && 0 <= k < data.len() implies
        #[trigger] r[k] == d1[k] by {
        assert(!in_requirements(k, bad));
        assert(!in_headers(k, layout, strtab, hash));
        assert(d3[k] == d2[k]);
        assert(d2[k] == d1[k]);
    }
    assert forall|i: int| 0 <= i < new_version().len() implies #[trigger] new_version()[i] != 0
        && r[hash + strsz + i] == new_version()[i] by {
        assert(d1[hash + strsz + i] == new_version().push(0)[i]);
        assert(in_strings(hash + strsz + i, hash, strsz));
    }
    assert(r[hash + strsz + new_version().len()] == 0) by {
        assert(d1[hash + strsz + 10] == new_version().push(0)[10]);
        assert(in_strings(hash + strsz + 10, hash, strsz));
    }
    strings_end_at_nul(r, hash + strsz, new_version());
    assert(r.subrange(hash as int, hash + strsz) =~= data.subrange(
        strtab as int,
        strtab + strsz,
    )) by {
        assert forall|i: int| 0 <= i < strsz implies #[trigger] r[hash + i] == data[strtab + i] by {
            assert(in_strings(hash + i, hash, strsz));
            assert(d1[hash + i] == data.subrange(strtab as int, strtab + strsz)[i]);
        }
    }
    // The dynamic section.
    assert forall|k: int| doff <= k < doff + 16 * n && k < data.len() implies
        #[trigger] r[k] == d2[k] by {
        assert(in_dynamic(k, dynamic));
        assert(!in_requirements(k, bad));
        assert(!in_headers(k, layout, strtab, hash));
        assert(d3[k] == d2[k]);
    }
    retagged_entries_tell(d1, doff, n, le, hash, size, t);
    tables_agree(r, d2, doff, n, le, t);
    assert forall|k: int| doff <= k < doff + 16 * n && k < data.len() implies
        #[trigger] d1[k] == data[k] by {
        assert(in_dynamic(k, dynamic));
        let _ = in_requirements(k, bad);
    }
    tags_agree(d1, data, doff, n, le, DT_STRTAB);
    tags_agree(d1, data, doff, n, le, DT_STRSZ);
    // The rest.
    assert forall|k: int|
        0 <= k < data.len() && !in_strings(k, hash, strsz) && !in_dynamic(k, dynamic)
            && !in_headers(k, layout, strtab, hash) && !in_requirements(k, bad) implies
        #[trigger] r[k] == data[k] by {
        assert(d3[k] == d2[k]);
        assert(d2[k] == d1[k]);
        assert(d1[k] == data[k]);
    }
}

/// How many requirements were raised is how many were outdated. A file without any
/// is left as it is, and no file changes its length.
pub proof fn raised_are_outdated(data: Seq<u8>, layout: LayoutView, r: Seq<u8>, count: nat)
    requires
        fixed(data, layout) matches Some(Ok(o)) && o == (r, count),
    ensures
        outdated(data, layout.sections, layout.sections, layout.little_endian) matches Some(bad)
            && bad.len() == count,
        count == 0 ==> r == data,
        r.len() == data.len(),
{
    let le = layout.little_endian;
    if count > 0 {
        let dynamic = dynamic_section(layout.sections)->0;
        let none = Tables { strtab: None, strsz: 0, hash: None };
        let n = (dynamic.size / 16) as nat;
        let t = tables_at(data, dynamic.offset as int, n, le, none)->0;
        let strtab = t.strtab->0;
        let hash = t.hash->0;
        let size = (t.strsz + NEW_VERSION_LEN) as u64;
        let bad = outdated(data, layout.sections, layout.sections, le)->0;
        let d1 = moved(data, strtab as int, t.strsz as int, hash as int);
        let d2 = retagged(d1, dynamic.offset as int, n, le, hash, size)->0;
        retagging_keeps_the_rest(d1, dynamic.offset as int, n, le, hash, size);
        relinking_keeps_the_rest(d2, layout, 0, strtab, hash, size);
        let d3 = relinked(d2, layout, 0, strtab, hash, size)->0;
        renaming_keeps_length(d3, bad, le, t.strsz as u32);
    }
}

proof fn renaming_keeps_length(data: Seq<u8>, bad: Seq<int>, le: bool, name: u32)
    ensures
        renamed(data, bad, le, name).len() == data.len(),
    decreases bad.len(),
{
    if bad.len() > 0 {
        renaming_keeps_length(data, bad.drop_last(), le, name);
    }
}

/// The version that requirements are raised to is not one of those that are raised.
pub proof fn new_version_is_current(name: Seq<char>)
    requires
        name.len() == new_version().len(),
        forall|i: int| 0 <= i < name.len() ==> #[trigger] name[i] as int == new_version()[i],
    ensures
        !elfv1_only(name),
{
    if elfv1_only(name) {
        let rest = name.skip(6);
        let minor = rest.skip(2);
        assert(rest.len() == 4);
        assert(name[6] as int == 50 && name[7] as int == 46 && name[8] as int == 49 && name[9] as int
            == 55);
        assert(rest[0] == '2' && rest[1] == '.' && rest[2] == '1' && rest[3] == '7');
        reveal_with_fuel(dot_at, 5);
        reveal_with_fuel(parts, 3);
        assert(dot_at(rest, 0) == 1);
        assert(minor.len() == 2 && minor[0] == '1' && minor[1] == '7');
        assert(dot_at(minor, 0) == 2);
        reveal_with_fuel(value, 3);
        let two = rest.take(1);
        assert(two[0] == '2' && two.len() == 1);
        assert(value(two.drop_last()) == 0);
        assert(value(two) == 2);
        assert(part_number(two) == Some(2nat));
        let seventeen = minor.take(2);
        assert(seventeen =~= minor);
        assert(seventeen.drop_last().len() == 1 && seventeen.drop_last()[0] == '1');
        assert(value(seventeen.drop_last().drop_last()) == 0);
        assert(value(seventeen.drop_last()) == 1);
        assert(value(seventeen) == 17);
        assert(part_number(seventeen) == Some(17nat));
        assert(parts(minor, 2) == Some(seq![17nat]));
        assert(rest.skip(2) == minor);
        assert(parts(rest, 3)->0 =~= seq![2nat, 17nat]);
    }
}

/// Header `i` tells of the moved strings where it is theirs, and is void where it is
/// the hash table's.
pub open spec fn header_tells(
    r: Seq<u8>,
    layout: LayoutView,
    i: int,
    strtab: u64,
    hash: u64,
    size: u64,
) -> bool {
    let s = layout.sections[i];
    let off = header_at(layout, i);
    let le = layout.little_endian;
    if is_strings(s, strtab) {
        &&& u64_at(r, off + 0x10, le) == hash + (s.addr - s.offset)
        &&& u64_at(r, off + 0x18, le) == hash
        &&& u64_at(r, off + 0x20, le) == size
    } else {
        is_hash(s, hash) ==> u32_at(r, off + 4, le) == SHT_NULL
    }
}

/// What header `i` tells depends on the part of it that is changed only.
proof fn headers_agree(
    b: Seq<u8>,
    c: Seq<u8>,
    layout: LayoutView,
    i: int,
    strtab: u64,
    hash: u64,
    size: u64,
)
    requires
        forall|k: int| in_header(k, layout, i, strtab, hash) ==> #[trigger] b[k] == c[k],
        header_tells(c, layout, i, strtab, hash, size),
    ensures
        header_tells(b, layout, i, strtab, hash, size),
{
    let s = layout.sections[i];
    let off = header_at(layout, i);
    let le = layout.little_endian;
    if is_strings(s, strtab) {
        u64_depends_on_its_bytes(b, c, off + 0x10, le);
        u64_depends_on_its_bytes(b, c, off + 0x18, le);
        u64_depends_on_its_bytes(b, c, off + 0x20, le);
    } else if is_hash(s, hash) {
        u32_depends_on_its_bytes(b, c, off + 4, le);
    }
}

proof fn header_is_told(
    data: Seq<u8>,
    layout: LayoutView,
    i: nat,
    strtab: u64,
    hash: u64,
    size: u64,
)
    requires
        i < layout.sections.len(),
        relinked(data, layout, i, strtab, hash, size) is Some,
    ensures
        header_tells(
            one_relinked(data, layout, i, strtab, hash, size),
            layout,
            i as int,
            strtab,
            hash,
            size,
        ),
        forall|k: int|
            in_header(k, layout, i as int, strtab, hash) ==> 0 <= k < data.len(),
{
    let s = layout.sections[i as int];
    let off = header_at(layout, i as int);
    let le = layout.little_endian;
    if is_strings(s, strtab) {
        let addr = (hash + (s.addr - s.offset)) as u64;
        let a = put(data, off + 0x10, u64_bytes(addr, le));
        let b = put(a, off + 0x18, u64_bytes(hash, le));
        let c = put(b, off + 0x20, u64_bytes(size, le));
        u64_round_trip(data, off + 0x10, addr, le);
        u64_round_trip(a, off + 0x18, hash, le);
        u64_round_trip(b, off + 0x20, size, le);
        u64_depends_on_its_bytes(c, a, off + 0x10, le);
        u64_depends_on_its_bytes(c, b, off + 0x18, le);
    } else if is_hash(s, hash) {
        u32_round_trip(data, off + 4, SHT_NULL, le);
    }
}

/// Two headers do not share a byte that is changed.
proof fn headers_stand_apart(
    layout: LayoutView,
    i: int,
    j: int,
    strtab: u64,
    hash: u64,
    k: int,
)
    requires
        layout.shentsize >= 0x28,
        i < j,
        in_header(k, layout, i, strtab, hash),
    ensures
        !in_header(k, layout, j, strtab, hash),
{
    let e = layout.shentsize as int;
    assert(j * e >= i * e + e) by (nonlinear_arith)
        requires
            i < j,
            e >= 0,
    ;
}

proof fn relinking_tells(
    data: Seq<u8>,
    layout: LayoutView,
    i: nat,
    strtab: u64,
    hash: u64,
    size: u64,
    j: int,
)
    requires
        layout.shentsize >= 0x28,
        relinked(data, layout, i, strtab, hash, size) is Some,
        i <= j < layout.sections.len(),
    ensures
        header_tells(
            relinked(data, layout, i, strtab, hash, size)->0,
            layout,
            j,
            strtab,
            hash,
            size,
        ),
        forall|k: int| in_header(k, layout, j, strtab, hash) ==> 0 <= k < data.len(),
    decreases layout.sections.len() - i,
{
    let e = one_relinked(data, layout, i, strtab, hash, size);
    let d = relinked(data, layout, i, strtab, hash, size)->0;
    if j == i {
        header_is_told(data, layout, i, strtab, hash, size);
        relinking_keeps_the_rest(e, layout, i + 1, strtab, hash, size);
        assert forall|k: int| in_header(k, layout, j, strtab, hash) implies #[trigger] d[k]
            == e[k] by {
            assert forall|m: int| i + 1 <= m < layout.sections.len() implies !(
            #[trigger] in_header(k, layout, m, strtab, hash)) by {
                headers_stand_apart(layout, j, m, strtab, hash, k);
            }
        }
        headers_agree(d, e, layout, j, strtab, hash, size);
    } else {
        relinking_tells(e, layout, i + 1, strtab, hash, size, j);
    }
}

/// The section headers tell of the moved strings, and that of the hash table is void
/// afterwards, where the parts of the file that are changed do not overlap and
/// headers stand as far apart as they are long.
pub proof fn headers_follow_the_strings(
    data: Seq<u8>,
    layout: LayoutView,
    dynamic: Section,
    strtab: u64,
    strsz: u64,
    hash: u64,
    bad: Seq<int>,
    r: Seq<u8>,
    i: int,
)
    requires
        rewritten(data, layout, dynamic, strtab, strsz, hash, bad) matches Some(Ok(o)) && o == (
            r,
            bad.len(),
        ),
        outdated(data, layout.sections, layout.sections, layout.little_endian) == Some(bad),
        parts_are_apart(layout, dynamic, strtab, strsz, hash, bad),
        layout.shentsize >= 0x28,
        0 <= i < layout.sections.len(),
    ensures
        header_tells(r, layout, i, strtab, hash, (strsz + NEW_VERSION_LEN) as u64),
{
    let le = layout.little_endian;
    let size = (strsz + NEW_VERSION_LEN) as u64;
    let doff = dynamic.offset as int;
    let n = (dynamic.size / 16) as nat;
    let d1 = moved(data, strtab as int, strsz as int, hash as int);
    let d2 = retagged(d1, doff, n, le, hash, size)->0;
    let d3 = relinked(d2, layout, 0, strtab, hash, size)->0;
    retagging_keeps_the_rest(d1, doff, n, le, hash, size);
    relinking_keeps_the_rest(d2, layout, 0, strtab, hash, size);
    outdated_in_file(data, layout.sections, layout.sections, le);
    assert forall|j: int| 0 <= j < bad.len() implies in_file(d3, #[trigger] bad[j], 16) by {
        assert(bad[j] == outdated(data, layout.sections, layout.sections, le)->0[j]);
    }
    renaming_raises(d3, bad, le, strsz as u32);
    relinking_tells(d2, layout, 0, strtab, hash, size, i);
    assert forall|k: int| in_header(k, layout, i, strtab, hash) implies #[trigger] r[k] == d3[k] by {
        assert(in_headers(k, layout, strtab, hash));
        assert(!in_requirements(k, bad));
    }
    headers_agree(r, d3, layout, i, strtab, hash, size);
}

}
