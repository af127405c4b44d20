//! What holds of a file whose version requirements are raised a second time.

use vstd::prelude::*;
use crate::bytes::{
    u16_at, u16_depends_on_its_bytes, u32_at, u32_depends_on_its_bytes, u64_at,
};
use crate::elf::{
    in_file, LayoutView, Reason, Section, DT_STRTAB, SHT_GNU_VERNEED, SHT_NULL,
};
use crate::fix_laws::{
    has_tag, in_dynamic, in_headers, in_requirements, in_strings, new_version_is_current,
    parts_are_apart, requirements_are_raised, strings_end_at_nul, tag_is_first_or_later,
};
use crate::fix_versions::{
    dynamic_section, fixed, is_hash, is_strings, new_version, noted, outdated, outdated_aux,
    outdated_needs, rewritten, tables_at, Tables, NEW_VERSION_LEN,
};
use crate::text::{ascii_is_utf8, text_of};
use crate::versions::{elfv1_only, has_string, nul_at, string_at};

verus! {

broadcast use {
    crate::bytes::u16_has_two_bytes,
    crate::bytes::u32_has_four_bytes,
    crate::bytes::u64_has_eight_bytes,
};

/// The parts of a file that matter when its requirements are raised.
pub struct Parts {
    pub layout: LayoutView,
    pub dynamic: Section,
    pub strtab: u64,
    pub strsz: u64,
    pub hash: u64,
    pub bad: Seq<int>,
}

impl Parts {
    /// Byte `k` is in no part of the file that is changed.
    pub open spec fn keeps(self, k: int) -> bool {
        &&& !in_strings(k, self.hash, self.strsz)
        &&& !in_dynamic(k, self.dynamic)
        &&& !in_headers(k, self.layout, self.strtab, self.hash)
        &&& !in_requirements(k, self.bad)
    }

    /// The bytes from `from` up to `to` are in no part of the file that is changed.
    pub open spec fn keeps_all(self, from: int, to: int) -> bool {
        forall|k: int| from <= k < to ==> #[trigger] self.keeps(k)
    }

    /// The string at `name` in the table ends in the table.
    pub open spec fn holds_string(self, data: Seq<u8>, name: u32) -> bool {
        nul_at(data, self.strtab + name) < self.strtab + self.strsz
    }

    /// The requirements from `a` on are changed only as requirements, and have their
    /// names in the table of strings.
    pub open spec fn aux_are_sound(self, data: Seq<u8>, a: int, n: nat) -> bool
        decreases n,
    {
        let le = self.layout.little_endian;
        let next = u32_at(data, a + 12, le);
        n > 0 ==> {
            &&& self.keeps_all(a + 12, a + 16)
            &&& self.bad.contains(a) || self.keeps_all(a + 8, a + 12)
            &&& self.holds_string(data, u32_at(data, a + 8, le))
            &&& next != 0 ==> self.aux_are_sound(data, a + next, (n - 1) as nat)
        }
    }

    /// What is required of the libraries from `p` on is changed only as requirements.
    pub open spec fn needs_are_sound(self, data: Seq<u8>, p: int) -> bool
        decreases if p < data.len() { data.len() - p } else { 0 },
    {
        let le = self.layout.little_endian;
        let next = u32_at(data, p + 12, le);
        in_file(data, p, 16) ==> {
            &&& self.keeps_all(p + 2, p + 4)
            &&& self.keeps_all(p + 8, p + 16)
            &&& self.aux_are_sound(data, p + u32_at(data, p + 8, le), u16_at(data, p + 2, le) as nat)
            &&& next != 0 ==> self.needs_are_sound(data, p + next)
        }
    }

    /// Every section of requirements has its names in the table of strings, and is
    /// changed only where a requirement is.
    pub open spec fn sections_are_sound(self, data: Seq<u8>, sections: Seq<Section>) -> bool {
        forall|i: int|
            0 <= i < sections.len() && (#[trigger] sections[i]).sh_type == SHT_GNU_VERNEED ==> {
                &&& sections[i].link < self.layout.sections.len()
                &&& is_strings(self.layout.sections[sections[i].link as int], self.strtab)
                &&& self.needs_are_sound(data, sections[i].offset as int)
            }
    }

    /// What the header of a section says afterwards.
    pub open spec fn section_after(self, s: Section) -> Section {
        if is_strings(s, self.strtab) {
            Section {
                addr: (self.hash + (s.addr - s.offset)) as u64,
                offset: self.hash,
                size: (self.strsz + NEW_VERSION_LEN) as u64,
                ..s
            }
        } else if is_hash(s, self.hash) {
            Section { sh_type: SHT_NULL, ..s }
        } else {
            s
        }
    }

    /// What the headers of these sections say afterwards.
    pub open spec fn sections_after(self, sections: Seq<Section>) -> Seq<Section> {
        sections.map_values(|s: Section| self.section_after(s))
    }

    /// What the headers of the file say afterwards.
    pub open spec fn layout_after(self) -> LayoutView {
        LayoutView { sections: self.sections_after(self.layout.sections), ..self.layout }
    }

    /// What is known of the file `r` that came of `data`.
    spec fn relates(self, data: Seq<u8>, r: Seq<u8>) -> bool {
        let le = self.layout.little_endian;
        &&& r.len() == data.len()
        &&& self.strtab + self.strsz <= data.len()
        &&& self.hash + self.strsz < data.len()
        &&& self.strsz <= u32::MAX
        &&& forall|i: int|
            0 <= i < self.bad.len() ==> u32_at(r, #[trigger] self.bad[i] + 8, le) == self.strsz
        &&& has_string(r, self.hash + self.strsz)
        &&& string_at(r, self.hash + self.strsz) == new_version()
        &&& forall|i: int|
            0 <= i < self.strsz ==> #[trigger] r[self.hash + i] == data[self.strtab + i]
        &&& forall|k: int| 0 <= k < data.len() && self.keeps(k) ==> #[trigger] r[k] == data[k]
        &&& !elfv1_only(text_of(new_version()))
    }
}

/// The bytes of a string are not NUL.
proof fn no_nul_before_the_end(data: Seq<u8>, i: int)
    requires
        0 <= i,
    ensures
        i <= nul_at(data, i),
        i < data.len() ==> nul_at(data, i) <= data.len(),
        forall|k: int| i <= k < nul_at(data, i) ==> #[trigger] data[k] != 0,
        nul_at(data, i) < data.len() ==> data[nul_at(data, i)] == 0,
    decreases data.len() - i,
{
    if i < data.len() && data[i] != 0 {
        no_nul_before_the_end(data, i + 1);
    }
}

/// A string that ends in the table is found in the table's new place.
proof fn strings_are_moved(p: Parts, data: Seq<u8>, r: Seq<u8>, name: u32)
    requires
        p.relates(data, r),
        p.holds_string(data, name),
    ensures
        has_string(r, p.hash + name),
        string_at(r, p.hash + name) == string_at(data, p.strtab + name),
{
    let off = p.strtab + name;
    let s = string_at(data, off);
    no_nul_before_the_end(data, off);
    let len = nul_at(data, off) - off;
    assert forall|i: int| 0 <= i < s.len() implies #[trigger] s[i] != 0 && r[p.hash + name + i]
        == s[i] by {
        assert(data[off + i] != 0);
        assert(r[p.hash + (name + i)] == data[p.strtab + (name + i)]);
    }
    assert(r[p.hash + (name + len)] == data[p.strtab + (name + len)]);
    strings_end_at_nul(r, p.hash + name, s);
}

proof fn aux_are_current(p: Parts, data: Seq<u8>, r: Seq<u8>, a: int, n: nat)
    requires
        p.relates(data, r),
        p.aux_are_sound(data, a, n),
        outdated_aux(data, a, n, p.strtab as int, p.layout.little_endian) matches Some(here)
            && forall|i: int| 0 <= i < here.len() ==> p.bad.contains(#[trigger] here[i]),
    ensures
        outdated_aux(r, a, n, p.hash as int, p.layout.little_endian) == Some(Seq::<int>::empty()),
    decreases n,
{
    let le = p.layout.little_endian;
    let names = p.strtab as int;
    if n > 0 {
        let here = outdated_aux(data, a, n, names, le)->0;
        let name = u32_at(data, a + 8, le);
        let next = u32_at(data, a + 12, le);
        assert forall|k: int| a + 12 <= k < a + 16 implies #[trigger] r[k] == data[k] by {
            assert(p.keeps(k));
        }
        u32_depends_on_its_bytes(r, data, a + 12, le);
        let old = elfv1_only(text_of(string_at(data, names + name)));
        if p.bad.contains(a) {
            let i = choose|i: int| 0 <= i < p.bad.len() && p.bad[i] == a;
            assert(u32_at(r, p.bad[i] + 8, le) == p.strsz);
        } else {
            assert forall|k: int| a + 8 <= k < a + 12 implies #[trigger] r[k] == data[k] by {
                assert(p.keeps(k));
            }
            u32_depends_on_its_bytes(r, data, a + 8, le);
            strings_are_moved(p, data, r, name);
            if old {
                assert(here[0] == a);
            }
        }
        let head = if old { seq![a] } else { Seq::<int>::empty() };
        if next != 0 {
            let rest = outdated_aux(data, a + next, (n - 1) as nat, names, le)->0;
            assert(here == head + rest);
            assert forall|i: int| 0 <= i < rest.len() implies p.bad.contains(
                #[trigger] rest[i],
            ) by {
                assert(here[head.len() + i] == rest[i]);
            }
            aux_are_current(p, data, r, a + next, (n - 1) as nat);
            assert(Seq::<int>::empty() + Seq::<int>::empty() =~= Seq::<int>::empty());
        }
    }
}

proof fn needs_are_current(p: Parts, data: Seq<u8>, r: Seq<u8>, at: int)
    requires
        p.relates(data, r),
        p.needs_are_sound(data, at),
        outdated_needs(data, at, p.strtab as int, p.layout.little_endian) matches Some(here)
            && forall|i: int| 0 <= i < here.len() ==> p.bad.contains(#[trigger] here[i]),
    ensures
        outdated_needs(r, at, p.hash as int, p.layout.little_endian) == Some(Seq::<int>::empty()),
    decreases if at < data.len() { data.len() - at } else { 0 },
{
    let le = p.layout.little_endian;
    let names = p.strtab as int;
    let all = outdated_needs(data, at, names, le)->0;
    let count = u16_at(data, at + 2, le) as nat;
    let aux = u32_at(data, at + 8, le);
    let next = u32_at(data, at + 12, le);
    assert forall|k: int| at + 2 <= k < at + 4 || at + 8 <= k < at + 16 implies #[trigger] r[k]
        == data[k] by {
        assert(p.keeps(k));
    }
    u16_depends_on_its_bytes(r, data, at + 2, le);
    u32_depends_on_its_bytes(r, data, at + 8, le);
    u32_depends_on_its_bytes(r, data, at + 12, le);
    let here = outdated_aux(data, at + aux, count, names, le)->0;
    assert forall|i: int| 0 <= i < here.len() implies p.bad.contains(#[trigger] here[i]) by {
        assert(all[i] == here[i]);
    }
    aux_are_current(p, data, r, at + aux, count);
    if next != 0 {
        let rest = outdated_needs(data, at + next, names, le)->0;
        assert forall|i: int| 0 <= i < rest.len() implies p.bad.contains(#[trigger] rest[i]) by {
            assert(all[here.len() + i] == rest[i]);
        }
        needs_are_current(p, data, r, at + next);
        assert(Seq::<int>::empty() + Seq::<int>::empty() =~= Seq::<int>::empty());
    }
}

proof fn sections_are_current(p: Parts, data: Seq<u8>, r: Seq<u8>, sections: Seq<Section>)
    requires
        p.relates(data, r),
        p.sections_are_sound(data, sections),
        outdated(
            data,
            sections,
            p.layout.sections,
            p.layout.little_endian,
        ) matches Some(here) && forall|i: int|
            0 <= i < here.len() ==> p.bad.contains(#[trigger] here[i]),
    ensures
        outdated(
            r,
            p.sections_after(sections),
            p.layout_after().sections,
            p.layout.little_endian,
        ) == Some(Seq::<int>::empty()),
    decreases sections.len(),
{
    let le = p.layout.little_endian;
    let all = p.layout.sections;
    if sections.len() > 0 {
        let s = sections[0];
        let rest = sections.drop_first();
        let whole = outdated(data, sections, all, le)->0;
        let later = outdated(data, rest, all, le)->0;
        let here = if s.sh_type != SHT_GNU_VERNEED {
            Seq::<int>::empty()
        } else {
            outdated_needs(data, s.offset as int, all[s.link as int].offset as int, le)->0
        };
        assert(whole == here + later);
        assert forall|i: int| 0 <= i < later.len() implies p.bad.contains(#[trigger] later[i]) by {
            assert(whole[here.len() + i] == later[i]);
        }
        assert(p.sections_are_sound(data, rest)) by {
            assert forall|i: int|
                0 <= i < rest.len() && (#[trigger] rest[i]).sh_type == SHT_GNU_VERNEED implies {
                &&& rest[i].link < p.layout.sections.len()
                &&& is_strings(p.layout.sections[rest[i].link as int], p.strtab)
                &&& p.needs_are_sound(data, rest[i].offset as int)
            } by {
                assert(rest[i] == sections[i + 1]);
            }
        }
        sections_are_current(p, data, r, rest);
        assert(p.sections_after(sections).drop_first() =~= p.sections_after(rest));
        assert(p.sections_after(sections)[0] == p.section_after(s));
        if s.sh_type == SHT_GNU_VERNEED {
            assert forall|i: int| 0 <= i < here.len() implies p.bad.contains(
                #[trigger] here[i],
            ) by {
                assert(whole[i] == here[i]);
            }
            needs_are_current(p, data, r, s.offset as int);
            assert(p.layout_after().sections[s.link as int] == p.section_after(
                all[s.link as int],
            ));
        }
        assert(Seq::<int>::empty() + Seq::<int>::empty() =~= Seq::<int>::empty());
    }
}

/// The first dynamic section stays the first.
proof fn dynamic_section_stays(p: Parts, sections: Seq<Section>)
    ensures
        dynamic_section(p.sections_after(sections)) == dynamic_section(sections),
    decreases sections.len(),
{
    if sections.len() > 0 {
        assert(p.sections_after(sections).drop_first() =~= p.sections_after(
            sections.drop_first(),
        ));
        assert(p.sections_after(sections)[0] == p.section_after(sections[0]));
        dynamic_section_stays(p, sections.drop_first());
    }
}

/// A table that entries tell of has its tag among them.
proof fn tables_have_tags(data: Seq<u8>, off: int, n: nat, le: bool, t: Tables)
    requires
        tables_at(data, off, n, le, t) matches Some(told) && told.strtab is Some,
        t.strtab is None,
    ensures
        has_tag(data, off, n, le, DT_STRTAB),
    decreases n,
{
    if n > 0 {
        let tag = u64_at(data, off, le);
        tag_is_first_or_later(data, off, n, le, DT_STRTAB);
        if tag != DT_STRTAB {
            let told = noted(t, tag, u64_at(data, off + 8, le));
            tables_have_tags(data, off + 16, (n - 1) as nat, le, told);
        }
    }
}

/// The name of the new version is current.
proof fn new_name_is_current()
    ensures
        !elfv1_only(text_of(new_version())),
{
    assert forall|i: int| 0 <= i < new_version().len() implies #[trigger] new_version()[i]
        < 0x80 by {}
    ascii_is_utf8(new_version());
    new_version_is_current(text_of(new_version()));
}

/// What came of the file is known well enough to read it again.
proof fn raised_file_relates(data: Seq<u8>, p: Parts, r: Seq<u8>, none: Tables)
    requires
        rewritten(
            data,
            p.layout,
            p.dynamic,
            p.strtab,
            p.strsz,
            p.hash,
            p.bad,
        ) matches Some(Ok(o)) && o == (r, p.bad.len()),
        outdated(data, p.layout.sections, p.layout.sections, p.layout.little_endian) == Some(p.bad),
        parts_are_apart(p.layout, p.dynamic, p.strtab, p.strsz, p.hash, p.bad),
        p.strsz <= u32::MAX,
    ensures
        p.relates(data, r),
{
    new_name_is_current();
    requirements_are_raised(
        data,
        p.layout,
        p.dynamic,
        p.strtab,
        p.strsz,
        p.hash,
        p.bad,
        r,
        none,
    );
    assert forall|i: int| 0 <= i < p.strsz implies #[trigger] r[p.hash + i] == data[p.strtab
        + i] by {
        assert(r.subrange(p.hash as int, p.hash + p.strsz)[i] == data.subrange(
            p.strtab as int,
            p.strtab + p.strsz,
        )[i]);
    }
}

/// A file whose requirements were raised has none left that is outdated: raising them
/// again changes nothing. This is so where the parts of the file that are changed do
/// not overlap one another nor the rest of the requirements, where every requirement
/// has its name in the table of strings, and where the headers are read as they were
/// written.
pub proof fn nothing_outdated_is_left(data: Seq<u8>, p: Parts, r: Seq<u8>)
    requires
        p.layout.is_64,
        dynamic_section(p.layout.sections) == Some(p.dynamic),
        tables_at(
            data,
            p.dynamic.offset as int,
            (p.dynamic.size / 16) as nat,
            p.layout.little_endian,
            Tables { strtab: None, strsz: 0, hash: None },
        ) == Some((Tables { strtab: Some(p.strtab), strsz: p.strsz, hash: Some(p.hash) })),
        outdated(data, p.layout.sections, p.layout.sections, p.layout.little_endian) == Some(p.bad),
        rewritten(
            data,
            p.layout,
            p.dynamic,
            p.strtab,
            p.strsz,
            p.hash,
            p.bad,
        ) matches Some(Ok(o)) && o == (r, p.bad.len()),
        parts_are_apart(p.layout, p.dynamic, p.strtab, p.strsz, p.hash, p.bad),
        p.sections_are_sound(data, p.layout.sections),
        p.strsz <= u32::MAX,
    ensures
        ({
            let after = p.layout_after();
            &&& outdated(r, after.sections, after.sections, after.little_endian) == Some(
                Seq::<int>::empty(),
            )
            &&& fixed(r, after) == Some(Ok::<(Seq<u8>, nat), Reason>((r, 0nat)))
        }),
{
    let off = p.dynamic.offset as int;
    let n = (p.dynamic.size / 16) as nat;
    let none = Tables { strtab: None, strsz: 0, hash: None };
    raised_file_relates(data, p, r, none);
    assert forall|i: int| 0 <= i < p.bad.len() implies p.bad.contains(#[trigger] p.bad[i]) by {}
    sections_are_current(p, data, r, p.layout.sections);
    dynamic_section_stays(p, p.layout.sections);
    tables_have_tags(data, off, n, p.layout.little_endian, none);
    requirements_are_raised(
        data,
        p.layout,
        p.dynamic,
        p.strtab,
        p.strsz,
        p.hash,
        p.bad,
        r,
        none,
    );
}

}
