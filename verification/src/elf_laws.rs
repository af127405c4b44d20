//! Which version requirements of a file are raised, which files are handled, and what is
//! stripped.

use vstd::prelude::*;
use crate::bytes::{
    put, u16_at, u32_at, u64_at, u64_bytes, u64_depends_on_its_bytes, u64_has_eight_bytes,
    u64_round_trip,
};
use crate::elf::{elf_layout, in_file, LayoutView, Reason, Section};
use crate::fix_versions::{
    dynamic_section, fix_outcome, fixed, is_between, is_hash, is_strings, noted, outdated,
    outdated_aux, outdated_needs, refusal, relinked, retagged, tables_at, Tables,
};
use crate::text::text_of;
use crate::unversion::{
    entry_count, index_count, is_version_tag, section_stripped, sections_stripped, strip_outcome,
    stripped, tag_count, unindexed, untagged,
};
use crate::versions::{elfv1_only, has_string, string_at};

verus! {

/// Where requirement `i` of a library stands, the first one standing at `a`: each tells how
/// far the next one is.
pub open spec fn aux_at(data: Seq<u8>, a: int, i: nat, le: bool) -> int
    decreases i,
{
    if i == 0 {
        a
    } else {
        let last = aux_at(data, a, (i - 1) as nat, le);
        last + u32_at(data, last + 12, le)
    }
}

/// There is a requirement `i` among at most `n`: each of those before it tells of a next one.
pub open spec fn is_listed(data: Seq<u8>, a: int, i: nat, n: nat, le: bool) -> bool {
    i < n && forall|j: nat| j < i ==> u32_at(data, #[trigger] aux_at(data, a, j, le) + 12, le) != 0
}

/// The requirement at `x` asks for a version that only the first ABI has.
pub open spec fn is_outdated(data: Seq<u8>, x: int, names: int, le: bool) -> bool {
    elfv1_only(text_of(string_at(data, names + u32_at(data, x + 8, le))))
}

/// The requirement at `x` can be read with its name.
pub open spec fn is_readable(data: Seq<u8>, x: int, names: int, le: bool) -> bool {
    0 <= x && x + 16 <= data.len() && has_string(data, names + u32_at(data, x + 8, le))
}

/// Requirement `i` counted from the second one is requirement `i + 1`.
proof fn aux_follow(data: Seq<u8>, a: int, i: nat, le: bool)
    ensures
        aux_at(data, a + u32_at(data, a + 12, le), i, le) == aux_at(data, a, i + 1, le),
    decreases i,
{
    reveal_with_fuel(aux_at, 2);
    if i > 0 {
        aux_follow(data, a, (i - 1) as nat, le);
    }
}

/// What is listed from the second requirement on is listed from the first one on.
proof fn listed_follow(data: Seq<u8>, a: int, i: nat, n: nat, le: bool)
    requires
        n > 0,
        u32_at(data, a + 12, le) != 0,
    ensures
        is_listed(data, a + u32_at(data, a + 12, le), i, (n - 1) as nat, le) <==> is_listed(
            data,
            a,
            i + 1,
            n,
            le,
        ),
{
    let next = a + u32_at(data, a + 12, le);
    if is_listed(data, next, i, (n - 1) as nat, le) {
        assert forall|j: nat| j < i + 1 implies u32_at(
            data,
            #[trigger] aux_at(data, a, j, le) + 12,
            le,
        ) != 0 by {
            if j > 0 {
                aux_follow(data, a, (j - 1) as nat, le);
                assert(u32_at(data, aux_at(data, next, (j - 1) as nat, le) + 12, le) != 0);
            }
        }
    }
    if is_listed(data, a, i + 1, n, le) {
        assert forall|j: nat| j < i implies u32_at(
            data,
            #[trigger] aux_at(data, next, j, le) + 12,
            le,
        ) != 0 by {
            aux_follow(data, a, j, le);
            assert(u32_at(data, aux_at(data, a, j + 1, le) + 12, le) != 0);
        }
    }
}

/// All requirements of a library that can be listed can be read.
pub open spec fn all_readable(data: Seq<u8>, a: int, n: nat, names: int, le: bool) -> bool {
    forall|i: nat| #[trigger]
        is_listed(data, a, i, n, le) ==> is_readable(data, aux_at(data, a, i, le), names, le)
}

/// `x` is one of the requirements of a library that are outdated.
pub open spec fn is_among(data: Seq<u8>, a: int, n: nat, names: int, le: bool, x: int) -> bool {
    exists|i: nat| #[trigger]
        is_listed(data, a, i, n, le) && x == aux_at(data, a, i, le) && is_outdated(
            data,
            x,
            names,
            le,
        )
}

/// Of the requirements of one library, exactly those that are outdated are found, each once
/// and in their order, as long as every one of them can be read.
pub proof fn outdated_requirements_are_found(
    data: Seq<u8>,
    a: int,
    n: nat,
    names: int,
    le: bool,
)
    ensures
        outdated_aux(data, a, n, names, le) is Some <==> all_readable(data, a, n, names, le),
        outdated_aux(data, a, n, names, le) matches Some(bad) ==> {
            &&& forall|x: int| #[trigger]
                bad.contains(x) <==> is_among(data, a, n, names, le, x)
            &&& forall|i: int, j: int|
                0 <= i < j < bad.len() ==> #[trigger] bad[i] < #[trigger] bad[j]
            &&& forall|i: int| 0 <= i < bad.len() ==> a <= #[trigger] bad[i]
        },
    decreases n,
{
    if n == 0 {
        assert(forall|i: nat| !is_listed(data, a, i, 0, le));
    } else {
        assert(is_listed(data, a, 0, n, le));
        assert(aux_at(data, a, 0, le) == a);
        let next = u32_at(data, a + 12, le);
        let rest = outdated_aux(data, a + next, (n - 1) as nat, names, le);
        if next == 0 {
            assert forall|i: nat| is_listed(data, a, i, n, le) implies i == 0 by {
                if i > 0 {
                    assert(u32_at(data, aux_at(data, a, 0, le) + 12, le) != 0);
                }
            }
            one_is_found(data, a, n, names, le);
        } else {
            outdated_requirements_are_found(data, a + next, (n - 1) as nat, names, le);
            readable_follow(data, a, n, names, le);
            if outdated_aux(data, a, n, names, le) is Some {
                among_follow(data, a, n, names, le);
            }
        }
    }
}

/// A library with one requirement.
proof fn one_is_found(data: Seq<u8>, a: int, n: nat, names: int, le: bool)
    requires
        n > 0,
        u32_at(data, a + 12, le) == 0,
        forall|i: nat| is_listed(data, a, i, n, le) ==> i == 0,
        is_listed(data, a, 0, n, le),
    ensures
        outdated_aux(data, a, n, names, le) is Some <==> all_readable(data, a, n, names, le),
        outdated_aux(data, a, n, names, le) matches Some(bad) ==> {
            &&& bad.len() <= 1
            &&& forall|x: int| #[trigger]
                bad.contains(x) <==> is_among(data, a, n, names, le, x)
            &&& forall|i: int| 0 <= i < bad.len() ==> a <= #[trigger] bad[i]
        },
{
    assert(aux_at(data, a, 0, le) == a);
    if outdated_aux(data, a, n, names, le) is Some {
        let bad = outdated_aux(data, a, n, names, le)->0;
        assert forall|x: int| #[trigger] bad.contains(x) <==> is_among(
            data,
            a,
            n,
            names,
            le,
            x,
        ) by {
            if is_outdated(data, a, names, le) {
                assert(bad[0] == a);
            }
        }
    }
}

/// All requirements can be read where the first one can, and all from the second one on.
proof fn readable_follow(data: Seq<u8>, a: int, n: nat, names: int, le: bool)
    requires
        n > 0,
        u32_at(data, a + 12, le) != 0,
    ensures
        all_readable(data, a, n, names, le) <==> is_readable(data, a, names, le) && all_readable(
            data,
            a + u32_at(data, a + 12, le),
            (n - 1) as nat,
            names,
            le,
        ),
{
    let next = a + u32_at(data, a + 12, le);
    let m = (n - 1) as nat;
    assert(is_listed(data, a, 0, n, le));
    assert(aux_at(data, a, 0, le) == a);
    if all_readable(data, a, n, names, le) {
        assert forall|i: nat| #[trigger] is_listed(data, next, i, m, le) implies is_readable(
            data,
            aux_at(data, next, i, le),
            names,
            le,
        ) by {
            listed_follow(data, a, i, n, le);
            aux_follow(data, a, i, le);
        }
    }
    if is_readable(data, a, names, le) && all_readable(data, next, m, names, le) {
        assert forall|i: nat| #[trigger] is_listed(data, a, i, n, le) implies is_readable(
            data,
            aux_at(data, a, i, le),
            names,
            le,
        ) by {
            if i > 0 {
                listed_follow(data, a, (i - 1) as nat, n, le);
                aux_follow(data, a, (i - 1) as nat, le);
            }
        }
    }
}

/// The outdated ones are the first one, where it is, and those from the second one on.
#[verifier::spinoff_prover]
proof fn among_follow(data: Seq<u8>, a: int, n: nat, names: int, le: bool)
    requires
        n > 0,
        u32_at(data, a + 12, le) != 0,
        outdated_aux(data, a, n, names, le) is Some,
        outdated_aux(
            data,
            a + u32_at(data, a + 12, le),
            (n - 1) as nat,
            names,
            le,
        ) matches Some(rest) && {
            &&& forall|x: int| #[trigger]
                rest.contains(x) <==> is_among(
                    data,
                    a + u32_at(data, a + 12, le),
                    (n - 1) as nat,
                    names,
                    le,
                    x,
                )
            &&& forall|i: int, j: int|
                0 <= i < j < rest.len() ==> #[trigger] rest[i] < #[trigger] rest[j]
            &&& forall|i: int|
                0 <= i < rest.len() ==> a + u32_at(data, a + 12, le) <= #[trigger] rest[i]
        },
    ensures
        outdated_aux(data, a, n, names, le) matches Some(bad) ==> {
            &&& forall|x: int| #[trigger]
                bad.contains(x) <==> is_among(data, a, n, names, le, x)
            &&& forall|i: int, j: int|
                0 <= i < j < bad.len() ==> #[trigger] bad[i] < #[trigger] bad[j]
            &&& forall|i: int| 0 <= i < bad.len() ==> a <= #[trigger] bad[i]
        },
{
    let next = a + u32_at(data, a + 12, le);
    let m = (n - 1) as nat;
    let bad = outdated_aux(data, a, n, names, le)->0;
    let rest = outdated_aux(data, next, m, names, le)->0;
    let here = if is_outdated(data, a, names, le) { seq![a] } else { Seq::empty() };
    assert(bad == here + rest);
    assert(is_listed(data, a, 0, n, le));
    assert(aux_at(data, a, 0, le) == a);
    assert forall|x: int| #[trigger] bad.contains(x) <==> is_among(data, a, n, names, le, x) by {
        if bad.contains(x) {
            let i = choose|i: int| 0 <= i < bad.len() && bad[i] == x;
            if i < here.len() {
                assert(x == a);
            } else {
                assert(rest[i - here.len()] == x);
                assert(rest.contains(x));
                let j = choose|j: nat| #[trigger]
                    is_listed(data, next, j, m, le) && x == aux_at(data, next, j, le)
                        && is_outdated(data, x, names, le);
                listed_follow(data, a, j, n, le);
                aux_follow(data, a, j, le);
                assert(is_listed(data, a, j + 1, n, le));
            }
        }
        if is_among(data, a, n, names, le, x) {
            let i = choose|i: nat| #[trigger]
                is_listed(data, a, i, n, le) && x == aux_at(data, a, i, le) && is_outdated(
                    data,
                    x,
                    names,
                    le,
                );
            if i == 0 {
                assert(bad[0] == a);
            } else {
                listed_follow(data, a, (i - 1) as nat, n, le);
                aux_follow(data, a, (i - 1) as nat, le);
                assert(is_among(data, next, m, names, le, x));
                assert(rest.contains(x));
                let j = choose|j: int| 0 <= j < rest.len() && rest[j] == x;
                assert(bad[here.len() + j] == x);
            }
        }
    }
    assert forall|i: int, j: int| 0 <= i < j < bad.len() implies #[trigger] bad[i]
        < #[trigger] bad[j] by {
        if i >= here.len() {
            assert(bad[i] == rest[i - here.len()]);
        }
        assert(bad[j] == rest[j - here.len()]);
    }
    assert forall|i: int| 0 <= i < bad.len() implies a <= #[trigger] bad[i] by {
        if i >= here.len() {
            assert(bad[i] == rest[i - here.len()]);
        }
    }
}

/// Where the requirements on library `i` begin, those on the first one beginning at `p`:
/// each tells how far the next ones are.
pub open spec fn need_at(data: Seq<u8>, p: int, i: nat, le: bool) -> int
    decreases i,
{
    if i == 0 {
        p
    } else {
        let last = need_at(data, p, (i - 1) as nat, le);
        last + u32_at(data, last + 12, le)
    }
}

/// The outdated requirements on the library whose requirements begin at `x`. Their number
/// stands at 2, and how far the first one is at 8.
pub open spec fn found_at(data: Seq<u8>, x: int, names: int, le: bool) -> Option<Seq<int>> {
    if 0 <= x && x + 16 <= data.len() {
        outdated_aux(
            data,
            x + u32_at(data, x + 8, le),
            u16_at(data, x + 2, le) as nat,
            names,
            le,
        )
    } else {
        None
    }
}

/// Two lists that could be read, one behind the other.
pub open spec fn both(a: Option<Seq<int>>, b: Option<Seq<int>>) -> Option<Seq<int>> {
    if a is Some && b is Some { Some(a->0 + b->0) } else { None }
}

/// The outdated requirements on the first `k` libraries.
pub open spec fn found_up_to(data: Seq<u8>, p: int, k: nat, names: int, le: bool) -> Option<
    Seq<int>,
>
    decreases k,
{
    if k == 0 {
        Some(Seq::empty())
    } else {
        let last = (k - 1) as nat;
        both(
            found_up_to(data, p, last, names, le),
            found_at(data, need_at(data, p, last, le), names, le),
        )
    }
}

/// Library `i` counted from the second one is library `i + 1`.
proof fn needs_follow(data: Seq<u8>, p: int, i: nat, le: bool)
    ensures
        need_at(data, p + u32_at(data, p + 12, le), i, le) == need_at(data, p, i + 1, le),
    decreases i,
{
    reveal_with_fuel(need_at, 2);
    if i > 0 {
        needs_follow(data, p, (i - 1) as nat, le);
    }
}

/// What is found on the first libraries is what is found on the first one, and then on those
/// from the second one on.
proof fn found_follow(data: Seq<u8>, p: int, k: nat, names: int, le: bool)
    ensures
        found_up_to(data, p, k + 1, names, le) == both(
            found_at(data, p, names, le),
            found_up_to(data, p + u32_at(data, p + 12, le), k, names, le),
        ),
    decreases k,
{
    let next = p + u32_at(data, p + 12, le);
    reveal_with_fuel(found_up_to, 2);
    assert(need_at(data, p, 0, le) == p);
    let first = found_at(data, p, names, le);
    if k == 0 {
        if first is Some {
            assert(Seq::<int>::empty() + first->0 =~= first->0);
            assert(first->0 + Seq::<int>::empty() =~= first->0);
        }
    } else {
        let m = (k - 1) as nat;
        found_follow(data, p, m, names, le);
        needs_follow(data, p, m, le);
        let middle = found_up_to(data, next, m, names, le);
        let last = found_at(data, need_at(data, p, k, le), names, le);
        if first is Some && middle is Some && last is Some {
            assert((first->0 + middle->0) + last->0 =~= first->0 + (middle->0 + last->0));
        }
    }
}

/// The libraries are gone through one after the other, up to the one that tells of no next
/// one, and what is found on each is put together. Where one does not lie in the file
/// nothing is found at all.
pub proof fn all_libraries_are_looked_at(data: Seq<u8>, p: int, m: nat, names: int, le: bool)
    requires
        forall|j: nat| j < m ==> u32_at(data, #[trigger] need_at(data, p, j, le) + 12, le) != 0,
    ensures
        u32_at(data, need_at(data, p, m, le) + 12, le) == 0 ==> outdated_needs(data, p, names, le)
            == found_up_to(data, p, m + 1, names, le),
        !in_file(data, need_at(data, p, m, le), 16) ==> outdated_needs(data, p, names, le) is None,
    decreases m,
{
    assert(need_at(data, p, 0, le) == p);
    let next = u32_at(data, p + 12, le);
    if m == 0 {
        found_follow(data, p, 0, names, le);
        if found_at(data, p, names, le) is Some {
            let first = found_at(data, p, names, le)->0;
            assert(first + Seq::<int>::empty() =~= first);
        }
    } else {
        let k = (m - 1) as nat;
        assert(u32_at(data, need_at(data, p, 0, le) + 12, le) != 0);
        assert forall|j: nat| j < k implies u32_at(
            data,
            #[trigger] need_at(data, p + next, j, le) + 12,
            le,
        ) != 0 by {
            needs_follow(data, p, j, le);
            assert(u32_at(data, need_at(data, p, j + 1, le) + 12, le) != 0);
        }
        all_libraries_are_looked_at(data, p + next, k, names, le);
        needs_follow(data, p, k, le);
        found_follow(data, p, m, names, le);
    }
}

/// The requirements of a file are those of its sections of the kind that holds them, one
/// section after the other. The names are in the section that each of them is linked to,
/// which has to be there.
pub proof fn all_sections_are_looked_at(
    data: Seq<u8>,
    sections: Seq<Section>,
    s: Section,
    all: Seq<Section>,
    le: bool,
)
    ensures
        outdated(data, Seq::empty(), all, le) == Some(Seq::<int>::empty()),
        s.sh_type != 0x6fff_fffe ==> outdated(data, sections.push(s), all, le) == outdated(
            data,
            sections,
            all,
            le,
        ),
        s.sh_type == 0x6fff_fffe && s.link >= all.len() ==> outdated(
            data,
            sections.push(s),
            all,
            le,
        ) is None,
        s.sh_type == 0x6fff_fffe && s.link < all.len() ==> outdated(data, sections.push(s), all, le)
            == both(
            outdated(data, sections, all, le),
            outdated_needs(data, s.offset as int, all[s.link as int].offset as int, le),
        ),
    decreases sections.len(),
{
    let more = sections.push(s);
    reveal_with_fuel(outdated, 2);
    if sections.len() == 0 {
        assert(more.drop_first() =~= Seq::<Section>::empty());
        assert(more[0] == s);
        if s.sh_type == 0x6fff_fffe && s.link < all.len() {
            let here = outdated_needs(data, s.offset as int, all[s.link as int].offset as int, le);
            if here is Some {
                assert(here->0 + Seq::<int>::empty() =~= here->0);
                assert(Seq::<int>::empty() + here->0 =~= here->0);
            }
        }
        assert(Seq::<int>::empty() + Seq::<int>::empty() =~= Seq::<int>::empty());
    } else {
        let rest = sections.drop_first();
        assert(more.drop_first() =~= rest.push(s));
        assert(more[0] == sections[0]);
        all_sections_are_looked_at(data, rest, s, all, le);
        let middle = outdated(data, rest, all, le);
        let first = outdated(data, sections, all, le);
        let last = outdated_needs(data, s.offset as int, all[s.link as int].offset as int, le);
        let a = sections[0];
        let here = if a.sh_type != 0x6fff_fffe {
            Some(Seq::<int>::empty())
        } else if a.link >= all.len() {
            None
        } else {
            outdated_needs(data, a.offset as int, all[a.link as int].offset as int, le)
        };
        if here is Some && middle is Some && last is Some {
            assert((here->0 + middle->0) + last->0 =~= here->0 + (middle->0 + last->0));
        }
    }
}

/// What a dynamic entry tells of the tables: 5 where the strings are, 10 how long they are,
/// and 4 where the hash table is. It counts for more than any before it.
pub open spec fn told(t: Tables, tag: u64, value: u64) -> Tables {
    Tables {
        strtab: if tag == 5 { Some(value) } else { t.strtab },
        strsz: if tag == 10 { value } else { t.strsz },
        hash: if tag == 4 { Some(value) } else { t.hash },
    }
}

/// The dynamic entries are read one after the other, sixteen bytes each, with the tag before
/// the value. Where one of them that tells of the tables, or the tag of any, does not lie in
/// the file, nothing is read at all.
pub proof fn tables_are_read(data: Seq<u8>, off: int, n: nat, le: bool, t: Tables)
    ensures
        tables_at(data, off, 0, le, t) == Some(t),
        ({
            let at = off + 16 * n;
            let tag = u64_at(data, at, le);
            let before = tables_at(data, off, n, le, t);
            let after = tables_at(data, off, n + 1, le, t);
            let is_read = in_file(data, at, 8) && (tag == 4 || tag == 5 || tag == 10 ==> in_file(
                data,
                at + 8,
                8,
            ));
            &&& before is None || !is_read ==> after is None
            &&& before is Some && is_read ==> after == Some(
                told(before->0, tag, u64_at(data, at + 8, le)),
            )
        }),
    decreases n,
{
    reveal_with_fuel(tables_at, 2);
    if n > 0 {
        let tag = u64_at(data, off, le);
        let next = noted(t, tag, u64_at(data, off + 8, le));
        tables_are_read(data, off + 16, (n - 1) as nat, le, next);
        assert(off + 16 + 16 * (n - 1) == off + 16 * n);
    }
}

/// The dynamic section is the first one of its kind.
pub proof fn first_dynamic_section_counts(sections: Seq<Section>, i: int)
    requires
        0 <= i <= sections.len(),
        forall|j: int| 0 <= j < i ==> (#[trigger] sections[j]).sh_type != 6,
    ensures
        i < sections.len() && sections[i].sh_type == 6 ==> dynamic_section(sections) == Some(
            sections[i],
        ),
        i == sections.len() ==> dynamic_section(sections) is None,
    decreases i,
{
    if i > 0 {
        assert(sections[0].sh_type != 6);
        let rest = sections.drop_first();
        assert forall|j: int| 0 <= j < i - 1 implies (#[trigger] rest[j]).sh_type != 6 by {
            assert(rest[j] == sections[j + 1]);
        }
        first_dynamic_section_counts(rest, i - 1);
        if i < sections.len() {
            assert(rest[i - 1] == sections[i]);
        }
    }
}

/// There is a section of this kind at this offset.
pub open spec fn has_section(sections: Seq<Section>, kind: u32, offset: u64) -> bool {
    exists|i: int|
        0 <= i < sections.len() && (#[trigger] sections[i]).sh_type == kind && sections[i].offset
            == offset
}

/// There is a section of this kind.
pub open spec fn has_kind(sections: Seq<Section>, kind: u32) -> bool {
    exists|i: int| 0 <= i < sections.len() && (#[trigger] sections[i]).sh_type == kind
}

/// There is a section in use that begins behind the hash table and before the strings.
pub open spec fn has_other_between(sections: Seq<Section>, hash: u64, strtab: u64) -> bool {
    exists|i: int|
        0 <= i < sections.len() && (#[trigger] sections[i]).sh_type != 0 && hash
            < sections[i].offset && sections[i].offset < strtab
}

/// The sections allow the strings to be moved over the hash table where there are both of
/// them and the newer hash table, and nothing between them. Otherwise the first of these
/// that is not so is the reason.
pub proof fn refusals_have_reasons(sections: Seq<Section>, strtab: u64, hash: u64)
    ensures
        ({
            let strings = has_section(sections, 3, strtab);
            let old = has_section(sections, 5, hash);
            let newer = has_kind(sections, 0x6fff_fff6);
            let between = has_other_between(sections, hash, strtab);
            let reason = refusal(sections, strtab, hash);
            &&& !strings ==> reason == Some(Reason::NoDynstr)
            &&& strings && !old ==> reason == Some(Reason::NoHash)
            &&& strings && old && !newer ==> reason == Some(Reason::NoGnuHash)
            &&& strings && old && newer && between ==> reason == Some(Reason::Unrelated)
            &&& strings && old && newer && !between ==> reason is None
        }),
{
    assert(has_section(sections, 3, strtab) <==> exists|i: int|
        0 <= i < sections.len() && is_strings(#[trigger] sections[i], strtab));
    assert(has_section(sections, 5, hash) <==> exists|i: int|
        0 <= i < sections.len() && is_hash(#[trigger] sections[i], hash));
    assert(has_other_between(sections, hash, strtab) <==> exists|i: int|
        0 <= i < sections.len() && is_between(#[trigger] sections[i], hash, strtab));
}

/// A file that is not a 64-bit one, has no dynamic section, or has none that tells of the
/// strings is refused for that reason. One whose requirements are all met by the second ABI
/// is left as it is. One that has outdated requirements is refused where it does not tell of
/// a hash table, where the sections do not allow it, or where the new name has no room
/// between the hash table and the end of the strings.
pub proof fn files_are_refused_with_reasons(data: Seq<u8>, layout: LayoutView)
    ensures
        ({
            let le = layout.little_endian;
            let dynamic = dynamic_section(layout.sections);
            let none = Tables { strtab: None, strsz: 0, hash: None };
            let tables = tables_at(
                data,
                dynamic->0.offset as int,
                (dynamic->0.size / 16) as nat,
                le,
                none,
            );
            let t = tables->0;
            let bad = outdated(data, layout.sections, layout.sections, le);
            let strtab = t.strtab->0;
            let hash = t.hash->0;
            let reason = refusal(layout.sections, strtab, hash);
            let r = fixed(data, layout);
            if !layout.is_64 {
                r == Some(Err::<(Seq<u8>, nat), Reason>(Reason::NotElf64))
            } else if dynamic is None {
                r == Some(Err::<(Seq<u8>, nat), Reason>(Reason::NoDynamic))
            } else if tables is None {
                r is None
            } else if t.strtab is None {
                r == Some(Err::<(Seq<u8>, nat), Reason>(Reason::NoStrtab))
            } else if bad is None {
                r is None
            } else if bad->0.len() == 0 {
                r == Some(Ok::<(Seq<u8>, nat), Reason>((data, 0)))
            } else if t.hash is None {
                r == Some(Err::<(Seq<u8>, nat), Reason>(Reason::NoHashTag))
            } else if reason is Some {
                r == Some(Err::<(Seq<u8>, nat), Reason>(reason->0))
            } else if hash <= strtab + t.strsz <= u64::MAX && t.strsz + 11 <= u64::MAX && strtab
                < hash + 11 {
                r == Some(Err::<(Seq<u8>, nat), Reason>(Reason::NoRoom))
            } else {
                r is None || r->0 is Ok && r->0->Ok_0.1 == bad->0.len()
            }
        }),
{
}

/// Dynamic entries that lie in the file are retagged.
proof fn entries_are_retagged(
    data: Seq<u8>,
    off: int,
    n: nat,
    le: bool,
    strtab: u64,
    strsz: u64,
)
    requires
        0 <= off,
        off + 16 * n <= data.len(),
    ensures
        retagged(data, off, n, le, strtab, strsz) is Some,
        retagged(data, off, n, le, strtab, strsz)->0.len() == data.len(),
        forall|k: int|
            0 <= k < off ==> retagged(data, off, n, le, strtab, strsz)->0[k] == #[trigger] data[k],
        forall|k: int|
            off + 16 * n <= k < data.len() ==> retagged(data, off, n, le, strtab, strsz)->0[k]
                == #[trigger] data[k],
        forall|i: int|
            #![trigger u64_at(data, off + 16 * i, le)]
            0 <= i < n ==> {
                let r = retagged(data, off, n, le, strtab, strsz)->0;
                let tag = u64_at(data, off + 16 * i, le);
                &&& u64_at(r, off + 16 * i, le) == if tag == 4 { 0x6fff_f800 } else { tag }
                &&& u64_at(r, off + 16 * i + 8, le) == if tag == 5 {
                    strtab
                } else if tag == 10 {
                    strsz
                } else {
                    u64_at(data, off + 16 * i + 8, le)
                }
            },
    decreases n,
{
    broadcast use u64_has_eight_bytes;

    if n > 0 {
        let tag = u64_at(data, off, le);
        let d = if tag == 5 {
            put(data, off + 8, u64_bytes(strtab, le))
        } else if tag == 10 {
            put(data, off + 8, u64_bytes(strsz, le))
        } else if tag == 4 {
            put(data, off, u64_bytes(0x6fff_f800, le))
        } else {
            data
        };
        let m = (n - 1) as nat;
        entries_are_retagged(d, off + 16, m, le, strtab, strsz);
        let r = retagged(data, off, n, le, strtab, strsz)->0;
        assert(r == retagged(d, off + 16, m, le, strtab, strsz)->0);
        assert(forall|k: int| 0 <= k < off + 16 ==> r[k] == #[trigger] d[k]);
        u64_round_trip(data, off + 8, strtab, le);
        u64_round_trip(data, off + 8, strsz, le);
        u64_round_trip(data, off, 0x6fff_f800, le);
        u64_depends_on_its_bytes(r, d, off, le);
        u64_depends_on_its_bytes(r, d, off + 8, le);
        if tag == 5 || tag == 10 {
            u64_depends_on_its_bytes(d, data, off, le);
        } else {
            u64_depends_on_its_bytes(d, data, off + 8, le);
        }
        assert forall|i: int| #![trigger u64_at(data, off + 16 * i, le)] 0 <= i < n implies {
            let tag = u64_at(data, off + 16 * i, le);
            &&& u64_at(r, off + 16 * i, le) == if tag == 4 { 0x6fff_f800 } else { tag }
            &&& u64_at(r, off + 16 * i + 8, le) == if tag == 5 {
                strtab
            } else if tag == 10 {
                strsz
            } else {
                u64_at(data, off + 16 * i + 8, le)
            }
        } by {
            if i > 0 {
                let j = i - 1;
                assert(off + 16 + 16 * j == off + 16 * i);
                u64_depends_on_its_bytes(d, data, off + 16 * i, le);
                u64_depends_on_its_bytes(d, data, off + 16 * i + 8, le);
                assert(u64_at(d, off + 16 + 16 * j, le) == u64_at(data, off + 16 * i, le));
            }
        }
        assert forall|k: int| 0 <= k < off implies r[k] == #[trigger] data[k] by {
            assert(r[k] == d[k]);
        }
        assert forall|k: int| off + 16 * n <= k < data.len() implies r[k] == #[trigger] data[k] by {
            assert(d[k] == data[k]);
        }
    }
}

/// Among the dynamic entries, that of the strings and that of their size get the new values,
/// and that of the hash table gets a tag that nothing looks at. No other tag and no other
/// value changes.
pub proof fn dynamic_entries_follow_the_strings(
    data: Seq<u8>,
    off: int,
    n: nat,
    le: bool,
    strtab: u64,
    strsz: u64,
    i: int,
)
    requires
        0 <= off,
        off + 16 * n <= data.len(),
        0 <= i < n,
    ensures
        ({
            let r = retagged(data, off, n, le, strtab, strsz)->0;
            let at = off + 16 * i;
            let tag = u64_at(data, at, le);
            &&& retagged(data, off, n, le, strtab, strsz) is Some
            &&& u64_at(r, at, le) == if tag == 4 { 0x6fff_f800 } else { tag }
            &&& u64_at(r, at + 8, le) == if tag == 5 {
                strtab
            } else if tag == 10 {
                strsz
            } else {
                u64_at(data, at + 8, le)
            }
        }),
{
    entries_are_retagged(data, off, n, le, strtab, strsz);
}

/// Header `j` lies in the file, and the new place of the strings has an address.
pub open spec fn header_is_sound(
    len: int,
    layout: LayoutView,
    j: int,
    strtab: u64,
    hash: u64,
) -> bool {
    let s = layout.sections[j];
    let at = layout.shoff + j * layout.shentsize;
    &&& at + 0x28 <= len
    &&& at <= u64::MAX
    &&& s.sh_type == 3 && s.offset == strtab ==> s.offset <= s.addr && hash + (s.addr - s.offset)
        <= u64::MAX
}

/// Header `i` and those behind it are sound.
pub open spec fn headers_are_sound(
    len: int,
    layout: LayoutView,
    i: nat,
    strtab: u64,
    hash: u64,
) -> bool {
    forall|j: int|
        i <= j < layout.sections.len() ==> #[trigger] header_is_sound(len, layout, j, strtab, hash)
}

/// Headers that are sound are relinked.
proof fn headers_are_relinked(
    data: Seq<u8>,
    layout: LayoutView,
    i: nat,
    strtab: u64,
    hash: u64,
    size: u64,
)
    requires
        headers_are_sound(data.len() as int, layout, i, strtab, hash),
    ensures
        relinked(data, layout, i, strtab, hash, size) is Some,
    decreases layout.sections.len() - i,
{
    broadcast use u64_has_eight_bytes;

    if i < layout.sections.len() {
        let s = layout.sections[i as int];
        let off = layout.shoff + i * layout.shentsize;
        let le = layout.little_endian;
        assert(header_is_sound(data.len() as int, layout, i as int, strtab, hash));
        assert(0 <= i * layout.shentsize) by (nonlinear_arith);
        let here = if is_strings(s, strtab) {
            crate::fix_versions::header_moved(data, off, s, le, hash, size)
        } else if is_hash(s, hash) {
            Some(put(data, off + 4, crate::bytes::u32_bytes(0, le)))
        } else {
            Some(data)
        };
        assert(here is Some);
        assert(here->0.len() == data.len());
        headers_are_relinked(here->0, layout, i + 1, strtab, hash, size);
    }
}

/// A file with outdated requirements is raised, each of them, where it tells of its strings and
/// of its hash table, the sections allow it, there is room for the new name, and what the
/// headers tell of lies in the file.
pub proof fn outdated_files_are_raised(
    data: Seq<u8>,
    layout: LayoutView,
    dynamic: Section,
    strtab: u64,
    strsz: u64,
    hash: u64,
)
    requires
        layout.is_64,
        dynamic_section(layout.sections) == Some(dynamic),
        tables_at(
            data,
            dynamic.offset as int,
            (dynamic.size / 16) as nat,
            layout.little_endian,
            Tables { strtab: None, strsz: 0, hash: None },
        ) == Some((Tables { strtab: Some(strtab), strsz, hash: Some(hash) })),
        refusal(layout.sections, strtab, hash) is None,
        hash + 11 <= strtab,
        strtab + strsz <= data.len() <= u64::MAX,
        dynamic.offset + 16 * (dynamic.size / 16) <= data.len(),
        headers_are_sound(data.len() as int, layout, 0, strtab, hash),
    ensures
        outdated(data, layout.sections, layout.sections, layout.little_endian) matches Some(bad)
            ==> bad.len() > 0 ==> fixed(data, layout) is Some && fixed(data, layout)->0 is Ok
            && fixed(data, layout)->0->Ok_0.1 == bad.len(),
{
    let le = layout.little_endian;
    let n = (dynamic.size / 16) as nat;
    let size = (strsz + 11) as u64;
    let d = crate::fix_versions::moved(data, strtab as int, strsz as int, hash as int);
    entries_are_retagged(d, dynamic.offset as int, n, le, hash, size);
    let e = retagged(d, dynamic.offset as int, n, le, hash, size)->0;
    headers_are_relinked(e, layout, 0, strtab, hash, size);
}

/// The tags that tell of versions are three. A dynamic section has as many entries as it has
/// sixteen bytes; of version indices all but the first are counted, two bytes each.
pub proof fn version_tags_are_three(tag: u64, s: Section)
    ensures
        is_version_tag(tag) <==> tag == 0x6fff_fff0 || tag == 0x6fff_fffe || tag == 0x6fff_ffff,
        16 * entry_count(s) <= s.size < 16 * entry_count(s) + 16,
        s.size >= 2 ==> 2 * index_count(s) + 2 <= s.size < 2 * index_count(s) + 4,
        s.size < 2 ==> index_count(s) == 0,
{
}

/// The version tags are counted entry by entry.
pub proof fn tags_are_counted(data: Seq<u8>, off: int, n: nat, le: bool)
    ensures
        tag_count(data, off, 0, le) == 0,
        ({
            let tag = u64_at(data, off + 16 * n, le);
            let is_one = tag == 0x6fff_fff0 || tag == 0x6fff_fffe || tag == 0x6fff_ffff;
            tag_count(data, off, n + 1, le) == tag_count(data, off, n, le) + if is_one {
                1int
            } else {
                0int
            }
        }),
    decreases n,
{
    reveal_with_fuel(tag_count, 2);
    if n > 0 {
        tags_are_counted(data, off + 16, (n - 1) as nat, le);
        assert(off + 16 + 16 * (n - 1) == off + 16 * n);
    }
}

/// Dynamic entries are stripped exactly where the tag of the last one lies in the file.
proof fn entries_are_stripped_in_file(data: Seq<u8>, off: int, n: nat, le: bool)
    requires
        0 <= off,
    ensures
        untagged(data, off, n, le) is Some <==> n == 0 || off + 16 * (n - 1) + 8 <= data.len(),
    decreases n,
{
    broadcast use u64_has_eight_bytes;

    if n > 0 {
        let d = if is_version_tag(u64_at(data, off, le)) {
            put(data, off, u64_bytes(0x6fff_f800, le))
        } else {
            data
        };
        entries_are_stripped_in_file(d, off + 16, (n - 1) as nat, le);
    }
}

/// Version indices are stripped exactly where the last one lies in the file.
proof fn indices_are_stripped_in_file(data: Seq<u8>, off: int, n: nat, le: bool)
    requires
        0 <= off,
    ensures
        unindexed(data, off, n, le) is Some <==> n == 0 || off + 2 * n <= data.len(),
    decreases n,
{
    broadcast use crate::bytes::u16_has_two_bytes;

    if n > 0 {
        let d = put(data, off, crate::bytes::u16_bytes(1, le));
        indices_are_stripped_in_file(d, off + 2, (n - 1) as nat, le);
    }
}

/// A section is stripped where it has addresses and what is to be stripped of it lies in the
/// file. In a dynamic section the version tags are counted; any other kind of section
/// counts for nothing, and one that is neither dynamic nor of version indices is left alone.
pub proof fn sections_are_stripped_in_file(data: Seq<u8>, s: Section, le: bool)
    ensures
        ({
            let r = section_stripped(data, s, le);
            let has_addresses = s.offset + s.size <= u64::MAX;
            let entries = s.size / 16;
            let indices = if s.size < 2 { 0int } else { (s.size - 2) / 2 };
            &&& !has_addresses ==> r is None
            &&& has_addresses && s.sh_type == 6 ==> {
                &&& r is Some <==> s.offset + 16 <= u64::MAX && (entries == 0 || s.offset + 16
                    * entries - 8 <= data.len())
                &&& r is Some ==> (r->0).1 == tag_count(data, s.offset as int, entries as nat, le)
            }
            &&& has_addresses && s.sh_type == 0x6fff_ffff ==> {
                &&& r is Some <==> s.offset + 2 <= u64::MAX && (indices == 0 || s.offset + 2 + 2
                    * indices <= data.len())
                &&& r is Some ==> (r->0).1 == 0
            }
            &&& has_addresses && s.sh_type != 6 && s.sh_type != 0x6fff_ffff ==> r == Some(
                (data, 0nat),
            )
        }),
{
    entries_are_stripped_in_file(data, s.offset as int, (s.size / 16) as nat, le);
    indices_are_stripped_in_file(data, s.offset + 2, index_count(s), le);
    if untagged(data, s.offset as int, (s.size / 16) as nat, le) is Some {
        crate::unversion::version_tags_are_replaced(
            data,
            s.offset as int,
            (s.size / 16) as nat,
            le,
        );
    }
}

/// Sections are stripped one after the other, each as the ones before it left the file, and
/// what each counts is added up.
pub proof fn all_sections_are_stripped(data: Seq<u8>, sections: Seq<Section>, s: Section, le: bool)
    ensures
        ({
            let before = sections_stripped(data, sections, le);
            let after = sections_stripped(data, sections.push(s), le);
            let last = section_stripped((before->0).0, s, le);
            &&& before is None || last is None ==> after is None
            &&& before is Some && last is Some ==> after == Some(
                ((last->0).0, (before->0).1 + (last->0).1),
            )
        }),
    decreases sections.len(),
{
    let more = sections.push(s);
    if sections.len() == 0 {
        assert(more.drop_first() =~= sections);
        assert(more[0] == s);
        stripping_begins(data, more, le);
        nothing_is_stripped(data, sections, le);
        if section_stripped(data, s, le) is Some {
            nothing_is_stripped((section_stripped(data, s, le)->0).0, sections, le);
        }
    } else {
        assert(more.drop_first() =~= sections.drop_first().push(s));
        assert(more[0] == sections[0]);
        stripping_begins(data, more, le);
        stripping_begins(data, sections, le);
        if section_stripped(data, sections[0], le) is Some {
            let d = (section_stripped(data, sections[0], le)->0).0;
            all_sections_are_stripped(d, sections.drop_first(), s, le);
        }
    }
}

/// Without a section nothing is stripped.
pub proof fn nothing_is_stripped(data: Seq<u8>, sections: Seq<Section>, le: bool)
    requires
        sections.len() == 0,
    ensures
        sections_stripped(data, sections, le) == Some((data, 0nat)),
{
}

/// The first section is stripped first.
proof fn stripping_begins(data: Seq<u8>, sections: Seq<Section>, le: bool)
    requires
        sections.len() > 0,
    ensures
        ({
            let first = section_stripped(data, sections[0], le);
            let rest = sections_stripped((first->0).0, sections.drop_first(), le);
            let all = sections_stripped(data, sections, le);
            &&& first is None || rest is None ==> all is None
            &&& first is Some && rest is Some ==> all == Some(
                ((rest->0).0, (first->0).1 + (rest->0).1),
            )
        }),
{
}

/// A file that is not a 64-bit one is refused; any other is stripped of what its sections
/// hold, with the number of version tags.
pub proof fn files_of_64_bits_are_stripped(data: Seq<u8>, layout: LayoutView)
    ensures
        ({
            let all = sections_stripped(data, layout.sections, layout.little_endian);
            let r = stripped(data, layout);
            &&& !layout.is_64 ==> r == Some(Err::<(Seq<u8>, nat), Reason>(Reason::NotElf64))
            &&& layout.is_64 && all is None ==> r is None
            &&& layout.is_64 && all is Some && (all->0).1 <= u64::MAX ==> r == Some(
                Ok::<(Seq<u8>, nat), Reason>(all->0),
            )
        }),
{
}

/// A file that is no ELF file is refused with what the parser says of it, and otherwise it is
/// handled by its headers.
pub proof fn files_are_handled_by_their_headers(data: Seq<u8>)
    ensures
        match elf_layout(data) {
            Ok(layout) => fix_outcome(data) == fixed(data, layout) && strip_outcome(data)
                == stripped(data, layout),
            Err(text) => fix_outcome(data) == Some(
                Err::<(Seq<u8>, nat), Reason>(Reason::NotElf(text)),
            ) && strip_outcome(data) == Some(
                Err::<(Seq<u8>, nat), Reason>(Reason::NotElf(text)),
            ),
        },
{
}

}
