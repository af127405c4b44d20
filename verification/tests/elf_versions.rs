//! ELF files whose version requirements are raised or stripped.

use sharun_compat::bytes::{read_u16, read_u32, read_u64, write_u16, write_u32, write_u64};
use sharun_compat::elf::{ElfError, Layout, Section};
use sharun_compat::fix_versions::{fix, fix_image, try_fix};
use sharun_compat::unversion::{strip, strip_image, try_strip};
use sharun_compat::versions::{elf_hash, is_elfv1_only, read_str};

const HASH: usize = 0x40;
const STRINGS: usize = 0x80;
const TEXT: &[u8] = b"\0libc.so.6\0GLIBC_2.3\0GLIBC_2.17\0GLIBC_2.4\0";
const NEEDS: usize = 0x100;
const DYNAMIC: usize = 0x180;
const VERSYM: usize = 0x200;
const GNU_HASH: usize = 0x220;
const HEADERS: usize = 0x240;

struct Object {
    data: Vec<u8>,
    le: bool,
    sections: usize,
}

impl Object {
    fn header(&mut self, sh_type: u32, offset: usize, size: usize, link: u32) {
        let at = HEADERS + 64 * self.sections;
        self.data.resize(at + 64, 0);
        let le = self.le;
        write_u32(&mut self.data, at + 4, sh_type, le);
        write_u64(&mut self.data, at + 0x10, (0x1_0000 + offset) as u64, le);
        write_u64(&mut self.data, at + 0x18, offset as u64, le);
        write_u64(&mut self.data, at + 0x20, size as u64, le);
        write_u32(&mut self.data, at + 0x28, link, le);
        self.sections += 1;
        let count = self.sections as u16;
        write_u16(&mut self.data, 60, count, le);
    }

    fn aux(&mut self, at: usize, name: u32, next: u32) {
        let le = self.le;
        write_u32(&mut self.data, at, 0x1234, le);
        write_u16(&mut self.data, at + 6, 2, le);
        write_u32(&mut self.data, at + 8, name, le);
        write_u32(&mut self.data, at + 12, next, le);
    }

    fn entry(&mut self, i: usize, tag: u64, value: u64) {
        let le = self.le;
        write_u64(&mut self.data, DYNAMIC + 16 * i, tag, le);
        write_u64(&mut self.data, DYNAMIC + 16 * i + 8, value, le);
    }
}

/// An ELF file that requires three versions of one library, two of them old.
fn object(le: bool) -> Object {
    let mut o = Object { data: vec![0; HEADERS], le, sections: 0 };
    o.data[..4].copy_from_slice(b"\x7fELF");
    o.data[4] = 2;
    o.data[5] = if le { 1 } else { 2 };
    o.data[6] = 1;
    write_u16(&mut o.data, 16, 3, le);
    write_u16(&mut o.data, 18, 21, le);
    write_u32(&mut o.data, 20, 1, le);
    write_u64(&mut o.data, 40, HEADERS as u64, le);
    write_u16(&mut o.data, 52, 64, le);
    write_u16(&mut o.data, 58, 64, le);
    for b in &mut o.data[HASH..STRINGS] {
        *b = 0xcc;
    }
    o.data[STRINGS..STRINGS + TEXT.len()].copy_from_slice(TEXT);
    write_u16(&mut o.data, NEEDS, 1, le);
    write_u16(&mut o.data, NEEDS + 2, 3, le);
    write_u32(&mut o.data, NEEDS + 4, 1, le);
    write_u32(&mut o.data, NEEDS + 8, 16, le);
    o.aux(NEEDS + 16, 11, 16);
    o.aux(NEEDS + 32, 21, 16);
    o.aux(NEEDS + 48, 32, 0);
    o.entry(0, 5, STRINGS as u64);
    o.entry(1, 10, TEXT.len() as u64);
    o.entry(2, 4, HASH as u64);
    o.entry(3, 0x6fff_fff0, VERSYM as u64);
    o.entry(4, 0x6fff_fffe, NEEDS as u64);
    o.entry(5, 0x6fff_ffff, 1);
    o.entry(6, 0, 0);
    for i in 0..8 {
        write_u16(&mut o.data, VERSYM + 2 * i, 5 + i as u16, le);
    }
    o.header(0, 0, 0, 0);
    o.header(5, HASH, STRINGS - HASH, 0);
    o.header(3, STRINGS, TEXT.len(), 0);
    o.header(0x6fff_fffe, NEEDS, 64, 2);
    o.header(6, DYNAMIC, 16 * 7, 2);
    o.header(0x6fff_ffff, VERSYM, 16, 0);
    o.header(0x6fff_fff6, GNU_HASH, 16, 0);
    o
}

fn fixed(o: &Object) -> Result<(Vec<u8>, usize), ElfError> {
    try_fix(&o.data).expect("runs off the file")
}

fn fix_error(o: &Object) -> String {
    match fixed(o) {
        Ok((_, n)) => panic!("fixed {n}"),
        Err(e) => e.message(),
    }
}

#[test]
fn old_glibc_versions_are_told() {
    for old in ["GLIBC_2.3", "GLIBC_2.16.9", "GLIBC_2.0", "GLIBC_2", "GLIBC_1.99", "GLIBC_+2.+4"] {
        assert!(is_elfv1_only(old), "{old}");
    }
    for kept in [
        "GLIBC_2.17",
        "GLIBC_2.17.0",
        "GLIBC_2.34",
        "GLIBC_3",
        "GLIBC_",
        "GLIBC_2.",
        "GLIBC_2.x",
        "GLIBC_2.-3",
        "GLIBC_PRIVATE",
        "GLIBC_4294967296.1",
        "GLIBCXX_3.4",
        "glibc_2.3",
        "GLIB",
        "",
    ] {
        assert!(!is_elfv1_only(kept), "{kept}");
    }
    // Only three parts are looked at.
    assert!(is_elfv1_only("GLIBC_2.3.4.junk"));
}

#[test]
fn names_are_hashed_as_the_linker_does() {
    assert_eq!(elf_hash(b""), 0);
    assert_eq!(elf_hash(b"a"), 0x61);
    assert_eq!(elf_hash(b"GLIBC_2.17"), 0x0696_9197);
    assert_eq!(elf_hash(b"GLIBC_2.2.5"), 0x0969_1a75);
    assert!(elf_hash(&[0xff; 64]) < 0x1000_0000);
}

#[test]
fn strings_are_read_up_to_a_nul() {
    assert_eq!(read_str(TEXT, 0), "");
    assert_eq!(read_str(TEXT, 11), "GLIBC_2.3");
    assert_eq!(read_str(TEXT, 17), "2.3");
    assert_eq!(read_str(b"a\xff\0", 0), "a\u{fffd}");
    assert_eq!(read_str("\u{e9}\u{20ac}\0x".as_bytes(), 0), "\u{e9}\u{20ac}");
}

#[test]
fn outdated_requirements_are_raised() {
    for le in [true, false] {
        let o = object(le);
        let (data, count) = fixed(&o).unwrap();
        assert_eq!(count, 2);
        assert_eq!(data.len(), o.data.len());
        // The strings stand where the hash table stood, the new name behind them.
        assert_eq!(data[HASH..HASH + TEXT.len()], *TEXT);
        assert_eq!(read_str(&data, (HASH + TEXT.len()) as u64), "GLIBC_2.17");
        for at in [NEEDS + 16, NEEDS + 48] {
            assert_eq!(read_u32(&data, at, le), elf_hash(b"GLIBC_2.17"));
            assert_eq!(read_u32(&data, at + 8, le), TEXT.len() as u32);
        }
        assert_eq!(data[NEEDS + 32..NEEDS + 48], o.data[NEEDS + 32..NEEDS + 48]);
        // The dynamic section tells of them, and no longer of the hash table.
        assert_eq!(read_u64(&data, DYNAMIC, le), 5);
        assert_eq!(read_u64(&data, DYNAMIC + 8, le), HASH as u64);
        assert_eq!(read_u64(&data, DYNAMIC + 24, le), TEXT.len() as u64 + 11);
        assert_eq!(read_u64(&data, DYNAMIC + 32, le), 0x6fff_f800);
        assert_eq!(data[DYNAMIC + 48..HEADERS], o.data[DYNAMIC + 48..HEADERS]);
        // So do the section headers.
        let hash_header = HEADERS + 64;
        assert_eq!(read_u32(&data, hash_header + 4, le), 0);
        let strings_header = HEADERS + 128;
        assert_eq!(read_u64(&data, strings_header + 0x10, le), 0x1_0000 + HASH as u64);
        assert_eq!(read_u64(&data, strings_header + 0x18, le), HASH as u64);
        assert_eq!(read_u64(&data, strings_header + 0x20, le), TEXT.len() as u64 + 11);
        assert_eq!(data[strings_header + 0x28..], o.data[strings_header + 0x28..]);
        // Nothing is left to raise.
        let (again, count) = fix(&data).unwrap();
        assert_eq!((again, count), (data, 0));
    }
}

#[test]
fn a_file_without_outdated_requirements_is_left() {
    let mut o = object(true);
    o.aux(NEEDS + 16, 21, 16);
    o.aux(NEEDS + 48, 21, 0);
    let (data, count) = fixed(&o).unwrap();
    assert_eq!((data, count), (o.data, 0));
}

#[test]
fn the_last_entry_of_a_tag_counts() {
    let mut o = object(true);
    o.entry(6, 5, STRINGS as u64);
    o.entry(0, 5, 0x7777);
    assert_eq!(fixed(&o).unwrap().1, 2);
}

#[test]
fn several_libraries_are_walked() {
    let mut o = object(true);
    let le = true;
    write_u16(&mut o.data, NEEDS + 2, 1, le);
    write_u32(&mut o.data, NEEDS + 12, 32, le);
    write_u16(&mut o.data, NEEDS + 32 + 2, 9, le);
    write_u32(&mut o.data, NEEDS + 32 + 8, 16, le);
    write_u32(&mut o.data, NEEDS + 32 + 12, 0, le);
    // One of the first library, and one of the second, although it claims nine.
    assert_eq!(fixed(&o).unwrap().1, 2);
}

#[test]
fn every_reason_has_its_text() {
    assert!(matches!(try_fix(&b"no ELF".to_vec()), Some(Err(ElfError::NotElf(_)))));
    let e = try_fix(&b"no ELF".to_vec()).unwrap().err().unwrap();
    let direct = goblin::elf::Elf::parse(b"no ELF").err().unwrap();
    assert_eq!(e.message(), format!("not an ELF: {direct}"));

    let mut o = object(true);
    write_u32(&mut o.data, HEADERS + 4 * 64 + 4, 1, true);
    assert_eq!(fix_error(&o), "no .dynamic");

    let mut o = object(true);
    o.entry(0, 0x7777, 0);
    assert_eq!(fix_error(&o), "no DT_STRTAB");

    let mut o = object(true);
    o.entry(2, 0x7777, 0);
    assert_eq!(fix_error(&o), "no DT_HASH (nowhere to put the new string)");

    let mut o = object(true);
    o.entry(0, 5, STRINGS as u64 + 1);
    assert_eq!(fix_error(&o), "no .dynstr");

    let mut o = object(true);
    o.entry(2, 4, HASH as u64 + 1);
    assert_eq!(fix_error(&o), "no .hash");

    let mut o = object(true);
    write_u32(&mut o.data, HEADERS + 6 * 64 + 4, 1, true);
    assert_eq!(fix_error(&o), "no .gnu.hash, cannot drop .hash");

    let mut o = object(true);
    write_u64(&mut o.data, HEADERS + 6 * 64 + 0x18, STRINGS as u64 - 8, true);
    assert_eq!(fix_error(&o), "unrelated section between .hash and .dynstr");

    // Ten bytes are not enough for the name and its NUL, eleven are.
    for (gap, room) in [(10, false), (11, true)] {
        let mut o = object(true);
        let hash = (STRINGS - gap) as u64;
        o.entry(2, 4, hash);
        write_u64(&mut o.data, HEADERS + 64 + 0x18, hash, true);
        if room {
            assert_eq!(fixed(&o).unwrap().1, 2);
        } else {
            assert_eq!(fix_error(&o), "not enough room to grow .dynstr");
        }
    }
}

#[test]
fn files_of_32_bits_are_refused() {
    let mut data = vec![0u8; 52];
    data[..7].copy_from_slice(b"\x7fELF\x01\x01\x01");
    data[20] = 1;
    assert_eq!(try_fix(&data).unwrap().err().unwrap().message(), "not ELF64");
    assert_eq!(try_strip(&data).unwrap().err().unwrap().message(), "not ELF64");
}

#[test]
fn tables_that_run_off_the_file_are_noticed() {
    // The dynamic section.
    let mut o = object(true);
    write_u64(&mut o.data, HEADERS + 4 * 64 + 0x20, 0x10_0000, true);
    assert!(try_fix(&o.data).is_none());
    assert!(try_strip(&o.data).is_none());
    // The requirements, their names and the section that holds those.
    let mut o = object(true);
    write_u32(&mut o.data, NEEDS + 8, 0x10_0000, true);
    assert!(try_fix(&o.data).is_none());
    let mut o = object(true);
    o.aux(NEEDS + 16, 0x10_0000, 16);
    assert!(try_fix(&o.data).is_none());
    let mut o = object(true);
    write_u32(&mut o.data, NEEDS + 12, 0x10_0000, true);
    assert!(try_fix(&o.data).is_none());
    // The strings.
    let mut o = object(true);
    o.entry(1, 10, 0x10_0000);
    assert!(try_fix(&o.data).is_none());
}

#[test]
fn headers_that_contradict_the_file_are_noticed() {
    let section = |sh_type, offset, size, link| Section { sh_type, addr: offset, offset, size, link };
    let o = object(true);
    // A section of requirements whose names are in no section.
    let layout = Layout {
        is_64: true,
        little_endian: true,
        shoff: HEADERS as u64,
        shentsize: 64,
        sections: vec![
            section(6, DYNAMIC as u64, 16 * 7, 0),
            section(0x6fff_fffe, NEEDS as u64, 64, 9),
        ],
    };
    assert!(fix_image(&layout, &o.data).is_none());
    // A section whose address is below its offset cannot be moved along.
    let mut moved = Layout {
        sections: vec![
            section(6, DYNAMIC as u64, 16 * 7, 0),
            section(0x6fff_fffe, NEEDS as u64, 64, 2),
            section(3, STRINGS as u64, TEXT.len() as u64, 0),
            section(5, HASH as u64, 64, 0),
            section(0x6fff_fff6, GNU_HASH as u64, 16, 0),
        ],
        ..layout
    };
    assert_eq!(fix_image(&moved, &o.data).unwrap().unwrap().1, 2);
    moved.sections[2].addr = 0;
    assert!(fix_image(&moved, &o.data).is_none());
    // Sizes that run off the addresses.
    moved.sections[2].size = u64::MAX;
    assert!(strip_image(&moved, &o.data).is_none());
}

#[test]
fn versions_are_stripped() {
    for le in [true, false] {
        let o = object(le);
        let (data, tags) = strip(&o.data).unwrap();
        assert_eq!(tags, 3);
        assert_eq!(data.len(), o.data.len());
        for i in 0..7 {
            let at = DYNAMIC + 16 * i;
            let tag = read_u64(&o.data, at, le);
            let kept = if (3..6).contains(&i) { 0x6fff_f800 } else { tag };
            assert_eq!(read_u64(&data, at, le), kept);
            assert_eq!(read_u64(&data, at + 8, le), read_u64(&o.data, at + 8, le));
        }
        // The null symbol's index stays.
        assert_eq!(read_u16(&data, VERSYM, le), 5);
        for i in 1..8 {
            assert_eq!(read_u16(&data, VERSYM + 2 * i, le), 1);
        }
        assert_eq!(data[..DYNAMIC], o.data[..DYNAMIC]);
        assert_eq!(data[GNU_HASH..], o.data[GNU_HASH..]);
        // Nothing is left to strip.
        let (again, tags) = try_strip(&data).unwrap().unwrap();
        assert_eq!((again, tags), (data, 0));
    }
}

#[test]
fn a_file_that_is_no_elf_is_not_stripped() {
    let e = try_strip(&vec![0; 100]).unwrap().err().unwrap();
    assert!(e.message().starts_with("not an ELF: "));
}
