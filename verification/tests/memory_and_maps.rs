//! Memory of a traced process, and its map.

use sharun_compat::maps::{code_pointers, executable_ranges, module_for};
use sharun_compat::memory::{
    bytes_of_word, read_cstr, read_struct, struct_addresses, tail_address, write_struct,
};

const MAPS: &str = "00400000-00452000 r-xp 00000000 08:02 173521 /usr/bin/dbus daemon\n\
    00651000-00652000 r--p 00051000 08:02 173521      /usr/bin/dbus\n\
    7f00-7f80 -wxp 0 0 0\r\n\
    nonsense\n\
    \n\
    35b1800000-35b1820000 r-xs 00000000 08:02 135522  /usr/lib64/ld-2.15.so\n\
    7fff+12-zz r-xp 0 0 0 [stack]\n\
    ffffffffff600000-ffffffffff601000 r-xp 00000000 00:00 0";

#[test]
fn words_are_addressed_in_steps_of_eight() {
    assert_eq!(struct_addresses(0x1000, 0), Vec::<u64>::new());
    assert_eq!(struct_addresses(0x1000, 1), [0x1000]);
    assert_eq!(struct_addresses(0x1000, 16), [0x1000, 0x1008]);
    assert_eq!(struct_addresses(0x1000, 17), [0x1000, 0x1008, 0x1010]);
    // Addresses wrap around.
    assert_eq!(struct_addresses(u64::MAX - 7, 9), [u64::MAX - 7, 0]);
}

#[test]
fn structs_are_read_from_words() {
    let words = vec![0x0807_0605_0403_0201, 0x100f_0e0d_0c0b_0a09];
    assert_eq!(read_struct(&words, 10), Some((1..=10).collect()));
    assert_eq!(read_struct(&words, 16), Some((1..=16).collect()));
    assert_eq!(read_struct(&words, 0), Some(vec![]));
    // The word after the ones that could be read is missing.
    assert_eq!(read_struct(&words, 17), None);
}

#[test]
fn structs_are_written_as_words() {
    let bytes: Vec<u8> = (1..=10).collect();
    // The last word keeps what stands behind the bytes.
    assert_eq!(tail_address(0x2000, 10), Some(0x2008));
    assert_eq!(
        write_struct(0x2000, &bytes, Some(0x1122_3344_5566_7788)),
        Some(vec![(0x2000, 0x0807_0605_0403_0201), (0x2008, 0x1122_3344_5566_0a09)])
    );
    assert_eq!(write_struct(0x2000, &[0xab], Some(u64::MAX)), Some(vec![(0x2000, !0x54)]));
    // It has to be known, unless the bytes fill it.
    assert_eq!(write_struct(0x2000, &bytes, None), None);
    assert_eq!(tail_address(0x2000, 8), None);
    assert_eq!(
        write_struct(0x2000, &bytes[..8], None),
        Some(vec![(0x2000, 0x0807_0605_0403_0201)])
    );
    assert_eq!(tail_address(0x2000, 0), None);
    assert_eq!(write_struct(0x2000, &[], None), Some(vec![]));
    assert_eq!(tail_address(u64::MAX - 7, 9), Some(0));
    assert_eq!(bytes_of_word(0x0807_0605_0403_0201), [1, 2, 3, 4, 5, 6, 7, 8]);
}

#[test]
fn nothing_is_written_behind_the_bytes() {
    for len in 0..40usize {
        let mut memory: Vec<u8> = (0..64).map(|i| (200 - i) as u8).collect();
        let before = memory.clone();
        let bytes: Vec<u8> = (0..len).map(|i| (i * 37 + 11) as u8).collect();
        let there = tail_address(5, len).map(|at| {
            let word: Vec<u8> = memory[at as usize..at as usize + 8].to_vec();
            u64::from_le_bytes(word.try_into().unwrap())
        });
        for (at, word) in write_struct(5, &bytes, there).unwrap() {
            memory[at as usize..at as usize + 8].copy_from_slice(&bytes_of_word(word));
        }
        assert_eq!(memory[..5], before[..5]);
        assert_eq!(memory[5..5 + len], bytes[..]);
        assert_eq!(memory[5 + len..], before[5 + len..]);
    }
}

#[test]
fn what_was_written_is_read_back() {
    for len in 0..40usize {
        let bytes: Vec<u8> = (0..len).map(|i| (i * 37 + 11) as u8).collect();
        let words = write_struct(0x9000, &bytes, Some(0)).unwrap();
        let addresses: Vec<u64> = words.iter().map(|w| w.0).collect();
        assert_eq!(addresses, struct_addresses(0x9000, len));
        let values: Vec<u64> = words.iter().map(|w| w.1).collect();
        assert_eq!(read_struct(&values, len), Some(bytes));
    }
}

#[test]
fn strings_end_at_a_nul() {
    let word = |s: &[u8; 8]| u64::from_le_bytes(*s);
    assert_eq!(read_cstr(0, &vec![word(b"ignored!")]), (String::new(), false));
    assert_eq!(read_cstr(8, &vec![]), (String::new(), true));
    assert_eq!(read_cstr(8, &vec![word(b"/etc/pas")]), ("/etc/pas".to_string(), true));
    assert_eq!(
        read_cstr(8, &vec![word(b"/etc/pas"), word(b"swd\0junk")]),
        ("/etc/passwd".to_string(), false)
    );
    assert_eq!(read_cstr(8, &vec![word(b"\0unseen!")]), (String::new(), false));
    // No more is read of a string that is too long.
    let long = vec![word(b"abcdefgh"); 32];
    assert_eq!(read_cstr(8, &long), ("abcdefgh".repeat(32), false));
    assert!(read_cstr(8, &long[..31].to_vec()).1);
}

#[test]
fn strings_need_not_be_utf8() {
    let word = u64::from_le_bytes(*b"a\xffb\xc3\xa9\0\0\0");
    assert_eq!(read_cstr(8, &vec![word]).0, "a\u{fffd}b\u{e9}");
}

#[test]
fn addresses_are_looked_up() {
    assert_eq!(module_for(Some(MAPS), 0x400000), "/usr/bin/dbus [r-xp]");
    assert_eq!(module_for(Some(MAPS), 0x451fff), "/usr/bin/dbus [r-xp]");
    assert_eq!(module_for(Some(MAPS), 0x452000), "<unknown>");
    assert_eq!(module_for(Some(MAPS), 0x651234), "/usr/bin/dbus [r--p]");
    assert_eq!(module_for(Some(MAPS), 0x7f00), " [-wxp]");
    assert_eq!(module_for(Some(MAPS), 0xffff_ffff_ff60_0010), " [r-xp]");
    assert_eq!(module_for(Some(""), 0), "<unknown>");
    assert_eq!(module_for(None, 0), "<no maps>");
}

#[test]
fn executable_mappings_are_listed() {
    assert_eq!(
        executable_ranges(Some(MAPS)),
        [
            (0x400000, 0x452000),
            (0x35_b180_0000, 0x35_b182_0000),
            (0xffff_ffff_ff60_0000, 0xffff_ffff_ff60_1000),
        ]
    );
    assert_eq!(executable_ranges(None), []);
    assert_eq!(executable_ranges(Some("+1f-+20 rx")), [(0x1f, 0x20)]);
    assert_eq!(executable_ranges(Some("+-20 rx\n1-10000000000000000 rx\n12 rx\n1-2")), []);
}

#[test]
fn code_pointers_are_picked_out() {
    let ranges = vec![(0x10, 0x20), (0x40, 0x50)];
    assert_eq!(
        code_pointers(&vec![0, 0x10, 0x1f, 0x20, 0x4f, 0x40, 0x9000], &ranges),
        [0x10, 0x1f, 0x4f, 0x40]
    );
    assert_eq!(code_pointers(&vec![0, 1], &vec![(0, 10)]), [1]);
}
