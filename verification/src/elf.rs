//! The parts of an ELF file that the tools for symbol versions work on.

use vstd::prelude::*;

verus! {

pub const SHT_NULL: u32 = 0;
pub const SHT_STRTAB: u32 = 3;
pub const SHT_HASH: u32 = 5;
pub const SHT_DYNAMIC: u32 = 6;
pub const SHT_GNU_HASH: u32 = 0x6fff_fff6;
pub const SHT_GNU_VERNEED: u32 = 0x6fff_fffe;
pub const SHT_GNU_VERSYM: u32 = 0x6fff_ffff;

pub const DT_HASH: u64 = 4;
pub const DT_STRTAB: u64 = 5;
pub const DT_STRSZ: u64 = 10;
pub const DT_VERSYM: u64 = 0x6fff_fff0;
pub const DT_VERNEED: u64 = 0x6fff_fffe;
pub const DT_VERNEEDNUM: u64 = 0x6fff_ffff;

/// A dynamic tag that the dynamic linker ignores. It takes the place of a tag that
/// is dropped, so that the array is not cut short.
pub const IGNORED_TAG: u64 = 0x6fff_f800;

/// A section header.
#[derive(Clone, Copy, Debug, PartialEq, Eq, Structural)]
pub struct Section {
    pub sh_type: u32,
    pub addr: u64,
    pub offset: u64,
    pub size: u64,
    pub link: u32,
}

/// What the headers of an ELF file say.
#[derive(Debug)]
pub struct Layout {
    pub is_64: bool,
    pub little_endian: bool,
    /// Where the section headers stand.
    pub shoff: u64,
    /// How far apart they stand.
    pub shentsize: u16,
    pub sections: Vec<Section>,
}

/// [`Layout`] as contracts speak of it.
#[verifier::ext_equal]
pub struct LayoutView {
    pub is_64: bool,
    pub little_endian: bool,
    pub shoff: u64,
    pub shentsize: u16,
    pub sections: Seq<Section>,
}

impl View for Layout {
    type V = LayoutView;

    open spec fn view(&self) -> LayoutView {
        LayoutView {
            is_64: self.is_64,
            little_endian: self.little_endian,
            shoff: self.shoff,
            shentsize: self.shentsize,
            sections: self.sections@,
        }
    }
}

/// What was read, as contracts speak of it.
pub open spec fn read_as(r: Result<Layout, String>) -> Result<LayoutView, Seq<char>> {
    match r {
        Ok(layout) => Ok(layout@),
        Err(text) => Err(text@),
    }
}

/// What `goblin::elf::Elf::parse` makes of the file `bytes`: what its headers say,
/// or the text of the error.
pub uninterp spec fn elf_layout(bytes: Seq<u8>) -> Result<LayoutView, Seq<char>>;

/// `goblin::elf::Elf::parse`: read the headers of an ELF file. Of what the parser
/// returns only the class, the byte order, the place of the section headers and the
/// section headers themselves are kept, as they are; of an error its text. Which
/// files it accepts, and what it finds in them, is left to the name of the result.
#[verifier::external_body]
pub(crate) fn parse_elf(bytes: &[u8]) -> (r: Result<Layout, String>)
    ensures
        read_as(r) == elf_layout(bytes@),
{
    let elf = goblin::elf::Elf::parse(bytes).map_err(|e| e.to_string())?;
    let sections = elf.section_headers.iter().map(|s| Section {
        sh_type: s.sh_type,
        addr: s.sh_addr,
        offset: s.sh_offset,
        size: s.sh_size,
        link: s.sh_link,
    }).collect();
    Ok(Layout {
        is_64: elf.is_64,
        little_endian: elf.little_endian,
        shoff: elf.header.e_shoff,
        shentsize: elf.header.e_shentsize,
        sections,
    })
}

/// Why a file is not handled.
#[derive(Debug)]
pub enum ElfError {
    /// The file cannot be read as an ELF file.
    NotElf(String),
    NotElf64,
    NoDynamic,
    NoStrtab,
    NoHashTag,
    NoDynstr,
    NoHash,
    NoGnuHash,
    /// There is a section between the two that are merged.
    Unrelated,
    NoRoom,
}

/// [`ElfError`] as contracts speak of it.
pub enum Reason {
    NotElf(Seq<char>),
    NotElf64,
    NoDynamic,
    NoStrtab,
    NoHashTag,
    NoDynstr,
    NoHash,
    NoGnuHash,
    Unrelated,
    NoRoom,
}

impl View for ElfError {
    type V = Reason;

    open spec fn view(&self) -> Reason {
        match *self {
            ElfError::NotElf(text) => Reason::NotElf(text@),
            ElfError::NotElf64 => Reason::NotElf64,
            ElfError::NoDynamic => Reason::NoDynamic,
            ElfError::NoStrtab => Reason::NoStrtab,
            ElfError::NoHashTag => Reason::NoHashTag,
            ElfError::NoDynstr => Reason::NoDynstr,
            ElfError::NoHash => Reason::NoHash,
            ElfError::NoGnuHash => Reason::NoGnuHash,
            ElfError::Unrelated => Reason::Unrelated,
            ElfError::NoRoom => Reason::NoRoom,
        }
    }
}

impl Reason {
    /// The text that tells a user of the error.
    pub open spec fn text(self) -> Seq<char> {
        match self {
            Reason::NotElf(text) => "not an ELF: "@ + text,
            Reason::NotElf64 => "not ELF64"@,
            Reason::NoDynamic => "no .dynamic"@,
            Reason::NoStrtab => "no DT_STRTAB"@,
            Reason::NoHashTag => "no DT_HASH (nowhere to put the new string)"@,
            Reason::NoDynstr => "no .dynstr"@,
            Reason::NoHash => "no .hash"@,
            Reason::NoGnuHash => "no .gnu.hash, cannot drop .hash"@,
            Reason::Unrelated => "unrelated section between .hash and .dynstr"@,
            Reason::NoRoom => "not enough room to grow .dynstr"@,
        }
    }
}

impl ElfError {
    /// The text that tells a user of the error.
    pub fn message(&self) -> (text: String)
        ensures
            text@ == self@.text(),
    {
        match self {
            ElfError::NotElf(text) => String::from_str("not an ELF: ").concat(text.as_str()),
            ElfError::NotElf64 => String::from_str("not ELF64"),
            ElfError::NoDynamic => String::from_str("no .dynamic"),
            ElfError::NoStrtab => String::from_str("no DT_STRTAB"),
            ElfError::NoHashTag => String::from_str("no DT_HASH (nowhere to put the new string)"),
            ElfError::NoDynstr => String::from_str("no .dynstr"),
            ElfError::NoHash => String::from_str("no .hash"),
            ElfError::NoGnuHash => String::from_str("no .gnu.hash, cannot drop .hash"),
            ElfError::Unrelated => String::from_str(
                "unrelated section between .hash and .dynstr",
            ),
            ElfError::NoRoom => String::from_str("not enough room to grow .dynstr"),
        }
    }
}

/// The `len` bytes at `offset` lie in the file.
pub open spec fn in_file(data: Seq<u8>, offset: int, len: int) -> bool {
    0 <= offset && offset + len <= data.len()
}

/// Whether the `len` bytes at `offset` lie in the file.
pub(crate) fn fits(data: &[u8], offset: u128, len: u128) -> (r: bool)
    ensures
        r == in_file(data@, offset as int, len as int),
        r ==> offset + len <= data.len(),
{
    let size = data.len() as u128;
    offset <= size && len <= size - offset
}

}
