use vstd::prelude::*;

use super::raw::elf::{
    elf_magic, Elf32SectionHeader, Elf64SectionHeader, ElfFile, ElfVariableHeader,
};
use super::raw::helpers::BinField;
use super::raw::helpers::context::Endian;
use super::raw::helpers::primitives::{
    decode_uint, lemma_pow256_values, lemma_uint_value_bound, uint_value,
};
use super::raw::helpers::{pod_array, same_bytes};
use super::{ObjectFileReader, SectionFlags, SectionReader, SectionVisitor};

verus! {

/// Whether a file uses the 32-bit or the 64-bit ELF layout.
#[derive(Clone, Copy, Debug, PartialEq, Eq)]
pub enum Class {
    Elf32,
    Elf64,
}

impl Class {
    /// `if32` for the 32-bit layout, `if64` for the 64-bit one.
    pub fn either<T>(self, if32: T, if64: T) -> (r: T)
        ensures
            r == (match self {
                Class::Elf32 => if32,
                Class::Elf64 => if64,
            }),
    {
        match self {
            Class::Elf32 => if32,
            Class::Elf64 => if64,
        }
    }
}

/// Why the start of a file cannot be read as an ELF file header.
#[derive(Clone, Copy, Debug, PartialEq, Eq)]
pub enum ReadError {
    /// The file ends before the header does.
    UnexpectedEof,
    /// The file does not start with `0x7f` `E` `L` `F`.
    InvalidMagic,
    /// The class byte is neither 1 (32-bit) nor 2 (64-bit).
    InvalidClass,
    /// The data byte is neither 1 (little-endian) nor 2 (big-endian).
    InvalidEndian,
    /// The version byte is not 1.
    UnknownVersion,
}

/// The text that describes each error.
pub open spec fn error_message(e: ReadError) -> Seq<char> {
    match e {
        ReadError::UnexpectedEof => "failed to fill whole buffer"@,
        ReadError::InvalidMagic => "invalid magic"@,
        ReadError::InvalidClass => "invalid ELF class"@,
        ReadError::InvalidEndian => "invalid ELF data (endian)"@,
        ReadError::UnknownVersion => "unknown ELF version (only know version 1)"@,
    }
}

impl ReadError {
    /// The text that describes the error.
    pub fn message(&self) -> (r: &'static str)
        ensures
            r@ == error_message(*self),
    {
        match self {
            ReadError::UnexpectedEof => "failed to fill whole buffer",
            ReadError::InvalidMagic => "invalid magic",
            ReadError::InvalidClass => "invalid ELF class",
            ReadError::InvalidEndian => "invalid ELF data (endian)",
            ReadError::UnknownVersion => "unknown ELF version (only know version 1)",
        }
    }
}

/// The size of the fields that are 32-bit in 32-bit files and 64-bit in 64-bit
/// files (addresses, offsets, sizes).
pub open spec fn addr_width(class: Class) -> int {
    match class {
        Class::Elf32 => 4,
        Class::Elf64 => 8,
    }
}

/// The unsigned field of `n` bytes at offset `at` of `file`.
pub open spec fn field(file: Seq<u8>, at: int, n: int, endian: Endian) -> nat {
    uint_value(file.subrange(at, at + n), endian)
}

/// The fields of an ELF file header that the reader keeps.
#[derive(Clone, Copy, Debug, PartialEq, Eq)]
pub struct ElfHeaderFields {
    pub phoff: u64,
    pub shoff: u64,
    pub phentsize: u16,
    pub shentsize: u16,
    pub phnum: u16,
    pub shnum: u16,
    pub shstrndx: u16,
    pub endian: Endian,
    pub class: Class,
}

/// The ELF file header at the start of `file`, or why there is none.
///
/// The identification bytes are checked in order (magic, class, data, version);
/// then the rest of the header is read in the layout of the class and the byte
/// order of the data byte.
pub open spec fn parse_elf_header(file: Seq<u8>) -> Result<ElfHeaderFields, ReadError> {
    if file.len() < 16 {
        Err(ReadError::UnexpectedEof)
    } else if file.subrange(0, 4) != elf_magic() {
        Err(ReadError::InvalidMagic)
    } else if file[4] != 1 && file[4] != 2 {
        Err(ReadError::InvalidClass)
    } else if file[5] != 1 && file[5] != 2 {
        Err(ReadError::InvalidEndian)
    } else if file[6] != 1 {
        Err(ReadError::UnknownVersion)
    } else {
        let endian = if file[5] == 2 {
            Endian::Big
        } else {
            Endian::Little
        };
        if file[4] == 2 {
            if file.len() < 64 {
                Err(ReadError::UnexpectedEof)
            } else {
                Ok(
                    ElfHeaderFields {
                        phoff: field(file, 32, 8, endian) as u64,
                        shoff: field(file, 40, 8, endian) as u64,
                        phentsize: field(file, 54, 2, endian) as u16,
                        shentsize: field(file, 58, 2, endian) as u16,
                        phnum: field(file, 56, 2, endian) as u16,
                        shnum: field(file, 60, 2, endian) as u16,
                        shstrndx: field(file, 62, 2, endian) as u16,
                        endian,
                        class: Class::Elf64,
                    },
                )
            }
        } else {
            if file.len() < 52 {
                Err(ReadError::UnexpectedEof)
            } else {
                Ok(
                    ElfHeaderFields {
                        phoff: field(file, 28, 4, endian) as u64,
                        shoff: field(file, 32, 4, endian) as u64,
                        phentsize: field(file, 42, 2, endian) as u16,
                        shentsize: field(file, 46, 2, endian) as u16,
                        phnum: field(file, 44, 2, endian) as u16,
                        shnum: field(file, 48, 2, endian) as u16,
                        shstrndx: field(file, 50, 2, endian) as u16,
                        endian,
                        class: Class::Elf32,
                    },
                )
            }
        }
    }
}

/// Reads the field of `n` bytes at `at`, which lies inside the file.
fn field_at(file: &[u8], at: usize, n: usize, endian: Endian) -> (r: u64)
    requires
        n <= 8,
        at + n <= file@.len(),
    ensures
        r == field(file@, at as int, n as int, endian),
        r < vstd::arithmetic::power2::pow2((8 * n) as nat),
{
    assert(file@.len() == file.len());
    let v = decode_uint(vstd::slice::slice_subrange(file, at, at + n), endian);
    proof {
        lemma_uint_value_bound(file@.subrange(at as int, at + n), endian);
        lemma_pow256_pow2(n as nat);
    }
    v
}

proof fn lemma_pow256_pow2(n: nat)
    ensures
        super::raw::helpers::primitives::pow256(n) == vstd::arithmetic::power2::pow2(8 * n),
    decreases n,
{
    if n > 0 {
        lemma_pow256_pow2((n - 1) as nat);
        vstd::arithmetic::power2::lemma_pow2_adds(8 * (n - 1) as nat, 8);
        vstd::arithmetic::power2::lemma2_to64();
    } else {
        vstd::arithmetic::power2::lemma2_to64();
    }
}

/// Reads the field of `n` bytes at `at`, or nothing where the file ends first.
fn read_uint(file: &[u8], at: u64, n: usize, endian: Endian) -> (r: Option<u64>)
    requires
        n <= 8,
    ensures
        match r {
            Some(v) => at + n <= file@.len() && v == field(file@, at as int, n as int, endian),
            None => at + n > file@.len(),
        },
{
    let len = file.len();
    if at > len as u64 || (len - at as usize) < n {
        None
    } else {
        Some(field_at(file, at as usize, n, endian))
    }
}

/// Reads the 32-bit word at `at`.
fn read_word(file: &[u8], at: u64, endian: Endian) -> (r: Option<u32>)
    ensures
        match r {
            Some(v) => at + 4 <= file@.len() && v == field(file@, at as int, 4, endian),
            None => at + 4 > file@.len(),
        },
{
    match read_uint(file, at, 4, endian) {
        Some(v) => {
            proof {
                lemma_uint_value_bound(file@.subrange(at as int, at + 4), endian);
                lemma_pow256_values();
            }
            Some(v as u32)
        },
        None => None,
    }
}

/// Reads the 64-bit word at `at`.
fn read_xword(file: &[u8], at: u64, endian: Endian) -> (r: Option<u64>)
    ensures
        match r {
            Some(v) => at + 8 <= file@.len() && v == field(file@, at as int, 8, endian),
            None => at + 8 > file@.len(),
        },
{
    read_uint(file, at, 8, endian)
}

/// Reads the address-sized field at `at`: 32-bit in 32-bit files, 64-bit in
/// 64-bit files.
fn read_addr(file: &[u8], at: u64, class: Class, endian: Endian) -> (r: Option<u64>)
    ensures
        match r {
            Some(v) => at + addr_width(class) <= file@.len() && v == field(
                file@,
                at as int,
                addr_width(class),
                endian,
            ),
            None => at + addr_width(class) > file@.len(),
        },
{
    match class {
        Class::Elf32 => match read_word(file, at, endian) {
            Some(x) => Some(x as u64),
            None => None,
        },
        Class::Elf64 => read_xword(file, at, endian),
    }
}

/// The identification bytes at the start of an ELF file.
struct RawElfIdent {
    magic: [u8; 4],
    class: u8,
    data: u8,
    version: u8,
    osabi: u8,
    abiversion: u8,
    pad: [u8; 7],
}

impl RawElfIdent {
    /// The identification bytes of `file`, which has at least 16 bytes.
    fn read(file: &[u8]) -> (r: Self)
        requires
            16 <= file@.len(),
        ensures
            r.magic@ == file@.subrange(0, 4),
            r.class == file@[4],
            r.data == file@[5],
            r.version == file@[6],
    {
        RawElfIdent {
            magic: pod_array(vstd::slice::slice_subrange(file, 0, 4)),
            class: file[4],
            data: file[5],
            version: file[6],
            osabi: file[7],
            abiversion: file[8],
            pad: pod_array(vstd::slice::slice_subrange(file, 9, 16)),
        }
    }

    fn verify(&self) -> (r: Result<(), ReadError>)
        ensures
            r == (if self.magic@ != elf_magic() {
                Err(ReadError::InvalidMagic)
            } else if self.class != 1 && self.class != 2 {
                Err(ReadError::InvalidClass)
            } else if self.data != 1 && self.data != 2 {
                Err(ReadError::InvalidEndian)
            } else if self.version != 1 {
                Err(ReadError::UnknownVersion)
            } else {
                Ok(())
            }),
    {
        let elf: [u8; 4] = [0x7f, 0x45, 0x4c, 0x46];
        assert(elf@ =~= elf_magic());
        if !same_bytes(&self.magic, &elf) {
            Err(ReadError::InvalidMagic)
        } else if self.class != 1 && self.class != 2 {
            Err(ReadError::InvalidClass)
        } else if self.data != 1 && self.data != 2 {
            Err(ReadError::InvalidEndian)
        } else if self.version != 1 {
            Err(ReadError::UnknownVersion)
        } else {
            Ok(())
        }
    }

    fn endian(&self) -> (r: Endian)
        ensures
            r == (if self.data == 2 {
                Endian::Big
            } else {
                Endian::Little
            }),
    {
        if self.data == 2 {
            Endian::Big
        } else {
            Endian::Little
        }
    }

    fn class(&self) -> (r: Class)
        ensures
            r == (if self.class == 2 {
                Class::Elf64
            } else {
                Class::Elf32
            }),
    {
        if self.class == 2 {
            Class::Elf64
        } else {
            Class::Elf32
        }
    }
}

/// Reads the ELF file header at the start of `file`.
fn read_header(file: &[u8]) -> (r: Result<ElfHeaderFields, ReadError>)
    ensures
        r == parse_elf_header(file@),
{
    if file.len() < 16 {
        return Err(ReadError::UnexpectedEof);
    }
    let ident = RawElfIdent::read(file);
    ident.verify()?;
    let endian = ident.endian();
    let class = ident.class();
    proof {
        vstd::arithmetic::power2::lemma2_to64();
    }
    match class {
        Class::Elf32 => {
            if file.len() < 52 {
                return Err(ReadError::UnexpectedEof);
            }
            Ok(
                ElfHeaderFields {
                    phoff: field_at(file, 28, 4, endian),
                    shoff: field_at(file, 32, 4, endian),
                    phentsize: field_at(file, 42, 2, endian) as u16,
                    shentsize: field_at(file, 46, 2, endian) as u16,
                    phnum: field_at(file, 44, 2, endian) as u16,
                    shnum: field_at(file, 48, 2, endian) as u16,
                    shstrndx: field_at(file, 50, 2, endian) as u16,
                    endian,
                    class,
                },
            )
        },
        Class::Elf64 => {
            if file.len() < 64 {
                return Err(ReadError::UnexpectedEof);
            }
            Ok(
                ElfHeaderFields {
                    phoff: field_at(file, 32, 8, endian),
                    shoff: field_at(file, 40, 8, endian),
                    phentsize: field_at(file, 54, 2, endian) as u16,
                    shentsize: field_at(file, 58, 2, endian) as u16,
                    phnum: field_at(file, 56, 2, endian) as u16,
                    shnum: field_at(file, 60, 2, endian) as u16,
                    shstrndx: field_at(file, 62, 2, endian) as u16,
                    endian,
                    class,
                },
            )
        },
    }
}


/// The bytes of `s` before its first zero byte, if it has one.
pub open spec fn c_string(s: Seq<u8>) -> Option<Seq<u8>>
    decreases s.len(),
{
    if s.len() == 0 {
        None
    } else if s[0] == 0 {
        Some(Seq::empty())
    } else {
        match c_string(s.drop_first()) {
            Some(rest) => Some(seq![s[0]] + rest),
            None => None,
        }
    }
}

proof fn lemma_c_string_found(s: Seq<u8>, i: int)
    requires
        0 <= i < s.len(),
        s[i] == 0,
        forall|j: int| 0 <= j < i ==> s[j] != 0,
    ensures
        c_string(s) == Some(s.take(i)),
    decreases s.len(),
{
    if i > 0 {
        lemma_c_string_found(s.drop_first(), i - 1);
        assert(seq![s[0]] + s.drop_first().take(i - 1) =~= s.take(i));
    } else {
        assert(s.take(0) =~= Seq::<u8>::empty());
    }
}

proof fn lemma_c_string_none(s: Seq<u8>)
    requires
        forall|j: int| 0 <= j < s.len() ==> s[j] != 0,
    ensures
        c_string(s) is None,
    decreases s.len(),
{
    if s.len() > 0 {
        lemma_c_string_none(s.drop_first());
    }
}

/// memchr's `memchr`: the index of the first `needle` in `haystack`, or
/// nothing where `needle` does not occur.
#[verifier::external_body]
fn memchr(needle: u8, haystack: &[u8]) -> (r: Option<usize>)
    ensures
        match r {
            Some(i) => {
                &&& i < haystack@.len()
                &&& haystack@[i as int] == needle
                &&& forall|j: int| 0 <= j < i ==> haystack@[j] != needle
            },
            None => forall|j: int| 0 <= j < haystack@.len() ==> haystack@[j] != needle,
        },
{
    memchr::memchr(needle, haystack)
}

/// The type of a section header that holds the contents of a section
/// (`SHT_PROGBITS`).
pub open spec fn progbits() -> nat {
    1
}

/// Where a section header is read, and with what.
pub struct SectionAt {
    /// The whole file.
    pub file: Seq<u8>,
    /// The offset of the section header in the file.
    pub off: int,
    pub class: Class,
    pub endian: Endian,
    /// The section-name string table, if the file has one.
    pub strtab: Option<Seq<u8>>,
}

/// The type of the section header at `off`.
pub open spec fn section_type(file: Seq<u8>, off: int, endian: Endian) -> nat {
    field(file, off + 4, 4, endian)
}

/// The offset, within a section header, of the offset and then the size of the
/// section's contents.
pub open spec fn data_field(class: Class) -> int {
    match class {
        Class::Elf32 => 16,
        Class::Elf64 => 24,
    }
}

/// The offset, within a section header, of the size of the section.
pub open spec fn size_field(class: Class) -> int {
    match class {
        Class::Elf32 => 20,
        Class::Elf64 => 32,
    }
}

/// The offset of the contents of the section whose header is at `off`.
pub open spec fn data_start(file: Seq<u8>, off: int, class: Class, endian: Endian) -> int {
    field(file, off + data_field(class), addr_width(class), endian) as int
}

/// The size of the contents of the section whose header is at `off`.
pub open spec fn data_size(file: Seq<u8>, off: int, class: Class, endian: Endian) -> int {
    field(file, off + data_field(class) + addr_width(class), addr_width(class), endian) as int
}

/// The header at `off` can be read as far as the size of the contents, and the
/// contents lie inside the file.
pub open spec fn data_readable(file: Seq<u8>, off: int, class: Class, endian: Endian) -> bool {
    &&& off + data_field(class) + 2 * addr_width(class) <= file.len()
    &&& data_start(file, off, class, endian) + data_size(file, off, class, endian) <= file.len()
}

/// The contents of the section whose header is at `off`.
pub open spec fn section_data(file: Seq<u8>, off: int, class: Class, endian: Endian) -> Seq<u8> {
    file.subrange(
        data_start(file, off, class, endian),
        data_start(file, off, class, endian) + data_size(file, off, class, endian),
    )
}

/// The name of the section at `s`: the string in the string table at the
/// offset that the first word of the header gives, up to its zero byte. There
/// is none without a string table, where the file ends before that word, or
/// where no zero byte ends the string.
pub open spec fn section_name(s: SectionAt) -> Option<Seq<u8>> {
    match s.strtab {
        None => None,
        Some(t) => if s.off + 4 > s.file.len() {
            None
        } else {
            c_string(t.subrange(field(s.file, s.off, 4, s.endian) as int, t.len() as int))
        },
    }
}

/// Reading the name does not index past the end of the string table.
pub open spec fn section_name_ok(s: SectionAt) -> bool {
    match s.strtab {
        None => true,
        Some(t) => s.off + 4 > s.file.len() || field(s.file, s.off, 4, s.endian) <= t.len(),
    }
}

/// Reads one section of an ELF file.
#[derive(Clone, Copy, Debug)]
pub struct ElfSectionReader<'a> {
    file: &'a [u8],
    off: u64,
    class: Class,
    endian: Endian,
    strtab: Option<&'a [u8]>,
}

impl<'a> View for ElfSectionReader<'a> {
    type V = SectionAt;

    closed spec fn view(&self) -> SectionAt {
        SectionAt {
            file: self.file@,
            off: self.off as int,
            class: self.class,
            endian: self.endian,
            strtab: match self.strtab {
                Some(t) => Some(t@),
                None => None,
            },
        }
    }
}

impl<'a> ElfSectionReader<'a> {
    /// The contents of the section, as a part of the file.
    fn data_slice(&self) -> (r: &'a [u8])
        requires
            data_readable(self@.file, self@.off, self@.class, self@.endian),
        ensures
            r@ == section_data(self@.file, self@.off, self@.class, self@.endian),
    {
        assert(self.file@.len() == self.file.len());
        let at = self.off + self.class.either(16, 24);
        let off = read_addr(self.file, at, self.class, self.endian).unwrap();
        let size = read_addr(self.file, at + self.class.either(4, 8), self.class, self.endian).unwrap();
        vstd::slice::slice_subrange(self.file, off as usize, (off + size) as usize)
    }
}

impl<'a> SectionReader for ElfSectionReader<'a> {
    open spec fn name_ok(&self) -> bool {
        section_name_ok(self@)
    }

    open spec fn name_spec(&self) -> Option<Seq<u8>> {
        section_name(self@)
    }

    /// Section flags are not read from ELF files.
    open spec fn flags_ok(&self) -> bool {
        false
    }

    open spec fn flags_spec(&self) -> SectionFlags {
        SectionFlags { bits: 0 }
    }

    open spec fn mem_size_ok(&self) -> bool {
        self@.off + size_field(self@.class) + addr_width(self@.class) <= self@.file.len()
    }

    /// The size field of the section header.
    open spec fn mem_size_spec(&self) -> u64 {
        field(self@.file, self@.off + size_field(self@.class), addr_width(self@.class), self@.endian) as u64
    }

    open spec fn data_ok(&self) -> bool {
        data_readable(self@.file, self@.off, self@.class, self@.endian)
    }

    open spec fn data_spec(&self) -> Seq<u8> {
        section_data(self@.file, self@.off, self@.class, self@.endian)
    }

    fn name(&mut self) -> (r: Option<Vec<u8>>) {
        match self.strtab {
            None => None,
            Some(strtab) => {
                let name_off = match read_word(self.file, self.off, self.endian) {
                    Some(v) => v,
                    None => {
                        return None;
                    },
                };
                let s = vstd::slice::slice_subrange(strtab, name_off as usize, strtab.len());
                match memchr(0, s) {
                    Some(end) => {
                        proof {
                            lemma_c_string_found(s@, end as int);
                        }
                        Some(vstd::slice::slice_to_vec(vstd::slice::slice_subrange(s, 0, end)))
                    },
                    None => {
                        proof {
                            lemma_c_string_none(s@);
                        }
                        None
                    },
                }
            },
        }
    }

    fn flags(&mut self) -> (r: SectionFlags) {
        SectionFlags { bits: 0 }
    }

    fn mem_size(&mut self) -> (r: u64) {
        assert(self.file@.len() == self.file.len());
        let at = self.off + self.class.either(20, 32);
        read_addr(self.file, at, self.class, self.endian).unwrap()
    }

    fn data(&mut self) -> (r: Vec<u8>) {
        vstd::slice::slice_to_vec(self.data_slice())
    }
}


/// Where a visitor stands in the section header table, and what it reads with.
pub struct VisitorState {
    pub file: Seq<u8>,
    /// The number of section headers not yet looked at.
    pub remaining: nat,
    /// The offset of the next section header.
    pub off: int,
    /// The size of a section header.
    pub step: int,
    pub class: Class,
    pub endian: Endian,
    pub strtab: Option<Seq<u8>>,
    /// Whether every section is handed out, not only those with contents.
    pub raw_mode: bool,
}

/// The next section header can be looked at: moving past it does not overflow,
/// and its type can be read.
pub open spec fn step_ok(v: VisitorState) -> bool {
    &&& v.off + v.step <= u64::MAX
    &&& v.off + 8 <= v.file.len()
}

/// The state after looking at the next section header.
pub open spec fn advanced(v: VisitorState) -> VisitorState {
    VisitorState { remaining: (v.remaining - 1) as nat, off: v.off + v.step, ..v }
}

/// The next section header is handed out: every header in raw mode, otherwise
/// those of sections with contents.
pub open spec fn yields(v: VisitorState) -> bool {
    v.raw_mode || section_type(v.file, v.off, v.endian) == progbits()
}

/// Where one call of `accept_next` ends.
pub enum Scan {
    /// No header is left to hand out.
    End,
    /// A header that has to be looked at cannot be read.
    Stuck,
    /// The header at the offset is handed out, and the visitor goes on from
    /// the state.
    Found(int, VisitorState),
}

/// Where one call of `accept_next` from `v` ends.
pub open spec fn scan(v: VisitorState) -> Scan
    decreases v.remaining,
{
    if v.remaining == 0 {
        Scan::End
    } else if !step_ok(v) {
        Scan::Stuck
    } else if yields(v) {
        Scan::Found(v.off, advanced(v))
    } else {
        scan(advanced(v))
    }
}

/// Every remaining section header can be looked at.
pub open spec fn never_stuck(v: VisitorState) -> bool
    decreases v.remaining,
{
    v.remaining == 0 || (step_ok(v) && never_stuck(advanced(v)))
}

/// The offsets of the section headers handed out from `v` on, in order.
pub open spec fn visited(v: VisitorState) -> Seq<int>
    decreases v.remaining,
{
    if v.remaining == 0 {
        Seq::empty()
    } else if yields(v) {
        seq![v.off] + visited(advanced(v))
    } else {
        visited(advanced(v))
    }
}

/// `w` reads the same file in the same way as `v`.
pub open spec fn same_config(v: VisitorState, w: VisitorState) -> bool {
    &&& v.file == w.file
    &&& v.step == w.step
    &&& v.class == w.class
    &&& v.endian == w.endian
    &&& v.strtab == w.strtab
    &&& v.raw_mode == w.raw_mode
}

proof fn lemma_scan(v: VisitorState)
    requires
        never_stuck(v),
    ensures
        match scan(v) {
            Scan::End => visited(v).len() == 0,
            Scan::Stuck => false,
            Scan::Found(at, next) => {
                &&& visited(v) == seq![at] + visited(next)
                &&& never_stuck(next)
                &&& same_config(v, next)
                &&& next.remaining < v.remaining
            },
        },
    decreases v.remaining,
{
    if v.remaining > 0 && !yields(v) {
        lemma_scan(advanced(v));
    }
}

/// Walks the section header table of an ELF file.
pub struct ElfSectionVisitor<'a> {
    file: &'a [u8],
    remaining_sections: u16,
    cur_section_off: u64,
    step: u16,
    class: Class,
    endian: Endian,
    strtab: Option<&'a [u8]>,
    raw_mode: bool,
}

impl<'a> View for ElfSectionVisitor<'a> {
    type V = VisitorState;

    closed spec fn view(&self) -> VisitorState {
        VisitorState {
            file: self.file@,
            remaining: self.remaining_sections as nat,
            off: self.cur_section_off as int,
            step: self.step as int,
            class: self.class,
            endian: self.endian,
            strtab: match self.strtab {
                Some(t) => Some(t@),
                None => None,
            },
            raw_mode: self.raw_mode,
        }
    }
}

impl<'a> ElfSectionVisitor<'a> {
    /// The visitor over the section headers of `r`, from the first.
    pub closed spec fn visitor_of(r: ElfReader<'a>) -> Self {
        ElfSectionVisitor {
            file: r.file,
            remaining_sections: r.header.shnum,
            cur_section_off: r.header.shoff,
            step: r.header.shentsize,
            class: r.header.class,
            endian: r.header.endian,
            strtab: r.strtab,
            raw_mode: r.raw_mode,
        }
    }

    /// A visitor over the section headers of `elf_reader`, from the first.
    pub fn new(elf_reader: &mut ElfReader<'a>) -> (r: Self)
        ensures
            *final(elf_reader) == *old(elf_reader),
            r == Self::visitor_of(*old(elf_reader)),
            r@ == initial_state(old(elf_reader)@),
    {
        ElfSectionVisitor {
            file: elf_reader.file,
            remaining_sections: elf_reader.header.shnum,
            cur_section_off: elf_reader.header.shoff,
            step: elf_reader.header.shentsize,
            class: elf_reader.header.class,
            endian: elf_reader.header.endian,
            strtab: elf_reader.strtab,
            raw_mode: elf_reader.raw_mode,
        }
    }

    closed spec fn reader_at(&self, off: int) -> ElfSectionReader<'a> {
        ElfSectionReader {
            file: self.file,
            off: off as u64,
            class: self.class,
            endian: self.endian,
            strtab: self.strtab,
        }
    }

    /// Looks at section headers until one is handed out or none is left.
    fn next_section(&mut self) -> (r: Option<ElfSectionReader<'a>>)
        requires
            !(scan(old(self)@) is Stuck),
        ensures
            final(self).file == old(self).file,
            final(self).class == old(self).class,
            final(self).endian == old(self).endian,
            final(self).strtab == old(self).strtab,
            final(self).step == old(self).step,
            final(self).raw_mode == old(self).raw_mode,
            match scan(old(self)@) {
                Scan::End => r is None && final(self)@.remaining == 0,
                Scan::Stuck => false,
                Scan::Found(at, next) => r == Some(old(self).reader_at(at)) && final(self)@ == next,
            },
    {
        assert(self.file@.len() == self.file.len());
        loop
            invariant
                self.file == old(self).file,
                self.class == old(self).class,
                self.endian == old(self).endian,
                self.strtab == old(self).strtab,
                self.step == old(self).step,
                self.raw_mode == old(self).raw_mode,
                scan(self@) == scan(old(self)@),
                !(scan(self@) is Stuck),
                self.file@.len() == self.file.len(),
            decreases self.remaining_sections,
        {
            if self.remaining_sections == 0 {
                return None;
            }
            let off = self.cur_section_off;
            self.remaining_sections = self.remaining_sections - 1;
            self.cur_section_off = self.cur_section_off + self.step as u64;
            let sh_type = read_word(self.file, off + 4, self.endian).unwrap();
            if self.raw_mode || sh_type == 1 {
                return Some(
                    ElfSectionReader {
                        file: self.file,
                        off,
                        class: self.class,
                        endian: self.endian,
                        strtab: self.strtab,
                    },
                );
            }
        }
    }
}

impl<'a> SectionVisitor for ElfSectionVisitor<'a> {
    type Reader = ElfSectionReader<'a>;

    open spec fn ready(&self) -> bool {
        never_stuck(self@)
    }

    closed spec fn readers(&self) -> Seq<ElfSectionReader<'a>> {
        visited(self@).map_values(|off: int| self.reader_at(off))
    }

    fn accept_next(&mut self) -> (r: Option<ElfSectionReader<'a>>) {
        proof {
            lemma_scan(self@);
        }
        let ghost before = *self;
        let r = self.next_section();
        proof {
            match scan(before@) {
                Scan::Found(at, next) => {
                    assert(self.reader_at(at) == before.reader_at(at));
                    assert(self.readers() =~= before.readers().drop_first());
                },
                _ => {
                    assert(self.readers() =~= before.readers());
                },
            }
        }
        r
    }
}

/// What an ELF reader holds: the file, its header, whether it hands out every
/// section, and the section-name string table.
pub struct ReaderState {
    pub file: Seq<u8>,
    pub header: ElfHeaderFields,
    pub raw_mode: bool,
    pub strtab: Option<Seq<u8>>,
}

/// A visitor at the first section header of `r`.
pub open spec fn initial_state(r: ReaderState) -> VisitorState {
    VisitorState {
        file: r.file,
        remaining: r.header.shnum as nat,
        off: r.header.shoff as int,
        step: r.header.shentsize as int,
        class: r.header.class,
        endian: r.header.endian,
        strtab: r.strtab,
        raw_mode: r.raw_mode,
    }
}

/// The offset of section header number `k`.
pub open spec fn header_offset(h: ElfHeaderFields, k: int) -> int {
    h.shoff + k * h.shentsize
}

/// The section-name string table: the contents of section number `shstrndx`,
/// where there is such a section.
pub open spec fn string_table(file: Seq<u8>, h: ElfHeaderFields) -> Option<Seq<u8>> {
    if h.shstrndx < h.shnum {
        Some(section_data(file, header_offset(h, h.shstrndx as int), h.class, h.endian))
    } else {
        None
    }
}

/// The walk to the string table can be made: the types of the section headers
/// up to it (up to the last header, where there is no string table section) can
/// be read, and so can the string table's contents.
pub open spec fn string_table_readable(file: Seq<u8>, h: ElfHeaderFields) -> bool {
    let last = if h.shstrndx < h.shnum {
        h.shstrndx as int
    } else {
        h.shnum - 1
    };
    h.shnum > 0 ==> {
        &&& header_offset(h, last) + 8 <= file.len()
        &&& header_offset(h, last + 1) <= u64::MAX
        &&& h.shstrndx < h.shnum ==> data_readable(
            file,
            header_offset(h, h.shstrndx as int),
            h.class,
            h.endian,
        )
    }
}

/// Opening `file` does not fail on the way to the string table.
pub open spec fn opening_safe(file: Seq<u8>) -> bool {
    match parse_elf_header(file) {
        Ok(h) => string_table_readable(file, h),
        Err(_) => true,
    }
}

/// Reads the sections of an ELF file held in memory.
#[derive(Clone, Copy, Debug)]
pub struct ElfReader<'a> {
    file: &'a [u8],
    header: ElfHeaderFields,
    raw_mode: bool,
    strtab: Option<&'a [u8]>,
}

impl<'a> View for ElfReader<'a> {
    type V = ReaderState;

    closed spec fn view(&self) -> ReaderState {
        ReaderState {
            file: self.file@,
            header: self.header,
            raw_mode: self.raw_mode,
            strtab: match self.strtab {
                Some(t) => Some(t@),
                None => None,
            },
        }
    }
}

proof fn lemma_header_offsets(h: ElfHeaderFields, i: int, last: int)
    requires
        0 <= i <= last,
    ensures
        header_offset(h, i) <= header_offset(h, last),
        header_offset(h, i + 1) <= header_offset(h, last + 1),
        header_offset(h, i + 1) == header_offset(h, i) + h.shentsize,
{
    let s = h.shentsize as int;
    assert(i * s <= last * s) by (nonlinear_arith)
        requires
            0 <= i <= last,
            0 <= s,
    ;
    assert((i + 1) * s <= (last + 1) * s) by (nonlinear_arith)
        requires
            0 <= i <= last,
            0 <= s,
    ;
    assert((i + 1) * s == i * s + s) by (nonlinear_arith);
}

impl<'a> ElfReader<'a> {
    /// Opens the ELF file `file`: reads its header, then the section-name string
    /// table (handing out every section on the way).
    pub fn new(file: &'a [u8]) -> (r: Result<Self, ReadError>)
        requires
            opening_safe(file@),
        ensures
            match r {
                Ok(rd) => {
                    &&& parse_elf_header(file@) == Ok::<ElfHeaderFields, ReadError>(rd@.header)
                    &&& rd@.file == file@
                    &&& !rd@.raw_mode
                    &&& rd@.strtab == string_table(file@, rd@.header)
                },
                Err(e) => parse_elf_header(file@) == Err::<ElfHeaderFields, ReadError>(e),
            },
    {
        let header = read_header(file)?;
        let mut result = ElfReader { file, header, raw_mode: true, strtab: None };
        let strtab = result.find_strtab();
        result.strtab = strtab;
        result.raw_mode = false;
        Ok(result)
    }

    /// The contents of section number `shstrndx`, found by handing out every
    /// section in turn.
    fn find_strtab(&mut self) -> (r: Option<&'a [u8]>)
        requires
            old(self).raw_mode,
            string_table_readable(old(self)@.file, old(self)@.header),
        ensures
            *final(self) == *old(self),
            match r {
                Some(t) => string_table(old(self)@.file, old(self)@.header) == Some(t@),
                None => string_table(old(self)@.file, old(self)@.header) is None,
            },
    {
        let ghost h = self.header;
        let ghost file = self.file@;
        let ghost last = if h.shstrndx < h.shnum {
            h.shstrndx as int
        } else {
            h.shnum - 1
        };
        let mut sections = ElfSectionVisitor::new(self);
        let mut sections_to_go = self.header.shstrndx;
        let ghost mut i: int = 0;
        loop
            invariant
                0 <= i <= h.shnum,
                i + sections_to_go == h.shstrndx,
                sections@ == (VisitorState {
                    remaining: (h.shnum - i) as nat,
                    off: header_offset(h, i),
                    ..initial_state(self@)
                }),
                *self == *old(self),
                self@.file == file,
                self@.header == h,
                self.raw_mode,
                h.shnum > 0 ==> i <= last + 1,
                h.shstrndx < h.shnum ==> i <= h.shstrndx,
                string_table_readable(file, h),
                last == (if h.shstrndx < h.shnum {
                    h.shstrndx as int
                } else {
                    h.shnum - 1
                }),
            decreases h.shnum - i,
        {
            proof {
                if i < h.shnum {
                    lemma_header_offsets(h, i, last);
                }
            }
            match sections.next_section() {
                None => {
                    return None;
                },
                Some(section) => {
                    if sections_to_go == 0 {
                        return Some(section.data_slice());
                    }
                    sections_to_go = sections_to_go - 1;
                    proof {
                        i = i + 1;
                    }
                },
            }
        }
    }

    /// Whether `new` can be called on `file`: it can where the file header is
    /// refused, or where the walk to the string table can be made.
    pub fn can_open(file: &[u8]) -> (r: bool)
        ensures
            r == opening_safe(file@),
    {
        let h = match read_header(file) {
            Ok(h) => h,
            Err(_) => {
                return true;
            },
        };
        if h.shnum == 0 {
            return true;
        }
        let last: u16 = if h.shstrndx < h.shnum {
            h.shstrndx
        } else {
            h.shnum - 1
        };
        let step = h.shentsize as u128;
        assert((last as int) * (step as int) <= 0xffff * 0xffff) by (nonlinear_arith)
            requires
                last <= 0xffff,
                step <= 0xffff,
        ;
        let off = h.shoff as u128 + last as u128 * step;
        assert((last + 1) * (step as int) == last * step + step) by (nonlinear_arith);
        assert(off == header_offset(h, last as int));
        let len = file.len() as u128;
        assert(file@.len() == file.len());
        if off + 8 > len || off + step > 0xffff_ffff_ffff_ffff {
            return false;
        }
        if h.shstrndx >= h.shnum {
            return true;
        }
        let at = off + h.class.either(16, 24);
        let w = h.class.either(4, 8);
        if at + 2 * w > len {
            return false;
        }
        let start = read_addr(file, at as u64, h.class, h.endian).unwrap();
        let size = read_addr(file, (at + w) as u64, h.class, h.endian).unwrap();
        start as u128 + size as u128 <= len
    }

    /// The fields of the file header that the reader keeps.
    pub fn header(&self) -> (r: ElfHeaderFields)
        ensures
            r == self@.header,
    {
        self.header
    }
}

impl<'a> ObjectFileReader for ElfReader<'a> {
    type Visitor = ElfSectionVisitor<'a>;

    open spec fn sections_ok(&self) -> bool {
        never_stuck(initial_state(self@))
    }

    closed spec fn section_readers(&self) -> Seq<ElfSectionReader<'a>> {
        visited(initial_state(self@)).map_values(
            |off: int| ElfSectionVisitor::visitor_of(*self).reader_at(off),
        )
    }

    fn sections(&mut self) -> (v: ElfSectionVisitor<'a>) {
        let v = ElfSectionVisitor::new(self);
        assert(v.readers() =~= self.section_readers());
        v
    }
}


/// The name read from a string table: where `s` has a zero byte, the bytes
/// before the first one, none of which is zero; where it has none, no name.
pub proof fn lemma_c_string(s: Seq<u8>)
    ensures
        match c_string(s) {
            Some(n) => {
                &&& n.len() < s.len()
                &&& s.take(n.len() as int) == n
                &&& s[n.len() as int] == 0
                &&& forall|i: int| 0 <= i < n.len() ==> n[i] != 0
            },
            None => forall|i: int| 0 <= i < s.len() ==> s[i] != 0,
        },
    decreases s.len(),
{
    if s.len() > 0 && s[0] != 0 {
        lemma_c_string(s.drop_first());
        match c_string(s.drop_first()) {
            Some(n) => {
                assert(s.take(n.len() as int + 1) =~= seq![s[0]] + s.drop_first().take(n.len() as int));
                assert forall|i: int| 0 <= i < n.len() + 1 implies (seq![s[0]] + n)[i] != 0 by {
                    if i > 0 {
                        assert((seq![s[0]] + n)[i] == n[i - 1]);
                    }
                }
            },
            None => {
                assert forall|i: int| 0 <= i < s.len() implies s[i] != 0 by {
                    if i > 0 {
                        assert(s[i] == s.drop_first()[i - 1]);
                    }
                }
            },
        }
    }
}

/// In raw mode the visitor hands out every remaining section header, in the
/// order of the table.
pub proof fn lemma_raw_mode_visits_every_header(v: VisitorState)
    requires
        v.raw_mode,
    ensures
        visited(v).len() == v.remaining,
        forall|k: int| 0 <= k < v.remaining ==> #[trigger] visited(v)[k] == v.off + k * v.step,
    decreases v.remaining,
{
    if v.remaining > 0 {
        let w = advanced(v);
        lemma_raw_mode_visits_every_header(w);
        assert(visited(v) == seq![v.off] + visited(w));
        assert forall|k: int| 0 <= k < v.remaining implies #[trigger] visited(v)[k] == v.off + k
            * v.step by {
            if k > 0 {
                assert(visited(v)[k] == visited(w)[k - 1]);
                assert(visited(w)[k - 1] == w.off + (k - 1) * w.step);
                assert(w.off + (k - 1) * w.step == v.off + k * v.step) by (nonlinear_arith)
                    requires
                        w.off == v.off + v.step,
                        w.step == v.step,
                ;
            } else {
                assert(visited(v)[0] == v.off);
                assert(0 * v.step == 0);
            }
        }
    }
}

/// Outside raw mode the visitor hands out exactly the section headers of type
/// `SHT_PROGBITS`, in the order of the table.
pub proof fn lemma_visits_progbits(v: VisitorState)
    requires
        !v.raw_mode,
        v.step >= 0,
    ensures
        forall|i: int|
            0 <= i < visited(v).len() ==> section_type(v.file, #[trigger] visited(v)[i], v.endian)
                == progbits(),
        forall|i: int, j: int|
            0 <= i < j < visited(v).len() ==> #[trigger] visited(v)[i] < #[trigger] visited(v)[j]
                || v.step == 0,
        forall|k: int|
            0 <= k < v.remaining && section_type(v.file, v.off + k * v.step, v.endian) == progbits()
                ==> #[trigger] visited(v).contains(v.off + k * v.step),
    decreases v.remaining,
{
    if v.remaining > 0 {
        let w = advanced(v);
        lemma_visits_progbits(w);
        lemma_visited_from(w);
        if yields(v) {
            assert(visited(v) == seq![v.off] + visited(w));
        } else {
            assert(visited(v) == visited(w));
        }
        assert forall|i: int|
            0 <= i < visited(v).len() implies section_type(v.file, #[trigger] visited(v)[i], v.endian)
                == progbits() by {
            if yields(v) && i > 0 {
                assert(visited(v)[i] == visited(w)[i - 1]);
            }
        }
        assert forall|k: int|
            0 <= k < v.remaining && section_type(v.file, v.off + k * v.step, v.endian)
                == progbits() implies #[trigger] visited(v).contains(v.off + k * v.step) by {
            if k == 0 {
                assert(0 * v.step == 0);
                assert(visited(v)[0] == v.off);
            } else {
                let o = v.off + k * v.step;
                assert(w.off + (k - 1) * w.step == o) by (nonlinear_arith)
                    requires
                        w.off == v.off + v.step,
                        w.step == v.step,
                        o == v.off + k * v.step,
                ;
                assert(visited(w).contains(w.off + (k - 1) * w.step));
                let i = choose|i: int| 0 <= i < visited(w).len() && visited(w)[i] == o;
                if yields(v) {
                    assert(visited(v)[i + 1] == visited(w)[i]);
                } else {
                    assert(visited(v)[i] == visited(w)[i]);
                }
            }
        }
        assert forall|i: int, j: int| 0 <= i < j < visited(v).len() implies #[trigger] visited(v)[i]
            < #[trigger] visited(v)[j] || v.step == 0 by {
            if yields(v) {
                if i == 0 {
                    assert(visited(v)[j] == visited(w)[j - 1]);
                } else {
                    assert(visited(v)[i] == visited(w)[i - 1]);
                    assert(visited(v)[j] == visited(w)[j - 1]);
                }
            }
        }
    }
}

/// The offsets handed out from `v` on are those of headers at or after `v.off`.
proof fn lemma_visited_from(v: VisitorState)
    requires
        v.step >= 0,
    ensures
        forall|i: int| 0 <= i < visited(v).len() ==> #[trigger] visited(v)[i] >= v.off,
    decreases v.remaining,
{
    if v.remaining > 0 {
        let w = advanced(v);
        lemma_visited_from(w);
        if yields(v) {
            assert(visited(v) == seq![v.off] + visited(w));
            assert forall|i: int| 0 <= i < visited(v).len() implies #[trigger] visited(v)[i] >= v.off by {
                if i > 0 {
                    assert(visited(v)[i] == visited(w)[i - 1]);
                }
            }
        }
    }
}

/// Where the visitor never gets stuck, every header it hands out can have its
/// type read.
proof fn lemma_visited_readable(v: VisitorState)
    requires
        never_stuck(v),
        v.off >= 0,
        v.step >= 0,
    ensures
        forall|i: int|
            0 <= i < visited(v).len() ==> 0 <= #[trigger] visited(v)[i] && visited(v)[i] + 8
                <= v.file.len(),
    decreases v.remaining,
{
    if v.remaining > 0 {
        let w = advanced(v);
        lemma_visited_readable(w);
        if yields(v) {
            assert(visited(v) == seq![v.off] + visited(w));
            assert forall|i: int| 0 <= i < visited(v).len() implies 0 <= #[trigger] visited(v)[i]
                && visited(v)[i] + 8 <= v.file.len() by {
                if i > 0 {
                    assert(visited(v)[i] == visited(w)[i - 1]);
                }
            }
        }
    }
}

/// The readers that the sections of an ELF reader hand out read the section
/// headers at the offsets of `visited`, with the reader's file, class, byte
/// order and string table.
pub proof fn lemma_section_readers<'a>(r: ElfReader<'a>)
    requires
        r.sections_ok(),
    ensures
        r.section_readers().len() == visited(initial_state(r@)).len(),
        forall|i: int|
            0 <= i < r.section_readers().len() ==> (#[trigger] r.section_readers()[i])@ == (SectionAt {
                file: r@.file,
                off: visited(initial_state(r@))[i],
                class: r@.header.class,
                endian: r@.header.endian,
                strtab: r@.strtab,
            }),
{
    lemma_visited_readable(initial_state(r@));
    assert(r@.file.len() == r.file.len());
}

/// The two ways of reading the file header agree. For the bytes that the raw
/// loader loads as an `ElfFile`, the reader accepts the header exactly when the
/// raw validation accepts it and the class byte names a class (the raw loader
/// does not check the class). The raw validation then leaves the reader's byte
/// order in the context, the raw loader picks the reader's layout, and the
/// fields of the section table read in that byte order are the ones the reader
/// keeps.
pub proof fn lemma_header_readers_agree(file: Seq<u8>, f: ElfFile, endian: Endian)
    requires
        ElfFile::fits(0, file),
        f.loaded_from(0, file),
    ensures
        (parse_elf_header(file) is Ok) <==> (f.validation(&(), endian).0 is Ok && (file[4] == 1
            || file[4] == 2)),
        parse_elf_header(file) matches Ok(h) ==> {
            &&& f.validation(&(), endian).1 == (if file[5] == 2 {
                Endian::Big
            } else {
                Endian::Little
            })
            &&& h.endian == (if file[5] == 2 {
                Endian::Big
            } else {
                Endian::Little
            })
            &&& f.validation(&(), endian).1 == h.endian
            &&& match f@.variable_header {
                ElfVariableHeader::Elf64(v) => {
                    &&& h.class == Class::Elf64
                    &&& v.phoff.read_spec(h.endian) == h.phoff
                    &&& v.shoff.read_spec(h.endian) == h.shoff
                    &&& v.phentsize.read_spec(h.endian) == h.phentsize
                    &&& v.shentsize.read_spec(h.endian) == h.shentsize
                    &&& v.phnum.read_spec(h.endian) == h.phnum
                    &&& v.shnum.read_spec(h.endian) == h.shnum
                    &&& v.shstrndx.read_spec(h.endian) == h.shstrndx
                },
                ElfVariableHeader::Elf32(v) => {
                    &&& h.class == Class::Elf32
                    &&& v.phoff.read_spec(h.endian) as u64 == h.phoff
                    &&& v.shoff.read_spec(h.endian) as u64 == h.shoff
                    &&& v.phentsize.read_spec(h.endian) == h.phentsize
                    &&& v.shentsize.read_spec(h.endian) == h.shentsize
                    &&& v.phnum.read_spec(h.endian) == h.phnum
                    &&& v.shnum.read_spec(h.endian) == h.shnum
                    &&& v.shstrndx.read_spec(h.endian) == h.shstrndx
                },
            }
        },
{
    let hd = f@;
    assert(hd.ident.version.0@ == seq![1u8] <==> file[6] == 1) by {
        assert(file.subrange(6, 7) =~= seq![file[6]]);
    }
    assert(hd.ident.data.0 == file[5]);
    if parse_elf_header(file) is Ok {
        let e = if file[5] == 2 {
            Endian::Big
        } else {
            Endian::Little
        };
        lemma_uint_value_bound(file.subrange(32, 36), e);
        lemma_uint_value_bound(file.subrange(28, 32), e);
        lemma_pow256_values();
    }
}


/// What the reader of a section of a 32-bit file reads, stated against the
/// 32-bit section header laid out at its offset: the section type is the
/// header's `ty`, the size in memory is its `size`, the contents are the bytes
/// of the file from `offset` for `size` bytes, and the name is the string of
/// the string table that starts at `name` and ends at the first zero byte from
/// there (none where there is no string table or no such zero byte).
pub proof fn lemma_elf32_section_reader<'a>(r: ElfSectionReader<'a>, h: Elf32SectionHeader)
    requires
        r@.class == Class::Elf32,
        Elf32SectionHeader::fits(r@.off, r@.file),
        h.loaded_from(r@.off, r@.file),
    ensures
        section_type(r@.file, r@.off, r@.endian) == h.ty.read_spec(r@.endian),
        r.mem_size_ok(),
        r.mem_size_spec() == h.size.read_spec(r@.endian),
        r.data_ok() <==> h.offset.read_spec(r@.endian) + h.size.read_spec(r@.endian) <= r@.file.len(),
        r.data_spec() == r@.file.subrange(
            h.offset.read_spec(r@.endian) as int,
            h.offset.read_spec(r@.endian) + h.size.read_spec(r@.endian),
        ),
        r@.strtab is None ==> r.name_spec() is None,
        r@.strtab matches Some(t) ==> {
            let n = h.name.read_spec(r@.endian) as int;
            &&& r.name_ok() == (n <= t.len())
            &&& forall|j: int|
                n <= j < t.len() && #[trigger] t[j] == 0 && (forall|k: int| n <= k < j ==> t[k] != 0)
                    ==> r.name_spec() == Some(t.subrange(n, j))
            &&& (n <= t.len() && forall|k: int| n <= k < t.len() ==> t[k] != 0) ==> r.name_spec() is None
        },
{
    let e = r@.endian;
    let file = r@.file;
    let off = r@.off;
    lemma_pow256_values();
    lemma_uint_value_bound(h.name@, e);
    lemma_uint_value_bound(h.ty@, e);
    lemma_uint_value_bound(h.offset@, e);
    lemma_uint_value_bound(h.size@, e);
    match r@.strtab {
        Some(t) => {
            let n = h.name.read_spec(e) as int;
            assert(field(file, off, 4, e) == n);
            assert forall|j: int|
                n <= j < t.len() && #[trigger] t[j] == 0 && (forall|k: int| n <= k < j ==> t[k] != 0)
                    implies r.name_spec() == Some(t.subrange(n, j)) by {
                let sub = t.subrange(n, t.len() as int);
                assert forall|i: int| 0 <= i < j - n implies sub[i] != 0 by {
                    assert(sub[i] == t[n + i]);
                }
                lemma_c_string_found(sub, j - n);
                assert(sub.take(j - n) =~= t.subrange(n, j));
            }
            if n <= t.len() && forall|k: int| n <= k < t.len() ==> t[k] != 0 {
                let sub = t.subrange(n, t.len() as int);
                assert forall|i: int| 0 <= i < sub.len() implies sub[i] != 0 by {
                    assert(sub[i] == t[n + i]);
                }
                lemma_c_string_none(sub);
            }
        },
        None => {},
    }
}

/// What the reader of a section of a 64-bit file reads, stated against the
/// 64-bit section header laid out at its offset: the section type is the
/// header's `ty`, the size in memory is its `size`, the contents are the bytes
/// of the file from `offset` for `size` bytes, and the name is the string of
/// the string table that starts at `name` and ends at the first zero byte from
/// there (none where there is no string table or no such zero byte).
pub proof fn lemma_elf64_section_reader<'a>(r: ElfSectionReader<'a>, h: Elf64SectionHeader)
    requires
        r@.class == Class::Elf64,
        Elf64SectionHeader::fits(r@.off, r@.file),
        h.loaded_from(r@.off, r@.file),
    ensures
        section_type(r@.file, r@.off, r@.endian) == h.ty.read_spec(r@.endian),
        r.mem_size_ok(),
        r.mem_size_spec() == h.size.read_spec(r@.endian),
        r.data_ok() <==> h.offset.read_spec(r@.endian) + h.size.read_spec(r@.endian) <= r@.file.len(),
        r.data_spec() == r@.file.subrange(
            h.offset.read_spec(r@.endian) as int,
            h.offset.read_spec(r@.endian) + h.size.read_spec(r@.endian),
        ),
        r@.strtab is None ==> r.name_spec() is None,
        r@.strtab matches Some(t) ==> {
            let n = h.name.read_spec(r@.endian) as int;
            &&& r.name_ok() == (n <= t.len())
            &&& forall|j: int|
                n <= j < t.len() && #[trigger] t[j] == 0 && (forall|k: int| n <= k < j ==> t[k] != 0)
                    ==> r.name_spec() == Some(t.subrange(n, j))
            &&& (n <= t.len() && forall|k: int| n <= k < t.len() ==> t[k] != 0) ==> r.name_spec() is None
        },
{
    let e = r@.endian;
    let file = r@.file;
    let off = r@.off;
    lemma_pow256_values();
    lemma_uint_value_bound(h.name@, e);
    lemma_uint_value_bound(h.ty@, e);
    lemma_uint_value_bound(h.offset@, e);
    lemma_uint_value_bound(h.size@, e);
    match r@.strtab {
        Some(t) => {
            let n = h.name.read_spec(e) as int;
            assert(field(file, off, 4, e) == n);
            assert forall|j: int|
                n <= j < t.len() && #[trigger] t[j] == 0 && (forall|k: int| n <= k < j ==> t[k] != 0)
                    implies r.name_spec() == Some(t.subrange(n, j)) by {
                let sub = t.subrange(n, t.len() as int);
                assert forall|i: int| 0 <= i < j - n implies sub[i] != 0 by {
                    assert(sub[i] == t[n + i]);
                }
                lemma_c_string_found(sub, j - n);
                assert(sub.take(j - n) =~= t.subrange(n, j));
            }
            if n <= t.len() && forall|k: int| n <= k < t.len() ==> t[k] != 0 {
                let sub = t.subrange(n, t.len() as int);
                assert forall|i: int| 0 <= i < sub.len() implies sub[i] != 0 by {
                    assert(sub[i] == t[n + i]);
                }
                lemma_c_string_none(sub);
            }
        },
        None => {},
    }
}

/// Outside raw mode the visitor hands out the section header number `k` exactly
/// when the type field of that header, in the layout of the file's class and
/// read in the file's byte order, is 1 (`SHT_PROGBITS`).
pub proof fn lemma_visits_by_header_type(
    v: VisitorState,
    k: int,
    h32: Elf32SectionHeader,
    h64: Elf64SectionHeader,
)
    requires
        !v.raw_mode,
        v.step >= 0,
        0 <= k < v.remaining,
        v.class == Class::Elf32 ==> Elf32SectionHeader::fits(v.off + k * v.step, v.file)
            && h32.loaded_from(v.off + k * v.step, v.file),
        v.class == Class::Elf64 ==> Elf64SectionHeader::fits(v.off + k * v.step, v.file)
            && h64.loaded_from(v.off + k * v.step, v.file),
    ensures
        visited(v).contains(v.off + k * v.step) <==> (match v.class {
            Class::Elf32 => h32.ty.read_spec(v.endian),
            Class::Elf64 => h64.ty.read_spec(v.endian),
        }) == 1,
{
    let o = v.off + k * v.step;
    lemma_visits_progbits(v);
    lemma_pow256_values();
    lemma_uint_value_bound(h32.ty@, v.endian);
    lemma_uint_value_bound(h64.ty@, v.endian);
    if visited(v).contains(o) {
        let i = choose|i: int| 0 <= i < visited(v).len() && visited(v)[i] == o;
        assert(section_type(v.file, visited(v)[i], v.endian) == progbits());
    }
}


/// The sections that an opened ELF reader hands out: section number `k`
/// (`k < shnum`), whose header is at `shoff + k * shentsize`, is handed out
/// exactly when the type field of that header, in the layout of the file's
/// class and read in the file's byte order, is 1 (`SHT_PROGBITS`).
pub proof fn lemma_reader_visits_progbits_sections<'a>(
    r: ElfReader<'a>,
    k: int,
    h32: Elf32SectionHeader,
    h64: Elf64SectionHeader,
)
    requires
        !r@.raw_mode,
        0 <= k < r@.header.shnum,
        r@.header.class == Class::Elf32 ==> Elf32SectionHeader::fits(
            r@.header.shoff + k * r@.header.shentsize,
            r@.file,
        ) && h32.loaded_from(r@.header.shoff + k * r@.header.shentsize, r@.file),
        r@.header.class == Class::Elf64 ==> Elf64SectionHeader::fits(
            r@.header.shoff + k * r@.header.shentsize,
            r@.file,
        ) && h64.loaded_from(r@.header.shoff + k * r@.header.shentsize, r@.file),
    ensures
        visited(initial_state(r@)).contains(r@.header.shoff + k * r@.header.shentsize) <==> (
        match r@.header.class {
            Class::Elf32 => h32.ty.read_spec(r@.header.endian),
            Class::Elf64 => h64.ty.read_spec(r@.header.endian),
        }) == 1,
{
    lemma_visits_by_header_type(initial_state(r@), k, h32, h64);
}

/// The section-name string table kept by the reader is the contents of section
/// number `shstrndx`: the bytes of the file from the `offset` field of its
/// header (at `shoff + shstrndx * shentsize`, in the layout of the file's
/// class) for `size` bytes; and it can be read exactly when those bytes lie in
/// the file.
pub proof fn lemma_string_table_contents(
    file: Seq<u8>,
    h: ElfHeaderFields,
    h32: Elf32SectionHeader,
    h64: Elf64SectionHeader,
)
    requires
        h.shstrndx < h.shnum,
        h.class == Class::Elf32 ==> Elf32SectionHeader::fits(
            h.shoff + h.shstrndx * h.shentsize,
            file,
        ) && h32.loaded_from(h.shoff + h.shstrndx * h.shentsize, file),
        h.class == Class::Elf64 ==> Elf64SectionHeader::fits(
            h.shoff + h.shstrndx * h.shentsize,
            file,
        ) && h64.loaded_from(h.shoff + h.shstrndx * h.shentsize, file),
    ensures
        ({
            let (start, size) = match h.class {
                Class::Elf32 => (
                    h32.offset.read_spec(h.endian) as int,
                    h32.size.read_spec(h.endian) as int,
                ),
                Class::Elf64 => (
                    h64.offset.read_spec(h.endian) as int,
                    h64.size.read_spec(h.endian) as int,
                ),
            };
            &&& string_table(file, h) == Some(file.subrange(start, start + size))
            &&& data_readable(file, header_offset(h, h.shstrndx as int), h.class, h.endian) <==> start
                + size <= file.len()
        }),
{
    lemma_pow256_values();
    lemma_uint_value_bound(h32.offset@, h.endian);
    lemma_uint_value_bound(h32.size@, h.endian);
    lemma_uint_value_bound(h64.offset@, h.endian);
    lemma_uint_value_bound(h64.size@, h.endian);
}

} // verus!
