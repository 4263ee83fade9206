use vstd::prelude::*;

use super::helpers::context::{BinContext, Endian};
use super::helpers::primitives::{lemma_uint_value_single, U16, U32, U64, U8};
use super::helpers::{magic_message, BinField, BinFieldError, EndianFlag, Magic, Pad};

verus! {

/// The four bytes with which every ELF file starts: `0x7f`, `E`, `L`, `F`.
pub open spec fn elf_magic() -> Seq<u8> {
    seq![0x7fu8, 0x45u8, 0x4cu8, 0x46u8]
}

/// The identification bytes at the start of an ELF file.
#[derive(Clone, Copy, Debug)]
pub struct ElfIdent {
    pub magic: Magic<4>,
    pub class: U8,
    pub data: EndianFlag<1, 2>,
    pub version: Magic<1>,
    pub osabi: U8,
    pub abi_version: U8,
    pub pad: Pad<7>,
}

impl BinField for ElfIdent {
    type ValidateParams = ();

    type Data = Self;

    open spec fn fits(off: int, file: Seq<u8>) -> bool {
        0 <= off && off + 16 <= file.len()
    }

    open spec fn loaded_from(&self, off: int, file: Seq<u8>) -> bool {
        &&& self.magic.loaded_from(off, file)
        &&& self.class.loaded_from(off + 4, file)
        &&& self.data.loaded_from(off + 5, file)
        &&& self.version.loaded_from(off + 6, file)
        &&& self.osabi.loaded_from(off + 7, file)
        &&& self.abi_version.loaded_from(off + 8, file)
        &&& self.pad.loaded_from(off + 9, file)
    }

    /// The magic must be the ELF magic, the data byte must name a byte order
    /// (1 little-endian, 2 big-endian; this sets the context's byte order), and
    /// the version must be 1. The other fields are accepted as they are.
    open spec fn validation(&self, params: &(), endian: Endian) -> (Result<(), Seq<char>>, Endian) {
        if self.magic.0@ != elf_magic() {
            (Err(magic_message(self.magic.0@)), endian)
        } else {
            let (r, e) = self.data.validation(&(), endian);
            if r is Err {
                (r, e)
            } else if self.version.0@ != seq![1u8] {
                (Err(magic_message(self.version.0@)), e)
            } else {
                (Ok(()), e)
            }
        }
    }

    open spec fn read_spec(&self, endian: Endian) -> Self {
        *self
    }

    fn load(off: usize, context: &BinContext<'_>) -> (r: Self) {
        assert(context.raw_file@.len() == context.raw_file.len());
        ElfIdent {
            magic: Magic::load(off, context),
            class: U8::load(off + 4, context),
            data: EndianFlag::load(off + 5, context),
            version: Magic::load(off + 6, context),
            osabi: U8::load(off + 7, context),
            abi_version: U8::load(off + 8, context),
            pad: Pad::load(off + 9, context),
        }
    }

    fn validate(&self, params: &(), context: &mut BinContext<'_>) -> (r: Result<(), BinFieldError>) {
        let elf: [[u8; 4]; 1] = [[0x7f, 0x45, 0x4c, 0x46]];
        assert(elf@[0]@ =~= elf_magic());
        self.magic.validate(elf.as_slice(), context)?;
        self.class.validate(&(), context)?;
        self.data.validate(&(), context)?;
        let one: [[u8; 1]; 1] = [[1]];
        assert(one@[0]@ =~= seq![1u8]);
        self.version.validate(one.as_slice(), context)?;
        self.osabi.validate(&(), context)?;
        self.abi_version.validate(&(), context)?;
        self.pad.validate(&(), context)?;
        Ok(())
    }

    fn read(&self, context: &BinContext<'_>) -> (r: Self) {
        *self
    }
}

/// The part of the ELF file header that follows the identification bytes, in
/// the 32-bit layout.
#[derive(Clone, Copy, Debug)]
pub struct Elf32Header {
    pub ty: U16,
    pub machine: U16,
    pub version: U32,
    pub entry: U32,
    pub phoff: U32,
    pub shoff: U32,
    pub flags: U32,
    pub ehsize: U16,
    pub phentsize: U16,
    pub phnum: U16,
    pub shentsize: U16,
    pub shnum: U16,
    pub shstrndx: U16,
}

impl BinField for Elf32Header {
    type ValidateParams = ();

    type Data = Self;

    open spec fn fits(off: int, file: Seq<u8>) -> bool {
        0 <= off && off + 36 <= file.len()
    }

    open spec fn loaded_from(&self, off: int, file: Seq<u8>) -> bool {
        &&& self.ty.loaded_from(off + 0, file)
        &&& self.machine.loaded_from(off + 2, file)
        &&& self.version.loaded_from(off + 4, file)
        &&& self.entry.loaded_from(off + 8, file)
        &&& self.phoff.loaded_from(off + 12, file)
        &&& self.shoff.loaded_from(off + 16, file)
        &&& self.flags.loaded_from(off + 20, file)
        &&& self.ehsize.loaded_from(off + 24, file)
        &&& self.phentsize.loaded_from(off + 26, file)
        &&& self.phnum.loaded_from(off + 28, file)
        &&& self.shentsize.loaded_from(off + 30, file)
        &&& self.shnum.loaded_from(off + 32, file)
        &&& self.shstrndx.loaded_from(off + 34, file)
    }

    open spec fn validation(&self, params: &(), endian: Endian) -> (Result<(), Seq<char>>, Endian) {
        (Ok(()), endian)
    }

    open spec fn read_spec(&self, endian: Endian) -> Self {
        *self
    }

    fn load(off: usize, context: &BinContext<'_>) -> (r: Self) {
        assert(context.raw_file@.len() == context.raw_file.len());
        Elf32Header {
            ty: U16::load(off + 0, context),
            machine: U16::load(off + 2, context),
            version: U32::load(off + 4, context),
            entry: U32::load(off + 8, context),
            phoff: U32::load(off + 12, context),
            shoff: U32::load(off + 16, context),
            flags: U32::load(off + 20, context),
            ehsize: U16::load(off + 24, context),
            phentsize: U16::load(off + 26, context),
            phnum: U16::load(off + 28, context),
            shentsize: U16::load(off + 30, context),
            shnum: U16::load(off + 32, context),
            shstrndx: U16::load(off + 34, context),
        }
    }

    fn validate(&self, params: &(), context: &mut BinContext<'_>) -> (r: Result<(), BinFieldError>) {
        Ok(())
    }

    fn read(&self, context: &BinContext<'_>) -> (r: Self) {
        *self
    }
}

/// The part of the ELF file header that follows the identification bytes, in
/// the 64-bit layout.
#[derive(Clone, Copy, Debug)]
pub struct Elf64Header {
    pub ty: U16,
    pub machine: U16,
    pub version: U32,
    pub entry: U64,
    pub phoff: U64,
    pub shoff: U64,
    pub flags: U32,
    pub ehsize: U16,
    pub phentsize: U16,
    pub phnum: U16,
    pub shentsize: U16,
    pub shnum: U16,
    pub shstrndx: U16,
}

impl BinField for Elf64Header {
    type ValidateParams = ();

    type Data = Self;

    open spec fn fits(off: int, file: Seq<u8>) -> bool {
        0 <= off && off + 48 <= file.len()
    }

    open spec fn loaded_from(&self, off: int, file: Seq<u8>) -> bool {
        &&& self.ty.loaded_from(off + 0, file)
        &&& self.machine.loaded_from(off + 2, file)
        &&& self.version.loaded_from(off + 4, file)
        &&& self.entry.loaded_from(off + 8, file)
        &&& self.phoff.loaded_from(off + 16, file)
        &&& self.shoff.loaded_from(off + 24, file)
        &&& self.flags.loaded_from(off + 32, file)
        &&& self.ehsize.loaded_from(off + 36, file)
        &&& self.phentsize.loaded_from(off + 38, file)
        &&& self.phnum.loaded_from(off + 40, file)
        &&& self.shentsize.loaded_from(off + 42, file)
        &&& self.shnum.loaded_from(off + 44, file)
        &&& self.shstrndx.loaded_from(off + 46, file)
    }

    open spec fn validation(&self, params: &(), endian: Endian) -> (Result<(), Seq<char>>, Endian) {
        (Ok(()), endian)
    }

    open spec fn read_spec(&self, endian: Endian) -> Self {
        *self
    }

    fn load(off: usize, context: &BinContext<'_>) -> (r: Self) {
        assert(context.raw_file@.len() == context.raw_file.len());
        Elf64Header {
            ty: U16::load(off + 0, context),
            machine: U16::load(off + 2, context),
            version: U32::load(off + 4, context),
            entry: U64::load(off + 8, context),
            phoff: U64::load(off + 16, context),
            shoff: U64::load(off + 24, context),
            flags: U32::load(off + 32, context),
            ehsize: U16::load(off + 36, context),
            phentsize: U16::load(off + 38, context),
            phnum: U16::load(off + 40, context),
            shentsize: U16::load(off + 42, context),
            shnum: U16::load(off + 44, context),
            shstrndx: U16::load(off + 46, context),
        }
    }

    fn validate(&self, params: &(), context: &mut BinContext<'_>) -> (r: Result<(), BinFieldError>) {
        Ok(())
    }

    fn read(&self, context: &BinContext<'_>) -> (r: Self) {
        *self
    }
}

/// The part of the ELF file header that follows the identification bytes, in
/// the layout that the class byte selects.
#[derive(Clone, Copy, Debug)]
pub enum ElfVariableHeader {
    Elf32(Elf32Header),
    Elf64(Elf64Header),
}

/// The ELF file header: identification bytes, then the layout that the class
/// byte selects, read at offset 16 of the file.
#[derive(Clone, Copy, Debug)]
pub struct ElfHeader {
    pub ident: ElfIdent,
    pub variable_header: ElfVariableHeader,
}

impl BinField for ElfHeader {
    type ValidateParams = ();

    type Data = Self;

    /// Class 2 selects the 64-bit layout; any other class the 32-bit one.
    open spec fn fits(off: int, file: Seq<u8>) -> bool {
        &&& 0 <= off
        &&& off + 16 <= file.len()
        &&& file[off + 4] == 2 ==> 16 + 48 <= file.len()
        &&& file[off + 4] != 2 ==> 16 + 36 <= file.len()
    }

    open spec fn loaded_from(&self, off: int, file: Seq<u8>) -> bool {
        &&& self.ident.loaded_from(off, file)
        &&& match self.variable_header {
            ElfVariableHeader::Elf64(h) => file[off + 4] == 2 && h.loaded_from(16, file),
            ElfVariableHeader::Elf32(h) => file[off + 4] != 2 && h.loaded_from(16, file),
        }
    }

    open spec fn validation(&self, params: &(), endian: Endian) -> (Result<(), Seq<char>>, Endian) {
        self.ident.validation(&(), endian)
    }

    open spec fn read_spec(&self, endian: Endian) -> Self {
        *self
    }

    fn load(off: usize, context: &BinContext<'_>) -> (r: Self) {
        let ident = ElfIdent::load(off, context);
        proof {
            lemma_uint_value_single(ident.class@, context.endian);
        }
        let variable_header = if ident.class.read(context) == 2 {
            ElfVariableHeader::Elf64(Elf64Header::load(16, context))
        } else {
            ElfVariableHeader::Elf32(Elf32Header::load(16, context))
        };
        ElfHeader { ident, variable_header }
    }

    fn validate(&self, params: &(), context: &mut BinContext<'_>) -> (r: Result<(), BinFieldError>) {
        self.ident.validate(&(), context)
    }

    fn read(&self, context: &BinContext<'_>) -> (r: Self) {
        *self
    }
}

/// An ELF file, as far as its file header.
#[derive(Clone, Copy, Debug)]
pub struct ElfFile {
    header: ElfHeader,
}

impl View for ElfFile {
    type V = ElfHeader;

    closed spec fn view(&self) -> ElfHeader {
        self.header
    }
}

impl ElfFile {
    /// The file header.
    pub fn header(&self) -> (r: ElfHeader)
        ensures
            r == self@,
    {
        self.header
    }
}

impl BinField for ElfFile {
    type ValidateParams = ();

    type Data = Self;

    open spec fn fits(off: int, file: Seq<u8>) -> bool {
        ElfHeader::fits(off, file)
    }

    open spec fn loaded_from(&self, off: int, file: Seq<u8>) -> bool {
        self@.loaded_from(off, file)
    }

    open spec fn validation(&self, params: &(), endian: Endian) -> (Result<(), Seq<char>>, Endian) {
        self@.validation(&(), endian)
    }

    open spec fn read_spec(&self, endian: Endian) -> Self {
        *self
    }

    fn load(off: usize, context: &BinContext<'_>) -> (r: Self) {
        let header = ElfHeader::load(off, context);
        ElfFile { header }
    }

    fn validate(&self, params: &(), context: &mut BinContext<'_>) -> (r: Result<(), BinFieldError>) {
        self.header.validate(&(), context)
    }

    fn read(&self, context: &BinContext<'_>) -> (r: Self) {
        *self
    }
}


/// A section header in the 32-bit layout: name offset in the string table,
/// type, flags, address, offset and size of the contents, link, info,
/// alignment and entry size.
#[derive(Clone, Copy, Debug)]
pub struct Elf32SectionHeader {
    pub name: U32,
    pub ty: U32,
    pub flags: U32,
    pub addr: U32,
    pub offset: U32,
    pub size: U32,
    pub link: U32,
    pub info: U32,
    pub addralign: U32,
    pub entsize: U32,
}

impl BinField for Elf32SectionHeader {
    type ValidateParams = ();

    type Data = Self;

    open spec fn fits(off: int, file: Seq<u8>) -> bool {
        0 <= off && off + 40 <= file.len()
    }

    open spec fn loaded_from(&self, off: int, file: Seq<u8>) -> bool {
        &&& self.name.loaded_from(off + 0, file)
        &&& self.ty.loaded_from(off + 4, file)
        &&& self.flags.loaded_from(off + 8, file)
        &&& self.addr.loaded_from(off + 12, file)
        &&& self.offset.loaded_from(off + 16, file)
        &&& self.size.loaded_from(off + 20, file)
        &&& self.link.loaded_from(off + 24, file)
        &&& self.info.loaded_from(off + 28, file)
        &&& self.addralign.loaded_from(off + 32, file)
        &&& self.entsize.loaded_from(off + 36, file)
    }

    open spec fn validation(&self, params: &(), endian: Endian) -> (Result<(), Seq<char>>, Endian) {
        (Ok(()), endian)
    }

    open spec fn read_spec(&self, endian: Endian) -> Self {
        *self
    }

    fn load(off: usize, context: &BinContext<'_>) -> (r: Self) {
        assert(context.raw_file@.len() == context.raw_file.len());
        Elf32SectionHeader {
            name: U32::load(off + 0, context),
            ty: U32::load(off + 4, context),
            flags: U32::load(off + 8, context),
            addr: U32::load(off + 12, context),
            offset: U32::load(off + 16, context),
            size: U32::load(off + 20, context),
            link: U32::load(off + 24, context),
            info: U32::load(off + 28, context),
            addralign: U32::load(off + 32, context),
            entsize: U32::load(off + 36, context),
        }
    }

    fn validate(&self, params: &(), context: &mut BinContext<'_>) -> (r: Result<(), BinFieldError>) {
        Ok(())
    }

    fn read(&self, context: &BinContext<'_>) -> (r: Self) {
        *self
    }
}

/// A section header in the 64-bit layout: name offset in the string table,
/// type, flags, address, offset and size of the contents, link, info,
/// alignment and entry size.
#[derive(Clone, Copy, Debug)]
pub struct Elf64SectionHeader {
    pub name: U32,
    pub ty: U32,
    pub flags: U64,
    pub addr: U64,
    pub offset: U64,
    pub size: U64,
    pub link: U32,
    pub info: U32,
    pub addralign: U64,
    pub entsize: U64,
}

impl BinField for Elf64SectionHeader {
    type ValidateParams = ();

    type Data = Self;

    open spec fn fits(off: int, file: Seq<u8>) -> bool {
        0 <= off && off + 64 <= file.len()
    }

    open spec fn loaded_from(&self, off: int, file: Seq<u8>) -> bool {
        &&& self.name.loaded_from(off + 0, file)
        &&& self.ty.loaded_from(off + 4, file)
        &&& self.flags.loaded_from(off + 8, file)
        &&& self.addr.loaded_from(off + 16, file)
        &&& self.offset.loaded_from(off + 24, file)
        &&& self.size.loaded_from(off + 32, file)
        &&& self.link.loaded_from(off + 40, file)
        &&& self.info.loaded_from(off + 44, file)
        &&& self.addralign.loaded_from(off + 48, file)
        &&& self.entsize.loaded_from(off + 56, file)
    }

    open spec fn validation(&self, params: &(), endian: Endian) -> (Result<(), Seq<char>>, Endian) {
        (Ok(()), endian)
    }

    open spec fn read_spec(&self, endian: Endian) -> Self {
        *self
    }

    fn load(off: usize, context: &BinContext<'_>) -> (r: Self) {
        assert(context.raw_file@.len() == context.raw_file.len());
        Elf64SectionHeader {
            name: U32::load(off + 0, context),
            ty: U32::load(off + 4, context),
            flags: U64::load(off + 8, context),
            addr: U64::load(off + 16, context),
            offset: U64::load(off + 24, context),
            size: U64::load(off + 32, context),
            link: U32::load(off + 40, context),
            info: U32::load(off + 44, context),
            addralign: U64::load(off + 48, context),
            entsize: U64::load(off + 56, context),
        }
    }

    fn validate(&self, params: &(), context: &mut BinContext<'_>) -> (r: Result<(), BinFieldError>) {
        Ok(())
    }

    fn read(&self, context: &BinContext<'_>) -> (r: Self) {
        *self
    }
}

/// The identification bytes lie one after another in declaration order: magic
/// (4 bytes), class, data, version, OS ABI, ABI version, then 7 bytes of padding.
pub proof fn lemma_elfident_layout(h: ElfIdent, off: int, file: Seq<u8>)
    requires
        ElfIdent::fits(off, file),
        h.loaded_from(off, file),
    ensures
        file.subrange(off, off + 16) == h.magic.0@ + h.class@ + seq![h.data.0] + h.version.0@ + h.osabi@ + h.abi_version@ + h.pad.0@,
{
    assert(file.subrange(off, off + 16) =~= h.magic.0@ + h.class@ + seq![h.data.0] + h.version.0@ + h.osabi@ + h.abi_version@ + h.pad.0@);
}

/// The fields of the 32-bit file header lie one after another in declaration
/// order, each as wide as its type, with no gaps: the layout of the ELF32
/// header after the identification bytes.
pub proof fn lemma_elf32header_layout(h: Elf32Header, off: int, file: Seq<u8>)
    requires
        Elf32Header::fits(off, file),
        h.loaded_from(off, file),
    ensures
        file.subrange(off, off + 36) == h.ty@ + h.machine@ + h.version@ + h.entry@ + h.phoff@ + h.shoff@ + h.flags@ + h.ehsize@ + h.phentsize@ + h.phnum@ + h.shentsize@ + h.shnum@ + h.shstrndx@,
{
    assert(file.subrange(off, off + 36) =~= h.ty@ + h.machine@ + h.version@ + h.entry@ + h.phoff@ + h.shoff@ + h.flags@ + h.ehsize@ + h.phentsize@ + h.phnum@ + h.shentsize@ + h.shnum@ + h.shstrndx@);
}

/// The fields of the 64-bit file header lie one after another in declaration
/// order, each as wide as its type, with no gaps: the layout of the ELF64
/// header after the identification bytes (so `entry` is bytes 8..16, `phoff`
/// bytes 16..24).
pub proof fn lemma_elf64header_layout(h: Elf64Header, off: int, file: Seq<u8>)
    requires
        Elf64Header::fits(off, file),
        h.loaded_from(off, file),
    ensures
        file.subrange(off, off + 48) == h.ty@ + h.machine@ + h.version@ + h.entry@ + h.phoff@ + h.shoff@ + h.flags@ + h.ehsize@ + h.phentsize@ + h.phnum@ + h.shentsize@ + h.shnum@ + h.shstrndx@,
{
    assert(file.subrange(off, off + 48) =~= h.ty@ + h.machine@ + h.version@ + h.entry@ + h.phoff@ + h.shoff@ + h.flags@ + h.ehsize@ + h.phentsize@ + h.phnum@ + h.shentsize@ + h.shnum@ + h.shstrndx@);
}

/// The fields of a 32-bit section header lie one after another in declaration
/// order, each 4 bytes wide: `offset` is bytes 16..20 and `size` bytes 20..24.
pub proof fn lemma_elf32sectionheader_layout(h: Elf32SectionHeader, off: int, file: Seq<u8>)
    requires
        Elf32SectionHeader::fits(off, file),
        h.loaded_from(off, file),
    ensures
        file.subrange(off, off + 40) == h.name@ + h.ty@ + h.flags@ + h.addr@ + h.offset@ + h.size@ + h.link@ + h.info@ + h.addralign@ + h.entsize@,
{
    assert(file.subrange(off, off + 40) =~= h.name@ + h.ty@ + h.flags@ + h.addr@ + h.offset@ + h.size@ + h.link@ + h.info@ + h.addralign@ + h.entsize@);
}

/// The fields of a 64-bit section header lie one after another in declaration
/// order, each as wide as its type: `offset` is bytes 24..32 and `size` bytes
/// 32..40.
pub proof fn lemma_elf64sectionheader_layout(h: Elf64SectionHeader, off: int, file: Seq<u8>)
    requires
        Elf64SectionHeader::fits(off, file),
        h.loaded_from(off, file),
    ensures
        file.subrange(off, off + 64) == h.name@ + h.ty@ + h.flags@ + h.addr@ + h.offset@ + h.size@ + h.link@ + h.info@ + h.addralign@ + h.entsize@,
{
    assert(file.subrange(off, off + 64) =~= h.name@ + h.ty@ + h.flags@ + h.addr@ + h.offset@ + h.size@ + h.link@ + h.info@ + h.addralign@ + h.entsize@);
}

} // verus!
