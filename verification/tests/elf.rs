use cmli::obj::elf::{Class, ElfReader, ElfSectionVisitor, ReadError};
use cmli::obj::raw::helpers::context::Endian;
use cmli::obj::raw::elf::{ElfFile, ElfVariableHeader};
use cmli::obj::raw::helpers::context::BinContext;
use cmli::obj::raw::helpers::BinField;
use cmli::obj::{ObjectFile, ObjectFileReader, SectionReader, SectionVisitor};

fn push_shdr64(f: &mut Vec<u8>, name: u32, ty: u32, flags: u64, offset: u64, size: u64) {
    f.extend_from_slice(&name.to_le_bytes());
    f.extend_from_slice(&ty.to_le_bytes());
    f.extend_from_slice(&flags.to_le_bytes());
    f.extend_from_slice(&0u64.to_le_bytes()); // addr
    f.extend_from_slice(&offset.to_le_bytes());
    f.extend_from_slice(&size.to_le_bytes());
    f.extend_from_slice(&0u32.to_le_bytes()); // link
    f.extend_from_slice(&0u32.to_le_bytes()); // info
    f.extend_from_slice(&1u64.to_le_bytes()); // addralign
    f.extend_from_slice(&0u64.to_le_bytes()); // entsize
}

/// A 64-bit little-endian object: a null section, `.text` holding "hello" and
/// the section-name table `.shstrtab`.
fn object_with_text() -> Vec<u8> {
    let mut f = vec![0x7f, b'E', b'L', b'F', 2, 1, 1, 0, 0, 0, 0, 0, 0, 0, 0, 0];
    f.extend_from_slice(&1u16.to_le_bytes());
    f.extend_from_slice(&0x3eu16.to_le_bytes());
    f.extend_from_slice(&1u32.to_le_bytes());
    f.extend_from_slice(&0u64.to_le_bytes());
    f.extend_from_slice(&0u64.to_le_bytes());
    f.extend_from_slice(&96u64.to_le_bytes());
    f.extend_from_slice(&0u32.to_le_bytes());
    for v in [64u16, 0, 0, 64, 3, 2] {
        f.extend_from_slice(&v.to_le_bytes());
    }
    f.extend_from_slice(b"hello\0\0\0"); // 64..72
    f.extend_from_slice(b"\0.text\0.shstrtab\0"); // 72..89
    f.resize(96, 0);
    push_shdr64(&mut f, 0, 0, 0, 0, 0);
    push_shdr64(&mut f, 1, 1, 6, 64, 5);
    push_shdr64(&mut f, 7, 3, 0, 72, 17);
    f
}

#[test]
fn read_test() {
    let data = object_with_text();
    let mut elf_reader = ElfReader::new(&data).unwrap();
    let mut names = Vec::new();
    {
        let mut sections = elf_reader.sections();
        while let Some(mut section) = sections.accept_next() {
            println!("{:?}", section.name());
            names.push(section.name());
        }
    }
    assert_eq!(names, vec![Some(b".text".to_vec())]);
}

#[test]
fn reader_keeps_header_fields() {
    let data = object_with_text();
    let elf_reader = ElfReader::new(&data).unwrap();
    let h = elf_reader.header();
    assert_eq!(h.shoff, 96);
    assert_eq!(h.shentsize, 64);
    assert_eq!(h.shnum, 3);
    assert_eq!(h.shstrndx, 2);
    assert_eq!(h.phnum, 0);
    assert_eq!(h.class, Class::Elf64);
    assert_eq!(h.endian, Endian::Little);
}

#[test]
fn section_reader_reads_size_and_contents() {
    let data = object_with_text();
    let mut elf_reader = ElfReader::new(&data).unwrap();
    let mut sections = ElfSectionVisitor::new(&mut elf_reader);
    let mut text = sections.accept_next().unwrap();
    assert_eq!(text.mem_size(), 5);
    assert_eq!(text.data(), b"hello".to_vec());
    assert_eq!(text.name(), Some(b".text".to_vec()));
    assert!(sections.accept_next().is_none());
    assert!(sections.accept_next().is_none());
}

#[test]
fn without_string_table_sections_have_no_name() {
    let mut data = object_with_text();
    data[62] = 7; // shstrndx past the last section
    let mut elf_reader = ElfReader::new(&data).unwrap();
    let mut sections = elf_reader.sections();
    let mut text = sections.accept_next().unwrap();
    assert_eq!(text.name(), None);
    assert_eq!(text.data(), b"hello".to_vec());
}

#[test]
fn name_without_terminator_is_none() {
    let mut data = object_with_text();
    // the string table holds only ".text" without its terminating zero
    let off = 96 + 2 * 64 + 32;
    data[off..off + 8].copy_from_slice(&6u64.to_le_bytes());
    let mut elf_reader = ElfReader::new(&data).unwrap();
    let mut sections = elf_reader.sections();
    let mut text = sections.accept_next().unwrap();
    assert_eq!(text.name(), None);
}

#[test]
fn reader_errors() {
    let data = object_with_text();
    assert_eq!(ElfReader::new(&data[..10]).unwrap_err(), ReadError::UnexpectedEof);
    assert_eq!(ElfReader::new(&data[..40]).unwrap_err(), ReadError::UnexpectedEof);
    let mut bad = data.clone();
    bad[0] = 0;
    assert_eq!(ElfReader::new(&bad).unwrap_err(), ReadError::InvalidMagic);
    let mut bad = data.clone();
    bad[4] = 3;
    assert_eq!(ElfReader::new(&bad).unwrap_err(), ReadError::InvalidClass);
    let mut bad = data.clone();
    bad[5] = 0;
    assert_eq!(ElfReader::new(&bad).unwrap_err(), ReadError::InvalidEndian);
    let mut bad = data.clone();
    bad[6] = 2;
    assert_eq!(ElfReader::new(&bad).unwrap_err(), ReadError::UnknownVersion);
    assert_eq!(ReadError::InvalidMagic.message(), "invalid magic");
    assert_eq!(
        ReadError::UnknownVersion.message(),
        "unknown ELF version (only know version 1)"
    );
    assert_eq!(ReadError::UnexpectedEof.message(), "failed to fill whole buffer");
}

#[test]
fn elf32_big_endian_header() {
    let mut f = vec![0x7f, b'E', b'L', b'F', 1, 2, 1, 0, 0, 0, 0, 0, 0, 0, 0, 0];
    f.extend_from_slice(&1u16.to_be_bytes());
    f.extend_from_slice(&8u16.to_be_bytes());
    f.extend_from_slice(&1u32.to_be_bytes());
    f.extend_from_slice(&0u32.to_be_bytes());
    f.extend_from_slice(&0x34u32.to_be_bytes()); // phoff
    f.extend_from_slice(&0x200u32.to_be_bytes()); // shoff
    f.extend_from_slice(&0u32.to_be_bytes());
    for v in [52u16, 32, 2, 40, 0, 0] {
        f.extend_from_slice(&v.to_be_bytes());
    }
    assert!(ElfReader::can_open(&f));
    let r = ElfReader::new(&f).unwrap();
    let h = r.header();
    assert_eq!(h.class, Class::Elf32);
    assert_eq!(h.endian, Endian::Big);
    assert_eq!(h.phoff, 0x34);
    assert_eq!(h.shoff, 0x200);
    assert_eq!(h.phentsize, 32);
    assert_eq!(h.phnum, 2);
    assert_eq!(h.shentsize, 40);
    assert_eq!(h.shnum, 0);
}

#[test]
fn can_open_detects_unreadable_string_table() {
    let data = object_with_text();
    assert!(ElfReader::can_open(&data));
    let mut bad = data.clone();
    let off = 96 + 2 * 64 + 32;
    bad[off..off + 8].copy_from_slice(&1000u64.to_le_bytes());
    assert!(!ElfReader::can_open(&bad));
    // the section table runs past the end of the file
    assert!(!ElfReader::can_open(&data[..200]));
    assert!(ElfReader::can_open(&data[..10]));
}

#[test]
fn object_file_from_reader_without_contents() {
    let mut data = object_with_text();
    // turn .text into a section without contents in the file (SHT_NOBITS)
    data[96 + 64 + 4] = 8;
    let reader = ElfReader::new(&data).unwrap();
    let object = ObjectFile::from_reader(reader);
    assert_eq!(object.sections.len(), 0);
}

struct FixedSection {
    name: Option<Vec<u8>>,
}

impl SectionReader for FixedSection {
    fn name_ok(&self) -> bool {
        true
    }

    fn name_spec(&self) -> Option<vstd::seq::Seq<u8>> {
        panic!("not called at run time")
    }

    fn flags_ok(&self) -> bool {
        true
    }

    fn flags_spec(&self) -> cmli::obj::SectionFlags {
        panic!("not called at run time")
    }

    fn mem_size_ok(&self) -> bool {
        true
    }

    fn mem_size_spec(&self) -> u64 {
        panic!("not called at run time")
    }

    fn data_ok(&self) -> bool {
        true
    }

    fn data_spec(&self) -> vstd::seq::Seq<u8> {
        panic!("not called at run time")
    }

    fn name(&mut self) -> Option<Vec<u8>> {
        self.name.clone()
    }

    fn flags(&mut self) -> cmli::obj::SectionFlags {
        cmli::obj::SectionFlags { bits: cmli::obj::SECTION_WRITE | cmli::obj::SECTION_EXEC }
    }

    fn mem_size(&mut self) -> u64 {
        16
    }

    fn data(&mut self) -> Vec<u8> {
        vec![1, 2, 3]
    }
}

#[test]
fn section_from_reader_decodes_name() {
    let s = cmli::obj::Section::from_reader(FixedSection { name: Some("sé".as_bytes().to_vec()) });
    assert_eq!(s.name.as_deref(), Some("sé"));
    assert_eq!(s.flags.bits, 0b11);
    assert_eq!(s.mem_size, 16);
    assert_eq!(s.data, vec![1, 2, 3]);
    let s = cmli::obj::Section::from_reader(FixedSection { name: None });
    assert_eq!(s.name, None);
}

#[test]
fn header_readers_agree() {
    let data = object_with_text();
    let h = ElfReader::new(&data).unwrap().header();
    let mut context = BinContext::new(&data);
    let file: ElfFile = context.load().unwrap();
    assert_eq!(context.endian, h.endian);
    match file.header().variable_header {
        ElfVariableHeader::Elf64(v) => {
            assert_eq!(v.shoff.read(&context), h.shoff);
            assert_eq!(v.shnum.read(&context), h.shnum);
            assert_eq!(v.shentsize.read(&context), h.shentsize);
            assert_eq!(v.shstrndx.read(&context), h.shstrndx);
        }
        ElfVariableHeader::Elf32(_) => panic!("a 64-bit file loaded as 32-bit"),
    }
    // a class byte that names no class: the loader accepts it, the reader does not
    let mut odd = data.clone();
    odd[4] = 3;
    assert_eq!(ElfReader::new(&odd).unwrap_err(), ReadError::InvalidClass);
    let loaded: Result<ElfFile, _> = BinContext::new(&odd).load();
    assert!(loaded.is_ok());
}
