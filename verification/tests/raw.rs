use cmli::obj::raw::elf::{ElfFile, ElfIdent, ElfVariableHeader};
use cmli::obj::raw::helpers::context::{BinContext, Endian};
use cmli::obj::raw::helpers::primitives::{decode_uint, U16, U32, U64, U8};
use cmli::obj::raw::helpers::{load_pod_bin_field, BinField, BinFieldError, EndianFlag, Magic, Pad};

/// The file header of a 64-bit little-endian x86-64 relocatable object with
/// three section headers at offset 96, the last of them the name table.
fn elf64_header() -> Vec<u8> {
    let mut h = vec![0x7f, b'E', b'L', b'F', 2, 1, 1, 0, 0, 0, 0, 0, 0, 0, 0, 0];
    h.extend_from_slice(&1u16.to_le_bytes()); // type: relocatable
    h.extend_from_slice(&0x3eu16.to_le_bytes()); // machine: x86-64
    h.extend_from_slice(&1u32.to_le_bytes()); // version
    h.extend_from_slice(&0u64.to_le_bytes()); // entry
    h.extend_from_slice(&0u64.to_le_bytes()); // phoff
    h.extend_from_slice(&96u64.to_le_bytes()); // shoff
    h.extend_from_slice(&0u32.to_le_bytes()); // flags
    h.extend_from_slice(&64u16.to_le_bytes()); // ehsize
    h.extend_from_slice(&0u16.to_le_bytes()); // phentsize
    h.extend_from_slice(&0u16.to_le_bytes()); // phnum
    h.extend_from_slice(&64u16.to_le_bytes()); // shentsize
    h.extend_from_slice(&3u16.to_le_bytes()); // shnum
    h.extend_from_slice(&2u16.to_le_bytes()); // shstrndx
    assert_eq!(h.len(), 64);
    h
}

#[test]
fn magic() {
    let valid_magic = b"uwu\0";
    let invalid_magic = b"nooo";

    let valid: Result<Magic<4>, _> =
        BinContext::new(valid_magic).load_with_params(&[*valid_magic] as _);
    let invalid: Result<Magic<4>, _> =
        BinContext::new(invalid_magic).load_with_params(&[*valid_magic] as _);

    assert_eq!(valid, Ok(Magic(*valid_magic)));
    assert_eq!(
        invalid,
        Err(BinFieldError {
            error: "magic [110, 111, 111, 111] is not recognized".into()
        })
    );
}

#[test]
fn load_elf() {
    let test_object = elf64_header();
    let mut context = BinContext::new(&test_object);
    let file: ElfFile = context.load().unwrap();
    assert_eq!(context.endian, Endian::Little);
    let header = file.header();
    assert_eq!(header.ident.magic, Magic(*b"\x7fELF"));
    match header.variable_header {
        ElfVariableHeader::Elf64(h) => {
            assert_eq!(h.ty.read(&context), 1);
            assert_eq!(h.machine.read(&context), 0x3e);
            assert_eq!(h.shoff.read(&context), 96);
            assert_eq!(h.shentsize.read(&context), 64);
            assert_eq!(h.shnum.read(&context), 3);
            assert_eq!(h.shstrndx.read(&context), 2);
        }
        ElfVariableHeader::Elf32(_) => panic!("a 64-bit file loaded as 32-bit"),
    }
}

#[test]
fn load_elf32_big_endian() {
    let mut f = vec![0x7f, b'E', b'L', b'F', 1, 2, 1, 0, 0, 0, 0, 0, 0, 0, 0, 0];
    f.extend_from_slice(&2u16.to_be_bytes()); // type
    f.extend_from_slice(&8u16.to_be_bytes()); // machine
    f.extend_from_slice(&1u32.to_be_bytes()); // version
    f.extend_from_slice(&0x1000u32.to_be_bytes()); // entry
    f.extend_from_slice(&52u32.to_be_bytes()); // phoff
    f.extend_from_slice(&0x1234u32.to_be_bytes()); // shoff
    f.extend_from_slice(&0u32.to_be_bytes()); // flags
    for v in [52u16, 32, 1, 40, 7, 6] {
        f.extend_from_slice(&v.to_be_bytes());
    }
    let mut context = BinContext::new(&f);
    let file: ElfFile = context.load().unwrap();
    assert_eq!(context.endian, Endian::Big);
    match file.header().variable_header {
        ElfVariableHeader::Elf32(h) => {
            assert_eq!(h.entry.read(&context), 0x1000);
            assert_eq!(h.shoff.read(&context), 0x1234);
            assert_eq!(h.phentsize.read(&context), 32);
            assert_eq!(h.shentsize.read(&context), 40);
            assert_eq!(h.shnum.read(&context), 7);
            assert_eq!(h.shstrndx.read(&context), 6);
        }
        ElfVariableHeader::Elf64(_) => panic!("a 32-bit file loaded as 64-bit"),
    }
}

#[test]
fn ident_rejects_bad_magic() {
    let mut f = elf64_header();
    f[1] = b'X';
    let r: Result<ElfFile, _> = BinContext::new(&f).load();
    assert_eq!(
        r.unwrap_err().error,
        "magic [127, 88, 76, 70] is not recognized"
    );
}

#[test]
fn ident_rejects_bad_endian_flag() {
    let mut f = elf64_header();
    f[5] = 5;
    let mut context = BinContext::new(&f);
    let r: Result<ElfFile, _> = context.load();
    assert_eq!(r.unwrap_err().error, "endian flag has unrecognized value 0x 5");
    assert_eq!(context.endian, Endian::Little);
    f[5] = 0xab;
    let r: Result<ElfFile, _> = BinContext::new(&f).load();
    assert_eq!(r.unwrap_err().error, "endian flag has unrecognized value 0xAB");
}

#[test]
fn ident_rejects_bad_version_after_setting_endian() {
    let mut f = elf64_header();
    f[5] = 2;
    f[6] = 3;
    let mut context = BinContext::new(&f);
    let r: Result<ElfFile, _> = context.load();
    assert_eq!(r.unwrap_err().error, "magic [3] is not recognized");
    assert_eq!(context.endian, Endian::Big);
}

#[test]
fn ident_accepts_any_class() {
    let f = elf64_header();
    let mut g = f.clone();
    g[4] = 9;
    let mut context = BinContext::new(&g);
    let ident: ElfIdent = context.load().unwrap();
    assert_eq!(ident.class.read(&context), 9);
}

#[test]
fn endian_flag_sets_byte_order() {
    let f = [1u8, 2, 3];
    let mut context = BinContext::new(&f);
    context.set_endian(Endian::Big);
    let flag: EndianFlag<1, 2> = context.load().unwrap();
    assert_eq!(flag, EndianFlag(1));
    assert_eq!(context.endian, Endian::Little);
    let g = [2u8];
    let mut context = BinContext::new(&g);
    let _: EndianFlag<1, 2> = context.load().unwrap();
    assert_eq!(context.endian, Endian::Big);
}

#[test]
fn primitives_read_in_context_order() {
    let f = [0x01u8, 0x02, 0x03, 0x04, 0x05, 0x06, 0x07, 0x08];
    let mut context = BinContext::new(&f);
    let a = U16::load(0, &context);
    let b = U32::load(0, &context);
    let c = U64::load(0, &context);
    let d = U8::load(7, &context);
    assert_eq!(a.read(&context), 0x0201);
    assert_eq!(b.read(&context), 0x0403_0201);
    assert_eq!(c.read(&context), 0x0807_0605_0403_0201);
    assert_eq!(d.read(&context), 8);
    context.set_endian(Endian::Big);
    assert_eq!(a.read(&context), 0x0102);
    assert_eq!(b.read(&context), 0x0102_0304);
    assert_eq!(c.read(&context), 0x0102_0304_0506_0708);
    assert_eq!(d.read(&context), 8);
}

#[test]
fn decode_uint_orders() {
    let bytes = [0xffu8, 0x00, 0x10];
    assert_eq!(decode_uint(&bytes, Endian::Little), 0x10_00ff);
    assert_eq!(decode_uint(&bytes, Endian::Big), 0xff_0010);
    assert_eq!(decode_uint(&[], Endian::Big), 0);
    let reversed = [0x10u8, 0x00, 0xff];
    assert_eq!(
        decode_uint(&bytes, Endian::Big),
        decode_uint(&reversed, Endian::Little)
    );
}

#[test]
fn pod_field_and_pad() {
    let f = [9u8, 8, 7, 6, 5];
    let context = BinContext::new(&f);
    let bytes: [u8; 3] = load_pod_bin_field(1, &context);
    assert_eq!(bytes, [8, 7, 6]);
    let mut context = context;
    let pad: Pad<5> = context.load().unwrap();
    assert_eq!(pad, Pad(f));
}

#[test]
fn magic_accepts_any_listed_value() {
    let f = *b"ab";
    let r: Result<Magic<2>, _> = BinContext::new(&f).load_with_params(&[*b"xy", *b"ab"] as _);
    assert_eq!(r, Ok(Magic(*b"ab")));
    let r: Result<Magic<2>, _> = BinContext::new(&f).load_with_params(&[] as &[[u8; 2]]);
    assert_eq!(
        r,
        Err(BinFieldError {
            error: "magic [97, 98] is not recognized".into()
        })
    );
}
