//! Tests over synthetic PE images: header parsing, coordinate
//! translation, typed views and the byte-level decoding contract.

use pelite::err::Error;
use pelite::image::{Bitness, PeFile, Ptr};
use pelite::pod::Pod;

const BASE64: u64 = 0x1_4000_0000;

fn put_u16(b: &mut Vec<u8>, off: usize, v: u16) {
    b[off..off + 2].copy_from_slice(&v.to_le_bytes());
}

fn put_u32(b: &mut Vec<u8>, off: usize, v: u32) {
    b[off..off + 4].copy_from_slice(&v.to_le_bytes());
}

fn put_u64(b: &mut Vec<u8>, off: usize, v: u64) {
    b[off..off + 8].copy_from_slice(&v.to_le_bytes());
}

/// A minimal PE32+ image: DOS header, PE signature, COFF header, 64-bit
/// optional header with 16 data directories, and a section table.
/// Sections are (virtual_address, virtual_size, pointer_to_raw_data,
/// size_of_raw_data).
fn build_pe64(
    base: u64,
    size_of_image: u32,
    sections: &[(u32, u32, u32, u32)],
    res_dir: Option<(u32, u32)>,
    total: usize,
) -> Vec<u8> {
    let mut b = vec![0u8; total];
    b[0] = 0x4D;
    b[1] = 0x5A;
    put_u32(&mut b, 0x3C, 64); // e_lfanew
    put_u32(&mut b, 64, 0x4550); // PE signature
    put_u16(&mut b, 64 + 6, sections.len() as u16);
    put_u16(&mut b, 64 + 20, 240); // optional header size
    put_u16(&mut b, 88, 0x20B); // PE32+ magic
    put_u64(&mut b, 88 + 24, base);
    put_u32(&mut b, 88 + 56, size_of_image);
    put_u32(&mut b, 88 + 108, 16); // number of data directories
    if let Some((rva, size)) = res_dir {
        put_u32(&mut b, 88 + 112 + 16, rva);
        put_u32(&mut b, 88 + 112 + 20, size);
    }
    for (i, s) in sections.iter().enumerate() {
        let row = 88 + 240 + i * 40;
        put_u32(&mut b, row + 8, s.1); // virtual size
        put_u32(&mut b, row + 12, s.0); // virtual address
        put_u32(&mut b, row + 16, s.3); // size of raw data
        put_u32(&mut b, row + 20, s.2); // pointer to raw data
    }
    b
}

/// A minimal PE32 image, with the 32-bit optional-header layout.
fn build_pe32(base: u32, size_of_image: u32, total: usize) -> Vec<u8> {
    let mut b = vec![0u8; total];
    b[0] = 0x4D;
    b[1] = 0x5A;
    put_u32(&mut b, 0x3C, 64);
    put_u32(&mut b, 64, 0x4550);
    put_u16(&mut b, 64 + 6, 0);
    put_u16(&mut b, 64 + 20, 224);
    put_u16(&mut b, 88, 0x10B); // PE32 magic
    put_u32(&mut b, 88 + 28, base);
    put_u32(&mut b, 88 + 56, size_of_image);
    put_u32(&mut b, 88 + 92, 16);
    b
}

#[test]
fn pod_u16_round_trip() {
    let bytes = [0x34u8, 0x12u8];
    let v = u16::read_at(&bytes, 0);
    assert_eq!(v, 0x1234);
    assert_eq!(v.as_bytes(), vec![0x34, 0x12]);
}

#[test]
fn pod_u32_round_trip() {
    let bytes = [0x78u8, 0x56, 0x34, 0x12];
    let v = u32::read_at(&bytes, 0);
    assert_eq!(v, 0x12345678);
    assert_eq!(v.as_bytes(), vec![0x78, 0x56, 0x34, 0x12]);
}

#[test]
fn pod_u64_round_trip() {
    let bytes = [0xEFu8, 0xCD, 0xAB, 0x89, 0x67, 0x45, 0x23, 0x01];
    let v = u64::read_at(&bytes, 0);
    assert_eq!(v, 0x0123_4567_89AB_CDEF);
    assert_eq!(v.as_bytes(), bytes.to_vec());
}

#[test]
fn pod_signed_round_trip() {
    let bytes = [0xFFu8, 0xFF];
    assert_eq!(i16::read_at(&bytes, 0), -1);
    assert_eq!((-1i16).as_bytes(), vec![0xFF, 0xFF]);
    assert_eq!(i8::read_at(&[0x80], 0), -128);
    assert_eq!((-128i8).as_bytes(), vec![0x80]);
    let bytes = [0x00u8, 0x00, 0x00, 0x80];
    assert_eq!(i32::read_at(&bytes, 0), i32::MIN);
    assert_eq!(i32::MIN.as_bytes(), bytes.to_vec());
    let bytes = [0xFEu8, 0xFF, 0xFF, 0xFF, 0xFF, 0xFF, 0xFF, 0xFF];
    assert_eq!(i64::read_at(&bytes, 0), -2);
    assert_eq!((-2i64).as_bytes(), bytes.to_vec());
    assert_eq!(i64::read_at(&[42, 0, 0, 0, 0, 0, 0, 0], 0), 42);
}

#[test]
fn pod_ptr_round_trip() {
    let bytes = [1u8, 0, 0, 0, 0, 0, 0, 0x80];
    let p = Ptr::read_at(&bytes, 0);
    assert_eq!(p.va, 0x8000_0000_0000_0001);
    assert_eq!(p.as_bytes(), bytes.to_vec());
    assert_eq!(Ptr::null(), Ptr { va: 0 });
    assert_ne!(p, Ptr::null());
}

#[test]
fn open_rejects_truncated_and_bad_magic() {
    assert_eq!(PeFile::from_bytes(&[]).err(), Some(Error::OutOfBounds));
    assert_eq!(PeFile::from_bytes(&[0u8; 64]).err(), Some(Error::BadMagic));
    let mut b = build_pe64(BASE64, 0x2000, &[], None, 0x400);
    b[65] = 0; // break the PE signature
    assert_eq!(PeFile::from_bytes(&b).err(), Some(Error::BadMagic));
    let mut b = build_pe64(BASE64, 0x2000, &[], None, 0x400);
    put_u16(&mut b, 88, 0x111); // unknown optional-header magic
    assert_eq!(PeFile::from_bytes(&b).err(), Some(Error::BadMagic));
    let mut b = build_pe64(BASE64, 0x2000, &[], None, 0x400);
    put_u32(&mut b, 0x3C, 0x400); // headers out of the buffer
    assert_eq!(PeFile::from_bytes(&b).err(), Some(Error::OutOfBounds));
}

#[test]
fn open_reads_both_layouts() {
    let b = build_pe64(BASE64, 0x2000, &[(0x1000, 0x1000, 0x200, 0x800)], None, 0x400);
    let pe = PeFile::from_bytes(&b).unwrap();
    assert_eq!(pe.bits, Bitness::Pe64);
    assert_eq!(pe.image_base, BASE64);
    assert_eq!(pe.size_of_image, 0x2000);
    assert_eq!(pe.sections.len(), 1);
    assert_eq!(pe.sections[0].virtual_address, 0x1000);
    assert_eq!(pe.sections[0].size_of_raw_data, 0x800);

    let b = build_pe32(0x40_0000, 0x1000, 0x400);
    let pe = PeFile::from_bytes(&b).unwrap();
    assert_eq!(pe.bits, Bitness::Pe32);
    assert_eq!(pe.image_base, 0x40_0000);
    assert_eq!(pe.size_of_image, 0x1000);
}

#[test]
fn file_offset_rva_translation_and_round_trip() {
    let b = build_pe64(BASE64, 0x2000, &[(0x1000, 0x1000, 0x200, 0x800)], None, 0x400);
    let pe = PeFile::from_bytes(&b).unwrap();
    assert_eq!(pe.file_offset_to_rva(0x200), Ok(0x1000));
    assert_eq!(pe.file_offset_to_rva(0x9FF), Ok(0x17FF));
    assert_eq!(pe.file_offset_to_rva(0xA00), Err(Error::Translation));
    assert_eq!(pe.file_offset_to_rva(0x1FF), Err(Error::Translation));
    assert_eq!(pe.rva_to_file_offset(0x1000), Ok(0x200));
    assert_eq!(pe.rva_to_file_offset(0x17FF), Ok(0x9FF));
    // inside the memory range but past the file-backed size: zero-fill
    assert_eq!(pe.rva_to_file_offset(0x1900), Err(Error::Translation));
    assert_eq!(pe.rva_to_file_offset(0xFFF), Err(Error::Translation));
    // round trips
    for &r in &[0x1000u32, 0x1234, 0x17FF] {
        let o = pe.rva_to_file_offset(r).unwrap();
        assert_eq!(pe.file_offset_to_rva(o), Ok(r));
    }
    for &o in &[0x200u32, 0x555, 0x9FF] {
        let r = pe.file_offset_to_rva(o).unwrap();
        assert_eq!(pe.rva_to_file_offset(r), Ok(o));
    }
}

#[test]
fn overlapping_sections_first_wins() {
    let b = build_pe64(
        BASE64,
        0x3000,
        &[(0x1000, 0x1000, 0x200, 0x800), (0x1000, 0x1000, 0x300, 0x800)],
        None,
        0x400,
    );
    let pe = PeFile::from_bytes(&b).unwrap();
    // both sections claim RVA 0x1000; the first in file order wins
    assert_eq!(pe.rva_to_file_offset(0x1000), Ok(0x200));
    // both claim file offset 0x300; the first wins
    assert_eq!(pe.file_offset_to_rva(0x300), Ok(0x1100));
}

#[test]
fn overlapping_file_ranges_break_the_round_trip() {
    // two sections share one file-offset range; the round trip holds only
    // for the first, which is why the round-trip laws ask for disjoint
    // tables
    let b = build_pe64(
        BASE64,
        0x3000,
        &[(0x1000, 0x1000, 0x200, 0x800), (0x2000, 0x1000, 0x200, 0x800)],
        None,
        0x400,
    );
    let pe = PeFile::from_bytes(&b).unwrap();
    assert_eq!(pe.rva_to_file_offset(0x2000), Ok(0x200));
    assert_eq!(pe.file_offset_to_rva(0x200), Ok(0x1000));
}

#[test]
fn rva_to_va_checks_overflow() {
    let b = build_pe64(u64::MAX - 0xFFF, 0x2000, &[], None, 0x400);
    let pe = PeFile::from_bytes(&b).unwrap();
    assert_eq!(pe.rva_to_va(0xFFF), Ok(u64::MAX));
    assert_eq!(pe.rva_to_va(0x1000), Err(Error::Translation));
}

#[test]
fn va_rva_translation_and_round_trip() {
    let b = build_pe64(BASE64, 0x2000, &[], None, 0x400);
    let pe = PeFile::from_bytes(&b).unwrap();
    assert_eq!(pe.rva_to_va(0x1000), Ok(BASE64 + 0x1000));
    assert_eq!(pe.va_to_rva(BASE64 + 0x1000), Ok(0x1000));
    assert_eq!(pe.va_to_rva(BASE64 - 1), Err(Error::Translation));
    assert_eq!(pe.va_to_rva(BASE64 + 0x2000), Err(Error::Translation));
    for &r in &[0u32, 1, 0x1FFF] {
        let va = pe.rva_to_va(r).unwrap();
        assert_eq!(pe.va_to_rva(va), Ok(r));
    }
}

#[test]
fn derva_checks_bounds() {
    let b = build_pe64(BASE64, 0x2000, &[], None, 0x400);
    let pe = PeFile::from_bytes(&b).unwrap();
    assert_eq!(pe.derva::<u16>(0x3C), Ok(64u16));
    assert_eq!(pe.derva::<u32>(0x3FC), Ok(0u32));
    // every range that sticks out fails with an out-of-bounds error
    assert_eq!(pe.derva::<u32>(0x3FD), Err(Error::OutOfBounds));
    assert_eq!(pe.derva::<u64>(0x3F9), Err(Error::OutOfBounds));
    assert_eq!(pe.derva::<u8>(0x400), Err(Error::OutOfBounds));
    assert_eq!(pe.derva::<u32>(u32::MAX), Err(Error::OutOfBounds));
}

#[test]
fn deref_null_always_fails() {
    // image base 0: offset 0 is in bounds, yet the null sentinel fails
    let b = build_pe64(0, 0x2000, &[], None, 0x400);
    let pe = PeFile::from_bytes(&b).unwrap();
    assert_eq!(pe.va_to_rva(0), Ok(0));
    assert_eq!(pe.derva::<u64>(0).is_ok(), true);
    assert_eq!(pe.deref::<u64>(Ptr::null()), Err(Error::Null));
    assert_eq!(pe.deref::<u32>(Ptr { va: 0 }), Err(Error::Null));
    // a non-null pointer to the same offset works
    assert_eq!(pe.deref::<u16>(Ptr { va: 0x3C }), Ok(64u16));
}

#[test]
fn derva_c_str_scans_to_nul() {
    let mut b = build_pe64(BASE64, 0x2000, &[], None, 0x400);
    let text = b"hello\0";
    b[0x300..0x300 + text.len()].copy_from_slice(text);
    let pe = PeFile::from_bytes(&b).unwrap();
    assert_eq!(pe.derva_c_str(0x300), Ok(b"hello".to_vec()));
    // scanning from past the buffer, or over a tail with no nul, fails
    assert_eq!(pe.derva_c_str(0x400), Err(Error::OutOfBounds));
    let mut b2 = build_pe64(BASE64, 0x2000, &[], None, 0x400);
    for i in 0x3F0..0x400 {
        b2[i] = b'x';
    }
    let pe2 = PeFile::from_bytes(&b2).unwrap();
    assert_eq!(pe2.derva_c_str(0x3F0), Err(Error::OutOfBounds));
}

#[test]
fn image_returns_the_buffer() {
    let b = build_pe64(BASE64, 0x2000, &[], None, 0x400);
    let pe = PeFile::from_bytes(&b).unwrap();
    assert_eq!(pe.image().len(), 0x400);
    assert_eq!(pe.image()[0], 0x4D);
}
