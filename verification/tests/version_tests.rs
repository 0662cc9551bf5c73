//! Tests of the resource walker and the version-information resource,
//! over a synthetic PE32+ image holding one version resource.

use pelite::err::Error;
use pelite::image::PeFile;

const BASE64: u64 = 0x1_4000_0000;

fn put_u16(b: &mut Vec<u8>, off: usize, v: u16) {
    b[off..off + 2].copy_from_slice(&v.to_le_bytes());
}

fn put_u32(b: &mut Vec<u8>, off: usize, v: u32) {
    b[off..off + 4].copy_from_slice(&v.to_le_bytes());
}

fn utf16(s: &str) -> Vec<u16> {
    s.encode_utf16().collect()
}

fn push_u16(v: &mut Vec<u8>, x: u16) {
    v.extend_from_slice(&x.to_le_bytes());
}

fn push_utf16z(v: &mut Vec<u8>, s: &str) {
    for u in s.encode_utf16() {
        push_u16(v, u);
    }
    push_u16(v, 0);
}

fn pad4(v: &mut Vec<u8>) {
    while v.len() % 4 != 0 {
        v.push(0);
    }
}

/// One string entry: length-prefixed, null-terminated UTF-16 key, padded,
/// counted UTF-16 value.
fn build_string(key: &str, value: &str) -> Vec<u8> {
    let mut v = Vec::new();
    push_u16(&mut v, 0); // wLength, patched below
    push_u16(&mut v, value.encode_utf16().count() as u16 + 1); // value length in words, with nul
    push_u16(&mut v, 1); // text type
    push_utf16z(&mut v, key);
    pad4(&mut v);
    push_utf16z(&mut v, value);
    let l = v.len() as u16;
    put_u16(&mut v, 0, l);
    v
}

/// One string table keyed by `lang_key`, holding the given entries.
fn build_table(lang_key: &str, entries: &[Vec<u8>]) -> Vec<u8> {
    let mut v = Vec::new();
    push_u16(&mut v, 0);
    push_u16(&mut v, 0);
    push_u16(&mut v, 1);
    push_utf16z(&mut v, lang_key);
    pad4(&mut v);
    for e in entries {
        v.extend_from_slice(e);
        pad4(&mut v);
    }
    let l = v.len() as u16;
    put_u16(&mut v, 0, l);
    v
}

/// A whole version blob: header, optional fixed info, one
/// string-file-info block with the given tables.
fn build_version_blob(fixed: bool, tables: &[Vec<u8>]) -> Vec<u8> {
    let mut v = Vec::new();
    push_u16(&mut v, 0); // wLength, patched below
    push_u16(&mut v, if fixed { 52 } else { 0 });
    push_u16(&mut v, 0);
    push_utf16z(&mut v, "VS_VERSION_INFO");
    pad4(&mut v);
    if fixed {
        push_u32v(&mut v, 0xFEEF04BD); // magic
        push_u32v(&mut v, 0x0001_0000); // structure version
        push_u32v(&mut v, 0x0002_0003); // file version high
        push_u32v(&mut v, 0x0004_0005); // file version low
        for _ in 0..9 {
            push_u32v(&mut v, 0);
        }
    }
    let mut sfi = Vec::new();
    push_u16(&mut sfi, 0);
    push_u16(&mut sfi, 0);
    push_u16(&mut sfi, 1);
    push_utf16z(&mut sfi, "StringFileInfo");
    pad4(&mut sfi);
    for t in tables {
        sfi.extend_from_slice(t);
        pad4(&mut sfi);
    }
    let sl = sfi.len() as u16;
    put_u16(&mut sfi, 0, sl);
    v.extend_from_slice(&sfi);
    let l = v.len() as u16;
    put_u16(&mut v, 0, l);
    v
}

fn push_u32v(v: &mut Vec<u8>, x: u32) {
    v.extend_from_slice(&x.to_le_bytes());
}

/// A PE32+ image with one version resource for language 1033.
fn build_version_image(blob: &[u8]) -> Vec<u8> {
    let total = 0x1200;
    let mut b = vec![0u8; total];
    b[0] = 0x4D;
    b[1] = 0x5A;
    put_u32(&mut b, 0x3C, 64);
    put_u32(&mut b, 64, 0x4550);
    put_u16(&mut b, 64 + 6, 1);
    put_u16(&mut b, 64 + 20, 240);
    put_u16(&mut b, 88, 0x20B);
    b[88 + 24..88 + 32].copy_from_slice(&BASE64.to_le_bytes());
    put_u32(&mut b, 88 + 56, 0x2000);
    put_u32(&mut b, 88 + 108, 16);
    put_u32(&mut b, 88 + 112 + 16, 0x1000); // resource directory RVA
    put_u32(&mut b, 88 + 112 + 20, 0x200);
    let row = 88 + 240;
    put_u32(&mut b, row + 8, 0x1000); // .rsrc virtual size
    put_u32(&mut b, row + 12, 0x1000); // .rsrc virtual address
    put_u32(&mut b, row + 16, 0x200); // raw size
    put_u32(&mut b, row + 20, 0x1000); // raw pointer
    // resource tree: type 16 -> name 1 -> language 1033 -> data entry
    let root = 0x1000;
    put_u16(&mut b, root + 14, 1); // one ID entry
    put_u32(&mut b, root + 16, 16); // RT_VERSION
    put_u32(&mut b, root + 20, 0x8000_0018);
    put_u16(&mut b, root + 0x18 + 14, 1);
    put_u32(&mut b, root + 0x18 + 16, 1); // name ID 1
    put_u32(&mut b, root + 0x18 + 20, 0x8000_0030);
    put_u16(&mut b, root + 0x30 + 14, 1);
    put_u32(&mut b, root + 0x30 + 16, 1033); // language
    put_u32(&mut b, root + 0x30 + 20, 0x48); // leaf
    put_u32(&mut b, root + 0x48, 0x1058); // data RVA
    put_u32(&mut b, root + 0x48 + 4, blob.len() as u32);
    b[root + 0x58..root + 0x58 + blob.len()].copy_from_slice(blob);
    b
}

#[test]
fn version_info_scenario() {
    let blob = build_version_blob(
        false,
        &[build_table("1033", &[build_string("ProductName", "Demo")])],
    );
    let img = build_version_image(&blob);
    let pe = PeFile::from_bytes(&img).unwrap();
    let vi = pe.version_info(1033).unwrap();
    let strings = vi.strings();
    assert_eq!(strings.len(), 1);
    assert_eq!(strings[0].lang, utf16("1033"));
    assert_eq!(strings[0].key, utf16("ProductName"));
    assert_eq!(strings[0].value, utf16("Demo"));
    // the absent language fails with a not-found error
    assert!(matches!(pe.version_info(1036), Err(Error::NotFound)));
}

#[test]
fn version_info_without_resources_is_not_found() {
    let mut img = build_version_image(&build_version_blob(false, &[]));
    // zero out the resource data directory
    put_u32(&mut img, 88 + 112 + 16, 0);
    put_u32(&mut img, 88 + 112 + 20, 0);
    put_u32(&mut img, 88 + 108, 2); // too few directories declared
    let pe = PeFile::from_bytes(&img).unwrap();
    assert!(pe.resource_dir.is_none());
    assert!(matches!(pe.version_info(1033), Err(Error::NotFound)));
}

#[test]
fn fixed_file_info_is_magic_checked() {
    let blob = build_version_blob(
        true,
        &[build_table("1033", &[build_string("ProductName", "Demo")])],
    );
    let img = build_version_image(&blob);
    let pe = PeFile::from_bytes(&img).unwrap();
    let vi = pe.version_info(1033).unwrap();
    let fixed = vi.fixed().unwrap();
    assert_eq!(fixed.signature, 0xFEEF04BD);
    assert_eq!(fixed.struc_version, 0x0001_0000);
    assert_eq!(fixed.file_version_ms, 0x0002_0003);
    assert_eq!(fixed.file_version_ls, 0x0004_0005);
    // the strings still parse past the fixed block
    let strings = vi.strings();
    assert_eq!(strings.len(), 1);
    assert_eq!(strings[0].value, utf16("Demo"));

    // without the fixed block there is none to return
    let blob = build_version_blob(false, &[]);
    let img = build_version_image(&blob);
    let pe = PeFile::from_bytes(&img).unwrap();
    let vi = pe.version_info(1033).unwrap();
    assert!(vi.fixed().is_none());
    assert_eq!(vi.strings().len(), 0);
}

#[test]
fn version_info_two_tables_and_keys() {
    let blob = build_version_blob(
        false,
        &[
            build_table(
                "040904B0",
                &[
                    build_string("CompanyName", "Acme"),
                    build_string("ProductName", "Widget"),
                ],
            ),
            build_table("000004E4", &[build_string("ProductName", "Gadget")]),
        ],
    );
    let img = build_version_image(&blob);
    let pe = PeFile::from_bytes(&img).unwrap();
    let vi = pe.version_info(1033).unwrap();
    let strings = vi.strings();
    assert_eq!(strings.len(), 3);
    assert_eq!(strings[0].lang, utf16("040904B0"));
    assert_eq!(strings[0].key, utf16("CompanyName"));
    assert_eq!(strings[0].value, utf16("Acme"));
    assert_eq!(strings[1].key, utf16("ProductName"));
    assert_eq!(strings[1].value, utf16("Widget"));
    assert_eq!(strings[2].lang, utf16("000004E4"));
    assert_eq!(strings[2].value, utf16("Gadget"));
}
