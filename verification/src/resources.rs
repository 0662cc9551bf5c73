//! The resource directory walker and the version-information resource.
//!
//! Resources form a tree keyed first by type, next by name or ID, last by
//! language; each inner node is a directory table reached through `derva`,
//! and each leaf yields the RVA and size of a raw blob. The version
//! resource (type 16, name ID 1) holds an optional fixed-layout header and
//! language-keyed tables of UTF-16 key/value string pairs. The walker
//! delivers the raw UTF-16 code units; decoding them to readable text is
//! the caller's concern.

use vstd::prelude::*;
use vstd::slice::slice_subrange;
use vstd::slice::slice_to_vec;

use crate::err::Error;
use crate::image::{ru16, ru32, DataDirectory, PeFile};
use crate::pod::Pod;

verus! {

/// An inner node of the resource tree: counts of its named and
/// ID-keyed entries; the entries follow the 16-byte node header.
#[derive(Clone, Copy, PartialEq, Eq, Structural, Debug)]
pub struct ResourceDirectory {
    pub characteristics: u32,
    pub time_date_stamp: u32,
    pub major_version: u16,
    pub minor_version: u16,
    pub number_of_named_entries: u16,
    pub number_of_id_entries: u16,
}

impl Pod for ResourceDirectory {
    open spec fn size() -> nat {
        16
    }

    open spec fn decode_spec(b: Seq<u8>) -> ResourceDirectory {
        ResourceDirectory {
            characteristics: ru32(b, 0),
            time_date_stamp: ru32(b, 4),
            major_version: ru16(b, 8),
            minor_version: ru16(b, 10),
            number_of_named_entries: ru16(b, 12),
            number_of_id_entries: ru16(b, 14),
        }
    }

    fn size_of() -> usize {
        16
    }

    fn read_at(buf: &[u8], off: usize) -> ResourceDirectory {
        let _len = buf.len();
        let v = ResourceDirectory {
            characteristics: u32::read_at(buf, off),
            time_date_stamp: u32::read_at(buf, off + 4),
            major_version: u16::read_at(buf, off + 8),
            minor_version: u16::read_at(buf, off + 10),
            number_of_named_entries: u16::read_at(buf, off + 12),
            number_of_id_entries: u16::read_at(buf, off + 14),
        };
        proof {
            let b = buf@.subrange(off as int, off + 16);
            assert(buf@.subrange(off as int, off + 4) =~= b.subrange(0, 4));
            assert(buf@.subrange(off + 4, off + 8) =~= b.subrange(4, 8));
            assert(buf@.subrange(off + 8, off + 10) =~= b.subrange(8, 10));
            assert(buf@.subrange(off + 10, off + 12) =~= b.subrange(10, 12));
            assert(buf@.subrange(off + 12, off + 14) =~= b.subrange(12, 14));
            assert(buf@.subrange(off + 14, off + 16) =~= b.subrange(14, 16));
        }
        v
    }

    fn as_bytes(&self) -> (b: Vec<u8>)
        ensures
            b@.len() == Self::size(),
            Self::decode_spec(b@) == *self,
    {
        let mut b = self.characteristics.as_bytes();
        let ghost s1 = b@;
        let mut t = self.time_date_stamp.as_bytes();
        let ghost s2 = t@;
        b.append(&mut t);
        let mut t = self.major_version.as_bytes();
        let ghost s3 = t@;
        b.append(&mut t);
        let mut t = self.minor_version.as_bytes();
        let ghost s4 = t@;
        b.append(&mut t);
        let mut t = self.number_of_named_entries.as_bytes();
        let ghost s5 = t@;
        b.append(&mut t);
        let mut t = self.number_of_id_entries.as_bytes();
        let ghost s6 = t@;
        b.append(&mut t);
        proof {
            assert(b@.subrange(0, 4) =~= s1);
            assert(b@.subrange(4, 8) =~= s2);
            assert(b@.subrange(8, 10) =~= s3);
            assert(b@.subrange(10, 12) =~= s4);
            assert(b@.subrange(12, 14) =~= s5);
            assert(b@.subrange(14, 16) =~= s6);
        }
        b
    }
}

/// One entry of a resource directory node: a name or ID, and either the
/// offset of a child node (high bit set) or of a leaf data entry (high
/// bit clear), both relative to the start of the resource data.
#[derive(Clone, Copy, PartialEq, Eq, Structural, Debug)]
pub struct ResourceDirectoryEntry {
    pub name: u32,
    pub offset: u32,
}

impl Pod for ResourceDirectoryEntry {
    open spec fn size() -> nat {
        8
    }

    open spec fn decode_spec(b: Seq<u8>) -> ResourceDirectoryEntry {
        ResourceDirectoryEntry { name: ru32(b, 0), offset: ru32(b, 4) }
    }

    fn size_of() -> usize {
        8
    }

    fn read_at(buf: &[u8], off: usize) -> ResourceDirectoryEntry {
        let _len = buf.len();
        let v = ResourceDirectoryEntry {
            name: u32::read_at(buf, off),
            offset: u32::read_at(buf, off + 4),
        };
        proof {
            let b = buf@.subrange(off as int, off + 8);
            assert(buf@.subrange(off as int, off + 4) =~= b.subrange(0, 4));
            assert(buf@.subrange(off + 4, off + 8) =~= b.subrange(4, 8));
        }
        v
    }

    fn as_bytes(&self) -> (b: Vec<u8>)
        ensures
            b@.len() == Self::size(),
            Self::decode_spec(b@) == *self,
    {
        let mut b = self.name.as_bytes();
        let ghost s1 = b@;
        let mut t = self.offset.as_bytes();
        let ghost s2 = t@;
        b.append(&mut t);
        proof {
            assert(b@.subrange(0, 4) =~= s1);
            assert(b@.subrange(4, 8) =~= s2);
        }
        b
    }
}

/// A leaf of the resource tree: the RVA and size of the raw blob.
#[derive(Clone, Copy, PartialEq, Eq, Structural, Debug)]
pub struct ResourceDataEntry {
    pub offset_to_data: u32,
    pub size: u32,
    pub code_page: u32,
    pub reserved: u32,
}

impl Pod for ResourceDataEntry {
    open spec fn size() -> nat {
        16
    }

    open spec fn decode_spec(b: Seq<u8>) -> ResourceDataEntry {
        ResourceDataEntry {
            offset_to_data: ru32(b, 0),
            size: ru32(b, 4),
            code_page: ru32(b, 8),
            reserved: ru32(b, 12),
        }
    }

    fn size_of() -> usize {
        16
    }

    fn read_at(buf: &[u8], off: usize) -> ResourceDataEntry {
        let _len = buf.len();
        let v = ResourceDataEntry {
            offset_to_data: u32::read_at(buf, off),
            size: u32::read_at(buf, off + 4),
            code_page: u32::read_at(buf, off + 8),
            reserved: u32::read_at(buf, off + 12),
        };
        proof {
            let b = buf@.subrange(off as int, off + 16);
            assert(buf@.subrange(off as int, off + 4) =~= b.subrange(0, 4));
            assert(buf@.subrange(off + 4, off + 8) =~= b.subrange(4, 8));
            assert(buf@.subrange(off + 8, off + 12) =~= b.subrange(8, 12));
            assert(buf@.subrange(off + 12, off + 16) =~= b.subrange(12, 16));
        }
        v
    }

    fn as_bytes(&self) -> (b: Vec<u8>)
        ensures
            b@.len() == Self::size(),
            Self::decode_spec(b@) == *self,
    {
        let mut b = self.offset_to_data.as_bytes();
        let ghost s1 = b@;
        let mut t = self.size.as_bytes();
        let ghost s2 = t@;
        b.append(&mut t);
        let mut t = self.code_page.as_bytes();
        let ghost s3 = t@;
        b.append(&mut t);
        let mut t = self.reserved.as_bytes();
        let ghost s4 = t@;
        b.append(&mut t);
        proof {
            assert(b@.subrange(0, 4) =~= s1);
            assert(b@.subrange(4, 8) =~= s2);
            assert(b@.subrange(8, 12) =~= s3);
            assert(b@.subrange(12, 16) =~= s4);
        }
        b
    }
}

/// What scanning a node's entries for `id` returns: the offset field of
/// the first entry whose name equals `id`, a not-found failure when no
/// entry matches, and the read failure of a truncated table.
pub open spec fn spec_scan_entries(
    pe: PeFile,
    dir_rva: u32,
    id: u32,
    total: int,
    i: int,
) -> Result<u32, Error>
    decreases total - i,
{
    if i >= total {
        Err(Error::NotFound)
    } else {
        let erva = dir_rva + 16 + i * 8;
        if erva + 8 > u32::MAX {
            Err(Error::OutOfBounds)
        } else {
            match pe.spec_derva::<ResourceDirectoryEntry>(erva as u32) {
                Err(e) => Err(e),
                Ok(en) => if en.name == id {
                    Ok(en.offset)
                } else {
                    spec_scan_entries(pe, dir_rva, id, total, i + 1)
                },
            }
        }
    }
}

/// What looking `id` up in the node at `dir_rva` returns.
pub open spec fn spec_find_res_entry(pe: PeFile, dir_rva: u32, id: u32) -> Result<u32, Error> {
    match pe.spec_derva::<ResourceDirectory>(dir_rva) {
        Err(e) => Err(e),
        Ok(d) => spec_scan_entries(
            pe,
            dir_rva,
            id,
            d.number_of_named_entries + d.number_of_id_entries,
            0,
        ),
    }
}

/// What `version_info` returns: the raw bytes of the version blob reached
/// through type 16, name ID 1 and the requested language, or the first
/// failure of the walk.
pub open spec fn spec_version_info(pe: PeFile, lang: u16) -> Result<Seq<u8>, Error> {
    match pe.resource_dir {
        None => Err(Error::NotFound),
        Some(dd) => match spec_find_res_entry(pe, dd.rva, 16) {
            Err(e) => Err(e),
            Ok(e1) => if e1 < 0x8000_0000 {
                Err(Error::BadMagic)
            } else if dd.rva + (e1 - 0x8000_0000) > u32::MAX {
                Err(Error::OutOfBounds)
            } else {
                match spec_find_res_entry(pe, (dd.rva + (e1 - 0x8000_0000)) as u32, 1) {
                    Err(e) => Err(e),
                    Ok(e2) => if e2 < 0x8000_0000 {
                        Err(Error::BadMagic)
                    } else if dd.rva + (e2 - 0x8000_0000) > u32::MAX {
                        Err(Error::OutOfBounds)
                    } else {
                        match spec_find_res_entry(
                            pe,
                            (dd.rva + (e2 - 0x8000_0000)) as u32,
                            lang as u32,
                        ) {
                            Err(e) => Err(e),
                            Ok(e3) => if e3 >= 0x8000_0000 {
                                Err(Error::BadMagic)
                            } else if dd.rva + e3 > u32::MAX {
                                Err(Error::OutOfBounds)
                            } else {
                                match pe.spec_derva::<ResourceDataEntry>((dd.rva + e3) as u32) {
                                    Err(e) => Err(e),
                                    Ok(de) => if de.offset_to_data + de.size <= pe.buf@.len() {
                                        Ok(
                                            pe.buf@.subrange(
                                                de.offset_to_data as int,
                                                de.offset_to_data + de.size,
                                            ),
                                        )
                                    } else {
                                        Err(Error::OutOfBounds)
                                    },
                                }
                            },
                        }
                    },
                }
            },
        },
    }
}

impl<'a> PeFile<'a> {
    /// Scans the entries of the node at `dir_rva` for the first one whose
    /// name field equals `id`.
    fn scan_res_entries(&self, dir_rva: u32, id: u32, total: u32, i: u32) -> (r: Result<u32, Error>)
        requires
            i <= total,
            total <= 0x1FFFE,
        ensures
            r == spec_scan_entries(*self, dir_rva, id, total as int, i as int),
        decreases total - i,
    {
        if i >= total {
            return Err(Error::NotFound);
        }
        let erva: u64 = dir_rva as u64 + 16 + i as u64 * 8;
        if erva + 8 > u32::MAX as u64 {
            return Err(Error::OutOfBounds);
        }
        match self.derva::<ResourceDirectoryEntry>(erva as u32) {
            Err(e) => Err(e),
            Ok(en) => if en.name == id {
                Ok(en.offset)
            } else {
                self.scan_res_entries(dir_rva, id, total, i + 1)
            },
        }
    }

    /// Looks `id` up among the entries of the resource node at `dir_rva`.
    fn find_res_entry(&self, dir_rva: u32, id: u32) -> (r: Result<u32, Error>)
        ensures
            r == spec_find_res_entry(*self, dir_rva, id),
    {
        match self.derva::<ResourceDirectory>(dir_rva) {
            Err(e) => Err(e),
            Ok(d) => {
                let total = d.number_of_named_entries as u32 + d.number_of_id_entries as u32;
                self.scan_res_entries(dir_rva, id, total, 0)
            },
        }
    }

    /// The resource data directory the header declares, or a not-found
    /// failure when the image has none.
    pub fn resources(&self) -> (r: Result<DataDirectory, Error>)
        ensures
            r == match self.resource_dir {
                Some(dd) => Ok::<DataDirectory, Error>(dd),
                None => Err::<DataDirectory, Error>(Error::NotFound),
            },
    {
        match self.resource_dir {
            Some(dd) => Ok(dd),
            None => Err(Error::NotFound),
        }
    }

    /// Locates the version resource for the requested language: walks the
    /// resource tree by type 16, name ID 1 and `lang`, and copies the
    /// blob the leaf points at. Fails with a not-found error when the
    /// image has no resources or the requested entry is absent.
    pub fn version_info(&self, lang: u16) -> (r: Result<VersionInfo, Error>)
        ensures
            match r {
                Ok(vi) => spec_version_info(*self, lang) == Ok::<Seq<u8>, Error>(vi.data@),
                Err(e) => spec_version_info(*self, lang) == Err::<Seq<u8>, Error>(e),
            },
    {
        let dd = match self.resources() {
            Ok(dd) => dd,
            Err(e) => return Err(e),
        };
        let e1 = match self.find_res_entry(dd.rva, 16) {
            Ok(v) => v,
            Err(e) => return Err(e),
        };
        if e1 < 0x8000_0000 {
            return Err(Error::BadMagic);
        }
        if (e1 - 0x8000_0000) as u64 + dd.rva as u64 > u32::MAX as u64 {
            return Err(Error::OutOfBounds);
        }
        let e2 = match self.find_res_entry(dd.rva + (e1 - 0x8000_0000), 1) {
            Ok(v) => v,
            Err(e) => return Err(e),
        };
        if e2 < 0x8000_0000 {
            return Err(Error::BadMagic);
        }
        if (e2 - 0x8000_0000) as u64 + dd.rva as u64 > u32::MAX as u64 {
            return Err(Error::OutOfBounds);
        }
        let e3 = match self.find_res_entry(dd.rva + (e2 - 0x8000_0000), lang as u32) {
            Ok(v) => v,
            Err(e) => return Err(e),
        };
        if e3 >= 0x8000_0000 {
            return Err(Error::BadMagic);
        }
        if e3 as u64 + dd.rva as u64 > u32::MAX as u64 {
            return Err(Error::OutOfBounds);
        }
        let de = match self.derva::<ResourceDataEntry>(dd.rva + e3) {
            Ok(v) => v,
            Err(e) => return Err(e),
        };
        let len = self.buf.len();
        if !(de.offset_to_data as u64 + de.size as u64 <= len as u64) {
            return Err(Error::OutOfBounds);
        }
        let start = de.offset_to_data as usize;
        let stop = start + de.size as usize;
        let blob = slice_subrange(self.buf, start, stop);
        Ok(VersionInfo { data: slice_to_vec(blob) })
    }
}

/// A version-information resource: the raw bytes of its blob, interpreted
/// on demand by [`VersionInfo::fixed`] and [`VersionInfo::strings`].
pub struct VersionInfo {
    pub data: Vec<u8>,
}

/// The fixed-layout header of a version resource: numeric version
/// quadruples, flags and type fields.
#[derive(Clone, Copy, PartialEq, Eq, Structural, Debug)]
pub struct FixedFileInfo {
    pub signature: u32,
    pub struc_version: u32,
    pub file_version_ms: u32,
    pub file_version_ls: u32,
    pub product_version_ms: u32,
    pub product_version_ls: u32,
    pub file_flags_mask: u32,
    pub file_flags: u32,
    pub file_os: u32,
    pub file_type: u32,
    pub file_subtype: u32,
    pub file_date_ms: u32,
    pub file_date_ls: u32,
}

/// What `fixed` returns: the magic-validated fixed header embedded at its
/// known sub-offset, when the blob declares one of the expected length.
pub open spec fn spec_fixed(b: Seq<u8>) -> Option<FixedFileInfo> {
    if b.len() >= 92 && ru16(b, 2) == 52 && ru32(b, 40) == 0xFEEF04BD {
        Some(
            FixedFileInfo {
                signature: ru32(b, 40),
                struc_version: ru32(b, 44),
                file_version_ms: ru32(b, 48),
                file_version_ls: ru32(b, 52),
                product_version_ms: ru32(b, 56),
                product_version_ls: ru32(b, 60),
                file_flags_mask: ru32(b, 64),
                file_flags: ru32(b, 68),
                file_os: ru32(b, 72),
                file_type: ru32(b, 76),
                file_subtype: ru32(b, 80),
                file_date_ms: ru32(b, 84),
                file_date_ls: ru32(b, 88),
            },
        )
    } else {
        None
    }
}

impl VersionInfo {
    /// The optional fixed file info: present when the blob's declared
    /// value length and the header magic match the fixed-layout form.
    pub fn fixed(&self) -> (r: Option<FixedFileInfo>)
        ensures
            r == spec_fixed(self.data@),
    {
        let len = self.data.len();
        if len < 92 {
            return None;
        }
        let b = self.data.as_slice();
        if u16::read_at(b, 2) != 52 {
            return None;
        }
        if u32::read_at(b, 40) != 0xFEEF04BD {
            return None;
        }
        Some(
            FixedFileInfo {
                signature: u32::read_at(b, 40),
                struc_version: u32::read_at(b, 44),
                file_version_ms: u32::read_at(b, 48),
                file_version_ls: u32::read_at(b, 52),
                product_version_ms: u32::read_at(b, 56),
                product_version_ls: u32::read_at(b, 60),
                file_flags_mask: u32::read_at(b, 64),
                file_flags: u32::read_at(b, 68),
                file_os: u32::read_at(b, 72),
                file_type: u32::read_at(b, 76),
                file_subtype: u32::read_at(b, 80),
                file_date_ms: u32::read_at(b, 84),
                file_date_ls: u32::read_at(b, 88),
            },
        )
    }
}

/// The next 4-byte boundary at or after `i`: version blobs pad every
/// block, key and value to this alignment.
pub open spec fn align4(i: int) -> int {
    ((i + 3) / 4) * 4
}

/// The smaller of two offsets.
pub open spec fn imin(a: int, b: int) -> int {
    if a < b {
        a
    } else {
        b
    }
}

/// The `n` 16-bit values starting at byte offset `off` of `b`.
pub open spec fn spec_ru16s(b: Seq<u8>, off: int, n: int) -> Seq<u16> {
    if n <= 0 {
        Seq::<u16>::empty()
    } else {
        Seq::new(n as nat, |k: int| ru16(b, off + 2 * k))
    }
}

/// Byte offset of the first zero 16-bit unit at or after `i`, stepping by
/// whole units.
pub open spec fn spec_find_nul16(b: Seq<u8>, i: int) -> Option<int>
    decreases b.len() - i,
{
    if i < 0 || i + 2 > b.len() {
        None
    } else if ru16(b, i) == 0 {
        Some(i)
    } else {
        spec_find_nul16(b, i + 2)
    }
}

/// A value with its terminating zero unit removed, when one is present.
pub open spec fn trim_nul(v: Seq<u16>) -> Seq<u16> {
    if v.len() > 0 && v.last() == 0 {
        v.drop_last()
    } else {
        v
    }
}

/// The UTF-16 units of the block key that introduces the string tables.
pub open spec fn sfi_key() -> Seq<u16> {
    seq![
        0x53u16,
        0x74u16,
        0x72u16,
        0x69u16,
        0x6Eu16,
        0x67u16,
        0x46u16,
        0x69u16,
        0x6Cu16,
        0x65u16,
        0x49u16,
        0x6Eu16,
        0x66u16,
        0x6Fu16,
    ]
}

/// One string of a language table: the table's language key and the
/// string's key and value, all as raw UTF-16 code units.
pub struct StringEntry {
    pub lang: Vec<u16>,
    pub key: Vec<u16>,
    pub value: Vec<u16>,
}

/// The view of one extracted string triple.
pub open spec fn sview(e: StringEntry) -> (Seq<u16>, Seq<u16>, Seq<u16>) {
    (e.lang@, e.key@, e.value@)
}

/// The view of a sequence of extracted string triples.
pub open spec fn sseq(s: Seq<StringEntry>) -> Seq<(Seq<u16>, Seq<u16>, Seq<u16>)> {
    s.map_values(|e: StringEntry| sview(e))
}

/// The triples of the string entries laid out from `off` up to `end`
/// inside the table whose language key is `lang`: each entry is a
/// length-prefixed block holding a null-terminated UTF-16 key and a
/// counted UTF-16 value (its terminating zero unit trimmed). A malformed
/// entry ends the table's walk; an entry whose value runs past the buffer
/// is skipped.
pub open spec fn spec_entries(b: Seq<u8>, off: int, end: int, lang: Seq<u16>) -> Seq<
    (Seq<u16>, Seq<u16>, Seq<u16>),
>
    decreases end - off,
{
    if off < 0 || off + 6 > end || end > b.len() {
        Seq::<(Seq<u16>, Seq<u16>, Seq<u16>)>::empty()
    } else {
        let l = ru16(b, off);
        if l < 6 {
            Seq::<(Seq<u16>, Seq<u16>, Seq<u16>)>::empty()
        } else {
            let vl = ru16(b, off + 2);
            let next = align4(off + l);
            let here = match spec_find_nul16(b, off + 6) {
                None => Seq::<(Seq<u16>, Seq<u16>, Seq<u16>)>::empty(),
                Some(kend) => {
                    let key = spec_ru16s(b, off + 6, (kend - (off + 6)) / 2);
                    let voff = align4(kend + 2);
                    if voff + 2 * vl <= b.len() {
                        seq![(lang, key, trim_nul(spec_ru16s(b, voff, vl as int)))]
                    } else {
                        Seq::<(Seq<u16>, Seq<u16>, Seq<u16>)>::empty()
                    }
                },
            };
            if next + 6 <= end {
                here + spec_entries(b, next, end, lang)
            } else {
                here
            }
        }
    }
}

/// The triples of the string tables laid out from `off` up to `end`: each
/// table is a length-prefixed block whose null-terminated UTF-16 key
/// names the language, followed by its string entries.
pub open spec fn spec_tables(b: Seq<u8>, off: int, end: int) -> Seq<(Seq<u16>, Seq<u16>, Seq<u16>)>
    decreases end - off,
{
    if off < 0 || off + 6 > end || end > b.len() {
        Seq::<(Seq<u16>, Seq<u16>, Seq<u16>)>::empty()
    } else {
        let l = ru16(b, off);
        if l < 6 {
            Seq::<(Seq<u16>, Seq<u16>, Seq<u16>)>::empty()
        } else {
            let next = align4(off + l);
            let here = match spec_find_nul16(b, off + 6) {
                None => Seq::<(Seq<u16>, Seq<u16>, Seq<u16>)>::empty(),
                Some(kend) => {
                    let lang = spec_ru16s(b, off + 6, (kend - (off + 6)) / 2);
                    spec_entries(b, align4(kend + 2), imin(off + l, end), lang)
                },
            };
            if next + 6 <= end {
                here + spec_tables(b, next, end)
            } else {
                here
            }
        }
    }
}

/// The triples of the top-level child blocks of a version blob from `off`
/// on: a block whose key introduces string tables contributes its tables'
/// triples; any other block (such as translation variables) contributes
/// none.
pub open spec fn spec_blocks(b: Seq<u8>, off: int) -> Seq<(Seq<u16>, Seq<u16>, Seq<u16>)>
    decreases b.len() - off,
{
    if off < 0 || off + 6 > b.len() {
        Seq::<(Seq<u16>, Seq<u16>, Seq<u16>)>::empty()
    } else {
        let l = ru16(b, off);
        if l < 6 {
            Seq::<(Seq<u16>, Seq<u16>, Seq<u16>)>::empty()
        } else {
            let next = align4(off + l);
            let here = match spec_find_nul16(b, off + 6) {
                None => Seq::<(Seq<u16>, Seq<u16>, Seq<u16>)>::empty(),
                Some(kend) => {
                    let key = spec_ru16s(b, off + 6, (kend - (off + 6)) / 2);
                    if key == sfi_key() {
                        spec_tables(b, align4(kend + 2), imin(off + l, b.len() as int))
                    } else {
                        Seq::<(Seq<u16>, Seq<u16>, Seq<u16>)>::empty()
                    }
                },
            };
            if next + 6 <= b.len() {
                here + spec_blocks(b, next)
            } else {
                here
            }
        }
    }
}

/// What `strings` returns: the triples of every string table of the blob,
/// in layout order. The walk starts at the first child block, past the
/// blob header and its counted value (the fixed file info).
pub open spec fn spec_strings(b: Seq<u8>) -> Seq<(Seq<u16>, Seq<u16>, Seq<u16>)> {
    if b.len() < 40 {
        Seq::<(Seq<u16>, Seq<u16>, Seq<u16>)>::empty()
    } else {
        spec_blocks(b, align4(40 + ru16(b, 2)))
    }
}

/// Decides `spec_find_nul16`.
fn find_nul16(b: &[u8], i: usize) -> (r: Option<usize>)
    ensures
        match r {
            Some(k) => spec_find_nul16(b@, i as int) == Some(k as int) && i <= k && k + 2
                <= b@.len(),
            None => spec_find_nul16(b@, i as int) is None,
        },
    decreases b@.len() - i,
{
    let len = b.len();
    if len < 2 || i > len - 2 {
        return None;
    }
    if u16::read_at(b, i) == 0 {
        Some(i)
    } else {
        find_nul16(b, i + 2)
    }
}

/// Reads `n` 16-bit values starting at byte offset `off` of `b`.
#[verifier::loop_isolation(false)]
fn read_u16s(b: &[u8], off: usize, n: usize) -> (r: Vec<u16>)
    requires
        off + 2 * n <= b@.len(),
    ensures
        r@ == spec_ru16s(b@, off as int, n as int),
{
    let _len = b.len();
    let mut r: Vec<u16> = Vec::new();
    let mut k: usize = 0;
    while k < n
        invariant
            k <= n,
            r@.len() == k,
            forall|j: int| 0 <= j < k ==> r@[j] == ru16(b@, off + 2 * j),
        decreases n - k,
    {
        r.push(u16::read_at(b, off + 2 * k));
        k += 1;
    }
    proof {
        assert(r@ =~= spec_ru16s(b@, off as int, n as int));
    }
    r
}

/// Decides whether `key` spells the string-table block key.
fn is_sfi_key(key: &Vec<u16>) -> (r: bool)
    ensures
        r == (key@ == sfi_key()),
{
    if key.len() != 14 {
        return false;
    }
    let expect: [u16; 14] = [
        0x53,
        0x74,
        0x72,
        0x69,
        0x6E,
        0x67,
        0x46,
        0x69,
        0x6C,
        0x65,
        0x49,
        0x6E,
        0x66,
        0x6F,
    ];
    let mut i: usize = 0;
    while i < 14
        invariant
            i <= 14,
            key@.len() == 14,
            expect@ =~= sfi_key(),
            forall|j: int| 0 <= j < i ==> key@[j] == sfi_key()[j],
        decreases 14 - i,
    {
        if key[i] != expect[i] {
            proof {
                assert(key@[i as int] != sfi_key()[i as int]);
            }
            return false;
        }
        i += 1;
    }
    proof {
        assert(key@ =~= sfi_key());
    }
    true
}

/// Extracts the string entries of one table; mirrors `spec_entries`.
fn entries_from(b: &[u8], off: usize, end: usize, lang: &Vec<u16>) -> (r: Vec<StringEntry>)
    requires
        end <= b@.len(),
    ensures
        sseq(r@) == spec_entries(b@, off as int, end as int, lang@),
    decreases end - off,
{
    let len = b.len();
    if end < 6 || off > end - 6 {
        return Vec::new();
    }
    let l = u16::read_at(b, off);
    if l < 6 {
        return Vec::new();
    }
    let vl = u16::read_at(b, off + 2);
    let next128: u128 = ((off as u128 + l as u128 + 3) / 4) * 4;
    let here: Vec<StringEntry> = match find_nul16(b, off + 6) {
        None => Vec::new(),
        Some(kend) => {
            let key = read_u16s(b, off + 6, (kend - (off + 6)) / 2);
            let voff128: u128 = ((kend as u128 + 2 + 3) / 4) * 4;
            if voff128 + 2 * (vl as u128) <= len as u128 {
                let voff = voff128 as usize;
                let mut value = read_u16s(b, voff, vl as usize);
                let vn = value.len();
                if vn > 0 && value[vn - 1] == 0 {
                    value.pop();
                }
                let e = StringEntry { lang: slice_to_vec(lang.as_slice()), key, value };
                let mut hv: Vec<StringEntry> = Vec::new();
                hv.push(e);
                hv
            } else {
                Vec::new()
            }
        },
    };
    if next128 + 6 <= end as u128 {
        let mut r = here;
        let ghost hview = sseq(r@);
        let mut rest = entries_from(b, next128 as usize, end, lang);
        let ghost rview = sseq(rest@);
        r.append(&mut rest);
        proof {
            assert(sseq(r@) =~= hview + rview);
        }
        r
    } else {
        here
    }
}

/// Extracts the triples of the string tables in `[off, end)`; mirrors
/// `spec_tables`.
fn tables_from(b: &[u8], off: usize, end: usize) -> (r: Vec<StringEntry>)
    requires
        end <= b@.len(),
    ensures
        sseq(r@) == spec_tables(b@, off as int, end as int),
    decreases end - off,
{
    let len = b.len();
    if end < 6 || off > end - 6 {
        return Vec::new();
    }
    let l = u16::read_at(b, off);
    if l < 6 {
        return Vec::new();
    }
    let next128: u128 = ((off as u128 + l as u128 + 3) / 4) * 4;
    let here: Vec<StringEntry> = match find_nul16(b, off + 6) {
        None => Vec::new(),
        Some(kend) => {
            let lang = read_u16s(b, off + 6, (kend - (off + 6)) / 2);
            let estart128: u128 = ((kend as u128 + 2 + 3) / 4) * 4;
            let eend: usize = if (off as u128) + (l as u128) < (end as u128) {
                off + l as usize
            } else {
                end
            };
            if estart128 <= eend as u128 {
                entries_from(b, estart128 as usize, eend, &lang)
            } else {
                let v: Vec<StringEntry> = Vec::new();
                proof {
                    assert(sseq(v@) =~= spec_entries(
                        b@,
                        align4(kend + 2),
                        imin(off + l, end as int),
                        lang@,
                    ));
                }
                v
            }
        },
    };
    if next128 + 6 <= end as u128 {
        let mut r = here;
        let ghost hview = sseq(r@);
        let mut rest = tables_from(b, next128 as usize, end);
        let ghost rview = sseq(rest@);
        r.append(&mut rest);
        proof {
            assert(sseq(r@) =~= hview + rview);
        }
        r
    } else {
        here
    }
}

/// Extracts the triples of the top-level child blocks from `off` on;
/// mirrors `spec_blocks`.
fn blocks_from(b: &[u8], off: usize) -> (r: Vec<StringEntry>)
    ensures
        sseq(r@) == spec_blocks(b@, off as int),
    decreases b@.len() - off,
{
    let len = b.len();
    if len < 6 || off > len - 6 {
        return Vec::new();
    }
    let l = u16::read_at(b, off);
    if l < 6 {
        return Vec::new();
    }
    let next128: u128 = ((off as u128 + l as u128 + 3) / 4) * 4;
    let here: Vec<StringEntry> = match find_nul16(b, off + 6) {
        None => Vec::new(),
        Some(kend) => {
            let key = read_u16s(b, off + 6, (kend - (off + 6)) / 2);
            if is_sfi_key(&key) {
                let tstart128: u128 = ((kend as u128 + 2 + 3) / 4) * 4;
                let tend: usize = if (off as u128) + (l as u128) < (len as u128) {
                    off + l as usize
                } else {
                    len
                };
                if tstart128 <= tend as u128 {
                    tables_from(b, tstart128 as usize, tend)
                } else {
                    let v: Vec<StringEntry> = Vec::new();
                    proof {
                        assert(sseq(v@) =~= spec_tables(
                            b@,
                            align4(kend + 2),
                            imin(off + l, b@.len() as int),
                        ));
                    }
                    v
                }
            } else {
                Vec::new()
            }
        },
    };
    if next128 + 6 <= len as u128 {
        let mut r = here;
        let ghost hview = sseq(r@);
        let mut rest = blocks_from(b, next128 as usize);
        let ghost rview = sseq(rest@);
        r.append(&mut rest);
        proof {
            assert(sseq(r@) =~= hview + rview);
        }
        r
    } else {
        here
    }
}

impl VersionInfo {
    /// Walks the blob's language-keyed string tables and returns every
    /// (language, key, value) triple, in layout order, as raw UTF-16 code
    /// units. Decoding to readable text is the caller's concern.
    pub fn strings(&self) -> (r: Vec<StringEntry>)
        ensures
            sseq(r@) == spec_strings(self.data@),
    {
        let b = self.data.as_slice();
        let len = b.len();
        if len < 40 {
            return Vec::new();
        }
        let vl = u16::read_at(b, 2);
        let start: usize = ((40 + vl as usize + 3) / 4) * 4;
        blocks_from(b, start)
    }
}

} // verus!
