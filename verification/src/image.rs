//! The unified image façade: header parsing, coordinate translation and
//! bounds-checked typed views over a flat-file PE image buffer.
//!
//! A [`PeFile`] borrows an immutable byte buffer and the header data parsed
//! from it once at open time. All later operations are read-only, total,
//! and report a typed [`Error`] instead of panicking or reading out of
//! bounds. Coordinates live in three spaces: raw file offset, relative
//! virtual address (RVA) and absolute virtual address (VA); sections map
//! file-offset ranges to RVA ranges, and the header-declared image base
//! maps RVAs to VAs.

use vstd::prelude::*;

use crate::err::Error;
use crate::pod::Pod;

verus! {

/// One entry of the section table: maps a contiguous RVA range to a
/// contiguous file-offset range. The two sizes may differ (zero-fill on
/// load), so only the part of the RVA range below both sizes is backed by
/// file bytes.
#[derive(Clone, Copy, PartialEq, Eq, Structural, Debug)]
pub struct SectionHeader {
    /// Start of the section's range in RVA space.
    pub virtual_address: u32,
    /// Length of the section's range in RVA space.
    pub virtual_size: u32,
    /// Start of the section's range in file-offset space.
    pub pointer_to_raw_data: u32,
    /// Length of the section's range in file-offset space.
    pub size_of_raw_data: u32,
}

/// One entry of the optional header's data-directory table: an RVA range.
#[derive(Clone, Copy, PartialEq, Eq, Structural, Debug)]
pub struct DataDirectory {
    pub rva: u32,
    pub size: u32,
}

/// The two header layouts an image can use, chosen once at open time by
/// the optional-header magic.
#[derive(Clone, Copy, PartialEq, Eq, Structural, Debug)]
pub enum Bitness {
    Pe32,
    Pe64,
}

/// A typed-pointer value in VA space. The zero value is the null sentinel:
/// it is detected by equality, never by a bounds check, and dereferencing
/// it always fails.
#[derive(Clone, Copy, PartialEq, Eq, Structural, Debug)]
pub struct Ptr {
    pub va: u64,
}

impl Ptr {
    /// The null sentinel value.
    pub open spec fn spec_null() -> Ptr {
        Ptr { va: 0 }
    }

    /// Whether this pointer equals the null sentinel.
    pub open spec fn is_null(self) -> bool {
        self.va == 0
    }

    /// The null sentinel value, as executable code.
    pub fn null() -> (p: Ptr)
        ensures
            p == Self::spec_null(),
    {
        Ptr { va: 0 }
    }
}

impl Pod for Ptr {
    open spec fn size() -> nat {
        8
    }

    open spec fn decode_spec(b: Seq<u8>) -> Ptr {
        Ptr { va: u64::decode_spec(b) }
    }

    fn size_of() -> usize {
        8
    }

    fn read_at(buf: &[u8], off: usize) -> Ptr {
        Ptr { va: u64::read_at(buf, off) }
    }

    fn as_bytes(&self) -> Vec<u8> {
        self.va.as_bytes()
    }
}

/// Whether `s`'s file-offset range contains `off`.
pub open spec fn sec_claims_fo(s: SectionHeader, off: u32) -> bool {
    s.pointer_to_raw_data <= off < s.pointer_to_raw_data + s.size_of_raw_data
}

/// Whether `s`'s RVA (memory) range contains `rva`.
pub open spec fn sec_claims_rva(s: SectionHeader, rva: u32) -> bool {
    s.virtual_address <= rva < s.virtual_address + s.virtual_size
}

/// Index of the first section at or after `i` whose file-offset range
/// contains `off`. The first section in file order wins when malformed
/// tables overlap.
pub open spec fn find_fo_from(ss: Seq<SectionHeader>, off: u32, i: int) -> Option<int>
    decreases ss.len() - i,
{
    if i < 0 || i >= ss.len() {
        None
    } else if sec_claims_fo(ss[i], off) {
        Some(i)
    } else {
        find_fo_from(ss, off, i + 1)
    }
}

/// Index of the first section whose file-offset range contains `off`.
pub open spec fn find_fo(ss: Seq<SectionHeader>, off: u32) -> Option<int> {
    find_fo_from(ss, off, 0)
}

/// Index of the first section at or after `i` whose RVA range contains
/// `rva`.
pub open spec fn find_rva_from(ss: Seq<SectionHeader>, rva: u32, i: int) -> Option<int>
    decreases ss.len() - i,
{
    if i < 0 || i >= ss.len() {
        None
    } else if sec_claims_rva(ss[i], rva) {
        Some(i)
    } else {
        find_rva_from(ss, rva, i + 1)
    }
}

/// Index of the first section whose RVA range contains `rva`.
pub open spec fn find_rva(ss: Seq<SectionHeader>, rva: u32) -> Option<int> {
    find_rva_from(ss, rva, 0)
}

/// What `find_fo_from` returns: the first claiming index at or after `i`,
/// or `None` when no section at or after `i` claims the offset.
pub proof fn lemma_find_fo_from(ss: Seq<SectionHeader>, off: u32, i: int)
    requires
        0 <= i <= ss.len(),
    ensures
        match find_fo_from(ss, off, i) {
            Some(k) => i <= k < ss.len() && sec_claims_fo(ss[k], off) && forall|j: int|
                i <= j < k ==> !sec_claims_fo(#[trigger] ss[j], off),
            None => forall|j: int| i <= j < ss.len() ==> !sec_claims_fo(#[trigger] ss[j], off),
        },
    decreases ss.len() - i,
{
    if i < ss.len() && !sec_claims_fo(ss[i], off) {
        lemma_find_fo_from(ss, off, i + 1);
    }
}

/// What `find_rva_from` returns, in the same shape as `lemma_find_fo_from`.
pub proof fn lemma_find_rva_from(ss: Seq<SectionHeader>, rva: u32, i: int)
    requires
        0 <= i <= ss.len(),
    ensures
        match find_rva_from(ss, rva, i) {
            Some(k) => i <= k < ss.len() && sec_claims_rva(ss[k], rva) && forall|j: int|
                i <= j < k ==> !sec_claims_rva(#[trigger] ss[j], rva),
            None => forall|j: int| i <= j < ss.len() ==> !sec_claims_rva(#[trigger] ss[j], rva),
        },
    decreases ss.len() - i,
{
    if i < ss.len() && !sec_claims_rva(ss[i], rva) {
        lemma_find_rva_from(ss, rva, i + 1);
    }
}

/// File offset to RVA: the first section claiming the offset maps it, by
/// the distance from its range start; fails when no section claims it or
/// the mapped RVA would not fit.
pub open spec fn spec_file_offset_to_rva(ss: Seq<SectionHeader>, off: u32) -> Result<u32, Error> {
    match find_fo(ss, off) {
        Some(k) => {
            let s = ss[k];
            let d = off - s.pointer_to_raw_data;
            if s.virtual_address + d <= u32::MAX {
                Ok((s.virtual_address + d) as u32)
            } else {
                Err(Error::Translation)
            }
        },
        None => Err(Error::Translation),
    }
}

/// RVA to file offset: the first section whose memory range claims the RVA
/// maps it; fails when no section claims it, when the RVA lies beyond the
/// section's file-backed size (zero-fill padding has no file
/// representation), or when the mapped offset would not fit.
pub open spec fn spec_rva_to_file_offset(ss: Seq<SectionHeader>, rva: u32) -> Result<u32, Error> {
    match find_rva(ss, rva) {
        Some(k) => {
            let s = ss[k];
            let d = rva - s.virtual_address;
            if d < s.size_of_raw_data && s.pointer_to_raw_data + d <= u32::MAX {
                Ok((s.pointer_to_raw_data + d) as u32)
            } else {
                Err(Error::Translation)
            }
        },
        None => Err(Error::Translation),
    }
}

/// VA to RVA: subtracts the image base; fails below the base or at or
/// beyond `image base + size_of_image`.
pub open spec fn spec_va_to_rva(base: u64, size_of_image: u32, va: u64) -> Result<u32, Error> {
    if base <= va && va - base < size_of_image {
        Ok((va - base) as u32)
    } else {
        Err(Error::Translation)
    }
}

/// RVA to VA: adds the image base; fails on overflow.
pub open spec fn spec_rva_to_va(base: u64, rva: u32) -> Result<u64, Error> {
    if base + rva <= u64::MAX {
        Ok((base + rva) as u64)
    } else {
        Err(Error::Translation)
    }
}

/// The unified image façade: the borrowed buffer plus the header data
/// parsed from it once at open time.
pub struct PeFile<'a> {
    /// The flat-file image bytes; all views point into this buffer.
    pub buf: &'a [u8],
    /// Header layout, chosen by the optional-header magic.
    pub bits: Bitness,
    /// Preferred load address declared by the optional header.
    pub image_base: u64,
    /// Size of the loaded image in RVA space.
    pub size_of_image: u32,
    /// The section table, in file order.
    pub sections: Vec<SectionHeader>,
    /// The resource data directory, when the header declares one.
    pub resource_dir: Option<DataDirectory>,
}

impl<'a> PeFile<'a> {
    /// The underlying image buffer.
    pub fn image(&self) -> (r: &'a [u8])
        ensures
            r@ == self.buf@,
    {
        self.buf
    }

    /// Translates a file offset to the RVA it is loaded at.
    pub fn file_offset_to_rva(&self, off: u32) -> (r: Result<u32, Error>)
        ensures
            r == spec_file_offset_to_rva(self.sections@, off),
    {
        let ghost ss = self.sections@;
        proof {
            lemma_find_fo_from(ss, off, 0);
        }
        let n = self.sections.len();
        let mut i: usize = 0;
        while i < n
            invariant
                n == ss.len(),
                i <= n,
                self.sections@ == ss,
                forall|j: int| 0 <= j < i ==> !sec_claims_fo(#[trigger] ss[j], off),
            decreases n - i,
        {
            let s = self.sections[i];
            if off >= s.pointer_to_raw_data && off - s.pointer_to_raw_data < s.size_of_raw_data {
                proof {
                    lemma_find_fo_from(ss, off, 0);
                    assert(find_fo(ss, off) == Some(i as int));
                }
                let d = off - s.pointer_to_raw_data;
                if d <= u32::MAX - s.virtual_address {
                    return Ok(s.virtual_address + d);
                } else {
                    return Err(Error::Translation);
                }
            }
            i += 1;
        }
        proof {
            lemma_find_fo_from(ss, off, 0);
            assert(find_fo(ss, off) is None);
        }
        Err(Error::Translation)
    }

    /// Translates an RVA to the file offset that backs it.
    pub fn rva_to_file_offset(&self, rva: u32) -> (r: Result<u32, Error>)
        ensures
            r == spec_rva_to_file_offset(self.sections@, rva),
    {
        let ghost ss = self.sections@;
        let n = self.sections.len();
        let mut i: usize = 0;
        while i < n
            invariant
                n == ss.len(),
                i <= n,
                self.sections@ == ss,
                forall|j: int| 0 <= j < i ==> !sec_claims_rva(#[trigger] ss[j], rva),
            decreases n - i,
        {
            let s = self.sections[i];
            if rva >= s.virtual_address && rva - s.virtual_address < s.virtual_size {
                proof {
                    lemma_find_rva_from(ss, rva, 0);
                    assert(find_rva(ss, rva) == Some(i as int));
                }
                let d = rva - s.virtual_address;
                if d < s.size_of_raw_data && d <= u32::MAX - s.pointer_to_raw_data {
                    return Ok(s.pointer_to_raw_data + d);
                } else {
                    return Err(Error::Translation);
                }
            }
            i += 1;
        }
        proof {
            lemma_find_rva_from(ss, rva, 0);
            assert(find_rva(ss, rva) is None);
        }
        Err(Error::Translation)
    }

    /// Translates a VA to its RVA.
    pub fn va_to_rva(&self, va: u64) -> (r: Result<u32, Error>)
        ensures
            r == spec_va_to_rva(self.image_base, self.size_of_image, va),
    {
        if va >= self.image_base && va - self.image_base < self.size_of_image as u64 {
            Ok((va - self.image_base) as u32)
        } else {
            Err(Error::Translation)
        }
    }

    /// Translates an RVA to its VA.
    pub fn rva_to_va(&self, rva: u32) -> (r: Result<u64, Error>)
        ensures
            r == spec_rva_to_va(self.image_base, rva),
    {
        if rva as u64 <= u64::MAX - self.image_base {
            Ok(self.image_base + rva as u64)
        } else {
            Err(Error::Translation)
        }
    }
    /// What `derva` returns: the decoded value when the byte range
    /// `[rva, rva + size)` lies within the buffer, an out-of-bounds
    /// failure otherwise.
    pub open spec fn spec_derva<T: Pod>(self, rva: u32) -> Result<T, Error> {
        if rva + T::size() <= self.buf@.len() {
            Ok(T::decode_spec(self.buf@.subrange(rva as int, rva + T::size())))
        } else {
            Err(Error::OutOfBounds)
        }
    }

    /// Reads a typed value at an RVA. The buffer is treated as the mapped
    /// image layout, so the RVA indexes the buffer directly; the byte
    /// range is bounds-checked before any byte is interpreted, with
    /// checked arithmetic throughout.
    pub fn derva<T: Pod>(&self, rva: u32) -> (r: Result<T, Error>)
        ensures
            r == self.spec_derva::<T>(rva),
            rva + T::size() > self.buf@.len() ==> (r matches Err(e) && e == Error::OutOfBounds),
    {
        let size = T::size_of();
        let len = self.buf.len();
        if rva as usize <= len && size <= len - rva as usize {
            Ok(T::read_at(self.buf, rva as usize))
        } else {
            Err(Error::OutOfBounds)
        }
    }

    /// What `deref` returns: a null failure on the null sentinel, else the
    /// VA-to-RVA translation composed with `derva`, first failure first.
    pub open spec fn spec_deref<T: Pod>(self, p: Ptr) -> Result<T, Error> {
        if p.is_null() {
            Err(Error::Null)
        } else {
            match spec_va_to_rva(self.image_base, self.size_of_image, p.va) {
                Ok(rva) => self.spec_derva::<T>(rva),
                Err(e) => Err(e),
            }
        }
    }

    /// Reads a typed value through a VA-space pointer: translates the VA
    /// to an RVA, then reads as `derva` does. A pointer equal to the null
    /// sentinel always fails with a null error, even when offset zero of
    /// the buffer would otherwise be valid.
    pub fn deref<T: Pod>(&self, p: Ptr) -> (r: Result<T, Error>)
        ensures
            r == self.spec_deref::<T>(p),
            p.is_null() ==> (r matches Err(e) && e == Error::Null),
    {
        if p.va == 0 {
            return Err(Error::Null);
        }
        match self.va_to_rva(p.va) {
            Ok(rva) => self.derva::<T>(rva),
            Err(e) => Err(e),
        }
    }

    /// What `derva_c_str` returns: the bytes from `rva` up to the first
    /// null byte, or an out-of-bounds failure when `rva` is past the
    /// buffer or no null byte follows it.
    pub open spec fn spec_derva_c_str(self, rva: u32) -> Result<Seq<u8>, Error> {
        match spec_find_nul(self.buf@, rva as int) {
            Some(k) => Ok(self.buf@.subrange(rva as int, k)),
            None => Err(Error::OutOfBounds),
        }
    }

    /// Reads a null-terminated byte string at an RVA: scans forward for a
    /// null byte within the buffer and yields the bytes before it. Fails
    /// when the buffer ends before a null byte is found.
    pub fn derva_c_str(&self, rva: u32) -> (r: Result<Vec<u8>, Error>)
        ensures
            match r {
                Ok(v) => self.spec_derva_c_str(rva) == Ok::<Seq<u8>, Error>(v@),
                Err(e) => self.spec_derva_c_str(rva) == Err::<Seq<u8>, Error>(e),
            },
    {
        let ghost b = self.buf@;
        let len = self.buf.len();
        if rva as usize >= len {
            proof {
                lemma_spec_find_nul(b, rva as int);
            }
            return Err(Error::OutOfBounds);
        }
        let mut v: Vec<u8> = Vec::new();
        let mut i: usize = rva as usize;
        while i < len
            invariant
                len == b.len(),
                self.buf@ == b,
                rva <= i <= len,
                v@ == b.subrange(rva as int, i as int),
                forall|j: int| rva <= j < i ==> b[j] != 0,
            decreases len - i,
        {
            let c = self.buf[i];
            if c == 0 {
                proof {
                    lemma_spec_find_nul(b, rva as int);
                    assert(spec_find_nul(b, rva as int) == Some(i as int));
                }
                return Ok(v);
            }
            v.push(c);
            proof {
                assert(v@ =~= b.subrange(rva as int, i + 1));
            }
            i += 1;
        }
        proof {
            lemma_spec_find_nul(b, rva as int);
            assert(spec_find_nul(b, rva as int) is None);
        }
        Err(Error::OutOfBounds)
    }
}

/// The 16-bit little-endian value at byte offset `i` of `b`.
pub open spec fn ru16(b: Seq<u8>, i: int) -> u16 {
    u16::decode_spec(b.subrange(i, i + 2))
}

/// The 32-bit little-endian value at byte offset `i` of `b`.
pub open spec fn ru32(b: Seq<u8>, i: int) -> u32 {
    u32::decode_spec(b.subrange(i, i + 4))
}

/// The 64-bit little-endian value at byte offset `i` of `b`.
pub open spec fn ru64(b: Seq<u8>, i: int) -> u64 {
    u64::decode_spec(b.subrange(i, i + 8))
}

/// The offset of the COFF headers, read from the DOS header.
pub open spec fn spec_e_lfanew(b: Seq<u8>) -> u32 {
    ru32(b, 0x3C)
}

/// The offset of the optional header.
pub open spec fn spec_opt_off(b: Seq<u8>) -> int {
    spec_e_lfanew(b) + 24
}

/// The optional-header magic, which selects the 32-bit or 64-bit layout.
pub open spec fn spec_opt_magic(b: Seq<u8>) -> u16 {
    ru16(b, spec_opt_off(b))
}

/// The declared size of the optional header.
pub open spec fn spec_opt_size(b: Seq<u8>) -> u16 {
    ru16(b, spec_e_lfanew(b) + 20)
}

/// The least optional-header size that holds every field the reader uses,
/// for the layout the magic selects.
pub open spec fn spec_min_opt_size(b: Seq<u8>) -> int {
    if spec_opt_magic(b) == 0x20B {
        112
    } else {
        96
    }
}

/// The declared number of sections.
pub open spec fn spec_nsections(b: Seq<u8>) -> u16 {
    ru16(b, spec_e_lfanew(b) + 6)
}

/// The offset of the section table.
pub open spec fn spec_sect_off(b: Seq<u8>) -> int {
    spec_opt_off(b) + spec_opt_size(b)
}

/// The first header check that fails on `b`, or `None` when `b` opens as
/// a PE image: the DOS and PE signatures and the optional-header magic
/// must match, and every header region must lie within the buffer.
pub open spec fn spec_header_err(b: Seq<u8>) -> Option<Error> {
    if b.len() < 0x40 {
        Some(Error::OutOfBounds)
    } else if !(b[0] == 0x4D && b[1] == 0x5A) {
        Some(Error::BadMagic)
    } else if spec_e_lfanew(b) + 26 > b.len() {
        Some(Error::OutOfBounds)
    } else if ru32(b, spec_e_lfanew(b) as int) != 0x4550 {
        Some(Error::BadMagic)
    } else if spec_opt_magic(b) != 0x10B && spec_opt_magic(b) != 0x20B {
        Some(Error::BadMagic)
    } else if spec_opt_size(b) < spec_min_opt_size(b) {
        Some(Error::BadMagic)
    } else if spec_sect_off(b) + spec_nsections(b) * 40 > b.len() {
        Some(Error::OutOfBounds)
    } else {
        None
    }
}

/// The header layout the optional-header magic selects.
pub open spec fn spec_bitness(b: Seq<u8>) -> Bitness {
    if spec_opt_magic(b) == 0x20B {
        Bitness::Pe64
    } else {
        Bitness::Pe32
    }
}

/// The image base the optional header declares; a 32-bit field under the
/// 32-bit layout, exposed uniformly as a 64-bit value.
pub open spec fn spec_image_base(b: Seq<u8>) -> u64 {
    if spec_opt_magic(b) == 0x20B {
        ru64(b, spec_opt_off(b) + 24)
    } else {
        ru32(b, spec_opt_off(b) + 28) as u64
    }
}

/// The size of the loaded image the optional header declares.
pub open spec fn spec_size_of_image(b: Seq<u8>) -> u32 {
    ru32(b, spec_opt_off(b) + 56)
}

/// The declared number of data directories.
pub open spec fn spec_num_dirs(b: Seq<u8>) -> u32 {
    if spec_opt_magic(b) == 0x20B {
        ru32(b, spec_opt_off(b) + 108)
    } else {
        ru32(b, spec_opt_off(b) + 92)
    }
}

/// The offset of the data-directory table.
pub open spec fn spec_dir_off(b: Seq<u8>) -> int {
    spec_opt_off(b) + spec_min_opt_size(b)
}

/// The resource data directory, when the optional header declares one and
/// is large enough to hold it.
pub open spec fn spec_resource_dir(b: Seq<u8>) -> Option<DataDirectory> {
    if spec_num_dirs(b) >= 3 && spec_opt_size(b) >= spec_min_opt_size(b) + 24 {
        Some(
            DataDirectory {
                rva: ru32(b, spec_dir_off(b) + 16),
                size: ru32(b, spec_dir_off(b) + 20),
            },
        )
    } else {
        None
    }
}

/// Section `i` of the section table, as the header declares it.
pub open spec fn spec_section(b: Seq<u8>, i: int) -> SectionHeader {
    SectionHeader {
        virtual_size: ru32(b, spec_sect_off(b) + i * 40 + 8),
        virtual_address: ru32(b, spec_sect_off(b) + i * 40 + 12),
        size_of_raw_data: ru32(b, spec_sect_off(b) + i * 40 + 16),
        pointer_to_raw_data: ru32(b, spec_sect_off(b) + i * 40 + 20),
    }
}

/// The whole section table, in file order.
pub open spec fn spec_sections(b: Seq<u8>) -> Seq<SectionHeader> {
    Seq::new(spec_nsections(b) as nat, |i: int| spec_section(b, i))
}

impl<'a> PeFile<'a> {
    /// Opens a flat-file PE image: validates the DOS, PE and
    /// optional-header magics, reads the header fields the reader uses,
    /// and collects the section table. The bitness dispatch is made here,
    /// once, by the optional-header magic; all later operations behave
    /// identically under either layout.
    pub fn from_bytes(buf: &'a [u8]) -> (r: Result<PeFile<'a>, Error>)
        ensures
            match r {
                Ok(pe) => spec_header_err(buf@) is None && pe.buf@ == buf@ && pe.bits
                    == spec_bitness(buf@) && pe.image_base == spec_image_base(buf@)
                    && pe.size_of_image == spec_size_of_image(buf@) && pe.sections@
                    == spec_sections(buf@) && pe.resource_dir == spec_resource_dir(buf@),
                Err(e) => spec_header_err(buf@) == Some(e),
            },
    {
        let ghost b = buf@;
        let len = buf.len();
        if len < 0x40 {
            return Err(Error::OutOfBounds);
        }
        if !(buf[0] == 0x4D && buf[1] == 0x5A) {
            return Err(Error::BadMagic);
        }
        let e = u32::read_at(buf, 0x3C);
        if e as u64 + 26 > len as u64 {
            return Err(Error::OutOfBounds);
        }
        let eu = e as usize;
        if u32::read_at(buf, eu) != 0x4550 {
            return Err(Error::BadMagic);
        }
        let opt_magic = u16::read_at(buf, eu + 24);
        if opt_magic != 0x10B && opt_magic != 0x20B {
            return Err(Error::BadMagic);
        }
        let is64 = opt_magic == 0x20B;
        let min_opt: u16 = if is64 {
            112
        } else {
            96
        };
        let opt_size = u16::read_at(buf, eu + 20);
        if opt_size < min_opt {
            return Err(Error::BadMagic);
        }
        let nsec = u16::read_at(buf, eu + 6);
        if eu as u64 + 24 + opt_size as u64 + nsec as u64 * 40 > len as u64 {
            return Err(Error::OutOfBounds);
        }
        let opt_off = eu + 24;
        let sect_off = opt_off + opt_size as usize;
        let image_base: u64 = if is64 {
            u64::read_at(buf, opt_off + 24)
        } else {
            u32::read_at(buf, opt_off + 28) as u64
        };
        let size_of_image = u32::read_at(buf, opt_off + 56);
        let num_dirs = if is64 {
            u32::read_at(buf, opt_off + 108)
        } else {
            u32::read_at(buf, opt_off + 92)
        };
        let resource_dir: Option<DataDirectory> = if num_dirs >= 3 && opt_size >= min_opt + 24 {
            let dir_off = opt_off + min_opt as usize;
            Some(
                DataDirectory {
                    rva: u32::read_at(buf, dir_off + 16),
                    size: u32::read_at(buf, dir_off + 20),
                },
            )
        } else {
            None
        };
        let mut sections: Vec<SectionHeader> = Vec::new();
        let mut i: usize = 0;
        while i < nsec as usize
            invariant
                b == buf@,
                len == b.len(),
                spec_header_err(b) is None,
                eu == spec_e_lfanew(b),
                sect_off == spec_sect_off(b),
                nsec == spec_nsections(b),
                sect_off + nsec * 40 <= len,
                i <= nsec,
                sections@.len() == i,
                forall|j: int| 0 <= j < i ==> sections@[j] == spec_section(b, j),
            decreases nsec - i,
        {
            let row = sect_off + i * 40;
            let s = SectionHeader {
                virtual_size: u32::read_at(buf, row + 8),
                virtual_address: u32::read_at(buf, row + 12),
                size_of_raw_data: u32::read_at(buf, row + 16),
                pointer_to_raw_data: u32::read_at(buf, row + 20),
            };
            proof {
                assert(s == spec_section(b, i as int));
            }
            sections.push(s);
            i += 1;
        }
        proof {
            assert(sections@ =~= spec_sections(b));
        }
        Ok(
            PeFile {
                buf,
                bits: if is64 {
                    Bitness::Pe64
                } else {
                    Bitness::Pe32
                },
                image_base,
                size_of_image,
                sections,
                resource_dir,
            },
        )
    }
}

/// Index of the first null byte of `b` at or after `i`.
pub open spec fn spec_find_nul(b: Seq<u8>, i: int) -> Option<int>
    decreases b.len() - i,
{
    if i < 0 || i >= b.len() {
        None
    } else if b[i] == 0 {
        Some(i)
    } else {
        spec_find_nul(b, i + 1)
    }
}

/// What `spec_find_nul` returns: the first null-byte index at or after
/// `i`, or `None` when no byte at or after `i` is null.
pub proof fn lemma_spec_find_nul(b: Seq<u8>, i: int)
    requires
        0 <= i,
    ensures
        match spec_find_nul(b, i) {
            Some(k) => i <= k < b.len() && b[k] == 0 && forall|j: int|
                i <= j < k ==> #[trigger] b[j] != 0,
            None => forall|j: int| i <= j < b.len() && j >= 0 ==> #[trigger] b[j] != 0,
        },
    decreases b.len() - i,
{
    if 0 <= i < b.len() && b[i] != 0 {
        lemma_spec_find_nul(b, i + 1);
    }
}

/// Round-trip law: an RVA that lies within some section's file-backed
/// range — claimed by the section in RVA space, below both its file-backed
/// size and its memory size — translates to a file offset, and that file
/// offset translates back to the same RVA, provided the section table is
/// well formed (no overlapping ranges, no range running past the
/// coordinate space).
pub proof fn lemma_rva_file_offset_round_trip(ss: Seq<SectionHeader>, r: u32)
    requires
        sections_well_formed(ss),
        exists|i: int| 0 <= i < ss.len() && rva_in_file_backed(#[trigger] ss[i], r),
    ensures
        spec_rva_to_file_offset(ss, r) matches Ok(o) && spec_file_offset_to_rva(ss, o) == Ok::<
            u32,
            Error,
        >(r),
{
    let i = choose|i: int| 0 <= i < ss.len() && rva_in_file_backed(#[trigger] ss[i], r);
    assert(sec_bounded(ss[i]));
    lemma_find_rva_from(ss, r, 0);
    let k = find_rva(ss, r)->Some_0;
    if k != i {
        assert(sec_disjoint(ss[k], ss[i]));
        assert(false);
    }
    let o = spec_rva_to_file_offset(ss, r)->Ok_0;
    lemma_find_fo_from(ss, o, 0);
    let m = find_fo(ss, o)->Some_0;
    assert(sec_claims_fo(ss[i], o));
    if m != i {
        assert(sec_disjoint(ss[m], ss[i]));
        assert(false);
    }
}

/// Round-trip law, the symmetric direction: a valid file offset — one that
/// lies within some section's file-backed range — translates to an RVA,
/// and that RVA translates back to the same file offset, provided the
/// section table is well formed.
pub proof fn lemma_file_offset_rva_round_trip(ss: Seq<SectionHeader>, o: u32)
    requires
        sections_well_formed(ss),
        exists|i: int| 0 <= i < ss.len() && fo_in_file_backed(#[trigger] ss[i], o),
    ensures
        spec_file_offset_to_rva(ss, o) matches Ok(r) && spec_rva_to_file_offset(ss, r) == Ok::<
            u32,
            Error,
        >(o),
{
    let i = choose|i: int| 0 <= i < ss.len() && fo_in_file_backed(#[trigger] ss[i], o);
    assert(sec_bounded(ss[i]));
    lemma_find_fo_from(ss, o, 0);
    let k = find_fo(ss, o)->Some_0;
    if k != i {
        assert(sec_disjoint(ss[k], ss[i]));
        assert(false);
    }
    let r = spec_file_offset_to_rva(ss, o)->Ok_0;
    lemma_find_rva_from(ss, r, 0);
    let m = find_rva(ss, r)->Some_0;
    assert(sec_claims_rva(ss[i], r));
    if m != i {
        assert(sec_disjoint(ss[m], ss[i]));
        assert(false);
    }
}

/// VA round-trip law: every RVA below `size_of_image` translates to a VA
/// and back to itself, provided the image's VA range fits the coordinate
/// space.
pub proof fn lemma_va_round_trip(base: u64, size_of_image: u32, r: u32)
    requires
        r < size_of_image,
        base + size_of_image <= u64::MAX,
    ensures
        spec_rva_to_va(base, r) matches Ok(va) && spec_va_to_rva(base, size_of_image, va) == Ok::<
            u32,
            Error,
        >(r),
{
}

/// A section's ranges do not run past their coordinate spaces.
pub open spec fn sec_bounded(s: SectionHeader) -> bool {
    s.virtual_address + s.virtual_size <= u32::MAX && s.pointer_to_raw_data + s.size_of_raw_data
        <= u32::MAX
}

/// Two sections' ranges are disjoint, in RVA space and in file-offset
/// space.
pub open spec fn sec_disjoint(a: SectionHeader, b: SectionHeader) -> bool {
    (a.virtual_address + a.virtual_size <= b.virtual_address || b.virtual_address + b.virtual_size
        <= a.virtual_address) && (a.pointer_to_raw_data + a.size_of_raw_data
        <= b.pointer_to_raw_data || b.pointer_to_raw_data + b.size_of_raw_data
        <= a.pointer_to_raw_data)
}

/// A well-formed section table: every section bounded, every pair
/// disjoint. Real linkers produce such tables; the translator itself does
/// not require this, but the round-trip laws do.
pub open spec fn sections_well_formed(ss: Seq<SectionHeader>) -> bool {
    (forall|i: int| 0 <= i < ss.len() ==> sec_bounded(#[trigger] ss[i])) && (forall|i: int, j: int|
        0 <= i < ss.len() && 0 <= j < ss.len() && i != j ==> #[trigger] sec_disjoint(ss[i], ss[j]))
}

/// `rva` lies in the file-backed part of `s`: inside the section's RVA
/// range and below its file-backed size.
pub open spec fn rva_in_file_backed(s: SectionHeader, rva: u32) -> bool {
    s.virtual_address <= rva && rva - s.virtual_address < s.virtual_size && rva - s.virtual_address
        < s.size_of_raw_data
}

/// `off` lies in the file-backed part of `s`'s file range and maps into
/// the section's RVA range.
pub open spec fn fo_in_file_backed(s: SectionHeader, off: u32) -> bool {
    s.pointer_to_raw_data <= off && off - s.pointer_to_raw_data < s.size_of_raw_data && off
        - s.pointer_to_raw_data < s.virtual_size
}

} // verus!
