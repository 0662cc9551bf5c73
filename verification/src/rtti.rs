//! The C++ run-time type information (RTTI) chain walker.
//!
//! Given a candidate vtable slot, the walker reads the VA stored 8 bytes
//! before the vtable, translates and dereferences it as a complete-object
//! locator, follows the locator's type-descriptor RVA, validates the
//! descriptor (its vftable field must translate; its spare field must be
//! the null sentinel), and reads the type name that starts 16 bytes into
//! the descriptor. A failure on any candidate rejects that candidate only;
//! the scan over a whole image goes on.

use vstd::prelude::*;

use crate::err::Error;
use crate::image::{
    spec_file_offset_to_rva, spec_va_to_rva, ru32, ru64, PeFile, Ptr,
};
use crate::pod::Pod;

verus! {

/// Compiler-emitted metadata sitting 8 bytes before a vtable's VA; its
/// `type_descriptor` field is the RVA of the [`TypeDescriptor`].
#[derive(Clone, Copy, PartialEq, Eq, Structural, Debug)]
pub struct RTTICompleteObjectLocator {
    pub signature: u32,
    pub offset: u32,
    pub cd_offset: u32,
    pub type_descriptor: u32,
    pub class_descriptor: u32,
}

impl Pod for RTTICompleteObjectLocator {
    open spec fn size() -> nat {
        20
    }

    open spec fn decode_spec(b: Seq<u8>) -> RTTICompleteObjectLocator {
        RTTICompleteObjectLocator {
            signature: ru32(b, 0),
            offset: ru32(b, 4),
            cd_offset: ru32(b, 8),
            type_descriptor: ru32(b, 12),
            class_descriptor: ru32(b, 16),
        }
    }

    fn size_of() -> usize {
        20
    }

    fn read_at(buf: &[u8], off: usize) -> RTTICompleteObjectLocator {
        let _len = buf.len();
        let v = RTTICompleteObjectLocator {
            signature: u32::read_at(buf, off),
            offset: u32::read_at(buf, off + 4),
            cd_offset: u32::read_at(buf, off + 8),
            type_descriptor: u32::read_at(buf, off + 12),
            class_descriptor: u32::read_at(buf, off + 16),
        };
        proof {
            let b = buf@.subrange(off as int, off + 20);
            assert(buf@.subrange(off as int, off + 4) =~= b.subrange(0, 4));
            assert(buf@.subrange(off + 4, off + 8) =~= b.subrange(4, 8));
            assert(buf@.subrange(off + 8, off + 12) =~= b.subrange(8, 12));
            assert(buf@.subrange(off + 12, off + 16) =~= b.subrange(12, 16));
            assert(buf@.subrange(off + 16, off + 20) =~= b.subrange(16, 20));
        }
        v
    }

    fn as_bytes(&self) -> (b: Vec<u8>)
        ensures
            b@.len() == Self::size(),
            Self::decode_spec(b@) == *self,
    {
        let mut b = self.signature.as_bytes();
        let ghost s1 = b@;
        let mut t = self.offset.as_bytes();
        let ghost s2 = t@;
        b.append(&mut t);
        let mut t = self.cd_offset.as_bytes();
        let ghost s3 = t@;
        b.append(&mut t);
        let mut t = self.type_descriptor.as_bytes();
        let ghost s4 = t@;
        b.append(&mut t);
        let mut t = self.class_descriptor.as_bytes();
        let ghost s5 = t@;
        b.append(&mut t);
        proof {
            assert(b@.subrange(0, 4) =~= s1);
            assert(b@.subrange(4, 8) =~= s2);
            assert(b@.subrange(8, 12) =~= s3);
            assert(b@.subrange(12, 16) =~= s4);
            assert(b@.subrange(16, 20) =~= s5);
        }
        b
    }
}

/// The type descriptor an RTTI locator points at. The descriptor's
/// on-disk form continues with the null-terminated type name 16 bytes
/// past its start.
#[derive(Clone, Copy, PartialEq, Eq, Structural, Debug)]
pub struct TypeDescriptor {
    /// VA of the descriptor's own vftable; must translate to an RVA for
    /// the chain to be trusted.
    pub vftable: u64,
    /// Must equal the null sentinel; any other value is a descriptor
    /// shape this walker does not support.
    pub spare: Ptr,
}

impl Pod for TypeDescriptor {
    open spec fn size() -> nat {
        16
    }

    open spec fn decode_spec(b: Seq<u8>) -> TypeDescriptor {
        TypeDescriptor { vftable: ru64(b, 0), spare: Ptr { va: ru64(b, 8) } }
    }

    fn size_of() -> usize {
        16
    }

    fn read_at(buf: &[u8], off: usize) -> TypeDescriptor {
        let _len = buf.len();
        let v = TypeDescriptor {
            vftable: u64::read_at(buf, off),
            spare: Ptr { va: u64::read_at(buf, off + 8) },
        };
        proof {
            let b = buf@.subrange(off as int, off + 16);
            assert(buf@.subrange(off as int, off + 8) =~= b.subrange(0, 8));
            assert(buf@.subrange(off + 8, off + 16) =~= b.subrange(8, 16));
        }
        v
    }

    fn as_bytes(&self) -> (b: Vec<u8>)
        ensures
            b@.len() == Self::size(),
            Self::decode_spec(b@) == *self,
    {
        let mut b = self.vftable.as_bytes();
        let ghost s1 = b@;
        let mut t = self.spare.va.as_bytes();
        let ghost s2 = t@;
        b.append(&mut t);
        proof {
            assert(b@.subrange(0, 8) =~= s1);
            assert(b@.subrange(8, 16) =~= s2);
        }
        b
    }
}

/// One recovered global: the RVA of the vtable slot and the type name the
/// RTTI chain yields for it.
pub struct Global {
    pub address: u32,
    pub ty_name: Vec<u8>,
}

/// The view of a recovered global: its slot RVA and its name bytes.
pub open spec fn gview(g: Global) -> (u32, Seq<u8>) {
    (g.address, g.ty_name@)
}

/// The view of a sequence of recovered globals.
pub open spec fn gseq(s: Seq<Global>) -> Seq<(u32, Seq<u8>)> {
    s.map_values(|g: Global| gview(g))
}

/// Every byte is ASCII: the encoding this reader requires of type names.
pub open spec fn ascii_text(s: Seq<u8>) -> bool {
    forall|i: int| 0 <= i < s.len() ==> #[trigger] s[i] < 0x80
}

/// What walking one candidate slot returns: the chain of translations and
/// dereferences described at module level, first failure first.
pub open spec fn spec_global(pe: PeFile, off: u32) -> Result<(u32, Seq<u8>), Error> {
    match spec_file_offset_to_rva(pe.sections@, off) {
        Err(e) => Err(e),
        Ok(address) => match pe.spec_derva::<u64>(address) {
            Err(e) => Err(e),
            Ok(vtable_va) => match spec_va_to_rva(pe.image_base, pe.size_of_image, vtable_va) {
                Err(e) => Err(e),
                Ok(_) => if vtable_va < 8 {
                    Err(Error::Translation)
                } else {
                    match pe.spec_deref::<Ptr>(Ptr { va: (vtable_va - 8) as u64 }) {
                        Err(e) => Err(e),
                        Ok(col_ptr) => match pe.spec_deref::<RTTICompleteObjectLocator>(col_ptr) {
                            Err(e) => Err(e),
                            Ok(col) => match pe.spec_derva::<TypeDescriptor>(
                                col.type_descriptor,
                            ) {
                                Err(e) => Err(e),
                                Ok(td) => match spec_va_to_rva(
                                    pe.image_base,
                                    pe.size_of_image,
                                    td.vftable,
                                ) {
                                    Err(e) => Err(e),
                                    Ok(_) => if td.spare != Ptr::spec_null() {
                                        Err(Error::Null)
                                    } else if col.type_descriptor + 16 > u32::MAX {
                                        Err(Error::OutOfBounds)
                                    } else {
                                        match pe.spec_derva_c_str(
                                            (col.type_descriptor + 16) as u32,
                                        ) {
                                            Err(e) => Err(e),
                                            Ok(name) => if ascii_text(name) {
                                                Ok((address, name))
                                            } else {
                                                Err(Error::Encoding)
                                            },
                                        }
                                    },
                                },
                            },
                        },
                    }
                },
            },
        },
    }
}

/// Walks the RTTI chain of one candidate vtable slot given by its file
/// offset: translates the offset, reads the vtable VA stored there,
/// follows the locator sitting 8 bytes before the vtable, validates the
/// type descriptor, and reads the ASCII type name 16 bytes into it.
#[verifier::rlimit(50)]
#[verifier::loop_isolation(false)]
pub fn global<'a>(pe: &PeFile<'a>, off: u32) -> (r: Result<Global, Error>)
    ensures
        match r {
            Ok(g) => spec_global(*pe, off) == Ok::<(u32, Seq<u8>), Error>(gview(g)),
            Err(e) => spec_global(*pe, off) == Err::<(u32, Seq<u8>), Error>(e),
        },
{
    let address = match pe.file_offset_to_rva(off) {
        Ok(a) => a,
        Err(e) => return Err(e),
    };
    let vtable_va = match pe.derva::<u64>(address) {
        Ok(v) => v,
        Err(e) => return Err(e),
    };
    match pe.va_to_rva(vtable_va) {
        Ok(_) => (),
        Err(e) => return Err(e),
    };
    if vtable_va < 8 {
        return Err(Error::Translation);
    }
    let col_ptr = match pe.deref::<Ptr>(Ptr { va: vtable_va - 8 }) {
        Ok(p) => p,
        Err(e) => return Err(e),
    };
    let col = match pe.deref::<RTTICompleteObjectLocator>(col_ptr) {
        Ok(c) => c,
        Err(e) => return Err(e),
    };
    let td = match pe.derva::<TypeDescriptor>(col.type_descriptor) {
        Ok(t) => t,
        Err(e) => return Err(e),
    };
    match pe.va_to_rva(td.vftable) {
        Ok(_) => (),
        Err(e) => return Err(e),
    };
    if td.spare != Ptr::null() {
        return Err(Error::Null);
    }
    if col.type_descriptor > u32::MAX - 16 {
        return Err(Error::OutOfBounds);
    }
    let name = match pe.derva_c_str(col.type_descriptor + 16) {
        Ok(n) => n,
        Err(e) => return Err(e),
    };
    let mut i: usize = 0;
    while i < name.len()
        invariant
            i <= name@.len(),
            forall|j: int| 0 <= j < i ==> #[trigger] name@[j] < 0x80,
        decreases name@.len() - i,
    {
        if name[i] >= 0x80 {
            proof {
                assert(!ascii_text(name@)) by {
                    assert(name@[i as int] >= 0x80);
                }
            }
            return Err(Error::Encoding);
        }
        i += 1;
    }
    Ok(Global { address, ty_name: name })
}

/// Whether `needle` occurs as a contiguous run of bytes inside `hay`.
pub open spec fn contains_sub(hay: Seq<u8>, needle: Seq<u8>) -> bool {
    exists|k: int|
        0 <= k && k + needle.len() <= hay.len() && #[trigger] hay.subrange(k, k + needle.len())
            == needle
}

/// Decides `contains_sub` by scanning every window of `hay`.
#[verifier::loop_isolation(false)]
pub fn contains_sub_exec(hay: &Vec<u8>, needle: &Vec<u8>) -> (r: bool)
    ensures
        r == contains_sub(hay@, needle@),
{
    let n = needle.len();
    let h = hay.len();
    if n > h {
        return false;
    }
    if n == 0 {
        proof {
            assert(contains_sub(hay@, needle@)) by {
                assert(hay@.subrange(0, 0 + needle@.len() as int) =~= needle@);
            }
        }
        return true;
    }
    let mut k: usize = 0;
    while k <= h - n
        invariant
            k <= h - n + 1,
            forall|j: int|
                0 <= j < k ==> #[trigger] hay@.subrange(j, j + needle@.len() as int) != needle@,
        decreases h - n + 1 - k,
    {
        let mut t: usize = 0;
        let mut ok = true;
        while t < n
            invariant
                t <= n,
                ok ==> forall|u: int| 0 <= u < t ==> hay@[k + u] == needle@[u],
                !ok ==> hay@.subrange(k as int, k + n as int) != needle@,
            decreases n - t,
        {
            if hay[k + t] != needle[t] {
                proof {
                    assert(hay@.subrange(k as int, k + n as int)[t as int] == hay@[k + t]);
                }
                ok = false;
            }
            t += 1;
        }
        if ok {
            proof {
                assert(hay@.subrange(k as int, k + n as int) =~= needle@);
            }
            return true;
        }
        k += 1;
    }
    proof {
        assert forall|j: int| 0 <= j && j + needle@.len() <= hay@.len() implies #[trigger] hay@
            .subrange(j, j + needle@.len() as int) != needle@ by {
            assert(j < k);
        }
    }
    false
}

/// The compiler-generated run-time-type marker filtered from results.
pub open spec fn marker_type_info() -> Seq<u8> {
    seq![0x74u8, 0x79u8, 0x70u8, 0x65u8, 0x5Fu8, 0x69u8, 0x6Eu8, 0x66u8, 0x6Fu8]
}

/// The console-variable registration marker filtered from results.
pub open spec fn marker_con_var() -> Seq<u8> {
    seq![0x43u8, 0x6Fu8, 0x6Eu8, 0x56u8, 0x61u8, 0x72u8]
}

/// The console-command registration marker filtered from results.
pub open spec fn marker_con_command() -> Seq<u8> {
    seq![0x43u8, 0x6Fu8, 0x6Eu8, 0x43u8, 0x6Fu8, 0x6Du8, 0x6Du8, 0x61u8, 0x6Eu8, 0x64u8]
}

/// A name is kept when it carries none of the known noise markers.
pub open spec fn spec_keep(name: Seq<u8>) -> bool {
    !contains_sub(name, marker_con_var()) && !contains_sub(name, marker_con_command())
        && !contains_sub(name, marker_type_info())
}

/// Decides `spec_keep`.
pub fn keep_name(name: &Vec<u8>) -> (r: bool)
    ensures
        r == spec_keep(name@),
{
    let mut con_var: Vec<u8> = Vec::new();
    con_var.push(0x43);
    con_var.push(0x6F);
    con_var.push(0x6E);
    con_var.push(0x56);
    con_var.push(0x61);
    con_var.push(0x72);
    proof {
        assert(con_var@ =~= marker_con_var());
    }
    let mut con_command: Vec<u8> = Vec::new();
    con_command.push(0x43);
    con_command.push(0x6F);
    con_command.push(0x6E);
    con_command.push(0x43);
    con_command.push(0x6F);
    con_command.push(0x6D);
    con_command.push(0x6D);
    con_command.push(0x61);
    con_command.push(0x6E);
    con_command.push(0x64);
    proof {
        assert(con_command@ =~= marker_con_command());
    }
    let mut type_info: Vec<u8> = Vec::new();
    type_info.push(0x74);
    type_info.push(0x79);
    type_info.push(0x70);
    type_info.push(0x65);
    type_info.push(0x5F);
    type_info.push(0x69);
    type_info.push(0x6E);
    type_info.push(0x66);
    type_info.push(0x6F);
    proof {
        assert(type_info@ =~= marker_type_info());
    }
    !contains_sub_exec(name, &con_var) && !contains_sub_exec(name, &con_command)
        && !contains_sub_exec(name, &type_info)
}

/// Lexicographic byte order on names, decided from index `i` on.
pub open spec fn name_le_from(a: Seq<u8>, b: Seq<u8>, i: int) -> bool
    decreases a.len() - i,
{
    if i < 0 || i >= a.len() {
        true
    } else if i >= b.len() {
        false
    } else if a[i] < b[i] {
        true
    } else if a[i] > b[i] {
        false
    } else {
        name_le_from(a, b, i + 1)
    }
}

/// Lexicographic byte order on names: the order `globals` sorts by.
pub open spec fn name_le(a: Seq<u8>, b: Seq<u8>) -> bool {
    name_le_from(a, b, 0)
}

/// Decides `name_le`.
#[verifier::loop_isolation(false)]
pub fn name_le_exec(a: &Vec<u8>, b: &Vec<u8>) -> (r: bool)
    ensures
        r == name_le(a@, b@),
{
    let mut i: usize = 0;
    while i < a.len() && i < b.len()
        invariant
            i <= a@.len(),
            i <= b@.len(),
            name_le(a@, b@) == name_le_from(a@, b@, i as int),
        decreases a@.len() - i,
    {
        let x = a[i];
        let y = b[i];
        if x < y {
            return true;
        }
        if x > y {
            return false;
        }
        i += 1;
    }
    i >= a.len()
}

/// `name_le` is total: of any two names, one is less than or equal to the
/// other.
pub proof fn lemma_name_le_total(a: Seq<u8>, b: Seq<u8>)
    ensures
        name_le(a, b) || name_le(b, a),
{
    lemma_name_le_from_total(a, b, 0);
}

proof fn lemma_name_le_from_total(a: Seq<u8>, b: Seq<u8>, i: int)
    ensures
        name_le_from(a, b, i) || name_le_from(b, a, i),
    decreases a.len() - i,
{
    if 0 <= i && i < a.len() && i < b.len() && a[i] == b[i] {
        lemma_name_le_from_total(a, b, i + 1);
    }
}

/// `name_le` is transitive.
pub proof fn lemma_name_le_trans(a: Seq<u8>, b: Seq<u8>, c: Seq<u8>)
    requires
        name_le(a, b),
        name_le(b, c),
    ensures
        name_le(a, c),
{
    lemma_name_le_from_trans(a, b, c, 0);
}

proof fn lemma_name_le_from_trans(a: Seq<u8>, b: Seq<u8>, c: Seq<u8>, i: int)
    requires
        name_le_from(a, b, i),
        name_le_from(b, c, i),
    ensures
        name_le_from(a, c, i),
    decreases a.len() - i,
{
    if 0 <= i && i < a.len() && i < b.len() && i < c.len() && a[i] == b[i] && b[i] == c[i] {
        lemma_name_le_from_trans(a, b, c, i + 1);
    }
}

/// Stable insertion of one recovered global into an already-sorted run:
/// the new element goes after every element whose name is less than or
/// equal to its own.
pub open spec fn spec_insert(g: (u32, Seq<u8>), s: Seq<(u32, Seq<u8>)>) -> Seq<(u32, Seq<u8>)>
    decreases s.len(),
{
    if s.len() == 0 {
        seq![g]
    } else if name_le(s[0].1, g.1) {
        seq![s[0]] + spec_insert(g, s.drop_first())
    } else {
        seq![g] + s
    }
}

/// Stable insertion sort by name: elements are inserted in input order,
/// each after the elements already placed whose names are less than or
/// equal, so equal names keep their input order.
pub open spec fn spec_sort(s: Seq<(u32, Seq<u8>)>) -> Seq<(u32, Seq<u8>)>
    decreases s.len(),
{
    if s.len() == 0 {
        Seq::<(u32, Seq<u8>)>::empty()
    } else {
        spec_insert(s.last(), spec_sort(s.drop_last()))
    }
}

/// Where `spec_insert` puts the new element: at the first position whose
/// element's name is not less than or equal to the new element's name.
pub proof fn lemma_insert_at(s: Seq<(u32, Seq<u8>)>, g: (u32, Seq<u8>), p: int)
    requires
        0 <= p <= s.len(),
        forall|j: int| 0 <= j < p ==> name_le(#[trigger] s[j].1, g.1),
        p < s.len() ==> !name_le(s[p].1, g.1),
    ensures
        spec_insert(g, s) == s.subrange(0, p) + seq![g] + s.subrange(p, s.len() as int),
    decreases s.len(),
{
    if p == 0 {
        if s.len() == 0 {
            assert(s.subrange(0, 0) + seq![g] + s.subrange(0, 0) =~= seq![g]);
        } else {
            assert(s.subrange(0, 0) + seq![g] + s.subrange(0, s.len() as int) =~= seq![g] + s);
        }
    } else {
        assert(name_le(s[0].1, g.1));
        let d = s.drop_first();
        assert(forall|j: int| 0 <= j < p - 1 ==> name_le(#[trigger] d[j].1, g.1)) by {
            assert(forall|j: int| 0 <= j < p - 1 ==> d[j] == s[j + 1]);
        }
        lemma_insert_at(d, g, p - 1);
        assert(seq![s[0]] + (d.subrange(0, p - 1) + seq![g] + d.subrange(p - 1, d.len() as int))
            =~= s.subrange(0, p) + seq![g] + s.subrange(p, s.len() as int));
    }
}

/// Every pair of elements is ordered by name.
pub open spec fn sorted_by_name(s: Seq<(u32, Seq<u8>)>) -> bool {
    forall|i: int, j: int| 0 <= i < j < s.len() ==> #[trigger] name_le(s[i].1, s[j].1)
}

/// Inserts `g` into the sorted run `v`, after every element whose name is
/// less than or equal to `g`'s.
pub fn insert_by_name(v: &mut Vec<Global>, g: Global)
    ensures
        gseq(final(v)@) == spec_insert(gview(g), gseq(old(v)@)),
        sorted_by_name(gseq(old(v)@)) ==> sorted_by_name(gseq(final(v)@)),
{
    let mut p: usize = 0;
    loop
        invariant
            p <= v@.len(),
            v@ == old(v)@,
            forall|j: int| 0 <= j < p ==> name_le(gseq(v@)[j].1, gview(g).1),
        ensures
            p <= v@.len(),
            v@ == old(v)@,
            forall|j: int| 0 <= j < p ==> name_le(gseq(v@)[j].1, gview(g).1),
            p < v@.len() ==> !name_le(gseq(v@)[p as int].1, gview(g).1),
        decreases v@.len() - p,
    {
        if p >= v.len() {
            break;
        }
        if !name_le_exec(&v[p].ty_name, &g.ty_name) {
            break;
        }
        p += 1;
    }
    proof {
        lemma_insert_at(gseq(v@), gview(g), p as int);
    }
    let ghost prev = v@;
    v.insert(p, g);
    proof {
        let s = gseq(prev);
        let s2 = gseq(v@);
        let pi = p as int;
        assert(s2 =~= s.subrange(0, pi) + seq![gview(g)] + s.subrange(pi, s.len() as int));
        if sorted_by_name(s) {
            assert forall|i: int, j: int| 0 <= i < j < s2.len() implies #[trigger] name_le(
                s2[i].1,
                s2[j].1,
            ) by {
                if i == pi && j > pi {
                    lemma_name_le_total(s[pi].1, gview(g).1);
                    if j - 1 > pi {
                        lemma_name_le_trans(gview(g).1, s[pi].1, s[j - 1].1);
                    }
                }
            }
        }
    }
}

/// Sorts recovered globals by name with a stable insertion sort.
#[verifier::loop_isolation(false)]
pub fn sort_by_name(v: Vec<Global>) -> (r: Vec<Global>)
    ensures
        gseq(r@) == spec_sort(gseq(v@)),
        sorted_by_name(gseq(r@)),
{
    let ghost orig = gseq(v@);
    let mut src = v;
    let mut out: Vec<Global> = Vec::new();
    let n = src.len();
    let mut i: usize = 0;
    while i < n
        invariant
            n == orig.len(),
            i <= n,
            gseq(src@) =~= orig.skip(i as int),
            gseq(out@) == spec_sort(orig.take(i as int)),
            sorted_by_name(gseq(out@)),
        decreases n - i,
    {
        let ghost before = src@;
        let g = src.remove(0);
        proof {
            assert(gseq(before)[0] == gview(before[0]));
            assert(orig.skip(i as int)[0] == orig[i as int]);
            assert(gview(g) == orig[i as int]);
            assert forall|j: int| 0 <= j < gseq(src@).len() implies gseq(src@)[j] == orig.skip(
                i + 1,
            )[j] by {
                assert(src@[j] == before[j + 1]);
                assert(gseq(before)[j + 1] == gview(before[j + 1]));
            }
            assert(gseq(src@) =~= orig.skip(i + 1));
        }
        insert_by_name(&mut out, g);
        proof {
            assert(orig.take(i + 1).drop_last() =~= orig.take(i as int));
            assert(orig.take(i + 1).last() == orig[i as int]);
        }
        i += 1;
    }
    proof {
        assert(orig.take(n as int) =~= orig);
    }
    out
}

/// The candidates of the first `n` 8-byte slots, in slot order: the
/// result of walking each slot's RTTI chain, keeping the successes whose
/// names carry no noise marker.
pub open spec fn spec_candidates(pe: PeFile, n: int) -> Seq<(u32, Seq<u8>)>
    decreases n,
{
    if n <= 0 {
        Seq::<(u32, Seq<u8>)>::empty()
    } else {
        let prev = spec_candidates(pe, n - 1);
        match spec_global(pe, ((n - 1) * 8) as u32) {
            Ok(g) => if spec_keep(g.1) {
                prev.push(g)
            } else {
                prev
            },
            Err(_) => prev,
        }
    }
}

/// How many 8-byte slots the scan visits: one per 8 bytes of the buffer,
/// capped so every visited file offset fits its coordinate space.
pub open spec fn spec_n_slots(pe: PeFile) -> int {
    if pe.buf@.len() / 8 <= 0x2000_0000 {
        pe.buf@.len() as int / 8
    } else {
        0x2000_0000
    }
}

/// What `globals` returns: the kept candidates of every slot, sorted by
/// name.
pub open spec fn spec_globals(pe: PeFile) -> Seq<(u32, Seq<u8>)> {
    spec_sort(spec_candidates(pe, spec_n_slots(pe)))
}

/// Scans every 8-byte slot of the image as a candidate vtable slot, walks
/// each slot's RTTI chain, keeps the well-formed candidates whose names
/// carry none of the known noise markers, and returns them ordered by
/// name. A failure on one candidate skips that candidate only; the scan
/// never aborts.
#[verifier::loop_isolation(false)]
pub fn globals<'a>(pe: &PeFile<'a>) -> (r: Vec<Global>)
    ensures
        gseq(r@) == spec_globals(*pe),
        sorted_by_name(gseq(r@)),
{
    let image = pe.image();
    let mut n = image.len() / 8;
    if n > 0x2000_0000 {
        n = 0x2000_0000;
    }
    let mut out: Vec<Global> = Vec::new();
    let mut i: usize = 0;
    while i < n
        invariant
            i <= n,
            n == spec_n_slots(*pe),
            gseq(out@) == spec_candidates(*pe, i as int),
        decreases n - i,
    {
        let off = (i * 8) as u32;
        match global(pe, off) {
            Ok(g) => {
                if keep_name(&g.ty_name) {
                    out.push(g);
                    proof {
                        assert(gseq(out@) =~= spec_candidates(*pe, i + 1));
                    }
                }
            },
            Err(_) => {},
        }
        i += 1;
    }
    sort_by_name(out)
}

/// Determinism law: the ordered result set of the RTTI walk is a function
/// of the image alone, so two walks of the same buffer yield the same
/// ordered results.
pub proof fn lemma_globals_deterministic(
    pe: PeFile,
    r1: Seq<(u32, Seq<u8>)>,
    r2: Seq<(u32, Seq<u8>)>,
)
    requires
        r1 == spec_globals(pe),
        r2 == spec_globals(pe),
    ensures
        r1 == r2,
{
}

} // verus!
