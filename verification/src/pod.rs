//! Podness: the contract that lets untrusted image bytes become values.
//!
//! A type opts in to [`Pod`] only if every byte string of its exact encoded
//! size denotes a value of the type — no padding-dependent invariants, no
//! enum discriminants, no non-null pointers. The dereference layer performs
//! all bounds checking; the contract itself only fixes the encoded size and
//! the little-endian decoding of a byte string into a value.

use vstd::prelude::*;

verus! {

/// Types which can be safely materialized from any bit pattern.
///
/// Types which need to be read from PE images should implement this.
/// An implementation fixes an encoded size and a total decoding function:
/// *every* byte string of length [`Pod::size`] denotes a value, so reading
/// one from an untrusted buffer can only fail on bounds, never on content.
pub trait Pod: Sized {
    /// Number of bytes in the encoded form.
    spec fn size() -> nat;

    /// The value denoted by a byte string of length [`Pod::size`].
    spec fn decode_spec(b: Seq<u8>) -> Self;

    /// Encoded size, as executable code.
    fn size_of() -> (n: usize)
        ensures
            n as nat == Self::size(),
    ;

    /// Reads the value starting at byte offset `off` of `buf`.
    fn read_at(buf: &[u8], off: usize) -> (v: Self)
        requires
            off + Self::size() <= buf@.len(),
        ensures
            v == Self::decode_spec(buf@.subrange(off as int, off + Self::size())),
    ;

    /// The encoded form of the value: the byte string that decodes to it.
    fn as_bytes(&self) -> (b: Vec<u8>)
        ensures
            b@.len() == Self::size(),
            Self::decode_spec(b@) == *self,
    ;
}

impl Pod for u8 {
    open spec fn size() -> nat {
        1
    }

    open spec fn decode_spec(b: Seq<u8>) -> u8 {
        b[0]
    }

    fn size_of() -> usize {
        1
    }

    fn read_at(buf: &[u8], off: usize) -> u8 {
        buf[off]
    }

    fn as_bytes(&self) -> Vec<u8> {
        let mut b: Vec<u8> = Vec::new();
        b.push(*self);
        b
    }
}

impl Pod for i8 {
    open spec fn size() -> nat {
        1
    }

    open spec fn decode_spec(b: Seq<u8>) -> i8 {
        if b[0] < 0x80 {
            b[0] as i8
        } else {
            (b[0] - 0x100) as i8
        }
    }

    fn size_of() -> usize {
        1
    }

    fn read_at(buf: &[u8], off: usize) -> i8 {
        let u = buf[off];
        if u < 0x80 {
            u as i8
        } else {
            (u as i16 - 0x100) as i8
        }
    }

    fn as_bytes(&self) -> Vec<u8> {
        let u: u8 = if *self >= 0 {
            *self as u8
        } else {
            (*self as i16 + 0x100) as u8
        };
        u.as_bytes()
    }
}

impl Pod for i16 {
    open spec fn size() -> nat {
        2
    }

    open spec fn decode_spec(b: Seq<u8>) -> i16 {
        let u = u16::decode_spec(b);
        if u < 0x8000 {
            u as i16
        } else {
            (u - 0x1_0000) as i16
        }
    }

    fn size_of() -> usize {
        2
    }

    fn read_at(buf: &[u8], off: usize) -> i16 {
        let u = u16::read_at(buf, off);
        if u < 0x8000 {
            u as i16
        } else {
            (u as i32 - 0x1_0000) as i16
        }
    }

    fn as_bytes(&self) -> Vec<u8> {
        let u: u16 = if *self >= 0 {
            *self as u16
        } else {
            (*self as i32 + 0x1_0000) as u16
        };
        u.as_bytes()
    }
}

impl Pod for i32 {
    open spec fn size() -> nat {
        4
    }

    open spec fn decode_spec(b: Seq<u8>) -> i32 {
        let u = u32::decode_spec(b);
        if u < 0x8000_0000 {
            u as i32
        } else {
            (u - 0x1_0000_0000) as i32
        }
    }

    fn size_of() -> usize {
        4
    }

    fn read_at(buf: &[u8], off: usize) -> i32 {
        let u = u32::read_at(buf, off);
        if u < 0x8000_0000 {
            u as i32
        } else {
            (u as i64 - 0x1_0000_0000) as i32
        }
    }

    fn as_bytes(&self) -> Vec<u8> {
        let u: u32 = if *self >= 0 {
            *self as u32
        } else {
            (*self as i64 + 0x1_0000_0000) as u32
        };
        u.as_bytes()
    }
}

impl Pod for i64 {
    open spec fn size() -> nat {
        8
    }

    open spec fn decode_spec(b: Seq<u8>) -> i64 {
        let u = u64::decode_spec(b);
        if u < 0x8000_0000_0000_0000 {
            u as i64
        } else {
            (u - 0x1_0000_0000_0000_0000) as i64
        }
    }

    fn size_of() -> usize {
        8
    }

    fn read_at(buf: &[u8], off: usize) -> i64 {
        let u = u64::read_at(buf, off);
        if u < 0x8000_0000_0000_0000 {
            u as i64
        } else {
            (u as i128 - 0x1_0000_0000_0000_0000) as i64
        }
    }

    fn as_bytes(&self) -> Vec<u8> {
        let u: u64 = if *self >= 0 {
            *self as u64
        } else {
            (*self as i128 + 0x1_0000_0000_0000_0000) as u64
        };
        u.as_bytes()
    }
}

impl Pod for u16 {
    open spec fn size() -> nat {
        2
    }

    open spec fn decode_spec(b: Seq<u8>) -> u16 {
        (b[0] + b[1] * 0x100) as u16
    }

    fn size_of() -> usize {
        2
    }

    fn read_at(buf: &[u8], off: usize) -> u16 {
        let b0 = buf[off];
        let b1 = buf[off + 1];
        b0 as u16 + b1 as u16 * 0x100
    }

    fn as_bytes(&self) -> (b: Vec<u8>)
        ensures
            b@.len() == Self::size(),
            Self::decode_spec(b@) == *self,
    {
        let x = *self;
        let mut b: Vec<u8> = Vec::new();
        b.push((x % 0x100) as u8);
        b.push((x / 0x100) as u8);
        proof {
            let x = x;
            assert(x == x % 0x100 + (x / 0x100) * 0x100 && x / 0x100 < 0x100) by (bit_vector);
        }
        b
    }
}

impl Pod for u32 {
    open spec fn size() -> nat {
        4
    }

    open spec fn decode_spec(b: Seq<u8>) -> u32 {
        (b[0] + b[1] * 0x100 + b[2] * 0x1_0000 + b[3] * 0x100_0000) as u32
    }

    fn size_of() -> usize {
        4
    }

    fn read_at(buf: &[u8], off: usize) -> u32 {
        let b0 = buf[off];
        let b1 = buf[off + 1];
        let b2 = buf[off + 2];
        let b3 = buf[off + 3];
        b0 as u32 + b1 as u32 * 0x100 + b2 as u32 * 0x1_0000 + b3 as u32 * 0x100_0000
    }

    fn as_bytes(&self) -> (b: Vec<u8>)
        ensures
            b@.len() == Self::size(),
            Self::decode_spec(b@) == *self,
    {
        let x = *self;
        let mut b: Vec<u8> = Vec::new();
        b.push((x % 0x100) as u8);
        b.push((x / 0x100 % 0x100) as u8);
        b.push((x / 0x1_0000 % 0x100) as u8);
        b.push((x / 0x100_0000) as u8);
        proof {
            let x = x;
            assert(x == x % 0x100 + (x / 0x100 % 0x100) * 0x100 + (x / 0x1_0000 % 0x100)
                * 0x1_0000 + (x / 0x100_0000) * 0x100_0000 && x / 0x100_0000 < 0x100)
                by (bit_vector);
        }
        b
    }
}

impl Pod for u64 {
    open spec fn size() -> nat {
        8
    }

    open spec fn decode_spec(b: Seq<u8>) -> u64 {
        (b[0] + b[1] * 0x100 + b[2] * 0x1_0000 + b[3] * 0x100_0000 + b[4] * 0x1_0000_0000 + b[5]
            * 0x100_0000_0000 + b[6] * 0x1_0000_0000_0000 + b[7] * 0x100_0000_0000_0000) as u64
    }

    fn size_of() -> usize {
        8
    }

    fn read_at(buf: &[u8], off: usize) -> u64 {
        let b0 = buf[off];
        let b1 = buf[off + 1];
        let b2 = buf[off + 2];
        let b3 = buf[off + 3];
        let b4 = buf[off + 4];
        let b5 = buf[off + 5];
        let b6 = buf[off + 6];
        let b7 = buf[off + 7];
        b0 as u64 + b1 as u64 * 0x100 + b2 as u64 * 0x1_0000 + b3 as u64 * 0x100_0000 + b4 as u64
            * 0x1_0000_0000 + b5 as u64 * 0x100_0000_0000 + b6 as u64 * 0x1_0000_0000_0000
            + b7 as u64 * 0x100_0000_0000_0000
    }

    fn as_bytes(&self) -> (b: Vec<u8>)
        ensures
            b@.len() == Self::size(),
            Self::decode_spec(b@) == *self,
    {
        let x = *self;
        let mut b: Vec<u8> = Vec::new();
        b.push((x % 0x100) as u8);
        b.push((x / 0x100 % 0x100) as u8);
        b.push((x / 0x1_0000 % 0x100) as u8);
        b.push((x / 0x100_0000 % 0x100) as u8);
        b.push((x / 0x1_0000_0000 % 0x100) as u8);
        b.push((x / 0x100_0000_0000 % 0x100) as u8);
        b.push((x / 0x1_0000_0000_0000 % 0x100) as u8);
        b.push((x / 0x100_0000_0000_0000) as u8);
        proof {
            let x = x;
            assert(x == x % 0x100 + (x / 0x100 % 0x100) * 0x100 + (x / 0x1_0000 % 0x100)
                * 0x1_0000 + (x / 0x100_0000 % 0x100) * 0x100_0000 + (x / 0x1_0000_0000 % 0x100)
                * 0x1_0000_0000 + (x / 0x100_0000_0000 % 0x100) * 0x100_0000_0000 + (x
                / 0x1_0000_0000_0000 % 0x100) * 0x1_0000_0000_0000 + (x / 0x100_0000_0000_0000)
                * 0x100_0000_0000_0000 && x / 0x100_0000_0000_0000 < 0x100) by (bit_vector);
        }
        b
    }
}

} // verus!
