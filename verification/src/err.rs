//! Failure kinds reported by translation, dereference and directory walks.

use vstd::prelude::*;

verus! {

/// A typed failure.
///
/// Every translation or dereference operation is total: it either produces
/// a value or one of these kinds, and never panics or reads out of bounds.
#[derive(Clone, Copy, PartialEq, Eq, Structural, Debug)]
pub enum Error {
    /// A computed byte range exceeds the buffer.
    OutOfBounds,
    /// A coordinate does not map into any known section or region; covers
    /// file-offset to RVA, RVA to file-offset, and RVA to VA conversions.
    Translation,
    /// A pointer-shaped field equals the null sentinel where a valid
    /// reference was required, or an RTTI validation invariant failed.
    Null,
    /// Bytes required to be text are not valid under the expected encoding.
    Encoding,
    /// A requested directory entry (resource type, name or language) does
    /// not exist.
    NotFound,
    /// A header signature or magic value does not match the PE format.
    BadMagic,
}

} // verus!
