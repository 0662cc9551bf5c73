//! A safe, verified reader for the Windows Portable Executable (PE/COFF)
//! image format.
//!
//! Given an immutable byte buffer holding a flat-file PE image, the crate
//! interprets it as a structured executable without trusting the format:
//! every coordinate translation and every typed view is bounds-checked and
//! reports a typed failure on truncated, malformed or adversarial input.
//!
//! The core is the address-translation and safe-binary-view engine:
//! conversions between file offsets, relative virtual addresses (RVAs) and
//! absolute virtual addresses (VAs); a bounds-checked mechanism for reading
//! byte ranges as typed structures; and the directory walkers built on top
//! of it (the resource directory for version metadata, and C++ run-time
//! type information chains).

pub mod err;
pub mod image;
pub mod pod;
pub mod resources;
pub mod rtti;
