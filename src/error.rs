//! Failures of the codec.

use vstd::prelude::*;

verus! {

/// Why an operation on an image failed. Failures of the byte store itself,
/// and entries whose access is restricted, are the caller's to meet: the
/// source tree records the latter as `SourceEntry::Denied`.
#[derive(Debug, Clone, Copy, PartialEq, Eq, Structural)]
pub enum IsoError {
    /// No primary volume descriptor comes before a terminator or within the examined blocks.
    NotPrimaryDescriptor,
    /// A directory record runs past its buffer or its identifier is not valid text.
    MalformedRecord,
    /// An extent or a block read lies outside the image.
    OutOfBounds,
    /// The image would need more blocks than a 32-bit block number addresses.
    ImageTooLarge,
    /// A name does not fit in one directory record.
    NameTooLong,
    /// Directories are nested deeper than the reader follows.
    NestingTooDeep,
}

} // verus!
