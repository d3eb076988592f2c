//! What can go wrong while an image is laid out and written.

use crate::serialize::IsoSerializeError;
use vstd::prelude::*;

verus! {

/// Why an image could not be laid out or written.
#[derive(Debug, Clone, Copy, PartialEq, Eq)]
pub enum Error {
    /// A descriptor or record could not be written out.
    Serialize(IsoSerializeError),
    /// The destination path names nothing: it has no component.
    EmptyPath,
    /// The destination path ends in `..`, which names no file.
    MissingFileName,
    /// A file holds more bytes than the 32 bits of a data length can count.
    FileTooLarge,
    /// The sectors are smaller than a volume descriptor, or than a record.
    SectorTooSmall,
    /// The records of a directory, padded to sector boundaries, take more
    /// sectors than their plain lengths add up to.
    DirectoryTooLarge,
    /// The volume has no room left: a logical block address would pass 2^32.
    AllocatorExhausted,
    /// The image would be longer than this machine can address.
    ImageTooLarge,
}

} // verus!
