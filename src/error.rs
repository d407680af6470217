//! Errors reported while reading rigs, model assets and sidecars.
use vstd::prelude::*;

verus! {

/// Why a binary file could not be read as the format it should hold.
#[derive(Debug, Clone, Copy, PartialEq, Eq, Structural)]
pub enum FormatError {
    /// A field or record lies past the end of the buffer.
    OutOfBounds,
    /// The rig declares more bones than a single-byte index can address.
    TooManyBones,
    /// The name field of the bone with this index is not valid UTF-8.
    InvalidBoneName(u32),
    /// The mesh with this index is not a weighted mesh.
    NotWeightedMesh(u32),
    /// The target rig's file stem is not a hexadecimal 64-bit number.
    InvalidHash,
}

} // verus!
