use vstd::prelude::*;

verus! {

/// Failures of the codec.
#[derive(Debug, Clone, Copy, PartialEq, Eq, Structural)]
pub enum Error {
    /// Fewer bytes remain than a read needs; holds the offset at which the read began.
    UnexpectedEof { offset: usize },
    /// A name reference points outside the name table.
    InvalidNameIndex,
    /// A package index points outside the table it addresses.
    InvalidPackageIndex,
    /// A flag word holds bits that no flag defines.
    InvalidFlags,
    /// A recorded size disagrees with the bytes that were, or would be, emitted.
    SizeMismatch,
}

} // verus!
