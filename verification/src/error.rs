//! Error kinds reported while extracting a descriptor.

use vstd::prelude::*;

verus! {

/// Why a descriptor could not be extracted from its bytes.
#[derive(Clone, Copy, Debug, PartialEq, Eq, Structural)]
pub enum DescriptorError {
    /// Fewer bytes were supplied than the fixed header occupies.
    InvalidHeader,
    /// A segment's declared length exceeds the bytes that remain.
    InvalidSize,
    /// The header failed validation, or a segment lacks a well-formed NUL
    /// terminator.
    InvalidContents,
    /// A segment that must hold UTF-8 text does not.
    InvalidUtf8,
}

/// Result of extracting a descriptor or a part of one.
pub type DescriptorResult<T> = Result<T, DescriptorError>;

} // verus!
