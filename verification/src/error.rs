//! Error kinds of the container decoder and of the persisted chunk order.

use vstd::prelude::*;

verus! {

/// A violated invariant of the container format. Each is fatal for the unit
/// of work it occurs in: nothing is repaired or skipped.
#[derive(Clone, Copy, Debug, PartialEq, Eq, Structural)]
pub enum FormatError {
    /// The buffer is shorter than the fixed 24-byte header.
    HeaderTooShort,
    /// The index region that the header describes ends beyond the buffer.
    IndexOutOfBounds,
    /// The second or third reserved field of an index record is not zero.
    ReservedNonZero,
    /// An index record declares a block size other than 4104.
    BlockSizeMismatch,
    /// A payload size is not a multiple of the block size.
    SizeNotBlockMultiple,
    /// A block declares more encoded samples than a block can hold.
    SampleCountTooLarge,
    /// A chunk's payload region ends beyond the buffer.
    PayloadOutOfBounds,
    /// The audio data does not fit the 32-bit size fields of the output artifact.
    OutputTooLarge,
}

/// A persisted chunk order that cannot be used.
#[derive(Clone, Copy, Debug, PartialEq, Eq, Structural)]
pub enum ConfigError {
    /// The document is not a mapping from track names to lists of suffixes.
    Malformed,
    /// The container has no track of the requested name.
    UnknownTrack,
    /// A chunk of the track has a suffix that the configured order does not list.
    UnlistedChunk,
    /// The configured order lists a suffix for which the track has no chunk.
    UnknownSuffix,
}

impl FormatError {
    /// A one-line description of the violation.
    pub fn message(&self) -> (s: &'static str)
        ensures
            s@ == match *self {
                FormatError::HeaderTooShort => "container is too short to hold a header"@,
                FormatError::IndexOutOfBounds => "index region exceeds the container"@,
                FormatError::ReservedNonZero => "reserved index field is not zero"@,
                FormatError::BlockSizeMismatch => "block size is not 4104"@,
                FormatError::SizeNotBlockMultiple => "payload size is not a multiple of the block size"@,
                FormatError::SampleCountTooLarge => "declared sample count exceeds the block capacity"@,
                FormatError::PayloadOutOfBounds => "chunk payload exceeds the container"@,
                FormatError::OutputTooLarge => "audio data exceeds the output size field"@,
            },
    {
        match self {
            FormatError::HeaderTooShort => "container is too short to hold a header",
            FormatError::IndexOutOfBounds => "index region exceeds the container",
            FormatError::ReservedNonZero => "reserved index field is not zero",
            FormatError::BlockSizeMismatch => "block size is not 4104",
            FormatError::SizeNotBlockMultiple => "payload size is not a multiple of the block size",
            FormatError::SampleCountTooLarge => "declared sample count exceeds the block capacity",
            FormatError::PayloadOutOfBounds => "chunk payload exceeds the container",
            FormatError::OutputTooLarge => "audio data exceeds the output size field",
        }
    }
}

impl ConfigError {
    /// A one-line description of the problem.
    pub fn message(&self) -> (s: &'static str)
        ensures
            s@ == match *self {
                ConfigError::Malformed => "chunk order document is malformed"@,
                ConfigError::UnknownTrack => "no track of that name"@,
                ConfigError::UnlistedChunk => "a chunk is missing from the configured order"@,
                ConfigError::UnknownSuffix => "the configured order names an unknown chunk"@,
            },
    {
        match self {
            ConfigError::Malformed => "chunk order document is malformed",
            ConfigError::UnknownTrack => "no track of that name",
            ConfigError::UnlistedChunk => "a chunk is missing from the configured order",
            ConfigError::UnknownSuffix => "the configured order names an unknown chunk",
        }
    }
}

} // verus!
