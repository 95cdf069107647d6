//! Error kinds reported by the codec.

use vstd::prelude::*;

verus! {

/// Why a value could not be decoded from, or encoded to, the wire.
#[derive(Clone, Copy, Debug, PartialEq, Eq, Structural)]
pub enum DnsError {
    /// The buffer ends before a field or a record does.
    TruncatedInput,
    /// A compression pointer refers to an offset outside the buffer.
    InvalidPointer,
    /// A chain of compression pointers returns to an offset it already visited.
    CompressionLoop,
    /// A label is longer than 63 bytes.
    LabelTooLong,
    /// A value does not fit into the bits that the wire format gives it.
    ValueOutOfRange,
    /// A record type code is not one of the recognized ones.
    UnsupportedRecordType,
    /// A record class code is not one of the recognized ones.
    UnsupportedRecordClass,
}

/// The part of a message in which decoding stopped.
#[derive(Clone, Copy, Debug, PartialEq, Eq, Structural)]
pub enum Section {
    Header,
    Question,
    Answer,
    Authority,
    Additional,
}

/// A decoding failure together with the place where it happened: the section
/// and the zero-based index of the entry within that section.
#[derive(Clone, Copy, Debug, PartialEq, Eq, Structural)]
pub struct ParseError {
    pub kind: DnsError,
    pub section: Section,
    pub index: u16,
}

} // verus!
