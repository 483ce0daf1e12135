use vstd::prelude::*;

verus! {

/// Why a record could not be decoded.
#[derive(Clone, Copy, Debug, PartialEq, Eq, Structural)]
pub enum DecodeError {
    /// A read went past the end of the buffer it was taken from.
    Truncated,
    /// A back-reference points before the start of the output.
    InvalidBackReference,
    /// The four-byte tag of a record is not one of the known ones.
    UnrecognizedMagic,
    /// The lengths in a record header ask for more bytes than the record has.
    InvalidRecordBounds,
}

} // verus!
