//! The ways in which decoding, encoding and resolution fail.

use vstd::prelude::*;

verus! {

/// Why a buffer is not a message.
#[derive(Clone, Copy, Debug, PartialEq, Eq)]
pub enum DecodeError {
    /// The buffer ends before a field that it declares.
    Truncated,
    /// A label, a pointer or the trailing bytes break the format.
    InvalidData,
}

/// Why a message has no wire form: a label, a record's data or a section
/// does not fit the length field that would carry it.
#[derive(Clone, Copy, Debug, PartialEq, Eq)]
pub enum EncodeError {
    /// A length exceeds what its field can hold.
    TooLarge,
}

/// Why a question has no answer.
#[derive(Clone, Copy, Debug, PartialEq, Eq)]
pub enum ResolutionError {
    /// No record matches and nobody else can be asked.
    NameError,
    /// The upstream resolver failed or did not reply in time.
    ServerFailure,
    /// The question is of a class other than the Internet class.
    Unsupported,
}

} // verus!
