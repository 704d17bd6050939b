//! The closed set of failures that decoding or building TLV data can report.

use vstd::prelude::*;

verus! {

/// Failure of a TLV operation. Every failure is final for the call that
/// reports it.
#[derive(PartialEq, Eq, Structural, Clone, Copy, Debug)]
pub enum TlvError {
    /// The input is not acceptable: a tag outside the tag grammar, or bytes
    /// left over where all of the input had to be consumed.
    InvalidInput,
    /// The tag would need four bytes or more, which is reserved for future use.
    TagIsRFU,
    /// A hexadecimal tag specification could not be read as a number.
    ParseIntError,
    /// The input ended before a required byte.
    TruncatedInput,
    /// The tag and the value disagree on constructed versus primitive.
    Inconsistant,
    /// The length field is not supported.
    InvalidLength,
}

impl TlvError {
    /// A short description of the failure.
    pub fn message(&self) -> (s: &'static str)
        ensures
            s@ == self.spec_message(),
    {
        match self {
            TlvError::InvalidInput => "Invalid tag encountered",
            TlvError::TagIsRFU => "Tag is reserved for future usage",
            TlvError::ParseIntError => "Error parsing input as int",
            TlvError::TruncatedInput => "Error input too short",
            TlvError::Inconsistant => "Inconsistant (tag, value) pair",
            TlvError::InvalidLength => "Read invalid length value",
        }
    }

    /// The text that [`TlvError::message`] returns.
    pub open spec fn spec_message(&self) -> Seq<char> {
        match self {
            TlvError::InvalidInput => "Invalid tag encountered"@,
            TlvError::TagIsRFU => "Tag is reserved for future usage"@,
            TlvError::ParseIntError => "Error parsing input as int"@,
            TlvError::TruncatedInput => "Error input too short"@,
            TlvError::Inconsistant => "Inconsistant (tag, value) pair"@,
            TlvError::InvalidLength => "Read invalid length value"@,
        }
    }
}

/// The error of `from_str_radix`, carried through unopened.
#[verifier::external_type_specification]
#[verifier::external_body]
pub struct ExParseIntError(core::num::ParseIntError);

/// The error of the byte reader, carried through unopened.
#[verifier::external_type_specification]
#[verifier::external_body]
pub struct ExEndOfInput(untrusted::EndOfInput);

impl From<core::num::ParseIntError> for TlvError {
    fn from(e: core::num::ParseIntError) -> (res: Self) {
        TlvError::ParseIntError
    }
}

impl vstd::std_specs::convert::FromSpecImpl<core::num::ParseIntError> for TlvError {
    open spec fn obeys_from_spec() -> bool {
        true
    }

    open spec fn from_spec(e: core::num::ParseIntError) -> Self {
        TlvError::ParseIntError
    }
}

impl From<untrusted::EndOfInput> for TlvError {
    fn from(e: untrusted::EndOfInput) -> (res: Self) {
        TlvError::TruncatedInput
    }
}

impl vstd::std_specs::convert::FromSpecImpl<untrusted::EndOfInput> for TlvError {
    open spec fn obeys_from_spec() -> bool {
        true
    }

    open spec fn from_spec(e: untrusted::EndOfInput) -> Self {
        TlvError::TruncatedInput
    }
}

} // verus!
