//! The errors of the codec.

use std::num::TryFromIntError;
use std::string::FromUtf8Error;
use vstd::prelude::*;

verus! {

/// Why an encode or decode call stopped.
///
/// Only `InsufficientData` is recoverable: it says how many more bytes the
/// failing read needed, so a caller may retry with more input.
#[derive(Debug, Clone, PartialEq, Eq)]
pub enum BinError {
    /// The source ran out; the payload is the number of bytes that were missing.
    InsufficientData(usize),
    /// A discriminant was read that names no known variant.
    VariantNotMatched(u64),
    /// A length or discriminant does not fit the integer that carries it.
    IntegerOverflow,
    /// The bytes of a string are not valid UTF-8.
    InvalidUtf8,
    /// The underlying transport failed.
    IOError(String),
    /// Any other failure reported by a user-defined codec.
    Custom(String),
}

/// Why the declared shape of an aggregate cannot be used.
#[derive(Debug, Copy, Clone, PartialEq, Eq, Structural)]
pub enum LayoutError {
    /// More than one variant of a tagged union is marked as the default.
    MultipleDefaults,
    /// An implicit discriminant would follow the largest 64-bit value.
    DiscriminantOverflow,
    /// More than one field of an aggregate is marked as the flags carrier.
    MultipleCarriers,
    /// A flag-gated field stands before any flags carrier.
    FlagBeforeCarrier,
}

/// The error of std for bytes that are not UTF-8; nothing of it is looked into.
#[verifier::external_type_specification]
#[verifier::external_body]
pub struct ExFromUtf8Error(FromUtf8Error);

impl From<TryFromIntError> for BinError {
    /// An integer conversion that failed is an `IntegerOverflow`.
    fn from(other: TryFromIntError) -> (r: BinError) {
        BinError::IntegerOverflow
    }
}

impl vstd::std_specs::convert::FromSpecImpl<TryFromIntError> for BinError {
    open spec fn obeys_from_spec() -> bool {
        true
    }

    open spec fn from_spec(other: TryFromIntError) -> BinError {
        BinError::IntegerOverflow
    }
}

impl From<FromUtf8Error> for BinError {
    /// A conversion to text that failed is an `InvalidUtf8`.
    fn from(other: FromUtf8Error) -> (r: BinError) {
        BinError::InvalidUtf8
    }
}

impl vstd::std_specs::convert::FromSpecImpl<FromUtf8Error> for BinError {
    open spec fn obeys_from_spec() -> bool {
        true
    }

    open spec fn from_spec(other: FromUtf8Error) -> BinError {
        BinError::InvalidUtf8
    }
}

impl BinError {
    /// Whether more input could turn this failure into a success.
    pub fn is_recoverable(&self) -> (r: bool)
        ensures
            r == (*self is InsufficientData),
    {
        match self {
            BinError::InsufficientData(_) => true,
            _ => false,
        }
    }
}

} // verus!
