//! Error types for this crate.

use vstd::prelude::*;

verus! {

/// `Error` encodes the error encountered when generating a QR code.
#[derive(Clone, Copy, Debug, PartialEq, Eq, Structural)]
pub enum Error {
    /// The data is too long to encode into a QR code for the given version.
    DataTooLong,
    /// The provided version / error correction level combination is invalid.
    InvalidVersion,
    /// Some characters in the data cannot be supported by the provided QR code
    /// version.
    UnsupportedCharacterSet,
    /// The provided ECI designator is invalid. A valid designator should be
    /// between 0 and 999,999.
    InvalidEciDesignator,
    /// A character not belonging to the character set is found.
    InvalidCharacter,
}

/// `QrResult` is a convenient alias for a QR code generation result.
pub type QrResult<T> = core::result::Result<T, Error>;

impl Error {
    /// The human-readable description of the error.
    pub open spec fn spec_message(self) -> Seq<char> {
        match self {
            Error::DataTooLong => "data too long"@,
            Error::InvalidVersion => "invalid version"@,
            Error::UnsupportedCharacterSet => "unsupported character set"@,
            Error::InvalidEciDesignator => "invalid ECI designator"@,
            Error::InvalidCharacter => "invalid character"@,
        }
    }

    /// Returns the human-readable description of the error, as the `Display`
    /// form of the error shows it.
    pub fn message(&self) -> (r: &'static str)
        ensures
            r@ == self.spec_message(),
    {
        match self {
            Error::DataTooLong => "data too long",
            Error::InvalidVersion => "invalid version",
            Error::UnsupportedCharacterSet => "unsupported character set",
            Error::InvalidEciDesignator => "invalid ECI designator",
            Error::InvalidCharacter => "invalid character",
        }
    }
}

} // verus!
