//! Implementation of [`NormalVersion`].

use vstd::prelude::*;

use crate::error::Error;

verus! {

/// `NormalVersion` is a type that represents a normal QR code version.
#[derive(Clone, Copy, Debug, PartialEq, Eq, PartialOrd, Ord, Hash, Structural)]
pub enum NormalVersion {
    /// A 17×17 normal QR code symbol.
    V1,
    /// A 21×21 normal QR code symbol.
    V2,
    /// A 25×25 normal QR code symbol.
    V3,
    /// A 29×29 normal QR code symbol.
    V4,
    /// A 33×33 normal QR code symbol.
    V5,
    /// A 37×37 normal QR code symbol.
    V6,
    /// A 41×41 normal QR code symbol.
    V7,
    /// A 45×45 normal QR code symbol.
    V8,
    /// A 49×49 normal QR code symbol.
    V9,
    /// A 53×53 normal QR code symbol.
    V10,
    /// A 57×57 normal QR code symbol.
    V11,
    /// A 61×61 normal QR code symbol.
    V12,
    /// A 65×65 normal QR code symbol.
    V13,
    /// A 69×69 normal QR code symbol.
    V14,
    /// A 73×73 normal QR code symbol.
    V15,
    /// A 77×77 normal QR code symbol.
    V16,
    /// A 81×81 normal QR code symbol.
    V17,
    /// A 85×85 normal QR code symbol.
    V18,
    /// A 89×89 normal QR code symbol.
    V19,
    /// A 93×93 normal QR code symbol.
    V20,
    /// A 97×97 normal QR code symbol.
    V21,
    /// A 101×101 normal QR code symbol.
    V22,
    /// A 105×105 normal QR code symbol.
    V23,
    /// A 109×109 normal QR code symbol.
    V24,
    /// A 113×113 normal QR code symbol.
    V25,
    /// A 117×117 normal QR code symbol.
    V26,
    /// A 121×121 normal QR code symbol.
    V27,
    /// A 125×125 normal QR code symbol.
    V28,
    /// A 129×129 normal QR code symbol.
    V29,
    /// A 133×133 normal QR code symbol.
    V30,
    /// A 137×137 normal QR code symbol.
    V31,
    /// A 141×141 normal QR code symbol.
    V32,
    /// A 145×145 normal QR code symbol.
    V33,
    /// A 149×149 normal QR code symbol.
    V34,
    /// A 153×153 normal QR code symbol.
    V35,
    /// A 157×157 normal QR code symbol.
    V36,
    /// A 161×161 normal QR code symbol.
    V37,
    /// A 165×165 normal QR code symbol.
    V38,
    /// A 169×169 normal QR code symbol.
    V39,
    /// A 173×173 normal QR code symbol.
    V40,
}

impl NormalVersion {
    /// All versions of QR code, from the smallest to the largest.
    pub const ALL: [NormalVersion; 40] = [NormalVersion::V1, NormalVersion::V2, NormalVersion::V3, NormalVersion::V4, NormalVersion::V5, NormalVersion::V6, NormalVersion::V7, NormalVersion::V8, NormalVersion::V9, NormalVersion::V10, NormalVersion::V11, NormalVersion::V12, NormalVersion::V13, NormalVersion::V14, NormalVersion::V15, NormalVersion::V16, NormalVersion::V17, NormalVersion::V18, NormalVersion::V19, NormalVersion::V20, NormalVersion::V21, NormalVersion::V22, NormalVersion::V23, NormalVersion::V24, NormalVersion::V25, NormalVersion::V26, NormalVersion::V27, NormalVersion::V28, NormalVersion::V29, NormalVersion::V30, NormalVersion::V31, NormalVersion::V32, NormalVersion::V33, NormalVersion::V34, NormalVersion::V35, NormalVersion::V36, NormalVersion::V37, NormalVersion::V38, NormalVersion::V39, NormalVersion::V40];

    /// The version number, from 1 to 40.
    pub open spec fn spec_number(self) -> nat {
        self as nat + 1
    }

    /// Returns the version number, from 1 to 40.
    pub fn number(self) -> (r: u8)
        ensures
            r == self.spec_number(),
            1 <= r <= 40,
    {
        self as u8 + 1
    }
}

impl From<NormalVersion> for u8 {
    /// Converts a `NormalVersion` into its version number.
    fn from(version: NormalVersion) -> (r: u8) {
        version.number()
    }
}

impl vstd::std_specs::convert::FromSpecImpl<NormalVersion> for u8 {
    open spec fn obeys_from_spec() -> bool {
        true
    }

    open spec fn from_spec(v: NormalVersion) -> u8 {
        v.spec_number() as u8
    }
}

impl TryFrom<u8> for NormalVersion {
    type Error = Error;

    /// Converts a version number (1 to 40) into a `NormalVersion`.
    fn try_from(version: u8) -> (r: Result<NormalVersion, Error>) {
        if 1 <= version && version <= 40 {
            Ok(NormalVersion::ALL[(version - 1) as usize])
        } else {
            Err(Error::InvalidVersion)
        }
    }
}

impl vstd::std_specs::convert::TryFromSpecImpl<u8> for NormalVersion {
    open spec fn obeys_try_from_spec() -> bool {
        true
    }

    open spec fn try_from_spec(v: u8) -> Result<NormalVersion, Error> {
        if 1 <= v <= 40 {
            Ok(NormalVersion::ALL[v - 1])
        } else {
            Err(Error::InvalidVersion)
        }
    }
}

} // verus!
