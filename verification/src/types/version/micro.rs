//! Implementation of [`MicroVersion`].

use vstd::prelude::*;

use crate::error::Error;

verus! {

/// `MicroVersion` is a type that represents a Micro QR code version.
#[derive(Clone, Copy, Debug, PartialEq, Eq, PartialOrd, Ord, Hash, Structural)]
pub enum MicroVersion {
    /// An 11×11 Micro QR code symbol.
    M1,
    /// A 13×13 Micro QR code symbol.
    M2,
    /// A 15×15 Micro QR code symbol.
    M3,
    /// A 17×17 Micro QR code symbol.
    M4,
}

impl MicroVersion {
    /// The smallest Micro QR code version.
    pub const MIN: MicroVersion = MicroVersion::M1;

    /// The largest Micro QR code version.
    pub const MAX: MicroVersion = MicroVersion::M4;

    /// All versions of Micro QR code, from the smallest to the largest.
    pub const ALL: [MicroVersion; 4] = [
        MicroVersion::M1,
        MicroVersion::M2,
        MicroVersion::M3,
        MicroVersion::M4,
    ];

    /// The version number, from 1 to 4.
    pub open spec fn spec_number(self) -> nat {
        self as nat + 1
    }

    /// Returns the version number, from 1 to 4.
    pub fn number(self) -> (r: u8)
        ensures
            r == self.spec_number(),
            1 <= r <= 4,
    {
        self as u8 + 1
    }

    /// The number of modules on each side: `2 × number + 9`.
    pub open spec fn spec_size(self) -> nat {
        self.spec_number() * 2 + 9
    }

    /// Gets the number of modules on each side.
    pub fn size(self) -> (r: u8)
        ensures
            r == self.spec_size(),
    {
        self.number() * 2 + 9
    }

    /// The number of bits of the mode indicator: `number − 1`.
    pub open spec fn spec_mode_bits_count(self) -> nat {
        (self.spec_number() - 1) as nat
    }

    /// Returns the number of bits needed to encode the mode indicator.
    pub fn mode_bits_count(self) -> (r: usize)
        ensures
            r == self.spec_mode_bits_count(),
    {
        (self.number() - 1) as usize
    }
}

impl From<MicroVersion> for u8 {
    /// Converts a `MicroVersion` into its version number.
    fn from(version: MicroVersion) -> (r: u8) {
        version.number()
    }
}

impl vstd::std_specs::convert::FromSpecImpl<MicroVersion> for u8 {
    open spec fn obeys_from_spec() -> bool {
        true
    }

    open spec fn from_spec(v: MicroVersion) -> u8 {
        v.spec_number() as u8
    }
}

impl TryFrom<u8> for MicroVersion {
    type Error = Error;

    /// Converts a version number (1 to 4) into a `MicroVersion`.
    fn try_from(version: u8) -> (r: Result<MicroVersion, Error>) {
        if 1 <= version && version <= 4 {
            Ok(MicroVersion::ALL[(version - 1) as usize])
        } else {
            Err(Error::InvalidVersion)
        }
    }
}

impl vstd::std_specs::convert::TryFromSpecImpl<u8> for MicroVersion {
    open spec fn obeys_try_from_spec() -> bool {
        true
    }

    open spec fn try_from_spec(v: u8) -> Result<MicroVersion, Error> {
        if 1 <= v <= 4 {
            Ok(MicroVersion::ALL[v - 1])
        } else {
            Err(Error::InvalidVersion)
        }
    }
}

} // verus!
