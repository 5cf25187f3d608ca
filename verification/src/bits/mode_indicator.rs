//! Mode indicator.

use vstd::arithmetic::power2::pow2;
use vstd::prelude::*;

use super::{Bits, number_bits};
use crate::error::{Error, QrResult};
use crate::types::{MicroVersion, Mode, Version};

verus! {

/// An "extended" mode indicator, includes all indicators supported by QR code
/// beyond those bearing data.
#[derive(Clone, Copy, Debug, PartialEq, Eq, Structural)]
pub enum ExtendedMode {
    /// ECI mode indicator, to introduce an ECI designator.
    Eci,
    /// The normal mode to introduce data.
    Data(Mode),
    /// FNC-1 mode in the first position.
    Fnc1First,
    /// FNC-1 mode in the second position.
    Fnc1Second,
    /// Structured append.
    StructuredAppend,
}

/// The number that indicates `mode` in `version`, or `None` when the kind of
/// symbol has no indicator for the mode.
pub open spec fn mode_indicator_number(version: Version, mode: ExtendedMode) -> Option<nat> {
    match version {
        Version::Micro(_) => match mode {
            ExtendedMode::Data(Mode::Numeric) => Some(0),
            ExtendedMode::Data(Mode::Alphanumeric) => Some(1),
            ExtendedMode::Data(Mode::Byte) => Some(0b10),
            ExtendedMode::Data(Mode::Kanji) => Some(0b11),
            _ => None,
        },
        Version::RectMicro(_) => match mode {
            ExtendedMode::Data(Mode::Numeric) => Some(0b001),
            ExtendedMode::Data(Mode::Alphanumeric) => Some(0b010),
            ExtendedMode::Data(Mode::Byte) => Some(0b011),
            ExtendedMode::Data(Mode::Kanji) => Some(0b100),
            ExtendedMode::Eci => Some(0b111),
            ExtendedMode::Fnc1First => Some(0b101),
            ExtendedMode::Fnc1Second => Some(0b110),
            ExtendedMode::StructuredAppend => None,
        },
        Version::Normal(_) => match mode {
            ExtendedMode::Data(Mode::Numeric) => Some(0b0001),
            ExtendedMode::Data(Mode::Alphanumeric) => Some(0b0010),
            ExtendedMode::Data(Mode::Byte) => Some(0b0100),
            ExtendedMode::Data(Mode::Kanji) => Some(0b1000),
            ExtendedMode::Eci => Some(0b0111),
            ExtendedMode::Fnc1First => Some(0b0101),
            ExtendedMode::Fnc1Second => Some(0b1001),
            ExtendedMode::StructuredAppend => Some(0b0011),
        },
    }
}

/// The bits of the mode indicator of `mode` in `version`, or `None` when the
/// version cannot indicate the mode: it has no number for it, or the number
/// does not fit in the version's mode indicator width. Micro QR code version
/// M1 holds only numeric data and has no mode indicator at all.
pub open spec fn mode_indicator_bits(version: Version, mode: ExtendedMode) -> Option<Seq<bool>> {
    if version == Version::Micro(MicroVersion::M1) && mode == ExtendedMode::Data(Mode::Numeric) {
        Some(Seq::empty())
    } else {
        match mode_indicator_number(version, mode) {
            Some(v) => if v < pow2(version.spec_mode_bits_count()) {
                Some(number_bits(v as u16, version.spec_mode_bits_count()))
            } else {
                None
            },
            None => None,
        }
    }
}

impl Bits {
    /// Pushes the mode indicator to the end of the bits.
    ///
    /// # Errors
    ///
    /// Returns [`Err`] if the mode is not supported in the provided version;
    /// the bits are then unchanged.
    pub fn push_mode_indicator(&mut self, mode: ExtendedMode) -> (r: QrResult<()>)
        requires
            old(self).wf(),
            old(self).has_room(16),
        ensures
            final(self).wf(),
            final(self).spec_version() == old(self).spec_version(),
            match mode_indicator_bits(old(self).spec_version(), mode) {
                Some(bits) => r == Ok::<(), Error>(()) && final(self)@ == old(self)@ + bits,
                None => r == Err::<(), Error>(Error::UnsupportedCharacterSet) && final(self)@ == old(
                    self,
                )@,
            },
    {
        let version = self.version();
        let number: usize = match version {
            Version::Micro(v) => {
                if v == MicroVersion::M1 && mode == ExtendedMode::Data(Mode::Numeric) {
                    assert(self@ + Seq::<bool>::empty() =~= self@);
                    return Ok(());
                }
                match mode {
                    ExtendedMode::Data(Mode::Numeric) => 0,
                    ExtendedMode::Data(Mode::Alphanumeric) => 1,
                    ExtendedMode::Data(Mode::Byte) => 0b10,
                    ExtendedMode::Data(Mode::Kanji) => 0b11,
                    _ => return Err(Error::UnsupportedCharacterSet),
                }
            },
            Version::RectMicro(_) => match mode {
                ExtendedMode::Data(Mode::Numeric) => 0b001,
                ExtendedMode::Data(Mode::Alphanumeric) => 0b010,
                ExtendedMode::Data(Mode::Byte) => 0b011,
                ExtendedMode::Data(Mode::Kanji) => 0b100,
                ExtendedMode::Eci => 0b111,
                ExtendedMode::Fnc1First => 0b101,
                ExtendedMode::Fnc1Second => 0b110,
                ExtendedMode::StructuredAppend => return Err(Error::UnsupportedCharacterSet),
            },
            Version::Normal(_) => match mode {
                ExtendedMode::Data(Mode::Numeric) => 0b0001,
                ExtendedMode::Data(Mode::Alphanumeric) => 0b0010,
                ExtendedMode::Data(Mode::Byte) => 0b0100,
                ExtendedMode::Data(Mode::Kanji) => 0b1000,
                ExtendedMode::Eci => 0b0111,
                ExtendedMode::Fnc1First => 0b0101,
                ExtendedMode::Fnc1Second => 0b1001,
                ExtendedMode::StructuredAppend => 0b0011,
            },
        };
        let bits = version.mode_bits_count();
        proof {
            vstd::arithmetic::power2::lemma2_to64();
        }
        match self.push_number_checked(bits, number) {
            Ok(()) => Ok(()),
            Err(_) => Err(Error::UnsupportedCharacterSet),
        }
    }
}

} // verus!
