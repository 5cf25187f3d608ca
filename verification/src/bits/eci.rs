//! Extended Channel Interpretation (ECI) designators.

use vstd::prelude::*;

use super::{Bits, ExtendedMode, mode_indicator_bits, number_bits};
use crate::error::{Error, QrResult};

verus! {

/// The bits of an ECI designator of at most 999,999: one byte below 128; the
/// prefix `10` and 14 bits below 16,384; otherwise the prefix `110`, the bits
/// 16–20 of the designator in 5 bits and its low 16 bits.
pub open spec fn eci_designator_bits(eci_designator: u32) -> Seq<bool> {
    if eci_designator <= 127 {
        number_bits(eci_designator as u16, 8)
    } else if eci_designator <= 16383 {
        number_bits(0b10, 2) + number_bits(eci_designator as u16, 14)
    } else {
        number_bits(0b110, 3) + number_bits((eci_designator >> 16) as u16, 5) + number_bits(
            (eci_designator & 0xFFFF) as u16,
            16,
        )
    }
}

/// The outcome of pushing an ECI designator after `bits`: the ECI mode
/// indicator, then the designator when it is at most 999,999.
pub open spec fn eci_pushed(bits: Seq<bool>, version: crate::types::Version, eci_designator: u32) -> (
    QrResult<()>,
    Seq<bool>,
) {
    match mode_indicator_bits(version, ExtendedMode::Eci) {
        None => (Err(Error::UnsupportedCharacterSet), bits),
        Some(indicator) => if eci_designator <= 999_999 {
            (Ok(()), bits + indicator + eci_designator_bits(eci_designator))
        } else {
            (Err(Error::InvalidEciDesignator), bits + indicator)
        },
    }
}

impl Bits {
    /// Pushes an ECI (Extended Channel Interpretation) designator to the bits.
    ///
    /// An ECI designator is a 6-digit number to specify the character set of
    /// the following binary data. After calling this method, one could call
    /// [`Bits::push_byte_data`] or similar methods to insert the actual data.
    ///
    /// # Errors
    ///
    /// Returns [`Err`] if the QR code version does not support ECI, or the
    /// designator is outside of the expected range.
    pub fn push_eci_designator(&mut self, eci_designator: u32) -> (r: QrResult<()>)
        requires
            old(self).wf(),
            old(self).has_room(64),
        ensures
            final(self).wf(),
            final(self).spec_version() == old(self).spec_version(),
            (r, final(self)@) == eci_pushed(old(self)@, old(self).spec_version(), eci_designator),
    {
        self.reserve(12);
        match self.push_mode_indicator(ExtendedMode::Eci) {
            Ok(()) => {},
            Err(e) => return Err(e),
        }
        proof {
            vstd::arithmetic::power2::lemma2_to64();
        }
        if eci_designator <= 127 {
            self.push_number(8, eci_designator as u16);
        } else if eci_designator <= 16383 {
            self.push_number(2, 0b10);
            self.push_number(14, eci_designator as u16);
        } else if eci_designator <= 999_999 {
            proof {
                assert(eci_designator <= 999_999 ==> (eci_designator >> 16) < 32) by (bit_vector);
                assert((eci_designator & 0xFFFF) < 0x10000) by (bit_vector);
            }
            self.push_number(3, 0b110);
            self.push_number(5, (eci_designator >> 16) as u16);
            self.push_number(16, (eci_designator & 0xFFFF) as u16);
        } else {
            return Err(Error::InvalidEciDesignator);
        }
        Ok(())
    }
}

} // verus!
