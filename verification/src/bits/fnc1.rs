//! FNC1 (function 1) mode indicators.

use vstd::prelude::*;

use super::{Bits, ExtendedMode, mode_indicator_bits, number_bits};
use crate::error::{Error, QrResult};

verus! {

impl Bits {
    /// Encodes an indicator that the following data are formatted according to
    /// the UCC/EAN Application Identifiers standard.
    ///
    /// # Errors
    ///
    /// Returns [`Err`] if the mode is not supported in the provided version.
    pub fn push_fnc1_first_position(&mut self) -> (r: QrResult<()>)
        requires
            old(self).wf(),
            old(self).has_room(16),
        ensures
            final(self).wf(),
            final(self).spec_version() == old(self).spec_version(),
            match mode_indicator_bits(old(self).spec_version(), ExtendedMode::Fnc1First) {
                Some(bits) => r == Ok::<(), Error>(()) && final(self)@ == old(self)@ + bits,
                None => r == Err::<(), Error>(Error::UnsupportedCharacterSet) && final(self)@ == old(
                    self,
                )@,
            },
    {
        self.push_mode_indicator(ExtendedMode::Fnc1First)
    }

    /// Encodes an indicator that the following data are formatted in accordance
    /// with specific industry or application specifications previously agreed
    /// with AIM International.
    ///
    /// # Errors
    ///
    /// Returns [`Err`] if the mode is not supported in the provided version.
    pub fn push_fnc1_second_position(&mut self, application_indicator: u8) -> (r: QrResult<()>)
        requires
            old(self).wf(),
            old(self).has_room(32),
        ensures
            final(self).wf(),
            final(self).spec_version() == old(self).spec_version(),
            match mode_indicator_bits(old(self).spec_version(), ExtendedMode::Fnc1Second) {
                Some(bits) => r == Ok::<(), Error>(()) && final(self)@ == old(self)@ + bits
                    + number_bits(application_indicator as u16, 8),
                None => r == Err::<(), Error>(Error::UnsupportedCharacterSet) && final(self)@ == old(
                    self,
                )@,
            },
    {
        match self.push_mode_indicator(ExtendedMode::Fnc1Second) {
            Ok(()) => {},
            Err(e) => return Err(e),
        }
        proof {
            vstd::arithmetic::power2::lemma2_to64();
        }
        self.push_number(8, application_indicator as u16);
        Ok(())
    }
}

} // verus!
