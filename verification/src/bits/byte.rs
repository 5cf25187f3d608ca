//! Implementation of features related to the [`Mode::Byte`] mode.

use vstd::prelude::*;

use super::{Bits, lemma_pow2_le_16, byte_bit, bytes_bits, data_pushed, number_bits, segment_room};
use crate::error::{Error, QrResult};
use crate::types::Mode;

verus! {

/// The 8 bits that `push_number` appends for a byte are the bits of the byte.
proof fn lemma_byte_number_bits(b: u8)
    ensures
        number_bits(b as u16, 8) == Seq::new(8, |k: int| byte_bit(b, k)),
{
    assert forall|k: int| 0 <= k < 8 implies #[trigger] number_bits(b as u16, 8)[k] == byte_bit(
        b,
        k,
    ) by {
        let kk = k as u16;
        let x = b as u16;
        assert(((x >> ((8 - 1 - kk) as u16)) & 1u16 == 1u16) == ((b >> ((7 - kk) as u8)) & 1u8
            == 1u8)) by (bit_vector)
            requires
                kk < 8,
                x == b as u16,
        ;
    }
    assert(number_bits(b as u16, 8) =~= Seq::new(8, |k: int| byte_bit(b, k)));
}

impl Bits {
    /// Encodes 8-bit byte data to the bits.
    ///
    /// # Errors
    ///
    /// Returns [`Err`] on overflow.
    pub fn push_byte_data(&mut self, data: &[u8]) -> (r: QrResult<()>)
        requires
            old(self).wf(),
            old(self).has_room(segment_room()),
            data@.len() * 8 + 28 <= usize::MAX,
        ensures
            final(self).wf(),
            final(self).spec_version() == old(self).spec_version(),
            final(self)@.len() <= old(self)@.len() + segment_room(),
            (r, final(self)@) == data_pushed(
                old(self)@,
                old(self).spec_version(),
                Mode::Byte,
                data@.len(),
                bytes_bits(data@),
            ),
    {
        match self.push_header(Mode::Byte, data.len()) {
            Ok(()) => {},
            Err(e) => return Err(e),
        }
        let ghost start = self@;
        proof {
            vstd::arithmetic::power2::lemma2_to64();
            lemma_pow2_le_16(Mode::Byte.spec_length_bits_count(self.spec_version()));
        }
        let mut i: usize = 0;
        while i < data.len()
            invariant
                self.wf(),
                self.spec_version() == old(self).spec_version(),
                data@.len() < 0x10000,
                old(self).has_room(segment_room()),
                start.len() <= old(self)@.len() + 32,
                i <= data@.len(),
                self@ == start + bytes_bits(data@.take(i as int)),
                bytes_bits(data@.take(i as int)).len() == 8 * i,
            decreases data@.len() - i,
        {
            proof {
                vstd::arithmetic::power2::lemma2_to64();
                lemma_byte_number_bits(data@[i as int]);
                assert(bytes_bits(data@.take(i as int + 1)) =~= bytes_bits(data@.take(i as int))
                    + number_bits(data@[i as int] as u16, 8));
            }
            self.push_number(8, data[i] as u16);
            i = i + 1;
        }
        proof {
            assert(data@.take(data@.len() as int) =~= data@);
        }
        Ok(())
    }
}

} // verus!
