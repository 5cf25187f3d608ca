//! Implementation of features related to the [`Mode::Kanji`] mode.

use vstd::prelude::*;

use super::{Bits, lemma_pow2_le_16, data_pushed, number_bits, segment_room};
use crate::error::{Error, QrResult};
use crate::types::Mode;

verus! {

/// The Shift JIS code point of a double-byte character.
pub open spec fn kanji_code_point(hi: u8, lo: u8) -> nat {
    hi as nat * 256 + lo as nat
}

/// The 13-bit number of a Shift JIS double-byte character: the code point less
/// `0x8140` (below `0xE040`) or `0xC140` (from `0xE040` on), then the high
/// byte of that times `0xC0` plus its low byte.
pub open spec fn kanji_value(hi: u8, lo: u8) -> nat {
    let cp = kanji_code_point(hi, lo);
    let offset: int = if cp < 0xE040 {
        cp - 0x8140
    } else {
        cp - 0xC140
    };
    ((offset / 256) * 0xC0 + offset % 256) as nat
}

/// Whether a byte pair is a Shift JIS character that Kanji mode can hold: its
/// code point is at least `0x8140` and its number fits in 13 bits.
pub open spec fn kanji_pair_ok(hi: u8, lo: u8) -> bool {
    kanji_code_point(hi, lo) >= 0x8140 && kanji_value(hi, lo) < 0x2000
}

/// Whether every complete byte pair of `data` is a character that Kanji mode
/// can hold.
pub open spec fn all_kanji(data: Seq<u8>) -> bool {
    forall|c: int| 0 <= c < data.len() / 2 ==> #[trigger] kanji_pair_ok(data[2 * c], data[2 * c + 1])
}

/// The bits of the first `count` byte pairs of `data`, 13 bits each.
pub open spec fn kanji_payload_upto(data: Seq<u8>, count: nat) -> Seq<bool>
    decreases count,
{
    if count == 0 {
        Seq::empty()
    } else {
        let c = (count - 1) as nat;
        kanji_payload_upto(data, c) + number_bits(
            kanji_value(data[2 * c as int], data[2 * c as int + 1]) as u16,
            13,
        )
    }
}

/// The bits of the complete byte pairs of `data` in Kanji mode.
pub open spec fn kanji_payload(data: Seq<u8>) -> Seq<bool> {
    kanji_payload_upto(data, data.len() / 2)
}

/// The outcome of pushing `data` in Kanji mode after `bits`: a segment of the
/// complete byte pairs, then an error when a byte is left over.
pub open spec fn kanji_pushed(bits: Seq<bool>, version: crate::types::Version, data: Seq<u8>) -> (
    QrResult<()>,
    Seq<bool>,
) {
    let pushed = data_pushed(bits, version, Mode::Kanji, data.len() / 2, kanji_payload(data));
    if pushed.0 is Ok && data.len() % 2 == 1 {
        (Err(Error::InvalidCharacter), pushed.1)
    } else {
        pushed
    }
}

impl Bits {
    /// Encodes Shift JIS double-byte data to the bits.
    ///
    /// # Errors
    ///
    /// Returns [`Err`] on overflow, or if the data is not Shift JIS double-byte
    /// data (e.g. if the length of data is not an even number).
    pub fn push_kanji_data(&mut self, data: &[u8]) -> (r: QrResult<()>)
        requires
            old(self).wf(),
            old(self).has_room(segment_room()),
            all_kanji(data@),
            (data@.len() / 2) * 13 + 28 <= usize::MAX,
        ensures
            final(self).wf(),
            final(self).spec_version() == old(self).spec_version(),
            final(self)@.len() <= old(self)@.len() + segment_room(),
            (r, final(self)@) == kanji_pushed(old(self)@, old(self).spec_version(), data@),
    {
        match self.push_header(Mode::Kanji, data.len() / 2) {
            Ok(()) => {},
            Err(e) => return Err(e),
        }
        let ghost start = self@;
        proof {
            vstd::arithmetic::power2::lemma2_to64();
            lemma_pow2_le_16(Mode::Kanji.spec_length_bits_count(self.spec_version()));
        }
        let pairs = data.len() / 2;
        let mut c: usize = 0;
        while c < pairs
            invariant
                self.wf(),
                self.spec_version() == old(self).spec_version(),
                pairs == data@.len() / 2,
                pairs < 0x10000,
                all_kanji(data@),
                old(self).has_room(segment_room()),
                start.len() <= old(self)@.len() + 32,
                c <= pairs,
                self@ == start + kanji_payload_upto(data@, c as nat),
                kanji_payload_upto(data@, c as nat).len() == 13 * c,
            decreases pairs - c,
        {
            let hi = data[2 * c];
            let lo = data[2 * c + 1];
            proof {
                assert(kanji_pair_ok(data@[2 * c as int], data@[2 * c as int + 1]));
            }
            let cp = hi as u16 * 256 + lo as u16;
            let bytes = if cp < 0xE040 {
                cp - 0x8140
            } else {
                cp - 0xC140
            };
            proof {
                assert(bytes >> 8 == bytes / 256) by (bit_vector);
                assert(bytes & 0xFF == bytes % 256) by (bit_vector);
                vstd::arithmetic::power2::lemma2_to64();
            }
            let number = (bytes >> 8) * 0xC0 + (bytes & 0xFF);
            self.push_number(13, number);
            c = c + 1;
        }
        if data.len() % 2 == 1 {
            return Err(Error::InvalidCharacter);
        }
        Ok(())
    }
}

} // verus!
