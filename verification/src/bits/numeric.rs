//! Implementation of features related to the [`Mode::Numeric`] mode.

use vstd::arithmetic::power2::pow2;
use vstd::prelude::*;

use super::{Bits, lemma_pow2_le_16, ExtendedMode, mode_indicator_bits, number_bits, pushed_bits};
use crate::error::{Error, QrResult};
use crate::types::{Mode, Version};

verus! {

/// The room for bits that one data segment asks for: its header and payload
/// always stay below this many bits, since the character count is below
/// `2^16`.
pub open spec fn segment_room() -> nat {
    0x100000
}

/// The outcome of pushing the header of a segment of `raw_len` characters in
/// `mode` after `bits`: the result, and the bits afterwards. The header is the
/// mode indicator followed by the character count; when the count does not fit
/// in its field, the mode indicator stays pushed.
pub open spec fn header_pushed(bits: Seq<bool>, version: Version, mode: Mode, raw_len: nat) -> (
    QrResult<()>,
    Seq<bool>,
) {
    match mode_indicator_bits(version, ExtendedMode::Data(mode)) {
        None => (Err(Error::UnsupportedCharacterSet), bits),
        Some(indicator) => {
            let length_bits = mode.spec_length_bits_count(version);
            if raw_len < pow2(length_bits) {
                (Ok(()), bits + indicator + number_bits(raw_len as u16, length_bits))
            } else {
                (Err(Error::DataTooLong), bits + indicator)
            }
        },
    }
}

/// The outcome of pushing a segment: its header, then `payload` when the
/// header went in.
pub open spec fn data_pushed(
    bits: Seq<bool>,
    version: Version,
    mode: Mode,
    raw_len: nat,
    payload: Seq<bool>,
) -> (QrResult<()>, Seq<bool>) {
    let header = header_pushed(bits, version, mode, raw_len);
    if header.0 is Ok {
        (Ok(()), header.1 + payload)
    } else {
        header
    }
}

/// The value of an ASCII digit.
pub open spec fn digit_value(b: u8) -> nat {
    (b - 48) as nat
}

/// Whether every byte of `data` is an ASCII digit.
pub open spec fn all_digits(data: Seq<u8>) -> bool {
    forall|i: int| 0 <= i < data.len() ==> 48 <= #[trigger] data[i] <= 57
}

/// The decimal number that the digits of `chunk` spell.
pub open spec fn numeric_value(chunk: Seq<u8>) -> nat
    decreases chunk.len(),
{
    if chunk.len() == 0 {
        0
    } else {
        numeric_value(chunk.drop_last()) * 10 + digit_value(chunk.last())
    }
}

/// The `c`-th group of (up to) three digits of `data`.
pub open spec fn numeric_group(data: Seq<u8>, c: nat) -> Seq<u8> {
    let end: int = if 3 * c + 3 <= data.len() {
        (3 * c + 3) as int
    } else {
        data.len() as int
    };
    data.subrange(3 * c as int, end)
}

/// The bits of the first `count` groups of three digits: each group is
/// encoded as its number in `3 × digits + 1` bits.
pub open spec fn numeric_payload_upto(data: Seq<u8>, count: nat) -> Seq<bool>
    decreases count,
{
    if count == 0 {
        Seq::empty()
    } else {
        let group = numeric_group(data, (count - 1) as nat);
        numeric_payload_upto(data, (count - 1) as nat) + number_bits(
            numeric_value(group) as u16,
            3 * group.len() + 1,
        )
    }
}

/// The bits of the digits of `data`.
pub open spec fn numeric_payload(data: Seq<u8>) -> Seq<bool> {
    numeric_payload_upto(data, (data.len() + 2) / 3)
}

/// The value of a group of up to three digits fits its bit count.
proof fn lemma_numeric_value_bound(chunk: Seq<u8>)
    requires
        all_digits(chunk),
    ensures
        chunk.len() == 0 ==> numeric_value(chunk) == 0,
        chunk.len() == 1 ==> numeric_value(chunk) < 10,
        chunk.len() == 2 ==> numeric_value(chunk) < 100,
        chunk.len() == 3 ==> numeric_value(chunk) < 1000,
    decreases chunk.len(),
{
    if chunk.len() > 0 {
        assert(all_digits(chunk.drop_last()));
        lemma_numeric_value_bound(chunk.drop_last());
    }
}

impl Bits {
    /// Pushes the header of a segment: the mode indicator and the character
    /// count.
    pub(crate) fn push_header(&mut self, mode: Mode, raw_data_len: usize) -> (r: QrResult<()>)
        requires
            old(self).wf(),
            old(self).has_room(64),
            mode.spec_data_bits_in_range(raw_data_len as nat),
            mode.spec_data_bits_count(raw_data_len as nat) + 28 <= usize::MAX,
        ensures
            final(self).wf(),
            final(self).spec_version() == old(self).spec_version(),
            (r, final(self)@) == header_pushed(
                old(self)@,
                old(self).spec_version(),
                mode,
                raw_data_len as nat,
            ),
    {
        let length_bits = mode.length_bits_count(self.version());
        self.reserve(length_bits + 4 + mode.data_bits_count(raw_data_len));
        match self.push_mode_indicator(ExtendedMode::Data(mode)) {
            Ok(()) => {},
            Err(e) => return Err(e),
        }
        let ghost mid = self@;
        let r = self.push_number_checked(length_bits, raw_data_len);
        proof {
            if r is Ok {
                assert(pushed_bits(mid.len(), raw_data_len as u16, length_bits as nat) == number_bits(
                    (raw_data_len as nat) as u16,
                    length_bits as nat,
                ));
            }
        }
        r
    }

    /// Encodes a numeric string to the bits.
    ///
    /// The data should only contain the characters 0 to 9.
    ///
    /// # Errors
    ///
    /// Returns [`Err`] on overflow.
    pub fn push_numeric_data(&mut self, data: &[u8]) -> (r: QrResult<()>)
        requires
            old(self).wf(),
            old(self).has_room(segment_room()),
            all_digits(data@),
            data@.len() * 10 + 28 <= usize::MAX,
        ensures
            final(self).wf(),
            final(self).spec_version() == old(self).spec_version(),
            final(self)@.len() <= old(self)@.len() + segment_room(),
            (r, final(self)@) == data_pushed(
                old(self)@,
                old(self).spec_version(),
                Mode::Numeric,
                data@.len(),
                numeric_payload(data@),
            ),
    {
        match self.push_header(Mode::Numeric, data.len()) {
            Ok(()) => {},
            Err(e) => return Err(e),
        }
        let ghost start = self@;
        proof {
            vstd::arithmetic::power2::lemma2_to64();
            lemma_pow2_le_16(Mode::Numeric.spec_length_bits_count(self.spec_version()));
        }
        let mut i: usize = 0;
        let ghost mut count: nat = 0;
        while i < data.len()
            invariant
                self.wf(),
                self.spec_version() == old(self).spec_version(),
                all_digits(data@),
                data@.len() < 0x10000,
                start.len() + segment_room() + 24 <= usize::MAX + 64,
                old(self).has_room(segment_room()),
                start.len() <= old(self)@.len() + 32,
                i == 3 * count || i == data@.len(),
                i <= data@.len(),
                i == data@.len() ==> count == (data@.len() + 2) / 3,
                i < data@.len() ==> count * 3 == i,
                self@ == start + numeric_payload_upto(data@, count),
                numeric_payload_upto(data@, count).len() <= 4 * i,
            decreases data@.len() - i,
        {
            let end = if data.len() - i > 3 {
                i + 3
            } else {
                data.len()
            };
            let mut number: u16 = 0;
            let mut j = i;
            while j < end
                invariant
                    i <= j <= end,
                    end <= data@.len(),
                    end - i <= 3,
                    all_digits(data@),
                    number == numeric_value(data@.subrange(i as int, j as int)),
                    number < 1000,
                decreases end - j,
            {
                proof {
                    let s = data@.subrange(i as int, j as int + 1);
                    assert(s.drop_last() =~= data@.subrange(i as int, j as int));
                    assert(all_digits(s));
                    lemma_numeric_value_bound(s);
                }
                number = number * 10 + (data[j] - 48u8) as u16;
                j = j + 1;
            }
            proof {
                let group = numeric_group(data@, count);
                assert(group =~= data@.subrange(i as int, end as int));
                assert(all_digits(group));
                lemma_numeric_value_bound(group);
                vstd::arithmetic::power2::lemma2_to64();
            }
            self.push_number((end - i) * 3 + 1, number);
            proof {
                assert(self@ == start + numeric_payload_upto(data@, count + 1));
            }
            i = end;
            proof {
                count = count + 1;
            }
        }
        Ok(())
    }
}

} // verus!
