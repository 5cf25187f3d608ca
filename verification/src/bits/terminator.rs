//! The terminator and the padding that fill the data capacity of a symbol.

use vstd::prelude::*;

use super::{Bits, byte_bit, number_bits, pushed_bits, zero_bits};
use crate::error::{Error, QrResult};
use crate::types::{EcLevel, Version};

verus! {

/// The number of data bits that each version holds at each error correction
/// level; one row per version in the order of `Version::spec_table_row`, one
/// column per level: L, M, Q, H. Zero marks an unsupported combination.
pub const DATA_LENGTHS: [[usize; 4]; 76] = [
    [152, 128, 104, 72],
    [272, 224, 176, 128],
    [440, 352, 272, 208],
    [640, 512, 384, 288],
    [864, 688, 496, 368],
    [1088, 864, 608, 480],
    [1248, 992, 704, 528],
    [1552, 1232, 880, 688],
    [1856, 1456, 1056, 800],
    [2192, 1728, 1232, 976],
    [2592, 2032, 1440, 1120],
    [2960, 2320, 1648, 1264],
    [3424, 2672, 1952, 1440],
    [3688, 2920, 2088, 1576],
    [4184, 3320, 2360, 1784],
    [4712, 3624, 2600, 2024],
    [5176, 4056, 2936, 2264],
    [5768, 4504, 3176, 2504],
    [6360, 5016, 3560, 2728],
    [6888, 5352, 3880, 3080],
    [7456, 5712, 4096, 3248],
    [8048, 6256, 4544, 3536],
    [8752, 6880, 4912, 3712],
    [9392, 7312, 5312, 4112],
    [10208, 8000, 5744, 4304],
    [10960, 8496, 6032, 4768],
    [11744, 9024, 6464, 5024],
    [12248, 9544, 6968, 5288],
    [13048, 10136, 7288, 5608],
    [13880, 10984, 7880, 5960],
    [14744, 11640, 8264, 6344],
    [15640, 12328, 8920, 6760],
    [16568, 13048, 9368, 7208],
    [17528, 13800, 9848, 7688],
    [18448, 14496, 10288, 7888],
    [19472, 15312, 10832, 8432],
    [20528, 15936, 11408, 8768],
    [21616, 16816, 12016, 9136],
    [22496, 17728, 12656, 9776],
    [23648, 18672, 13328, 10208],
    [20, 0, 0, 0],
    [40, 32, 0, 0],
    [84, 68, 0, 0],
    [128, 112, 80, 0],
    [0, 48, 0, 24],
    [0, 96, 0, 56],
    [0, 160, 0, 80],
    [0, 224, 0, 112],
    [0, 352, 0, 192],
    [0, 96, 0, 56],
    [0, 168, 0, 88],
    [0, 248, 0, 136],
    [0, 336, 0, 176],
    [0, 504, 0, 264],
    [0, 56, 0, 40],
    [0, 152, 0, 88],
    [0, 248, 0, 120],
    [0, 344, 0, 184],
    [0, 456, 0, 232],
    [0, 672, 0, 336],
    [0, 96, 0, 56],
    [0, 216, 0, 104],
    [0, 304, 0, 160],
    [0, 424, 0, 232],
    [0, 584, 0, 280],
    [0, 848, 0, 432],
    [0, 264, 0, 120],
    [0, 384, 0, 208],
    [0, 536, 0, 248],
    [0, 704, 0, 384],
    [0, 1016, 0, 552],
    [0, 312, 0, 168],
    [0, 448, 0, 224],
    [0, 624, 0, 304],
    [0, 800, 0, 448],
    [0, 1216, 0, 608],
];

/// The outcome of pushing the terminator and the padding for `ec_level` after
/// `bits` in `version`: an error when the version does not support the level
/// or the bits exceed its capacity, and else the bits filled to the capacity.
pub open spec fn terminator_pushed(bits: Seq<bool>, version: Version, ec_level: EcLevel) -> (
    QrResult<()>,
    Seq<bool>,
) {
    match version.spec_fetch(ec_level, DATA_LENGTHS@) {
        Err(e) => (Err(e), bits),
        Ok(data_length) => if bits.len() > data_length {
            (Err(Error::DataTooLong), bits)
        } else {
            (Ok(()), terminated_bits(bits, version, data_length as nat))
        },
    }
}

/// The number of zero bits of the full terminator: 4 for QR code,
/// `2 × number + 1` for Micro QR code and 3 for rMQR code.
pub open spec fn terminator_size(version: Version) -> nat {
    match version {
        Version::Micro(a) => a.spec_number() * 2 + 1,
        Version::RectMicro(_) => 3,
        Version::Normal(_) => 4,
    }
}

/// `count` padding bytes, alternating `0b1110_1100` and `0b0001_0001`.
pub open spec fn padding_bits(count: nat) -> Seq<bool> {
    Seq::new(
        8 * count,
        |i: int| byte_bit(if (i / 8) % 2 == 0 { 0b1110_1100u8 } else { 0b0001_0001u8 }, i % 8),
    )
}

/// The bits after the terminator and the padding that fill the data capacity
/// `data_length` were added to `bits`: the terminator, cut short where the
/// capacity ends; zero bits up to the next byte boundary; padding bytes up to
/// the last whole byte of the capacity; and a zero byte if the capacity still
/// is not reached.
pub open spec fn terminated_bits(bits: Seq<bool>, version: Version, data_length: nat) -> Seq<bool> {
    let size = if terminator_size(version) <= data_length - bits.len() {
        terminator_size(version)
    } else {
        (data_length - bits.len()) as nat
    };
    let with_terminator = bits + zero_bits(size);
    if with_terminator.len() < data_length {
        let aligned_len = 8 * ((with_terminator.len() + 7) / 8);
        let aligned = with_terminator + zero_bits((aligned_len - with_terminator.len()) as nat);
        let count = if data_length / 8 > aligned_len / 8 {
            (data_length / 8 - aligned_len / 8) as nat
        } else {
            0
        };
        let padded = aligned + padding_bits(count);
        if padded.len() < data_length {
            padded + zero_bits(8)
        } else {
            padded
        }
    } else {
        with_terminator
    }
}

/// The bits of the number zero are all clear.
proof fn lemma_zero_number_bits(n: nat)
    requires
        n <= 16,
    ensures
        number_bits(0u16, n) == zero_bits(n),
{
    assert forall|i: int| 0 <= i < n implies !#[trigger] super::num_bit(0u16, n, i) by {
        let s = (n - 1 - i) as u16;
        assert((0u16 >> s) & 1u16 != 1u16) by (bit_vector);
    }
    assert(number_bits(0u16, n) =~= zero_bits(n));
}

/// The bits of one padding byte, as `push_number` appends them.
proof fn lemma_padding_byte(count: nat, b: u16)
    requires
        b == if count % 2 == 0 { 0b1110_1100u16 } else { 0b0001_0001u16 },
    ensures
        padding_bits(count) + number_bits(b, 8) == padding_bits(count + 1),
{
    let lhs = padding_bits(count) + number_bits(b, 8);
    let rhs = padding_bits(count + 1);
    assert forall|i: int| 0 <= i < 8 * (count + 1) implies #[trigger] lhs[i] == rhs[i] by {
        if i >= 8 * count {
            let k = i - 8 * count;
            assert(i / 8 == count);
            assert(i % 8 == k);
            let kk = k as u16;
            let bb = b as u8;
            assert(((b >> ((8 - 1 - kk) as u16)) & 1u16 == 1u16) == ((bb >> ((7 - kk) as u8)) & 1u8
                == 1u8)) by (bit_vector)
                requires
                    kk < 8,
                    b < 256,
                    bb == b as u8,
            ;
        }
    }
    assert(lhs =~= rhs);
}

impl Bits {
    /// Pushes the ending bits to indicate no more data.
    ///
    /// # Errors
    ///
    /// Returns [`Err`] on overflow, or if it is not valid to use the `ec_level`
    /// for the given version. On error the bits are unchanged.
    #[verifier::spinoff_prover]
    #[verifier::rlimit(40)]
    pub fn push_terminator(&mut self, ec_level: EcLevel) -> (r: QrResult<()>)
        requires
            old(self).wf(),
        ensures
            final(self).wf(),
            final(self).spec_version() == old(self).spec_version(),
            match old(self).spec_version().spec_fetch(ec_level, DATA_LENGTHS@) {
                Err(e) => r == Err::<(), Error>(e) && final(self)@ == old(self)@,
                Ok(data_length) => if old(self)@.len() > data_length {
                    r == Err::<(), Error>(Error::DataTooLong) && final(self)@ == old(self)@
                } else {
                    r == Ok::<(), Error>(()) && final(self)@ == terminated_bits(
                        old(self)@,
                        old(self).spec_version(),
                        data_length as nat,
                    )
                },
            },
    {
        let terminator_size: usize = match self.version() {
            Version::Micro(a) => a.number() as usize * 2 + 1,
            Version::RectMicro(_) => 3,
            Version::Normal(_) => 4,
        };

        let cur_length = self.len();
        let data_length = match self.max_len(ec_level) {
            Ok(data_length) => data_length,
            Err(e) => return Err(e),
        };
        if cur_length > data_length {
            return Err(Error::DataTooLong);
        }
        proof {
            assert(forall|i: int, j: int|
                0 <= i < 76 && 0 <= j < 4 ==> #[trigger] DATA_LENGTHS[i][j] <= 23648);
            self.version.lemma_table_row_bound();
        }
        let ghost old_bits = self@;
        let terminator_size = if terminator_size <= data_length - cur_length {
            terminator_size
        } else {
            data_length - cur_length
        };
        if terminator_size > 0 {
            proof {
                vstd::arithmetic::power2::lemma_pow2_pos(terminator_size as nat);
                lemma_zero_number_bits(terminator_size as nat);
            }
            self.push_number(terminator_size, 0);
        }
        assert(self@ == old_bits + zero_bits(terminator_size as nat));

        if self.len() < data_length {
            self.align_to_byte();
            let ghost aligned = self@;
            let data_bytes_length = data_length / 8;
            let byte_len = self.len() / 8;
            let padding_bytes_count = if data_bytes_length > byte_len {
                data_bytes_length - byte_len
            } else {
                0
            };
            let mut i: usize = 0;
            while i < padding_bytes_count
                invariant
                    self.wf(),
                    self.spec_version() == old(self).spec_version(),
                    i <= padding_bytes_count,
                    aligned.len() <= 8 * data_bytes_length + 8,
                    byte_len + padding_bytes_count <= data_bytes_length + 1,
                    aligned.len() == 8 * byte_len,
                    data_bytes_length <= 23648,
                    self@ == aligned + padding_bits(i as nat),
                decreases padding_bytes_count - i,
            {
                let byte: u16 = if i % 2 == 0 { 0b1110_1100 } else { 0b0001_0001 };
                proof {
                    vstd::arithmetic::power2::lemma2_to64();
                    lemma_padding_byte(i as nat, byte);
                }
                self.push_number(8, byte);
                i = i + 1;
            }
            if self.len() < data_length {
                proof {
                    vstd::arithmetic::power2::lemma2_to64();
                    lemma_zero_number_bits(8);
                }
                self.push_number(8, 0);
            }
        }
        Ok(())
    }
}

/// After the terminator and padding, the bits reach the data capacity and end
/// less than a byte after it, and the bits before keep their place.
pub proof fn lemma_terminated_fills_capacity(bits: Seq<bool>, version: Version, data_length: nat)
    requires
        bits.len() <= data_length,
    ensures
        data_length <= terminated_bits(bits, version, data_length).len() < data_length + 8,
        terminated_bits(bits, version, data_length).subrange(0, bits.len() as int) == bits,
{
    let t = terminated_bits(bits, version, data_length);
    assert(t.subrange(0, bits.len() as int) =~= bits);
}

} // verus!
