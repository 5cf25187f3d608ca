//! The `bits` module encodes binary data into raw bits used in a QR code.

use vstd::arithmetic::power2::pow2;
use vstd::prelude::*;

use crate::error::{Error, QrResult};
use crate::types::{EcLevel, Version};

mod alphanumeric;
mod auto;
mod byte;
mod eci;
mod encode;
mod fnc1;
mod kanji;
mod mode_indicator;
mod numeric;
mod terminator;

pub use self::alphanumeric::{
    alphanumeric_charset, alphanumeric_digit, alphanumeric_group, alphanumeric_payload,
    alphanumeric_payload_upto, alphanumeric_value, all_alphanumeric, is_alphanumeric_char,
    lemma_alphanumeric_pair_decodes, lemma_alphanumeric_table, spec_alphanumeric_digit,
};
pub use self::auto::{
    RectMicroStrategy, areas, auto_micro, auto_micro_version, auto_normal, auto_rect_micro,
    best_segments, bits_result, capacity, encode_auto, encode_auto_micro, encode_auto_rect_micro,
    encoded_bits, encoded_in, find_min_version, first_min_index, group_total,
    lemma_auto_micro_smallest, lemma_auto_normal_smallest, lemma_auto_rect_smallest,
    lemma_encoded_in_fits, lemma_rect_supported_m_h, micro_fits, micro_version,
    min_normal_index, normal_capacity,
    normal_fits, normal_group, normal_group_end, normal_group_end_index, pick_rect, rect_before,
    rect_candidates, rect_first_of_height, rect_firsts, rect_fits, rect_key, rect_supported,
    rect_version, rect_versions, widths,
};
pub use self::eci::{eci_designator_bits, eci_pushed};
pub use self::encode::{
    lemma_segment_pushed_len, lemma_segments_pushed_len, segment_bytes, segment_pushable,
    segment_pushed, segments_pushed,
};
pub use self::kanji::{
    all_kanji, kanji_code_point, kanji_pair_ok, kanji_payload, kanji_payload_upto, kanji_pushed,
    kanji_value,
};
pub use self::mode_indicator::{ExtendedMode, mode_indicator_bits, mode_indicator_number};
pub use self::numeric::{
    all_digits, data_pushed, digit_value, header_pushed, numeric_group, numeric_payload,
    numeric_payload_upto, numeric_value, segment_room,
};
pub use self::terminator::{
    DATA_LENGTHS, lemma_terminated_fills_capacity, padding_bits, terminated_bits, terminator_pushed,
    terminator_size,
};

verus! {

/// Bit `k` of the byte `b`, counted from the most significant bit (`k = 0`)
/// to the least significant one (`k = 7`).
pub open spec fn byte_bit(b: u8, k: int) -> bool {
    (b >> ((7 - k) as u8)) & 1u8 == 1u8
}

/// Bit `i` of the `n`-bit big-endian number `x`, counted from the most
/// significant bit (`i = 0`).
pub open spec fn num_bit(x: u16, n: nat, i: int) -> bool {
    (x >> ((n - 1 - i) as u16)) & 1u16 == 1u16
}

/// The `n` bits of the number `x`, most significant first.
pub open spec fn number_bits(x: u16, n: nat) -> Seq<bool> {
    Seq::new(n, |i: int| num_bit(x, n, i))
}

/// `n` zero bits.
pub open spec fn zero_bits(n: nat) -> Seq<bool> {
    Seq::new(n, |i: int| false)
}

/// The bits of a byte sequence, each byte most significant bit first.
pub open spec fn bytes_bits(data: Seq<u8>) -> Seq<bool> {
    Seq::new(8 * data.len(), |i: int| byte_bit(data[i / 8], i % 8))
}

/// The bits that `push_number(n, number)` appends: the `n` bits of
/// `number`, most significant first.
pub open spec fn pushed_bits(len: nat, number: u16, n: nat) -> Seq<bool> {
    number_bits(number, n)
}

/// The `Bits` structure stores the encoded data for a QR code.
#[derive(Debug)]
pub struct Bits {
    data: Vec<u8>,
    bit_offset: usize,
    version: Version,
}

// Bit-level facts about the bytes that `push_number` writes. In each, the
// `n`-bit number `x` is placed at bit positions `b - n .. b` of a window that
// starts at the first bit of a byte; the fact gives bit `k` of the `t`-th byte
// of the window: bit `p = 8 t + k` of the window holds bit `b - 1 - p` (from
// the least significant end) of `x` when `b - n <= p < b`, and zero otherwise.

/// The first byte of a window whose number ends within it.
proof fn lemma_window_byte0_short(x: u16, n: u16, b: u16, k: u16)
    by (bit_vector)
    requires
        n <= b,
        b <= 8,
        n == 16 || x < (1u16 << n),
        k < 8,
    ensures
        (((x << ((8 - b) as u16)) as u8 >> ((7 - k) as u8)) & 1u8 == 1u8) == (b - n <= k && k < b
            && (x >> ((b - 1 - k) as u16)) & 1u16 == 1u16),
{
}

/// The first byte of a window whose number ends after it.
proof fn lemma_window_byte0_long(x: u16, n: u16, b: u16, k: u16)
    by (bit_vector)
    requires
        n <= b,
        8 < b,
        b - n < 8,
        n <= 16,
        n == 16 || x < (1u16 << n),
        k < 8,
    ensures
        (((x >> ((b - 8) as u16)) as u8 >> ((7 - k) as u8)) & 1u8 == 1u8) == (b - n <= k && (x >> ((
        b - 1 - k) as u16)) & 1u16 == 1u16),
{
}

/// The second byte of a window whose number ends within it.
proof fn lemma_window_byte1_short(x: u16, n: u16, b: u16, k: u16)
    by (bit_vector)
    requires
        n <= b,
        8 < b,
        b <= 16,
        n == 16 || x < (1u16 << n),
        k < 8,
    ensures
        (((x << ((16 - b) as u16)) as u8 >> ((7 - k) as u8)) & 1u8 == 1u8) == (8 + k < b && (x >> ((b
            - 9 - k) as u16)) & 1u16 == 1u16),
{
}

/// The second byte of a window whose number ends after it.
proof fn lemma_window_byte1_long(x: u16, n: u16, b: u16, k: u16)
    by (bit_vector)
    requires
        n <= b,
        16 < b,
        b - n < 8,
        n <= 16,
        k < 8,
    ensures
        (((x >> ((b - 16) as u16)) as u8 >> ((7 - k) as u8)) & 1u8 == 1u8) == ((x >> ((b - 9
            - k) as u16)) & 1u16 == 1u16),
{
}

/// The third byte of a window.
proof fn lemma_window_byte2(x: u16, n: u16, b: u16, k: u16)
    by (bit_vector)
    requires
        n <= b,
        16 < b,
        b <= 24,
        b - n < 8,
        n <= 16,
        k < 8,
    ensures
        (((x << ((24 - b) as u16)) as u8 >> ((7 - k) as u8)) & 1u8 == 1u8) == (16 + k < b && (x >> ((
        b - 17 - k) as u16)) & 1u16 == 1u16),
{
}

/// A bit of `a | y` is set when it is set in `a` or in `y`.
proof fn lemma_or_bit(a: u8, y: u8, k: u8)
    by (bit_vector)
    requires
        k < 8,
    ensures
        (((a | y) >> ((7 - k) as u8)) & 1u8 == 1u8) == (((a >> ((7 - k) as u8)) & 1u8 == 1u8) || ((y
            >> ((7 - k) as u8)) & 1u8 == 1u8)),
{
}

/// The bits `0 .. len` of a byte sequence, and that the bits after them are
/// zero.
pub open spec fn bits_of(data: Seq<u8>, len: nat) -> Seq<bool> {
    bytes_bits(data).take(len as int)
}

/// Whether every bit of `data` at position `len` or after is zero.
pub open spec fn zero_after(data: Seq<u8>, len: nat) -> bool {
    forall|i: int| len <= i < 8 * data.len() ==> !#[trigger] byte_bit(data[i / 8], i % 8)
}

/// Writing a window of bits over the bytes from `start` on: the bytes before
/// `start` are kept, the bits `0 .. o` of byte `start` are kept, the window
/// bits `o .. o + n` hold `window`, and the rest is zero. Then the bits of the
/// new bytes are the old bits followed by the window.
proof fn lemma_write_window(
    old_d: Seq<u8>,
    new_d: Seq<u8>,
    start: nat,
    o: nat,
    window: Seq<bool>,
)
    requires
        o < 8,
        o > 0 ==> start < old_d.len(),
        start <= old_d.len(),
        start + 1 >= old_d.len(),
        o == 0 ==> start == old_d.len(),
        zero_after(old_d, 8 * start + o),
        new_d.len() > start,
        8 * start + o + window.len() <= 8 * new_d.len(),
        forall|j: int| 0 <= j < start ==> new_d[j] == old_d[j],
        forall|p: int|
            0 <= p < 8 * (new_d.len() - start) ==> #[trigger] byte_bit(new_d[start + p / 8], p % 8)
                == if p < o {
                byte_bit(old_d[start as int], p)
            } else if p < o + window.len() {
                window[p - o]
            } else {
                false
            },
    ensures
        bits_of(new_d, 8 * start + o + window.len()) == bits_of(old_d, 8 * start + o) + window,
        zero_after(new_d, 8 * start + o + window.len()),
{
    let len = 8 * start + o;
    let new_len = len + window.len();
    assert forall|i: int| 0 <= i < new_len implies #[trigger] bits_of(new_d, new_len)[i] == (
    bits_of(old_d, len) + window)[i] by {
        if i < 8 * start {
            assert(new_d[i / 8] == old_d[i / 8]);
        } else {
            let p = i - 8 * start;
            assert(start + p / 8 == i / 8);
            assert(p % 8 == i % 8);
            assert(byte_bit(new_d[start + p / 8], p % 8) == byte_bit(new_d[i / 8], i % 8));
        }
    }
    assert(bits_of(new_d, new_len) =~= bits_of(old_d, len) + window);
    assert forall|i: int| new_len <= i < 8 * new_d.len() implies !#[trigger] byte_bit(
        new_d[i / 8],
        i % 8,
    ) by {
        let p = i - 8 * start;
        assert(start + p / 8 == i / 8);
        assert(p % 8 == i % 8);
        assert(byte_bit(new_d[start + p / 8], p % 8) == byte_bit(new_d[i / 8], i % 8));
    }
}

impl View for Bits {
    type V = Seq<bool>;

    /// The bits pushed so far, in order.
    closed spec fn view(&self) -> Seq<bool> {
        bits_of(self.data@, self.spec_len())
    }
}

impl Bits {
    /// The number of bits stored.
    pub closed spec fn spec_len(&self) -> nat {
        if self.bit_offset == 0 {
            8 * self.data@.len()
        } else {
            (8 * (self.data@.len() - 1) + self.bit_offset) as nat
        }
    }

    /// The QR code version the bits are meant for.
    pub closed spec fn spec_version(&self) -> Version {
        self.version
    }

    /// The internal consistency of the bits: the last byte is partly filled
    /// exactly when `bit_offset` is not zero, the unused bits of it are zero,
    /// and the bit count fits in a `usize`.
    pub closed spec fn wf(&self) -> bool {
        &&& self.bit_offset < 8
        &&& self.bit_offset > 0 ==> self.data@.len() > 0
        &&& zero_after(self.data@, self.spec_len())
        &&& 8 * self.data@.len() <= usize::MAX
    }

    /// Whether `n` more bits can be pushed without the bit count overflowing.
    pub open spec fn has_room(&self, n: nat) -> bool {
        self@.len() + n + 24 <= usize::MAX
    }

    /// The bits are those of the bytes, up to the bit count.
    proof fn lemma_view(&self)
        requires
            self.wf(),
        ensures
            self@ == bits_of(self.data@, self.spec_len()),
            self@.len() == self.spec_len(),
            self.spec_len() <= 8 * self.data@.len(),
            8 * self.data@.len() < self.spec_len() + 8,
    {
    }

    /// Constructs a new, empty bits structure.
    pub fn new(version: Version) -> (r: Bits)
        ensures
            r.wf(),
            r@ == Seq::<bool>::empty(),
            r.spec_version() == version,
    {
        let r = Bits { data: Vec::new(), bit_offset: 0, version };
        assert(r@ =~= Seq::<bool>::empty());
        r
    }

    /// Pushes an N-bit big-endian integer to the end of the bits.
    ///
    /// The `number` must really only be `n` bit in size.
    #[verifier::spinoff_prover]
    #[verifier::rlimit(40)]
    pub fn push_number(&mut self, n: usize, number: u16)
        requires
            old(self).wf(),
            n <= 16,
            (number as nat) < pow2(n as nat),
            old(self).has_room(n as nat),
        ensures
            final(self).wf(),
            final(self)@ == old(self)@ + pushed_bits(old(self)@.len(), number, n as nat),
            final(self).spec_version() == old(self).spec_version(),
    {
        proof {
            self.lemma_view();
            lemma_number_fits(number, n as nat);
        }
        if n == 0 {
            assert(self@ + pushed_bits(self@.len(), number, 0) =~= self@);
            return;
        }
        let ghost old_d = self.data@;
        let ghost o = self.bit_offset as nat;
        let ghost start: nat = if o == 0 { old_d.len() } else { (old_d.len() - 1) as nat };
        let ghost window = pushed_bits(self@.len(), number, n as nat);
        let b = self.bit_offset + n;
        if self.bit_offset == 0 {
            if b <= 8 {
                self.data.push((number << ((8 - b) as u16)) as u8);
            } else {
                self.data.push((number >> ((b - 8) as u16)) as u8);
                self.data.push((number << ((16 - b) as u16)) as u8);
            }
        } else {
            let last = self.data.len() - 1;
            if b <= 8 {
                let y = (number << ((8 - b) as u16)) as u8;
                self.data.set(last, self.data[last] | y);
            } else if b <= 16 {
                let y = (number >> ((b - 8) as u16)) as u8;
                self.data.set(last, self.data[last] | y);
                self.data.push((number << ((16 - b) as u16)) as u8);
            } else {
                let y = (number >> ((b - 8) as u16)) as u8;
                self.data.set(last, self.data[last] | y);
                self.data.push((number >> ((b - 16) as u16)) as u8);
                self.data.push((number << ((24 - b) as u16)) as u8);
            }
        }
        proof {
            lemma_window_written(old_d, self.data@, start, o, number, n as u16, b as u16, window);
            lemma_write_window(old_d, self.data@, start, o, window);
        }
        self.bit_offset = b & 7;
        proof {
            assert(b & 7 == b % 8) by (bit_vector);
            self.lemma_view();
        }
    }
}

impl Bits {
    /// Pushes an N-bit big-endian integer to the end of the bits, and check
    /// that the number does not overflow the bits.
    ///
    /// # Errors
    ///
    /// Returns [`Err`] when `n` is over 16 or `number` does not fit in `n`
    /// bits; the bits are then unchanged.
    pub fn push_number_checked(&mut self, n: usize, number: usize) -> (r: QrResult<()>)
        requires
            old(self).wf(),
            old(self).has_room(16),
        ensures
            final(self).wf(),
            final(self).spec_version() == old(self).spec_version(),
            r is Ok <==> n <= 16 && (number as nat) < pow2(n as nat),
            r is Ok ==> r == Ok::<(), Error>(()) && final(self)@ == old(self)@ + pushed_bits(
                old(self)@.len(),
                number as u16,
                n as nat,
            ),
            r is Err ==> r == Err::<(), Error>(Error::DataTooLong) && final(self)@ == old(self)@,
    {
        if n > 16 || number >= (1usize << n) {
            proof {
                if n <= 16 {
                    lemma_usize_pow2(n as nat);
                }
            }
            Err(Error::DataTooLong)
        } else {
            proof {
                lemma_usize_pow2(n as nat);
                vstd::arithmetic::power2::lemma_pow2_pos(n as nat);
                if n < 16 {
                    vstd::arithmetic::power2::lemma_pow2_strictly_increases(n as nat, 16);
                }
                vstd::arithmetic::power2::lemma2_to64();
            }
            self.push_number(n, number as u16);
            Ok(())
        }
    }

    /// Reserves `n` extra bits of space for pushing.
    pub fn reserve(&mut self, n: usize)
        requires
            old(self).wf(),
            n + 8 <= usize::MAX,
        ensures
            final(self)@ == old(self)@,
            final(self).wf(),
            final(self).spec_version() == old(self).spec_version(),
    {
        let extra_bytes = (n + (8 - self.bit_offset) % 8) / 8;
        self.data.reserve(extra_bytes);
    }

    /// Converts the bits into a bytes vector: the bits, most significant bit
    /// of each byte first, followed by zero bits up to the next byte boundary.
    pub fn into_bytes(self) -> (r: Vec<u8>)
        requires
            self.wf(),
        ensures
            r@.len() == (self@.len() + 7) / 8,
            bytes_bits(r@) == self@ + zero_bits((8 * r@.len() - self@.len()) as nat),
    {
        proof {
            self.lemma_view();
            let d = self.data@;
            let len = self.spec_len();
            assert(bytes_bits(d) =~= bits_of(d, len) + zero_bits((8 * d.len() - len) as nat));
        }
        self.data
    }

    /// Returns the total number of bits currently pushed.
    pub fn len(&self) -> (r: usize)
        requires
            self.wf(),
        ensures
            r == self@.len(),
    {
        proof {
            self.lemma_view();
        }
        if self.bit_offset == 0 {
            self.data.len() * 8
        } else {
            (self.data.len() - 1) * 8 + self.bit_offset
        }
    }

    /// Returns [`true`] if any bits are not pushed.
    pub fn is_empty(&self) -> (r: bool)
        requires
            self.wf(),
        ensures
            r == (self@.len() == 0),
    {
        proof {
            self.lemma_view();
        }
        self.data.len() == 0
    }

    /// The maximum number of bits allowed by the provided QR code version and
    /// error correction level.
    ///
    /// # Errors
    ///
    /// Returns [`Err`] if it is not valid to use the `ec_level` for the given
    /// version.
    pub fn max_len(&self, ec_level: EcLevel) -> (r: QrResult<usize>)
        ensures
            r == self.spec_version().spec_fetch(ec_level, DATA_LENGTHS@),
    {
        proof {
            self.version.lemma_table_row_bound();
        }
        self.version.fetch(ec_level, &DATA_LENGTHS)
    }

    /// Returns the version of the QR code.
    pub fn version(&self) -> (r: Version)
        ensures
            r == self.spec_version(),
    {
        self.version
    }

    /// Fills the partly used last byte with zero bits, so that the bits end at
    /// a byte boundary.
    pub(crate) fn align_to_byte(&mut self)
        requires
            old(self).wf(),
        ensures
            final(self).wf(),
            final(self).spec_version() == old(self).spec_version(),
            final(self)@ == old(self)@ + zero_bits((final(self)@.len() - old(self)@.len()) as nat),
            final(self)@.len() == 8 * ((old(self)@.len() + 7) / 8),
    {
        proof {
            self.lemma_view();
        }
        let ghost old_d = self.data@;
        let ghost old_len = self.spec_len();
        self.bit_offset = 0;
        proof {
            let d = self.data@;
            assert(bits_of(d, 8 * d.len()) =~= bits_of(d, old_len) + zero_bits((8 * d.len() - old_len) as nat));
            self.lemma_view();
        }
    }
}

/// A character count below `2^n`, for a count field of at most 16 bits, is
/// below `2^16`.
pub proof fn lemma_pow2_le_16(n: nat)
    requires
        n <= 16,
    ensures
        pow2(n) <= 0x10000,
{
    vstd::arithmetic::power2::lemma2_to64();
    if n < 16 {
        vstd::arithmetic::power2::lemma_pow2_strictly_increases(n, 16);
    }
}

/// `1 << n` is `2^n` for the shift amounts that `push_number_checked` uses.
proof fn lemma_usize_pow2(n: nat)
    requires
        n <= 16,
    ensures
        (1usize << n) == pow2(n),
{
    vstd::arithmetic::power2::lemma2_to64();
    vstd::arithmetic::power2::lemma_pow2_strictly_increases(n, 64);
    vstd::bits::lemma_usize_shl_is_mul(1usize, n as usize);
}

/// The bytes that `push_number` leaves hold the window of bits that
/// `lemma_write_window` asks for.
proof fn lemma_window_written(
    old_d: Seq<u8>,
    new_d: Seq<u8>,
    start: nat,
    o: nat,
    x: u16,
    n: u16,
    b: u16,
    window: Seq<bool>,
)
    requires
        o < 8,
        n <= 16,
        b == o + n,
        n == 16 || x < (1u16 << n),
        o == 0 ==> start == old_d.len(),
        o > 0 ==> start + 1 == old_d.len(),
        zero_after(old_d, 8 * start + o),
        window == pushed_bits(8 * start + o, x, n as nat),
        o == 0 && b <= 8 ==> new_d == old_d.push((x << ((8 - b) as u16)) as u8),
        o == 0 && b > 8 ==> new_d == old_d.push((x >> ((b - 8) as u16)) as u8).push(
            (x << ((16 - b) as u16)) as u8,
        ),
        o > 0 && b <= 8 ==> new_d == old_d.update(
            start as int,
            old_d[start as int] | ((x << ((8 - b) as u16)) as u8),
        ),
        o > 0 && 8 < b <= 16 ==> new_d == old_d.update(
            start as int,
            old_d[start as int] | ((x >> ((b - 8) as u16)) as u8),
        ).push((x << ((16 - b) as u16)) as u8),
        o > 0 && b > 16 ==> new_d == old_d.update(
            start as int,
            old_d[start as int] | ((x >> ((b - 8) as u16)) as u8),
        ).push((x >> ((b - 16) as u16)) as u8).push((x << ((24 - b) as u16)) as u8),
    ensures
        new_d.len() > start,
        8 * start + o + window.len() <= 8 * new_d.len(),
        forall|j: int| 0 <= j < start ==> new_d[j] == old_d[j],
        forall|p: int|
            0 <= p < 8 * (new_d.len() - start) ==> #[trigger] byte_bit(new_d[start + p / 8], p % 8)
                == if p < o {
                byte_bit(old_d[start as int], p)
            } else if p < o + window.len() {
                window[p - o]
            } else {
                false
            },
{
    assert forall|p: int| 0 <= p < 8 * (new_d.len() - start) implies #[trigger] byte_bit(
        new_d[start + p / 8],
        p % 8,
    ) == if p < o {
        byte_bit(old_d[start as int], p)
    } else if p < o + window.len() {
        window[p - o]
    } else {
        false
    } by {
        let t = p / 8;
        let k = p % 8;
        if o == 0 {
            if b <= 8 {
                lemma_window_byte0_short(x, n, b, k as u16);
            } else if t == 0 {
                lemma_window_byte0_long(x, n, b, k as u16);
            } else {
                lemma_window_byte1_short(x, n, b, k as u16);
            }
        } else {
            if t == 0 {
                let a = old_d[start as int];
                if p >= o {
                    assert(!byte_bit(old_d[(8 * start + p) / 8], (8 * start + p) % 8));
                    assert((8 * start + p) / 8 == start);
                }
                if b <= 8 {
                    lemma_window_byte0_short(x, n, b, k as u16);
                    lemma_or_bit(a, (x << ((8 - b) as u16)) as u8, k as u8);
                } else {
                    lemma_window_byte0_long(x, n, b, k as u16);
                    lemma_or_bit(a, (x >> ((b - 8) as u16)) as u8, k as u8);
                }
            } else if t == 1 {
                if b <= 16 {
                    lemma_window_byte1_short(x, n, b, k as u16);
                } else {
                    lemma_window_byte1_long(x, n, b, k as u16);
                }
            } else {
                lemma_window_byte2(x, n, b, k as u16);
            }
        }
    }
}

/// A number below `2^n` is below `1 << n`, and all of its bits from `n` on are
/// zero.
proof fn lemma_number_fits(x: u16, n: nat)
    requires
        n <= 16,
        (x as nat) < pow2(n),
    ensures
        n == 16 || x < (1u16 << (n as u16)),
{
    if n < 16 {
        vstd::arithmetic::power2::lemma_pow2_strictly_increases(n, 16);
        vstd::arithmetic::power2::lemma2_to64();
        vstd::bits::lemma_u16_shl_is_mul(1u16, n as u16);
    }
}

} // verus!
