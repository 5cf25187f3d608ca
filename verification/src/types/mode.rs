//! Implementation of [`Mode`].

use core::cmp::Ordering;

use vstd::prelude::*;

use super::Version;

verus! {

/// The mode indicator, which specifies the character set of the encoded data.
#[derive(Clone, Copy, Debug, PartialEq, Eq, Structural)]
pub enum Mode {
    /// The data contains only characters 0 to 9.
    Numeric,
    /// The data contains only uppercase letters (A–Z), numbers (0–9) and a few
    /// punctuations marks (space, `$`, `%`, `*`, `+`, `-`, `.`, `/`, `:`).
    Alphanumeric,
    /// The data contains arbitrary binary data.
    Byte,
    /// The data contains Shift-JIS-encoded double-byte text.
    Kanji,
}

/// The number of bits needed to encode the length of the data in rMQR code,
/// one row per version in the order of `RectMicroVersion::ALL`, one column per
/// mode: Numeric, Alphanumeric, Byte, Kanji.
pub const RMQR_LENGTH_BITS_COUNT: [[usize; 4]; 32] = [
    [4, 3, 3, 2],
    [5, 5, 4, 3],
    [6, 5, 5, 4],
    [7, 6, 5, 5],
    [7, 6, 6, 5],
    [5, 5, 4, 3],
    [6, 5, 5, 4],
    [7, 6, 5, 5],
    [7, 6, 6, 5],
    [8, 7, 6, 6],
    [4, 4, 3, 2],
    [6, 5, 5, 4],
    [7, 6, 5, 5],
    [7, 6, 6, 5],
    [8, 7, 6, 6],
    [8, 7, 7, 6],
    [5, 5, 4, 3],
    [6, 6, 5, 5],
    [7, 6, 6, 5],
    [7, 7, 6, 6],
    [8, 7, 7, 6],
    [8, 8, 7, 7],
    [7, 6, 6, 5],
    [7, 7, 6, 5],
    [8, 7, 7, 6],
    [8, 7, 7, 6],
    [9, 8, 7, 7],
    [7, 6, 6, 5],
    [8, 7, 6, 6],
    [8, 7, 7, 6],
    [8, 8, 7, 6],
    [9, 8, 8, 7],
];

impl Mode {
    /// The column of this mode in per-mode tables.
    pub open spec fn spec_index(self) -> nat {
        self as nat
    }

    /// The number of bits of the character count indicator of this mode in
    /// the given version.
    pub open spec fn spec_length_bits_count(self, version: Version) -> nat {
        match version {
            Version::Micro(a) => {
                let a = a.spec_number();
                match self {
                    Mode::Numeric => 2 + a,
                    Mode::Alphanumeric | Mode::Byte => 1 + a,
                    Mode::Kanji => a,
                }
            },
            Version::Normal(a) => {
                if a.spec_number() <= 9 {
                    match self {
                        Mode::Numeric => 10,
                        Mode::Alphanumeric => 9,
                        Mode::Byte | Mode::Kanji => 8,
                    }
                } else if a.spec_number() <= 26 {
                    match self {
                        Mode::Numeric => 12,
                        Mode::Alphanumeric => 11,
                        Mode::Byte => 16,
                        Mode::Kanji => 10,
                    }
                } else {
                    match self {
                        Mode::Numeric => 14,
                        Mode::Alphanumeric => 13,
                        Mode::Byte => 16,
                        Mode::Kanji => 12,
                    }
                }
            },
            Version::RectMicro(a) => RMQR_LENGTH_BITS_COUNT[a.spec_index() as int][self.spec_index() as int] as nat,
        }
    }

    /// Computes the number of bits needed to encode the data length.
    pub fn length_bits_count(self, version: Version) -> (r: usize)
        ensures
            r == self.spec_length_bits_count(version),
            r <= 16,
    {
        match version {
            Version::Micro(a) => {
                let a = a.number() as usize;
                match self {
                    Mode::Numeric => 2 + a,
                    Mode::Alphanumeric | Mode::Byte => 1 + a,
                    Mode::Kanji => a,
                }
            },
            Version::Normal(a) => {
                let a = a.number();
                if a <= 9 {
                    match self {
                        Mode::Numeric => 10,
                        Mode::Alphanumeric => 9,
                        Mode::Byte | Mode::Kanji => 8,
                    }
                } else if a <= 26 {
                    match self {
                        Mode::Numeric => 12,
                        Mode::Alphanumeric => 11,
                        Mode::Byte => 16,
                        Mode::Kanji => 10,
                    }
                } else {
                    match self {
                        Mode::Numeric => 14,
                        Mode::Alphanumeric => 13,
                        Mode::Byte => 16,
                        Mode::Kanji => 12,
                    }
                }
            },
            Version::RectMicro(a) => {
                let row = RMQR_LENGTH_BITS_COUNT[a.index()];
                assert(forall|i: int, j: int|
                    0 <= i < 32 && 0 <= j < 4 ==> #[trigger] RMQR_LENGTH_BITS_COUNT[i][j] <= 9);
                row[self as usize]
            },
        }
    }

    /// Whether `raw_data_len` characters are few enough that their bit count
    /// does not overflow.
    pub open spec fn spec_data_bits_in_range(self, raw_data_len: nat) -> bool {
        match self {
            Mode::Numeric => raw_data_len * 10 <= usize::MAX,
            Mode::Alphanumeric => raw_data_len * 11 <= usize::MAX,
            Mode::Byte => raw_data_len * 8 <= usize::MAX,
            Mode::Kanji => raw_data_len * 13 <= usize::MAX,
        }
    }

    /// The number of bits of `raw_data_len` characters in this mode: ⌈10n/3⌉,
    /// ⌈11n/2⌉, 8n and 13n.
    pub open spec fn spec_data_bits_count(self, raw_data_len: nat) -> nat {
        match self {
            Mode::Numeric => (raw_data_len * 10 + 2) / 3,
            Mode::Alphanumeric => (raw_data_len * 11 + 1) / 2,
            Mode::Byte => raw_data_len * 8,
            Mode::Kanji => raw_data_len * 13,
        }
    }

    /// Computes the number of bits needed to some data of a given raw length.
    ///
    /// Note that in Kanji mode, the `raw_data_len` is the number of Kanjis,
    /// i.e. half the total size of bytes.
    pub fn data_bits_count(self, raw_data_len: usize) -> (r: usize)
        requires
            self.spec_data_bits_in_range(raw_data_len as nat),
        ensures
            r == self.spec_data_bits_count(raw_data_len as nat),
    {
        match self {
            Mode::Numeric => {
                let bits = raw_data_len * 10;
                bits / 3 + if bits % 3 == 0 { 0 } else { 1 }
            },
            Mode::Alphanumeric => {
                let bits = raw_data_len * 11;
                bits / 2 + if bits % 2 == 0 { 0 } else { 1 }
            },
            Mode::Byte => raw_data_len * 8,
            Mode::Kanji => raw_data_len * 13,
        }
    }

    /// The partial order of modes: `a` precedes `b` when every character that
    /// `a` can encode, `b` can encode too. Numeric precedes Alphanumeric, and
    /// every mode precedes Byte; Kanji is unordered against Numeric and
    /// Alphanumeric.
    pub open spec fn spec_le(self, other: Mode) -> bool {
        ||| self == other
        ||| (self == Mode::Numeric && other == Mode::Alphanumeric)
        ||| other == Mode::Byte
    }

    /// The lowest common mode which both modes are compatible with.
    pub open spec fn spec_max(self, other: Mode) -> Mode {
        if other.spec_le(self) {
            self
        } else if self.spec_le(other) {
            other
        } else {
            Mode::Byte
        }
    }

    /// Finds the lowest common mode which both modes are compatible with.
    pub fn max(self, other: Mode) -> (r: Mode)
        ensures
            r == self.spec_max(other),
    {
        match self.partial_cmp(&other) {
            Some(Ordering::Greater) => self,
            Some(_) => other,
            None => Mode::Byte,
        }
    }
}

impl PartialOrd for Mode {
    /// Defines a partial ordering between modes. If `self <= other`, then
    /// `other` contains a superset of all characters supported by `self`.
    fn partial_cmp(&self, other: &Mode) -> (r: Option<Ordering>) {
        if *self == *other {
            Some(Ordering::Equal)
        } else if self.le_mode(other) {
            Some(Ordering::Less)
        } else if other.le_mode(self) {
            Some(Ordering::Greater)
        } else {
            None
        }
    }
}

impl Mode {
    /// Returns whether `self` precedes or equals `other` in the order of modes.
    fn le_mode(&self, other: &Mode) -> (r: bool)
        ensures
            r == self.spec_le(*other),
    {
        match (*self, *other) {
            (Mode::Numeric, Mode::Numeric) => true,
            (Mode::Alphanumeric, Mode::Alphanumeric) => true,
            (Mode::Kanji, Mode::Kanji) => true,
            (Mode::Numeric, Mode::Alphanumeric) => true,
            (_, Mode::Byte) => true,
            _ => false,
        }
    }
}

impl vstd::std_specs::cmp::PartialOrdSpecImpl for Mode {
    open spec fn obeys_partial_cmp_spec() -> bool {
        true
    }

    open spec fn partial_cmp_spec(&self, other: &Mode) -> Option<Ordering> {
        if *self == *other {
            Some(Ordering::Equal)
        } else if self.spec_le(*other) {
            Some(Ordering::Less)
        } else if other.spec_le(*self) {
            Some(Ordering::Greater)
        } else {
            None
        }
    }
}

/// The order of modes is a partial order: reflexive, antisymmetric and
/// transitive.
pub proof fn lemma_mode_order_is_partial_order(a: Mode, b: Mode, c: Mode)
    ensures
        a.spec_le(a),
        a.spec_le(b) && b.spec_le(a) ==> a == b,
        a.spec_le(b) && b.spec_le(c) ==> a.spec_le(c),
{
}

/// `max` gives the least upper bound of two modes: a mode that both precede,
/// and that precedes every other such mode.
pub proof fn lemma_max_is_least_upper_bound(a: Mode, b: Mode, c: Mode)
    ensures
        a.spec_le(a.spec_max(b)),
        b.spec_le(a.spec_max(b)),
        a.spec_le(c) && b.spec_le(c) ==> a.spec_max(b).spec_le(c),
{
}

/// `max` is commutative, associative and idempotent.
pub proof fn lemma_max_laws(a: Mode, b: Mode, c: Mode)
    ensures
        a.spec_max(b) == b.spec_max(a),
        a.spec_max(b).spec_max(c) == a.spec_max(b.spec_max(c)),
        a.spec_max(a) == a,
{
}

/// Whether `v2` is a version of the same kind as `v1` and no smaller: both
/// QR code or both Micro QR code with a number no smaller, or both rMQR code
/// of the same height with a width no smaller.
pub open spec fn no_smaller_same_kind(v1: Version, v2: Version) -> bool {
    match (v1, v2) {
        (Version::Normal(a), Version::Normal(b)) => a.spec_number() <= b.spec_number(),
        (Version::Micro(a), Version::Micro(b)) => a.spec_number() <= b.spec_number(),
        (Version::RectMicro(a), Version::RectMicro(b)) => a.spec_height() == b.spec_height()
            && a.spec_width() <= b.spec_width(),
        _ => false,
    }
}

/// A larger version of the same kind never has a shorter character count
/// indicator.
pub proof fn lemma_length_bits_count_monotone(mode: Mode, v1: Version, v2: Version)
    requires
        no_smaller_same_kind(v1, v2),
    ensures
        mode.spec_length_bits_count(v1) <= mode.spec_length_bits_count(v2),
{
    if let (Version::RectMicro(a), Version::RectMicro(b)) = (v1, v2) {
        assert(forall|i: int, j: int|
            0 <= i < 32 && 0 <= j < 32 && #[trigger] super::RectMicroVersion::SIZES[i][0]
                == #[trigger] super::RectMicroVersion::SIZES[j][0]
                && super::RectMicroVersion::SIZES[i][1] <= super::RectMicroVersion::SIZES[j][1]
                ==> RMQR_LENGTH_BITS_COUNT[i][0] <= RMQR_LENGTH_BITS_COUNT[j][0]
                && RMQR_LENGTH_BITS_COUNT[i][1] <= RMQR_LENGTH_BITS_COUNT[j][1]
                && RMQR_LENGTH_BITS_COUNT[i][2] <= RMQR_LENGTH_BITS_COUNT[j][2]
                && RMQR_LENGTH_BITS_COUNT[i][3] <= RMQR_LENGTH_BITS_COUNT[j][3]);
        assert(a.spec_index() < 32 && b.spec_index() < 32);
    }
}

} // verus!
