//! Implementation of features related to the [`Mode::Alphanumeric`] mode.

use vstd::prelude::*;

use super::{Bits, lemma_pow2_le_16, data_pushed, number_bits, segment_room};
use crate::error::{Error, QrResult};
use crate::types::Mode;

verus! {

/// The value of a character in the alphanumeric character set: 0–9 for the
/// digits, 10–35 for `A`–`Z`, and 36–44 for space, `$`, `%`, `*`, `+`, `-`,
/// `.`, `/` and `:`. Any other byte counts as 0.
pub open spec fn spec_alphanumeric_digit(c: u8) -> nat {
    if 48 <= c <= 57 {
        (c - 48) as nat
    } else if 65 <= c <= 90 {
        (c - 65 + 10) as nat
    } else if c == 32 {
        36
    } else if c == 36 {
        37
    } else if c == 37 {
        38
    } else if c == 42 {
        39
    } else if c == 43 {
        40
    } else if c == 45 {
        41
    } else if c == 46 {
        42
    } else if c == 47 {
        43
    } else if c == 58 {
        44
    } else {
        0
    }
}

/// Whether `c` is in the alphanumeric character set: `0`–`9`, `A`–`Z`,
/// space, `$`, `%`, `*`, `+`, `-`, `.`, `/` and `:`.
pub open spec fn is_alphanumeric_char(c: u8) -> bool {
    (48 <= c <= 57) || (65 <= c <= 90) || c == 32 || c == 36 || c == 37 || c == 42 || c == 43
        || c == 45 || c == 46 || c == 47 || c == 58
}

/// The 45 characters of the alphanumeric mode, in the order of their values
/// (ISO/IEC 18004, table 5).
pub open spec fn alphanumeric_charset() -> Seq<char> {
    "0123456789ABCDEFGHIJKLMNOPQRSTUVWXYZ $%*+-./:"@
}

/// The alphanumeric value of a character is its place in the table of the 45
/// characters: the `i`-th character of the table has value `i` (so `/` is 43
/// and `:` is 44), every character of the set is the one at the place its value
/// names, and the characters of the table are exactly the set.
pub proof fn lemma_alphanumeric_table()
    ensures
        alphanumeric_charset().len() == 45,
        forall|i: int|
            0 <= i < 45 ==> spec_alphanumeric_digit(#[trigger] alphanumeric_charset()[i] as u8)
                == i,
        forall|i: int| 0 <= i < 45 ==> is_alphanumeric_char(#[trigger] alphanumeric_charset()[i] as u8),
        forall|i: int| 0 <= i < 45 ==> ((#[trigger] alphanumeric_charset()[i]) as u32) < 128,
        forall|c: u8|
            #[trigger] is_alphanumeric_char(c) ==> alphanumeric_charset()[spec_alphanumeric_digit(
                c,
            ) as int] == c as char,
{
    reveal_strlit("0123456789ABCDEFGHIJKLMNOPQRSTUVWXYZ $%*+-./:");
    let t = alphanumeric_charset();
    assert(t.len() == 45);
    assert(t[0] == '0' && t[9] == '9' && t[10] == 'A' && t[35] == 'Z');
    assert(t[36] == ' ' && t[37] == '$' && t[38] == '%' && t[39] == '*' && t[40] == '+');
    assert(t[41] == '-' && t[42] == '.' && t[43] == '/' && t[44] == ':');
}

/// Whether every byte of `data` is in the alphanumeric character set.
pub open spec fn all_alphanumeric(data: Seq<u8>) -> bool {
    forall|i: int| 0 <= i < data.len() ==> is_alphanumeric_char(#[trigger] data[i])
}

/// Returns the value of a character in the alphanumeric character set.
pub fn alphanumeric_digit(character: u8) -> (r: u16)
    ensures
        r == spec_alphanumeric_digit(character),
        r < 45,
{
    match character {
        48u8..=57u8 => (character - 48) as u16,
        65u8..=90u8 => (character - 65) as u16 + 10,
        32u8 => 36,
        36u8 => 37,
        37u8 => 38,
        42u8 => 39,
        43u8 => 40,
        45u8 => 41,
        46u8 => 42,
        47u8 => 43,
        58u8 => 44,
        _ => 0,
    }
}

/// The `c`-th pair of characters of `data` (the last one may be single).
pub open spec fn alphanumeric_group(data: Seq<u8>, c: nat) -> Seq<u8> {
    let end: int = if 2 * c + 2 <= data.len() {
        (2 * c + 2) as int
    } else {
        data.len() as int
    };
    data.subrange(2 * c as int, end)
}

/// The number that a pair (or a single character) encodes: `45 × a + b` for
/// a pair `a b`, the character's value for a single one.
pub open spec fn alphanumeric_value(group: Seq<u8>) -> nat {
    if group.len() == 2 {
        spec_alphanumeric_digit(group[0]) * 45 + spec_alphanumeric_digit(group[1])
    } else if group.len() == 1 {
        spec_alphanumeric_digit(group[0])
    } else {
        0
    }
}

/// A pair of characters of the set is encoded in base 45, first character
/// first, below `45 × 45` (so in 11 bits), and a single character as its value,
/// below 45 (so in 6 bits): a reader gets back the characters of the table at
/// the quotient and the remainder by 45.
pub proof fn lemma_alphanumeric_pair_decodes(a: u8, b: u8)
    requires
        is_alphanumeric_char(a),
        is_alphanumeric_char(b),
    ensures
        alphanumeric_value(seq![a, b]) < 2025,
        alphanumeric_charset()[(alphanumeric_value(seq![a, b]) / 45) as int] == a as char,
        alphanumeric_charset()[(alphanumeric_value(seq![a, b]) % 45) as int] == b as char,
        alphanumeric_value(seq![a]) < 45,
        alphanumeric_charset()[alphanumeric_value(seq![a]) as int] == a as char,
{
    lemma_alphanumeric_table();
    let x = spec_alphanumeric_digit(a);
    let y = spec_alphanumeric_digit(b);
    assert(x < 45 && y < 45);
    let v = alphanumeric_value(seq![a, b]);
    assert(v == x * 45 + y);
    assert(v / 45 == x && v % 45 == y && v < 2025) by (nonlinear_arith)
        requires
            v == x * 45 + y,
            x < 45,
            y < 45,
    ;
}

/// The bits of the first `count` pairs: each pair in 11 bits, a single
/// character in 6 bits.
pub open spec fn alphanumeric_payload_upto(data: Seq<u8>, count: nat) -> Seq<bool>
    decreases count,
{
    if count == 0 {
        Seq::empty()
    } else {
        let group = alphanumeric_group(data, (count - 1) as nat);
        alphanumeric_payload_upto(data, (count - 1) as nat) + number_bits(
            alphanumeric_value(group) as u16,
            5 * group.len() + 1,
        )
    }
}

/// The bits of the characters of `data` in the alphanumeric mode.
pub open spec fn alphanumeric_payload(data: Seq<u8>) -> Seq<bool> {
    alphanumeric_payload_upto(data, (data.len() + 1) / 2)
}

impl Bits {
    /// Encodes an alphanumeric string to the bits.
    ///
    /// The data should only contain the charaters A to Z (excluding lowercase),
    /// 0 to 9, space, `$`, `%`, `*`, `+`, `-`, `.`, `/` or `:`.
    ///
    /// # Errors
    ///
    /// Returns [`Err`] on overflow.
    pub fn push_alphanumeric_data(&mut self, data: &[u8]) -> (r: QrResult<()>)
        requires
            old(self).wf(),
            old(self).has_room(segment_room()),
            data@.len() * 11 + 28 <= usize::MAX,
        ensures
            final(self).wf(),
            final(self).spec_version() == old(self).spec_version(),
            final(self)@.len() <= old(self)@.len() + segment_room(),
            (r, final(self)@) == data_pushed(
                old(self)@,
                old(self).spec_version(),
                Mode::Alphanumeric,
                data@.len(),
                alphanumeric_payload(data@),
            ),
    {
        match self.push_header(Mode::Alphanumeric, data.len()) {
            Ok(()) => {},
            Err(e) => return Err(e),
        }
        let ghost start = self@;
        proof {
            vstd::arithmetic::power2::lemma2_to64();
            lemma_pow2_le_16(Mode::Alphanumeric.spec_length_bits_count(self.spec_version()));
        }
        let mut i: usize = 0;
        let ghost mut count: nat = 0;
        while i < data.len()
            invariant
                self.wf(),
                self.spec_version() == old(self).spec_version(),
                data@.len() < 0x10000,
                old(self).has_room(segment_room()),
                start.len() <= old(self)@.len() + 32,
                i <= data@.len(),
                i == data@.len() ==> count == (data@.len() + 1) / 2,
                i < data@.len() ==> count * 2 == i,
                self@ == start + alphanumeric_payload_upto(data@, count),
                alphanumeric_payload_upto(data@, count).len() <= 6 * i,
            decreases data@.len() - i,
        {
            let end = if data.len() - i > 2 {
                i + 2
            } else {
                data.len()
            };
            let number = if end - i == 2 {
                alphanumeric_digit(data[i]) * 45 + alphanumeric_digit(data[i + 1])
            } else {
                alphanumeric_digit(data[i])
            };
            proof {
                let group = alphanumeric_group(data@, count);
                assert(group =~= data@.subrange(i as int, end as int));
                vstd::arithmetic::power2::lemma2_to64();
            }
            self.push_number((end - i) * 5 + 1, number);
            i = end;
            proof {
                count = count + 1;
            }
        }
        Ok(())
    }
}

} // verus!
