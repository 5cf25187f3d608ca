//! Character sets, states and actions of the data parser.

use vstd::prelude::*;

verus! {

/// All values of [`u8`] can be split into 9 different character sets when
/// determining which encoding to use. This enum represents these groupings for
/// parsing purpose, plus the end of the data.
#[derive(Clone, Copy, Debug, PartialEq, Eq, Structural)]
pub enum ExclCharSet {
    /// The end of string.
    End,
    /// All symbols supported by the Alphanumeric encoding, i.e. space, `$`,
    /// `%`, `*`, `+`, `-`, `.`, `/` and `:`.
    Symbol,
    /// All numbers (0–9).
    Numeric,
    /// All uppercase letters (A–Z). These characters may also appear in the
    /// second byte of a Shift JIS 2-byte encoding.
    Alpha,
    /// The first byte of a Shift JIS 2-byte encoding, in the range 0x81–0x9F.
    KanjiHi1,
    /// The first byte of a Shift JIS 2-byte encoding, in the range 0xE0–0xEA.
    KanjiHi2,
    /// The first byte of a Shift JIS 2-byte encoding, of value 0xEB. This is
    /// different from the other two range that the second byte has a smaller
    /// range.
    KanjiHi3,
    /// The second byte of a Shift JIS 2-byte encoding, in the range 0x40–0xBF,
    /// excluding letters (covered by `Alpha`), 0x81–0x9F (covered by
    /// `KanjiHi1`), and the invalid byte 0x7F.
    KanjiLo1,
    /// The second byte of a Shift JIS 2-byte encoding, in the range 0xC0–0xFC,
    /// excluding the range 0xE0–0xEB (covered by `KanjiHi2` and `KanjiHi3`).
    /// This half of byte-pair cannot appear as the second byte leaded by
    /// `KanjiHi3`.
    KanjiLo2,
    /// Any other values not covered by the above character sets.
    Byte,
}

impl ExclCharSet {
    /// The character set of a byte.
    pub open spec fn spec_from_u8(c: u8) -> ExclCharSet {
        if c == 0x20 || c == 0x24 || c == 0x25 || c == 0x2A || c == 0x2B || (0x2D <= c <= 0x2F)
            || c == 0x3A {
            ExclCharSet::Symbol
        } else if 0x30 <= c <= 0x39 {
            ExclCharSet::Numeric
        } else if 0x41 <= c <= 0x5A {
            ExclCharSet::Alpha
        } else if 0x81 <= c <= 0x9F {
            ExclCharSet::KanjiHi1
        } else if 0xE0 <= c <= 0xEA {
            ExclCharSet::KanjiHi2
        } else if c == 0xEB {
            ExclCharSet::KanjiHi3
        } else if c == 0x40 || (0x5B <= c <= 0x7E) || c == 0x80 || (0xA0 <= c <= 0xBF) {
            ExclCharSet::KanjiLo1
        } else if (0xC0 <= c <= 0xDF) || (0xEC <= c <= 0xFC) {
            ExclCharSet::KanjiLo2
        } else {
            ExclCharSet::Byte
        }
    }

    /// Determines which character set a byte is in.
    pub fn from_u8(c: u8) -> (r: Self)
        ensures
            r == Self::spec_from_u8(c),
    {
        match c {
            0x20 | 0x24 | 0x25 | 0x2A | 0x2B | 0x2D..=0x2F | 0x3A => Self::Symbol,
            0x30..=0x39 => Self::Numeric,
            0x41..=0x5A => Self::Alpha,
            0x81..=0x9F => Self::KanjiHi1,
            0xE0..=0xEA => Self::KanjiHi2,
            0xEB => Self::KanjiHi3,
            0x40 | 0x5B..=0x7E | 0x80 | 0xA0..=0xBF => Self::KanjiLo1,
            0xC0..=0xDF | 0xEC..=0xFC => Self::KanjiLo2,
            _ => Self::Byte,
        }
    }

    /// The column of this character set in [`STATE_TRANSITION`].
    pub fn column(self) -> (r: usize)
        ensures
            r == self as nat,
            r < 10,
    {
        self as usize
    }
}

/// The current parsing state.
#[derive(Clone, Copy, Debug, PartialEq, Eq, Structural)]
pub enum State {
    /// Just initialized.
    Init,
    /// Inside a string that can be exclusively encoded as Numeric.
    Numeric,
    /// Inside a string that can be exclusively encoded as Alphanumeric.
    Alpha,
    /// Inside a string that can be exclusively encoded as 8-Bit Byte.
    Byte,
    /// Just encountered the first byte of a Shift JIS 2-byte sequence of the
    /// set `KanjiHi1` or `KanjiHi2`.
    KanjiHi12,
    /// Just encountered the first byte of a Shift JIS 2-byte sequence of the
    /// set `KanjiHi3`.
    KanjiHi3,
    /// Inside a string that can be exclusively encoded as Kanji.
    Kanji,
}

impl State {
    /// The first row of this state in [`STATE_TRANSITION`]: ten rows per state.
    pub fn row(self) -> (r: usize)
        ensures
            r == self as nat * 10,
            r <= 60,
    {
        match self {
            State::Init => 0,
            State::Numeric => 10,
            State::Alpha => 20,
            State::Byte => 30,
            State::KanjiHi12 => 40,
            State::KanjiHi3 => 50,
            State::Kanji => 60,
        }
    }
}

/// What should the parser do after a state transition.
#[derive(Clone, Copy, Debug, PartialEq, Eq, Structural)]
pub enum Action {
    /// The parser should do nothing.
    Idle,
    /// Push the current segment as a Numeric string, and reset the marks.
    Numeric,
    /// Push the current segment as an Alphanumeric string, and reset the marks.
    Alpha,
    /// Push the current segment as a 8-Bit Byte string, and reset the marks.
    Byte,
    /// Push the current segment as a Kanji string, and reset the marks.
    Kanji,
    /// Push the current segment excluding the last byte as a Kanji string, then
    /// push the remaining single byte as a Byte string, and reset the marks.
    KanjiAndSingleByte,
}

/// The next state and the action of the parser:
/// `STATE_TRANSITION[current_state * 10 + next_character]`.
pub const STATE_TRANSITION: [(State, Action); 70] = [
    // Init state: End, Symbol, Numeric, Alpha, KanjiHi1, KanjiHi2, KanjiHi3,
    // KanjiLo1, KanjiLo2, Byte.
    (State::Init, Action::Idle),
    (State::Alpha, Action::Idle),
    (State::Numeric, Action::Idle),
    (State::Alpha, Action::Idle),
    (State::KanjiHi12, Action::Idle),
    (State::KanjiHi12, Action::Idle),
    (State::KanjiHi3, Action::Idle),
    (State::Byte, Action::Idle),
    (State::Byte, Action::Idle),
    (State::Byte, Action::Idle),
    // Numeric state.
    (State::Init, Action::Numeric),
    (State::Alpha, Action::Numeric),
    (State::Numeric, Action::Idle),
    (State::Alpha, Action::Numeric),
    (State::KanjiHi12, Action::Numeric),
    (State::KanjiHi12, Action::Numeric),
    (State::KanjiHi3, Action::Numeric),
    (State::Byte, Action::Numeric),
    (State::Byte, Action::Numeric),
    (State::Byte, Action::Numeric),
    // Alpha state.
    (State::Init, Action::Alpha),
    (State::Alpha, Action::Idle),
    (State::Numeric, Action::Alpha),
    (State::Alpha, Action::Idle),
    (State::KanjiHi12, Action::Alpha),
    (State::KanjiHi12, Action::Alpha),
    (State::KanjiHi3, Action::Alpha),
    (State::Byte, Action::Alpha),
    (State::Byte, Action::Alpha),
    (State::Byte, Action::Alpha),
    // Byte state.
    (State::Init, Action::Byte),
    (State::Alpha, Action::Byte),
    (State::Numeric, Action::Byte),
    (State::Alpha, Action::Byte),
    (State::KanjiHi12, Action::Byte),
    (State::KanjiHi12, Action::Byte),
    (State::KanjiHi3, Action::Byte),
    (State::Byte, Action::Idle),
    (State::Byte, Action::Idle),
    (State::Byte, Action::Idle),
    // KanjiHi12 state.
    (State::Init, Action::KanjiAndSingleByte),
    (State::Alpha, Action::KanjiAndSingleByte),
    (State::Numeric, Action::KanjiAndSingleByte),
    (State::Kanji, Action::Idle),
    (State::Kanji, Action::Idle),
    (State::Kanji, Action::Idle),
    (State::Kanji, Action::Idle),
    (State::Kanji, Action::Idle),
    (State::Kanji, Action::Idle),
    (State::Byte, Action::KanjiAndSingleByte),
    // KanjiHi3 state.
    (State::Init, Action::KanjiAndSingleByte),
    (State::Alpha, Action::KanjiAndSingleByte),
    (State::Numeric, Action::KanjiAndSingleByte),
    (State::Kanji, Action::Idle),
    (State::Kanji, Action::Idle),
    (State::KanjiHi12, Action::KanjiAndSingleByte),
    (State::KanjiHi3, Action::KanjiAndSingleByte),
    (State::Kanji, Action::Idle),
    (State::Byte, Action::KanjiAndSingleByte),
    (State::Byte, Action::KanjiAndSingleByte),
    // Kanji state.
    (State::Init, Action::Kanji),
    (State::Alpha, Action::Kanji),
    (State::Numeric, Action::Kanji),
    (State::Alpha, Action::Kanji),
    (State::KanjiHi12, Action::Idle),
    (State::KanjiHi12, Action::Idle),
    (State::KanjiHi3, Action::Idle),
    (State::Byte, Action::Kanji),
    (State::Byte, Action::Kanji),
    (State::Byte, Action::Kanji),
];

/// The next state and the action when the parser in `state` reads a
/// character of the set `ecs`.
pub open spec fn transition(state: State, ecs: ExclCharSet) -> (State, Action) {
    STATE_TRANSITION[state as int * 10 + ecs as int]
}

} // verus!
