//! Implementation of [`Parser`].

use vstd::prelude::*;

use super::internal::{Action, ExclCharSet, STATE_TRANSITION, State, transition};
use super::{Segment, covers, lemma_covers_concat, segment_fits};
use crate::bits::{all_alphanumeric, all_digits, all_kanji, kanji_pair_ok};
use crate::types::Mode;

verus! {

/// The character set read at position `pos` of `data`: that of the byte
/// there, or the end of the data at its length.
pub open spec fn ecs_at(data: Seq<u8>, pos: nat) -> ExclCharSet {
    if pos < data.len() {
        ExclCharSet::spec_from_u8(data[pos as int])
    } else {
        ExclCharSet::End
    }
}

/// The segment of `mode` from `begin` to `end`.
pub open spec fn span(mode: Mode, begin: nat, end: nat) -> Segment {
    Segment { mode, begin: begin as usize, end: end as usize }
}

/// The segments that `action` pushes when the character at `pos` is read and
/// the current segment starts at `begin`.
pub open spec fn emitted(action: Action, begin: nat, pos: nat) -> Seq<Segment> {
    match action {
        Action::Idle => Seq::empty(),
        Action::Numeric => seq![span(Mode::Numeric, begin, pos)],
        Action::Alpha => seq![span(Mode::Alphanumeric, begin, pos)],
        Action::Byte => seq![span(Mode::Byte, begin, pos)],
        Action::Kanji => seq![span(Mode::Kanji, begin, pos)],
        Action::KanjiAndSingleByte => if begin + 1 == pos {
            seq![span(Mode::Byte, begin, pos)]
        } else {
            seq![span(Mode::Kanji, begin, (pos - 1) as nat), span(Mode::Byte, (pos - 1) as nat, pos)]
        },
    }
}

/// The segments that the parser pushes from position `pos` of `data` on, in
/// `state`, with the current segment starting at `begin`.
pub open spec fn parse_from(data: Seq<u8>, pos: nat, state: State, begin: nat) -> Seq<Segment>
    decreases data.len() + 1 - pos,
{
    if pos > data.len() {
        Seq::empty()
    } else {
        let (next, action) = transition(state, ecs_at(data, pos));
        if action is Idle {
            parse_from(data, pos + 1, next, begin)
        } else {
            emitted(action, begin, pos) + parse_from(data, pos + 1, next, pos)
        }
    }
}

/// The segments into which the parser splits `data`.
pub open spec fn parse(data: Seq<u8>) -> Seq<Segment> {
    parse_from(data, 0, State::Init, 0)
}

/// An iterator over the character sets of the bytes of a slice, followed by
/// the end of the data.
#[derive(Debug)]
struct EcsIter<'a> {
    base: &'a [u8],
    index: usize,
    ended: bool,
}

impl<'a> EcsIter<'a> {
    /// The position of the next character set to read: one past the end once
    /// the end has been read.
    spec fn pos(&self) -> nat {
        if self.ended {
            self.base@.len() + 1
        } else {
            self.index as nat
        }
    }

    spec fn wf(&self) -> bool {
        &&& self.index <= self.base@.len()
        &&& self.ended ==> self.index == self.base@.len()
    }

    fn next(&mut self) -> (r: Option<(usize, ExclCharSet)>)
        requires
            old(self).wf(),
        ensures
            final(self).wf(),
            final(self).base == old(self).base,
            old(self).pos() <= old(self).base@.len() ==> r == Some(
                (old(self).pos() as usize, ecs_at(old(self).base@, old(self).pos())),
            ) && final(self).pos() == old(self).pos() + 1,
            old(self).pos() > old(self).base@.len() ==> r is None && final(self).pos() == old(
                self,
            ).pos(),
    {
        if self.ended {
            return None;
        }
        if self.index < self.base.len() {
            let c = self.base[self.index];
            let old_index = self.index;
            self.index = self.index + 1;
            Some((old_index, ExclCharSet::from_u8(c)))
        } else {
            self.ended = true;
            Some((self.index, ExclCharSet::End))
        }
    }
}

/// QR code data parser to classify the input into distinct segments.
#[derive(Debug)]
pub struct Parser<'a> {
    ecs_iter: EcsIter<'a>,
    state: State,
    begin: usize,
    pending_single_byte: bool,
}

/// The parser never reads a character in its initial state without changing
/// state first, so it pushes nothing there.
proof fn lemma_init_is_idle(ecs: ExclCharSet)
    ensures
        transition(State::Init, ecs).1 is Idle,
{
}

impl<'a> Parser<'a> {
    /// The data being parsed.
    pub closed spec fn data(&self) -> Seq<u8> {
        self.ecs_iter.base@
    }

    /// The start of the segment being read.
    closed spec fn start(&self) -> nat {
        if self.pending_single_byte {
            self.begin as nat + 1
        } else {
            self.begin as nat
        }
    }

    /// The parser is consistent: the current segment starts no later than the
    /// next character to read, and before it unless nothing is pending.
    pub closed spec fn wf(&self) -> bool {
        let pos = self.ecs_iter.pos();
        &&& self.ecs_iter.wf()
        &&& self.start() <= pos
        &&& self.state !is Init ==> self.start() < pos
        &&& self.pending_single_byte ==> self.begin + 2 == pos
    }

    /// The segments that the parser has yet to give.
    pub closed spec fn remaining(&self) -> Seq<Segment> {
        let rest = parse_from(self.data(), self.ecs_iter.pos(), self.state, self.start());
        if self.pending_single_byte {
            seq![span(Mode::Byte, self.begin as nat, self.begin as nat + 1)] + rest
        } else {
            rest
        }
    }

    /// Creates a new iterator which parse the data into segments that only
    /// contains their exclusive subsets. No optimization is done at this point.
    pub fn new(data: &'a [u8]) -> (r: Parser<'a>)
        ensures
            r.wf(),
            r.data() == data@,
            r.remaining() == parse(data@),
    {
        Parser {
            ecs_iter: EcsIter { base: data, index: 0, ended: false },
            state: State::Init,
            begin: 0,
            pending_single_byte: false,
        }
    }

    /// Gives the next segment, or `None` once all are given.
    pub fn next(&mut self) -> (r: Option<Segment>)
        requires
            old(self).wf(),
        ensures
            final(self).wf(),
            final(self).data() == old(self).data(),
            match r {
                None => old(self).remaining().len() == 0 && final(self).remaining().len() == 0,
                Some(s) => old(self).remaining() == seq![s] + final(self).remaining(),
            },
    {
        if self.pending_single_byte {
            self.pending_single_byte = false;
            self.begin = self.begin + 1;
            return Some(Segment { mode: Mode::Byte, begin: self.begin - 1, end: self.begin });
        }
        loop
            invariant
                self.wf(),
                !self.pending_single_byte,
                self.data() == old(self).data(),
                self.remaining() == old(self).remaining(),
            decreases self.data().len() + 1 - self.ecs_iter.pos(),
        {
            let ghost pos = self.ecs_iter.pos();
            let ghost state = self.state;
            let (i, ecs) = match self.ecs_iter.next() {
                None => return None,
                Some(p) => p,
            };
            let (next_state, action) = STATE_TRANSITION[self.state.row() + ecs.column()];
            assert(transition(state, ecs) == (next_state, action));
            proof {
                lemma_init_is_idle(ecs);
            }
            self.state = next_state;
            let old_begin = self.begin;
            let push_mode = match action {
                Action::Idle => continue,
                Action::Numeric => Mode::Numeric,
                Action::Alpha => Mode::Alphanumeric,
                Action::Byte => Mode::Byte,
                Action::Kanji => Mode::Kanji,
                Action::KanjiAndSingleByte => {
                    let next_begin = i - 1;
                    if self.begin == next_begin {
                        Mode::Byte
                    } else {
                        self.pending_single_byte = true;
                        self.begin = next_begin;
                        return Some(Segment { mode: Mode::Kanji, begin: old_begin, end: next_begin });
                    }
                },
            };
            self.begin = i;
            return Some(Segment { mode: push_mode, begin: old_begin, end: i });
        }
    }

    /// Gives all the segments that are left, in order.
    pub fn collect_segments(self) -> (r: Vec<Segment>)
        requires
            self.wf(),
        ensures
            r@ == self.remaining(),
    {
        let ghost all = self.remaining();
        let mut parser = self;
        let mut out: Vec<Segment> = Vec::new();
        loop
            invariant
                parser.wf(),
                all == self.remaining(),
                out@ + parser.remaining() == all,
            decreases parser.remaining().len(),
        {
            let ghost before = parser.remaining();
            match parser.next() {
                None => {
                    assert(out@ + before =~= out@);
                    return out;
                },
                Some(s) => {
                    assert(out@.push(s) + parser.remaining() =~= out@ + before);
                    out.push(s);
                },
            }
        }
    }
}

// ---------------------------------------------------------------------------
// What the parser gives: consecutive segments that cover the data, each in a
// mode that can encode its bytes.

/// Whether `c` can start a Shift JIS double-byte character whose second byte
/// is any of 0x40–0xFC but 0x7F.
pub open spec fn is_kanji_lead(c: u8) -> bool {
    (0x81 <= c <= 0x9F) || (0xE0 <= c <= 0xEA)
}

/// What is known of the bytes `begin .. pos` that the parser has read in
/// `state` since the last segment it pushed.
pub open spec fn read_ok(data: Seq<u8>, state: State, begin: nat, pos: nat) -> bool {
    let bytes = data.subrange(begin as int, pos as int);
    &&& begin <= pos <= data.len()
    &&& match state {
        State::Init => begin == pos,
        State::Numeric => begin < pos && all_digits(bytes),
        State::Alpha => begin < pos && all_alphanumeric(bytes),
        State::Byte => begin < pos,
        State::KanjiHi12 => {
            &&& begin < pos
            &&& (pos - begin) % 2 == 1
            &&& all_kanji(data.subrange(begin as int, pos - 1))
            &&& is_kanji_lead(data[pos - 1])
        },
        State::KanjiHi3 => {
            &&& begin < pos
            &&& (pos - begin) % 2 == 1
            &&& all_kanji(data.subrange(begin as int, pos - 1))
            &&& data[pos - 1] == 0xEB
        },
        State::Kanji => begin < pos && (pos - begin) % 2 == 0 && all_kanji(bytes),
    }
}

/// A byte pair that the parser takes for a double-byte character is one that
/// Kanji mode can encode.
proof fn lemma_kanji_pair(hi: u8, lo: u8)
    requires
        0x40 <= lo <= 0xFC,
        lo != 0x7F,
        is_kanji_lead(hi) || (hi == 0xEB && lo <= 0xBF),
    ensures
        kanji_pair_ok(hi, lo),
{
    let cp = hi as int * 256 + lo as int;
    if hi <= 0x9F {
        let q = hi as int - 0x81;
        let r = lo as int - 0x40;
        vstd::arithmetic::div_mod::lemma_fundamental_div_mod_converse(cp - 0x8140, 256, q, r);
    } else {
        let q = hi as int - 0xC1;
        let r = lo as int - 0x40;
        vstd::arithmetic::div_mod::lemma_fundamental_div_mod_converse(cp - 0xC140, 256, q, r);
    }
}

/// Digits stay digits when one more is read.
proof fn lemma_digits_extend(data: Seq<u8>, begin: nat, pos: nat)
    requires
        begin <= pos < data.len(),
        all_digits(data.subrange(begin as int, pos as int)),
        48 <= data[pos as int] <= 57,
    ensures
        all_digits(data.subrange(begin as int, pos + 1int)),
{
    let old = data.subrange(begin as int, pos as int);
    let new = data.subrange(begin as int, pos + 1int);
    assert forall|i: int| 0 <= i < new.len() implies 48 <= #[trigger] new[i] <= 57 by {
        if i < old.len() {
            assert(new[i] == old[i]);
        }
    }
}

/// Alphanumeric characters stay so when one more is read.
proof fn lemma_alphanumeric_extend(data: Seq<u8>, begin: nat, pos: nat)
    requires
        begin <= pos < data.len(),
        all_alphanumeric(data.subrange(begin as int, pos as int)),
        crate::bits::is_alphanumeric_char(data[pos as int]),
    ensures
        all_alphanumeric(data.subrange(begin as int, pos + 1int)),
{
    let old = data.subrange(begin as int, pos as int);
    let new = data.subrange(begin as int, pos + 1int);
    assert forall|i: int| 0 <= i < new.len() implies crate::bits::is_alphanumeric_char(
        #[trigger] new[i],
    ) by {
        if i < old.len() {
            assert(new[i] == old[i]);
        }
    }
}

/// Whole double-byte characters stay so when one more pair is read.
proof fn lemma_kanji_extend(data: Seq<u8>, begin: nat, pos: nat)
    requires
        begin <= pos,
        pos + 1 < data.len(),
        (pos - begin) % 2 == 0,
        all_kanji(data.subrange(begin as int, pos as int)),
        kanji_pair_ok(data[pos as int], data[pos + 1int]),
    ensures
        all_kanji(data.subrange(begin as int, pos + 2int)),
{
    let old = data.subrange(begin as int, pos as int);
    let new = data.subrange(begin as int, pos + 2int);
    assert forall|c: int| 0 <= c < new.len() / 2 implies #[trigger] kanji_pair_ok(
        new[2 * c],
        new[2 * c + 1],
    ) by {
        if c < old.len() / 2 {
            assert(kanji_pair_ok(old[2 * c], old[2 * c + 1]));
            assert(new[2 * c] == old[2 * c] && new[2 * c + 1] == old[2 * c + 1]);
        } else {
            assert(2 * c == pos - begin);
        }
    }
}

/// One step of the parser: what it pushes follows on from the current
/// segment, fits the data, and leaves a consistent state behind.
#[verifier::spinoff_prover]
#[verifier::rlimit(50)]
proof fn lemma_step(data: Seq<u8>, state: State, begin: nat, pos: nat)
    requires
        read_ok(data, state, begin, pos),
        data.len() <= usize::MAX,
    ensures
        ({
            let (next, action) = transition(state, ecs_at(data, pos));
            let nb: nat = if action is Idle {
                begin
            } else {
                pos
            };
            let out = emitted(action, begin, pos);
            &&& covers(out, begin, nb)
            &&& forall|i: int| 0 <= i < out.len() ==> segment_fits(data, #[trigger] out[i])
            &&& pos < data.len() ==> read_ok(data, next, nb, pos + 1)
            &&& pos == data.len() ==> nb == pos
        }),
{
    let e = ecs_at(data, pos);
    let (next, action) = transition(state, e);
    if pos < data.len() {
        let c = data[pos as int];
        match state {
            State::Numeric => {
                if e is Numeric {
                    lemma_digits_extend(data, begin, pos);
                }
            },
            State::Alpha => {
                if e is Symbol || e is Alpha {
                    lemma_alphanumeric_extend(data, begin, pos);
                }
            },
            State::KanjiHi12 => {
                if !(e is End || e is Symbol || e is Numeric || e is Byte) {
                    lemma_kanji_pair(data[pos - 1], c);
                    lemma_kanji_extend(data, begin, (pos - 1) as nat);
                }
            },
            State::KanjiHi3 => {
                if e is Alpha || e is KanjiHi1 || e is KanjiLo1 {
                    lemma_kanji_pair(data[pos - 1], c);
                    lemma_kanji_extend(data, begin, (pos - 1) as nat);
                }
            },
            _ => {},
        }
    }
}

/// What the parser gives from any consistent state on: consecutive segments
/// from the current one to the end of the data, each fitting its bytes.
proof fn lemma_parse_from(data: Seq<u8>, pos: nat, state: State, begin: nat)
    requires
        read_ok(data, state, begin, pos),
        data.len() <= usize::MAX,
    ensures
        covers(parse_from(data, pos, state, begin), begin, data.len()),
        forall|i: int|
            0 <= i < parse_from(data, pos, state, begin).len() ==> segment_fits(
                data,
                #[trigger] parse_from(data, pos, state, begin)[i],
            ),
    decreases data.len() - pos,
{
    lemma_step(data, state, begin, pos);
    let (next, action) = transition(state, ecs_at(data, pos));
    let nb: nat = if action is Idle {
        begin
    } else {
        pos
    };
    let out = emitted(action, begin, pos);
    let rest = parse_from(data, pos + 1, next, nb);
    if pos < data.len() {
        lemma_parse_from(data, pos + 1, next, nb);
    } else {
        assert(rest =~= Seq::<Segment>::empty());
    }
    let all = parse_from(data, pos, state, begin);
    if action is Idle {
        assert(all == rest);
    } else {
        assert(all == out + rest);
        lemma_covers_concat(out, rest, begin, nb, data.len());
        assert forall|i: int| 0 <= i < all.len() implies segment_fits(data, #[trigger] all[i]) by {
            if i < out.len() {
                assert(all[i] == out[i]);
            } else {
                assert(all[i] == rest[i - out.len()]);
            }
        }
    }
}

/// The parser splits the data into consecutive segments from its start to its
/// end, each non-empty and in a mode that can encode its bytes: digits for
/// Numeric, the alphanumeric set for Alphanumeric, whole Shift JIS
/// double-byte characters for Kanji.
pub proof fn lemma_parse_fits(data: Seq<u8>)
    requires
        data.len() <= usize::MAX,
    ensures
        covers(parse(data), 0, data.len()),
        forall|i: int| 0 <= i < parse(data).len() ==> segment_fits(data, #[trigger] parse(data)[i]),
{
    lemma_parse_from(data, 0, State::Init, 0);
}

} // verus!
