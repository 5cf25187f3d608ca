//! Implementation of features related to the data placement.

use vstd::prelude::*;

use super::grid::{Canvas, module_index};
use super::module::Module;
use crate::types::Color;

verus! {

/// The bits of the codeword `b` from bit 7 down to bit `end`, each true when
/// set.
pub open spec fn codeword_bits(b: u8, end: nat) -> Seq<bool> {
    Seq::new((8 - end) as nat, |t: int| b & (1u8 << ((7 - t) as u8)) != 0)
}

/// The bits of the first `n` codewords, all 8 bits of each but the 4 high
/// bits of the codeword at `last_word`.
pub open spec fn bit_stream(codewords: Seq<u8>, last_word: int, n: nat) -> Seq<bool>
    decreases n,
{
    if n == 0 {
        Seq::empty()
    } else {
        bit_stream(codewords, last_word, (n - 1) as nat) + codeword_bits(
            codewords[n - 1],
            if n - 1 == last_word {
                4
            } else {
                0
            },
        )
    }
}

/// The bits of the codewords as they are drawn: all 8 bits of each, but the
/// 4 high bits of the last one when it is a half codeword.
pub open spec fn codewords_stream(codewords: Seq<u8>, is_half_codeword_at_end: bool) -> Seq<bool> {
    let last_word = if is_half_codeword_at_end {
        codewords.len() - 1
    } else {
        codewords.len() as int
    };
    bit_stream(codewords, last_word, codewords.len())
}

/// The modules and the position in `coords` after the bits `bits[k..]` are
/// placed, from position `pos` on: each bit goes to the next empty module
/// along `coords` as an unmasked module, dark when set; the modules that are
/// not empty are skipped. The placement stops after the last bit, or when
/// `coords` runs out.
pub open spec fn placed(
    modules: Seq<Module>,
    width: int,
    height: int,
    coords: Seq<(i16, i16)>,
    pos: nat,
    bits: Seq<bool>,
    k: nat,
) -> (Seq<Module>, nat)
    decreases coords.len() - pos,
{
    if k >= bits.len() || pos >= coords.len() {
        (modules, pos)
    } else {
        let i = module_index(width, height, coords[pos as int].0 as int, coords[pos as int].1 as int);
        if modules[i] == Module::Empty {
            let color = if bits[k as int] {
                Color::Dark
            } else {
                Color::Light
            };
            placed(modules.update(i, Module::Unmasked(color)), width, height, coords, pos + 1, bits, k + 1)
        } else {
            placed(modules, width, height, coords, pos + 1, bits, k)
        }
    }
}

/// The bits of fewer codewords are a prefix of those of more.
proof fn lemma_bit_stream_prefix(codewords: Seq<u8>, last_word: int, i: nat, n: nat)
    requires
        i <= n,
    ensures
        bit_stream(codewords, last_word, i).len() <= bit_stream(codewords, last_word, n).len(),
        bit_stream(codewords, last_word, n).subrange(0, bit_stream(codewords, last_word, i).len() as int)
            == bit_stream(codewords, last_word, i),
    decreases n,
{
    if i < n {
        lemma_bit_stream_prefix(codewords, last_word, i, (n - 1) as nat);
        let a = bit_stream(codewords, last_word, i);
        let b = bit_stream(codewords, last_word, (n - 1) as nat);
        let c = bit_stream(codewords, last_word, n);
        assert(c.subrange(0, a.len() as int) =~= b.subrange(0, a.len() as int));
    } else {
        let a = bit_stream(codewords, last_word, i);
        assert(a.subrange(0, a.len() as int) =~= a);
    }
}

impl Canvas {
    /// Draws the bits of `codewords` to the empty modules along `coords`,
    /// from the position `*pos` on, which it advances past the modules used
    /// or skipped. When `is_half_codeword_at_end`, only the 4 high bits of
    /// the last codeword are drawn.
    pub fn draw_codewords(
        &mut self,
        codewords: &[u8],
        is_half_codeword_at_end: bool,
        coords: &[(i16, i16)],
        pos: &mut usize,
    )
        requires
            old(self).wf(),
            *old(pos) <= coords@.len(),
            forall|q: int|
                0 <= q < coords@.len() ==> old(self).in_bounds(
                    (#[trigger] coords@[q]).0 as int,
                    coords@[q].1 as int,
                ),
            is_half_codeword_at_end ==> codewords@.len() > 0,
        ensures
            final(self).wf(),
            old(self).same_shape(&*final(self)),
            (final(self).spec_modules(), *final(pos) as nat) == placed(
                old(self).spec_modules(),
                old(self).spec_width(),
                old(self).spec_height(),
                coords@,
                *old(pos) as nat,
                codewords_stream(codewords@, is_half_codeword_at_end),
                0,
            ),
    {
        let ghost w = self.spec_width();
        let ghost h = self.spec_height();
        let length = codewords.len();
        let last_word = if is_half_codeword_at_end {
            length - 1
        } else {
            length
        };
        let ghost bits = bit_stream(codewords@, last_word as int, length as nat);
        assert(bits == codewords_stream(codewords@, is_half_codeword_at_end));
        let ghost target = placed(old(self).spec_modules(), w, h, coords@, *old(pos) as nat, bits, 0);
        let ghost mut k: nat = 0;
        let mut i: usize = 0;
        while i < length
            invariant
                self.wf(),
                old(self).same_shape(&*self),
                target == placed(old(self).spec_modules(), w, h, coords@, *old(pos) as nat, bits, 0),
                bits == codewords_stream(codewords@, is_half_codeword_at_end),
                w == self.spec_width(),
                h == self.spec_height(),
                length == codewords@.len(),
                bits == bit_stream(codewords@, last_word as int, length as nat),
                *pos <= coords@.len(),
                forall|q: int|
                    0 <= q < coords@.len() ==> self.in_bounds(
                        (#[trigger] coords@[q]).0 as int,
                        coords@[q].1 as int,
                    ),
                i <= length,
                k == bit_stream(codewords@, last_word as int, i as nat).len(),
                placed(self.spec_modules(), w, h, coords@, *pos as nat, bits, k) == target,
            decreases length - i,
        {
            let b = codewords[i];
            let bits_end: u8 = if i == last_word {
                4
            } else {
                0
            };
            let ghost head = bit_stream(codewords@, last_word as int, i as nat);
            proof {
                lemma_bit_stream_prefix(codewords@, last_word as int, (i + 1) as nat, length as nat);
                assert(bit_stream(codewords@, last_word as int, (i + 1) as nat) == head + codeword_bits(
                    b,
                    bits_end as nat,
                ));
            }
            let mut j: u8 = 8;
            while j > bits_end
                invariant
                    self.wf(),
                    old(self).same_shape(&*self),
                    target == placed(old(self).spec_modules(), w, h, coords@, *old(pos) as nat, bits, 0),
                    bits == codewords_stream(codewords@, is_half_codeword_at_end),
                    w == self.spec_width(),
                    h == self.spec_height(),
                    bits == bit_stream(codewords@, last_word as int, length as nat),
                    *pos <= coords@.len(),
                    forall|q: int|
                        0 <= q < coords@.len() ==> self.in_bounds(
                            (#[trigger] coords@[q]).0 as int,
                            coords@[q].1 as int,
                        ),
                    i < length,
                    bits_end <= j <= 8,
                    bits_end == 0 || bits_end == 4,
                    head == bit_stream(codewords@, last_word as int, i as nat),
                    head.len() + 8 - bits_end <= bits.len(),
                    bits.subrange(0, (head.len() + 8 - bits_end) as int) == head + codeword_bits(
                        b,
                        bits_end as nat,
                    ),
                    k == head.len() + (8 - j),
                    placed(self.spec_modules(), w, h, coords@, *pos as nat, bits, k) == target,
                decreases j,
            {
                j = j - 1;
                let color = if (b & (1 << j)) == 0 {
                    Color::Light
                } else {
                    Color::Dark
                };
                proof {
                    let t = 7 - j;
                    assert(bits.subrange(0, (head.len() + 8 - bits_end) as int)[k as int] == bits[k as int]);
                    assert((head + codeword_bits(b, bits_end as nat))[k as int] == codeword_bits(
                        b,
                        bits_end as nat,
                    )[t as int]);
                    assert(bits[k as int] == (color == Color::Dark));
                }
                loop
                    invariant_except_break
                        placed(self.spec_modules(), w, h, coords@, *pos as nat, bits, k) == target,
                    invariant
                        self.wf(),
                        old(self).same_shape(&*self),
                        target == placed(
                            old(self).spec_modules(),
                            w,
                            h,
                            coords@,
                            *old(pos) as nat,
                            bits,
                            0,
                        ),
                        bits == codewords_stream(codewords@, is_half_codeword_at_end),
                        w == self.spec_width(),
                        h == self.spec_height(),
                        *pos <= coords@.len(),
                        forall|q: int|
                            0 <= q < coords@.len() ==> self.in_bounds(
                                (#[trigger] coords@[q]).0 as int,
                                coords@[q].1 as int,
                            ),
                        k < bits.len(),
                        bits[k as int] == (color == Color::Dark),
                    ensures
                        self.wf(),
                        old(self).same_shape(&*self),
                        *pos <= coords@.len(),
                        placed(self.spec_modules(), w, h, coords@, *pos as nat, bits, k + 1)
                            == target,
                    decreases coords@.len() - *pos,
                {
                    if *pos >= coords.len() {
                        return;
                    }
                    let (x, y) = coords[*pos];
                    *pos = *pos + 1;
                    if self.get(x, y) == Module::Empty {
                        self.set(x, y, Module::Unmasked(color));
                        break;
                    }
                }
                proof {
                    k = k + 1;
                }
            }
            i = i + 1;
        }
        proof {
            assert(k == bits.len());
        }
    }
}

} // verus!
