//! UTF-8 braille rendering, with 8 pixels per symbol.

use vstd::prelude::*;

use super::{Canvas, Pixel, char_from_u32, push_char};
use crate::types::Color;

verus! {

/// The number of pixel rows of a braille character.
pub const HEIGHT_PER_BYTE: u32 = 4;

/// The number of pixel columns of a braille character.
pub const WIDTH_PER_BYTE: u32 = 2;

/// An image pixel for braille rendering.
#[derive(Clone, Copy, Debug, PartialEq, Eq, Structural)]
pub enum BraillePixel {
    /// The pixel is light colored.
    Light,
    /// The pixel is dark colored.
    Dark,
}

/// The bit of the dot in column `i` (0 or 1) and row `j` (0 to 3) of a
/// braille character; 0 outside.
pub open spec fn dot(i: nat, j: nat) -> u8 {
    if i == 0 {
        if j == 0 {
            0b0000_0001
        } else if j == 1 {
            0b0000_0010
        } else if j == 2 {
            0b0000_0100
        } else if j == 3 {
            0b0100_0000
        } else {
            0
        }
    } else if i == 1 {
        if j == 0 {
            0b0000_1000
        } else if j == 1 {
            0b0001_0000
        } else if j == 2 {
            0b0010_0000
        } else if j == 3 {
            0b1000_0000
        } else {
            0
        }
    } else {
        0
    }
}

/// A byte with exactly one bit set.
pub open spec fn is_single_bit(p: u8) -> bool {
    p == 1 || p == 2 || p == 4 || p == 8 || p == 16 || p == 32 || p == 64 || p == 128
}

impl BraillePixel {
    /// Returns the byte `out` with the dot at (`x`, `y`) of the character set
    /// to this pixel: set for a dark pixel, cleared for a light one.
    pub open spec fn spec_set(self, x: u32, y: u32, out: u8) -> u8 {
        match self {
            BraillePixel::Light => out & !dot(x as nat, y as nat),
            BraillePixel::Dark => out | dot(x as nat, y as nat),
        }
    }

    /// Sets the dot at (`x`, `y`) of the character `out` to this pixel.
    pub fn set(self, x: u32, y: u32, out: &mut u8)
        ensures
            *final(out) == self.spec_set(x, y, *old(out)),
    {
        match self {
            BraillePixel::Light => *out = *out & !Self::pattern(x, y),
            BraillePixel::Dark => *out = *out | Self::pattern(x, y),
        }
    }

    /// The bit of the dot in column `x` and row `y` of a braille character.
    /// The characters have a bit of an irregular encoding, hence the table.
    pub fn pattern(x: u32, y: u32) -> (r: u8)
        ensures
            r == dot(x as nat, y as nat),
    {
        match (y, x) {
            (0, 0) => 0b0000_0001,
            (1, 0) => 0b0000_0010,
            (2, 0) => 0b0000_0100,
            (3, 0) => 0b0100_0000,
            (0, 1) => 0b0000_1000,
            (1, 1) => 0b0001_0000,
            (2, 1) => 0b0010_0000,
            (3, 1) => 0b1000_0000,
            _ => 0,
        }
    }
}

impl Pixel for BraillePixel {
    type Image = String;
    type Canvas = BrailleCanvas;

    open spec fn spec_default_unit_size() -> (u32, u32) {
        (1, 1)
    }

    open spec fn spec_default_color(color: Color) -> BraillePixel {
        match color {
            Color::Dark => BraillePixel::Dark,
            Color::Light => BraillePixel::Light,
        }
    }

    fn default_unit_size() -> (r: (u32, u32)) {
        (1, 1)
    }

    fn default_color(color: Color) -> (r: BraillePixel) {
        color.select(BraillePixel::Dark, BraillePixel::Light)
    }
}

/// Distinct dots have distinct bits, each a single bit.
pub proof fn lemma_dot_distinct(i1: nat, j1: nat, i2: nat, j2: nat)
    requires
        i1 < 2,
        i2 < 2,
        j1 < 4,
        j2 < 4,
    ensures
        is_single_bit(dot(i1, j1)),
        (dot(i1, j1) == dot(i2, j2)) <==> (i1 == i2 && j1 == j2),
{
}

/// Setting or clearing the bit `p` of a byte changes no other bit.
pub proof fn lemma_single_bit_update(b: u8, p: u8, q: u8)
    requires
        is_single_bit(p),
        is_single_bit(q),
    ensures
        ((b | p) & q != 0) == (p == q || b & q != 0),
        ((b & !p) & q != 0) == (p != q && b & q != 0),
{
    assert(((b | p) & q != 0) == (p == q || b & q != 0)) by (bit_vector)
        requires
            p == 1 || p == 2 || p == 4 || p == 8 || p == 16 || p == 32 || p == 64 || p == 128,
            q == 1 || q == 2 || q == 4 || q == 8 || q == 16 || q == 32 || q == 64 || q == 128,
    ;
    assert(((b & !p) & q != 0) == (p != q && b & q != 0)) by (bit_vector)
        requires
            p == 1 || p == 2 || p == 4 || p == 8 || p == 16 || p == 32 || p == 64 || p == 128,
            q == 1 || q == 2 || q == 4 || q == 8 || q == 16 || q == 32 || q == 64 || q == 128,
    ;
}

/// A byte is the sum of its bits.
pub proof fn lemma_byte_of_bits(b: u8)
    ensures
        b == (if b & 1 != 0 { 1int } else { 0 }) + (if b & 2 != 0 { 2int } else { 0 }) + (if b & 4
            != 0 { 4int } else { 0 }) + (if b & 8 != 0 { 8int } else { 0 }) + (if b & 16 != 0 {
            16int
        } else { 0 }) + (if b & 32 != 0 { 32int } else { 0 }) + (if b & 64 != 0 { 64int } else {
            0
        }) + (if b & 128 != 0 { 128int } else { 0 }),
{
    assert(b == (if b & 1 != 0 { 1u8 } else { 0 }) + (if b & 2 != 0 { 2u8 } else { 0 }) + (if b
        & 4 != 0 { 4u8 } else { 0 }) + (if b & 8 != 0 { 8u8 } else { 0 }) + (if b & 16 != 0 {
        16u8
    } else { 0 }) + (if b & 32 != 0 { 32u8 } else { 0 }) + (if b & 64 != 0 { 64u8 } else { 0 })
        + (if b & 128 != 0 { 128u8 } else { 0 })) by (bit_vector);
}

/// Whether the pixel at (`x`, `y`) of a canvas `width`×`height`, whose
/// pixels in `dark` are drawn with `dark_pixel` and the others with
/// `light_pixel`, shows a dark dot. Pixels outside the canvas show none.
pub open spec fn pixel_is_dark(
    width: nat,
    height: nat,
    dark_pixel: BraillePixel,
    light_pixel: BraillePixel,
    dark: Set<(nat, nat)>,
    x: nat,
    y: nat,
) -> bool {
    &&& x < width
    &&& y < height
    &&& (if dark.contains((x, y)) {
        dark_pixel
    } else {
        light_pixel
    }) == BraillePixel::Dark
}

/// The bit of the dot (`i`, `j`) of the character at (`bx`, `by`), if that
/// pixel shows a dark dot; 0 otherwise.
pub open spec fn dot_value(
    width: nat,
    height: nat,
    dark_pixel: BraillePixel,
    light_pixel: BraillePixel,
    dark: Set<(nat, nat)>,
    bx: nat,
    by: nat,
    i: nat,
    j: nat,
) -> int {
    if pixel_is_dark(width, height, dark_pixel, light_pixel, dark, 2 * bx + i, 4 * by + j) {
        dot(i, j) as int
    } else {
        0
    }
}

/// The dots of the character at (`bx`, `by`) of the image.
pub open spec fn braille_byte(
    width: nat,
    height: nat,
    dark_pixel: BraillePixel,
    light_pixel: BraillePixel,
    dark: Set<(nat, nat)>,
    bx: nat,
    by: nat,
) -> int {
    dot_value(width, height, dark_pixel, light_pixel, dark, bx, by, 0, 0) + dot_value(
        width,
        height,
        dark_pixel,
        light_pixel,
        dark,
        bx,
        by,
        0,
        1,
    ) + dot_value(width, height, dark_pixel, light_pixel, dark, bx, by, 0, 2) + dot_value(
        width,
        height,
        dark_pixel,
        light_pixel,
        dark,
        bx,
        by,
        0,
        3,
    ) + dot_value(width, height, dark_pixel, light_pixel, dark, bx, by, 1, 0) + dot_value(
        width,
        height,
        dark_pixel,
        light_pixel,
        dark,
        bx,
        by,
        1,
        1,
    ) + dot_value(width, height, dark_pixel, light_pixel, dark, bx, by, 1, 2) + dot_value(
        width,
        height,
        dark_pixel,
        light_pixel,
        dark,
        bx,
        by,
        1,
        3,
    )
}

/// The `by`-th line of the image: one braille character per 2 columns, for
/// the pixels of rows `4 by` to `4 by + 3`.
pub open spec fn braille_line(
    width: nat,
    height: nat,
    dark_pixel: BraillePixel,
    light_pixel: BraillePixel,
    dark: Set<(nat, nat)>,
    by: nat,
) -> Seq<char> {
    Seq::new(
        (width + 1) / 2,
        |bx: int|
            (0x2800 + braille_byte(width, height, dark_pixel, light_pixel, dark, bx as nat, by)) as u32
                as char,
    )
}

/// The first `k` lines of the image, separated by line breaks.
pub open spec fn braille_lines(
    width: nat,
    height: nat,
    dark_pixel: BraillePixel,
    light_pixel: BraillePixel,
    dark: Set<(nat, nat)>,
    k: nat,
) -> Seq<char>
    decreases k,
{
    if k == 0 {
        Seq::empty()
    } else if k == 1 {
        braille_line(width, height, dark_pixel, light_pixel, dark, 0)
    } else {
        braille_lines(width, height, dark_pixel, light_pixel, dark, (k - 1) as nat) + seq!['\n']
            + braille_line(width, height, dark_pixel, light_pixel, dark, (k - 1) as nat)
    }
}

/// The position in the buffer of the character holding the pixel at
/// (`x`, `y`), `bw` characters per line.
pub open spec fn braille_cell(bw: nat, x: nat, y: nat) -> int {
    (x / 2 + (y / 4) * bw) as int
}

/// Whether the dot of the pixel at (`x`, `y`) is set in `buffer`.
pub open spec fn bit_at(buffer: Seq<u8>, bw: nat, x: nat, y: nat) -> bool {
    buffer[braille_cell(bw, x, y)] & dot(x % 2, y % 4) != 0
}

/// Whether (`x`, `y`) lies in the rectangle `w`×`h` at (`x0`, `y0`).
pub open spec fn in_rect(x0: nat, y0: nat, w: nat, h: nat, x: nat, y: nat) -> bool {
    x0 <= x < x0 + w && y0 <= y < y0 + h
}

/// A canvas for UTF-8 rendering with braille characters giving a resolution of
/// 2×4 modules per character.
pub struct BrailleCanvas {
    buffer: Vec<u8>,
    byte_width: u32,
    dark_pixel: BraillePixel,
    width: Ghost<nat>,
    height: Ghost<nat>,
    pixels: Ghost<(BraillePixel, BraillePixel)>,
    dark: Ghost<Set<(nat, nat)>>,
}

/// Two numbers with the same quotient and remainder are equal.
proof fn lemma_div_mod_same(a: nat, b: nat, d: nat)
    requires
        d > 0,
        a / d == b / d,
        a % d == b % d,
    ensures
        a == b,
{
    vstd::arithmetic::div_mod::lemma_fundamental_div_mod(a as int, d as int);
    vstd::arithmetic::div_mod::lemma_fundamental_div_mod(b as int, d as int);
}

/// Distinct characters of the grid lie at distinct positions of the buffer.
proof fn lemma_cell_injective(bw: nat, bh: nat, x1: nat, y1: nat, x2: nat, y2: nat)
    requires
        x1 < bw,
        x2 < bw,
        y1 < bh,
        y2 < bh,
    ensures
        (x1 + y1 * bw == x2 + y2 * bw) <==> (x1 == x2 && y1 == y2),
        x1 + y1 * bw < bw * bh,
{
    if y1 < y2 {
        assert(x1 + y1 * bw < x2 + y2 * bw) by (nonlinear_arith)
            requires
                y1 < y2,
                x1 < bw,
        ;
    } else if y2 < y1 {
        assert(x2 + y2 * bw < x1 + y1 * bw) by (nonlinear_arith)
            requires
                y2 < y1,
                x2 < bw,
        ;
    }
    assert(x1 + y1 * bw < bw * bh) by (nonlinear_arith)
        requires
            x1 < bw,
            y1 < bh,
    ;
}

impl BrailleCanvas {
    /// The number of character lines.
    closed spec fn byte_height(&self) -> nat {
        (self.height@ + 3) / 4
    }

    /// The buffer holds one byte per character of the grid.
    closed spec fn layout_ok(&self) -> bool {
        let bw = self.byte_width as nat;
        let bh = self.byte_height();
        &&& bw == (self.width@ + 1) / 2
        &&& bw > 0
        &&& self.width@ + 2 <= u32::MAX
        &&& self.height@ + 4 <= u32::MAX
        &&& bw * bh <= u32::MAX
        &&& self.buffer@.len() == bw * bh
    }

    /// Whether the canvas is the same but for the buffer, whose length is kept.
    closed spec fn same_but_buffer(&self, other: &BrailleCanvas) -> bool {
        &&& self.byte_width == other.byte_width
        &&& self.dark_pixel == other.dark_pixel
        &&& self.width == other.width
        &&& self.height == other.height
        &&& self.pixels == other.pixels
        &&& self.dark == other.dark
        &&& self.buffer@.len() == other.buffer@.len()
    }

    /// Draws `pixel` at (`x`, `y`) of the grid of dots.
    fn draw_pixel(&mut self, x: u32, y: u32, pixel: BraillePixel)
        requires
            old(self).layout_ok(),
            x < 2 * old(self).byte_width,
            y < 4 * old(self).byte_height(),
        ensures
            final(self).layout_ok(),
            final(self).same_but_buffer(old(self)),
            forall|x2: nat, y2: nat|
                x2 < 2 * old(self).byte_width && y2 < 4 * old(self).byte_height() ==> #[trigger] bit_at(
                    final(self).buffer@,
                    old(self).byte_width as nat,
                    x2,
                    y2,
                ) == if x2 == x && y2 == y {
                    pixel == BraillePixel::Dark
                } else {
                    bit_at(old(self).buffer@, old(self).byte_width as nat, x2, y2)
                },
    {
        let ghost bw = self.byte_width as nat;
        let ghost bh = self.byte_height();
        let ghost old_buffer = self.buffer@;
        let byte_x = x / WIDTH_PER_BYTE;
        let byte_y = y / HEIGHT_PER_BYTE;
        proof {
            lemma_cell_injective(bw, bh, byte_x as nat, byte_y as nat, byte_x as nat, byte_y as nat);
        }
        let index = byte_x + byte_y * self.byte_width;
        let mut stored = self.buffer[index as usize];
        let bit_x = x % WIDTH_PER_BYTE;
        let bit_y = y % HEIGHT_PER_BYTE;
        pixel.set(bit_x, bit_y, &mut stored);
        self.buffer.set(index as usize, stored);
        proof {
            assert forall|x2: nat, y2: nat| x2 < 2 * bw && y2 < 4 * bh implies #[trigger] bit_at(
                self.buffer@,
                bw,
                x2,
                y2,
            ) == if x2 == x && y2 == y {
                pixel == BraillePixel::Dark
            } else {
                bit_at(old_buffer, bw, x2, y2)
            } by {
                lemma_cell_injective(bw, bh, x2 / 2, y2 / 4, byte_x as nat, byte_y as nat);
                lemma_dot_distinct(x2 % 2, y2 % 4, bit_x as nat, bit_y as nat);
                lemma_single_bit_update(
                    old_buffer[index as int],
                    dot(bit_x as nat, bit_y as nat),
                    dot(x2 % 2, y2 % 4),
                );
                if x2 / 2 == byte_x && y2 / 4 == byte_y && x2 % 2 == bit_x && y2 % 4 == bit_y {
                    lemma_div_mod_same(x2, x as nat, 2);
                    lemma_div_mod_same(y2, y as nat, 4);
                }
            }
        }
    }

    /// Clears the dots of the rectangle `width`×`height` at (`x0`, `y0`).
    fn clear_rect(&mut self, x0: u32, y0: u32, width: u32, height: u32)
        requires
            old(self).layout_ok(),
            x0 + width <= 2 * old(self).byte_width,
            y0 + height <= 4 * old(self).byte_height(),
        ensures
            final(self).layout_ok(),
            final(self).same_but_buffer(old(self)),
            forall|x2: nat, y2: nat|
                x2 < 2 * old(self).byte_width && y2 < 4 * old(self).byte_height() ==> #[trigger] bit_at(
                    final(self).buffer@,
                    old(self).byte_width as nat,
                    x2,
                    y2,
                ) == if in_rect(x0 as nat, y0 as nat, width as nat, height as nat, x2, y2) {
                    false
                } else {
                    bit_at(old(self).buffer@, old(self).byte_width as nat, x2, y2)
                },
    {
        let ghost bw = self.byte_width as nat;
        let ghost bh = self.byte_height();
        let ghost orig = self.buffer@;
        let mut y = y0;
        while y < y0 + height
            invariant
                y0 <= y <= y0 + height,
                x0 + width <= 2 * bw,
                y0 + height <= 4 * bh,
                bw == self.byte_width,
                bh == self.byte_height(),
                self.layout_ok(),
                self.same_but_buffer(old(self)),
                orig == old(self).buffer@,
                forall|x2: nat, y2: nat|
                    x2 < 2 * bw && y2 < 4 * bh ==> #[trigger] bit_at(self.buffer@, bw, x2, y2) == if in_rect(
                        x0 as nat,
                        y0 as nat,
                        width as nat,
                        (y - y0) as nat,
                        x2,
                        y2,
                    ) {
                        false
                    } else {
                        bit_at(orig, bw, x2, y2)
                    },
            decreases y0 + height - y,
        {
            let mut x = x0;
            while x < x0 + width
                invariant
                    y0 <= y < y0 + height,
                    x0 <= x <= x0 + width,
                    x0 + width <= 2 * bw,
                    y0 + height <= 4 * bh,
                    bw == self.byte_width,
                    bh == self.byte_height(),
                    self.layout_ok(),
                    self.same_but_buffer(old(self)),
                    orig == old(self).buffer@,
                    forall|x2: nat, y2: nat|
                        x2 < 2 * bw && y2 < 4 * bh ==> #[trigger] bit_at(self.buffer@, bw, x2, y2)
                            == if in_rect(x0 as nat, y0 as nat, width as nat, (y - y0) as nat, x2, y2)
                            || (y2 == y && x0 <= x2 < x) {
                            false
                        } else {
                            bit_at(orig, bw, x2, y2)
                        },
                decreases x0 + width - x,
            {
                self.draw_pixel(x, y, BraillePixel::Light);
                x = x + 1;
            }
            y = y + 1;
        }
    }
}

impl BrailleCanvas {
    /// The byte of the character at (`bx`, `by`) holds its dots.
    proof fn lemma_byte(&self, bx: nat, by: nat)
        requires
            self.inv(),
            bx < self.byte_width,
            by < self.byte_height(),
        ensures
            self.buffer@[(bx + by * self.byte_width) as int] == braille_byte(
                self.width@,
                self.height@,
                self.pixels@.0,
                self.pixels@.1,
                self.dark@,
                bx,
                by,
            ),
    {
        let bw = self.byte_width as nat;
        let b = self.buffer@[(bx + by * bw) as int];
        lemma_byte_of_bits(b);
        assert forall|i: nat, j: nat| i < 2 && j < 4 implies (b & #[trigger] dot(i, j) != 0)
            == pixel_is_dark(
            self.width@,
            self.height@,
            self.pixels@.0,
            self.pixels@.1,
            self.dark@,
            2 * bx + i,
            4 * by + j,
        ) by {
            assert((2 * bx + i) / 2 == bx && (2 * bx + i) % 2 == i);
            assert((4 * by + j) / 4 == by && (4 * by + j) % 4 == j);
            assert(braille_cell(bw, 2 * bx + i, 4 * by + j) == bx + by * bw);
            assert(bit_at(self.buffer@, bw, 2 * bx + i, 4 * by + j) == pixel_is_dark(
                self.width@,
                self.height@,
                self.pixels@.0,
                self.pixels@.1,
                self.dark@,
                2 * bx + i,
                4 * by + j,
            ));
        }
        assert(dot(0, 0) == 1 && dot(0, 1) == 2 && dot(0, 2) == 4 && dot(1, 0) == 8);
        assert(dot(1, 1) == 16 && dot(1, 2) == 32 && dot(0, 3) == 64 && dot(1, 3) == 128);
    }
}

impl Canvas for BrailleCanvas {
    type Pixel = BraillePixel;
    type Image = String;

    closed spec fn spec_size(&self) -> (nat, nat) {
        (self.width@, self.height@)
    }

    closed spec fn spec_pixels(&self) -> (BraillePixel, BraillePixel) {
        self.pixels@
    }

    closed spec fn spec_dark(&self) -> Set<(nat, nat)> {
        self.dark@
    }

    closed spec fn inv(&self) -> bool {
        let bw = self.byte_width as nat;
        &&& self.layout_ok()
        &&& self.dark_pixel == self.pixels@.0
        &&& forall|x: nat, y: nat|
            x < 2 * bw && y < 4 * self.byte_height() ==> #[trigger] bit_at(self.buffer@, bw, x, y)
                == pixel_is_dark(
                self.width@,
                self.height@,
                self.pixels@.0,
                self.pixels@.1,
                self.dark@,
                x,
                y,
            )
    }

    open spec fn size_ok(width: nat, height: nat) -> bool {
        &&& width > 0
        &&& width + 2 <= u32::MAX
        &&& height + 4 <= u32::MAX
        &&& ((width + 1) / 2) * ((height + 3) / 4) <= u32::MAX
    }

    open spec fn image_ok(
        width: nat,
        height: nat,
        dark_pixel: BraillePixel,
        light_pixel: BraillePixel,
        dark: Set<(nat, nat)>,
        image: String,
    ) -> bool {
        image@ == braille_lines(width, height, dark_pixel, light_pixel, dark, (height + 3) / 4)
    }

    fn new(width: u32, height: u32, dark_pixel: BraillePixel, light_pixel: BraillePixel) -> (r: Self) {
        let byte_width = (width + WIDTH_PER_BYTE - 1) / WIDTH_PER_BYTE;
        let byte_height = (height + HEIGHT_PER_BYTE - 1) / HEIGHT_PER_BYTE;
        let fill: u8 = match light_pixel {
            BraillePixel::Light => 0,
            BraillePixel::Dark => u8::MAX,
        };
        let buffer = vec![fill; (byte_width * byte_height) as usize];
        let mut canvas = BrailleCanvas {
            buffer,
            byte_width,
            dark_pixel,
            width: Ghost(width as nat),
            height: Ghost(height as nat),
            pixels: Ghost((dark_pixel, light_pixel)),
            dark: Ghost(Set::empty()),
        };
        let ghost bw = byte_width as nat;
        let ghost bh = byte_height as nat;
        proof {
            assert forall|x: nat, y: nat| x < 2 * bw && y < 4 * bh implies #[trigger] bit_at(
                canvas.buffer@,
                bw,
                x,
                y,
            ) == (light_pixel == BraillePixel::Dark) by {
                lemma_cell_injective(bw, bh, x / 2, y / 4, x / 2, y / 4);
                lemma_dot_distinct(x % 2, y % 4, x % 2, y % 4);
                let q = dot(x % 2, y % 4);
                assert(fill & q != 0 <==> fill == 255) by (bit_vector)
                    requires
                        fill == 0 || fill == 255,
                        q == 1 || q == 2 || q == 4 || q == 8 || q == 16 || q == 32 || q == 64
                            || q == 128,
                ;
            }
        }
        // Clear any dots beyond the intended size.
        let canvas_width = byte_width * WIDTH_PER_BYTE;
        let canvas_height = byte_height * HEIGHT_PER_BYTE;
        canvas.clear_rect(width, 0, canvas_width - width, canvas_height);
        canvas.clear_rect(0, height, canvas_width, canvas_height - height);
        canvas
    }

    fn draw_dark_pixel(&mut self, x: u32, y: u32) {
        self.draw_pixel(x, y, self.dark_pixel);
        proof {
            self.dark@ = self.dark@.insert((x as nat, y as nat));
        }
    }

    fn into_image(self) -> (r: String) {
        let byte_width = self.byte_width as usize;
        let len = self.buffer.len();
        let ghost bw = byte_width as nat;
        let ghost bh = self.byte_height();
        let ghost width = self.width@;
        let ghost height = self.height@;
        let ghost dp = self.pixels@.0;
        let ghost lp = self.pixels@.1;
        let ghost dark = self.dark@;
        let mut result = String::new();
        let mut start: usize = 0;
        let ghost mut by: nat = 0;
        proof {
            assert(result@ =~= braille_lines(width, height, dp, lp, dark, 0));
            assert(0 * bw == 0) by (nonlinear_arith);
        }
        while start < len
            invariant
                self.inv(),
                byte_width == self.byte_width,
                bw == byte_width,
                bh == self.byte_height(),
                width == self.width@,
                height == self.height@,
                dp == self.pixels@.0,
                lp == self.pixels@.1,
                dark == self.dark@,
                len == self.buffer@.len(),
                len == bw * bh,
                by <= bh,
                start == by * bw,
                result@ == braille_lines(width, height, dp, lp, dark, by),
            decreases len - start,
        {
            let ghost before = result@;
            proof {
                assert(by < bh) by (nonlinear_arith)
                    requires
                        by * bw < bw * bh,
                ;
                assert(start > 0 <==> by > 0) by (nonlinear_arith)
                    requires
                        start == by * bw,
                        bw > 0,
                ;
            }
            if start > 0 {
                push_char(&mut result, '\n');
            }
            let ghost mark = result@;
            let ghost line = braille_line(width, height, dp, lp, dark, by);
            let mut bx: usize = 0;
            while bx < byte_width
                invariant
                    self.inv(),
                    byte_width == self.byte_width,
                    bw == byte_width,
                    bh == self.byte_height(),
                    width == self.width@,
                    height == self.height@,
                    dp == self.pixels@.0,
                    lp == self.pixels@.1,
                    dark == self.dark@,
                    len == self.buffer@.len(),
                    len == bw * bh,
                    by < bh,
                    start == by * bw,
                    line == braille_line(width, height, dp, lp, dark, by),
                    bx <= byte_width,
                    result@ == mark + line.take(bx as int),
                decreases byte_width - bx,
            {
                proof {
                    lemma_cell_injective(bw, bh, bx as nat, by, bx as nat, by);
                    self.lemma_byte(bx as nat, by);
                }
                let byte = self.buffer[start + bx];
                let c = char_from_u32(0x2800 + byte as u32).unwrap();
                push_char(&mut result, c);
                proof {
                    assert(line.take(bx + 1int) =~= line.take(bx as int).push(line[bx as int]));
                }
                bx = bx + 1;
            }
            proof {
                assert(line.take(bw as int) =~= line);
                if by == 0 {
                    assert(result@ =~= braille_lines(width, height, dp, lp, dark, 1));
                } else {
                    assert(mark =~= before + seq!['\n']);
                    assert(result@ =~= braille_lines(width, height, dp, lp, dark, by + 1));
                }
                assert((by + 1) * bw == start + bw) by (nonlinear_arith)
                    requires
                        start == by * bw,
                ;
                assert((by + 1) * bw <= bw * bh) by (nonlinear_arith)
                    requires
                        by < bh,
                ;
                by = by + 1;
            }
            start = start + byte_width;
        }
        proof {
            assert(by == bh) by (nonlinear_arith)
                requires
                    by * bw >= bw * bh,
                    by <= bh,
                    bw > 0,
            ;
        }
        result
    }
}

} // verus!
