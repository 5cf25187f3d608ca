//! UTF-8 rendering, with 2 pixels per symbol.

use vstd::prelude::*;

use super::{Canvas as RenderCanvas, Pixel, push_char};
use crate::types::Color;

verus! {

/// The characters of the four combinations of an upper and a lower pixel:
/// none dark, the lower, the upper, and both.
pub const CODEPAGE: [char; 4] = [' ', '\u{2584}', '\u{2580}', '\u{2588}'];

/// An image pixel for UTF-8 rendering.
#[derive(Clone, Copy, Debug, PartialEq, Eq, Structural)]
pub enum Dense1x2 {
    /// The pixel is dark colored.
    Dark,
    /// The pixel is light colored.
    Light,
}

impl Dense1x2 {
    /// The bit of the pixel: 1 for dark, 0 for light.
    pub open spec fn spec_value(self) -> u8 {
        match self {
            Dense1x2::Dark => 1,
            Dense1x2::Light => 0,
        }
    }

    /// Returns the bit of the pixel: 1 for dark, 0 for light.
    pub fn value(self) -> (r: u8)
        ensures
            r == self.spec_value(),
    {
        match self {
            Dense1x2::Dark => 1,
            Dense1x2::Light => 0,
        }
    }

    /// Returns the character of two pixels, given as the upper pixel's bit
    /// times two plus the lower pixel's bit.
    pub fn parse_2_bits(sym: u8) -> (r: char)
        requires
            sym < 4,
        ensures
            r == CODEPAGE[sym as int],
    {
        CODEPAGE[sym as usize]
    }
}

impl Pixel for Dense1x2 {
    type Image = String;
    type Canvas = Canvas1x2;

    open spec fn spec_default_unit_size() -> (u32, u32) {
        (1, 1)
    }

    open spec fn spec_default_color(color: Color) -> Dense1x2 {
        match color {
            Color::Dark => Dense1x2::Dark,
            Color::Light => Dense1x2::Light,
        }
    }

    fn default_unit_size() -> (r: (u32, u32)) {
        (1, 1)
    }

    fn default_color(color: Color) -> (r: Dense1x2) {
        color.select(Dense1x2::Dark, Dense1x2::Light)
    }
}

/// The bit of the pixel at (`x`, `y`) of a canvas whose pixels in `dark` are
/// dark-drawn: that of `dark_pixel` there, and of `light_pixel` elsewhere.
pub open spec fn pixel_bit(
    dark_pixel: Dense1x2,
    light_pixel: Dense1x2,
    dark: Set<(nat, nat)>,
    x: nat,
    y: nat,
) -> u8 {
    if dark.contains((x, y)) {
        dark_pixel.spec_value()
    } else {
        light_pixel.spec_value()
    }
}

/// The `c`-th line of the image: one character per column, for the pixels
/// of rows `2c` and `2c + 1` (a missing lower row counts as light).
pub open spec fn dense_line(
    width: nat,
    height: nat,
    dark_pixel: Dense1x2,
    light_pixel: Dense1x2,
    dark: Set<(nat, nat)>,
    c: nat,
) -> Seq<char> {
    Seq::new(
        width,
        |x: int|
            {
                let top = pixel_bit(dark_pixel, light_pixel, dark, x as nat, 2 * c);
                let bottom: u8 = if 2 * c + 1 < height {
                    pixel_bit(dark_pixel, light_pixel, dark, x as nat, 2 * c + 1)
                } else {
                    0
                };
                CODEPAGE[(top * 2 + bottom) as int]
            },
    )
}

/// The first `k` lines of the image, separated by line breaks.
pub open spec fn dense_lines(
    width: nat,
    height: nat,
    dark_pixel: Dense1x2,
    light_pixel: Dense1x2,
    dark: Set<(nat, nat)>,
    k: nat,
) -> Seq<char>
    decreases k,
{
    if k == 0 {
        Seq::empty()
    } else if k == 1 {
        dense_line(width, height, dark_pixel, light_pixel, dark, 0)
    } else {
        dense_lines(width, height, dark_pixel, light_pixel, dark, (k - 1) as nat) + seq!['\n']
            + dense_line(width, height, dark_pixel, light_pixel, dark, (k - 1) as nat)
    }
}

/// A canvas for UTF-8 rendering with a resolution of 1×2 modules per character.
pub struct Canvas1x2 {
    canvas: Vec<u8>,
    width: u32,
    dark_pixel: u8,
    height: Ghost<nat>,
    pixels: Ghost<(Dense1x2, Dense1x2)>,
    dark: Ghost<Set<(nat, nat)>>,
}

impl RenderCanvas for Canvas1x2 {
    type Pixel = Dense1x2;
    type Image = String;

    closed spec fn spec_size(&self) -> (nat, nat) {
        (self.width as nat, self.height@)
    }

    closed spec fn spec_pixels(&self) -> (Dense1x2, Dense1x2) {
        self.pixels@
    }

    closed spec fn spec_dark(&self) -> Set<(nat, nat)> {
        self.dark@
    }

    closed spec fn inv(&self) -> bool {
        let w = self.width as nat;
        let h = self.height@;
        &&& w > 0
        &&& w * h <= u32::MAX
        &&& w * 2 <= u32::MAX
        &&& self.canvas@.len() == w * h
        &&& self.dark_pixel == self.pixels@.0.spec_value()
        &&& forall|x: nat, y: nat|
            x < w && y < h ==> #[trigger] self.canvas@[cell(w, x, y)] == pixel_bit(
                self.pixels@.0,
                self.pixels@.1,
                self.dark@,
                x,
                y,
            )
    }

    open spec fn size_ok(width: nat, height: nat) -> bool {
        width > 0 && width * height <= u32::MAX && width * 2 <= u32::MAX
    }

    open spec fn image_ok(
        width: nat,
        height: nat,
        dark_pixel: Dense1x2,
        light_pixel: Dense1x2,
        dark: Set<(nat, nat)>,
        image: String,
    ) -> bool {
        image@ == dense_lines(width, height, dark_pixel, light_pixel, dark, (height + 1) / 2)
    }

    fn new(width: u32, height: u32, dark_pixel: Dense1x2, light_pixel: Dense1x2) -> (r: Self) {
        let count = width * height;
        let canvas = vec![light_pixel.value(); count as usize];
        let r = Canvas1x2 {
            canvas,
            width,
            dark_pixel: dark_pixel.value(),
            height: Ghost(height as nat),
            pixels: Ghost((dark_pixel, light_pixel)),
            dark: Ghost(Set::empty()),
        };
        proof {
            assert forall|x: nat, y: nat| x < width && y < height implies #[trigger] r.canvas@[cell(
                width as nat,
                x,
                y,
            )] == pixel_bit(dark_pixel, light_pixel, Set::empty(), x, y) by {
                assert(x + y * width < width * height) by (nonlinear_arith)
                    requires
                        x < width,
                        y < height,
                ;
            }
        }
        r
    }

    fn draw_dark_pixel(&mut self, x: u32, y: u32) {
        let ghost w = self.width as nat;
        let ghost h = self.height@;
        let ghost old_canvas = self.canvas@;
        let ghost old_dark = self.dark@;
        proof {
            assert(x + y * w < w * h) by (nonlinear_arith)
                requires
                    x < w,
                    y < h,
            ;
        }
        let index = (x + y * self.width) as usize;
        self.canvas.set(index, self.dark_pixel);
        proof {
            self.dark@ = self.dark@.insert((x as nat, y as nat));
            assert(index as int == cell(w, x as nat, y as nat));
            assert forall|x2: nat, y2: nat| x2 < w && y2 < h implies #[trigger] self.canvas@[cell(
                w,
                x2,
                y2,
            )] == pixel_bit(
                self.pixels@.0,
                self.pixels@.1,
                self.dark@,
                x2,
                y2,
            ) by {
                assert(cell(w, x2, y2) < w * h) by (nonlinear_arith)
                    requires
                        x2 < w,
                        y2 < h,
                ;
                if x2 != x || y2 != y {
                    lemma_cell_index_injective(w, h, x2, y2, x as nat, y as nat);
                    assert(!self.dark@.contains((x2, y2)) <==> !old_dark.contains((x2, y2)));
                    assert(old_canvas[cell(w, x2, y2)] == pixel_bit(
                        self.pixels@.0,
                        self.pixels@.1,
                        old_dark,
                        x2,
                        y2,
                    ));
                } else {
                    assert(self.dark@.contains((x2, y2)));
                    assert(self.canvas@[cell(w, x2, y2)] == self.dark_pixel);
                }
            }
        }
    }

    fn into_image(self) -> (r: String) {
        let width = self.width as usize;
        let ghost h = self.height@;
        let ghost w = width as nat;
        let ghost dp = self.pixels@.0;
        let ghost lp = self.pixels@.1;
        let ghost dark = self.dark@;
        let len = self.canvas.len();
        let mut result = String::new();
        let mut start: usize = 0;
        let ghost mut c: nat = 0;
        proof {
            assert(result@ =~= dense_lines(w, h, dp, lp, dark, 0));
            assert(2 * c * w == 0) by (nonlinear_arith)
                requires
                    c == 0,
            ;
            if 0 < len {
                assert(h > 0) by (nonlinear_arith)
                    requires
                        0 < w * h,
                ;
            } else {
                assert(h == 0) by (nonlinear_arith)
                    requires
                        0 == w * h,
                        w > 0,
                ;
            }
        }
        while start < len
            invariant
                self.inv(),
                width == self.width,
                w == width,
                h == self.height@,
                dp == self.pixels@.0,
                lp == self.pixels@.1,
                dark == self.dark@,
                len == self.canvas@.len(),
                len == w * h,
                start <= len,
                start < len ==> start == 2 * c * w && c < (h + 1) / 2,
                start == len ==> c == (h + 1) / 2,
                result@ == dense_lines(w, h, dp, lp, dark, c),
            decreases len - start,
        {
            let ghost before = result@;
            proof {
                assert(start > 0 <==> c > 0) by (nonlinear_arith)
                    requires
                        start == 2 * c * w,
                        w > 0,
                ;
                assert(2 * c < h) by (nonlinear_arith)
                    requires
                        c < (h + 1) / 2,
                ;
            }
            if start > 0 {
                push_char(&mut result, '\n');
            }
            let ghost mark = result@;
            let ghost line = dense_line(w, h, dp, lp, dark, c);
            let mut x: usize = 0;
            while x < width
                invariant
                    self.inv(),
                    width == self.width,
                    w == width,
                    h == self.height@,
                    dp == self.pixels@.0,
                    lp == self.pixels@.1,
                    dark == self.dark@,
                    len == self.canvas@.len(),
                    len == w * h,
                    start == 2 * c * w,
                    start < len,
                    2 * c < h,
                    line == dense_line(w, h, dp, lp, dark, c),
                    x <= width,
                    result@ == mark + line.take(x as int),
                decreases width - x,
            {
                proof {
                    assert(start + x < len) by (nonlinear_arith)
                        requires
                            start == 2 * c * w,
                            x < w,
                            2 * c < h,
                            len == w * h,
                    ;
                    assert(start + x == x + (2 * c) * w) by (nonlinear_arith)
                        requires
                            start == 2 * c * w,
                    ;
                    assert(self.canvas@[cell(w, x as nat, 2 * c)] == pixel_bit(
                        dp,
                        lp,
                        dark,
                        x as nat,
                        2 * c,
                    ));
                }
                let top = self.canvas[start + x];
                let bottom: u8 = if width + x < len - start {
                    self.canvas[start + width + x]
                } else {
                    0
                };
                proof {
                    assert(start + w + x == x + (2 * c + 1) * w) by (nonlinear_arith)
                        requires
                            start == 2 * c * w,
                    ;
                    if start + w + x < len {
                        assert(2 * c + 1 < h) by (nonlinear_arith)
                            requires
                                x + (2 * c + 1) * w < w * h,
                                w > 0,
                        ;
                        assert(self.canvas@[cell(w, x as nat, (2 * c + 1) as nat)] == pixel_bit(
                            dp,
                            lp,
                            dark,
                            x as nat,
                            (2 * c + 1) as nat,
                        ));
                    } else {
                        assert(2 * c + 1 >= h) by (nonlinear_arith)
                            requires
                                x + (2 * c + 1) * w >= w * h,
                                x < w,
                        ;
                    }
                    assert(top <= 1 && bottom <= 1);
                    assert((top << 1u8) | bottom == top * 2 + bottom) by (bit_vector)
                        requires
                            top <= 1,
                            bottom <= 1,
                    ;
                }
                let bits = (top << 1) | bottom;
                push_char(&mut result, Dense1x2::parse_2_bits(bits));
                proof {
                    assert(line.take(x + 1int) =~= line.take(x as int).push(line[x as int]));
                }
                x = x + 1;
            }
            proof {
                assert(line.take(w as int) =~= line);
                if c == 0 {
                    assert(before.len() == 0);
                    assert(result@ =~= dense_lines(w, h, dp, lp, dark, 1));
                } else {
                    assert(mark =~= before + seq!['\n']);
                    assert(result@ =~= dense_lines(w, h, dp, lp, dark, c + 1));
                }
                assert(2 * (c + 1) * w == start + 2 * w) by (nonlinear_arith)
                    requires
                        start == 2 * c * w,
                ;
                if start + 2 * w >= len {
                    assert(c + 1 == (h + 1) / 2) by (nonlinear_arith)
                        requires
                            2 * (c + 1) * w >= w * h,
                            2 * c < h,
                            w > 0,
                    ;
                } else {
                    assert(c + 1 < (h + 1) / 2) by (nonlinear_arith)
                        requires
                            2 * (c + 1) * w < w * h,
                            w > 0,
                    ;
                }
                c = c + 1;
            }
            start = if len - start > 2 * width {
                start + 2 * width
            } else {
                len
            };
        }
        result
    }
}

/// The position in the buffer of the pixel at (`x`, `y`) of a canvas `w`
/// pixels wide.
pub open spec fn cell(w: nat, x: nat, y: nat) -> int {
    (x + y * w) as int
}

/// Cells of a grid are one-to-one with the buffer.
proof fn lemma_cell_index_injective(w: nat, h: nat, x1: nat, y1: nat, x2: nat, y2: nat)
    requires
        x1 < w,
        x2 < w,
        y1 < h,
        y2 < h,
        x1 != x2 || y1 != y2,
    ensures
        x1 + y1 * w != x2 + y2 * w,
{
    if y1 < y2 {
        assert(x1 + y1 * w < x2 + y2 * w) by (nonlinear_arith)
            requires
                y1 < y2,
                x1 < w,
        ;
    } else if y2 < y1 {
        assert(x2 + y2 * w < x1 + y1 * w) by (nonlinear_arith)
            requires
                y2 < y1,
                x2 < w,
        ;
    }
}

} // verus!
