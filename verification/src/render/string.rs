//! String rendering support.

use vstd::prelude::*;

use super::{Canvas as RenderCanvas, Pixel, push_char, push_str};
use crate::types::Color;
use vstd::string::StringSliceAdditionalSpecFns;

verus! {

/// Abstraction of an image element.
pub trait Element: Copy + Sized {
    /// The text of the element.
    spec fn spec_text(self) -> Seq<char>;

    /// The number of bytes of the text of the element in UTF-8.
    spec fn spec_str_len(self) -> usize;

    /// The default element of a dark or light module.
    spec fn spec_element_color(color: Color) -> Self;

    /// Obtains the default element color when a module is dark or light.
    fn default_color(color: Color) -> (r: Self)
        ensures
            r == Self::spec_element_color(color),
    ;

    /// Returns the number of bytes in `self`.
    fn str_len(self) -> (r: usize)
        ensures
            r == self.spec_str_len(),
    ;

    /// Appends `self` to the end of the given `string`.
    fn append_to_string(self, string: &mut String)
        ensures
            final(string)@ == old(string)@ + self.spec_text(),
    ;
}

/// The number of bytes of the UTF-8 encoding of `c`.
pub open spec fn utf8_len(c: char) -> nat {
    if (c as u32) < 0x80 {
        1
    } else if (c as u32) < 0x800 {
        2
    } else if (c as u32) < 0x10000 {
        3
    } else {
        4
    }
}

/// `char::len_utf8`: the number of bytes of the UTF-8 encoding of `c`.
#[verifier::external_body]
fn char_len_utf8(c: char) -> (r: usize)
    ensures
        r == utf8_len(c),
{
    c.len_utf8()
}

impl Element for char {
    open spec fn spec_text(self) -> Seq<char> {
        seq![self]
    }

    open spec fn spec_str_len(self) -> usize {
        utf8_len(self) as usize
    }

    open spec fn spec_element_color(color: Color) -> char {
        match color {
            Color::Dark => '\u{2588}',
            Color::Light => ' ',
        }
    }

    fn default_color(color: Color) -> (r: char) {
        color.select('\u{2588}', ' ')
    }

    fn str_len(self) -> (r: usize) {
        char_len_utf8(self)
    }

    fn append_to_string(self, string: &mut String) {
        push_char(string, self);
        assert(string@ =~= old(string)@ + seq![self]);
    }
}

impl<'a> Element for &'a str {
    open spec fn spec_text(self) -> Seq<char> {
        self@
    }

    open spec fn spec_str_len(self) -> usize {
        self.spec_bytes().len() as usize
    }

    open spec fn spec_element_color(color: Color) -> &'a str {
        match color {
            Color::Dark => "\u{2588}",
            Color::Light => " ",
        }
    }

    fn default_color(color: Color) -> (r: &'a str) {
        color.select("\u{2588}", " ")
    }

    fn str_len(self) -> (r: usize) {
        self.len()
    }

    fn append_to_string(self, string: &mut String) {
        push_str(string, self);
    }
}

impl<P: Element> Pixel for P {
    type Image = String;
    type Canvas = Canvas<P>;

    open spec fn spec_default_unit_size() -> (u32, u32) {
        (1, 1)
    }

    open spec fn spec_default_color(color: Color) -> P {
        P::spec_element_color(color)
    }

    fn default_unit_size() -> (r: (u32, u32)) {
        (1, 1)
    }

    fn default_color(color: Color) -> (r: P) {
        <P as Element>::default_color(color)
    }
}

/// The element of the pixel at (`x`, `y`): `dark_pixel` for the pixels in
/// `dark`, `light_pixel` for the others.
pub open spec fn element_at<P>(dark_pixel: P, light_pixel: P, dark: Set<(nat, nat)>, x: nat, y: nat) -> P {
    if dark.contains((x, y)) {
        dark_pixel
    } else {
        light_pixel
    }
}

/// The text of the first `n` pixels of the image, row after row, with a line
/// break before each row but the first.
pub open spec fn text_upto<P: Element>(
    width: nat,
    dark_pixel: P,
    light_pixel: P,
    dark: Set<(nat, nat)>,
    n: nat,
) -> Seq<char>
    decreases n,
{
    if n == 0 {
        Seq::empty()
    } else {
        let i = (n - 1) as nat;
        let brk: Seq<char> = if i != 0 && i % width == 0 {
            seq!['\n']
        } else {
            Seq::empty()
        };
        text_upto(width, dark_pixel, light_pixel, dark, i) + brk + element_at(
            dark_pixel,
            light_pixel,
            dark,
            i % width,
            i / width,
        ).spec_text()
    }
}

/// A canvas for string rendering.
pub struct Canvas<P: Element> {
    buffer: Vec<P>,
    width: usize,
    dark_pixel: P,
    height: Ghost<nat>,
    pixels: Ghost<(P, P)>,
    dark: Ghost<Set<(nat, nat)>>,
}

impl<P: Element> RenderCanvas for Canvas<P> {
    type Pixel = P;
    type Image = String;

    closed spec fn spec_size(&self) -> (nat, nat) {
        (self.width as nat, self.height@)
    }

    closed spec fn spec_pixels(&self) -> (P, P) {
        self.pixels@
    }

    closed spec fn spec_dark(&self) -> Set<(nat, nat)> {
        self.dark@
    }

    closed spec fn inv(&self) -> bool {
        let w = self.width as nat;
        let h = self.height@;
        &&& w * h <= usize::MAX
        &&& self.buffer@.len() == w * h
        &&& self.dark_pixel == self.pixels@.0
        &&& forall|x: nat, y: nat|
            x < w && y < h ==> #[trigger] self.buffer@[position(w, x, y)] == element_at(
                self.pixels@.0,
                self.pixels@.1,
                self.dark@,
                x,
                y,
            )
    }

    open spec fn size_ok(width: nat, height: nat) -> bool {
        height > 0 && width * height <= usize::MAX
    }

    open spec fn image_ok(
        width: nat,
        height: nat,
        dark_pixel: P,
        light_pixel: P,
        dark: Set<(nat, nat)>,
        image: String,
    ) -> bool {
        image@ == text_upto(width, dark_pixel, light_pixel, dark, width * height)
    }

    fn new(width: u32, height: u32, dark_pixel: P, light_pixel: P) -> (r: Self) {
        let width = width as usize;
        let height_n = height as usize;
        proof {
            assert(height_n * width == width * height) by (nonlinear_arith)
                requires
                    height_n == height,
            ;
        }
        let count = height_n * width;
        let mut buffer: Vec<P> = Vec::new();
        while buffer.len() < count
            invariant
                buffer@.len() <= count,
                forall|i: int| 0 <= i < buffer@.len() ==> #[trigger] buffer@[i] == light_pixel,
            decreases count - buffer@.len(),
        {
            buffer.push(light_pixel);
        }
        let r = Canvas {
            buffer,
            width,
            dark_pixel,
            height: Ghost(height as nat),
            pixels: Ghost((dark_pixel, light_pixel)),
            dark: Ghost(Set::empty()),
        };
        proof {
            assert forall|x: nat, y: nat| x < width && y < height implies #[trigger] r.buffer@[position(
                width as nat,
                x,
                y,
            )] == element_at(dark_pixel, light_pixel, Set::empty(), x, y) by {
                assert(x + y * width < width * height) by (nonlinear_arith)
                    requires
                        x < width,
                        y < height,
                ;
            }
        }
        r
    }

    fn draw_dark_pixel(&mut self, x: u32, y: u32) {
        let ghost w = self.width as nat;
        let ghost h = self.height@;
        let ghost old_buffer = self.buffer@;
        let ghost old_dark = self.dark@;
        let x = x as usize;
        let y = y as usize;
        proof {
            assert(x + y * w < w * h) by (nonlinear_arith)
                requires
                    x < w,
                    y < h,
            ;
        }
        self.buffer.set(x + y * self.width, self.dark_pixel);
        proof {
            self.dark@ = self.dark@.insert((x as nat, y as nat));
            assert forall|x2: nat, y2: nat| x2 < w && y2 < h implies #[trigger] self.buffer@[position(
                w,
                x2,
                y2,
            )] == element_at(self.pixels@.0, self.pixels@.1, self.dark@, x2, y2) by {
                assert(position(w, x2, y2) < w * h) by (nonlinear_arith)
                    requires
                        x2 < w,
                        y2 < h,
                ;
                if x2 != x || y2 != y {
                    lemma_position_injective(w, h, x2, y2, x as nat, y as nat);
                    assert(old_buffer[position(w, x2, y2)] == element_at(
                        self.pixels@.0,
                        self.pixels@.1,
                        old_dark,
                        x2,
                        y2,
                    ));
                } else {
                    assert(self.dark@.contains((x2, y2)));
                }
            }
        }
    }

    fn into_image(self) -> (r: String) {
        let ghost w = self.width as nat;
        let ghost h = self.height@;
        let ghost dp = self.pixels@.0;
        let ghost lp = self.pixels@.1;
        let ghost dark = self.dark@;
        let len = self.buffer.len();
        let mut result = String::new();
        let mut i: usize = 0;
        while i < len
            invariant
                self.inv(),
                w == self.width,
                h == self.height@,
                dp == self.pixels@.0,
                lp == self.pixels@.1,
                dark == self.dark@,
                len == self.buffer@.len(),
                len == w * h,
                i <= len,
                result@ == text_upto(w, dp, lp, dark, i as nat),
            decreases len - i,
        {
            proof {
                assert(w > 0) by (nonlinear_arith)
                    requires
                        i < w * h,
                ;
                vstd::arithmetic::div_mod::lemma_fundamental_div_mod(i as int, w as int);
                let x = i as nat % w;
                let y = i as nat / w;
                assert(y < h) by (nonlinear_arith)
                    requires
                        i == w * y + x,
                        i < w * h,
                        x >= 0,
                ;
                assert(x + y * w == i) by (nonlinear_arith)
                    requires
                        i == w * y + x,
                ;
                assert(self.buffer@[position(w, x, y)] == element_at(dp, lp, dark, x, y));
            }
            let ghost before = result@;
            if i != 0 && i % self.width == 0 {
                push_char(&mut result, '\n');
            }
            let pixel = self.buffer[i];
            pixel.append_to_string(&mut result);
            proof {
                if i != 0 && (i as nat) % w == 0 {
                    assert(result@ =~= before + seq!['\n'] + pixel.spec_text());
                } else {
                    assert(result@ =~= before + Seq::<char>::empty() + pixel.spec_text());
                }
            }
            i = i + 1;
        }
        result
    }
}

/// The position in the buffer of the pixel at (`x`, `y`) of a canvas `w`
/// pixels wide.
pub open spec fn position(w: nat, x: nat, y: nat) -> int {
    (x + y * w) as int
}

/// Cells of a grid are one-to-one with the buffer.
proof fn lemma_position_injective(w: nat, h: nat, x1: nat, y1: nat, x2: nat, y2: nat)
    requires
        x1 < w,
        x2 < w,
        y1 < h,
        y2 < h,
        x1 != x2 || y1 != y2,
    ensures
        x1 + y1 * w != x2 + y2 * w,
{
    if y1 < y2 {
        assert(x1 + y1 * w < x2 + y2 * w) by (nonlinear_arith)
            requires
                y1 < y2,
                x1 < w,
        ;
    } else if y2 < y1 {
        assert(x2 + y2 * w < x1 + y1 * w) by (nonlinear_arith)
            requires
                y2 < y1,
                x2 < w,
        ;
    }
}

} // verus!
