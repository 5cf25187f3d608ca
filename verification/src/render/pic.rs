//! PIC rendering support.

use vstd::prelude::*;

use super::{
    Canvas as RenderCanvas, Pixel, decimal, lemma_rects_union_push, pop_char, push_decimal, push_str,
    rect, rects_union,
};
use crate::types::Color as ModuleColor;

verus! {

/// A PIC color.
#[derive(Clone, Copy, Debug, Default, PartialEq, Eq, Hash, PartialOrd, Ord, Structural)]
pub struct Color;

impl Pixel for Color {
    type Image = String;
    type Canvas = Canvas;

    open spec fn spec_default_unit_size() -> (u32, u32) {
        (8, 8)
    }

    open spec fn spec_default_color(color: ModuleColor) -> Color {
        Color
    }

    fn default_unit_size() -> (r: (u32, u32)) {
        (8, 8)
    }

    fn default_color(_color: ModuleColor) -> (r: Color) {
        Color
    }
}

/// The start of a picture `width`×`height`: its size, the macro `p` that
/// draws a dark box, and the frame of the picture.
pub open spec fn pic_header(width: nat, height: nat) -> Seq<char> {
    "maxpswid="@ + decimal(width) + ";maxpsht="@ + decimal(height)
        + ";movewid=0;moveht=1;boxwid=1;boxht=1\ndefine p { box wid $3 ht $4 fill 1 thickness 0.1 with .nw at $1,-$2 }\nbox wid maxpswid ht maxpsht with .nw at 0,0\n"@
}

/// The line that draws the dark rectangle `width`×`height` at (`left`,
/// `top`).
pub open spec fn rect_line(rect: (u32, u32, u32, u32)) -> Seq<char> {
    "p("@ + decimal(rect.0 as nat) + ","@ + decimal(rect.1 as nat) + ","@ + decimal(rect.2 as nat)
        + ","@ + decimal(rect.3 as nat) + ")\n"@
}

/// The lines of the first `n` rectangles.
pub open spec fn rect_lines(rects: Seq<(u32, u32, u32, u32)>, n: nat) -> Seq<char>
    decreases n,
{
    if n == 0 {
        Seq::empty()
    } else {
        rect_lines(rects, (n - 1) as nat) + rect_line(rects[n - 1])
    }
}

/// A canvas for PIC rendering.
pub struct Canvas {
    pic: String,
    width: Ghost<nat>,
    height: Ghost<nat>,
    pixels: Ghost<(Color, Color)>,
    rects: Ghost<Seq<(u32, u32, u32, u32)>>,
    dark: Ghost<Set<(nat, nat)>>,
}

impl RenderCanvas for Canvas {
    type Pixel = Color;
    type Image = String;

    closed spec fn spec_size(&self) -> (nat, nat) {
        (self.width@, self.height@)
    }

    closed spec fn spec_pixels(&self) -> (Color, Color) {
        self.pixels@
    }

    closed spec fn spec_dark(&self) -> Set<(nat, nat)> {
        self.dark@
    }

    closed spec fn inv(&self) -> bool {
        &&& self.width@ <= u32::MAX
        &&& self.height@ <= u32::MAX
        &&& self.pic@ == pic_header(self.width@, self.height@) + rect_lines(
            self.rects@,
            self.rects@.len(),
        )
        &&& self.dark@ == rects_union(self.rects@, self.rects@.len())
    }

    open spec fn size_ok(width: nat, height: nat) -> bool {
        true
    }

    /// The picture draws one dark box per rectangle of a list whose pixels
    /// are the dark pixels; its last line break is left out.
    open spec fn image_ok(
        width: nat,
        height: nat,
        dark_pixel: Color,
        light_pixel: Color,
        dark: Set<(nat, nat)>,
        image: String,
    ) -> bool {
        exists|rects: Seq<(u32, u32, u32, u32)>|
            {
                &&& rects_union(rects, rects.len()) == dark
                &&& image@ == (pic_header(width, height) + rect_lines(
                    rects,
                    rects.len(),
                )).drop_last()
            }
    }

    fn new(width: u32, height: u32, dark_pixel: Color, light_pixel: Color) -> (r: Self) {
        let mut pic = String::new();
        push_str(&mut pic, "maxpswid=");
        push_decimal(&mut pic, width);
        push_str(&mut pic, ";maxpsht=");
        push_decimal(&mut pic, height);
        push_str(
            &mut pic,
            ";movewid=0;moveht=1;boxwid=1;boxht=1\ndefine p { box wid $3 ht $4 fill 1 thickness 0.1 with .nw at $1,-$2 }\nbox wid maxpswid ht maxpsht with .nw at 0,0\n",
        );
        let r = Canvas {
            pic,
            width: Ghost(width as nat),
            height: Ghost(height as nat),
            pixels: Ghost((dark_pixel, light_pixel)),
            rects: Ghost(Seq::empty()),
            dark: Ghost(Set::empty()),
        };
        proof {
            assert(r.pic@ =~= pic_header(width as nat, height as nat) + rect_lines(
                Seq::empty(),
                0,
            ));
        }
        r
    }

    fn draw_dark_pixel(&mut self, x: u32, y: u32) {
        self.draw_dark_rect(x, y, 1, 1);
        proof {
            assert(rect(x as nat, y as nat, 1, 1) =~= set![(x as nat, y as nat)]);
            assert(old(self).spec_dark().insert((x as nat, y as nat)) =~= old(
                self,
            ).spec_dark().union(rect(x as nat, y as nat, 1, 1)));
        }
    }

    fn draw_dark_rect(&mut self, left: u32, top: u32, width: u32, height: u32) {
        let ghost before = self.pic@;
        push_str(&mut self.pic, "p(");
        push_decimal(&mut self.pic, left);
        push_str(&mut self.pic, ",");
        push_decimal(&mut self.pic, top);
        push_str(&mut self.pic, ",");
        push_decimal(&mut self.pic, width);
        push_str(&mut self.pic, ",");
        push_decimal(&mut self.pic, height);
        push_str(&mut self.pic, ")\n");
        proof {
            let r = (left, top, width, height);
            let old_rects = self.rects@;
            self.rects@ = self.rects@.push(r);
            self.dark@ = self.dark@.union(rect(left as nat, top as nat, width as nat, height as nat));
            assert(self.rects@[old_rects.len() as int] == r);
            assert(self.rects@.subrange(0, old_rects.len() as int) =~= old_rects);
            lemma_rect_lines_push(old_rects, r);
            lemma_rects_union_push(old_rects, r);
            assert(self.pic@ =~= before + rect_line(r));
            assert(self.pic@ =~= pic_header(self.width@, self.height@) + rect_lines(
                self.rects@,
                self.rects@.len(),
            ));
        }
    }

    fn into_image(self) -> (r: String) {
        let ghost rects = self.rects@;
        let ghost whole = self.pic@;
        let mut pic = self.pic;
        proof {
            reveal_strlit(
                ";movewid=0;moveht=1;boxwid=1;boxht=1\ndefine p { box wid $3 ht $4 fill 1 thickness 0.1 with .nw at $1,-$2 }\nbox wid maxpswid ht maxpsht with .nw at 0,0\n",
            );
            assert(pic@.len() > 0);
        }
        pop_char(&mut pic);
        proof {
            assert(rects_union(rects, rects.len()) == self.dark@ && pic@ == whole.drop_last());
        }
        pic
    }
}

/// The lines of one more rectangle end with its line.
proof fn lemma_rect_lines_push(rects: Seq<(u32, u32, u32, u32)>, r: (u32, u32, u32, u32))
    ensures
        rect_lines(rects.push(r), rects.len() + 1) == rect_lines(rects, rects.len()) + rect_line(r),
{
    assert(rects.push(r).subrange(0, rects.len() as int) =~= rects.subrange(0, rects.len() as int));
    lemma_rect_lines_prefix(rects, rects.push(r), rects.len());
}

/// The lines of the first `n` rectangles depend on those rectangles only.
proof fn lemma_rect_lines_prefix(
    a: Seq<(u32, u32, u32, u32)>,
    b: Seq<(u32, u32, u32, u32)>,
    n: nat,
)
    requires
        n <= a.len(),
        n <= b.len(),
        a.subrange(0, n as int) == b.subrange(0, n as int),
    ensures
        rect_lines(a, n) == rect_lines(b, n),
    decreases n,
{
    if n > 0 {
        assert(a[n - 1] == a.subrange(0, n as int)[n - 1]);
        assert(b[n - 1] == b.subrange(0, n as int)[n - 1]);
        assert(a.subrange(0, n - 1) =~= a.subrange(0, n as int).subrange(0, n - 1));
        assert(b.subrange(0, n - 1) =~= b.subrange(0, n as int).subrange(0, n - 1));
        lemma_rect_lines_prefix(a, b, (n - 1) as nat);
    }
}

} // verus!
