//! SVG rendering support.

use csscolorparser::ParseColorError;
use vstd::prelude::*;

use super::{
    Canvas as RenderCanvas, Pixel, decimal, lemma_rects_union_push, push_decimal, push_str, rect,
    rects_union,
};
use crate::types::Color as ModuleColor;

verus! {

/// The error of a CSS color string that does not parse.
#[verifier::external_type_specification]
#[verifier::external_body]
pub struct ExParseColorError(ParseColorError);

/// Whether `csscolorparser::parse` accepts the CSS color string `s`.
pub uninterp spec fn css_color_valid(s: Seq<char>) -> bool;

/// `csscolorparser::parse`: checks that `s` is a CSS color (W3C CSS Color
/// Module Level 4), keeping the error of a string that is not; the parsed
/// color itself is not used. Parsing depends on the string alone, and accepts
/// the hexadecimal colors `#000` and `#fff`. Which error comes back is left
/// unsaid here.
#[verifier::external_body]
fn parse_css_color(s: &str) -> (r: Result<(), ParseColorError>)
    ensures
        r is Ok <==> css_color_valid(s@),
        s@ == "#000"@ || s@ == "#fff"@ ==> r is Ok,
{
    match csscolorparser::parse(s) {
        Ok(_) => Ok(()),
        Err(e) => Err(e),
    }
}

/// An SVG color.
#[derive(Clone, Copy, Debug, Default, PartialEq, Eq, Hash, PartialOrd, Ord)]
pub struct Color<'a>(&'a str);

impl<'a> Color<'a> {
    /// The CSS color string.
    pub closed spec fn spec_css(self) -> Seq<char> {
        self.0@
    }

    /// The color of the CSS color string `color`.
    pub closed spec fn spec_from(color: &'a str) -> Color<'a> {
        Color(color)
    }

    /// Creates a new `Color` with the given CSS color string.
    ///
    /// Returns [`Err`] if `color` does not comply with the W3C's CSS Color
    /// Module Level 4.
    pub fn new(color: &'a str) -> (r: Result<Self, ParseColorError>)
        ensures
            r is Ok <==> css_color_valid(color@),
            color@ == "#000"@ || color@ == "#fff"@ ==> r is Ok,
            r matches Ok(c) ==> c == Self::spec_from(color) && c.spec_css() == color@,
    {
        match parse_css_color(color) {
            Ok(()) => Ok(Color(color)),
            Err(e) => Err(e),
        }
    }

    /// Returns the CSS color string.
    fn css(self) -> (r: &'a str)
        ensures
            r@ == self.spec_css(),
    {
        self.0
    }
}

impl<'a> Pixel for Color<'a> {
    type Image = String;
    type Canvas = Canvas<'a>;

    open spec fn spec_default_unit_size() -> (u32, u32) {
        (8, 8)
    }

    open spec fn spec_default_color(color: ModuleColor) -> Color<'a> {
        match color {
            ModuleColor::Dark => Color::spec_from("#000"),
            ModuleColor::Light => Color::spec_from("#fff"),
        }
    }

    fn default_unit_size() -> (r: (u32, u32)) {
        (8, 8)
    }

    fn default_color(color: ModuleColor) -> (r: Color<'a>) {
        let color = color.select("#000", "#fff");
        Self::new(color).unwrap()
    }
}

/// The start of an SVG image `width`×`height`: the document, a background
/// of the color `bg`, and the start of the path of the dark modules in the
/// color `fg`.
pub open spec fn svg_header(width: nat, height: nat, fg: Seq<char>, bg: Seq<char>) -> Seq<char> {
    "<?xml version=\"1.0\" encoding=\"UTF-8\" standalone=\"yes\"?><svg xmlns=\"http://www.w3.org/2000/svg\" version=\"1.1\" width=\""@
        + decimal(width) + "\" height=\""@ + decimal(height) + "\" viewBox=\"0 0 "@ + decimal(width)
        + " "@ + decimal(height) + "\" shape-rendering=\"crispEdges\"><path d=\"M0 0h"@ + decimal(
        width,
    ) + "v"@ + decimal(height) + "H0z\" fill=\""@ + bg + "\"/><path fill=\""@ + fg + "\" d=\""@
}

/// The path that draws the dark rectangle `width`×`height` at (`left`,
/// `top`).
pub open spec fn rect_path(rect: (u32, u32, u32, u32)) -> Seq<char> {
    "M"@ + decimal(rect.0 as nat) + " "@ + decimal(rect.1 as nat) + "h"@ + decimal(rect.2 as nat)
        + "v"@ + decimal(rect.3 as nat) + "h-"@ + decimal(rect.2 as nat) + "z"@
}

/// The paths of the first `n` rectangles.
pub open spec fn rect_paths(rects: Seq<(u32, u32, u32, u32)>, n: nat) -> Seq<char>
    decreases n,
{
    if n == 0 {
        Seq::empty()
    } else {
        rect_paths(rects, (n - 1) as nat) + rect_path(rects[n - 1])
    }
}

/// The end of the SVG image.
pub open spec fn svg_footer() -> Seq<char> {
    "\"/></svg>"@
}

/// A canvas for SVG rendering.
pub struct Canvas<'a> {
    svg: String,
    width: Ghost<nat>,
    height: Ghost<nat>,
    pixels: Ghost<(Color<'a>, Color<'a>)>,
    rects: Ghost<Seq<(u32, u32, u32, u32)>>,
    dark: Ghost<Set<(nat, nat)>>,
}

impl<'a> RenderCanvas for Canvas<'a> {
    type Pixel = Color<'a>;
    type Image = String;

    closed spec fn spec_size(&self) -> (nat, nat) {
        (self.width@, self.height@)
    }

    closed spec fn spec_pixels(&self) -> (Color<'a>, Color<'a>) {
        self.pixels@
    }

    closed spec fn spec_dark(&self) -> Set<(nat, nat)> {
        self.dark@
    }

    closed spec fn inv(&self) -> bool {
        &&& self.width@ <= u32::MAX
        &&& self.height@ <= u32::MAX
        &&& self.svg@ == svg_header(
            self.width@,
            self.height@,
            self.pixels@.0.spec_css(),
            self.pixels@.1.spec_css(),
        ) + rect_paths(self.rects@, self.rects@.len())
        &&& self.dark@ == rects_union(self.rects@, self.rects@.len())
    }

    open spec fn size_ok(width: nat, height: nat) -> bool {
        true
    }

    /// The image draws, in the dark color on the light background, one
    /// rectangle per rectangle of a list whose pixels are the dark pixels.
    open spec fn image_ok(
        width: nat,
        height: nat,
        dark_pixel: Color<'a>,
        light_pixel: Color<'a>,
        dark: Set<(nat, nat)>,
        image: String,
    ) -> bool {
        exists|rects: Seq<(u32, u32, u32, u32)>|
            {
                &&& rects_union(rects, rects.len()) == dark
                &&& image@ == svg_header(width, height, dark_pixel.spec_css(), light_pixel.spec_css())
                    + rect_paths(rects, rects.len()) + svg_footer()
            }
    }

    fn new(width: u32, height: u32, dark_pixel: Color<'a>, light_pixel: Color<'a>) -> (r: Self) {
        let mut svg = String::new();
        push_str(
            &mut svg,
            "<?xml version=\"1.0\" encoding=\"UTF-8\" standalone=\"yes\"?><svg xmlns=\"http://www.w3.org/2000/svg\" version=\"1.1\" width=\"",
        );
        push_decimal(&mut svg, width);
        push_str(&mut svg, "\" height=\"");
        push_decimal(&mut svg, height);
        push_str(&mut svg, "\" viewBox=\"0 0 ");
        push_decimal(&mut svg, width);
        push_str(&mut svg, " ");
        push_decimal(&mut svg, height);
        push_str(&mut svg, "\" shape-rendering=\"crispEdges\"><path d=\"M0 0h");
        push_decimal(&mut svg, width);
        push_str(&mut svg, "v");
        push_decimal(&mut svg, height);
        push_str(&mut svg, "H0z\" fill=\"");
        push_str(&mut svg, light_pixel.css());
        push_str(&mut svg, "\"/><path fill=\"");
        push_str(&mut svg, dark_pixel.css());
        push_str(&mut svg, "\" d=\"");
        let r = Canvas {
            svg,
            width: Ghost(width as nat),
            height: Ghost(height as nat),
            pixels: Ghost((dark_pixel, light_pixel)),
            rects: Ghost(Seq::empty()),
            dark: Ghost(Set::empty()),
        };
        proof {
            assert(r.svg@ =~= svg_header(
                width as nat,
                height as nat,
                dark_pixel.spec_css(),
                light_pixel.spec_css(),
            ) + rect_paths(Seq::empty(), 0));
        }
        r
    }

    fn draw_dark_pixel(&mut self, x: u32, y: u32) {
        self.draw_dark_rect(x, y, 1, 1);
        proof {
            assert(rect(x as nat, y as nat, 1, 1) =~= set![(x as nat, y as nat)]);
            assert(old(self).spec_dark().insert((x as nat, y as nat)) =~= old(
                self,
            ).spec_dark().union(rect(x as nat, y as nat, 1, 1)));
        }
    }

    fn draw_dark_rect(&mut self, left: u32, top: u32, width: u32, height: u32) {
        let ghost before = self.svg@;
        push_str(&mut self.svg, "M");
        push_decimal(&mut self.svg, left);
        push_str(&mut self.svg, " ");
        push_decimal(&mut self.svg, top);
        push_str(&mut self.svg, "h");
        push_decimal(&mut self.svg, width);
        push_str(&mut self.svg, "v");
        push_decimal(&mut self.svg, height);
        push_str(&mut self.svg, "h-");
        push_decimal(&mut self.svg, width);
        push_str(&mut self.svg, "z");
        proof {
            let r = (left, top, width, height);
            let old_rects = self.rects@;
            self.rects@ = self.rects@.push(r);
            self.dark@ = self.dark@.union(rect(left as nat, top as nat, width as nat, height as nat));
            lemma_rect_paths_push(old_rects, r);
            lemma_rects_union_push(old_rects, r);
            assert(self.svg@ =~= before + rect_path(r));
            assert(self.svg@ =~= svg_header(
                self.width@,
                self.height@,
                self.pixels@.0.spec_css(),
                self.pixels@.1.spec_css(),
            ) + rect_paths(self.rects@, self.rects@.len()));
        }
    }

    fn into_image(self) -> (r: String) {
        let ghost rects = self.rects@;
        let ghost whole = self.svg@;
        let mut svg = self.svg;
        push_str(&mut svg, "\"/></svg>");
        proof {
            assert(rects_union(rects, rects.len()) == self.dark@ && svg@ == whole + svg_footer());
        }
        svg
    }
}

/// The paths of one more rectangle end with its path.
proof fn lemma_rect_paths_push(rects: Seq<(u32, u32, u32, u32)>, r: (u32, u32, u32, u32))
    ensures
        rect_paths(rects.push(r), rects.len() + 1) == rect_paths(rects, rects.len()) + rect_path(r),
{
    assert(rects.push(r).subrange(0, rects.len() as int) =~= rects.subrange(0, rects.len() as int));
    lemma_rect_paths_prefix(rects, rects.push(r), rects.len());
}

/// The paths of the first `n` rectangles depend on those rectangles only.
proof fn lemma_rect_paths_prefix(
    a: Seq<(u32, u32, u32, u32)>,
    b: Seq<(u32, u32, u32, u32)>,
    n: nat,
)
    requires
        n <= a.len(),
        n <= b.len(),
        a.subrange(0, n as int) == b.subrange(0, n as int),
    ensures
        rect_paths(a, n) == rect_paths(b, n),
    decreases n,
{
    if n > 0 {
        assert(a[n - 1] == a.subrange(0, n as int)[n - 1]);
        assert(b[n - 1] == b.subrange(0, n as int)[n - 1]);
        assert(a.subrange(0, n - 1) =~= a.subrange(0, n as int).subrange(0, n - 1));
        assert(b.subrange(0, n - 1) =~= b.subrange(0, n as int).subrange(0, n - 1));
        lemma_rect_paths_prefix(a, b, (n - 1) as nat);
    }
}

} // verus!
