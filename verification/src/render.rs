//! Render a QR code into image.

pub mod braille;
pub mod pic;
pub mod string;
pub mod svg;
pub mod unicode;

use std::fmt::Write;

use vstd::prelude::*;

use crate::types::Color;

verus! {

/// Abstraction of an image pixel.
pub trait Pixel: Copy + Sized {
    /// Type of the finalized image.
    type Image: Sized;

    /// The type that stores an intermediate buffer before finalizing to a
    /// concrete image.
    type Canvas: Canvas<Pixel = Self, Image = Self::Image>;

    /// The default module size.
    spec fn spec_default_unit_size() -> (u32, u32);

    /// The default pixel color of a dark or light module.
    spec fn spec_default_color(color: Color) -> Self;

    /// Obtains the default module size. The result must be at least 1×1.
    fn default_unit_size() -> (r: (u32, u32))
        ensures
            r == Self::spec_default_unit_size(),
            r.0 >= 1,
            r.1 >= 1,
    ;

    /// Obtains the default pixel color when a module is dark or light.
    fn default_color(color: Color) -> (r: Self)
        ensures
            r == Self::spec_default_color(color),
    ;
}

/// The pixels of the rectangle `width`×`height` at (`left`, `top`).
pub open spec fn rect(left: nat, top: nat, width: nat, height: nat) -> Set<(nat, nat)> {
    Set::new(|p: (nat, nat)| left <= p.0 < left + width && top <= p.1 < top + height)
}

/// The pixels of the first `n` rectangles.
pub open spec fn rects_union(rects: Seq<(u32, u32, u32, u32)>, n: nat) -> Set<(nat, nat)>
    decreases n,
{
    if n == 0 {
        Set::empty()
    } else {
        rects_union(rects, (n - 1) as nat).union(
            rect(
                rects[n - 1].0 as nat,
                rects[n - 1].1 as nat,
                rects[n - 1].2 as nat,
                rects[n - 1].3 as nat,
            ),
        )
    }
}

/// The pixels of one more rectangle add those of the rectangle.
pub proof fn lemma_rects_union_push(rects: Seq<(u32, u32, u32, u32)>, r: (u32, u32, u32, u32))
    ensures
        rects_union(rects.push(r), rects.len() + 1) == rects_union(rects, rects.len()).union(
            rect(r.0 as nat, r.1 as nat, r.2 as nat, r.3 as nat),
        ),
{
    assert(rects.push(r).subrange(0, rects.len() as int) =~= rects.subrange(0, rects.len() as int));
    lemma_rects_union_prefix(rects, rects.push(r), rects.len());
}

/// The pixels of the first `n` rectangles depend on those rectangles only.
pub proof fn lemma_rects_union_prefix(
    a: Seq<(u32, u32, u32, u32)>,
    b: Seq<(u32, u32, u32, u32)>,
    n: nat,
)
    requires
        n <= a.len(),
        n <= b.len(),
        a.subrange(0, n as int) == b.subrange(0, n as int),
    ensures
        rects_union(a, n) == rects_union(b, n),
    decreases n,
{
    if n > 0 {
        assert(a[n - 1] == a.subrange(0, n as int)[n - 1]);
        assert(b[n - 1] == b.subrange(0, n as int)[n - 1]);
        assert(a.subrange(0, n - 1) =~= a.subrange(0, n as int).subrange(0, n - 1));
        assert(b.subrange(0, n - 1) =~= b.subrange(0, n as int).subrange(0, n - 1));
        lemma_rects_union_prefix(a, b, (n - 1) as nat);
    }
}

/// Rendering canvas of a QR code image.
pub trait Canvas: Sized {
    /// Type of an image pixel.
    type Pixel: Sized;

    /// Type of the finalized image.
    type Image: Sized;

    /// The width and height of the canvas in pixels.
    spec fn spec_size(&self) -> (nat, nat);

    /// The pixels drawn dark and light.
    spec fn spec_pixels(&self) -> (Self::Pixel, Self::Pixel);

    /// The pixels drawn with the dark pixel so far.
    spec fn spec_dark(&self) -> Set<(nat, nat)>;

    /// The internal consistency of the canvas.
    spec fn inv(&self) -> bool;

    /// Whether a canvas of this size can be made.
    spec fn size_ok(width: nat, height: nat) -> bool;

    /// Whether `image` is the image of a canvas of this size and these pixels
    /// whose pixels in `dark` are drawn with the dark pixel and the others
    /// with the light one.
    spec fn image_ok(
        width: nat,
        height: nat,
        dark_pixel: Self::Pixel,
        light_pixel: Self::Pixel,
        dark: Set<(nat, nat)>,
        image: Self::Image,
    ) -> bool;

    /// Constructs a new canvas of the given dimensions.
    fn new(width: u32, height: u32, dark_pixel: Self::Pixel, light_pixel: Self::Pixel) -> (r: Self)
        requires
            Self::size_ok(width as nat, height as nat),
        ensures
            r.inv(),
            r.spec_size() == (width as nat, height as nat),
            r.spec_pixels() == (dark_pixel, light_pixel),
            r.spec_dark() == Set::<(nat, nat)>::empty(),
    ;

    /// Draws a single dark pixel at the (x, y) coordinate.
    fn draw_dark_pixel(&mut self, x: u32, y: u32)
        requires
            old(self).inv(),
            x < old(self).spec_size().0,
            y < old(self).spec_size().1,
        ensures
            final(self).inv(),
            final(self).spec_size() == old(self).spec_size(),
            final(self).spec_pixels() == old(self).spec_pixels(),
            final(self).spec_dark() == old(self).spec_dark().insert((x as nat, y as nat)),
    ;

    /// Draws a dark rectangle with dimensions `width`×`height` at the (`left`,
    /// `top`) coordinate.
    fn draw_dark_rect(&mut self, left: u32, top: u32, width: u32, height: u32)
        requires
            old(self).inv(),
            left + width <= old(self).spec_size().0,
            top + height <= old(self).spec_size().1,
            left + width <= u32::MAX,
            top + height <= u32::MAX,
        ensures
            final(self).inv(),
            final(self).spec_size() == old(self).spec_size(),
            final(self).spec_pixels() == old(self).spec_pixels(),
            final(self).spec_dark() == old(self).spec_dark().union(
                rect(left as nat, top as nat, width as nat, height as nat),
            ),
    {
        let ghost start = self.spec_dark();
        let mut y = top;
        while y < top + height
            invariant
                self.inv(),
                top <= y <= top + height,
                left + width <= u32::MAX,
                top + height <= u32::MAX,
                left + width <= self.spec_size().0,
                top + height <= self.spec_size().1,
                self.spec_size() == old(self).spec_size(),
                self.spec_pixels() == old(self).spec_pixels(),
                self.spec_dark() == start.union(
                    rect(left as nat, top as nat, width as nat, (y - top) as nat),
                ),
            decreases top + height - y,
        {
            let mut x = left;
            while x < left + width
                invariant
                    self.inv(),
                    top <= y < top + height,
                    left <= x <= left + width,
                    left + width <= u32::MAX,
                    top + height <= u32::MAX,
                    left + width <= self.spec_size().0,
                    top + height <= self.spec_size().1,
                    self.spec_size() == old(self).spec_size(),
                    self.spec_pixels() == old(self).spec_pixels(),
                    self.spec_dark() == start.union(
                        rect(left as nat, top as nat, width as nat, (y - top) as nat),
                    ).union(rect(left as nat, y as nat, (x - left) as nat, 1)),
                decreases left + width - x,
            {
                self.draw_dark_pixel(x, y);
                x = x + 1;
                assert(self.spec_dark() =~= start.union(
                    rect(left as nat, top as nat, width as nat, (y - top) as nat),
                ).union(rect(left as nat, y as nat, (x - left) as nat, 1)));
            }
            y = y + 1;
            assert(self.spec_dark() =~= start.union(
                rect(left as nat, top as nat, width as nat, (y - top) as nat),
            ));
        }
    }

    /// Finalizes the canvas to a real image.
    fn into_image(self) -> (r: Self::Image)
        requires
            self.inv(),
        ensures
            Self::image_ok(
                self.spec_size().0,
                self.spec_size().1,
                self.spec_pixels().0,
                self.spec_pixels().1,
                self.spec_dark(),
                r,
            ),
    ;
}

/// What a renderer is set to draw: the modules and their layout, the pixels
/// of each kind of module, and the module size.
pub struct RenderSettings<P> {
    /// The colors of the modules, row after row.
    pub content: Seq<Color>,
    /// The number of modules of each row.
    pub horizontal_modules_count: u32,
    /// The number of rows.
    pub vertical_modules_count: u32,
    /// The width of the quiet zone in modules, when it is drawn.
    pub quiet_zone: u32,
    /// The width and height of a module in pixels.
    pub module_size: (u32, u32),
    /// The pixel of dark modules.
    pub dark_color: P,
    /// The pixel of light modules.
    pub light_color: P,
    /// Whether the quiet zone is drawn.
    pub has_quiet_zone: bool,
}

impl<P> RenderSettings<P> {
    /// The width of the quiet zone that is drawn.
    pub open spec fn margin(self) -> nat {
        if self.has_quiet_zone {
            self.quiet_zone as nat
        } else {
            0
        }
    }

    /// The width of the image in modules.
    pub open spec fn width_in_modules(self) -> nat {
        self.horizontal_modules_count as nat + 2 * self.margin()
    }

    /// The height of the image in modules.
    pub open spec fn height_in_modules(self) -> nat {
        self.vertical_modules_count as nat + 2 * self.margin()
    }

    /// The width of the image in pixels.
    pub open spec fn image_width(self) -> nat {
        self.width_in_modules() * (self.module_size.0 as nat)
    }

    /// The height of the image in pixels.
    pub open spec fn image_height(self) -> nat {
        self.height_in_modules() * (self.module_size.1 as nat)
    }

    /// Whether the module at (`mx`, `my`) of the image, quiet zone included,
    /// is a module of the code that is not light.
    pub open spec fn module_is_dark(self, mx: nat, my: nat) -> bool {
        let q = self.margin();
        &&& q <= mx < self.horizontal_modules_count + q
        &&& q <= my < self.vertical_modules_count + q
        &&& self.content[(my - q) * self.horizontal_modules_count + (mx - q)] != Color::Light
    }

    /// The pixels of the image drawn with the dark pixel: those of the
    /// modules of the code that are not light.
    pub open spec fn dark_pixels(self) -> Set<(nat, nat)> {
        Set::new(
            |p: (nat, nat)|
                p.0 < self.image_width() && p.1 < self.image_height() && self.module_is_dark(
                    p.0 / (self.module_size.0 as nat),
                    p.1 / (self.module_size.1 as nat),
                ),
        )
    }

    /// The dark pixels of the modules that come before (`cx`, `cy`) in
    /// row-major order.
    pub open spec fn dark_pixels_before(self, cx: nat, cy: nat) -> Set<(nat, nat)> {
        Set::new(
            |p: (nat, nat)|
                {
                    let mx = p.0 / (self.module_size.0 as nat);
                    let my = p.1 / (self.module_size.1 as nat);
                    &&& p.0 < self.image_width()
                    &&& p.1 < self.image_height()
                    &&& (my < cy || (my == cy && mx < cx))
                    &&& self.module_is_dark(mx, my)
                }
            ,
        )
    }
}

/// A QR code renderer. This is a builder type which converts a bool-vector into
/// an image.
pub struct Renderer<'a, P: Pixel> {
    content: &'a [Color],
    horizontal_modules_count: u32,
    vertical_modules_count: u32,
    quiet_zone: u32,
    module_size: (u32, u32),
    dark_color: P,
    light_color: P,
    has_quiet_zone: bool,
}

impl<'a, P: Pixel> View for Renderer<'a, P> {
    type V = RenderSettings<P>;

    closed spec fn view(&self) -> RenderSettings<P> {
        RenderSettings {
            content: self.content@,
            horizontal_modules_count: self.horizontal_modules_count,
            vertical_modules_count: self.vertical_modules_count,
            quiet_zone: self.quiet_zone,
            module_size: self.module_size,
            dark_color: self.dark_color,
            light_color: self.light_color,
            has_quiet_zone: self.has_quiet_zone,
        }
    }
}

/// A pixel `p` lies in the module `x` of size `m` exactly when it lies in the
/// `m` pixels from `x × m` on.
proof fn lemma_in_module(p: nat, x: nat, m: nat)
    requires
        m > 0,
    ensures
        (x * m <= p < x * m + m) <==> p / m == x,
{
    vstd::arithmetic::div_mod::lemma_fundamental_div_mod(p as int, m as int);
    if x * m <= p < x * m + m {
        vstd::arithmetic::div_mod::lemma_fundamental_div_mod_converse(
            p as int,
            m as int,
            x as int,
            p - x * m,
        );
    }
    if p / m == x {
        assert(p == m * x + p % m);
        assert(x * m == m * x) by (nonlinear_arith);
    }
}

impl<'a, P: Pixel> Renderer<'a, P> {
    /// Creates a new renderer.
    ///
    /// Except for rMQR code, `horizontal_modules_count` and
    /// `vertical_modules_count` should be the same value.
    pub fn new(
        content: &'a [Color],
        horizontal_modules_count: usize,
        vertical_modules_count: usize,
        quiet_zone: u32,
    ) -> (r: Self)
        requires
            horizontal_modules_count * vertical_modules_count == content@.len(),
            horizontal_modules_count <= u32::MAX,
            vertical_modules_count <= u32::MAX,
        ensures
            r@ == (RenderSettings {
                content: content@,
                horizontal_modules_count: horizontal_modules_count as u32,
                vertical_modules_count: vertical_modules_count as u32,
                quiet_zone,
                module_size: P::spec_default_unit_size(),
                dark_color: P::spec_default_color(Color::Dark),
                light_color: P::spec_default_color(Color::Light),
                has_quiet_zone: true,
            }),
    {
        let horizontal_modules_count = horizontal_modules_count as u32;
        let vertical_modules_count = vertical_modules_count as u32;
        let module_size = P::default_unit_size();
        let dark_color = P::default_color(Color::Dark);
        let light_color = P::default_color(Color::Light);
        Renderer {
            content,
            horizontal_modules_count,
            vertical_modules_count,
            quiet_zone,
            module_size,
            dark_color,
            light_color,
            has_quiet_zone: true,
        }
    }

    /// Sets color of a dark module.
    pub fn dark_color(&mut self, color: P) -> (r: &mut Self)
        ensures
            r@ == (RenderSettings { dark_color: color, ..old(self)@ }),
            final(self)@ == final(r)@,
    {
        self.dark_color = color;
        self
    }

    /// Sets color of a light module.
    pub fn light_color(&mut self, color: P) -> (r: &mut Self)
        ensures
            r@ == (RenderSettings { light_color: color, ..old(self)@ }),
            final(self)@ == final(r)@,
    {
        self.light_color = color;
        self
    }

    /// Sets the size of the quiet zone in the generated image.
    pub fn quiet_zone(&mut self, quiet_zone: u32) -> (r: &mut Self)
        ensures
            r@ == (RenderSettings { quiet_zone, ..old(self)@ }),
            final(self)@ == final(r)@,
    {
        self.quiet_zone = quiet_zone;
        self
    }

    /// Sets whether to include the quiet zone in the generated image.
    pub fn has_quiet_zone(&mut self, has_quiet_zone: bool) -> (r: &mut Self)
        ensures
            r@ == (RenderSettings { has_quiet_zone, ..old(self)@ }),
            final(self)@ == final(r)@,
    {
        self.has_quiet_zone = has_quiet_zone;
        self
    }

    /// Sets the size of each module in pixels; a size below 1 counts as 1.
    pub fn module_dimensions(&mut self, width: u32, height: u32) -> (r: &mut Self)
        ensures
            r@ == (RenderSettings {
                module_size: (
                    if width >= 1 {
                        width
                    } else {
                        1
                    },
                    if height >= 1 {
                        height
                    } else {
                        1
                    },
                ),
                ..old(self)@
            }),
            final(self)@ == final(r)@,
    {
        let w = if width >= 1 {
            width
        } else {
            1
        };
        let h = if height >= 1 {
            height
        } else {
            1
        };
        self.module_size = (w, h);
        self
    }
}

/// The number of modules of the code among the modules before (`x`, `y`) in
/// row-major order, for a code `w`×`h` with a margin of `q`.
pub open spec fn modules_before(w: nat, h: nat, q: nat, x: nat, y: nat) -> nat {
    if y < q {
        0
    } else if y >= h + q {
        h * w
    } else {
        let in_row: nat = if x < q {
            0
        } else if x >= w + q {
            w
        } else {
            (x - q) as nat
        };
        ((y - q) * w + in_row) as nat
    }
}

/// A pixel below `n × m` lies in a module below `n`.
proof fn lemma_module_below(p: nat, n: nat, m: nat)
    requires
        m > 0,
        p < n * m,
    ensures
        p / m < n,
{
    vstd::arithmetic::div_mod::lemma_fundamental_div_mod(p as int, m as int);
    if p / m >= n {
        assert(m * (p / m) >= m * n) by (nonlinear_arith)
            requires
                p / m >= n,
                m > 0,
        ;
        assert(n * m == m * n) by (nonlinear_arith);
    }
}

impl<'a, P: Pixel> Renderer<'a, P> {
    /// Renders the QR code into an image.
    pub fn build(&self) -> (r: P::Image)
        requires
            self@.content.len() == self@.horizontal_modules_count * self@.vertical_modules_count,
            self@.module_size.0 >= 1,
            self@.module_size.1 >= 1,
            self@.image_width() <= u32::MAX,
            self@.image_height() <= u32::MAX,
            P::Canvas::size_ok(self@.image_width(), self@.image_height()),
        ensures
            P::Canvas::image_ok(
                self@.image_width(),
                self@.image_height(),
                self@.dark_color,
                self@.light_color,
                self@.dark_pixels(),
                r,
            ),
    {
        let ghost s = self@;
        let w = self.horizontal_modules_count;
        let h = self.vertical_modules_count;
        let qz = if self.has_quiet_zone {
            self.quiet_zone
        } else {
            0
        };
        let (mw, mh) = self.module_size;
        proof {
            assert(s.width_in_modules() <= s.image_width()) by (nonlinear_arith)
                requires
                    s.image_width() == s.width_in_modules() * (mw as nat),
                    mw >= 1,
            ;
            assert(s.height_in_modules() <= s.image_height()) by (nonlinear_arith)
                requires
                    s.image_height() == s.height_in_modules() * (mh as nat),
                    mh >= 1,
            ;
        }
        let width = w + 2 * qz;
        let height = h + 2 * qz;
        let real_width = width * mw;
        let real_height = height * mh;
        let mut canvas = P::Canvas::new(real_width, real_height, self.dark_color, self.light_color);
        assert(canvas.spec_dark() =~= s.dark_pixels_before(0, 0));
        let mut i: usize = 0;
        let mut y: u32 = 0;
        while y < height
            invariant
                s == self@,
                w == s.horizontal_modules_count,
                h == s.vertical_modules_count,
                qz == s.margin(),
                (mw, mh) == s.module_size,
                mw >= 1,
                mh >= 1,
                width == s.width_in_modules(),
                height == s.height_in_modules(),
                real_width == s.image_width(),
                real_height == s.image_height(),
                s.content.len() == w * h,
                y <= height,
                canvas.inv(),
                canvas.spec_size() == (real_width as nat, real_height as nat),
                canvas.spec_pixels() == (s.dark_color, s.light_color),
                canvas.spec_dark() == s.dark_pixels_before(0, y as nat),
                i == modules_before(w as nat, h as nat, qz as nat, 0, y as nat),
            decreases height - y,
        {
            let mut x: u32 = 0;
            while x < width
                invariant
                    s == self@,
                    w == s.horizontal_modules_count,
                    h == s.vertical_modules_count,
                    qz == s.margin(),
                    (mw, mh) == s.module_size,
                    mw >= 1,
                    mh >= 1,
                    width == s.width_in_modules(),
                    height == s.height_in_modules(),
                    real_width == s.image_width(),
                    real_height == s.image_height(),
                    s.content.len() == w * h,
                    y < height,
                    x <= width,
                    canvas.inv(),
                    canvas.spec_size() == (real_width as nat, real_height as nat),
                    canvas.spec_pixels() == (s.dark_color, s.light_color),
                    canvas.spec_dark() == s.dark_pixels_before(x as nat, y as nat),
                    i == modules_before(w as nat, h as nat, qz as nat, x as nat, y as nat),
                decreases width - x,
            {
                let ghost before = canvas.spec_dark();
                proof {
                    assert((x as nat) * (mw as nat) + (mw as nat) <= real_width) by (nonlinear_arith)
                        requires
                            x < width,
                            real_width == width * mw,
                    ;
                    assert((y as nat) * (mh as nat) + (mh as nat) <= real_height) by (nonlinear_arith)
                        requires
                            y < height,
                            real_height == height * mh,
                    ;
                }
                let inside = qz <= x && x < w + qz && qz <= y && y < h + qz;
                if inside {
                    proof {
                        assert((y - qz) * w + (x - qz) < w * h) by (nonlinear_arith)
                            requires
                                0 <= x - qz < w,
                                0 <= y - qz < h,
                        ;
                    }
                    let dark = self.content[i] != Color::Light;
                    if dark {
                        canvas.draw_dark_rect(x * mw, y * mh, mw, mh);
                    }
                    proof {
                        let after = canvas.spec_dark();
                        let goal = s.dark_pixels_before(x as nat + 1, y as nat);
                        assert forall|p: (nat, nat)| after.contains(p) <==> goal.contains(p) by {
                            lemma_in_module(p.0, x as nat, mw as nat);
                            lemma_in_module(p.1, y as nat, mh as nat);
                            if p.0 < real_width {
                                lemma_module_below(p.0, width as nat, mw as nat);
                            }
                            if p.1 < real_height {
                                lemma_module_below(p.1, height as nat, mh as nat);
                            }
                        }
                        assert(after =~= goal);
                    }
                    i = i + 1;
                } else {
                    proof {
                        let goal = s.dark_pixels_before(x as nat + 1, y as nat);
                        assert forall|p: (nat, nat)| before.contains(p) <==> goal.contains(p) by {
                            lemma_in_module(p.0, x as nat, mw as nat);
                            lemma_in_module(p.1, y as nat, mh as nat);
                        }
                        assert(before =~= goal);
                    }
                }
                x = x + 1;
            }
            proof {
                let goal = s.dark_pixels_before(0, y as nat + 1);
                assert forall|p: (nat, nat)| canvas.spec_dark().contains(p) <==> goal.contains(p) by {
                    if p.0 < real_width {
                        lemma_module_below(p.0, width as nat, mw as nat);
                    }
                }
                assert(canvas.spec_dark() =~= goal);
                let (wn, hn, qn, yn) = (w as nat, h as nat, qz as nat, y as nat);
                if yn + 1 == qn {
                    assert((yn + 1 - qn) * wn == 0) by (nonlinear_arith)
                        requires
                            yn + 1 == qn,
                    ;
                }
                if qn <= yn < hn + qn {
                    assert((yn - qn) * wn + wn == (yn + 1 - qn) * wn) by (nonlinear_arith);
                    if yn + 1 == hn + qn {
                        assert(hn * wn == (yn + 1 - qn) * wn) by (nonlinear_arith)
                            requires
                                yn + 1 == hn + qn,
                        ;
                    }
                    assert(modules_before(wn, hn, qn, width as nat, yn) == (yn - qn) * wn + wn);
                }
            }
            y = y + 1;
        }
        proof {
            assert forall|p: (nat, nat)|
                canvas.spec_dark().contains(p) <==> s.dark_pixels().contains(p) by {
                if p.1 < real_height {
                    lemma_module_below(p.1, height as nat, mh as nat);
                }
            }
            assert(canvas.spec_dark() =~= s.dark_pixels());
        }
        canvas.into_image()
    }
}

/// The quotient of `a` by `b`, rounded up.
pub open spec fn ceil_div(a: nat, b: nat) -> nat {
    ((a + b - 1) / (b as int)) as nat
}

/// The module size that `min_dimensions` picks is the smallest with which
/// `count` modules of equal size cover `size` pixels.
pub proof fn lemma_min_dimensions_smallest(size: nat, count: nat)
    requires
        count > 0,
    ensures
        ceil_div(size, count) * count >= size,
        ceil_div(size, count) > 0 ==> (ceil_div(size, count) - 1) * count < size,
{
    let q = ceil_div(size, count);
    vstd::arithmetic::div_mod::lemma_fundamental_div_mod((size + count - 1) as int, count as int);
    let r = ((size + count - 1) as int) % (count as int);
    assert(q * count >= size) by (nonlinear_arith)
        requires
            size + count - 1 == count * q + r,
            r < count,
            0 <= r,
    ;
    assert(q > 0 ==> (q - 1) * count < size) by (nonlinear_arith)
        requires
            size + count - 1 == count * q + r,
            0 <= r,
            count > 0,
    ;
}

/// The module size that `max_dimensions` picks is the largest with which
/// `count` modules of equal size fit in `size` pixels.
pub proof fn lemma_max_dimensions_largest(size: nat, count: nat)
    requires
        count > 0,
    ensures
        (size / count) * count <= size,
        (size / count + 1) * count > size,
{
    vstd::arithmetic::div_mod::lemma_fundamental_div_mod(size as int, count as int);
    let q = size / count;
    let r = size % count;
    assert(q * count <= size && (q + 1) * count > size) by (nonlinear_arith)
        requires
            size == count * q + r,
            0 <= r < count,
    ;
}

impl<'a, P: Pixel> Renderer<'a, P> {
    /// Sets the minimum total image size in pixels, including the quiet zone if
    /// applicable. The renderer will try to find the dimension as small as
    /// possible, such that each module in the QR code has uniform size (no
    /// distortion).
    pub fn min_dimensions(&mut self, width: u32, height: u32) -> (r: &mut Self)
        requires
            old(self)@.width_in_modules() <= u32::MAX,
            old(self)@.height_in_modules() <= u32::MAX,
            old(self)@.width_in_modules() > 0,
            old(self)@.height_in_modules() > 0,
        ensures
            ({
                let s = old(self)@;
                let unit_width = ceil_div(width as nat, s.width_in_modules());
                let unit_height = ceil_div(height as nat, s.height_in_modules());
                r@ == (RenderSettings {
                    module_size: (
                        if unit_width >= 1 {
                            unit_width as u32
                        } else {
                            1
                        },
                        if unit_height >= 1 {
                            unit_height as u32
                        } else {
                            1
                        },
                    ),
                    ..s
                })
            }),
            final(self)@ == final(r)@,
    {
        let quiet_zone = if self.has_quiet_zone {
            2
        } else {
            0
        } * self.quiet_zone;
        let width_in_modules = self.horizontal_modules_count + quiet_zone;
        let height_in_modules = self.vertical_modules_count + quiet_zone;
        let unit_width = div_ceil(width, width_in_modules);
        let unit_height = div_ceil(height, height_in_modules);
        self.module_dimensions(unit_width, unit_height)
    }

    /// Sets the maximum total image size in pixels, including the quiet zone if
    /// applicable. The renderer will try to find the dimension as large as
    /// possible, such that each module in the QR code has uniform size (no
    /// distortion).
    ///
    /// The module size is at least 1×1, so if the restriction is too small, the
    /// final image _can_ be larger than the input.
    pub fn max_dimensions(&mut self, width: u32, height: u32) -> (r: &mut Self)
        requires
            old(self)@.width_in_modules() <= u32::MAX,
            old(self)@.height_in_modules() <= u32::MAX,
            old(self)@.width_in_modules() > 0,
            old(self)@.height_in_modules() > 0,
        ensures
            ({
                let s = old(self)@;
                let unit_width = width as nat / s.width_in_modules();
                let unit_height = height as nat / s.height_in_modules();
                r@ == (RenderSettings {
                    module_size: (
                        if unit_width >= 1 {
                            unit_width as u32
                        } else {
                            1
                        },
                        if unit_height >= 1 {
                            unit_height as u32
                        } else {
                            1
                        },
                    ),
                    ..s
                })
            }),
            final(self)@ == final(r)@,
    {
        let quiet_zone = if self.has_quiet_zone {
            2
        } else {
            0
        } * self.quiet_zone;
        let width_in_modules = self.horizontal_modules_count + quiet_zone;
        let height_in_modules = self.vertical_modules_count + quiet_zone;
        let unit_width = width / width_in_modules;
        let unit_height = height / height_in_modules;
        self.module_dimensions(unit_width, unit_height)
    }
}

/// The quotient of `a` by `b`, rounded up.
fn div_ceil(a: u32, b: u32) -> (r: u32)
    requires
        b > 0,
    ensures
        r == ceil_div(a as nat, b as nat),
{
    let q = a / b;
    proof {
        vstd::arithmetic::div_mod::lemma_fundamental_div_mod(a as int, b as int);
        assert(b * q >= q) by (nonlinear_arith)
            requires
                b >= 1,
                q >= 0,
        ;
    }
    let r = if a % b == 0 {
        q
    } else {
        q + 1
    };
    proof {
        let c = (a + b - 1) as int;
        if a % b == 0 {
            vstd::arithmetic::div_mod::lemma_fundamental_div_mod_converse(
                c,
                b as int,
                q as int,
                (b - 1) as int,
            );
        } else {
            assert(b * (q + 1) == b * q + b) by (nonlinear_arith);
            vstd::arithmetic::div_mod::lemma_fundamental_div_mod_converse(
                c,
                b as int,
                q + 1,
                (a % b - 1) as int,
            );
        }
    }
    r
}

/// `String::push`: appends the character to the end of the string.
#[verifier::external_body]
pub(crate) fn push_char(string: &mut String, c: char)
    ensures
        final(string)@ == old(string)@.push(c),
{
    string.push(c);
}

/// `char::from_u32`: the character of the given code point, if it is a
/// Unicode scalar value (not above `0x10FFFF` and not a surrogate), and
/// `None` otherwise.
#[verifier::external_body]
pub(crate) fn char_from_u32(v: u32) -> (r: Option<char>)
    ensures
        r == (if v <= 0xD7FF || (0xE000 <= v && v <= 0x10FFFF) {
            Some(v as char)
        } else {
            None
        }),
{
    char::from_u32(v)
}

/// `String::push_str`: appends the text `s` to the end of the string.
#[verifier::external_body]
pub(crate) fn push_str(string: &mut String, s: &str)
    ensures
        final(string)@ == old(string)@ + s@,
{
    string.push_str(s);
}

/// `String::pop`: removes the last character of the string and returns it,
/// or returns `None` and leaves the string as it is when it is empty.
#[verifier::external_body]
pub(crate) fn pop_char(string: &mut String) -> (r: Option<char>)
    ensures
        old(string)@.len() == 0 ==> r is None && final(string)@ == old(string)@,
        old(string)@.len() > 0 ==> r == Some(old(string)@.last()) && final(string)@ == old(
            string,
        )@.drop_last(),
{
    string.pop()
}

/// The decimal digits of `n`, without leading zeros (`0` for zero).
pub open spec fn decimal(n: nat) -> Seq<char>
    decreases n,
{
    if n < 10 {
        seq![('0' as u32 + n) as char]
    } else {
        decimal(n / 10).push(('0' as u32 + n % 10) as char)
    }
}

/// `write!` of a `u32` with the `{}` format, as `Display` for integers does:
/// appends the decimal digits of `v`, without sign or leading zeros.
#[verifier::external_body]
pub(crate) fn push_decimal(string: &mut String, v: u32)
    ensures
        final(string)@ == old(string)@ + decimal(v as nat),
{
    let _ = write!(string, "{}", v);
}

} // verus!
