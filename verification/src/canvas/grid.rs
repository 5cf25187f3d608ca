//! The canvas of modules and the basic operations on it.

use vstd::prelude::*;

use super::mask::{MaskPattern, mask_inverts, spec_mask_inverts};
use super::module::Module;
use crate::types::{Color, EcLevel, MicroVersion, RectMicroVersion, Version};

verus! {

/// `Canvas` is an intermediate helper structure to render error-corrected data
/// into a QR code.
#[derive(Clone, Debug)]
pub struct Canvas {
    /// The width of the canvas (cached as it is needed frequently).
    width: i16,
    /// The height of the canvas (cached as it is needed frequently).
    height: i16,
    /// The version of the QR code.
    version: Version,
    /// The error correction level of the QR code.
    ec_level: EcLevel,
    /// The modules of the QR code. Modules are arranged in left-to-right, then
    /// top-to-bottom order.
    modules: Vec<Module>,
}

/// The position in the module list of the module at `(x, y)` of a canvas
/// `width` wide and `height` high; negative coordinates count from the far
/// side.
pub open spec fn module_index(width: int, height: int, x: int, y: int) -> int {
    let x = if x < 0 {
        x + width
    } else {
        x
    };
    let y = if y < 0 {
        y + height
    } else {
        y
    };
    y * width + x
}

/// Every symbol is at most 177 modules wide and high.
pub proof fn lemma_size_bound(version: Version)
    ensures
        1 <= version.spec_width() <= 177,
        1 <= version.spec_height() <= 177,
{
    match version {
        Version::Normal(v) => {
            assert(v.spec_number() <= 40);
        },
        Version::Micro(v) => {
            assert(v.spec_number() <= 4);
        },
        Version::RectMicro(v) => {
            assert(forall|i: int, j: int|
                0 <= i < 32 && 0 <= j < 2 ==> 1 <= #[trigger] RectMicroVersion::SIZES[i][j] <= 139);
        },
    }
}

impl Canvas {
    /// The modules, row after row.
    pub closed spec fn spec_modules(&self) -> Seq<Module> {
        self.modules@
    }

    /// The number of modules of each row.
    pub closed spec fn spec_width(&self) -> int {
        self.width as int
    }

    /// The number of rows.
    pub closed spec fn spec_height(&self) -> int {
        self.height as int
    }

    /// The version of the QR code.
    pub closed spec fn spec_version(&self) -> Version {
        self.version
    }

    /// The error correction level of the QR code.
    pub closed spec fn spec_ec_level(&self) -> EcLevel {
        self.ec_level
    }

    /// The canvas is consistent: its size is that of its version, and it has
    /// one module per position.
    pub open spec fn wf(&self) -> bool {
        &&& self.spec_width() == self.spec_version().spec_width()
        &&& self.spec_height() == self.spec_version().spec_height()
        &&& self.spec_modules().len() == self.spec_width() * self.spec_height()
    }

    /// Whether `(x, y)` lies on the canvas, counting negative coordinates from
    /// the far side.
    pub open spec fn in_bounds(&self, x: int, y: int) -> bool {
        -self.spec_width() <= x < self.spec_width() && -self.spec_height() <= y < self.spec_height()
    }

    /// The position of the module at `(x, y)` in the module list.
    pub open spec fn spec_index(&self, x: int, y: int) -> int {
        module_index(self.spec_width(), self.spec_height(), x, y)
    }

    /// The module at `(x, y)`.
    pub open spec fn spec_get(&self, x: int, y: int) -> Module {
        self.spec_modules()[self.spec_index(x, y)]
    }

    /// Whether `other` is this canvas with other modules.
    pub open spec fn same_shape(&self, other: &Canvas) -> bool {
        &&& other.spec_width() == self.spec_width()
        &&& other.spec_height() == self.spec_height()
        &&& other.spec_version() == self.spec_version()
        &&& other.spec_ec_level() == self.spec_ec_level()
    }

    /// Constructs a new canvas big enough for a QR code of the given version.
    pub fn new(version: Version, ec_level: EcLevel) -> (r: Self)
        ensures
            r.wf(),
            r.spec_version() == version,
            r.spec_ec_level() == ec_level,
            r.spec_modules() == Seq::new(
                (version.spec_width() * version.spec_height()) as nat,
                |i: int| Module::Empty,
            ),
    {
        let width = version.width() as i16;
        let height = version.height() as i16;
        let w = version.width() as usize;
        let h = version.height() as usize;
        assert(w * h <= 255 * 255) by (nonlinear_arith)
            requires
                w <= 255,
                h <= 255,
        ;
        let count = w * h;
        let mut modules: Vec<Module> = Vec::new();
        let mut i: usize = 0;
        while i < count
            invariant
                i <= count,
                modules@ == Seq::new(i as nat, |j: int| Module::Empty),
            decreases count - i,
        {
            modules.push(Module::Empty);
            i = i + 1;
            assert(modules@ =~= Seq::new(i as nat, |j: int| Module::Empty));
        }
        Canvas { width, height, version, ec_level, modules }
    }

    /// Returns the position of the module at the given coordinates in the
    /// module list.
    fn coords_to_index(&self, x: i16, y: i16) -> (r: usize)
        requires
            self.wf(),
            self.in_bounds(x as int, y as int),
        ensures
            r == self.spec_index(x as int, y as int),
            r < self.spec_modules().len(),
    {
        let x = if x < 0 {
            x + self.width
        } else {
            x
        };
        let y = if y < 0 {
            y + self.height
        } else {
            y
        };
        let ux = x as usize;
        let uy = y as usize;
        let uw = self.width as usize;
        proof {
            lemma_size_bound(self.version);
            assert(uy * uw + ux < uw * (self.height as usize)) by (nonlinear_arith)
                requires
                    ux < uw,
                    uy < self.height,
            ;
            assert(uw * (self.height as usize) <= 255 * 255) by (nonlinear_arith)
                requires
                    uw <= 255,
                    self.height <= 255,
                    self.height >= 0,
            ;
        }
        uy * uw + ux
    }

    /// Obtains a module at the given coordinates. For convenience, negative
    /// coordinates will wrap around.
    pub fn get(&self, x: i16, y: i16) -> (r: Module)
        requires
            self.wf(),
            self.in_bounds(x as int, y as int),
        ensures
            r == self.spec_get(x as int, y as int),
    {
        self.modules[self.coords_to_index(x, y)]
    }

    /// Obtains a mutable module at the given coordinates. For convenience,
    /// negative coordinates will wrap around.
    pub fn get_mut(&mut self, x: i16, y: i16) -> (r: &mut Module)
        requires
            old(self).wf(),
            old(self).in_bounds(x as int, y as int),
        ensures
            *r == old(self).spec_get(x as int, y as int),
            final(self).wf(),
            old(self).same_shape(&*final(self)),
            final(self).spec_modules() == old(self).spec_modules().update(
                old(self).spec_index(x as int, y as int),
                *final(r),
            ),
    {
        let index = self.coords_to_index(x, y);
        &mut self.modules[index]
    }

    /// Replaces the module at the given coordinates. For convenience,
    /// negative coordinates will wrap around.
    pub fn set(&mut self, x: i16, y: i16, module: Module)
        requires
            old(self).wf(),
            old(self).in_bounds(x as int, y as int),
        ensures
            final(self).wf(),
            old(self).same_shape(&*final(self)),
            final(self).spec_modules() == old(self).spec_modules().update(
                old(self).spec_index(x as int, y as int),
                module,
            ),
    {
        let index = self.coords_to_index(x, y);
        self.modules.set(index, module);
    }

    /// Sets the color of a functional module at the given coordinates. For
    /// convenience, negative coordinates will wrap around.
    pub fn put(&mut self, x: i16, y: i16, color: Color)
        requires
            old(self).wf(),
            old(self).in_bounds(x as int, y as int),
        ensures
            final(self).wf(),
            old(self).same_shape(&*final(self)),
            final(self).spec_modules() == old(self).spec_modules().update(
                old(self).spec_index(x as int, y as int),
                Module::Masked(color),
            ),
    {
        self.set(x, y, Module::Masked(color));
    }

    /// The number of modules of each row.
    pub(crate) fn width(&self) -> (r: i16)
        ensures
            r == self.spec_width(),
    {
        self.width
    }

    /// The number of rows.
    pub(crate) fn height(&self) -> (r: i16)
        ensures
            r == self.spec_height(),
    {
        self.height
    }

    /// The version of the QR code.
    pub(crate) fn version(&self) -> (r: Version)
        ensures
            r == self.spec_version(),
    {
        self.version
    }

    /// The modules, row after row.
    pub(crate) fn modules(&self) -> (r: &[Module])
        ensures
            r@ == self.spec_modules(),
    {
        self.modules.as_slice()
    }

    /// A copy of the canvas.
    pub(crate) fn duplicate(&self) -> (r: Canvas)
        ensures
            self.same_shape(&r),
            r.spec_modules() == self.spec_modules(),
    {
        let mut modules: Vec<Module> = Vec::new();
        let mut i: usize = 0;
        while i < self.modules.len()
            invariant
                i <= self.modules@.len(),
                modules@ == self.modules@.take(i as int),
            decreases self.modules@.len() - i,
        {
            modules.push(self.modules[i]);
            i = i + 1;
            assert(modules@ =~= self.modules@.take(i as int));
        }
        assert(self.modules@.take(i as int) =~= self.modules@);
        Canvas {
            width: self.width,
            height: self.height,
            version: self.version,
            ec_level: self.ec_level,
            modules,
        }
    }

    /// Converts the modules into a vector of colors.
    pub fn into_colors(self) -> (r: Vec<Color>)
        ensures
            r@ == self.spec_modules().map_values(|m: Module| m.spec_color()),
    {
        let mut r: Vec<Color> = Vec::new();
        let mut i: usize = 0;
        while i < self.modules.len()
            invariant
                i <= self.modules@.len(),
                r@ == self.modules@.take(i as int).map_values(|m: Module| m.spec_color()),
            decreases self.modules@.len() - i,
        {
            r.push(Color::from(self.modules[i]));
            i = i + 1;
            assert(r@ =~= self.modules@.take(i as int).map_values(|m: Module| m.spec_color()));
        }
        assert(self.modules@.take(i as int) =~= self.modules@);
        r
    }
}

/// The format information of QR code, by error correction level (its number
/// exclusive-or 1, times 8) plus mask pattern number.
pub const FORMAT_INFOS_QR: [u16; 32] = [
    0x5412, 0x5125, 0x5E7C, 0x5B4B, 0x45F9, 0x40CE, 0x4F97, 0x4AA0, 0x77C4, 0x72F3, 0x7DAA, 0x789D,
    0x662F, 0x6318, 0x6C41, 0x6976, 0x1689, 0x13BE, 0x1CE7, 0x19D0, 0x0762, 0x0255, 0x0D0C, 0x083B,
    0x355F, 0x3068, 0x3F31, 0x3A06, 0x24B4, 0x2183, 0x2EDA, 0x2BED,
];

/// The format information of Micro QR code, by symbol number times 4 plus
/// mask pattern number.
pub const FORMAT_INFOS_MICRO_QR: [u16; 32] = [
    0x4445, 0x4172, 0x4E2B, 0x4B1C, 0x55AE, 0x5099, 0x5FC0, 0x5AF7, 0x6793, 0x62A4, 0x6DFD, 0x68CA,
    0x7678, 0x734F, 0x7C16, 0x7921, 0x06DE, 0x03E9, 0x0CB0, 0x0987, 0x1735, 0x1202, 0x1D5B, 0x186C,
    0x2508, 0x203F, 0x2F66, 0x2A51, 0x34E3, 0x31D4, 0x3E8D, 0x3BBA,
];

/// Where the 15 bits of the format information of QR code go, most
/// significant first, around the top-left finder pattern.
pub const FORMAT_INFO_COORDS_QR_MAIN: [(i16, i16); 15] = [
    (0, 8), (1, 8), (2, 8), (3, 8), (4, 8), (5, 8), (7, 8), (8, 8),
    (8, 7), (8, 5), (8, 4), (8, 3), (8, 2), (8, 1), (8, 0),
];

/// Where the copy of the format information of QR code goes, next to the
/// other two finder patterns.
pub const FORMAT_INFO_COORDS_QR_SIDE: [(i16, i16); 15] = [
    (8, -1), (8, -2), (8, -3), (8, -4), (8, -5), (8, -6), (8, -7),
    (-8, 8), (-7, 8), (-6, 8), (-5, 8), (-4, 8), (-3, 8), (-2, 8), (-1, 8),
];

/// Where the 15 bits of the format information of Micro QR code go.
pub const FORMAT_INFO_COORDS_MICRO_QR: [(i16, i16); 15] = [
    (1, 8), (2, 8), (3, 8), (4, 8), (5, 8), (6, 8), (7, 8), (8, 8),
    (8, 7), (8, 6), (8, 5), (8, 4), (8, 3), (8, 2), (8, 1),
];

/// The number of a mask pattern in Micro QR code; only four patterns have
/// one.
pub open spec fn micro_pattern_number(pattern: MaskPattern) -> Option<nat> {
    match pattern {
        MaskPattern::HorizontalLines => Some(0),
        MaskPattern::LargeCheckerboard => Some(1),
        MaskPattern::Diamonds => Some(2),
        MaskPattern::Meadow => Some(3),
        _ => None,
    }
}

/// The format information of a QR code at `ec_level` with the mask `pattern`
/// is the table's entry for the 5 data bits of ISO/IEC 18004: the level's
/// 2-bit indicator (L `01`, M `00`, Q `11`, H `10`) followed by the mask's
/// 3-bit number (`000` checkerboard to `111` meadow).
pub proof fn lemma_format_number_qr(version: Version, ec_level: EcLevel, pattern: MaskPattern)
    requires
        version is Normal,
    ensures
        format_number(version, ec_level, pattern) == FORMAT_INFOS_QR[8 * match ec_level {
            EcLevel::L => 1int,
            EcLevel::M => 0int,
            EcLevel::Q => 3int,
            EcLevel::H => 2int,
        } + match pattern {
            MaskPattern::Checkerboard => 0int,
            MaskPattern::HorizontalLines => 1int,
            MaskPattern::VerticalLines => 2int,
            MaskPattern::DiagonalLines => 3int,
            MaskPattern::LargeCheckerboard => 4int,
            MaskPattern::Fields => 5int,
            MaskPattern::Diamonds => 6int,
            MaskPattern::Meadow => 7int,
        }],
{
}

/// The symbol number of a Micro QR code version and error correction level;
/// only eight combinations have one.
pub open spec fn micro_symbol_number(version: MicroVersion, ec_level: EcLevel) -> Option<nat> {
    match (version, ec_level) {
        (MicroVersion::M1, EcLevel::L) => Some(0),
        (MicroVersion::M2, EcLevel::L) => Some(1),
        (MicroVersion::M2, EcLevel::M) => Some(2),
        (MicroVersion::M3, EcLevel::L) => Some(3),
        (MicroVersion::M3, EcLevel::M) => Some(4),
        (MicroVersion::M4, EcLevel::L) => Some(5),
        (MicroVersion::M4, EcLevel::M) => Some(6),
        (MicroVersion::M4, EcLevel::Q) => Some(7),
        _ => None,
    }
}

/// Whether the format information of `pattern` can be drawn on a symbol of
/// `version` at `ec_level`: always for QR code and rMQR code, and for the
/// supported patterns and levels of Micro QR code.
pub open spec fn format_drawable(version: Version, ec_level: EcLevel, pattern: MaskPattern) -> bool {
    match version {
        Version::Micro(v) => micro_pattern_number(pattern) is Some && micro_symbol_number(
            v,
            ec_level,
        ) is Some,
        _ => true,
    }
}

/// The format information of `pattern` on a symbol of `version` at
/// `ec_level`.
pub open spec fn format_number(version: Version, ec_level: EcLevel, pattern: MaskPattern) -> u16 {
    match version {
        Version::Micro(v) => FORMAT_INFOS_MICRO_QR[(micro_symbol_number(v, ec_level).unwrap() * 4
            + micro_pattern_number(pattern).unwrap()) as int],
        _ => FORMAT_INFOS_QR[(if ec_level == EcLevel::M {
            0int
        } else if ec_level == EcLevel::L {
            8
        } else if ec_level == EcLevel::H {
            16
        } else {
            24
        }) + pattern as int],
    }
}

/// The color of bit `k` (counted from the most significant of `bits`) of
/// `number`: dark for one, light for zero.
pub open spec fn bit_color(number: u32, bits: u32, k: int) -> Color {
    if number & (1u32 << ((bits - 1 - k) as u32)) == 0 {
        Color::Light
    } else {
        Color::Dark
    }
}

/// The modules after the first `k` bits of `number` are drawn at `coords`.
pub open spec fn number_drawn(
    modules: Seq<Module>,
    width: int,
    height: int,
    number: u32,
    bits: u32,
    coords: Seq<(i16, i16)>,
    k: nat,
) -> Seq<Module>
    decreases k,
{
    if k == 0 {
        modules
    } else {
        let prev = number_drawn(modules, width, height, number, bits, coords, (k - 1) as nat);
        let (x, y) = coords[k - 1];
        prev.update(
            module_index(width, height, x as int, y as int),
            Module::Masked(bit_color(number, bits, k - 1)),
        )
    }
}

/// The modules after the format information `number` is drawn: for QR code
/// both copies and the dark module, for Micro QR code its one copy, and
/// nothing for rMQR code.
pub open spec fn format_drawn(
    modules: Seq<Module>,
    width: int,
    height: int,
    version: Version,
    number: u16,
) -> Seq<Module> {
    match version {
        Version::Normal(_) => {
            let main = number_drawn(
                modules,
                width,
                height,
                number as u32,
                15,
                FORMAT_INFO_COORDS_QR_MAIN@,
                15,
            );
            let side = number_drawn(
                main,
                width,
                height,
                number as u32,
                15,
                FORMAT_INFO_COORDS_QR_SIDE@,
                15,
            );
            side.update(module_index(width, height, 8, -8), Module::Masked(Color::Dark))
        },
        Version::Micro(_) => number_drawn(
            modules,
            width,
            height,
            number as u32,
            15,
            FORMAT_INFO_COORDS_MICRO_QR@,
            15,
        ),
        Version::RectMicro(_) => modules,
    }
}

/// The modules after the mask of `pattern`: each module at `(x, y)` masked,
/// inverted where the pattern says so.
pub open spec fn masked_modules(modules: Seq<Module>, width: int, pattern: MaskPattern) -> Seq<
    Module,
> {
    Seq::new(
        modules.len(),
        |i: int| modules[i].spec_mask(spec_mask_inverts(pattern, i % width, i / width)),
    )
}

/// Masking treats the module in column `x` and row `y` by the mask's condition
/// at `(x, y)`: it is inverted exactly when `spec_mask_inverts(pattern, x, y)`
/// holds (whose formulas `lemma_mask_standard_formulas` states).
pub proof fn lemma_masked_module_at(
    modules: Seq<Module>,
    width: int,
    pattern: MaskPattern,
    x: int,
    y: int,
)
    requires
        0 <= x < width,
        0 <= y,
        grid_index(width, x, y) < modules.len(),
    ensures
        masked_modules(modules, width, pattern)[grid_index(width, x, y)] == modules[grid_index(
            width,
            x,
            y,
        )].spec_mask(spec_mask_inverts(pattern, x, y)),
{
    let i = grid_index(width, x, y);
    assert(i == y * width + x);
    assert(0 <= y * width) by (nonlinear_arith)
        requires
            0 <= y,
            0 < width,
    ;
    vstd::arithmetic::div_mod::lemma_fundamental_div_mod_converse(i, width, y, x);
}

/// The modules after `apply_mask(pattern)`: masked, then with the format
/// information drawn.
pub open spec fn mask_applied(canvas: Canvas, pattern: MaskPattern) -> Seq<Module> {
    let masked = masked_modules(canvas.spec_modules(), canvas.spec_width(), pattern);
    if canvas.spec_version() is RectMicro {
        masked
    } else {
        format_drawn(
            masked,
            canvas.spec_width(),
            canvas.spec_height(),
            canvas.spec_version(),
            format_number(canvas.spec_version(), canvas.spec_ec_level(), pattern),
        )
    }
}

impl Canvas {
    /// Applies a mask to the canvas. This method will also draw the format info
    /// patterns.
    pub fn apply_mask(&mut self, pattern: MaskPattern)
        requires
            old(self).wf(),
            format_drawable(old(self).spec_version(), old(self).spec_ec_level(), pattern),
        ensures
            final(self).wf(),
            old(self).same_shape(&*final(self)),
            final(self).spec_modules() == mask_applied(*old(self), pattern),
    {
        let ghost orig = self.modules@;
        proof {
            lemma_size_bound(self.version);
        }
        let w = self.width;
        let h = self.height;
        let mut x: i16 = 0;
        while x < w
            invariant
                self.wf(),
                w == self.width,
                h == self.height,
                1 <= w <= 177,
                1 <= h <= 177,
                0 <= x <= w,
                self.version == old(self).version,
                self.ec_level == old(self).ec_level,
                orig == old(self).modules@,
                self.modules@.len() == orig.len(),
                forall|x2: int, y2: int|
                    0 <= x2 < w && 0 <= y2 < h ==> self.modules@[#[trigger] grid_index(w as int, x2, y2)]
                        == if x2 < x {
                        orig[grid_index(w as int, x2, y2)].spec_mask(spec_mask_inverts(pattern, x2, y2))
                    } else {
                        orig[grid_index(w as int, x2, y2)]
                    },
            decreases w - x,
        {
            let mut y: i16 = 0;
            while y < h
                invariant
                    self.wf(),
                    w == self.width,
                    h == self.height,
                    1 <= w <= 177,
                    1 <= h <= 177,
                    0 <= x < w,
                    0 <= y <= h,
                    self.version == old(self).version,
                    self.ec_level == old(self).ec_level,
                    orig == old(self).modules@,
                    self.modules@.len() == orig.len(),
                    forall|x2: int, y2: int|
                        0 <= x2 < w && 0 <= y2 < h ==> self.modules@[#[trigger] grid_index(w as int, x2, y2)]
                            == if x2 < x || (x2 == x && y2 < y) {
                            orig[grid_index(w as int, x2, y2)].spec_mask(
                                spec_mask_inverts(pattern, x2, y2),
                            )
                        } else {
                            orig[grid_index(w as int, x2, y2)]
                        },
                decreases h - y,
            {
                proof {
                    assert(x * y <= 177 * 177) by (nonlinear_arith)
                        requires
                            0 <= x <= 177,
                            0 <= y <= 177,
                    ;
                }
                let module = self.get(x, y);
                let inverts = mask_inverts(pattern, x, y);
                let ghost before = self.modules@;
                let ghost gi = grid_index(w as int, x as int, y as int);
                proof {
                    lemma_grid_index_bound(w as int, h as int, x as int, y as int);
                }
                assert(gi == self.spec_index(x as int, y as int));
                assert(before[gi] == orig[gi]);
                self.set(x, y, module.mask(inverts));
                proof {
                    assert forall|x2: int, y2: int| 0 <= x2 < w && 0 <= y2 < h implies self.modules@[
                        #[trigger] grid_index(w as int, x2, y2)] == if x2 < x || (x2 == x && y2 < y
                        + 1) {
                        orig[grid_index(w as int, x2, y2)].spec_mask(
                            spec_mask_inverts(pattern, x2, y2),
                        )
                    } else {
                        orig[grid_index(w as int, x2, y2)]
                    } by {
                        lemma_grid_index_bound(w as int, h as int, x2, y2);
                        if x2 == x && y2 == y {
                        } else {
                            if grid_index(w as int, x2, y2) == gi {
                                lemma_grid_index_injective(
                                    w as int,
                                    h as int,
                                    x2,
                                    y2,
                                    x as int,
                                    y as int,
                                );
                            }
                            assert(self.modules@[grid_index(w as int, x2, y2)] == before[grid_index(
                                w as int,
                                x2,
                                y2,
                            )]);
                        }
                    }
                }
                y = y + 1;
            }
            x = x + 1;
        }
        proof {
            let masked = masked_modules(orig, w as int, pattern);
            let wi = w as int;
            let hi = h as int;
            assert forall|i: int| 0 <= i < orig.len() implies self.modules@[i] == masked[i] by {
                let x2 = i % wi;
                let y2 = i / wi;
                vstd::arithmetic::div_mod::lemma_fundamental_div_mod(i, wi);
                assert(y2 < hi) by (nonlinear_arith)
                    requires
                        i < wi * hi,
                        y2 == i / wi,
                        wi > 0,
                        i >= 0,
                ;
                assert(0 <= x2 < wi && 0 <= y2);
                assert(self.modules@[grid_index(wi, x2, y2)] == orig[grid_index(wi, x2, y2)].spec_mask(
                    spec_mask_inverts(pattern, x2, y2),
                ));
                assert(y2 * wi + x2 == i) by (nonlinear_arith)
                    requires
                        i == wi * (i / wi) + i % wi,
                        y2 == i / wi,
                        x2 == i % wi,
                ;
            }
            assert(self.modules@ =~= masked);
        }
        self.draw_format_info_patterns(pattern);
    }

    /// Draws the format information to encode the error correction level and
    /// mask pattern.
    pub fn draw_format_info_patterns(&mut self, pattern: MaskPattern)
        requires
            old(self).wf(),
            format_drawable(old(self).spec_version(), old(self).spec_ec_level(), pattern),
        ensures
            final(self).wf(),
            old(self).same_shape(&*final(self)),
            final(self).spec_modules() == if old(self).spec_version() is RectMicro {
                old(self).spec_modules()
            } else {
                format_drawn(
                    old(self).spec_modules(),
                    old(self).spec_width(),
                    old(self).spec_height(),
                    old(self).spec_version(),
                    format_number(old(self).spec_version(), old(self).spec_ec_level(), pattern),
                )
            },
    {
        if self.version.is_rect_micro() {
            return;
        }
        let format_number = match self.version {
            Version::Normal(_) => {
                let e = self.ec_level.index();
                let p = pattern as usize;
                let simple_format_number = (e ^ 1) << 3 | p;
                proof {
                    assert(e < 4 && p < 8);
                    assert(((e ^ 1) << 3 | p) == (e ^ 1) * 8 + p) by (bit_vector)
                        requires
                            e < 4,
                            p < 8,
                    ;
                    assert((e ^ 1) == (if e == 0 { 1usize } else if e == 1 { 0 } else if e == 2 {
                        3
                    } else {
                        2
                    })) by (bit_vector)
                        requires
                            e < 4,
                    ;
                }
                FORMAT_INFOS_QR[simple_format_number]
            },
            Version::Micro(a) => {
                let micro_pattern_number: usize = match pattern {
                    MaskPattern::HorizontalLines => 0b00,
                    MaskPattern::LargeCheckerboard => 0b01,
                    MaskPattern::Diamonds => 0b10,
                    _ => 0b11,
                };
                let symbol_number: usize = match (a, self.ec_level) {
                    (MicroVersion::M1, EcLevel::L) => 0b000,
                    (MicroVersion::M2, EcLevel::L) => 0b001,
                    (MicroVersion::M2, EcLevel::M) => 0b010,
                    (MicroVersion::M3, EcLevel::L) => 0b011,
                    (MicroVersion::M3, EcLevel::M) => 0b100,
                    (MicroVersion::M4, EcLevel::L) => 0b101,
                    (MicroVersion::M4, EcLevel::M) => 0b110,
                    _ => 0b111,
                };
                let simple_format_number = symbol_number << 2 | micro_pattern_number;
                proof {
                    assert((symbol_number << 2 | micro_pattern_number) == symbol_number * 4
                        + micro_pattern_number) by (bit_vector)
                        requires
                            symbol_number < 8,
                            micro_pattern_number < 4,
                    ;
                }
                FORMAT_INFOS_MICRO_QR[simple_format_number]
            },
            Version::RectMicro(_) => return,
        };
        self.draw_format_info_patterns_with_number(format_number);
    }

    /// Draws the format information `format_info`: both copies and the dark
    /// module for QR code, its one copy for Micro QR code.
    fn draw_format_info_patterns_with_number(&mut self, format_info: u16)
        requires
            old(self).wf(),
            !(old(self).spec_version() is RectMicro),
        ensures
            final(self).wf(),
            old(self).same_shape(&*final(self)),
            final(self).spec_modules() == format_drawn(
                old(self).spec_modules(),
                old(self).spec_width(),
                old(self).spec_height(),
                old(self).spec_version(),
                format_info,
            ),
    {
        proof {
            lemma_size_bound(self.version);
        }
        let format_info = format_info as u32;
        match self.version {
            Version::Micro(_) => {
                self.draw_number(format_info, 15, &FORMAT_INFO_COORDS_MICRO_QR);
            },
            _ => {
                self.draw_number(format_info, 15, &FORMAT_INFO_COORDS_QR_MAIN);
                self.draw_number(format_info, 15, &FORMAT_INFO_COORDS_QR_SIDE);
                self.put(8, -8, Color::Dark);
            },
        }
    }

    /// Draws the `bits` low bits of `number`, most significant first, at
    /// `coords`: dark for one, light for zero.
    fn draw_number(&mut self, number: u32, bits: u32, coords: &[(i16, i16); 15])
        requires
            old(self).wf(),
            bits == 15,
            old(self).spec_width() >= 9,
            old(self).spec_height() >= 9,
            forall|k: int|
                0 <= k < 15 ==> -9 <= (#[trigger] coords@[k]).0 <= 8 && -9 <= coords@[k].1 <= 8,
        ensures
            final(self).wf(),
            old(self).same_shape(&*final(self)),
            final(self).spec_modules() == number_drawn(
                old(self).spec_modules(),
                old(self).spec_width(),
                old(self).spec_height(),
                number,
                bits,
                coords@,
                15,
            ),
    {
        let mut mask: u32 = 1 << (bits - 1);
        let mut k: usize = 0;
        while k < 15
            invariant
                self.wf(),
                old(self).same_shape(&*self),
                bits == 15,
                old(self).spec_width() >= 9,
                old(self).spec_height() >= 9,
                forall|k2: int|
                    0 <= k2 < 15 ==> -9 <= (#[trigger] coords@[k2]).0 <= 8 && -9 <= coords@[k2].1
                        <= 8,
                k <= 15,
                mask == 1u32 << ((bits - 1 - k) as u32) || k == 15,
                self.spec_modules() == number_drawn(
                    old(self).spec_modules(),
                    old(self).spec_width(),
                    old(self).spec_height(),
                    number,
                    bits,
                    coords@,
                    k as nat,
                ),
            decreases 15 - k,
        {
            let (x, y) = coords[k];
            let color = if (mask & number) == 0 {
                Color::Light
            } else {
                Color::Dark
            };
            proof {
                let s = (bits - 1 - k) as u32;
                assert((mask & number) == (number & mask)) by (bit_vector);
                assert(color == bit_color(number, bits, k as int));
            }
            self.put(x, y, color);
            proof {
                if k < 14 {
                    let s = (bits - 1 - k) as u32;
                    assert((1u32 << s) >> 1u32 == 1u32 << ((s - 1) as u32)) by (bit_vector)
                        requires
                            1 <= s < 32,
                    ;
                }
            }
            mask = mask >> 1;
            k = k + 1;
        }
    }
}

/// The position in the module list of `(x, y)`, for non-negative
/// coordinates.
pub open spec fn grid_index(width: int, x: int, y: int) -> int {
    y * width + x
}

/// A position of a grid lies within the module list.
proof fn lemma_grid_index_bound(w: int, h: int, x: int, y: int)
    requires
        0 <= x < w,
        0 <= y < h,
    ensures
        0 <= grid_index(w, x, y) < w * h,
{
    assert(0 <= y * w + x < w * h) by (nonlinear_arith)
        requires
            0 <= x < w,
            0 <= y < h,
    ;
}

/// Positions of a grid are one-to-one with the module list.
proof fn lemma_grid_index_injective(w: int, h: int, x1: int, y1: int, x2: int, y2: int)
    requires
        0 <= x1 < w,
        0 <= x2 < w,
        0 <= y1 < h,
        0 <= y2 < h,
        y1 * w + x1 == y2 * w + x2,
    ensures
        x1 == x2 && y1 == y2,
{
    if y1 < y2 {
        assert(y1 * w + x1 < y2 * w + x2) by (nonlinear_arith)
            requires
                y1 < y2,
                0 <= x1 < w,
                0 <= x2,
        ;
    } else if y2 < y1 {
        assert(y2 * w + x2 < y1 * w + x1) by (nonlinear_arith)
            requires
                y2 < y1,
                0 <= x2 < w,
                0 <= x1,
        ;
    }
}

} // verus!
