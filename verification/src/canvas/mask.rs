//! Implementation of features related to the mask patterns.

use vstd::prelude::*;

verus! {

/// The mask patterns. Since QR code and Micro QR code do not use the same
/// pattern number, we name them according to their shape instead of the number.
#[derive(Clone, Copy, Debug, PartialEq, Eq, Structural)]
pub enum MaskPattern {
    /// QR code mask pattern `0b000`.
    Checkerboard,
    /// QR code mask pattern `0b001`, and Micro QR code mask pattern `0b00`.
    HorizontalLines,
    /// QR code mask pattern `0b010`.
    VerticalLines,
    /// QR code mask pattern `0b011`.
    DiagonalLines,
    /// QR code mask pattern `0b100`, and Micro QR code mask pattern `0b01`.
    LargeCheckerboard,
    /// QR code mask pattern `0b101`.
    Fields,
    /// QR code mask pattern `0b110`, and Micro QR code mask pattern `0b10`.
    Diamonds,
    /// QR code mask pattern `0b111`, and Micro QR code mask pattern `0b11`.
    Meadow,
}

/// The remainder of `a` divided by `d`, with the sign of `a` (as integer
/// division rounds toward zero).
pub open spec fn trunc_rem(a: int, d: int) -> int {
    if a >= 0 {
        a % d
    } else {
        -((-a) % d)
    }
}

/// The quotient of `a` divided by `d`, rounded toward zero.
pub open spec fn trunc_div(a: int, d: int) -> int {
    if a >= 0 {
        a / d
    } else {
        -((-a) / d)
    }
}

/// Whether the mask of `pattern` inverts the module at `(x, y)`.
pub open spec fn spec_mask_inverts(pattern: MaskPattern, x: int, y: int) -> bool {
    match pattern {
        MaskPattern::Checkerboard => (x + y) % 2 == 0,
        MaskPattern::HorizontalLines => y % 2 == 0,
        MaskPattern::VerticalLines => x % 3 == 0,
        MaskPattern::DiagonalLines => (x + y) % 3 == 0,
        MaskPattern::LargeCheckerboard => (trunc_div(y, 2) + trunc_div(x, 3)) % 2 == 0,
        MaskPattern::Fields => (x * y) % 2 == 0 && (x * y) % 3 == 0,
        MaskPattern::Diamonds => (trunc_rem(x * y, 2) + trunc_rem(x * y, 3)) % 2 == 0,
        MaskPattern::Meadow => (trunc_rem(x + y, 2) + trunc_rem(x * y, 3)) % 2 == 0,
    }
}

/// The eight mask conditions of ISO/IEC 18004, for every module `(x, y)` of a
/// symbol (column `x`, row `y`, both from 0): the module is inverted exactly when
/// its pattern's formula gives zero. Mask `000` depends on `x + y`, `001` on the
/// row alone, `010` on the column alone, and so on.
pub proof fn lemma_mask_standard_formulas(x: int, y: int)
    requires
        0 <= x,
        0 <= y,
    ensures
        spec_mask_inverts(MaskPattern::Checkerboard, x, y) <==> (x + y) % 2 == 0,
        spec_mask_inverts(MaskPattern::HorizontalLines, x, y) <==> y % 2 == 0,
        spec_mask_inverts(MaskPattern::VerticalLines, x, y) <==> x % 3 == 0,
        spec_mask_inverts(MaskPattern::DiagonalLines, x, y) <==> (x + y) % 3 == 0,
        spec_mask_inverts(MaskPattern::LargeCheckerboard, x, y) <==> (y / 2 + x / 3) % 2 == 0,
        spec_mask_inverts(MaskPattern::Fields, x, y) <==> (x * y) % 2 + (x * y) % 3 == 0,
        spec_mask_inverts(MaskPattern::Diamonds, x, y) <==> ((x * y) % 2 + (x * y) % 3) % 2 == 0,
        spec_mask_inverts(MaskPattern::Meadow, x, y) <==> ((x + y) % 2 + (x * y) % 3) % 2 == 0,
{
    assert(x * y >= 0) by (nonlinear_arith)
        requires
            0 <= x,
            0 <= y,
    ;
}

/// Mask `010` (vertical lines) inverts whole columns: two modules of the same
/// column are inverted alike, and the columns inverted are every third one,
/// starting with the leftmost.
pub proof fn lemma_vertical_lines_columns(x: int, y1: int, y2: int)
    requires
        0 <= x,
        0 <= y1,
        0 <= y2,
    ensures
        spec_mask_inverts(MaskPattern::VerticalLines, x, y1) == spec_mask_inverts(
            MaskPattern::VerticalLines,
            x,
            y2,
        ),
        spec_mask_inverts(MaskPattern::VerticalLines, 0, y1),
        !spec_mask_inverts(MaskPattern::VerticalLines, 1, y1),
        !spec_mask_inverts(MaskPattern::VerticalLines, 2, y1),
        spec_mask_inverts(MaskPattern::VerticalLines, x + 3, y1) == spec_mask_inverts(
            MaskPattern::VerticalLines,
            x,
            y2,
        ),
{
    lemma_mask_standard_formulas(x, y1);
    lemma_mask_standard_formulas(x, y2);
    lemma_mask_standard_formulas(0, y1);
    lemma_mask_standard_formulas(1, y1);
    lemma_mask_standard_formulas(2, y1);
    lemma_mask_standard_formulas(x + 3, y1);
}

/// Whether the sum and the product of the coordinates fit in an `i16`.
pub open spec fn mask_coords_ok(x: i16, y: i16) -> bool {
    &&& i16::MIN <= x + y <= i16::MAX
    &&& i16::MIN <= x * y <= i16::MAX
}

/// The checkerboard mask: `(x + y) mod 2 = 0`.
pub fn checkerboard(x: i16, y: i16) -> (r: bool)
    requires
        i16::MIN <= x + y <= i16::MAX,
    ensures
        r == spec_mask_inverts(MaskPattern::Checkerboard, x as int, y as int),
{
    (x + y) % 2 == 0
}

/// The horizontal lines mask: `y mod 2 = 0`.
pub fn horizontal_lines(x: i16, y: i16) -> (r: bool)
    ensures
        r == spec_mask_inverts(MaskPattern::HorizontalLines, x as int, y as int),
{
    y % 2 == 0
}

/// The vertical lines mask: `x mod 3 = 0`.
pub fn vertical_lines(x: i16, y: i16) -> (r: bool)
    ensures
        r == spec_mask_inverts(MaskPattern::VerticalLines, x as int, y as int),
{
    x % 3 == 0
}

/// The diagonal lines mask: `(x + y) mod 3 = 0`.
pub fn diagonal_lines(x: i16, y: i16) -> (r: bool)
    requires
        i16::MIN <= x + y <= i16::MAX,
    ensures
        r == spec_mask_inverts(MaskPattern::DiagonalLines, x as int, y as int),
{
    (x + y) % 3 == 0
}

/// The large checkerboard mask: `(y / 2 + x / 3) mod 2 = 0`.
pub fn large_checkerboard(x: i16, y: i16) -> (r: bool)
    ensures
        r == spec_mask_inverts(MaskPattern::LargeCheckerboard, x as int, y as int),
{
    ((y / 2) + (x / 3)) % 2 == 0
}

/// The fields mask: `(x y) mod 2 + (x y) mod 3 = 0`.
pub fn fields(x: i16, y: i16) -> (r: bool)
    requires
        i16::MIN <= x * y <= i16::MAX,
    ensures
        r == spec_mask_inverts(MaskPattern::Fields, x as int, y as int),
{
    (x * y) % 2 + (x * y) % 3 == 0
}

/// The diamonds mask: `((x y) mod 2 + (x y) mod 3) mod 2 = 0`.
pub fn diamonds(x: i16, y: i16) -> (r: bool)
    requires
        i16::MIN <= x * y <= i16::MAX,
    ensures
        r == spec_mask_inverts(MaskPattern::Diamonds, x as int, y as int),
{
    ((x * y) % 2 + (x * y) % 3) % 2 == 0
}

/// The meadow mask: `((x + y) mod 2 + (x y) mod 3) mod 2 = 0`.
pub fn meadow(x: i16, y: i16) -> (r: bool)
    requires
        mask_coords_ok(x, y),
    ensures
        r == spec_mask_inverts(MaskPattern::Meadow, x as int, y as int),
{
    ((x + y) % 2 + (x * y) % 3) % 2 == 0
}

/// Whether the mask of `pattern` inverts the module at `(x, y)`.
pub fn mask_inverts(pattern: MaskPattern, x: i16, y: i16) -> (r: bool)
    requires
        mask_coords_ok(x, y),
    ensures
        r == spec_mask_inverts(pattern, x as int, y as int),
{
    match pattern {
        MaskPattern::Checkerboard => checkerboard(x, y),
        MaskPattern::HorizontalLines => horizontal_lines(x, y),
        MaskPattern::VerticalLines => vertical_lines(x, y),
        MaskPattern::DiagonalLines => diagonal_lines(x, y),
        MaskPattern::LargeCheckerboard => large_checkerboard(x, y),
        MaskPattern::Fields => fields(x, y),
        MaskPattern::Diamonds => diamonds(x, y),
        MaskPattern::Meadow => meadow(x, y),
    }
}

} // verus!
