//! Implementation of features related to the penalty score.

use vstd::prelude::*;

use super::grid::{Canvas, module_index};
use super::module::Module;
use crate::types::{Color, Version};

verus! {

/// The module at `(x, y)` of the grid `modules`, `width`×`height`; negative
/// coordinates count from the far side.
pub open spec fn grid_get(modules: Seq<Module>, width: int, height: int, x: int, y: int) -> Module {
    modules[module_index(width, height, x, y)]
}

/// The `j`-th module of the `i`-th row (or column, if not `is_horizontal`).
pub open spec fn line_module(
    modules: Seq<Module>,
    width: int,
    height: int,
    is_horizontal: bool,
    i: int,
    j: int,
) -> Module {
    if is_horizontal {
        grid_get(modules, width, height, j, i)
    } else {
        grid_get(modules, width, height, i, j)
    }
}

/// The `i`-th row (or column) of a square grid `width` wide, followed by an
/// empty module.
pub open spec fn line_with_end(
    modules: Seq<Module>,
    width: int,
    is_horizontal: bool,
    i: int,
) -> Seq<Module> {
    Seq::new(
        (width + 1) as nat,
        |j: int|
            if j < width {
                line_module(modules, width, width, is_horizontal, i, j)
            } else {
                Module::Empty
            },
    )
}

/// The scan of the first `k` modules of `line` for runs of equal modules:
/// the module of the current run, its length, and the score so far. The scan
/// starts with a run of one empty module; a run of `5 + n` modules that ends
/// scores `3 + n` points.
pub open spec fn run_scan(line: Seq<Module>, k: nat) -> (Module, int, int)
    decreases k,
{
    if k == 0 {
        (Module::Empty, 1, 0)
    } else {
        let (last, len, score) = run_scan(line, (k - 1) as nat);
        let m = line[k - 1];
        if m == last {
            (last, len + 1, score)
        } else {
            (m, 1, if len >= 5 {
                score + len - 2
            } else {
                score
            })
        }
    }
}

/// The penalty for runs of adjacent equal modules in the first `n` rows (or
/// columns) of a square grid.
pub open spec fn adjacent_upto(modules: Seq<Module>, width: int, is_horizontal: bool, n: nat) -> int
    decreases n,
{
    if n == 0 {
        0
    } else {
        adjacent_upto(modules, width, is_horizontal, (n - 1) as nat) + run_scan(
            line_with_end(modules, width, is_horizontal, n - 1),
            (width + 1) as nat,
        ).2
    }
}

/// The penalty score for too many adjacent modules of the same color in the
/// rows (or columns) of a square grid: every 5 + N adjacent equal modules
/// contribute 3 + N points.
pub open spec fn adjacent_penalty(modules: Seq<Module>, width: int, is_horizontal: bool) -> int {
    adjacent_upto(modules, width, is_horizontal, width as nat)
}

/// Whether the 2×2 block at `(i, j)` of a square grid has four equal modules.
pub open spec fn block_at(modules: Seq<Module>, width: int, i: int, j: int) -> bool {
    let this = grid_get(modules, width, width, i, j);
    let right = grid_get(modules, width, width, i + 1, j);
    let bottom = grid_get(modules, width, width, i, j + 1);
    let bottom_right = grid_get(modules, width, width, i + 1, j + 1);
    this == right && right == bottom && bottom == bottom_right
}

/// The block penalty of the blocks `(i, 0)` to `(i, n - 1)`.
pub open spec fn block_row(modules: Seq<Module>, width: int, i: int, n: nat) -> int
    decreases n,
{
    if n == 0 {
        0
    } else {
        block_row(modules, width, i, (n - 1) as nat) + if block_at(modules, width, i, n - 1) {
            3int
        } else {
            0
        }
    }
}

/// The block penalty of the blocks `(0, _)` to `(n - 1, _)`.
pub open spec fn block_upto(modules: Seq<Module>, width: int, n: nat) -> int
    decreases n,
{
    if n == 0 {
        0
    } else {
        block_upto(modules, width, (n - 1) as nat) + block_row(
            modules,
            width,
            n - 1,
            (width - 1) as nat,
        )
    }
}

/// The penalty score for too many rectangles of the same color in a square
/// grid: every 2×2 block (overlapping ones counted) of equal modules
/// contributes 3 points.
pub open spec fn block_penalty(modules: Seq<Module>, width: int) -> int {
    block_upto(modules, width, (width - 1) as nat)
}

/// The colors of a finder pattern: `#.###.#`.
pub open spec fn finder_color(t: int) -> Color {
    if t == 1 || t == 5 {
        Color::Light
    } else {
        Color::Dark
    }
}

/// Whether the modules `j` to `j + 6` of the `i`-th row (or column) have the
/// colors of a finder pattern.
pub open spec fn is_finder_like(
    modules: Seq<Module>,
    width: int,
    is_horizontal: bool,
    i: int,
    j: int,
) -> bool {
    forall|t: int|
        0 <= t < 7 ==> (#[trigger] line_module(modules, width, width, is_horizontal, i, j + t)).spec_color()
            == finder_color(t)
}

/// Whether the `k`-th module of the `i`-th row (or column) lies on the grid
/// and is not light.
pub open spec fn dark_at(modules: Seq<Module>, width: int, is_horizontal: bool, i: int, k: int) -> bool {
    0 <= k < width && line_module(modules, width, width, is_horizontal, i, k).spec_color()
        != Color::Light
}

/// Whether one of the modules `a` to `b - 1` of the `i`-th row (or column)
/// lies on the grid and is not light.
pub open spec fn any_dark(
    modules: Seq<Module>,
    width: int,
    is_horizontal: bool,
    i: int,
    a: int,
    b: int,
) -> bool {
    exists|k: int| a <= k < b && #[trigger] dark_at(modules, width, is_horizontal, i, k)
}

/// Whether a finder-like pattern starts at module `j` of the `i`-th row (or
/// column) without four light modules on both sides.
pub open spec fn finder_hit(modules: Seq<Module>, width: int, is_horizontal: bool, i: int, j: int) -> bool {
    &&& is_finder_like(modules, width, is_horizontal, i, j)
    &&& (!any_dark(modules, width, is_horizontal, i, j - 4, j) || !any_dark(
        modules,
        width,
        is_horizontal,
        i,
        j + 7,
        j + 11,
    ))
}

/// The finder points of the patterns starting at modules `0` to `n - 1` of
/// the `i`-th row (or column).
pub open spec fn finder_row(modules: Seq<Module>, width: int, is_horizontal: bool, i: int, n: nat) -> int
    decreases n,
{
    if n == 0 {
        0
    } else {
        finder_row(modules, width, is_horizontal, i, (n - 1) as nat) + if finder_hit(
            modules,
            width,
            is_horizontal,
            i,
            n - 1,
        ) {
            40int
        } else {
            0
        }
    }
}

/// The number of positions where a finder pattern can start in a line.
pub open spec fn finder_starts(width: int) -> nat {
    if width >= 6 {
        (width - 6) as nat
    } else {
        0
    }
}

/// The finder points of the first `n` rows (or columns).
pub open spec fn finder_upto(modules: Seq<Module>, width: int, is_horizontal: bool, n: nat) -> int
    decreases n,
{
    if n == 0 {
        0
    } else {
        finder_upto(modules, width, is_horizontal, (n - 1) as nat) + finder_row(
            modules,
            width,
            is_horizontal,
            n - 1,
            finder_starts(width),
        )
    }
}

/// The finder points of a square grid: 40 for each pattern like `#.###.#`
/// in a row (or column) that is not bordered by four light modules on both
/// sides.
pub open spec fn finder_points(modules: Seq<Module>, width: int, is_horizontal: bool) -> int {
    finder_upto(modules, width, is_horizontal, width as nat)
}

/// The number of dark modules among the first `n` modules.
pub open spec fn dark_count(modules: Seq<Module>, n: nat) -> nat
    decreases n,
{
    if n == 0 {
        0
    } else {
        dark_count(modules, (n - 1) as nat) + if modules[n - 1].spec_color() == Color::Dark {
            1nat
        } else {
            0
        }
    }
}

/// The penalty score for an unbalanced dark/light ratio: the deviation of
/// the percentage of dark modules, doubled and rounded down, from 100.
pub open spec fn balance_penalty(modules: Seq<Module>) -> int {
    let ratio = dark_count(modules, modules.len()) * 200 / modules.len();
    if ratio >= 100 {
        ratio - 100
    } else {
        100 - ratio
    }
}

/// The number of light modules among the modules `1` to `n - 1` of the last
/// row (or the last column, if not `is_horizontal`).
pub open spec fn light_side_count(modules: Seq<Module>, width: int, is_horizontal: bool, n: nat) -> nat
    decreases n,
{
    if n <= 1 {
        0
    } else {
        let m = if is_horizontal {
            grid_get(modules, width, width, n - 1, -1)
        } else {
            grid_get(modules, width, width, -1, n - 1)
        };
        light_side_count(modules, width, is_horizontal, (n - 1) as nat) + if m.spec_color()
            == Color::Dark {
            0nat
        } else {
            1
        }
    }
}

/// The penalty score for too many light modules on the sides of a Micro QR
/// code: `h + v + 15 max(h, v)`, with `h` and `v` the light modules of the
/// last row and column, their first one left out.
pub open spec fn light_side_penalty(modules: Seq<Module>, width: int) -> int {
    let h = light_side_count(modules, width, true, width as nat);
    let v = light_side_count(modules, width, false, width as nat);
    (h + v + 15 * if h >= v {
        h
    } else {
        v
    }) as int
}

/// The total penalty score of a grid of the given version; a grid with a
/// higher score is less desirable.
pub open spec fn total_penalty(modules: Seq<Module>, width: int, version: Version) -> int {
    match version {
        Version::Normal(_) => adjacent_penalty(modules, width, true) + adjacent_penalty(
            modules,
            width,
            false,
        ) + block_penalty(modules, width) + (finder_points(modules, width, true) - 360) + (
        finder_points(modules, width, false) - 360) + balance_penalty(modules),
        Version::Micro(_) => light_side_penalty(modules, width),
        Version::RectMicro(_) => 0,
    }
}

/// Whether the scores of a QR code grid stay in the range of the score's
/// type: the block score and the finder points fit, and the finder points
/// count the three finder patterns themselves (nine times 40 points).
pub open spec fn penalty_in_range(modules: Seq<Module>, width: int, version: Version) -> bool {
    version is Normal ==> {
        &&& block_penalty(modules, width) <= u16::MAX
        &&& 360 <= finder_points(modules, width, true) <= u16::MAX
        &&& 360 <= finder_points(modules, width, false) <= u16::MAX
        &&& total_penalty(modules, width, version) <= u16::MAX
    }
}

/// The scan's score and run length stay within what `k` modules allow.
proof fn lemma_run_scan_bound(line: Seq<Module>, k: nat)
    ensures
        run_scan(line, k).1 >= 1,
        run_scan(line, k).2 >= 0,
        run_scan(line, k).1 + run_scan(line, k).2 <= k + 1,
    decreases k,
{
    if k > 0 {
        lemma_run_scan_bound(line, (k - 1) as nat);
    }
}

/// The adjacent penalty of `n` lines is at most `n` times the line length
/// plus one.
proof fn lemma_adjacent_upto_bound(modules: Seq<Module>, width: int, is_horizontal: bool, n: nat)
    requires
        width >= 0,
    ensures
        0 <= adjacent_upto(modules, width, is_horizontal, n) <= n * (width + 1),
    decreases n,
{
    if n > 0 {
        lemma_adjacent_upto_bound(modules, width, is_horizontal, (n - 1) as nat);
        lemma_run_scan_bound(line_with_end(modules, width, is_horizontal, n - 1), (width + 1) as nat);
        assert((n - 1) * (width + 1) + (width + 1) == n * (width + 1)) by (nonlinear_arith);
    }
}

/// Block scores only grow along a row.
proof fn lemma_block_row_mono(modules: Seq<Module>, width: int, i: int, n1: nat, n2: nat)
    requires
        n1 <= n2,
    ensures
        0 <= block_row(modules, width, i, n1) <= block_row(modules, width, i, n2),
    decreases n2,
{
    if n2 > n1 {
        lemma_block_row_mono(modules, width, i, n1, (n2 - 1) as nat);
    } else if n1 > 0 {
        lemma_block_row_mono(modules, width, i, (n1 - 1) as nat, (n1 - 1) as nat);
    }
}

/// Block scores only grow from row to row.
proof fn lemma_block_upto_mono(modules: Seq<Module>, width: int, n1: nat, n2: nat)
    requires
        n1 <= n2,
    ensures
        0 <= block_upto(modules, width, n1) <= block_upto(modules, width, n2),
    decreases n2,
{
    if n2 > n1 {
        lemma_block_upto_mono(modules, width, n1, (n2 - 1) as nat);
        lemma_block_row_mono(modules, width, n2 - 1, 0, (width - 1) as nat);
    } else if n1 > 0 {
        lemma_block_upto_mono(modules, width, (n1 - 1) as nat, (n1 - 1) as nat);
        lemma_block_row_mono(modules, width, n1 - 1, 0, (width - 1) as nat);
    }
}

/// Finder points only grow along a row.
proof fn lemma_finder_row_mono(
    modules: Seq<Module>,
    width: int,
    is_horizontal: bool,
    i: int,
    n1: nat,
    n2: nat,
)
    requires
        n1 <= n2,
    ensures
        0 <= finder_row(modules, width, is_horizontal, i, n1) <= finder_row(
            modules,
            width,
            is_horizontal,
            i,
            n2,
        ),
    decreases n2,
{
    if n2 > n1 {
        lemma_finder_row_mono(modules, width, is_horizontal, i, n1, (n2 - 1) as nat);
    } else if n1 > 0 {
        lemma_finder_row_mono(modules, width, is_horizontal, i, (n1 - 1) as nat, (n1 - 1) as nat);
    }
}

/// Finder points only grow from row to row.
proof fn lemma_finder_upto_mono(
    modules: Seq<Module>,
    width: int,
    is_horizontal: bool,
    n1: nat,
    n2: nat,
)
    requires
        n1 <= n2,
    ensures
        0 <= finder_upto(modules, width, is_horizontal, n1) <= finder_upto(
            modules,
            width,
            is_horizontal,
            n2,
        ),
    decreases n2,
{
    if n2 > n1 {
        lemma_finder_upto_mono(modules, width, is_horizontal, n1, (n2 - 1) as nat);
        lemma_finder_row_mono(modules, width, is_horizontal, n2 - 1, 0, finder_starts(width));
    } else if n1 > 0 {
        lemma_finder_upto_mono(modules, width, is_horizontal, (n1 - 1) as nat, (n1 - 1) as nat);
        lemma_finder_row_mono(modules, width, is_horizontal, n1 - 1, 0, finder_starts(width));
    }
}

/// At most `n` of the first `n` modules are dark.
proof fn lemma_dark_count_bound(modules: Seq<Module>, n: nat)
    ensures
        dark_count(modules, n) <= n,
    decreases n,
{
    if n > 0 {
        lemma_dark_count_bound(modules, (n - 1) as nat);
    }
}

/// At most `n - 1` of the modules `1` to `n - 1` of a side are light.
proof fn lemma_light_side_bound(modules: Seq<Module>, width: int, is_horizontal: bool, n: nat)
    ensures
        light_side_count(modules, width, is_horizontal, n) <= if n >= 1 {
            n - 1
        } else {
            0
        },
    decreases n,
{
    if n > 1 {
        lemma_light_side_bound(modules, width, is_horizontal, (n - 1) as nat);
    }
}

/// The adjacent penalty of a grid is not negative.
pub proof fn lemma_adjacent_nonneg(modules: Seq<Module>, width: int, is_horizontal: bool)
    requires
        width >= 0,
    ensures
        adjacent_penalty(modules, width, is_horizontal) >= 0,
{
    lemma_adjacent_upto_bound(modules, width, is_horizontal, width as nat);
}

/// The balance penalty score is at most 100, reached when all modules are
/// of one color.
pub proof fn lemma_balance_at_most_100(modules: Seq<Module>)
    requires
        modules.len() > 0,
    ensures
        0 <= balance_penalty(modules) <= 100,
{
    let n = modules.len();
    let d = dark_count(modules, n);
    lemma_dark_count_bound(modules, n);
    assert(d * 200 / n <= 200) by (nonlinear_arith)
        requires
            d <= n,
            n > 0,
    ;
}

/// The transpose of a square grid `width` wide: its module at `(x, y)` is the
/// module of `modules` at `(y, x)`, so its rows are the columns of `modules`.
pub open spec fn transposed(modules: Seq<Module>, width: int) -> Seq<Module> {
    Seq::new(modules.len(), |i: int| modules[(i % width) * width + i / width])
}

/// The module of the transpose at `(x, y)` is the module of the grid at
/// `(y, x)`.
pub proof fn lemma_transposed_at(modules: Seq<Module>, width: int, x: int, y: int)
    requires
        modules.len() == width * width,
        0 <= x < width,
        0 <= y < width,
    ensures
        transposed(modules, width)[y * width + x] == modules[x * width + y],
        0 <= y * width + x < modules.len(),
        0 <= x * width + y < modules.len(),
{
    assert(0 <= y * width + x < width * width && 0 <= x * width + y < width * width)
        by (nonlinear_arith)
        requires
            0 <= x < width,
            0 <= y < width,
    ;
    vstd::arithmetic::div_mod::lemma_fundamental_div_mod_converse(y * width + x, width, y, x);
}

/// The `i`-th column of a square grid, as the adjacent score reads it, is the
/// `i`-th row of its transpose.
proof fn lemma_column_is_transposed_row(modules: Seq<Module>, width: int, i: int)
    requires
        modules.len() == width * width,
        0 <= i < width,
    ensures
        line_with_end(modules, width, false, i) == line_with_end(
            transposed(modules, width),
            width,
            true,
            i,
        ),
{
    let a = line_with_end(modules, width, false, i);
    let b = line_with_end(transposed(modules, width), width, true, i);
    assert forall|j: int| 0 <= j < a.len() implies a[j] == b[j] by {
        if j < width {
            lemma_transposed_at(modules, width, j, i);
        }
    }
    assert(a =~= b);
}

/// The adjacent score of the first `n` columns of a square grid is that of
/// the first `n` rows of its transpose.
proof fn lemma_adjacent_upto_transposed(modules: Seq<Module>, width: int, n: nat)
    requires
        modules.len() == width * width,
        n <= width,
    ensures
        adjacent_upto(modules, width, false, n) == adjacent_upto(
            transposed(modules, width),
            width,
            true,
            n,
        ),
    decreases n,
{
    if n > 0 {
        lemma_adjacent_upto_transposed(modules, width, (n - 1) as nat);
        lemma_column_is_transposed_row(modules, width, n - 1);
    }
}

/// The adjacent score of the columns of a square grid is the adjacent score
/// of the rows of its transpose.
pub proof fn lemma_adjacent_columns_transposed(modules: Seq<Module>, width: int)
    requires
        width >= 0,
        modules.len() == width * width,
    ensures
        adjacent_penalty(modules, width, false) == adjacent_penalty(
            transposed(modules, width),
            width,
            true,
        ),
{
    lemma_adjacent_upto_transposed(modules, width, width as nat);
}

/// The `k`-th module of the `i`-th column of a square grid is the `k`-th
/// module of the `i`-th row of its transpose.
proof fn lemma_line_module_transposed(modules: Seq<Module>, width: int, i: int, k: int)
    requires
        modules.len() == width * width,
        0 <= i < width,
        0 <= k < width,
    ensures
        line_module(modules, width, width, false, i, k) == line_module(
            transposed(modules, width),
            width,
            width,
            true,
            i,
            k,
        ),
{
    lemma_transposed_at(modules, width, k, i);
}

/// A finder-like pattern starts at module `j` of the `i`-th column of a
/// square grid exactly when one starts there in the `i`-th row of its
/// transpose.
proof fn lemma_finder_hit_transposed(modules: Seq<Module>, width: int, i: int, j: int)
    requires
        modules.len() == width * width,
        0 <= i < width,
        0 <= j,
        j + 7 <= width,
    ensures
        finder_hit(modules, width, false, i, j) == finder_hit(
            transposed(modules, width),
            width,
            true,
            i,
            j,
        ),
{
    let t = transposed(modules, width);
    if is_finder_like(modules, width, false, i, j) {
        assert forall|s: int| 0 <= s < 7 implies (#[trigger] line_module(
            t,
            width,
            width,
            true,
            i,
            j + s,
        )).spec_color() == finder_color(s) by {
            lemma_line_module_transposed(modules, width, i, j + s);
            assert(line_module(modules, width, width, false, i, j + s).spec_color() == finder_color(
                s,
            ));
        }
    }
    if is_finder_like(t, width, true, i, j) {
        assert forall|s: int| 0 <= s < 7 implies (#[trigger] line_module(
            modules,
            width,
            width,
            false,
            i,
            j + s,
        )).spec_color() == finder_color(s) by {
            lemma_line_module_transposed(modules, width, i, j + s);
            assert(line_module(t, width, width, true, i, j + s).spec_color() == finder_color(s));
        }
    }
    lemma_any_dark_transposed(modules, width, i, j - 4, j);
    lemma_any_dark_transposed(modules, width, i, j + 7, j + 11);
}

/// A module of the `i`-th column of a square grid is dark exactly when that
/// of the `i`-th row of its transpose is.
proof fn lemma_any_dark_transposed(modules: Seq<Module>, width: int, i: int, a: int, b: int)
    requires
        modules.len() == width * width,
        0 <= i < width,
    ensures
        any_dark(modules, width, false, i, a, b) == any_dark(
            transposed(modules, width),
            width,
            true,
            i,
            a,
            b,
        ),
{
    let t = transposed(modules, width);
    if any_dark(modules, width, false, i, a, b) {
        let k = choose|k: int| a <= k < b && #[trigger] dark_at(modules, width, false, i, k);
        lemma_line_module_transposed(modules, width, i, k);
        assert(dark_at(t, width, true, i, k));
    }
    if any_dark(t, width, true, i, a, b) {
        let k = choose|k: int| a <= k < b && #[trigger] dark_at(t, width, true, i, k);
        lemma_line_module_transposed(modules, width, i, k);
        assert(dark_at(modules, width, false, i, k));
    }
}

/// The finder points of the first `n` starts of the `i`-th column of a square
/// grid are those of the `i`-th row of its transpose.
proof fn lemma_finder_row_transposed(modules: Seq<Module>, width: int, i: int, n: nat)
    requires
        modules.len() == width * width,
        0 <= i < width,
        n <= finder_starts(width),
    ensures
        finder_row(modules, width, false, i, n) == finder_row(
            transposed(modules, width),
            width,
            true,
            i,
            n,
        ),
    decreases n,
{
    if n > 0 {
        lemma_finder_row_transposed(modules, width, i, (n - 1) as nat);
        lemma_finder_hit_transposed(modules, width, i, n - 1);
    }
}

/// The finder points of the first `n` columns of a square grid are those of
/// the first `n` rows of its transpose.
proof fn lemma_finder_upto_transposed(modules: Seq<Module>, width: int, n: nat)
    requires
        modules.len() == width * width,
        n <= width,
    ensures
        finder_upto(modules, width, false, n) == finder_upto(
            transposed(modules, width),
            width,
            true,
            n,
        ),
    decreases n,
{
    if n > 0 {
        lemma_finder_upto_transposed(modules, width, (n - 1) as nat);
        lemma_finder_row_transposed(modules, width, n - 1, finder_starts(width));
    }
}

/// The finder points of the columns of a square grid are the finder points
/// of the rows of its transpose.
pub proof fn lemma_finder_columns_transposed(modules: Seq<Module>, width: int)
    requires
        width >= 0,
        modules.len() == width * width,
    ensures
        finder_points(modules, width, false) == finder_points(
            transposed(modules, width),
            width,
            true,
        ),
{
    lemma_finder_upto_transposed(modules, width, width as nat);
}

/// The total penalty of a QR code grid scores its runs of equal modules both
/// along its rows and along its columns (the rows of its transpose), adds the
/// 2×2 blocks, the finder-like patterns of its rows and columns beyond the
/// three finder patterns themselves (360 points each way), and the dark/light
/// balance.
pub proof fn lemma_total_penalty_rows_and_columns(
    modules: Seq<Module>,
    width: int,
    version: Version,
)
    requires
        version is Normal,
        width >= 0,
        modules.len() == width * width,
    ensures
        total_penalty(modules, width, version) == adjacent_penalty(modules, width, true)
            + adjacent_penalty(transposed(modules, width), width, true) + block_penalty(
            modules,
            width,
        ) + (finder_points(modules, width, true) - 360) + (finder_points(
            transposed(modules, width),
            width,
            true,
        ) - 360) + balance_penalty(modules),
{
    lemma_adjacent_columns_transposed(modules, width);
    lemma_finder_columns_transposed(modules, width);
}

/// Transposing a square grid twice gives it back.
pub proof fn lemma_transposed_twice(modules: Seq<Module>, width: int)
    requires
        width >= 0,
        modules.len() == width * width,
    ensures
        transposed(transposed(modules, width), width) == modules,
{
    let t = transposed(modules, width);
    let tt = transposed(t, width);
    assert forall|i: int| 0 <= i < modules.len() implies tt[i] == modules[i] by {
        let x = i % width;
        let y = i / width;
        if width == 0 {
            assert(width * width == 0);
        }
        assert(width > 0);
        vstd::arithmetic::div_mod::lemma_fundamental_div_mod(i, width);
        assert(0 <= y < width) by (nonlinear_arith)
            requires
                0 <= i < width * width,
                y == i / width,
                width > 0,
        ;
        assert(i == y * width + x) by (nonlinear_arith)
            requires
                i == width * (i / width) + i % width,
                y == i / width,
                x == i % width,
        ;
        lemma_transposed_at(t, width, x, y);
        lemma_transposed_at(modules, width, y, x);
    }
    assert(tt =~= modules);
}

/// The sum of `f(i, 0)` to `f(i, n - 1)`.
pub open spec fn row_sum(f: spec_fn(int, int) -> int, i: int, n: nat) -> int
    decreases n,
{
    if n == 0 {
        0
    } else {
        row_sum(f, i, (n - 1) as nat) + f(i, n - 1)
    }
}

/// The sum of `f(0, j)` to `f(n - 1, j)`.
pub open spec fn column_sum(f: spec_fn(int, int) -> int, j: int, n: nat) -> int
    decreases n,
{
    if n == 0 {
        0
    } else {
        column_sum(f, j, (n - 1) as nat) + f(n - 1, j)
    }
}

/// The sum of `f(i, j)` over `0 <= i < n` and `0 <= j < k`.
pub open spec fn grid_sum(f: spec_fn(int, int) -> int, n: nat, k: nat) -> int
    decreases n,
{
    if n == 0 {
        0
    } else {
        grid_sum(f, (n - 1) as nat, k) + row_sum(f, n - 1, k)
    }
}

/// Sums of functions that agree on the grid are equal.
proof fn lemma_grid_sum_congruent(
    f: spec_fn(int, int) -> int,
    g: spec_fn(int, int) -> int,
    n: nat,
    k: nat,
)
    requires
        forall|i: int, j: int| 0 <= i < n && 0 <= j < k ==> #[trigger] f(i, j) == g(i, j),
    ensures
        grid_sum(f, n, k) == grid_sum(g, n, k),
    decreases n,
{
    if n > 0 {
        lemma_grid_sum_congruent(f, g, (n - 1) as nat, k);
        lemma_row_sum_congruent(f, g, n - 1, k);
    }
}

/// Row sums of functions that agree on the row are equal.
proof fn lemma_row_sum_congruent(f: spec_fn(int, int) -> int, g: spec_fn(int, int) -> int, i: int, k: nat)
    requires
        forall|j: int| 0 <= j < k ==> #[trigger] f(i, j) == g(i, j),
    ensures
        row_sum(f, i, k) == row_sum(g, i, k),
    decreases k,
{
    if k > 0 {
        lemma_row_sum_congruent(f, g, i, (k - 1) as nat);
    }
}

/// A grid one column wider adds the sum of that column.
proof fn lemma_grid_sum_add_column(f: spec_fn(int, int) -> int, n: nat, k: nat)
    ensures
        grid_sum(f, n, k + 1) == grid_sum(f, n, k) + column_sum(f, k as int, n),
    decreases n,
{
    if n > 0 {
        lemma_grid_sum_add_column(f, (n - 1) as nat, k);
    }
}

/// A column of `f` is a row of `f` with its arguments swapped.
proof fn lemma_column_is_swapped_row(f: spec_fn(int, int) -> int, j: int, n: nat)
    ensures
        column_sum(f, j, n) == row_sum(|a: int, b: int| f(b, a), j, n),
    decreases n,
{
    if n > 0 {
        lemma_column_is_swapped_row(f, j, (n - 1) as nat);
    }
}

/// A grid of no columns sums to zero.
proof fn lemma_grid_sum_no_columns(f: spec_fn(int, int) -> int, n: nat)
    ensures
        grid_sum(f, n, 0) == 0,
    decreases n,
{
    if n > 0 {
        lemma_grid_sum_no_columns(f, (n - 1) as nat);
    }
}

/// Summing over a grid row by row or column by column gives the same.
pub proof fn lemma_grid_sum_swap(f: spec_fn(int, int) -> int, n: nat, k: nat)
    ensures
        grid_sum(f, n, k) == grid_sum(|a: int, b: int| f(b, a), k, n),
    decreases k,
{
    let g = |a: int, b: int| f(b, a);
    if k == 0 {
        lemma_grid_sum_no_columns(f, n);
    } else {
        let k1 = (k - 1) as nat;
        lemma_grid_sum_swap(f, n, k1);
        lemma_grid_sum_add_column(f, n, k1);
        lemma_column_is_swapped_row(f, k1 as int, n);
    }
}

/// The block score of a 2×2 block at `(i, j)`.
pub open spec fn block_points(modules: Seq<Module>, width: int) -> spec_fn(int, int) -> int {
    |i: int, j: int|
        if block_at(modules, width, i, j) {
            3int
        } else {
            0int
        }
}

proof fn lemma_block_row_sum(modules: Seq<Module>, width: int, i: int, n: nat)
    ensures
        block_row(modules, width, i, n) == row_sum(block_points(modules, width), i, n),
    decreases n,
{
    if n > 0 {
        lemma_block_row_sum(modules, width, i, (n - 1) as nat);
    }
}

proof fn lemma_block_upto_sum(modules: Seq<Module>, width: int, n: nat)
    requires
        width >= 1,
    ensures
        block_upto(modules, width, n) == grid_sum(
            block_points(modules, width),
            n,
            (width - 1) as nat,
        ),
    decreases n,
{
    if n > 0 {
        lemma_block_upto_sum(modules, width, (n - 1) as nat);
        lemma_block_row_sum(modules, width, n - 1, (width - 1) as nat);
    }
}

/// The 2×2 block score of a square grid is that of its transpose.
pub proof fn lemma_block_penalty_transposed(modules: Seq<Module>, width: int)
    requires
        width >= 1,
        modules.len() == width * width,
    ensures
        block_penalty(transposed(modules, width), width) == block_penalty(modules, width),
{
    let t = transposed(modules, width);
    let n = (width - 1) as nat;
    let fm = block_points(modules, width);
    let ft = block_points(t, width);
    lemma_block_upto_sum(modules, width, n);
    lemma_block_upto_sum(t, width, n);
    lemma_grid_sum_swap(fm, n, n);
    assert forall|i: int, j: int| 0 <= i < n && 0 <= j < n implies #[trigger] ft(i, j) == (|
        a: int,
        b: int,
    | fm(b, a))(i, j) by {
        lemma_transposed_at(modules, width, i, j);
        lemma_transposed_at(modules, width, i + 1, j);
        lemma_transposed_at(modules, width, i, j + 1);
        lemma_transposed_at(modules, width, i + 1, j + 1);
    }
    lemma_grid_sum_congruent(ft, |a: int, b: int| fm(b, a), n, n);
}

/// Whether the module at index `y × width + x` is dark, as 1 or 0.
pub open spec fn dark_points(modules: Seq<Module>, width: int) -> spec_fn(int, int) -> int {
    |y: int, x: int|
        if modules[y * width + x].spec_color() == Color::Dark {
            1int
        } else {
            0int
        }
}

proof fn lemma_dark_count_row(modules: Seq<Module>, width: int, y: nat, k: nat)
    requires
        width >= 0,
        k <= width,
    ensures
        dark_count(modules, (y * width + k) as nat) == dark_count(modules, (y * width) as nat)
            + row_sum(dark_points(modules, width), y as int, k),
    decreases k,
{
    assert(y * width >= 0) by (nonlinear_arith)
        requires
            width >= 0,
    ;
    if k > 0 {
        lemma_dark_count_row(modules, width, y, (k - 1) as nat);
    }
}

proof fn lemma_dark_count_grid(modules: Seq<Module>, width: int, n: nat)
    requires
        width >= 0,
    ensures
        dark_count(modules, (n * width) as nat) == grid_sum(
            dark_points(modules, width),
            n,
            width as nat,
        ),
    decreases n,
{
    if n > 0 {
        let n1 = (n - 1) as nat;
        lemma_dark_count_grid(modules, width, n1);
        lemma_dark_count_row(modules, width, n1, width as nat);
        assert(n1 * width + width == n * width) by (nonlinear_arith)
            requires
                n1 == n - 1,
        ;
        assert(n1 * width >= 0) by (nonlinear_arith)
            requires
                width >= 0,
        ;
        assert((n * width) as nat == (n1 * width + width) as nat);
    } else {
        assert(n * width == 0) by (nonlinear_arith)
            requires
                n == 0,
        ;
    }
}

/// A square grid and its transpose have as many dark modules.
pub proof fn lemma_dark_count_transposed(modules: Seq<Module>, width: int)
    requires
        width >= 0,
        modules.len() == width * width,
    ensures
        dark_count(transposed(modules, width), modules.len()) == dark_count(
            modules,
            modules.len(),
        ),
{
    let t = transposed(modules, width);
    let w = width as nat;
    let fm = dark_points(modules, width);
    let ft = dark_points(t, width);
    lemma_dark_count_grid(modules, width, w);
    lemma_dark_count_grid(t, width, w);
    lemma_grid_sum_swap(fm, w, w);
    assert forall|i: int, j: int| 0 <= i < w && 0 <= j < w implies #[trigger] ft(i, j) == (|
        a: int,
        b: int,
    | fm(b, a))(i, j) by {
        lemma_transposed_at(modules, width, j, i);
    }
    lemma_grid_sum_congruent(ft, |a: int, b: int| fm(b, a), w, w);
}

/// The total penalty of a QR code grid does not change when its rows and
/// columns are swapped: runs, blocks, finder-like patterns and the dark/light
/// balance are scored alike along both directions.
pub proof fn lemma_total_penalty_transposed(modules: Seq<Module>, width: int, version: Version)
    requires
        version is Normal,
        width >= 1,
        modules.len() == width * width,
    ensures
        total_penalty(transposed(modules, width), width, version) == total_penalty(
            modules,
            width,
            version,
        ),
{
    let t = transposed(modules, width);
    lemma_transposed_twice(modules, width);
    lemma_adjacent_columns_transposed(modules, width);
    lemma_adjacent_columns_transposed(t, width);
    lemma_finder_columns_transposed(modules, width);
    lemma_finder_columns_transposed(t, width);
    lemma_block_penalty_transposed(modules, width);
    lemma_dark_count_transposed(modules, width);
}

/// The colors of a finder pattern, `#.###.#`.
pub const FINDER_PATTERN: [Color; 7] = [
    Color::Dark,
    Color::Light,
    Color::Dark,
    Color::Dark,
    Color::Dark,
    Color::Light,
    Color::Dark,
];

impl Canvas {
    /// Returns the `j`-th module of the `i`-th row (or column).
    fn line_get(&self, is_horizontal: bool, i: i16, j: i16) -> (r: Module)
        requires
            self.wf(),
            0 <= i < self.spec_width(),
            0 <= j < self.spec_width(),
            self.spec_width() == self.spec_height(),
        ensures
            r == line_module(
                self.spec_modules(),
                self.spec_width(),
                self.spec_height(),
                is_horizontal,
                i as int,
                j as int,
            ),
    {
        if is_horizontal {
            self.get(j, i)
        } else {
            self.get(i, j)
        }
    }

    /// Computes the penalty score for having too many adjacent modules with the
    /// same color.
    ///
    /// Every 5+N adjacent modules in the same column/row having the same color
    /// will contribute 3+N points.
    pub fn compute_adjacent_penalty_score(&self, is_horizontal: bool) -> (r: u16)
        requires
            self.wf(),
            self.spec_width() == self.spec_height(),
        ensures
            r == adjacent_penalty(self.spec_modules(), self.spec_width(), is_horizontal),
    {
        let ghost m = self.spec_modules();
        let w = self.width();
        proof {
            super::grid::lemma_size_bound(self.spec_version());
        }
        let ghost wi = w as int;
        let mut total_score: u16 = 0;
        let mut i: i16 = 0;
        while i < w
            invariant
                self.wf(),
                m == self.spec_modules(),
                w == self.spec_width(),
                wi == w,
                self.spec_width() == self.spec_height(),
                1 <= w <= 177,
                0 <= i <= w,
                total_score == adjacent_upto(m, wi, is_horizontal, i as nat),
            decreases w - i,
        {
            let ghost line = line_with_end(m, wi, is_horizontal, i as int);
            let mut last_color = Module::Empty;
            let mut consecutive_len: u16 = 1;
            let mut line_score: u16 = 0;
            let mut j: i16 = 0;
            while j <= w
                invariant
                    self.wf(),
                    m == self.spec_modules(),
                    w == self.spec_width(),
                    wi == w,
                    self.spec_width() == self.spec_height(),
                    1 <= w <= 177,
                    0 <= i < w,
                    0 <= j <= w + 1,
                    line == line_with_end(m, wi, is_horizontal, i as int),
                    (last_color, consecutive_len as int, line_score as int) == run_scan(
                        line,
                        j as nat,
                    ),
                decreases w + 1 - j,
            {
                proof {
                    lemma_run_scan_bound(line, j as nat);
                }
                let color = if j < w {
                    self.line_get(is_horizontal, i, j)
                } else {
                    Module::Empty
                };
                if color == last_color {
                    consecutive_len = consecutive_len + 1;
                } else {
                    last_color = color;
                    if consecutive_len >= 5 {
                        line_score = line_score + (consecutive_len - 2);
                    }
                    consecutive_len = 1;
                }
                j = j + 1;
            }
            proof {
                lemma_adjacent_upto_bound(m, wi, is_horizontal, (i + 1) as nat);
                assert((i + 1) * (wi + 1) <= 177 * 178) by (nonlinear_arith)
                    requires
                        i + 1 <= 177,
                        wi <= 177,
                        i >= 0,
                ;
            }
            total_score = total_score + line_score;
            i = i + 1;
        }
        total_score
    }

    /// Computes the penalty score for having too many rectangles with the same
    /// color.
    ///
    /// Every 2×2 blocks (with overlapping counted) having the same color will
    /// contribute 3 points.
    pub fn compute_block_penalty_score(&self) -> (r: u16)
        requires
            self.wf(),
            self.spec_width() == self.spec_height(),
            block_penalty(self.spec_modules(), self.spec_width()) <= u16::MAX,
        ensures
            r == block_penalty(self.spec_modules(), self.spec_width()),
    {
        let ghost m = self.spec_modules();
        let w = self.width();
        let ghost wi = w as int;
        proof {
            super::grid::lemma_size_bound(self.spec_version());
        }
        let mut total_score: u16 = 0;
        let mut i: i16 = 0;
        while i < w - 1
            invariant
                self.wf(),
                m == self.spec_modules(),
                w == self.spec_width(),
                wi == w,
                self.spec_width() == self.spec_height(),
                1 <= w <= 177,
                0 <= i <= w - 1,
                block_penalty(m, wi) <= u16::MAX,
                total_score == block_upto(m, wi, i as nat),
            decreases w - 1 - i,
        {
            let mut j: i16 = 0;
            while j < w - 1
                invariant
                    self.wf(),
                    m == self.spec_modules(),
                    w == self.spec_width(),
                    wi == w,
                    self.spec_width() == self.spec_height(),
                    1 <= w <= 177,
                    0 <= i < w - 1,
                    0 <= j <= w - 1,
                    block_penalty(m, wi) <= u16::MAX,
                    total_score == block_upto(m, wi, i as nat) + block_row(m, wi, i as int, j as nat),
                decreases w - 1 - j,
            {
                let this = self.get(i, j);
                let right = self.get(i + 1, j);
                let bottom = self.get(i, j + 1);
                let bottom_right = self.get(i + 1, j + 1);
                proof {
                    lemma_block_row_mono(m, wi, i as int, (j + 1) as nat, (wi - 1) as nat);
                    lemma_block_upto_mono(m, wi, (i + 1) as nat, (wi - 1) as nat);
                }
                if this == right && right == bottom && bottom == bottom_right {
                    total_score = total_score + 3;
                }
                j = j + 1;
            }
            i = i + 1;
        }
        total_score
    }

    /// Whether the modules `j` to `j + 6` of the `i`-th row (or column) have
    /// the colors of a finder pattern.
    fn is_finder_like_at(&self, is_horizontal: bool, i: i16, j: i16) -> (r: bool)
        requires
            self.wf(),
            self.spec_width() == self.spec_height(),
            0 <= i < self.spec_width(),
            0 <= j,
            j + 7 <= self.spec_width(),
        ensures
            r == is_finder_like(self.spec_modules(), self.spec_width(), is_horizontal, i as int, j as int),
    {
        let ghost m = self.spec_modules();
        let ghost wi = self.spec_width();
        let mut t: i16 = 0;
        while t < 7
            invariant
                self.wf(),
                m == self.spec_modules(),
                wi == self.spec_width(),
                self.spec_width() == self.spec_height(),
                0 <= i < wi,
                0 <= j,
                j + 7 <= wi,
                0 <= t <= 7,
                forall|t2: int|
                    0 <= t2 < t ==> (#[trigger] line_module(m, wi, wi, is_horizontal, i as int, j + t2)).spec_color()
                        == finder_color(t2),
            decreases 7 - t,
        {
            let color = Color::from(self.line_get(is_horizontal, i, j + t));
            if color != FINDER_PATTERN[t as usize] {
                return false;
            }
            t = t + 1;
        }
        true
    }

    /// Whether one of the modules `a` to `b - 1` of the `i`-th row (or
    /// column) lies on the canvas and is not light.
    fn any_dark_in(&self, is_horizontal: bool, i: i16, a: i16, b: i16) -> (r: bool)
        requires
            self.wf(),
            self.spec_width() == self.spec_height(),
            0 <= i < self.spec_width(),
            a <= b,
        ensures
            r == any_dark(self.spec_modules(), self.spec_width(), is_horizontal, i as int, a as int, b as int),
    {
        let ghost m = self.spec_modules();
        let ghost wi = self.spec_width();
        let w = self.width();
        let mut k: i16 = a;
        while k < b
            invariant
                self.wf(),
                m == self.spec_modules(),
                wi == self.spec_width(),
                w == wi,
                self.spec_width() == self.spec_height(),
                0 <= i < wi,
                a <= k <= b,
                forall|k2: int| a <= k2 < k ==> !#[trigger] dark_at(m, wi, is_horizontal, i as int, k2),
            decreases b - k,
        {
            if 0 <= k && k < w {
                if Color::from(self.line_get(is_horizontal, i, k)) != Color::Light {
                    assert(dark_at(m, wi, is_horizontal, i as int, k as int));
                    return true;
                }
            }
            k = k + 1;
        }
        false
    }

    /// Computes the penalty score for having a pattern similar to the finder
    /// pattern in the wrong place.
    ///
    /// Every pattern that looks like `#.###.#....` in any orientation will add
    /// 40 points; the points of the three finder patterns themselves are
    /// taken off.
    pub fn compute_finder_penalty_score(&self, is_horizontal: bool) -> (r: u16)
        requires
            self.wf(),
            self.spec_width() == self.spec_height(),
            360 <= finder_points(self.spec_modules(), self.spec_width(), is_horizontal) <= u16::MAX,
        ensures
            r == finder_points(self.spec_modules(), self.spec_width(), is_horizontal) - 360,
    {
        let ghost m = self.spec_modules();
        let w = self.width();
        let ghost wi = w as int;
        proof {
            super::grid::lemma_size_bound(self.spec_version());
        }
        let mut total_score: u16 = 0;
        let mut i: i16 = 0;
        while i < w
            invariant
                self.wf(),
                m == self.spec_modules(),
                w == self.spec_width(),
                wi == w,
                self.spec_width() == self.spec_height(),
                1 <= w <= 177,
                0 <= i <= w,
                finder_points(m, wi, is_horizontal) <= u16::MAX,
                total_score == finder_upto(m, wi, is_horizontal, i as nat),
            decreases w - i,
        {
            let mut j: i16 = 0;
            while j < w - 6
                invariant
                    self.wf(),
                    m == self.spec_modules(),
                    w == self.spec_width(),
                    wi == w,
                    self.spec_width() == self.spec_height(),
                    1 <= w <= 177,
                    0 <= i < w,
                    0 <= j,
                    j <= w - 6 || j == 0,
                    finder_points(m, wi, is_horizontal) <= u16::MAX,
                    total_score == finder_upto(m, wi, is_horizontal, i as nat) + finder_row(
                        m,
                        wi,
                        is_horizontal,
                        i as int,
                        j as nat,
                    ),
                decreases w - 6 - j,
            {
                proof {
                    lemma_finder_row_mono(
                        m,
                        wi,
                        is_horizontal,
                        i as int,
                        (j + 1) as nat,
                        finder_starts(wi),
                    );
                    lemma_finder_upto_mono(m, wi, is_horizontal, (i + 1) as nat, wi as nat);
                }
                if self.is_finder_like_at(is_horizontal, i, j) {
                    if !self.any_dark_in(is_horizontal, i, j - 4, j) || !self.any_dark_in(
                        is_horizontal,
                        i,
                        j + 7,
                        j + 11,
                    ) {
                        total_score = total_score + 40;
                    }
                }
                j = j + 1;
            }
            proof {
                if wi < 6 {
                    assert(j == 0);
                }
            }
            i = i + 1;
        }
        total_score - 360
    }

    /// Computes the penalty score for having an unbalanced dark/light ratio.
    ///
    /// The score is given linearly by the deviation from a 50% ratio of dark
    /// modules. The highest possible score is 100.
    pub fn compute_balance_penalty_score(&self) -> (r: u16)
        requires
            self.wf(),
        ensures
            r == balance_penalty(self.spec_modules()),
    {
        let modules = self.modules();
        let ghost m = self.spec_modules();
        proof {
            super::grid::lemma_size_bound(self.spec_version());
            assert(m.len() <= 177 * 177) by (nonlinear_arith)
                requires
                    m.len() == self.spec_width() * self.spec_height(),
                    1 <= self.spec_width() <= 177,
                    1 <= self.spec_height() <= 177,
            ;
            assert(m.len() >= 1) by (nonlinear_arith)
                requires
                    m.len() == self.spec_width() * self.spec_height(),
                    1 <= self.spec_width(),
                    1 <= self.spec_height(),
            ;
        }
        let total_modules = modules.len();
        let mut dark_modules: usize = 0;
        let mut i: usize = 0;
        while i < total_modules
            invariant
                modules@ == m,
                total_modules == m.len(),
                m.len() <= 177 * 177,
                i <= total_modules,
                dark_modules == dark_count(m, i as nat),
            decreases total_modules - i,
        {
            proof {
                lemma_dark_count_bound(m, i as nat);
            }
            if modules[i].is_dark() {
                dark_modules = dark_modules + 1;
            }
            i = i + 1;
        }
        proof {
            lemma_dark_count_bound(m, total_modules as nat);
            assert((dark_modules * 200) as int / (total_modules as int) <= 200) by (nonlinear_arith)
                requires
                    dark_modules <= total_modules,
                    total_modules >= 1,
            ;
        }
        let ratio = dark_modules * 200 / total_modules;
        if ratio >= 100 {
            (ratio - 100) as u16
        } else {
            (100 - ratio) as u16
        }
    }

    /// Computes the penalty score for having too many light modules on the
    /// sides.
    ///
    /// This penalty score is exclusive to Micro QR code.
    ///
    /// Note that the standard gives the formula for *efficiency* score, which
    /// has the inverse meaning of this method, but it is very easy to convert
    /// between the two (this score is (16×width − standard-score)).
    pub fn compute_light_side_penalty_score(&self) -> (r: u16)
        requires
            self.wf(),
            self.spec_width() == self.spec_height(),
        ensures
            r == light_side_penalty(self.spec_modules(), self.spec_width()),
    {
        let ghost m = self.spec_modules();
        let w = self.width();
        let ghost wi = w as int;
        proof {
            super::grid::lemma_size_bound(self.spec_version());
        }
        let mut h: u16 = 0;
        let mut v: u16 = 0;
        let mut j: i16 = 1;
        while j < w
            invariant
                self.wf(),
                m == self.spec_modules(),
                w == self.spec_width(),
                wi == w,
                self.spec_width() == self.spec_height(),
                1 <= w <= 177,
                1 <= j <= w,
                h == light_side_count(m, wi, true, j as nat),
                v == light_side_count(m, wi, false, j as nat),
            decreases w - j,
        {
            proof {
                lemma_light_side_bound(m, wi, true, j as nat);
                lemma_light_side_bound(m, wi, false, j as nat);
            }
            if !self.get(j, -1).is_dark() {
                h = h + 1;
            }
            if !self.get(-1, j).is_dark() {
                v = v + 1;
            }
            j = j + 1;
        }
        proof {
            lemma_light_side_bound(m, wi, true, wi as nat);
            lemma_light_side_bound(m, wi, false, wi as nat);
        }
        let larger = if h >= v {
            h
        } else {
            v
        };
        h + v + 15 * larger
    }

    /// Computes the total penalty scores. A QR code having higher points is
    /// less desirable.
    pub fn compute_total_penalty_scores(&self) -> (r: u16)
        requires
            self.wf(),
            penalty_in_range(self.spec_modules(), self.spec_width(), self.spec_version()),
        ensures
            r == total_penalty(self.spec_modules(), self.spec_width(), self.spec_version()),
    {
        let ghost m = self.spec_modules();
        let ghost wi = self.spec_width();
        proof {
            super::grid::lemma_size_bound(self.spec_version());
        }
        match self.version() {
            Version::Normal(_) => {
                let s1_a = self.compute_adjacent_penalty_score(true);
                let s1_b = self.compute_adjacent_penalty_score(false);
                let s2 = self.compute_block_penalty_score();
                let s3_a = self.compute_finder_penalty_score(true);
                let s3_b = self.compute_finder_penalty_score(false);
                let s4 = self.compute_balance_penalty_score();
                s1_a + s1_b + s2 + s3_a + s3_b + s4
            },
            Version::Micro(_) => self.compute_light_side_penalty_score(),
            Version::RectMicro(_) => 0,
        }
    }
}

} // verus!
