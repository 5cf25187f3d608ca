//! Which modules belong to the functional patterns.

use vstd::prelude::*;

use super::alignment::ALIGNMENT_PATTERN_POSITIONS;
use crate::types::Version;

verus! {

/// A coordinate with negative values counted from the far side.
pub open spec fn wrap(c: int, width: int) -> int {
    if c < 0 {
        c + width
    } else {
        c
    }
}

/// Whether `a` and `b` are at most two apart.
pub open spec fn near(a: int, b: int) -> bool {
    -2 <= a - b <= 2
}

/// Whether the pair `(i, j)` of alignment coordinates, of which `last` is the
/// last, is one of the three that overlap a finder pattern.
pub open spec fn is_finder_corner(i: int, j: int, last: int) -> bool {
    (i == 0 && (j == 0 || j == last)) || (i == last && j == 0)
}

/// The number of alignment coordinates of QR code version `number` (7 or
/// above).
pub open spec fn alignment_count(number: nat) -> nat {
    number / 7 + 2
}

/// The alignment coordinate at `i` of QR code version `number` (7 or above).
pub open spec fn alignment_position(number: nat, i: int) -> int {
    ALIGNMENT_PATTERN_POSITIONS[number - 7][i] as int
}

/// Whether the module at `(x, y)` of a symbol of `version`, `width` modules
/// wide, belongs to a functional pattern: the finder patterns with their
/// separators and format information, the timing patterns, and the alignment
/// patterns (for Micro QR code, the first row and column and the top-left
/// nine by nine).
pub open spec fn spec_is_functional(version: Version, width: int, x: int, y: int) -> bool {
    let x = wrap(x, width);
    let y = wrap(y, width);
    match version {
        Version::Micro(_) => x == 0 || y == 0 || (x < 9 && y < 9),
        Version::RectMicro(_) => false,
        Version::Normal(a) => {
            let n = a.spec_number();
            let timing_patterns = x == 6 || y == 6;
            let top_left_finder_pattern = x < 9 && y < 9;
            let bottom_left_finder_pattern = x < 9 && y >= width - 8;
            let top_right_finder_pattern = x >= width - 8 && y < 9;
            if timing_patterns || top_left_finder_pattern || bottom_left_finder_pattern
                || top_right_finder_pattern {
                true
            } else if n == 1 {
                false
            } else if n <= 6 {
                near(width - 7, x) && near(width - 7, y)
            } else {
                let count = alignment_count(n) as int;
                exists|i: int, j: int|
                    0 <= i < count && 0 <= j < count && !is_finder_corner(i, j, count - 1)
                        && near(#[trigger] alignment_position(n, i), x) && near(
                        #[trigger] alignment_position(n, j),
                        y,
                    )
            }
        },
    }
}

/// Gets whether the module at the given coordinates represents a functional
/// module.
pub fn is_functional(version: Version, width: i16, x: i16, y: i16) -> (r: bool)
    requires
        !(version is RectMicro),
        width == version.spec_width(),
    ensures
        r == spec_is_functional(version, width as int, x as int, y as int),
{
    let w32 = width as i32;
    let wx: i32 = if x < 0 {
        x as i32 + w32
    } else {
        x as i32
    };
    let wy: i32 = if y < 0 {
        y as i32 + w32
    } else {
        y as i32
    };
    match version {
        Version::Micro(_) => wx == 0 || wy == 0 || (wx < 9 && wy < 9),
        Version::RectMicro(_) => false,
        Version::Normal(v) => {
            let a = v.number();
            let timing_patterns = wx == 6 || wy == 6;
            let top_left_finder_pattern = wx < 9 && wy < 9;
            let bottom_left_finder_pattern = wx < 9 && wy >= w32 - 8;
            let top_right_finder_pattern = wx >= w32 - 8 && wy < 9;
            let non_alignment_test = timing_patterns || top_left_finder_pattern
                || bottom_left_finder_pattern || top_right_finder_pattern;
            if non_alignment_test {
                true
            } else if a == 1 {
                false
            } else if a <= 6 {
                let dx = w32 - 7 - wx;
                let dy = w32 - 7 - wy;
                -2 <= dx && dx <= 2 && -2 <= dy && dy <= 2
            } else {
                assert(forall|r: int, c: int|
                    0 <= r < 34 && 0 <= c < 7 ==> 0 <= #[trigger] ALIGNMENT_PATTERN_POSITIONS[r][c]
                        <= 170);
                let positions = &ALIGNMENT_PATTERN_POSITIONS[(a - 7) as usize];
                let count = (a / 7 + 2) as usize;
                let last = count - 1;
                let ghost n = a as nat;
                let ghost found = exists|i: int, j: int|
                    0 <= i < count && 0 <= j < count && !is_finder_corner(i, j, count - 1) && near(
                        #[trigger] alignment_position(n, i),
                        wx as int,
                    ) && near(#[trigger] alignment_position(n, j), wy as int);
                assert(spec_is_functional(version, width as int, x as int, y as int) == found);
                let mut i: usize = 0;
                while i < count
                    invariant
                        7 <= n <= 40,
                        count == alignment_count(n),
                        last == count - 1,
                        count <= 7,
                        positions@ == ALIGNMENT_PATTERN_POSITIONS[n - 7]@,
                        forall|c: int| 0 <= c < 7 ==> 0 <= #[trigger] positions@[c] <= 170,
                        i <= count,
                        -0x10000 <= wx <= 0x10000,
                        -0x10000 <= wy <= 0x10000,
                        spec_is_functional(version, width as int, x as int, y as int) == found,
                        found == exists|i2: int, j2: int|
                            0 <= i2 < count && 0 <= j2 < count && !is_finder_corner(
                                i2,
                                j2,
                                count - 1,
                            ) && near(#[trigger] alignment_position(n, i2), wx as int) && near(
                                #[trigger] alignment_position(n, j2),
                                wy as int,
                            ),
                        forall|i2: int, j2: int|
                            0 <= i2 < i && 0 <= j2 < count && !is_finder_corner(
                                i2,
                                j2,
                                count - 1,
                            ) ==> !(near(#[trigger] alignment_position(n, i2), wx as int) && near(
                                #[trigger] alignment_position(n, j2),
                                wy as int,
                            )),
                    decreases count - i,
                {
                    let mut j: usize = 0;
                    while j < count
                        invariant
                            7 <= n <= 40,
                            count == alignment_count(n),
                            last == count - 1,
                            count <= 7,
                            positions@ == ALIGNMENT_PATTERN_POSITIONS[n - 7]@,
                            forall|c: int| 0 <= c < 7 ==> 0 <= #[trigger] positions@[c] <= 170,
                            i < count,
                            j <= count,
                            -0x10000 <= wx <= 0x10000,
                            -0x10000 <= wy <= 0x10000,
                            spec_is_functional(version, width as int, x as int, y as int) == found,
                            found == exists|i2: int, j2: int|
                                0 <= i2 < count && 0 <= j2 < count && !is_finder_corner(
                                    i2,
                                    j2,
                                    count - 1,
                                ) && near(#[trigger] alignment_position(n, i2), wx as int) && near(
                                    #[trigger] alignment_position(n, j2),
                                    wy as int,
                                ),
                            forall|i2: int, j2: int|
                                0 <= i2 < i && 0 <= j2 < count && !is_finder_corner(
                                    i2,
                                    j2,
                                    count - 1,
                                ) ==> !(near(#[trigger] alignment_position(n, i2), wx as int)
                                    && near(#[trigger] alignment_position(n, j2), wy as int)),
                            forall|j2: int|
                                0 <= j2 < j && !is_finder_corner(i as int, j2, count - 1) ==> !(
                                near(#[trigger] alignment_position(n, i as int), wx as int) && near(
                                    #[trigger] alignment_position(n, j2),
                                    wy as int,
                                )),
                        decreases count - j,
                    {
                        if (i == 0 && (j == 0 || j == last)) || (i == last && j == 0) {
                            j = j + 1;
                            continue;
                        }
                        let align_x = positions[i] as i32;
                        let align_y = positions[j] as i32;
                        assert(align_x == alignment_position(n, i as int));
                        assert(align_y == alignment_position(n, j as int));
                        let dx = align_x - wx;
                        let dy = align_y - wy;
                        if -2 <= dx && dx <= 2 && -2 <= dy && dy <= 2 {
                            assert(near(alignment_position(n, i as int), wx as int) && near(
                                alignment_position(n, j as int),
                                wy as int,
                            ));
                            assert(!is_finder_corner(i as int, j as int, count - 1));
                            assert(found);
                            return true;
                        }
                        j = j + 1;
                    }
                    i = i + 1;
                }
                false
            }
        },
    }
}

} // verus!
