//! The sizes of the error correction blocks of each version.

use vstd::prelude::*;

verus! {

/// The number of error correction bytes of each block, per version (in the
/// order of `Version::spec_table_row`) and error correction level (L, M, Q,
/// H). Zero marks an unsupported combination.
pub const EC_BYTES_PER_BLOCK: [[usize; 4]; 76] = [
    [7, 10, 13, 17],
    [10, 16, 22, 28],
    [15, 26, 18, 22],
    [20, 18, 26, 16],
    [26, 24, 18, 22],
    [18, 16, 24, 28],
    [20, 18, 18, 26],
    [24, 22, 22, 26],
    [30, 22, 20, 24],
    [18, 26, 24, 28],
    [20, 30, 28, 24],
    [24, 22, 26, 28],
    [26, 22, 24, 22],
    [30, 24, 20, 24],
    [22, 24, 30, 24],
    [24, 28, 24, 30],
    [28, 28, 28, 28],
    [30, 26, 28, 28],
    [28, 26, 26, 26],
    [28, 26, 30, 28],
    [28, 26, 28, 30],
    [28, 28, 30, 24],
    [30, 28, 30, 30],
    [30, 28, 30, 30],
    [26, 28, 30, 30],
    [28, 28, 28, 30],
    [30, 28, 30, 30],
    [30, 28, 30, 30],
    [30, 28, 30, 30],
    [30, 28, 30, 30],
    [30, 28, 30, 30],
    [30, 28, 30, 30],
    [30, 28, 30, 30],
    [30, 28, 30, 30],
    [30, 28, 30, 30],
    [30, 28, 30, 30],
    [30, 28, 30, 30],
    [30, 28, 30, 30],
    [30, 28, 30, 30],
    [30, 28, 30, 30],
    [2, 0, 0, 0],
    [5, 6, 0, 0],
    [6, 8, 0, 0],
    [8, 10, 14, 0],
    [0, 7, 0, 10],
    [0, 9, 0, 14],
    [0, 12, 0, 22],
    [0, 16, 0, 30],
    [0, 24, 0, 22],
    [0, 9, 0, 14],
    [0, 12, 0, 22],
    [0, 9, 0, 16],
    [0, 24, 0, 22],
    [0, 18, 0, 22],
    [0, 8, 0, 10],
    [0, 12, 0, 20],
    [0, 16, 0, 16],
    [0, 24, 0, 22],
    [0, 16, 0, 30],
    [0, 24, 0, 30],
    [0, 9, 0, 14],
    [0, 14, 0, 28],
    [0, 22, 0, 20],
    [0, 16, 0, 28],
    [0, 20, 0, 26],
    [0, 20, 0, 28],
    [0, 18, 0, 18],
    [0, 26, 0, 24],
    [0, 18, 0, 24],
    [0, 24, 0, 22],
    [0, 24, 0, 26],
    [0, 22, 0, 20],
    [0, 16, 0, 30],
    [0, 22, 0, 28],
    [0, 20, 0, 26],
    [0, 20, 0, 26],
];

/// The number of error correction blocks, per version and error correction
/// level, in the same layout. Zero marks an unsupported combination.
pub const EC_BLOCK_COUNTS: [[usize; 4]; 76] = [
    [1, 1, 1, 1],
    [1, 1, 1, 1],
    [1, 1, 2, 2],
    [1, 2, 2, 4],
    [1, 2, 4, 4],
    [2, 4, 4, 4],
    [2, 4, 6, 5],
    [2, 4, 6, 6],
    [2, 5, 8, 8],
    [4, 5, 8, 8],
    [4, 5, 8, 11],
    [4, 8, 10, 11],
    [4, 9, 12, 16],
    [4, 9, 16, 16],
    [6, 10, 12, 18],
    [6, 10, 17, 16],
    [6, 11, 16, 19],
    [6, 13, 18, 21],
    [7, 14, 21, 25],
    [8, 16, 20, 25],
    [8, 17, 23, 25],
    [9, 17, 23, 34],
    [9, 18, 25, 30],
    [10, 20, 27, 32],
    [12, 21, 29, 35],
    [12, 23, 34, 37],
    [12, 25, 34, 40],
    [13, 26, 35, 42],
    [14, 28, 38, 45],
    [15, 29, 40, 48],
    [16, 31, 43, 51],
    [17, 33, 45, 54],
    [18, 35, 48, 57],
    [19, 37, 51, 60],
    [19, 38, 53, 63],
    [20, 40, 56, 66],
    [21, 43, 59, 70],
    [22, 45, 62, 74],
    [24, 47, 65, 77],
    [25, 49, 68, 81],
    [1, 0, 0, 0],
    [1, 1, 0, 0],
    [1, 1, 0, 0],
    [1, 1, 1, 0],
    [0, 1, 0, 1],
    [0, 1, 0, 1],
    [0, 1, 0, 1],
    [0, 1, 0, 1],
    [0, 1, 0, 2],
    [0, 1, 0, 1],
    [0, 1, 0, 1],
    [0, 2, 0, 2],
    [0, 1, 0, 2],
    [0, 2, 0, 3],
    [0, 1, 0, 1],
    [0, 1, 0, 1],
    [0, 1, 0, 2],
    [0, 1, 0, 2],
    [0, 2, 0, 2],
    [0, 2, 0, 3],
    [0, 1, 0, 1],
    [0, 1, 0, 1],
    [0, 1, 0, 2],
    [0, 2, 0, 2],
    [0, 2, 0, 3],
    [0, 3, 0, 4],
    [0, 1, 0, 2],
    [0, 1, 0, 2],
    [0, 2, 0, 3],
    [0, 2, 0, 4],
    [0, 3, 0, 5],
    [0, 1, 0, 2],
    [0, 2, 0, 2],
    [0, 2, 0, 3],
    [0, 3, 0, 4],
    [0, 4, 0, 6],
];

} // verus!
