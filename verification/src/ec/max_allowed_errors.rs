//! Number of allowed errors.

use vstd::prelude::*;

use super::error_correction_sizes::{EC_BLOCK_COUNTS, EC_BYTES_PER_BLOCK};
use crate::error::QrResult;
use crate::types::{EcLevel, MicroVersion, NormalVersion, Version};

verus! {

/// The number of error correction bytes that are set aside to guard against
/// misdecoding, and so cannot correct errors: 3, 2 or 1 for the smallest
/// symbols at the lower levels, 0 elsewhere.
pub open spec fn error_allowance(version: Version, ec_level: EcLevel) -> nat {
    match (version, ec_level) {
        (Version::Micro(MicroVersion::M2), EcLevel::L) | (Version::Normal(NormalVersion::V1), EcLevel::L) => 3,
        (Version::Micro(_), EcLevel::L)
        | (Version::Normal(NormalVersion::V2), EcLevel::L)
        | (Version::Micro(MicroVersion::M2), EcLevel::M)
        | (Version::Normal(NormalVersion::V1), EcLevel::M) => 2,
        (Version::Normal(NormalVersion::V1), _) | (Version::Normal(NormalVersion::V3), EcLevel::L) => 1,
        _ => 0,
    }
}

/// The maximum number of erroneous bytes: half of the error correction bytes
/// of all blocks that are not set aside; an error where the version does not
/// support the level.
pub open spec fn spec_max_allowed_errors(version: Version, ec_level: EcLevel) -> QrResult<usize> {
    match version.spec_fetch(ec_level, EC_BYTES_PER_BLOCK@) {
        Err(e) => Err(e),
        Ok(per_block) => match version.spec_fetch(ec_level, EC_BLOCK_COUNTS@) {
            Err(e) => Err(e),
            Ok(count) => Ok(((count * per_block - error_allowance(version, ec_level)) / 2) as usize),
        },
    }
}

/// The table entries: QR code has at least 7 error correction bytes per block
/// and a block; no entry exceeds 30 bytes or 81 blocks; and an entry of one
/// table is zero exactly when that of the other is.
pub(crate) proof fn lemma_table_entries()
    ensures
        forall|i: int, e: int|
            0 <= i < 40 && 0 <= e < 4 ==> #[trigger] EC_BYTES_PER_BLOCK[i][e] >= 7
                && EC_BLOCK_COUNTS[i][e] >= 1,
        forall|i: int, e: int|
            0 <= i < 76 && 0 <= e < 4 ==> #[trigger] EC_BYTES_PER_BLOCK[i][e] <= 30
                && EC_BLOCK_COUNTS[i][e] <= 81 && (EC_BYTES_PER_BLOCK[i][e] == 0 <==> EC_BLOCK_COUNTS[i][e] == 0),
{
    assert(forall|i: int, e: int|
        0 <= i < 40 && 0 <= e < 4 ==> #[trigger] EC_BYTES_PER_BLOCK[i][e] >= 7
            && EC_BLOCK_COUNTS[i][e] >= 1);
    assert(forall|i: int, e: int|
        0 <= i < 76 && 0 <= e < 4 ==> #[trigger] EC_BYTES_PER_BLOCK[i][e] <= 30
            && EC_BLOCK_COUNTS[i][e] <= 81 && (EC_BYTES_PER_BLOCK[i][e] == 0 <==> EC_BLOCK_COUNTS[i][e] == 0));
}

/// Computes the maximum allowed number of erratic modules can be introduced to
/// the QR code, before the data becomes truly corrupted.
///
/// # Errors
///
/// Returns [`Err`] if it is not valid to use the `ec_level` for the given
/// version (e.g. [`Version::Micro`] M1 with [`EcLevel::H`]).
pub fn max_allowed_errors(version: Version, ec_level: EcLevel) -> (r: QrResult<usize>)
    ensures
        r == spec_max_allowed_errors(version, ec_level),
{
    let p: usize = match (version, ec_level) {
        (Version::Micro(MicroVersion::M2), EcLevel::L) | (Version::Normal(NormalVersion::V1), EcLevel::L) => 3,
        (Version::Micro(_), EcLevel::L)
        | (Version::Normal(NormalVersion::V2), EcLevel::L)
        | (Version::Micro(MicroVersion::M2), EcLevel::M)
        | (Version::Normal(NormalVersion::V1), EcLevel::M) => 2,
        (Version::Normal(NormalVersion::V1), _) | (Version::Normal(NormalVersion::V3), EcLevel::L) => 1,
        _ => 0,
    };
    let ec_bytes_per_block = match version.fetch(ec_level, &EC_BYTES_PER_BLOCK) {
        Ok(n) => n,
        Err(e) => return Err(e),
    };
    let count = match version.fetch(ec_level, &EC_BLOCK_COUNTS) {
        Ok(n) => n,
        Err(e) => return Err(e),
    };
    proof {
        lemma_table_entries();
        version.lemma_table_row_bound();
        let row = version.spec_table_row() as int;
        let col = ec_level.spec_index() as int;
        assert(EC_BYTES_PER_BLOCK[row][col] <= 30);
        assert(count * ec_bytes_per_block <= 81 * 30) by (nonlinear_arith)
            requires
                count <= 81,
                ec_bytes_per_block <= 30,
        ;
        if version is Normal {
            assert(EC_BYTES_PER_BLOCK[row][col] >= 7);
            assert(count * ec_bytes_per_block >= 7) by (nonlinear_arith)
                requires
                    count >= 1,
                    ec_bytes_per_block >= 7,
            ;
        } else {
            assert(count >= 1 && ec_bytes_per_block >= 1);
            assert(count * ec_bytes_per_block >= ec_bytes_per_block) by (nonlinear_arith)
                requires
                    count >= 1,
            ;
        }
    }
    let ec_bytes = count * ec_bytes_per_block;
    Ok((ec_bytes - p) / 2)
}

} // verus!
