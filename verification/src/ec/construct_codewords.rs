//! Splitting data into blocks, and interleaving their error correction codes.

use vstd::prelude::*;

use super::error_correction_sizes::{EC_BLOCK_COUNTS, EC_BYTES_PER_BLOCK};
use super::interleave::{interleave, interleaved};
use super::max_allowed_errors::lemma_table_entries;
use super::{create_error_correction_code, ec_code, lemma_ec_code_len};
use crate::error::QrResult;
use crate::types::{EcLevel, Version};

verus! {

/// The first block that holds one byte more, when `total` bytes are split
/// into `count` blocks: the last `total % count` blocks are the longer ones.
pub open spec fn first_long_block(total: nat, count: nat) -> nat {
    (count - total % count) as nat
}

/// The size of block `b` of `total` bytes split into `count` blocks.
pub open spec fn block_size(total: nat, count: nat, b: nat) -> nat {
    total / count + if b >= first_long_block(total, count) {
        1nat
    } else {
        0
    }
}

/// Where block `b` of `total` bytes split into `count` blocks starts.
pub open spec fn block_start(total: nat, count: nat, b: nat) -> nat {
    b * (total / count) + if b > first_long_block(total, count) {
        (b - first_long_block(total, count)) as nat
    } else {
        0
    }
}

/// `data` split into `count` consecutive blocks, the shorter ones first and
/// the longer ones, one byte longer, last.
pub open spec fn data_blocks(data: Seq<u8>, count: nat) -> Seq<Seq<u8>> {
    Seq::new(
        count,
        |b: int|
            data.subrange(
                block_start(data.len(), count, b as nat) as int,
                (block_start(data.len(), count, b as nat) + block_size(data.len(), count, b as nat))
                    as int,
            ),
    )
}

/// The error correction codes, `n` bytes each, of the blocks.
pub open spec fn ec_blocks(blocks: Seq<Seq<u8>>, n: nat) -> Seq<Seq<u8>> {
    Seq::new(blocks.len(), |b: int| ec_code(blocks[b], n))
}

/// The codewords of `data` in `version` at `ec_level`: the data split into
/// the blocks of the symbol and interleaved, and the error correction codes
/// of the blocks, interleaved too. An error when the version does not support
/// the level.
pub open spec fn spec_construct_codewords(data: Seq<u8>, version: Version, ec_level: EcLevel) -> QrResult<
    (Seq<u8>, Seq<u8>),
> {
    match version.spec_fetch(ec_level, EC_BLOCK_COUNTS@) {
        Err(e) => Err(e),
        Ok(count) => match version.spec_fetch(ec_level, EC_BYTES_PER_BLOCK@) {
            Err(e) => Err(e),
            Ok(n) => {
                let blocks = data_blocks(data, count as nat);
                Ok(
                    (
                        interleaved(blocks, blocks[count - 1].len()),
                        interleaved(ec_blocks(blocks, n as nat), n as nat),
                    ),
                )
            },
        },
    }
}

/// Each block ends where the next starts, and the last ends with the data.
proof fn lemma_block_bounds(total: nat, count: nat, b: nat)
    requires
        count > 0,
        b < count,
    ensures
        block_start(total, count, b + 1) == block_start(total, count, b) + block_size(total, count, b),
        block_start(total, count, count) == total,
{
    let q = total / count;
    let l = first_long_block(total, count);
    vstd::arithmetic::div_mod::lemma_fundamental_div_mod(total as int, count as int);
    assert((b + 1) * q == b * q + q) by (nonlinear_arith);
    assert(count * q == q * count) by (nonlinear_arith);
}

/// The blocks of the data, in order.
fn split_blocks(data: &[u8], count: usize) -> (r: Vec<Vec<u8>>)
    requires
        count > 0,
    ensures
        r@.len() == count,
        Seq::new(r@.len(), |b: int| r@[b]@) == data_blocks(data@, count as nat),
{
    let total = data.len();
    let short_size = total / count;
    let first_long = count - total % count;
    let mut blocks: Vec<Vec<u8>> = Vec::new();
    let mut start: usize = 0;
    let mut b: usize = 0;
    while b < count
        invariant
            count > 0,
            total == data@.len(),
            short_size == total / count,
            first_long == first_long_block(total as nat, count as nat),
            b <= count,
            start == block_start(total as nat, count as nat, b as nat),
            start <= total,
            blocks@.len() == b,
            forall|c: int|
                0 <= c < b ==> (#[trigger] blocks@[c])@ == data_blocks(data@, count as nat)[c],
        decreases count - b,
    {
        proof {
            lemma_block_bounds(total as nat, count as nat, b as nat);
            lemma_block_in_data(total as nat, count as nat, b as nat);
        }
        let size = if b >= first_long {
            short_size + 1
        } else {
            short_size
        };
        let mut block: Vec<u8> = Vec::new();
        let mut t: usize = 0;
        while t < size
            invariant
                start + size <= total,
                total == data@.len(),
                t <= size,
                block@ == data@.subrange(start as int, (start + t) as int),
            decreases size - t,
        {
            block.push(data[start + t]);
            t = t + 1;
            assert(block@ =~= data@.subrange(start as int, (start + t) as int));
        }
        blocks.push(block);
        start = start + size;
        b = b + 1;
    }
    assert(Seq::new(blocks@.len(), |c: int| blocks@[c]@) =~= data_blocks(data@, count as nat));
    blocks
}

/// Every block lies within the data.
proof fn lemma_block_in_data(total: nat, count: nat, b: nat)
    requires
        count > 0,
        b < count,
    ensures
        block_start(total, count, b) + block_size(total, count, b) <= total,
{
    lemma_block_bounds(total, count, b);
    lemma_block_start_mono(total, count, b + 1, count);
    lemma_block_bounds(total, count, (count - 1) as nat);
}

/// Block starts only grow.
proof fn lemma_block_start_mono(total: nat, count: nat, b1: nat, b2: nat)
    requires
        count > 0,
        b1 <= b2 <= count,
    ensures
        block_start(total, count, b1) <= block_start(total, count, b2),
    decreases b2 - b1,
{
    if b1 < b2 {
        lemma_block_start_mono(total, count, b1, (b2 - 1) as nat);
        lemma_block_bounds(total, count, (b2 - 1) as nat);
    }
}

/// Splits the data into the blocks of `version` at `ec_level`, computes the
/// error correction code of each block, and interleaves the blocks and the
/// codes.
///
/// # Errors
///
/// Returns [`Err`] if the version does not support the error correction level.
pub fn construct_codewords(data: &[u8], version: Version, ec_level: EcLevel) -> (r: QrResult<
    (Vec<u8>, Vec<u8>),
>)
    requires
        data@.len() + 30 <= usize::MAX,
    ensures
        match r {
            Ok((d, e)) => spec_construct_codewords(data@, version, ec_level) == Ok::<
                (Seq<u8>, Seq<u8>),
                crate::error::Error,
            >((d@, e@)),
            Err(e) => spec_construct_codewords(data@, version, ec_level) == Err::<
                (Seq<u8>, Seq<u8>),
                crate::error::Error,
            >(e),
        },
{
    proof {
        lemma_table_entries();
        version.lemma_table_row_bound();
    }
    let count = match version.fetch(ec_level, &EC_BLOCK_COUNTS) {
        Ok(c) => c,
        Err(e) => return Err(e),
    };
    let ec_bytes = match version.fetch(ec_level, &EC_BYTES_PER_BLOCK) {
        Ok(n) => n,
        Err(e) => return Err(e),
    };
    let blocks = split_blocks(data, count);
    let ghost bs = data_blocks(data@, count as nat);
    let mut ec_codes: Vec<Vec<u8>> = Vec::new();
    let mut b: usize = 0;
    while b < blocks.len()
        invariant
            blocks@.len() == count,
            Seq::new(blocks@.len(), |c: int| blocks@[c]@) == bs,
            bs == data_blocks(data@, count as nat),
            ec_bytes <= 30,
            data@.len() + 30 <= usize::MAX,
            b <= blocks@.len(),
            ec_codes@.len() == b,
            forall|c: int|
                0 <= c < b ==> (#[trigger] ec_codes@[c])@ == ec_code(bs[c], ec_bytes as nat),
        decreases blocks@.len() - b,
    {
        proof {
            assert(bs[b as int] == blocks@[b as int]@);
            lemma_block_in_data(data@.len(), count as nat, b as nat);
        }
        let code = create_error_correction_code(blocks[b].as_slice(), ec_bytes);
        ec_codes.push(code);
        b = b + 1;
    }
    let data_vec = interleave(blocks.as_slice());
    assert(ec_codes@.len() > 0);
    let ec_vec = interleave(ec_codes.as_slice());
    proof {
        assert(Seq::new(ec_codes@.len(), |c: int| ec_codes@[c]@) =~= ec_blocks(bs, ec_bytes as nat));
        lemma_ec_code_len(bs[count - 1], ec_bytes as nat);
        assert(ec_codes@[ec_codes@.len() - 1]@.len() == ec_bytes);
    }
    Ok((data_vec, ec_vec))
}

} // verus!
