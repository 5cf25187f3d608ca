//! Interleaving of codeword blocks.

use vstd::prelude::*;

verus! {

/// The items of `blocks` taken column by column: the items at position `i`
/// of every block long enough to have one, block by block, for each `i` below
/// `n` in turn.
pub open spec fn interleaved<T>(blocks: Seq<Seq<T>>, n: nat) -> Seq<T>
    decreases n,
{
    if n == 0 {
        Seq::empty()
    } else {
        interleaved(blocks, (n - 1) as nat) + column(blocks, (n - 1) as nat, blocks.len())
    }
}

/// The items at position `i` of the first `m` blocks that have one.
pub open spec fn column<T>(blocks: Seq<Seq<T>>, i: nat, m: nat) -> Seq<T>
    decreases m,
{
    if m == 0 {
        Seq::empty()
    } else {
        let block = blocks[m - 1];
        let prev = column(blocks, i, (m - 1) as nat);
        if i < block.len() {
            prev.push(block[i as int])
        } else {
            prev
        }
    }
}

/// This method interleaves a vector of slices into a single vector.
///
/// It will first insert all the first elements of the slices in `blocks`, then
/// all the second elements, then all the third elements, and so on.
///
/// The longest slice must be at the last of `blocks`, and `blocks` must not be
/// empty.
pub fn interleave<T: Copy>(blocks: &[Vec<T>]) -> (r: Vec<T>)
    requires
        blocks@.len() > 0,
    ensures
        r@ == interleaved(
            Seq::new(blocks@.len(), |b: int| blocks@[b]@),
            blocks@[blocks@.len() - 1]@.len(),
        ),
{
    let ghost bs = Seq::new(blocks@.len(), |b: int| blocks@[b]@);
    let last_block_len = blocks[blocks.len() - 1].len();
    let mut res: Vec<T> = Vec::new();
    let mut i: usize = 0;
    while i < last_block_len
        invariant
            bs == Seq::new(blocks@.len(), |b: int| blocks@[b]@),
            last_block_len == blocks@[blocks@.len() - 1]@.len(),
            i <= last_block_len,
            res@ == interleaved(bs, i as nat),
        decreases last_block_len - i,
    {
        let ghost before = res@;
        let mut b: usize = 0;
        while b < blocks.len()
            invariant
                bs == Seq::new(blocks@.len(), |b: int| blocks@[b]@),
                b <= blocks@.len(),
                res@ == before + column(bs, i as nat, b as nat),
            decreases blocks@.len() - b,
        {
            let t = &blocks[b];
            if i < t.len() {
                res.push(t[i]);
            }
            proof {
                assert(bs[b as int] == blocks@[b as int]@);
            }
            b = b + 1;
        }
        i = i + 1;
    }
    res
}

} // verus!
