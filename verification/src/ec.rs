//! The `ec` module applies the Reed-Solomon error correction codes.

mod construct_codewords;
mod error_correction_sizes;
mod gf256;
mod interleave;
mod max_allowed_errors;

use vstd::prelude::*;

pub use self::construct_codewords::{
    block_size, block_start, construct_codewords, data_blocks, ec_blocks, first_long_block,
    spec_construct_codewords,
};
pub use self::error_correction_sizes::{EC_BLOCK_COUNTS, EC_BYTES_PER_BLOCK};
pub use self::gf256::{EXP_TABLE, LOG_TABLE};
pub use self::interleave::{column, interleave, interleaved};
pub use self::max_allowed_errors::{error_allowance, max_allowed_errors, spec_max_allowed_errors};

verus! {

/// The product of `a` and `b` in GF(2⁸): zero when either is zero, and else
/// α to the sum of their logarithms, for the primitive element α.
pub open spec fn gf_mul(a: u8, b: u8) -> u8 {
    if a == 0 || b == 0 {
        0
    } else {
        EXP_TABLE[((LOG_TABLE[a as int] + LOG_TABLE[b as int]) % 255) as int]
    }
}

/// Multiplies two elements of GF(2⁸).
fn gf_multiply(a: u8, b: u8) -> (r: u8)
    ensures
        r == gf_mul(a, b),
{
    if a == 0 || b == 0 {
        0
    } else {
        EXP_TABLE[(LOG_TABLE[a as usize] as usize + LOG_TABLE[b as usize] as usize) % 255]
    }
}

/// The polynomial `p` times (x − `c`) in GF(2⁸), where subtraction is
/// addition; coefficients from the highest power down.
pub open spec fn times_linear(p: Seq<u8>, c: u8) -> Seq<u8> {
    Seq::new(
        p.len() + 1,
        |j: int|
            (if j < p.len() {
                p[j]
            } else {
                0u8
            }) ^ (if j > 0 {
                gf_mul(p[j - 1], c)
            } else {
                0u8
            }),
    )
}

/// The generator polynomial of degree `n`: the product of (x − α^i) for `i`
/// from 0 to `n − 1`, coefficients from x^n down to the constant one.
pub open spec fn generator(n: nat) -> Seq<u8>
    decreases n,
{
    if n == 0 {
        seq![1u8]
    } else {
        times_linear(generator((n - 1) as nat), EXP_TABLE[n - 1])
    }
}

/// Builds the generator polynomial of degree `n`.
fn generator_polynomial(n: usize) -> (r: Vec<u8>)
    requires
        n <= 69,
    ensures
        r@ == generator(n as nat),
        r@.len() == n + 1,
{
    let mut p: Vec<u8> = Vec::new();
    p.push(1);
    assert(p@ =~= generator(0));
    let mut i: usize = 0;
    while i < n
        invariant
            n <= 69,
            i <= n,
            p@ == generator(i as nat),
            p@.len() == i + 1,
        decreases n - i,
    {
        let c = EXP_TABLE[i];
        let mut q: Vec<u8> = Vec::new();
        let mut j: usize = 0;
        while j <= p.len()
            invariant
                i < n <= 69,
                p@.len() == i + 1,
                j <= p@.len() + 1,
                q@.len() == j,
                forall|k: int| 0 <= k < j ==> q@[k] == #[trigger] times_linear(p@, c)[k],
            decreases p@.len() + 1 - j,
        {
            let a = if j < p.len() {
                p[j]
            } else {
                0u8
            };
            let b = if j > 0 {
                gf_multiply(p[j - 1], c)
            } else {
                0u8
            };
            q.push(a ^ b);
            j = j + 1;
        }
        assert(q@ =~= times_linear(p@, c));
        p = q;
        i = i + 1;
    }
    p
}

/// One step of the long division by the generator polynomial `g` of degree
/// `n`: the coefficient at `i` times the generator is subtracted (added, in
/// GF(2⁸)) from the coefficients from there on; the one at `i` becomes zero
/// and is not looked at again, so it is left alone.
#[verifier::opaque]
pub open spec fn division_step(buf: Seq<u8>, g: Seq<u8>, i: nat) -> Seq<u8> {
    let lead = buf[i as int];
    Seq::new(
        buf.len(),
        |k: int|
            if i + 1 <= k < i + g.len() {
                buf[k] ^ gf_mul(lead, g[k - i])
            } else {
                buf[k]
            },
    )
}

/// The coefficients of `data` followed by `n` zeros (the data polynomial
/// times x^n) after the first `i` steps of the long division by the generator
/// polynomial of degree `n`.
pub open spec fn divided(data: Seq<u8>, n: nat, i: nat) -> Seq<u8>
    decreases i,
{
    if i == 0 {
        data + Seq::new(n, |k: int| 0u8)
    } else {
        division_step(divided(data, n, (i - 1) as nat), generator(n), (i - 1) as nat)
    }
}

/// The error correction code of `data` with `n` bytes: the remainder of the
/// data polynomial times x^n divided by the generator polynomial of degree
/// `n`.
pub open spec fn ec_code(data: Seq<u8>, n: nat) -> Seq<u8> {
    divided(data, n, data.len()).skip(data.len() as int)
}

/// Dividing zeros leaves zeros.
proof fn lemma_divided_zero(m: nat, n: nat, i: nat)
    ensures
        divided(Seq::new(m, |k: int| 0u8), n, i) == Seq::new(m + n, |k: int| 0u8),
    decreases i,
{
    if i == 0 {
        assert(Seq::new(m, |k: int| 0u8) + Seq::new(n, |k: int| 0u8) =~= Seq::new(
            m + n,
            |k: int| 0u8,
        ));
    } else {
        lemma_divided_zero(m, n, (i - 1) as nat);
        reveal(division_step);
        let prev = Seq::new(m + n, |k: int| 0u8);
        let g = generator(n);
        assert(division_step(prev, g, (i - 1) as nat) =~= prev) by {
            assert forall|k: int| 0 <= k < prev.len() implies #[trigger] division_step(
                prev,
                g,
                (i - 1) as nat,
            )[k] == prev[k] by {
                assert(0u8 ^ 0u8 == 0u8) by (bit_vector);
            }
        }
    }
}

/// The error correction code of all-zero data is all zeros.
pub proof fn lemma_ec_code_zero(m: nat, n: nat)
    ensures
        ec_code(Seq::new(m, |k: int| 0u8), n) == Seq::new(n, |k: int| 0u8),
{
    lemma_divided_zero(m, n, m);
    assert(Seq::new(m + n, |k: int| 0u8).skip(m as int) =~= Seq::new(n, |k: int| 0u8));
}

/// Each step of the division keeps the length.
proof fn lemma_divided_len(data: Seq<u8>, n: nat, i: nat)
    ensures
        divided(data, n, i).len() == data.len() + n,
    decreases i,
{
    if i > 0 {
        lemma_divided_len(data, n, (i - 1) as nat);
        reveal(division_step);
    }
}

/// The error correction code has `n` bytes.
pub proof fn lemma_ec_code_len(data: Seq<u8>, n: nat)
    ensures
        ec_code(data, n).len() == n,
{
    lemma_divided_len(data, n, data.len());
}

/// A step of the long division at a zero coefficient changes nothing.
proof fn lemma_zero_lead_step(buf: Seq<u8>, g: Seq<u8>, i: nat)
    requires
        i < buf.len(),
        buf[i as int] == 0,
    ensures
        division_step(buf, g, i) == buf,
{
    reveal(division_step);
    assert(forall|x: u8| #[trigger] (x ^ 0u8) == x) by (bit_vector);
    assert(division_step(buf, g, i) =~= buf);
}

/// Carries out one step of the long division on `res`: subtracts the
/// coefficient at `i` times the generator polynomial `g` from the
/// coefficients after it.
fn divide_step(res: &mut Vec<u8>, g: &Vec<u8>, i: usize)
    requires
        g@.len() >= 1,
        i + g@.len() <= old(res).len(),
    ensures
        final(res)@ == division_step(old(res)@, g@, i as nat),
        final(res)@.len() == old(res)@.len(),
{
    let ghost prev = res@;
    let lead_coeff = res[i];
    if lead_coeff == 0 {
        proof {
            lemma_zero_lead_step(prev, g@, i as nat);
        }
        return;
    }
    let mut j: usize = 1;
    while j < g.len()
        invariant
            1 <= j <= g@.len(),
            i + g@.len() <= prev.len(),
            prev.len() <= usize::MAX,
            res@.len() == prev.len(),
            lead_coeff == prev[i as int],
            forall|k: int|
                0 <= k < prev.len() ==> #[trigger] res@[k] == if i + 1 <= k < i + j {
                    prev[k] ^ gf_mul(prev[i as int], g@[k - i])
                } else {
                    prev[k]
                },
        decreases g@.len() - j,
    {
        let term = gf_multiply(lead_coeff, g[j]);
        let idx = i + j;
        let updated = res[idx] ^ term;
        res.set(idx, updated);
        j = j + 1;
    }
    assert(res@ =~= division_step(prev, g@, i as nat)) by {
        reveal(division_step);
    }
}

/// Creates the error correction code in N bytes.
///
/// This method only supports computing the error-correction code up to 69
/// bytes.
///
/// This method treats the data as a polynomial of the form (a\[0\]
/// x<sup>m+n</sup> + a\[1\] x<sup>m+n-1</sup> + … + a\[m\] x<sup>n</sup>) in
/// GF(2<sup>8</sup>), and then computes the polynomial modulus with a generator
/// polynomial of degree N.
pub fn create_error_correction_code(data: &[u8], ec_code_size: usize) -> (r: Vec<u8>)
    requires
        ec_code_size <= 69,
        data@.len() + ec_code_size <= usize::MAX,
    ensures
        r@ == ec_code(data@, ec_code_size as nat),
{
    let data_len = data.len();
    let n = ec_code_size;
    let generator_poly = generator_polynomial(n);
    let mut res = vstd::slice::slice_to_vec(data);
    let mut k: usize = 0;
    while k < n
        invariant
            k <= n,
            res@ == data@ + Seq::new(k as nat, |j: int| 0u8),
        decreases n - k,
    {
        res.push(0);
        k = k + 1;
        assert(res@ =~= data@ + Seq::new(k as nat, |j: int| 0u8));
    }
    let mut i: usize = 0;
    while i < data_len
        invariant
            data_len == data@.len(),
            data_len + n <= usize::MAX,
            generator_poly@ == generator(n as nat),
            generator_poly@.len() == n + 1,
            i <= data_len,
            res@ == divided(data@, n as nat, i as nat),
            res@.len() == data_len + n,
        decreases data_len - i,
    {
        divide_step(&mut res, &generator_poly, i);
        i = i + 1;
    }
    let r = res.split_off(data_len);
    assert(r@ =~= ec_code(data@, n as nat));
    r
}

} // verus!
