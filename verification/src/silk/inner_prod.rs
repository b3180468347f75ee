//! Inner products of 16-bit vectors.

use crate::fixed::{asr, lemma_wrap32_add, shr32, wadd, wrap32};
use vstd::prelude::*;

verus! {

/// Sum of the first `k` products, each divided by `2^shift`.
pub open spec fn dot(a: Seq<i16>, b: Seq<i16>, shift: nat, k: nat) -> int
    decreases k,
{
    if k == 0 {
        0
    } else {
        dot(a, b, shift, (k - 1) as nat) + asr(a[k - 1] * b[k - 1], shift)
    }
}

/// Product of two samples.
pub fn mul16(a: i16, b: i16) -> (r: i32)
    ensures
        r == a * b,
        -0x4000_0000 <= r <= 0x4000_0000,
{
    proof {
        assert(-0x4000_0000 <= a * b <= 0x4000_0000) by (nonlinear_arith)
            requires
                -0x8000 <= a <= 0x7fff,
                -0x8000 <= b <= 0x7fff,
        ;
    }
    a as i32 * b as i32
}

/// Inner product of two vectors of the same length, each product divided by
/// `2^scale`.
pub fn inner_prod_aligned_scale(a: &[i16], b: &[i16], scale: u32) -> (r: i32)
    requires
        a@.len() == b@.len(),
        scale < 64,
    ensures
        r == wrap32(dot(a@, b@, scale as nat, a@.len())),
{
    let n: usize = a.len();
    let mut sum: i32 = 0;
    proof {
        crate::fixed::lemma_wrap32_range(0);
    }
    for k in 0..n
        invariant
            n == a@.len() == b@.len(),
            scale < 64,
            sum == wrap32(dot(a@, b@, scale as nat, k as nat)),
    {
        proof {
            lemma_wrap32_add(
                dot(a@, b@, scale as nat, k as nat),
                asr(a@[k as int] * b@[k as int], scale as nat),
            );
        }
        sum = wadd(sum, shr32(mul16(a[k], b[k]), scale));
    }
    sum
}

} // verus!
