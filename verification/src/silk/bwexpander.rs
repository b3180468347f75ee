//! Bandwidth expansion of 16-bit prediction filters.

use crate::fixed::{narrow16, narrow32, product64, round_shift, shr64, wadd, wrap16, wrap32, wsub};
use vstd::arithmetic::div_mod::*;
use vstd::arithmetic::power2::*;
use vstd::prelude::*;

verus! {

/// The factor (Q16) of coefficient `k` when coefficient 0 has factor `chirp`:
/// the powers of the chirp, each rounded.
pub open spec fn chirp_power(chirp: int, k: nat) -> int
    decreases k,
{
    if k == 0 {
        chirp
    } else {
        let p = chirp_power(chirp, (k - 1) as nat);
        wrap32(p + wrap32(round_shift(p * wrap32(chirp - 0x1_0000), 16)))
    }
}

/// `v` scaled by a Q16 factor, rounded to nearest.
pub open spec fn chirped16(v: int, factor: int) -> int {
    wrap16(wrap32(round_shift(factor * v, 16)))
}

/// `value / 2^16` rounded to nearest, reduced to 32 bits.
pub fn round_q16(value: i64) -> (r: i32)
    ensures
        r == wrap32(round_shift(value as int, 16)),
{
    proof {
        reveal(round_shift);
    }
    proof {
        lemma2_to64();
    }
    let half: i64 = shr64(value, 15) + 1;
    narrow32(shr64(half, 1))
}

/// The factor after `factor`.
pub fn next_chirp(factor: i32, chirp_minus_one: i32) -> (r: i32)
    ensures
        r == wrap32(factor + wrap32(round_shift(factor * chirp_minus_one, 16))),
{
    wadd(factor, round_q16(product64(factor, chirp_minus_one)))
}

/// Scales coefficient `k` by the `k + 1`st power of `chirp_q16 / 2^16`.
pub fn bwexpander(ar: &mut [i16], chirp_q16: i32)
    ensures
        final(ar)@.len() == old(ar)@.len(),
        forall|k: int|
            0 <= k < old(ar)@.len() ==> #[trigger] final(ar)@[k] == chirped16(
                old(ar)@[k] as int,
                chirp_power(chirp_q16 as int, k as nat),
            ),
{
    let n: usize = ar.len();
    let minus_one: i32 = wsub(chirp_q16, 0x1_0000);
    let mut factor: i32 = chirp_q16;
    for k in 0..n
        invariant
            n == old(ar)@.len(),
            ar@.len() == n,
            minus_one == wrap32(chirp_q16 - 0x1_0000),
            factor == chirp_power(chirp_q16 as int, k as nat),
            forall|j: int|
                0 <= j < k ==> #[trigger] ar@[j] == chirped16(
                    old(ar)@[j] as int,
                    chirp_power(chirp_q16 as int, j as nat),
                ),
            forall|j: int| k <= j < n ==> #[trigger] ar@[j] == old(ar)@[j],
    {
        let v: i32 = ar[k] as i32;
        ar[k] = narrow16(round_q16(product64(factor, v)));
        factor = next_chirp(factor, minus_one);
    }
}

/// A factor of one changes nothing, however many times it is applied.
pub proof fn law_unity_chirp(k: nat, v: int)
    requires
        -0x8000 <= v <= 0x7fff,
    ensures
        chirp_power(0x1_0000, k) == 0x1_0000,
        chirped16(v, chirp_power(0x1_0000, k)) == v,
    decreases k,
{
    reveal(round_shift);
    reveal(wrap32);
    reveal(wrap16);
    lemma2_to64();
    if k > 0 {
        law_unity_chirp((k - 1) as nat, v);
        assert(0x1_0000int * 0 == 0);
    }
    lemma_round_q16(0x1_0000 * v);
}

proof fn lemma_round_q16(v: int)
    ensures
        round_shift(v, 16) == (v / 0x8000 + 1) / 2,
{
    reveal(round_shift);
    lemma2_to64();
}

/// The powers of a factor between zero and one stay there and do not grow.
pub proof fn law_chirp_powers_shrink(chirp: int, k: nat)
    requires
        0 <= chirp <= 0x1_0000,
    ensures
        0 <= chirp_power(chirp, k) <= 0x1_0000,
        k > 0 ==> chirp_power(chirp, k) <= chirp_power(chirp, (k - 1) as nat),
    decreases k,
{
    reveal(wrap32);
    if k > 0 {
        law_chirp_powers_shrink(chirp, (k - 1) as nat);
        let p = chirp_power(chirp, (k - 1) as nat);
        let m = chirp - 0x1_0000;
        let v = p * m;
        assert(-p * 0x1_0000 <= v <= 0) by (nonlinear_arith)
            requires
                v == p * m,
                -0x1_0000 <= m <= 0,
                0 <= p,
        ;
        lemma_round_q16(v);
        assert(v >= (-2 * p) * 0x8000);
        assert(v / 0x8000 >= -2 * p) by (nonlinear_arith)
            requires
                v >= (-2 * p) * 0x8000,
        ;
    }
}

/// Expanding by a factor between zero and one turns no coefficient's sign and
/// enlarges none.
pub proof fn law_expansion_shrinks(chirp: int, k: nat, v: int)
    requires
        0 <= chirp <= 0x1_0000,
        -0x8000 <= v <= 0x7fff,
    ensures
        v >= 0 ==> 0 <= chirped16(v, chirp_power(chirp, k)) <= v,
        v <= 0 ==> v <= chirped16(v, chirp_power(chirp, k)) <= 0,
{
    reveal(wrap32);
    reveal(wrap16);
    law_chirp_powers_shrink(chirp, k);
    let f = chirp_power(chirp, k);
    let w = f * v;
    lemma_round_q16(w);
    if v >= 0 {
        assert(0 <= w <= 0x1_0000 * v) by (nonlinear_arith)
            requires
                w == f * v,
                0 <= f <= 0x1_0000,
                v >= 0,
        ;
    } else {
        assert(0x1_0000 * v <= w <= 0) by (nonlinear_arith)
            requires
                w == f * v,
                0 <= f <= 0x1_0000,
                v <= 0,
        ;
    }
}

} // verus!
