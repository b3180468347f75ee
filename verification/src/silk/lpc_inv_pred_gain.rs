//! Inverse prediction gain, and whether a prediction filter is stable.

use crate::fixed::{
    bit_length, ilog, lemma_wrap32_range, mul_mm, narrow32, product64, round_shift, sat32, sat32_of,
    shr64, smmul, wrap32, wsub,
};
use crate::silk::math::{inverse32_varq, inverse_varq, shl, shl32};
use vstd::arithmetic::power2::*;
use vstd::prelude::*;

verus! {

/// Largest coefficient (Q24) that a step of a stable filter has.
pub const A_LIMIT_QA: i32 = 16773022;

/// Smallest inverse gain (Q30): a prediction power gain of 10000.
pub const MIN_INVERSE_GAIN_Q30: i32 = 107374;

/// The reflection coefficient (Q31) of a filter's last coefficient.
pub open spec fn reflection_of_coef(a: int) -> int {
    wrap32(-shl(a, 7))
}

/// One less the square of the reflection coefficient (Q30).
pub open spec fn step_gain(a: int) -> int {
    let rc = reflection_of_coef(a);
    wrap32(0x4000_0000 - mul_mm(rc, rc))
}

/// A coefficient with the last step undone.
pub open spec fn undone(own: int, mirror: int, a: int) -> int {
    let bits = bit_length(step_gain(a) as nat);
    let part = wrap32(round_shift(mirror * reflection_of_coef(a), 31));
    round_shift(sat32_of(own - part) * inverse_varq(step_gain(a), bits as int + 30), bits)
}

pub open spec fn fits32(v: int) -> bool {
    -0x8000_0000 <= v <= 0x7fff_ffff
}

/// The inverse gain (Q30) of the filter `a[..=k]`, or zero where it is not
/// stable.
pub open spec fn inverse_gain(a: Seq<int>, k: nat, gain: int) -> int
    decreases k,
{
    if !(-A_LIMIT_QA <= a[k as int] <= A_LIMIT_QA) {
        0
    } else {
        let g = shl(mul_mm(gain, step_gain(a[k as int])), 2);
        if g < MIN_INVERSE_GAIN_Q30 {
            0
        } else if k == 0 {
            g
        } else {
            let b = Seq::new(k, |n: int| undone(a[n], a[k - 1 - n], a[k as int]));
            if exists|n: int| 0 <= n < k && !fits32(#[trigger] b[n]) {
                0
            } else {
                inverse_gain(b, (k - 1) as nat, g)
            }
        }
    }
}

/// Sum of the first `k` coefficients.
pub open spec fn coef_sum(a: Seq<i16>, k: nat) -> int
    decreases k,
{
    if k == 0 {
        0
    } else {
        coef_sum(a, (k - 1) as nat) + a[k - 1]
    }
}

/// The inverse gain of a filter (Q12).
pub open spec fn inverse_gain_q12(a: Seq<i16>) -> int {
    if coef_sum(a, a.len()) >= 4096 {
        0
    } else {
        inverse_gain(
            Seq::new(a.len(), |i: int| a[i] * 4096),
            (a.len() - 1) as nat,
            0x4000_0000,
        )
    }
}

/// A step within the limit leaves a gain.
proof fn lemma_step_gain(a: int)
    requires
        -A_LIMIT_QA <= a <= A_LIMIT_QA,
    ensures
        shl(a, 7) == a * 128,
        reflection_of_coef(a) == -(a * 128),
        0 < step_gain(a) <= 0x4000_0000,
{
    lemma2_to64();
    lemma_wrap32_range(a * 128);
    lemma_wrap32_range(-(a * 128));
    let rc = -(a * 128);
    reveal(mul_mm);
    let sq = rc * rc;
    assert(0 <= sq <= 2146946816 * 2146946816) by (nonlinear_arith)
        requires
            sq == rc * rc,
            -2146946816 <= rc <= 2146946816,
    ;
    assert(0 <= sq / 0x1_0000_0000 < 0x4000_0000);
    lemma_wrap32_range(0x4000_0000 - mul_mm(rc, rc));
}

/// `v / 2^k` rounded to nearest.
fn round64(v: i64, k: u32) -> (r: i64)
    requires
        1 <= k <= 40,
    ensures
        r == round_shift(v as int, k as nat),
{
    proof {
        reveal(round_shift);
        lemma2_to64();
        lemma_pow2_pos((k - 1) as nat);
    }
    if k == 1 {
        let h: i64 = shr64(v, 1);
        proof {
            assert((1 - 1) as nat == 0);
            vstd::arithmetic::div_mod::lemma_div_basics(v as int);
        }
        if v - 2 * h == 0 {
            h
        } else {
            h + 1
        }
    } else {
        proof {
            if k > 2 {
                lemma_pow2_strictly_increases(1, (k - 1) as nat);
            }
            vstd::arithmetic::div_mod::lemma_div_is_ordered_by_denominator(
                0x7fff_ffff_ffff_ffff,
                2,
                pow2((k - 1) as nat) as int,
            );
            lemma_half_bound(v as int, pow2((k - 1) as nat) as int);
        }
        shr64(shr64(v, k - 1) + 1, 1)
    }
}

proof fn lemma_half_bound(v: int, d: int)
    requires
        d >= 2,
        -0x8000_0000_0000_0000 <= v <= 0x7fff_ffff_ffff_ffff,
    ensures
        -0x4000_0000_0000_0000 <= v / d <= 0x4000_0000_0000_0000,
{
    vstd::arithmetic::div_mod::lemma_fundamental_div_mod(v, d);
    vstd::arithmetic::div_mod::lemma_mod_bound(v, d);
    let q = v / d;
    assert(-0x4000_0000_0000_0000 <= q <= 0x4000_0000_0000_0000) by (nonlinear_arith)
        requires
            v == d * q + v % d,
            0 <= v % d < d,
            d >= 2,
            -0x8000_0000_0000_0000 <= v <= 0x7fff_ffff_ffff_ffff,
    ;
}

fn undo(own: i32, mirror: i32, rc: i32, inverse: i32, bits: u32, Ghost(a): Ghost<int>) -> (r: i64)
    requires
        rc == reflection_of_coef(a),
        bits == bit_length(step_gain(a) as nat),
        inverse == inverse_varq(step_gain(a), bits + 30),
        1 <= bits <= 31,
    ensures
        r == undone(own as int, mirror as int, a),
{
    let part: i32 = narrow32(round64(product64(mirror, rc), 31));
    let rest: i32 = sat32(own as i64 - part as i64);
    round64(product64(rest, inverse), bits)
}

/// The first `n` values.
pub open spec fn first_ints(a: [i32; 24], n: nat) -> Seq<int> {
    Seq::new(n, |i: int| a[i] as int)
}

fn inverse_gain_qa(coefs: [i32; 24], order: usize) -> (r: i32)
    requires
        1 <= order <= 24,
    ensures
        r == inverse_gain(
            first_ints(coefs, order as nat),
            (order - 1) as nat,
            0x4000_0000,
        ),
{
    let mut a: [i32; 24] = coefs;
    let mut gain: i32 = 0x4000_0000;
    let mut k: usize = order - 1;
    let ghost whole = inverse_gain(
        first_ints(coefs, order as nat),
        (order - 1) as nat,
        0x4000_0000,
    );
    loop
        invariant
            k < order <= 24,
            whole == inverse_gain(
                first_ints(coefs, order as nat),
                (order - 1) as nat,
                0x4000_0000,
            ),
            whole == inverse_gain(
                first_ints(a, (k + 1) as nat),
                k as nat,
                gain as int,
            ),
        decreases k,
    {
        let ghost cur = first_ints(a, (k + 1) as nat);
        let last: i32 = a[k];
        assert(cur[k as int] == last);
        if last > A_LIMIT_QA || last < -A_LIMIT_QA {
            return 0;
        }
        proof {
            lemma_step_gain(last as int);
        }
        let rc: i32 = wsub(0, shl32(last, 7));
        let mult: i32 = wsub(0x4000_0000, smmul(rc, rc));
        gain = shl32(smmul(gain, mult), 2);
        if gain < MIN_INVERSE_GAIN_Q30 {
            return 0;
        }
        if k == 0 {
            return gain;
        }
        let bits: u32 = ilog(mult as u32);
        proof {
            crate::range::lemma_bit_length_bound(mult as nat);
            lemma2_to64();
            if bits > 31 {
                lemma_pow2_strictly_increases(30, (bits - 1) as nat);
            }
        }
        let inverse: i32 = inverse32_varq(mult, bits as i32 + 30);
        let ghost b = Seq::new(
            k as nat,
            |n: int| undone(cur[n], cur[k - 1 - n], cur[k as int]),
        );
        let before: [i32; 24] = a;
        for n in 0..k
            invariant
                k < order <= 24,
                cur == first_ints(before, (k + 1) as nat),
                rc == reflection_of_coef(last as int),
                bits == bit_length(step_gain(last as int) as nat),
                inverse == inverse_varq(step_gain(last as int), bits + 30),
                1 <= bits <= 31,
                cur[k as int] == last,
                b == Seq::new(k as nat, |n: int| undone(cur[n], cur[k - 1 - n], cur[k as int])),
                forall|j: int| 0 <= j < n ==> #[trigger] a[j] == b[j],
                forall|j: int| 0 <= j < n ==> fits32(#[trigger] b[j]),
                gain >= MIN_INVERSE_GAIN_Q30,
                k > 0,
                -A_LIMIT_QA <= last <= A_LIMIT_QA,
                whole == inverse_gain(
                    first_ints(coefs, order as nat),
                    (order - 1) as nat,
                    0x4000_0000,
                ),
                whole == (if exists|n: int| 0 <= n < k && !fits32(#[trigger] b[n]) {
                    0
                } else {
                    inverse_gain(b, (k - 1) as nat, gain as int)
                }),
        {
            let v: i64 = undo(before[n], before[k - 1 - n], rc, inverse, bits, Ghost(last as int));
            assert(v == b[n as int]);
            if v > 0x7fff_ffff || v < -0x8000_0000 {
                return 0;
            }
            a[n] = v as i32;
        }
        assert(first_ints(a, k as nat) =~= b);
        k = k - 1;
    }
}

/// The inverse prediction gain (Q30) of a filter (Q12), or zero where it is
/// not stable.
pub fn lpc_inverse_pred_gain(a_q12: &[i16]) -> (r: i32)
    requires
        1 <= a_q12@.len() <= 24,
    ensures
        r == inverse_gain_q12(a_q12@),
{
    let order: usize = a_q12.len();
    let mut coefs: [i32; 24] = [0;24];
    let mut sum: i32 = 0;
    for i in 0..order
        invariant
            order == a_q12@.len() <= 24,
            sum == coef_sum(a_q12@, i as nat),
            -0x8000 * i <= sum <= 0x8000 * i,
            forall|j: int| 0 <= j < i ==> #[trigger] coefs[j] == a_q12@[j] * 4096,
    {
        sum = sum + a_q12[i] as i32;
        coefs[i] = a_q12[i] as i32 * 4096;
    }
    if sum >= 4096 {
        return 0;
    }
    assert(first_ints(coefs, order as nat) =~= Seq::new(
        order as nat,
        |i: int| a_q12@[i] * 4096,
    ));
    inverse_gain_qa(coefs, order)
}

} // verus!
