//! Prediction filters from line spectral frequencies.

use crate::fixed::{
    mul_ww, narrow16, product64, round_shift, sat16, sat16_of, shr64, wadd, wmul, wrap16, wrap32,
    wsub,
};
use crate::silk::bwexpander::{chirp_power, round_q16};
use crate::silk::bwexpander_32::bwexpander_32;
use crate::silk::lpc_inv_pred_gain::{inverse_gain_q12, lpc_inverse_pred_gain};
use crate::silk::math::{abs, round_shr};
use crate::silk::table_lsf_cos::SILK_LSF_COS_TAB_FIX_Q12;
use vstd::arithmetic::div_mod::*;
use vstd::arithmetic::power2::*;
use vstd::bits::*;
use vstd::prelude::*;

verus! {

/// Which frequency comes at each place of the polynomial evaluation, so that
/// rounding errors stay small.
pub const LSF_SOURCE_16: [usize; 16] = [0, 15, 8, 7, 4, 11, 12, 3, 2, 13, 10, 5, 6, 9, 14, 1];

pub const LSF_SOURCE_10: [usize; 10] = [0, 7, 8, 3, 4, 5, 2, 9, 6, 1];

/// The frequency at place `j`.
pub open spec fn lsf_source(d: int, j: int) -> int {
    if d == 16 {
        LSF_SOURCE_16[j] as int
    } else {
        LSF_SOURCE_10[j] as int
    }
}

/// `2 cos` (Q16) of a frequency (Q15), by interpolation.
pub open spec fn lsf_cosine(x: int) -> int {
    let low = SILK_LSF_COS_TAB_FIX_Q12[x / 256] as int;
    let high = SILK_LSF_COS_TAB_FIX_Q12[x / 256 + 1] as int;
    round_shift(low * 256 + (high - low) * (x % 256), 4)
}

/// The cosines in evaluation order.
pub open spec fn lsf_cosines(nlsf: Seq<i16>) -> Seq<int> {
    Seq::new(
        nlsf.len(),
        |j: int| lsf_cosine(nlsf[lsf_source(nlsf.len() as int, j)] as int),
    )
}

/// A product rounded to Q16.
pub open spec fn product_q16(a: int, b: int) -> int {
    wrap32(round_shift(a * b, 16))
}

/// The product of the first `k` factors `1 - c z + z^2`, of which every second
/// cosine from `first` on is taken; the first `k + 1` coefficients (Q16).
pub open spec fn factor_product(c: Seq<int>, first: int, k: nat) -> Seq<int>
    decreases k,
{
    if k <= 1 {
        seq![0x1_0000, wrap32(-c[first])]
    } else {
        let p = factor_product(c, first, (k - 1) as nat);
        let x = c[2 * (k - 1) + first];
        Seq::new(
            k + 1,
            |n: int|
                if n == 0 {
                    p[0]
                } else if n == 1 {
                    wrap32(p[1] - x)
                } else if n < k {
                    wrap32(p[n] + wrap32(p[n - 2] - product_q16(x, p[n - 1])))
                } else {
                    wrap32(wrap32(p[n - 2] * 2) - product_q16(x, p[n - 1]))
                },
        )
    }
}

/// The filter (Q17) with these cosines.
pub open spec fn filter_q17(c: Seq<int>) -> Seq<int> {
    let d = c.len() as int;
    let p = factor_product(c, 0, (d / 2) as nat);
    let q = factor_product(c, 1, (d / 2) as nat);
    Seq::new(
        c.len(),
        |i: int|
            if i < d / 2 {
                wrap32(wrap32(-wrap32(q[i + 1] - q[i])) - wrap32(p[i + 1] + p[i]))
            } else {
                let k = d - 1 - i;
                wrap32(wrap32(q[k + 1] - q[k]) - wrap32(p[k + 1] + p[k]))
            },
    )
}

/// Of the first `k` coefficients, the first of the largest magnitude.
pub open spec fn peak_at(a: Seq<int>, k: nat) -> int
    decreases k,
{
    if k <= 1 {
        0
    } else {
        let t = peak_at(a, (k - 1) as nat);
        if abs(a[k - 1]) > abs(a[t]) {
            k - 1
        } else {
            t
        }
    }
}

/// The largest magnitude in Q12.
pub open spec fn peak_q12(a: Seq<int>) -> int {
    round_shift(abs(a[peak_at(a, a.len())]), 5)
}

/// The chirp that brings the largest coefficient into range.
pub open spec fn fit_chirp(a: Seq<int>) -> int {
    let m = if peak_q12(a) < 163838 {
        peak_q12(a)
    } else {
        163838
    };
    65470 - ((m - 0x7fff) * 0x4000) / ((m * (peak_at(a, a.len()) + 1)) / 4)
}

pub open spec fn expanded(a: Seq<int>, chirp: int) -> Seq<int> {
    Seq::new(a.len(), |i: int| mul_ww(chirp_power(chirp, i as nat), a[i]))
}

/// A filter whose coefficients are brought into 16 bits by at most `left`
/// expansions; true if those were not enough.
pub open spec fn fitted(a: Seq<int>, left: nat) -> (Seq<int>, bool)
    decreases left,
{
    if left == 0 {
        (a, true)
    } else if peak_q12(a) <= 0x7fff {
        (a, false)
    } else {
        fitted(expanded(a, fit_chirp(a)), (left - 1) as nat)
    }
}

/// The filter in Q12.
pub open spec fn to_q12(a: Seq<int>) -> Seq<i16> {
    Seq::new(a.len(), |i: int| wrap16(round_shift(a[i], 5)) as i16)
}

pub open spec fn to_q12_limited(a: Seq<int>) -> Seq<i16> {
    Seq::new(a.len(), |i: int| sat16_of(round_shift(a[i], 5)) as i16)
}

pub open spec fn back_to_q17(a: Seq<i16>) -> Seq<int> {
    Seq::new(a.len(), |i: int| a[i] * 32)
}

/// The filter expanded until it is stable, in at most `16 - i` attempts.
pub open spec fn stable_q12(a_q12: Seq<i16>, a_q17: Seq<int>, i: nat) -> Seq<i16>
    decreases 16 - i,
{
    if i >= 16 || inverse_gain_q12(a_q12) != 0 {
        a_q12
    } else {
        let b = expanded(a_q17, 0x1_0000 - 2 * pow2(i) as int);
        stable_q12(to_q12(b), b, i + 1)
    }
}

/// The prediction filter (Q12) of line spectral frequencies (Q15).
pub open spec fn lpc_of_nlsf(nlsf: Seq<i16>) -> Seq<i16> {
    let (a, limited) = fitted(filter_q17(lsf_cosines(nlsf)), 10);
    if limited {
        stable_q12(to_q12_limited(a), back_to_q17(to_q12_limited(a)), 0)
    } else {
        stable_q12(to_q12(a), a, 0)
    }
}

// ---------------------------------------------------------------------
// Code
// ---------------------------------------------------------------------

/// `2 cos` of a frequency.
pub fn cosine(x: i16) -> (r: i32)
    requires
        x >= 0,
    ensures
        r == lsf_cosine(x as int),
{
    let i: usize = (x / 256) as usize;
    let f: i32 = (x % 256) as i32;
    let low: i32 = SILK_LSF_COS_TAB_FIX_Q12[i] as i32;
    let high: i32 = SILK_LSF_COS_TAB_FIX_Q12[i + 1] as i32;
    proof {
        assert(-0x1_0000 * 256 <= (high - low) * f <= 0x1_0000 * 256) by (nonlinear_arith)
            requires
                -0x1_0000 <= high - low <= 0x1_0000,
                0 <= f <= 255,
        ;
    }
    round_shr(low * 256 + (high - low) * f, 4)
}

pub fn mul_round_q16(a: i32, b: i32) -> (r: i32)
    ensures
        r == product_q16(a as int, b as int),
{
    round_q16(product64(a, b))
}

/// The first values are those of the sequence.
pub open spec fn holds9(a: [i32; 9], s: Seq<int>) -> bool {
    &&& s.len() <= 9
    &&& forall|n: int| 0 <= n < s.len() ==> #[trigger] a[n] == s[n]
}

/// The product of `dd` factors.
pub fn find_poly(c: &[i32; 16], first: usize, dd: usize, Ghost(cs): Ghost<Seq<int>>) -> (out: [i32;
    9])
    requires
        2 <= dd <= 8,
        first <= 1,
        cs.len() == 2 * dd,
        forall|j: int| 0 <= j < cs.len() ==> #[trigger] c[j] == cs[j],
    ensures
        holds9(out, factor_product(cs, first as int, dd as nat)),
        factor_product(cs, first as int, dd as nat).len() == dd + 1,
{
    let mut out: [i32; 9] = [0;9];
    out[0] = 0x1_0000;
    out[1] = wsub(0, c[first]);
    assert(holds9(out, factor_product(cs, first as int, 1)));
    for k in 2..dd + 1
        invariant
            2 <= dd <= 8,
            first <= 1,
            cs.len() == 2 * dd,
            forall|j: int| 0 <= j < cs.len() ==> #[trigger] c[j] == cs[j],
            factor_product(cs, first as int, (k - 1) as nat).len() == k,
            holds9(out, factor_product(cs, first as int, (k - 1) as nat)),
    {
        let ghost p = factor_product(cs, first as int, (k - 1) as nat);
        let ghost goal = factor_product(cs, first as int, k as nat);
        let x: i32 = c[2 * (k - 1) + first];
        assert(x == cs[2 * (k - 1) + first]);
        out[k] = wsub(wmul(out[k - 2], 2), mul_round_q16(x, out[k - 1]));
        let mut n: usize = k;
        while n > 2
            invariant
                2 <= k <= dd <= 8,
                2 <= n <= k,
                p.len() == k,
                goal.len() == k + 1,
                x == cs[2 * (k - 1) + first],
                p == factor_product(cs, first as int, (k - 1) as nat),
                goal == factor_product(cs, first as int, k as nat),
                forall|j: int| n <= j <= k ==> #[trigger] out[j] == goal[j],
                forall|j: int| 0 <= j < n ==> #[trigger] out[j] == p[j],
            decreases n,
        {
            n = n - 1;
            out[n] = wadd(out[n], wsub(out[n - 2], mul_round_q16(x, out[n - 1])));
        }
        out[1] = wsub(out[1], x);
        assert(out[0] == goal[0]);
    }
    out
}

/// The cosines of the frequencies in evaluation order.
pub(crate) fn cosines(nlsf: &[i16]) -> (c: [i32; 16])
    requires
        nlsf@.len() == 10 || nlsf@.len() == 16,
        forall|i: int| 0 <= i < nlsf@.len() ==> 0 <= #[trigger] nlsf@[i],
    ensures
        forall|j: int| 0 <= j < nlsf@.len() ==> #[trigger] c[j] == lsf_cosines(nlsf@)[j],
{
    let d: usize = nlsf.len();
    let mut c: [i32; 16] = [0;16];
    for j in 0..d
        invariant
            d == nlsf@.len(),
            d == 10 || d == 16,
            forall|i: int| 0 <= i < nlsf@.len() ==> 0 <= #[trigger] nlsf@[i],
            forall|i: int| 0 <= i < j ==> #[trigger] c[i] == lsf_cosines(nlsf@)[i],
    {
        let from: usize = if d == 16 {
            LSF_SOURCE_16[j]
        } else {
            LSF_SOURCE_10[j]
        };
        proof {
            lemma_sources(d as int, j as int);
        }
        c[j] = cosine(nlsf[from]);
    }
    c
}

/// Sources are places.
proof fn lemma_sources(d: int, j: int)
    requires
        d == 10 || d == 16,
        0 <= j < d,
    ensures
        0 <= lsf_source(d, j) < d,
{
}

pub open spec fn holds16(a: [i32; 16], s: Seq<int>) -> bool {
    &&& s.len() <= 16
    &&& forall|n: int| 0 <= n < s.len() ==> #[trigger] a[n] == s[n]
}

/// The filter with these cosines.
pub fn filter_of_cosines(c: &[i32; 16], d: usize, Ghost(cs): Ghost<Seq<int>>) -> (a: [i32; 16])
    requires
        d == 10 || d == 16,
        cs.len() == d,
        forall|j: int| 0 <= j < cs.len() ==> #[trigger] c[j] == cs[j],
    ensures
        holds16(a, filter_q17(cs)),
        filter_q17(cs).len() == d,
{
    let dd: usize = d / 2;
    let p: [i32; 9] = find_poly(c, 0, dd, Ghost(cs));
    let q: [i32; 9] = find_poly(c, 1, dd, Ghost(cs));
    let mut a: [i32; 16] = [0;16];
    let ghost goal = filter_q17(cs);
    for k in 0..dd
        invariant
            d == 10 || d == 16,
            dd == d / 2,
            cs.len() == d,
            goal == filter_q17(cs),
            holds9(p, factor_product(cs, 0, dd as nat)),
            holds9(q, factor_product(cs, 1, dd as nat)),
            factor_product(cs, 0, dd as nat).len() == dd + 1,
            factor_product(cs, 1, dd as nat).len() == dd + 1,
            forall|i: int| 0 <= i < k ==> #[trigger] a[i] == goal[i],
            forall|i: int| d - k <= i < d ==> #[trigger] a[i] == goal[i],
    {
        let sum: i32 = wadd(p[k + 1], p[k]);
        let diff: i32 = wsub(q[k + 1], q[k]);
        a[k] = wsub(wsub(0, diff), sum);
        a[d - k - 1] = wsub(diff, sum);
    }
    a
}

pub(crate) fn magnitude(v: i32) -> (r: i64)
    ensures
        r == abs(v as int),
{
    if v >= 0 {
        v as i64
    } else {
        -(v as i64)
    }
}

/// Expands the first `d` coefficients.
pub(crate) fn expand(a: &mut [i32; 16], d: usize, chirp: i32, Ghost(s): Ghost<Seq<int>>)
    requires
        d <= 16,
        s.len() == d,
        holds16(*old(a), s),
    ensures
        holds16(*final(a), expanded(s, chirp as int)),
{
    let mut part: Vec<i32> = Vec::new();
    for i in 0..d
        invariant
            d <= 16,
            s.len() == d,
            holds16(*a, s),
            part@.len() == i,
            forall|j: int| 0 <= j < i ==> #[trigger] part@[j] == s[j],
    {
        part.push(a[i]);
    }
    bwexpander_32(&mut part, chirp);
    for i in 0..d
        invariant
            d <= 16,
            s.len() == d,
            part@.len() == d,
            forall|j: int|
                0 <= j < d ==> #[trigger] part@[j] == mul_ww(
                    chirp_power(chirp as int, j as nat),
                    s[j],
                ),
            forall|j: int| 0 <= j < i ==> #[trigger] a[j] == expanded(s, chirp as int)[j],
    {
        a[i] = part[i];
    }
}

/// Where the largest magnitude is.
pub(crate) fn find_peak(a: &[i32; 16], d: usize, Ghost(s): Ghost<Seq<int>>) -> (t: usize)
    requires
        1 <= d <= 16,
        s.len() == d,
        holds16(*a, s),
    ensures
        t < d,
        t == peak_at(s, d as nat),
{
    let mut t: usize = 0;
    for k in 1..d
        invariant
            1 <= d <= 16,
            s.len() == d,
            holds16(*a, s),
            t < k,
            t == peak_at(s, k as nat),
    {
        if magnitude(a[k]) > magnitude(a[t]) {
            t = k;
        }
    }
    t
}

/// Brings the coefficients into 16 bits; true if ten expansions were not
/// enough.
fn fit(a: &mut [i32; 16], d: usize, Ghost(s): Ghost<Seq<int>>) -> (limited: bool)
    requires
        1 <= d <= 16,
        s.len() == d,
        holds16(*old(a), s),
    ensures
        holds16(*final(a), fitted(s, 10).0),
        limited == fitted(s, 10).1,
        fitted(s, 10).0.len() == d,
{
    let mut left: usize = 10;
    let ghost mut cur = s;
    while left > 0
        invariant
            1 <= d <= 16,
            cur.len() == d,
            holds16(*a, cur),
            left <= 10,
            fitted(s, 10) == fitted(cur, left as nat),
        decreases left,
    {
        let t: usize = find_peak(a, d, Ghost(cur));
        let m: i64 = magnitude(a[t]);
        proof {
            reveal(round_shift);
            lemma2_to64();
        }
        let peak: i64 = shr64(shr64(m, 4) + 1, 1);
        assert((5 - 1) as nat == 4);
        assert(peak == peak_q12(cur));
        if peak <= 0x7fff {
            return false;
        }
        let top: i64 = if peak < 163838 {
            peak
        } else {
            163838
        };
        proof {
            assert(0x8000 <= top * (t + 1) <= 163838 * 16) by (nonlinear_arith)
                requires
                    0x8000 <= top <= 163838,
                    0 <= t <= 15,
            ;
        }
        let den: i64 = (top * (t as i64 + 1)) / 4;
        let num: i64 = (top - 0x7fff) * 0x4000;
        proof {
            crate::fixed::lemma_div_is_ordered_by_denominator_signed(num as int, den as int);
        }
        let cut: i64 = num / den;
        let chirp: i32 = (65470 - cut) as i32;
        assert(chirp == fit_chirp(cur));
        expand(a, d, chirp, Ghost(cur));
        proof {
            cur = expanded(cur, chirp as int);
        }
        left = left - 1;
    }
    true
}

/// Prediction filter (Q12) of line spectral frequencies (Q15).
pub fn nlsf2a(a_q12: &mut [i16], nlsf_q15: &[i16])
    requires
        nlsf_q15@.len() == 10 || nlsf_q15@.len() == 16,
        old(a_q12)@.len() >= nlsf_q15@.len(),
        forall|i: int| 0 <= i < nlsf_q15@.len() ==> 0 <= #[trigger] nlsf_q15@[i],
    ensures
        final(a_q12)@.len() == old(a_q12)@.len(),
        final(a_q12)@.subrange(0, nlsf_q15@.len() as int) == lpc_of_nlsf(nlsf_q15@),
        lpc_of_nlsf(nlsf_q15@).len() == nlsf_q15@.len(),
        forall|i: int|
            nlsf_q15@.len() <= i < old(a_q12)@.len() ==> #[trigger] final(a_q12)@[i] == old(
                a_q12,
            )@[i],
{
    let d: usize = nlsf_q15.len();
    let ghost cs = lsf_cosines(nlsf_q15@);
    let c: [i32; 16] = cosines(nlsf_q15);
    let mut a: [i32; 16] = filter_of_cosines(&c, d, Ghost(cs));
    let ghost s0 = filter_q17(cs);
    let limited: bool = fit(&mut a, d, Ghost(s0));
    let ghost mut s = fitted(s0, 10).0;
    let mut out: Vec<i16> = Vec::new();
    for k in 0..d
        invariant
            d <= 16,
            s.len() == d,
            holds16(a, s),
            out@.len() == k,
            forall|i: int|
                0 <= i < k ==> #[trigger] out@[i] == if limited {
                    to_q12_limited(s)[i]
                } else {
                    to_q12(s)[i]
                },
    {
        proof {
            crate::fixed::lemma_wrap16_range(round_shift(s[k as int], 5));
        }
        let v: i32 = round_shr(a[k], 5);
        out.push(
            if limited {
                sat16(v)
            } else {
                narrow16(v)
            },
        );
    }
    if limited {
        for k in 0..d
            invariant
                d <= 16,
                out@.len() == d,
                forall|i: int| 0 <= i < k ==> #[trigger] a[i] == out@[i] * 32,
        {
            a[k] = out[k] as i32 * 32;
        }
        proof {
            assert(out@ =~= to_q12_limited(s));
            s = back_to_q17(to_q12_limited(s));
        }
    } else {
        assert(out@ =~= to_q12(s));
    }
    let ghost goal = lpc_of_nlsf(nlsf_q15@);
    let mut i: usize = 0;
    let mut gain: i32 = lpc_inverse_pred_gain(&out);
    while i < 16 && gain == 0
        invariant
            i <= 16,
            d == 10 || d == 16,
            s.len() == d,
            holds16(a, s),
            out@.len() == d,
            gain == inverse_gain_q12(out@),
            goal == stable_q12(out@, s, i as nat),
        decreases 16 - i,
    {
        proof {
            lemma2_to64();
            lemma_pow2_strictly_increases(i as nat, 16);
            lemma_u32_shl_is_mul(1, i as u32);
        }
        let chirp: i32 = 0x1_0000 - 2 * (1u32 << i as u32) as i32;
        expand(&mut a, d, chirp, Ghost(s));
        proof {
            s = expanded(s, chirp as int);
        }
        let mut next: Vec<i16> = Vec::new();
        for k in 0..d
            invariant
                d <= 16,
                s.len() == d,
                holds16(a, s),
                next@.len() == k,
                forall|j: int| 0 <= j < k ==> #[trigger] next@[j] == to_q12(s)[j],
        {
            proof {
                crate::fixed::lemma_wrap16_range(round_shift(s[k as int], 5));
            }
            next.push(narrow16(round_shr(a[k], 5)));
        }
        assert(next@ =~= to_q12(s));
        out = next;
        gain = lpc_inverse_pred_gain(&out);
        i = i + 1;
    }
    for k in 0..d
        invariant
            out@.len() == d,
            d <= a_q12@.len(),
            a_q12@.len() == old(a_q12)@.len(),
            forall|j: int| 0 <= j < k ==> #[trigger] a_q12@[j] == out@[j],
            forall|j: int| d <= j < a_q12@.len() ==> #[trigger] a_q12@[j] == old(a_q12)@[j],
    {
        a_q12[k] = out[k];
    }
    assert(a_q12@.subrange(0, d as int) =~= out@);
}

} // verus!
