//! Where the frequencies of a filter are found, and what a filter is made of them.

use crate::fixed::{div_trunc, lemma_wrap16_range, lemma_wrap32_range, mul_ww, round_shift, wrap32};
use crate::silk::a2nlsf::{
    even_spacing, half_step, halved, poly_tail, poly_value, root_frequency, root_position, Bracket,
};
use crate::silk::decoder_predictor::{filter_of, limited, range_limited};
use crate::silk::lpc_inv_pred_gain::inverse_gain_q12;
use crate::silk::nlsf2a::{
    filter_q17, fitted, lpc_of_nlsf, lsf_cosine, lsf_cosines, peak_q12, stable_q12, to_q12,
};
use crate::silk::table_lsf_cos::SILK_LSF_COS_TAB_FIX_Q12;
use vstd::arithmetic::div_mod::*;
use vstd::arithmetic::power2::*;
use vstd::prelude::*;

verus! {

/// The polynomial changes sign inside the bracket, and its values leave room.
spec fn encloses(b: Bracket) -> bool {
    &&& b.ylo >= 0 && b.yhi <= 0 || b.ylo <= 0 && b.yhi >= 0
    &&& -0x1000_0000 <= b.ylo <= 0x1000_0000
    &&& -0x1000_0000 <= b.yhi <= 0x1000_0000
}

/// Between two points with values of opposite signs, a root is put at the part of the
/// way that the first value is of their difference: inside the step.
proof fn lemma_root_position(b: Bracket)
    requires
        encloses(b),
        -256 <= b.frac <= -32,
    ensures
        b.frac <= root_position(b) <= b.frac + 33,
{
    let d = b.ylo - b.yhi;
    lemma_wrap32_range(d);
    if -0x1_0000 < b.ylo < 0x1_0000 {
        if d != 0 {
            lemma_wrap32_range(b.ylo * 32);
            let nom = b.ylo * 32 + d / 2;
            lemma_wrap32_range(nom);
            let q = div_trunc(nom, d);
            if d > 0 {
                assert(0 <= nom <= 33 * d);
                lemma_fundamental_div_mod(nom, d);
                lemma_mod_bound(nom, d);
                assert(0 <= q <= 33) by (nonlinear_arith)
                    requires
                        nom == d * q + nom % d,
                        0 <= nom % d < d,
                        0 <= nom <= 33 * d,
                        d > 0,
                ;
            } else {
                let n = -nom;
                let e = -d;
                assert(0 <= n <= 33 * e);
                lemma_fundamental_div_mod(n, e);
                lemma_mod_bound(n, e);
                assert(nom < 0);
                assert(q == n / e);
                assert(0 <= q <= 33) by (nonlinear_arith)
                    requires
                        n == e * q + n % e,
                        0 <= n % e < e,
                        0 <= n <= 33 * e,
                        e > 0,
                ;
            }
            lemma_wrap32_range(b.frac + q);
        }
    } else {
        let den = d / 32;
        if den != 0 {
            let q = div_trunc(b.ylo, den);
            if b.ylo > 0 {
                assert(d >= b.ylo);
                assert(0 < b.ylo <= 33 * den);
                lemma_fundamental_div_mod(b.ylo, den);
                lemma_mod_bound(b.ylo, den);
                assert(0 <= q <= 33) by (nonlinear_arith)
                    requires
                        b.ylo == den * q + b.ylo % den,
                        0 <= b.ylo % den < den,
                        0 < b.ylo <= 33 * den,
                        den > 0,
                ;
            } else {
                let n = -b.ylo;
                let e = -den;
                assert(0 < n <= 33 * e);
                lemma_fundamental_div_mod(n, e);
                lemma_mod_bound(n, e);
                assert(q == n / e);
                assert(0 <= q <= 33) by (nonlinear_arith)
                    requires
                        n == e * q + n % e,
                        0 <= n % e < e,
                        0 < n <= 33 * e,
                        e > 0,
                ;
            }
            lemma_wrap32_range(b.frac + q);
        }
    }
}

/// A bracket that is halved still encloses a root, in the half where the sign
/// changes.
proof fn lemma_halved(poly: Seq<int>, b: Bracket, m: int)
    requires
        encloses(b),
        forall|x: int| -0x1000_0000 <= #[trigger] poly_value(poly, x) <= 0x1000_0000,
        0 <= m <= 2,
        -256 <= b.frac <= -32 - half_step(m),
    ensures
        encloses(halved(poly, b, m)),
        b.frac <= halved(poly, b, m).frac <= b.frac + half_step(m),
{
    let xmid = (wrap32(b.xlo + b.xhi) + 1) / 2;
    let y = poly_value(poly, xmid);
    lemma_wrap32_range(b.frac + half_step(m));
}

/// A root that lies between two entries of the cosine table is given a frequency
/// between theirs, which are 256 apart.
pub proof fn law_root_lies_in_its_step(poly: Seq<int>, k: int, xlo: int, ylo: int, yhi: int)
    requires
        1 <= k <= 128,
        ylo >= 0 && yhi <= 0 || ylo <= 0 && yhi >= 0,
        -0x1000_0000 <= ylo <= 0x1000_0000,
        -0x1000_0000 <= yhi <= 0x1000_0000,
        forall|x: int| -0x1000_0000 <= #[trigger] poly_value(poly, x) <= 0x1000_0000,
    ensures
        256 * (k - 1) <= root_frequency(poly, k, xlo, ylo, yhi) <= 256 * k + 1,
        root_frequency(poly, k, xlo, ylo, yhi) <= 0x7fff,
{
    let b = Bracket { xlo, ylo, xhi: crate::silk::a2nlsf::cos_at(k), yhi, frac: -256 };
    lemma_halved(poly, b, 0);
    let b1 = halved(poly, b, 0);
    lemma_halved(poly, b1, 1);
    let b2 = halved(poly, b1, 1);
    lemma_halved(poly, b2, 2);
    let b3 = halved(poly, b2, 2);
    lemma_root_position(b3);
    lemma_wrap32_range(k * 256);
    lemma_wrap32_range(k * 256 + root_position(b3));
}

/// A polynomial of degree one takes the value of its constant and its slope times
/// the point (the table's Q12 in Q16).
pub proof fn law_polynomial_is_evaluated(poly: Seq<int>, x: int)
    requires
        poly.len() == 2,
        -0x1000_0000 <= poly[0] <= 0x1000_0000,
        -0x800_0000 <= poly[1] <= 0x800_0000,
        -8192 <= x <= 8192,
    ensures
        poly_value(poly, x) == poly[0] + (poly[1] * (16 * x)) / 0x1_0000,
{
    lemma_wrap32_range(x * 16);
    assert(poly_tail(poly, x * 16, 1) == poly[1]);
    let v = poly[1] * (16 * x);
    assert(-0x800_0000 * 0x2_0000 <= v <= 0x800_0000 * 0x2_0000) by (nonlinear_arith)
        requires
            v == poly[1] * (16 * x),
            -0x800_0000 <= poly[1] <= 0x800_0000,
            -8192 <= x <= 8192,
    ;
    reveal(mul_ww);
    lemma_wrap32_range(v / 0x1_0000);
    lemma_wrap32_range(poly[0] + v / 0x1_0000);
}

/// Where no roots are found the frequencies are spaced evenly over the band.
pub proof fn law_even_frequencies(len: nat, i: int)
    requires
        1 <= len <= 24,
        0 <= i < len,
    ensures
        ({
            let f = even_spacing(len);
            let step = 0x8000int / (len as int + 1);
            &&& f.len() == len
            &&& f[i] == (i + 1) * step
            &&& i + 1 < len ==> f[i + 1] - f[i] == step
            &&& 0 < f[i] < 0x8000
        }),
{
    let step = 0x8000int / (len as int + 1);
    lemma_fundamental_div_mod(0x8000, len as int + 1);
    lemma_mod_bound(0x8000, len as int + 1);
    let n = len as int + 1;
    assert(step >= 1 && step * n <= 0x8000) by (nonlinear_arith)
        requires
            0x8000 == n * step + 0x8000int % n,
            0 <= 0x8000int % n < n,
            2 <= n <= 25,
    ;
    assert forall|j: int| 0 <= j < len implies 0 < #[trigger] ((j + 1) * step) < 0x8000 by {
        assert(0 < (j + 1) * step < 0x8000) by (nonlinear_arith)
            requires
                0 <= j,
                j + 1 < n,
                step >= 1,
                step * n <= 0x8000,
        ;
    }
    assert(0 < (i + 1) * step < 0x8000);
    if i + 1 < len {
        assert(0 < (i + 1 + 1) * step < 0x8000);
        assert((i + 1 + 1) * step == (i + 1) * step + step) by (nonlinear_arith);
    }
}

/// At the entries of the cosine table the cosine of a frequency is the entry (Q12 in
/// Q16), and between two it lies between theirs.
pub proof fn law_cosine_follows_the_table(x: int)
    requires
        0 <= x <= 0x7fff,
    ensures
        ({
            let low = SILK_LSF_COS_TAB_FIX_Q12[x / 256] as int;
            let high = SILK_LSF_COS_TAB_FIX_Q12[x / 256 + 1] as int;
            &&& x % 256 == 0 ==> lsf_cosine(x) == 16 * low
            &&& low <= high ==> 16 * low <= lsf_cosine(x) <= 16 * high
            &&& high <= low ==> 16 * high <= lsf_cosine(x) <= 16 * low
        }),
{
    lemma2_to64();
    let low = SILK_LSF_COS_TAB_FIX_Q12[x / 256] as int;
    let high = SILK_LSF_COS_TAB_FIX_Q12[x / 256 + 1] as int;
    let f = x % 256;
    let d = (high - low) * f;
    assert(low <= high ==> 0 <= d <= 256 * (high - low)) by (nonlinear_arith)
        requires
            d == (high - low) * f,
            0 <= f <= 255,
    ;
    assert(high <= low ==> 256 * (high - low) <= d <= 0) by (nonlinear_arith)
        requires
            d == (high - low) * f,
            0 <= f <= 255,
    ;
    if f == 0 {
        assert((high - low) * 0 == 0);
    }
    let v = low * 256 + d;
    assert(round_shift(v, 4) == (v / 8 + 1) / 2) by {
        reveal(round_shift);
    }
}

/// Both forms of the predictor agree where its coefficients fit and it is stable.
pub proof fn law_predictors_agree(nlsf: Seq<i16>, i: int)
    requires
        ({
            let a = filter_q17(lsf_cosines(nlsf));
            &&& 0 <= i < a.len()
            &&& peak_q12(a) <= 0x7fff
            &&& inverse_gain_q12(to_q12(a)) != 0
            &&& -0xf_0000 <= a[i] <= 0xf_0000
        }),
    ensures
        lpc_of_nlsf(nlsf)[i] == filter_of(nlsf)[i],
{
    lemma2_to64();
    let a = filter_q17(lsf_cosines(nlsf));
    assert(fitted(a, 10) == (a, false));
    assert(stable_q12(to_q12(a), a, 0) == to_q12(a));
    assert(range_limited(a, 10) == (a, 10nat));
    assert(limited(a) == a);
    let v = a[i];
    lemma_wrap32_range(v + 16);
    assert(round_shift(v, 5) == (v / 16 + 1) / 2) by {
        reveal(round_shift);
    }
    assert((v / 16 + 1) / 2 == (v + 16) / 32);
    lemma_wrap16_range((v + 16) / 32);
}

} // verus!
