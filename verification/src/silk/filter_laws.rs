//! What filters and correlations do to their inputs.

use crate::fixed::{asr, lemma_mul_wb, lemma_wrap32_range, mul_wb, round_shift, wrap16, wrap32};
use crate::silk::a2nlsf::{cos_powers, difference_coef, p_coef, pass_coef, q_coef, sum_coef};
use crate::silk::ana_filt_bank_1::{bank_state, even_pass, high_sample, low_sample, odd_pass};
use crate::silk::biquad_alt::{
    biquad_coefs, biquad_delay, biquad_next, biquad_output, biquad_q14, biquad_state,
};
use crate::silk::burg_modified::lag_product;
use crate::silk::corr_matrix::{diagonal_entry, lag_sum};
use crate::silk::inner_prod::dot;
use crate::silk::math::abs;
use crate::silk::nlsf2a::{factor_product, filter_q17};
use crate::silk::nsq::taps_sum;
use crate::silk::signal_laws::law_energy_sums_squares;
use crate::silk::sum_sqr_shift::{energy_shift, pair_count};
use vstd::arithmetic::power2::*;
use vstd::prelude::*;

verus! {

// ---------------------------------------------------------------------
// Second-order sections
// ---------------------------------------------------------------------

/// What a unit coefficient (Q28) makes of a sample.
proof fn lemma_unit(x: int)
    requires
        -0x8000 <= x <= 0x7fff,
    ensures
        mul_wb(0x1000_0000, x) == 4096 * x,
        mul_wb(0, x) == 0,
{
    lemma_mul_wb(0x1000_0000, x);
    lemma_mul_wb(0, x);
}

proof fn lemma_no_feedback(a: Seq<i32>, b: Seq<i32>, carry: int, k: int, out: int, x: int)
    requires
        a.len() == 2,
        a[0] == 0,
        a[1] == 0,
        -0x4000_0000 <= carry <= 0x4000_0000,
        b[k] == 0 || b[k] == 0x1000_0000,
        -0x8000 <= x <= 0x7fff,
    ensures
        ({
            let c = biquad_coefs(b, a);
            let v = if b[k] == 0 {
                carry
            } else {
                carry + 4096 * x
            };
            &&& biquad_delay(carry, c.a0_low, c.a0_high, b[k] as int, out, x) == v
            &&& biquad_delay(carry, c.a1_low, c.a1_high, b[k] as int, out, x) == v
        }),
{
    lemma2_to64();
    lemma_wrap32_range(0);
    lemma_unit(x);
    lemma_mul_wb(out, 0);
    assert(out * 0 == 0);
    reveal(round_shift);
    lemma_wrap32_range(carry);
    lemma_wrap32_range(carry + 4096 * x);
}

/// Without feedback a section whose second coefficient is one delays by one sample,
/// and one whose third is one by two.
pub proof fn law_coefficients_delay(b: Seq<i32>, a: Seq<i32>, x: Seq<i16>, k: nat)
    requires
        b.len() == 3,
        a.len() == 2,
        b[0] == 0,
        b[1] == 0x1000_0000 && b[2] == 0 || b[1] == 0 && b[2] == 0x1000_0000,
        a[0] == 0,
        a[1] == 0,
        k <= x.len(),
    ensures
        biquad_state(biquad_coefs(b, a), (0, 0), x, k) == if b[1] == 0 {
            (
                if k >= 2 {
                    4096 * x[k - 2] as int
                } else {
                    0int
                },
                if k >= 1 {
                    4096 * x[k - 1] as int
                } else {
                    0int
                },
            )
        } else {
            (
                if k >= 1 {
                    4096 * x[k - 1] as int
                } else {
                    0int
                },
                0int,
            )
        },
        k < x.len() && b[1] != 0 && k >= 1 ==> biquad_output(biquad_coefs(b, a), (0, 0), x, k)
            == x[k - 1],
        k < x.len() && b[1] == 0 && k >= 2 ==> biquad_output(biquad_coefs(b, a), (0, 0), x, k)
            == x[k - 2],
    decreases k,
{
    let c = biquad_coefs(b, a);
    if k > 0 {
        law_coefficients_delay(b, a, x, (k - 1) as nat);
        let s = biquad_state(c, (0, 0), x, (k - 1) as nat);
        let v = x[k - 1] as int;
        let out = biquad_q14(c, s.0, v);
        lemma_no_feedback(a, b, s.1, 1, out, v);
        lemma_no_feedback(a, b, 0, 2, out, v);
    }
    if k < x.len() {
        let s = biquad_state(c, (0, 0), x, k);
        let v = x[k as int] as int;
        lemma_unit(v);
        lemma_wrap32_range(s.0);
        lemma_wrap32_range(s.0 * 4);
        lemma_wrap32_range(s.0 * 4 + 0x3fff);
    }
}

/// A delay's new value is what it is given and the output times the negated
/// coefficient.
proof fn lemma_feedback(coef: int, carry: int, out: int, x: int)
    requires
        -0x1fff_0000 <= coef <= 0x1fff_0000,
        -0x2000_0000 <= carry <= 0x2000_0000,
        -0x2000_0000 <= out <= 0x2000_0000,
    ensures
        ({
            let n = wrap32(-coef);
            let next = biquad_delay(carry, n % 0x4000, n / 0x4000, 0, out, x);
            -0x8000_0000 <= 0x4000_0000 * (next - carry) + coef * out <= 0x8000_0000
        }),
{
    lemma2_to64();
    let n = -coef;
    lemma_wrap32_range(n);
    let low = n % 0x4000;
    let high = n / 0x4000;
    lemma_mul_wb(out, low);
    lemma_mul_wb(out, high);
    lemma_mul_wb_none(x);
    let ol = out * low;
    let oh = out * high;
    assert(-0x800_0000_0000 <= ol <= 0x800_0000_0000) by (nonlinear_arith)
        requires
            ol == out * low,
            0 <= low < 0x4000,
            -0x2000_0000 <= out <= 0x2000_0000,
    ;
    assert(-0x1000_0000_0000 <= oh <= 0x1000_0000_0000) by (nonlinear_arith)
        requires
            oh == out * high,
            -0x8000 <= high <= 0x7fff,
            -0x2000_0000 <= out <= 0x2000_0000,
    ;
    assert(out * n == 0x4000 * oh + ol) by (nonlinear_arith)
        requires
            n == 0x4000 * high + low,
            oh == out * high,
            ol == out * low,
    ;
    let l = ol / 0x1_0000;
    let r = (l / 0x2000 + 1) / 2;
    assert(round_shift(l, 14) == r) by {
        reveal(round_shift);
    }
    let h = oh / 0x1_0000;
    lemma_wrap32_range(carry + r);
    lemma_wrap32_range(carry + r + h);
    assert(out * n == -(coef * out)) by (nonlinear_arith)
        requires
            n == -coef,
    ;
}

proof fn lemma_mul_wb_none(x: int)
    ensures
        mul_wb(0, x) == 0,
{
    reveal(mul_wb);
    assert(0 * wrap16(x) == 0);
}

/// Feedback is taken away: the delays' new values are the output times the negated
/// coefficients (Q28 and Q14 make Q42, of which 30 bits are dropped), the first on top
/// of what the second held, but for rounding.
pub proof fn law_feedback_is_taken_away(b: Seq<i32>, a: Seq<i32>, s: (int, int), x: int)
    requires
        b.len() == 3,
        a.len() == 2,
        b[1] == 0,
        b[2] == 0,
        -0x1fff_0000 <= a[0] <= 0x1fff_0000,
        -0x1fff_0000 <= a[1] <= 0x1fff_0000,
        -0x2000_0000 <= s.1 <= 0x2000_0000,
        -0x2000_0000 <= biquad_q14(biquad_coefs(b, a), s.0, x) <= 0x2000_0000,
    ensures
        ({
            let c = biquad_coefs(b, a);
            let out = biquad_q14(c, s.0, x);
            let next = biquad_next(c, s, x);
            &&& -0x8000_0000 <= 0x4000_0000 * (next.0 - s.1) + a[0] * out <= 0x8000_0000
            &&& -0x8000_0000 <= 0x4000_0000 * next.1 + a[1] * out <= 0x8000_0000
        }),
{
    let out = biquad_q14(biquad_coefs(b, a), s.0, x);
    lemma_feedback(a[0] as int, s.1, out, x);
    lemma_feedback(a[1] as int, 0, out, x);
}

// ---------------------------------------------------------------------
// Bands
// ---------------------------------------------------------------------

/// A constant signal is all in the low band.
pub proof fn law_constant_is_low(state: Seq<i32>, input: Seq<i16>, v: int, k: nat)
    requires
        state.len() == 2,
        -0x8000 <= v <= 0x7fff,
        state[0] == 1024 * v,
        state[1] == 1024 * v,
        2 * k < input.len(),
        input.len() % 2 == 0,
        forall|i: int| 0 <= i < input.len() ==> #[trigger] input[i] == v,
    ensures
        bank_state(state, input, k) == (1024 * v, 1024 * v),
        low_sample(state, input, k) == v,
        high_sample(state, input, k) == 0,
    decreases k,
{
    lemma_wrap32_range(0);
    lemma_mul_wb(0, -24290);
    lemma_mul_wb(0, 10788);
    lemma_wrap32_range(1024 * v);
    lemma_wrap32_range(2048 * v);
    assert(even_pass(1024 * v, v) == (1024 * v, 1024 * v));
    assert(odd_pass(1024 * v, v) == (1024 * v, 1024 * v));
    if k > 0 {
        law_constant_is_low(state, input, v, (k - 1) as nat);
        assert(input[2 * k - 2] == v && input[2 * k - 1] == v);
    }
    assert(input[2 * k as int] == v && input[(2 * k + 1) as int] == v);
    assert(round_shift(2048 * v, 11) == v && round_shift(0, 11) == 0) by {
        lemma2_to64();
        reveal(round_shift);
        assert((2048 * v) / 1024 == 2 * v);
    }
    assert(wrap32(1024 * v + 1024 * v) == 2048 * v);
    assert(wrap32(1024 * v - 1024 * v) == 0);
}

// ---------------------------------------------------------------------
// Correlations
// ---------------------------------------------------------------------

/// A signal correlates with nothing as much as with itself: the correlation at a
/// lag is no larger than its energy.
pub proof fn law_energy_bounds_correlation(x: Seq<i16>, lag: int, to: int)
    requires
        0 <= lag,
        0 <= to,
    ensures
        abs(2 * lag_product(x, 0, lag, to)) <= lag_product(x, 0, 0, to) + lag_product(
            x,
            0,
            0,
            to - lag,
        ),
        0 <= lag_product(x, 0, 0, to),
        lag_product(x, 0, 0, to - lag) <= lag_product(x, 0, 0, to),
        abs(lag_product(x, 0, lag, to)) <= lag_product(x, 0, 0, to),
    decreases to,
{
    lemma_energy_rises(x, to, to - lag);
    if to > 0 {
        law_energy_bounds_correlation(x, lag, to - 1);
        lemma_energy_rises(x, to - 1, to - 1 - lag);
        if to > lag {
            let a = x[to - 1] as int;
            let b = x[to - 1 - lag] as int;
            assert(2 * (a * b) <= a * a + b * b && -2 * (a * b) <= a * a + b * b)
                by (nonlinear_arith);
            assert(lag_product(x, 0, 0, to) == lag_product(x, 0, 0, to - 1) + a * a);
            assert(lag_product(x, 0, 0, to - lag) == lag_product(x, 0, 0, to - 1 - lag) + b * b);
        } else {
            assert(lag_product(x, 0, lag, to) == 0);
            assert(lag_product(x, 0, 0, to - lag) == 0);
        }
    }
}

proof fn lemma_energy_rises(x: Seq<i16>, to: int, less: int)
    requires
        less <= to,
    ensures
        0 <= lag_product(x, 0, 0, less) <= lag_product(x, 0, 0, to),
    decreases to - less, to,
{
    if to > 0 {
        let a = x[to - 1] as int;
        assert(a * a >= 0) by (nonlinear_arith);
        if less < to {
            lemma_energy_rises(x, to - 1, less);
        } else {
            lemma_energy_rises(x, to - 1, to - 1);
        }
    }
}

proof fn lemma_lag_sum_splits(x: Seq<i16>, from: int, at: int, to: int)
    requires
        from <= at <= to,
    ensures
        lag_sum(x, 0, 0, from, to) == lag_sum(x, 0, 0, from, at) + lag_sum(x, 0, 0, at, to),
    decreases to - at,
{
    if at < to {
        lemma_lag_sum_splits(x, from, at, to - 1);
    }
}

proof fn lemma_lag_sum_is_energy(x: Seq<i16>, y: Seq<i16>, to: int)
    requires
        0 <= to <= y.len() <= x.len(),
        forall|i: int| 0 <= i < y.len() ==> #[trigger] y[i] == x[i],
    ensures
        lag_sum(x, 0, 0, 0, to) == lag_product(y, 0, 0, to),
    decreases to,
{
    lemma2_to64();
    if to > 0 {
        lemma_lag_sum_is_energy(x, y, to - 1);
        assert(y[to - 1] == x[to - 1]);
        assert(asr(x[to - 1] * x[to - 1], 0) == x[to - 1] * x[to - 1]);
    }
}

/// An entry on the diagonal is the energy of its column, where energies are not
/// scaled.
pub proof fn law_diagonal_is_energy(x: Seq<i16>, l: int, order: int, k: int)
    requires
        l > 0,
        0 <= k < order,
        l + order - 1 <= x.len(),
        energy_shift(x.subrange(0, l + order - 1)) == 0,
    ensures
        diagonal_entry(x, l, order, 0, k) == wrap32(
            lag_sum(x, 0, 0, order - 1 - k, order - 1 - k + l),
        ),
{
    let n = l + order - 1;
    let head = x.subrange(0, n);
    law_energy_sums_squares(head, pair_count(head));
    lemma_lag_sum_is_energy(x, head, n);
    lemma_lag_sum_splits(x, 0, order - 1 - k, n);
    lemma_lag_sum_splits(x, order - 1 - k, order - 1 - k + l, n);
}

// ---------------------------------------------------------------------
// Noise shaping
// ---------------------------------------------------------------------

/// Coefficient `j` weighs the sample `j` before, and nothing else: shown for a
/// single coefficient.
pub proof fn law_feedback_taps(line: Seq<i32>, coef: Seq<i16>, order: int, j: int, k: int)
    requires
        0 <= j < order <= 0xffff,
        0 <= k <= order,
        order <= line.len(),
        order <= coef.len(),
        forall|t: int| 0 <= t < order && t != j ==> #[trigger] coef[t] == 0,
        -0x1000_0000 <= line[j] <= 0x1000_0000,
    ensures
        taps_sum(line, coef, order, k) == order / 2 + if k > j {
            (line[j] * coef[j]) / 0x1_0000
        } else {
            0
        },
    decreases k,
{
    let h = line[j] as int;
    let v = coef[j] as int;
    assert(-0x800_0000_0000 <= h * v <= 0x800_0000_0000) by (nonlinear_arith)
        requires
            -0x1000_0000 <= h <= 0x1000_0000,
            -0x8000 <= v <= 0x7fff,
    ;
    if k > 0 {
        law_feedback_taps(line, coef, order, j, k - 1);
        lemma_mul_wb(line[k - 1] as int, coef[k - 1] as int);
        if k - 1 != j {
            assert(coef[k - 1] == 0);
            assert(line[k - 1] * 0 == 0);
        }
        lemma_wrap32_range(order / 2 + (h * v) / 0x1_0000);
        lemma_wrap32_range(order / 2);
    }
}

// ---------------------------------------------------------------------
// Frequencies and filters
// ---------------------------------------------------------------------

/// The polynomials that frequencies are found from are those that a filter was made
/// of: splitting a filter into its sum and difference undoes putting it together.
pub proof fn law_split_undoes_join(c: Seq<int>, a: Seq<i32>, dd: int, n: int)
    requires
        1 <= dd <= 8,
        c.len() == 2 * dd,
        a.len() == 2 * dd,
        forall|i: int| 0 <= i < 2 * dd ==> 2 * #[trigger] a[i] == filter_q17(c)[i],
        forall|i: int|
            0 <= i <= dd ==> -0x800_0000 <= #[trigger] factor_product(c, 0, dd as nat)[i]
                <= 0x800_0000,
        forall|i: int|
            0 <= i <= dd ==> -0x800_0000 <= #[trigger] factor_product(c, 1, dd as nat)[i]
                <= 0x800_0000,
        factor_product(c, 0, dd as nat)[0] == 0x1_0000,
        factor_product(c, 1, dd as nat)[0] == 0x1_0000,
        0 <= n <= dd,
    ensures
        p_coef(a, dd, n) == factor_product(c, 0, dd as nat)[dd - n],
        q_coef(a, dd, n) == factor_product(c, 1, dd as nat)[dd - n],
    decreases dd - n,
{
    let p = factor_product(c, 0, dd as nat);
    let q = factor_product(c, 1, dd as nat);
    if n < dd {
        law_split_undoes_join(c, a, dd, n + 1);
        let i = dd - n - 1;
        let k = dd + n;
        assert(k == 2 * dd - 1 - i);
        let dq = q[i + 1] - q[i];
        let sp = p[i + 1] + p[i];
        lemma_wrap32_range(dq);
        lemma_wrap32_range(-dq);
        lemma_wrap32_range(sp);
        lemma_wrap32_range(-dq - sp);
        lemma_wrap32_range(dq - sp);
        assert(c.len() as int / 2 == dd);
        assert(filter_q17(c)[i] == -dq - sp);
        assert(filter_q17(c)[k] == dq - sp);
        assert(2 * a[i] == -dq - sp);
        assert(2 * a[k] == dq - sp);
        lemma_wrap32_range(a[i] + a[k]);
        lemma_wrap32_range(-(a[i] + a[k]));
        lemma_wrap32_range(a[k] - a[i]);
        assert(sum_coef(a, dd, n) == sp);
        assert(difference_coef(a, dd, n) == dq);
        lemma_wrap32_range(sp - p[i]);
        lemma_wrap32_range(dq + q[i]);
    }
}

/// A product of factors starts with one, and its next coefficient is the negated sum
/// of the factors' own.
pub proof fn law_factors_multiply(c: Seq<int>, first: int, k: nat)
    requires
        1 <= k <= 8,
        0 <= first <= 1,
        c.len() >= 2 * k,
        forall|j: int| 0 <= j < c.len() ==> -0x2_0000 <= #[trigger] c[j] <= 0x2_0000,
    ensures
        factor_product(c, first, k)[0] == 0x1_0000,
        factor_product(c, first, k)[1] == -every_other(c, first, k),
        -0x2_0000 * k <= every_other(c, first, k) <= 0x2_0000 * k,
    decreases k,
{
    if k == 1 {
        assert(every_other(c, first, 0) == 0);
        assert(every_other(c, first, 1) == c[first]);
        lemma_wrap32_range(-c[first]);
    } else {
        law_factors_multiply(c, first, (k - 1) as nat);
        let x = c[2 * (k - 1) + first];
        lemma_wrap32_range(-every_other(c, first, (k - 1) as nat) - x);
    }
}

/// Sum of every other of `c`, `k` of them.
pub open spec fn every_other(c: Seq<int>, first: int, k: nat) -> int
    decreases k,
{
    if k == 0 {
        0
    } else {
        every_other(c, first, (k - 1) as nat) + c[2 * (k - 1) + first]
    }
}

/// Sums of cosines of multiples of an angle are rewritten in powers of twice its
/// cosine: shown for the third multiple.
pub proof fn law_multiples_become_powers(p: Seq<int>)
    requires
        p.len() == 4,
        forall|i: int| 0 <= i < 4 ==> -0x800_0000 <= #[trigger] p[i] <= 0x800_0000,
    ensures
        cos_powers(p, 3, 3) =~= seq![p[0] - 2 * p[2], p[1] - 3 * p[3], p[2], p[3]],
{
    let once = cos_powers(p, 3, 2);
    assert(cos_powers(p, 3, 1) == p);
    assert(-0x800_0000 <= p[0] <= 0x800_0000);
    assert(-0x800_0000 <= p[1] <= 0x800_0000);
    assert(-0x800_0000 <= p[2] <= 0x800_0000);
    assert(-0x800_0000 <= p[3] <= 0x800_0000);
    lemma_wrap32_range(p[1] - p[3]);
    lemma_wrap32_range(p[2] * 2);
    lemma_wrap32_range(p[0] - p[2] * 2);
    lemma_wrap32_range(p[3] * 2);
    lemma_wrap32_range(p[1] - p[3] - p[3] * 2);
    assert(once[3] == p[3]);
    assert(once[2] == p[2]);
    assert(pass_coef(p, 3, 2, 3) == p[3]);
    assert(pass_coef(p, 3, 2, 2) == p[2]);
    assert(once[1] == p[1] - p[3]);
    assert(once[0] == p[0] - 2 * p[2]);
    assert(pass_coef(once, 3, 3, 3) == p[3]);
}

/// The inner product of a signal with itself is its energy.
pub proof fn law_inner_product_is_energy(x: Seq<i16>, n: nat)
    requires
        n <= x.len(),
    ensures
        dot(x, x, 0, n) == lag_product(x, 0, 0, n as int),
    decreases n,
{
    lemma2_to64();
    if n > 0 {
        law_inner_product_is_energy(x, (n - 1) as nat);
        assert(asr(x[n - 1] * x[n - 1], 0) == x[n - 1] * x[n - 1]);
    }
}

} // verus!
