//! What the measurements and transformations of signals amount to.

use crate::fixed::{asr, lemma_mul_wb, lemma_wrap32_range, mul_wb, wrap32};
use crate::range::DecState;
use crate::silk::apply_sine_window::{
    window_coef, window_fourth, window_step, window_third, window_weight,
};
use crate::silk::burg_modified::lag_product;
use crate::silk::dec_api::{
    internal_khz_of, packet_frames, stereo_level, stereo_pred_read, symbol_bit,
    SILK_STEREO_PRED_JOINT_ICDF, SILK_STEREO_PRED_QUANT_Q13, STEREO_HALF_STEP_Q16,
};
use crate::silk::decode_indices::{nxt, sym};
use crate::silk::sum_sqr_shift::{energy_sum, pair_energy};
use crate::silk::tables_other::{SILK_UNIFORM3_ICDF, SILK_UNIFORM5_ICDF};
use crate::silk::warped_autocorrelation::{chain_after, section, warped_sum};
use vstd::arithmetic::div_mod::*;
use vstd::arithmetic::power2::*;
use vstd::prelude::*;

verus! {

// ---------------------------------------------------------------------
// Warped correlation
// ---------------------------------------------------------------------

proof fn lemma_mul_wb_zero(v: int)
    ensures
        mul_wb(v, 0) == 0,
{
    lemma_mul_wb(v, 0);
    assert(v * 0 == 0);
}

/// Without warping the chain only delays.
proof fn lemma_delays(input: Seq<i16>, order: int, n: int, i: int)
    requires
        0 <= i <= order,
        0 <= n <= input.len(),
    ensures
        chain_after(input, 0, order, n).len() == order + 1,
        chain_after(input, 0, order, n)[i] == if i < n {
            8192 * input[n - 1 - i]
        } else {
            0
        },
    decreases n,
{
    if n > 0 {
        let before = chain_after(input, 0, order, n - 1);
        lemma_section(input, order, n, i);
        lemma_delays(input, order, n - 1, 0);
    }
}

proof fn lemma_section(input: Seq<i16>, order: int, n: int, i: int)
    requires
        0 <= i <= order,
        1 <= n <= input.len(),
    ensures
        section(chain_after(input, 0, order, n - 1), input[n - 1] as int, 0, i) == if i < n {
            8192 * input[n - 1 - i]
        } else {
            0
        },
    decreases n, 1int,
{
    let before = chain_after(input, 0, order, n - 1);
    if i > 0 {
        lemma_delays(input, order, n - 1, i - 1);
        lemma_mul_wb_zero(
            wrap32(before[i] - section(before, input[n - 1] as int, 0, i - 1)),
        );
        lemma_wrap32_range(before[i - 1]);
    }
}

/// Without warping, the correlations are those of the signal with itself, a lag
/// apart, times 1024.
pub proof fn law_unwarped_is_plain(input: Seq<i16>, order: int, n: int, i: int)
    requires
        0 <= i <= order,
        0 <= n <= input.len(),
    ensures
        warped_sum(input, 0, order, n, i) == 1024 * lag_product(input, 0, i, n),
    decreases n,
{
    if n > 0 {
        lemma2_to64();
        law_unwarped_is_plain(input, order, n - 1, i);
        lemma_section(input, order, n, i);
        let x = input[n - 1] as int;
        if i < n {
            let y = input[n - 1 - i] as int;
            assert((8192 * y) * (8192 * x) == 0x1_0000 * (1024 * (x * y))) by (nonlinear_arith);
            assert(asr(0x1_0000 * (1024 * (x * y)), 16) == 1024 * (x * y));
            assert(lag_product(input, 0, i, n) == lag_product(input, 0, i, n - 1) + x * y);
        } else {
            assert(0 * (8192 * x) == 0);
            assert(asr(0, 16) == 0);
            assert(lag_product(input, 0, i, n) == 0);
            assert(lag_product(input, 0, i, n - 1) == 0);
        }
    }
}

/// Warping draws the first delay's value towards what the delay behind it held: its
/// value is the delayed sample and the warping (Q16) times how far that held value
/// lies above the new sample.
pub proof fn law_warping_draws_forward(line: Seq<int>, x: int, warping: int)
    requires
        line.len() >= 2,
        -0x2000_0000 <= line[0] <= 0x2000_0000,
        -0x2000_0000 <= line[1] <= 0x2000_0000,
        -0x8000 <= x <= 0x7fff,
        -0x8000 <= warping <= 0x7fff,
    ensures
        section(line, x, warping, 1) == line[0] + ((line[1] - 8192 * x) * warping) / 0x1_0000,
{
    let d = line[1] - 8192 * x;
    assert(section(line, x, warping, 0) == 8192 * x);
    lemma_wrap32_range(d);
    lemma_mul_wb(d, warping);
    let v = d * warping;
    assert(-0x3000_0000 * 0x8000 <= v <= 0x3000_0000 * 0x8000) by (nonlinear_arith)
        requires
            v == d * warping,
            -0x3000_0000 <= d <= 0x3000_0000,
            -0x8000 <= warping <= 0x7fff,
    ;
    lemma_wrap32_range(line[0] + v / 0x1_0000);
}

// ---------------------------------------------------------------------
// Energy
// ---------------------------------------------------------------------

/// A scaled energy is the energy divided by the power of two of its shift, but for
/// less than one per pair of samples.
pub proof fn law_energy_is_scaled(x: Seq<i16>, shift: nat, k: nat)
    ensures
        energy_sum(x, shift, k) * pow2(shift) <= energy_sum(x, 0, k),
        energy_sum(x, 0, k) <= (energy_sum(x, shift, k) + k) * pow2(shift),
    decreases k,
{
    lemma2_to64();
    let p = pow2(shift) as int;
    lemma_pow2_pos(shift);
    if k == 0 {
        assert(0 * p == 0);
    } else {
        let t = (k - 1) as nat;
        law_energy_is_scaled(x, shift, t);
        let v = pair_energy(x, k - 1);
        let q = v / p;
        lemma_fundamental_div_mod(v, p);
        lemma_mod_bound(v, p);
        let e = energy_sum(x, shift, t);
        assert(asr(v, 0) == v);
        assert(q * p <= v <= q * p + p) by (nonlinear_arith)
            requires
                v == p * q + v % p,
                0 <= v % p < p,
        ;
        assert((e + q) * p == e * p + q * p) by (nonlinear_arith);
        assert((e + q + k) * p == (e + t) * p + q * p + p) by (nonlinear_arith)
            requires
                k == t + 1,
        ;
    }
}

/// Without a shift, the energy is the sum of the squares.
pub proof fn law_energy_sums_squares(x: Seq<i16>, k: nat)
    requires
        2 * k <= x.len() + 1,
    ensures
        2 * k <= x.len() ==> energy_sum(x, 0, k) == lag_product(x, 0, 0, 2 * k as int),
        2 * k == x.len() + 1 ==> energy_sum(x, 0, k) == lag_product(x, 0, 0, 2 * k - 1),
    decreases k,
{
    lemma2_to64();
    if k > 0 {
        law_energy_sums_squares(x, (k - 1) as nat);
        let v = pair_energy(x, k - 1);
        assert(asr(v, 0) == v);
        let n: int = 2 * (k as int);
        assert(lag_product(x, 0, 0, n - 1) == lag_product(x, 0, 0, n - 2) + x[n - 2] * x[n - 2]);
        assert(lag_product(x, 0, 0, n) == lag_product(x, 0, 0, n - 1) + x[n - 1] * x[n - 1]);
    }
}

// ---------------------------------------------------------------------
// Windows
// ---------------------------------------------------------------------

/// A rising window starts near 0 and rises; a falling one starts near 1.
pub proof fn law_windows_start(len: int)
    requires
        16 <= len <= 120,
        len % 4 == 0,
    ensures
        0 < window_weight(len, true, 0) < window_weight(len, true, 1) < 0x3000,
        0xf000 < window_weight(len, false, 1) <= window_weight(len, false, 0) <= 0x1_0000,
{
    let step = window_step(len);
    assert(1700 <= step <= 12111);
    lemma_mul_wb(step, -step);
    assert(1700 * 1700 <= step * step <= 12111 * 12111) by (nonlinear_arith)
        requires
            1700 <= step <= 12111,
    ;
    assert(step * (-step) == -(step * step)) by (nonlinear_arith);
    let coef = window_coef(len);
    assert(-2240 <= coef <= -45);
    lemma_wrap32_range(step + len / 8);
    lemma_wrap32_range(0x1_0000 + coef / 2);
    lemma_wrap32_range(0x1_0000 + coef / 2 + len / 16);
    let s1 = step + len / 8;
    lemma_wrap32_range(s1);
    let t1 = 0x1_0000 + coef / 2 + len / 16;
    lemma_wrap32_range(0x1_0000 + t1);
    assert(window_weight(len, true, 1) == s1);
    assert(window_weight(len, false, 1) == t1);
    assert(window_weight(len, true, 0) == s1 / 2) by {
        assert(0 + s1 == s1);
    }
    assert(window_weight(len, false, 0) == (0x1_0000 + t1) / 2);
}

/// A window goes on as an oscillator: each of its points is twice the one before, less
/// the one before that and a part of the one before, which the angle sets; it never
/// exceeds one.
pub proof fn law_window_oscillates(coef: int, s0: int, s1: int)
    requires
        -0x8000 <= coef <= 0,
        0 <= s0 <= 0x1_0000,
        0 <= s1 <= 0x1_0000,
    ensures
        ({
            let next = 2 * s1 - s0 + (s1 * coef) / 0x1_0000;
            &&& window_fourth(coef, s0, s1) == if next > 0x1_0000 {
                0x1_0000
            } else {
                next
            }
            &&& window_third(coef, s0, s1) == if next + 1 > 0x1_0000 {
                0x1_0000
            } else {
                next + 1
            }
        }),
{
    lemma_mul_wb(s1, coef);
    let p = s1 * coef;
    assert(-0x1_0000 * 0x8000 <= p <= 0) by (nonlinear_arith)
        requires
            p == s1 * coef,
            0 <= s1 <= 0x1_0000,
            -0x8000 <= coef <= 0,
    ;
    let q = p / 0x1_0000;
    lemma_wrap32_range(s1 * 2);
    lemma_wrap32_range(q + s1 * 2);
    lemma_wrap32_range(q + s1 * 2 - s0);
    lemma_wrap32_range(q + s1 * 2 - s0 + 1);
}

// ---------------------------------------------------------------------
// Packets
// ---------------------------------------------------------------------

/// The subframes of a packet last 5 ms each: together they make up its payload.
pub proof fn law_subframes_fill_the_payload(payload_ms: int)
    ensures
        packet_frames(payload_ms) matches Some((frames, subframes)) ==> {
            &&& 1 <= frames <= 3
            &&& payload_ms != 0 ==> 5 * (frames * subframes) == payload_ms
            &&& frames > 1 ==> subframes == 4
        },
        payload_ms == 10 || payload_ms == 20 || payload_ms == 40 || payload_ms == 60
            ==> packet_frames(payload_ms) is Some,
{
    assert(1 * 2 == 2 && 1 * 4 == 4 && 2 * 4 == 8 && 3 * 4 == 12);
}

/// Internal sample rates are known by their thousands.
pub proof fn law_internal_rates(fs_hz: int)
    ensures
        internal_khz_of(8000) == Some(8int),
        internal_khz_of(12000) == Some(12int),
        internal_khz_of(16000) == Some(16int),
        fs_hz % 1000 == 0 && internal_khz_of(fs_hz) is Some ==> fs_hz == 1000 * internal_khz_of(
            fs_hz,
        )->0,
{
}

/// The flags of a symbol of redundant frames are its binary digits.
pub proof fn law_flags_are_digits(symbol: int)
    requires
        0 <= symbol < 8,
    ensures
        symbol == symbol_bit(symbol, 0) + 2 * symbol_bit(symbol, 1) + 4 * symbol_bit(symbol, 2),
        forall|i: int| 0 <= i < 3 ==> 0 <= #[trigger] symbol_bit(symbol, i) <= 1,
{
}

/// A stereo predictor lies inside the range that it is quantised in, and rises with
/// its step.
pub proof fn law_stereo_levels_rise(range: int, step: int)
    requires
        0 <= range < 15,
        0 <= step < 5,
    ensures
        SILK_STEREO_PRED_QUANT_Q13[range] < stereo_level(range, step)
            < SILK_STEREO_PRED_QUANT_Q13[range + 1],
        step < 4 ==> stereo_level(range, step) < stereo_level(range, step + 1),
        range < 14 ==> stereo_level(range, step) < stereo_level(range + 1, 0),
{
    let low = SILK_STEREO_PRED_QUANT_Q13[range] as int;
    let high = SILK_STEREO_PRED_QUANT_Q13[range + 1] as int;
    lemma_stereo_step(range, step);
    if step < 4 {
        lemma_stereo_step(range, step + 1);
        let half = ((high - low) * STEREO_HALF_STEP_Q16) / 0x1_0000;
        assert(half * (2 * (step + 1) + 1) == half * (2 * step + 1) + 2 * half) by (nonlinear_arith);
    }
    if range < 14 {
        lemma_stereo_step(range + 1, 0);
    }
}

/// The first predictor is what its level lies above the second: together they are the
/// level that is coded first. The coarse parts of both are the digits to the base 5 of
/// the joint symbol.
pub proof fn law_first_predictor_is_relative(s: DecState)
    ensures
        ({
            let (first, second) = stereo_pred_read(s);
            let joint = sym(s, SILK_STEREO_PRED_JOINT_ICDF@);
            let s1 = nxt(s, SILK_STEREO_PRED_JOINT_ICDF@);
            let s2 = nxt(s1, SILK_UNIFORM3_ICDF@);
            let s3 = nxt(s2, SILK_UNIFORM5_ICDF@);
            let s4 = nxt(s3, SILK_UNIFORM3_ICDF@);
            forall|high: int, low: int|
                joint == 5 * high + low && 0 <= low < 5 ==> {
                    &&& first + second == #[trigger] stereo_level(
                        sym(s1, SILK_UNIFORM3_ICDF@) + 3 * high,
                        sym(s2, SILK_UNIFORM5_ICDF@),
                    )
                    &&& second == #[trigger] stereo_level(
                        sym(s3, SILK_UNIFORM3_ICDF@) + 3 * low,
                        sym(s4, SILK_UNIFORM5_ICDF@),
                    )
                }
        }),
{
}

proof fn lemma_stereo_step(range: int, step: int)
    requires
        0 <= range < 15,
        0 <= step < 5,
    ensures
        ({
            let low = SILK_STEREO_PRED_QUANT_Q13[range] as int;
            let high = SILK_STEREO_PRED_QUANT_Q13[range + 1] as int;
            let half = ((high - low) * STEREO_HALF_STEP_Q16) / 0x1_0000;
            &&& half > 0
            &&& low < low + half * (2 * step + 1) < high
        }),
{
    let low = SILK_STEREO_PRED_QUANT_Q13[range] as int;
    let high = SILK_STEREO_PRED_QUANT_Q13[range + 1] as int;
    assert(700 <= high - low <= 3682);
    let half = ((high - low) * 6554) / 0x1_0000;
    assert(half >= 70);
    assert(half * (2 * step + 1) >= half) by (nonlinear_arith)
        requires
            half > 0,
            step >= 0,
    ;
    assert(half * (2 * step + 1) <= 9 * half) by (nonlinear_arith)
        requires
            half > 0,
            step <= 4,
    ;
    assert(9 * half < high - low);
}

} // verus!
