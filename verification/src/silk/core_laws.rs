//! What the synthesis of a frame does to its inputs.

use crate::fixed::{lemma_wrap32_range, mul_ww, round_shift};
use crate::silk::cng::rand_next;
use crate::silk::decode_core::{
    core_frame, core_ok, core_run, core_start, core_step, excitation, gain_change, hist_before,
    long_prediction, ltp_after, ltp_before, output_sample, pulse_seed, quant_offset, residual,
    residual_scale, short_prediction, synthesis, synthesis_prediction, voiced_residual, whitened,
    CoreFrame, CoreState,
};
use crate::silk::decoder_control::DecoderControl;
use crate::silk::decoder_state::DecoderState;
use crate::silk::division_laws::{
    law_inverse_is_close, law_quotient_has_the_sign, law_quotient_is_close,
};
use crate::silk::math::{headroom, inverse_varq, lemma_headroom, shl};
use crate::silk::tables_other::SILK_QUANTIZATION_OFFSETS_Q10;
use crate::silk::types::{FrameQuantizationOffsetType, FrameSignalType};
use vstd::arithmetic::div_mod::*;
use vstd::arithmetic::power2::*;
use vstd::prelude::*;

verus! {

// ---------------------------------------------------------------------
// Excitation
// ---------------------------------------------------------------------

/// A pulse is heard as large as it is, but for the offsets of the quantiser, and
/// with its own sign or the opposite one as the random number says.
pub proof fn law_excitation_follows_pulses(
    s: DecoderState,
    seed: int,
    pulses: Seq<i16>,
    i: int,
)
    requires
        0 <= i < pulses.len(),
    ensures
        ({
            let v = excitation(seed, quant_offset(s.indices), pulses, i);
            let p = pulses[i] as int;
            let kept = rand_next(pulse_seed(seed, pulses, i as nat)) >= 0;
            &&& kept ==> -0x1400 <= v - 0x4000 * p <= 0x1400
            &&& !kept ==> -0x1400 <= v + 0x4000 * p <= 0x1400
            &&& p == 0 ==> -3840 <= v <= 3840
        }),
{
    lemma_offsets(s);
}

proof fn lemma_offsets(s: DecoderState)
    ensures
        0 < quant_offset(s.indices) <= 240,
{
    assert(SILK_QUANTIZATION_OFFSETS_Q10[0][0] == 100);
    assert(SILK_QUANTIZATION_OFFSETS_Q10[0][1] == 240);
    assert(SILK_QUANTIZATION_OFFSETS_Q10[1][0] == 32);
    assert(SILK_QUANTIZATION_OFFSETS_Q10[1][1] == 100);
    if s.indices.quant_offset_type == FrameQuantizationOffsetType::Low {
    } else {
    }
}

// ---------------------------------------------------------------------
// Long-term prediction
// ---------------------------------------------------------------------

/// Products that do not leave 32 bits.
proof fn lemma_mul_ww(a: int, b: int)
    requires
        -0x7fff_0000_0000 <= a * b <= 0x7fff_0000_0000,
    ensures
        mul_ww(a, b) == (a * b) / 0x1_0000,
{
    reveal(mul_ww);
    lemma_wrap32_range((a * b) / 0x1_0000);
}

proof fn lemma_mul_ww_zero(a: int)
    ensures
        mul_ww(a, 0) == 0,
{
    reveal(mul_ww);
    assert(a * 0 == 0);
    lemma_wrap32_range(0);
}

/// The residual of a voiced subframe is the excitation and what the five taps make
/// of the samples around the one a lag before.
pub proof fn law_residual_adds_pitch_prediction(
    f: CoreFrame,
    c: CoreState,
    k: int,
    ltp: Seq<int>,
    i: int,
)
    requires
        -0x2000_0000 <= f.exc[k * f.len + i] <= 0x2000_0000,
        forall|q: int| -0x800_0000 <= #[trigger] ltp[q] <= 0x800_0000,
        forall|t: int| 0 <= t < 5 ==> -0x8000 <= #[trigger] f.tap(k, t) <= 0x7fff,
    ensures
        ({
            let at = c.idx + i - f.lag(k);
            voiced_residual(f, c, k, ltp, i) - f.exc[k * f.len + i] == 2 * (2 + (ltp[at + 2]
                * f.tap(k, 0)) / 0x1_0000 + (ltp[at + 1] * f.tap(k, 1)) / 0x1_0000 + (ltp[at]
                * f.tap(k, 2)) / 0x1_0000 + (ltp[at - 1] * f.tap(k, 3)) / 0x1_0000 + (ltp[at - 2]
                * f.tap(k, 4)) / 0x1_0000)
        }),
{
    lemma2_to64();
    let pos = c.idx - f.lag(k) + 2 + i;
    let at = c.idx + i - f.lag(k);
    lemma_tap_product(f, k, ltp, at + 2, 0);
    lemma_tap_product(f, k, ltp, at + 1, 1);
    lemma_tap_product(f, k, ltp, at, 2);
    lemma_tap_product(f, k, ltp, at - 1, 3);
    lemma_tap_product(f, k, ltp, at - 2, 4);
    let p0 = (ltp[at + 2] * f.tap(k, 0)) / 0x1_0000;
    let p1 = (ltp[at + 1] * f.tap(k, 1)) / 0x1_0000;
    let p2 = (ltp[at] * f.tap(k, 2)) / 0x1_0000;
    let p3 = (ltp[at - 1] * f.tap(k, 3)) / 0x1_0000;
    let p4 = (ltp[at - 2] * f.tap(k, 4)) / 0x1_0000;
    lemma_wrap32_range(2 + p0);
    lemma_wrap32_range(2 + p0 + p1);
    lemma_wrap32_range(2 + p0 + p1 + p2);
    lemma_wrap32_range(2 + p0 + p1 + p2 + p3);
    lemma_wrap32_range(2 + p0 + p1 + p2 + p3 + p4);
    assert(long_prediction(f, k, ltp, pos, 0) == 2);
    assert(long_prediction(f, k, ltp, pos, 1) == 2 + p0);
    assert(long_prediction(f, k, ltp, pos, 2) == 2 + p0 + p1);
    assert(long_prediction(f, k, ltp, pos, 3) == 2 + p0 + p1 + p2);
    assert(long_prediction(f, k, ltp, pos, 4) == 2 + p0 + p1 + p2 + p3);
    assert(long_prediction(f, k, ltp, pos, 5) == 2 + p0 + p1 + p2 + p3 + p4);
    lemma_wrap32_range((2 + p0 + p1 + p2 + p3 + p4) * 2);
    lemma_wrap32_range(f.exc[k * f.len + i] + 2 * (2 + p0 + p1 + p2 + p3 + p4));
}

proof fn lemma_tap_product(f: CoreFrame, k: int, ltp: Seq<int>, q: int, t: int)
    requires
        -0x800_0000 <= ltp[q] <= 0x800_0000,
        -0x8000 <= f.tap(k, t) <= 0x7fff,
    ensures
        mul_ww(ltp[q], f.tap(k, t)) == (ltp[q] * f.tap(k, t)) / 0x1_0000,
        -0x400_0000 <= (ltp[q] * f.tap(k, t)) / 0x1_0000 <= 0x400_0000,
{
    let a = ltp[q];
    let b = f.tap(k, t);
    assert(-0x400_0000_0000 <= a * b <= 0x400_0000_0000) by (nonlinear_arith)
        requires
            -0x800_0000 <= a <= 0x800_0000,
            -0x8000 <= b <= 0x7fff,
    ;
    lemma_mul_ww(a, b);
}

/// The buffer in front of the subframe stays as the subframe found it.
proof fn lemma_ltp_kept(f: CoreFrame, c: CoreState, k: int, i: nat, q: int)
    requires
        0 <= q < c.idx,
        c.idx + i <= 640,
        ltp_before(f, c, k).len() == 640,
    ensures
        ltp_after(f, c, k, i).len() == 640,
        ltp_after(f, c, k, i)[q] == ltp_before(f, c, k)[q],
    decreases i,
{
    if i > 0 {
        lemma_ltp_kept(f, c, k, (i - 1) as nat, q);
    }
}

proof fn lemma_synthesis_prediction_zero(hist: Seq<int>, a: Seq<i16>, n: nat)
    requires
        n <= a.len() <= 16,
        forall|j: int| 0 <= j < a.len() ==> #[trigger] a[j] == 0,
    ensures
        synthesis_prediction(hist, a, n) == a.len() as int / 2,
    decreases n,
{
    if n > 0 {
        lemma_synthesis_prediction_zero(hist, a, (n - 1) as nat);
        assert(a[n - 1] == 0);
        lemma_mul_ww_zero(hist[hist.len() - n]);
        lemma_wrap32_range(a.len() as int / 2);
    }
}

proof fn lemma_synthesis_len(f: CoreFrame, c: CoreState, k: int, i: nat)
    ensures
        synthesis(f, c, k, i).len() == 16 + i,
    decreases i,
{
    if i > 0 {
        lemma_synthesis_len(f, c, k, (i - 1) as nat);
    }
}

/// Later subframes leave the output of the first as it is.
proof fn lemma_first_output(f: CoreFrame, c: CoreState, k: nat, i: int)
    requires
        k >= 1,
        c.out.len() == 0,
        0 <= i < f.len,
    ensures
        core_run(f, c, k).out.len() >= f.len,
        core_run(f, c, k).out[i] == output_sample(f, c, 0, i),
    decreases k,
{
    if k == 1 {
        assert(core_run(f, c, 0) == c);
        assert(core_run(f, c, 1) == core_step(f, c, 0));
        assert(core_step(f, c, 0).out[i] == output_sample(f, c, 0, i) as i16);
    } else {
        lemma_first_output(f, c, (k - 1) as nat, i);
    }
}

/// What a constant history is worth in the long-term buffer.
proof fn lemma_history_level(gain: int, scale: int, h: int) -> (w: int)
    requires
        0x1_0000 <= gain <= 0x10_0000,
        0 <= scale <= 0x4000,
        0 <= h <= 0x7fff,
    ensures
        w == shl(mul_ww(inverse_varq(gain, 47), scale), 2),
        0 <= inverse_varq(gain, 47) <= 0x7fff_ffff,
        0 <= w <= 0x7fff_ffff,
        0x4000 * w <= inverse_varq(gain, 47) * scale < 0x4000 * w + 0x1_0000,
        0x8000_0000_0000 - 0x20_0000 - gain <= inverse_varq(gain, 47) * gain <= 0x8000_0000_0000
            + 0x20_0000,
        mul_ww(w, h) == (w * h) / 0x1_0000,
{
    lemma2_to64();
    lemma_headroom(gain);
    let top = headroom(gain);
    assert(10 <= top <= 14) by {
        let p = pow2(top) as int;
        if top > 14 {
            lemma_pow2_adds(15, (top - 15) as nat);
            lemma_pow2_pos((top - 15) as nat);
            assert(gain * p >= 0x8000_0000) by (nonlinear_arith)
                requires
                    gain >= 0x1_0000,
                    p >= 0x8000,
            ;
        }
        if top < 10 {
            if top < 9 {
                lemma_pow2_strictly_increases(top, 9);
            }
            assert(gain * p <= 0x2000_0000) by (nonlinear_arith)
                requires
                    gain <= 0x10_0000,
                    p <= 0x200,
                    gain >= 0,
            ;
        }
    }
    lemma_pow2_adds(15, 32);
    law_inverse_is_close(gain, 47);
    let inv = inverse_varq(gain, 47);
    assert(inv * gain >= 0x8000_0000_0000 - 0x10_0000 - gain);
    assert(0 <= inv * scale <= 0x2000_0000_0000) by (nonlinear_arith)
        requires
            0 <= inv <= 0x7fff_ffff,
            0 <= scale <= 0x4000,
    ;
    lemma_mul_ww(inv, scale);
    let v = (inv * scale) / 0x1_0000;
    let w = v * 4;
    assert(w <= 0x7fff_ffff) by {
        assert(inv * scale <= 0x7fff_ffff * 0x4000) by (nonlinear_arith)
            requires
                0 <= inv <= 0x7fff_ffff,
                0 <= scale <= 0x4000,
        ;
    }
    lemma_wrap32_range(w);
    assert(0 <= w * h <= 0x4000_0000_0000) by (nonlinear_arith)
        requires
            0 <= w <= 0x7fff_ffff,
            0 <= h <= 0x7fff,
    ;
    lemma_mul_ww(w, h);
    w
}

/// The steps from a constant history to the output, each rounded.
proof fn lemma_pitch_level(
    gain: int,
    scale: int,
    h: int,
    tap: int,
    inv: int,
    w: int,
    y: int,
)
    requires
        0x1_0000 <= gain <= 0x10_0000,
        gain % 64 == 0,
        0 <= scale <= 0x4000,
        0 <= h <= 0x7fff,
        0 <= tap <= 0x4000,
        0 <= w <= 0x7fff_ffff,
        0 <= inv <= 0x7fff_ffff,
        0x4000 * w <= inv * scale < 0x4000 * w + 0x1_0000,
        0x8000_0000_0000 - 0x20_0000 - gain <= inv * gain <= 0x8000_0000_0000 + 0x20_0000,
        -4000 <= y - 2 * ((((w * h) / 0x1_0000) * tap) / 0x1_0000) <= 4000,
    ensures
        ({
            let out = ((y * (gain / 64)) / 0x1_0000 / 128 + 1) / 2;
            &&& -0x5000_0000 <= 0x1000_0000 * out - (tap * h) * scale <= 0x5000_0000
            &&& -0x7fff_0000_0000 <= y * (gain / 64) <= 0x7fff_0000_0000
        }),
{
    let g = gain / 64;
    let ltp = (w * h) / 0x1_0000;
    let pred = (ltp * tap) / 0x1_0000;
    let ht = tap * h;
    let level = ht * scale;
    assert(0 <= ht <= 0x1fff_c000) by (nonlinear_arith)
        requires
            0 <= tap <= 0x4000,
            0 <= h <= 0x7fff,
            ht == tap * h,
    ;
    assert(0 <= level <= 0x7fff_0000_000) by (nonlinear_arith)
        requires
            0 <= ht <= 0x1fff_c000,
            0 <= scale <= 0x4000,
            level == ht * scale,
    ;
    let wh = w * h;
    let lt = ltp * tap;
    assert(0x1_0000 * lt <= wh * tap < 0x1_0000 * lt + 0x1_0000 * 0x4000 + 1) by (nonlinear_arith)
        requires
            0x1_0000 * ltp <= wh < 0x1_0000 * ltp + 0x1_0000,
            lt == ltp * tap,
            0 <= tap <= 0x4000,
    ;
    assert(wh * tap == w * ht) by (nonlinear_arith)
        requires
            wh == w * h,
            ht == tap * h,
    ;
    let is = inv * scale;
    assert(0x4000 * (w * ht) <= is * ht <= 0x4000 * (w * ht) + 0x1_0000 * 0x1fff_c000)
        by (nonlinear_arith)
        requires
            0x4000 * w <= is < 0x4000 * w + 0x1_0000,
            0 <= ht <= 0x1fff_c000,
    ;
    assert(is * ht == inv * level) by (nonlinear_arith)
        requires
            is == inv * scale,
            level == ht * scale,
    ;
    // In units of 2^-46: the prediction lies below the level by less than 2.
    assert(0x4000_0000_0000 * pred <= inv * level);
    assert(inv * level <= 0x4000_0000_0000 * pred + 0x8000_0000_0000);
    let pg = pred * g;
    let ig = inv * g;
    assert(64 * ig == inv * gain) by (nonlinear_arith)
        requires
            ig == inv * g,
            gain == 64 * g,
    ;
    assert(0x200_0000_0000 - 0x10000 <= ig <= 0x200_0000_0000 + 0x10000);
    let il = inv * level;
    assert(0x4000_0000_0000 * pg <= il * g <= 0x4000_0000_0000 * pg + 0x8000_0000_0000 * g)
        by (nonlinear_arith)
        requires
            0x4000_0000_0000 * pred <= il <= 0x4000_0000_0000 * pred + 0x8000_0000_0000,
            pg == pred * g,
            g >= 0,
    ;
    assert(il * g == ig * level) by (nonlinear_arith)
        requires
            il == inv * level,
            ig == inv * g,
    ;
    let il2 = ig * level;
    assert(0x200_0000_0000 * level - 0x10000 * level <= il2 <= 0x200_0000_0000 * level + 0x10000
        * level) by (nonlinear_arith)
        requires
            0x200_0000_0000 - 0x10000 <= ig <= 0x200_0000_0000 + 0x10000,
            level >= 0,
            il2 == ig * level,
    ;
    let rest = y - 2 * pred;
    assert(y * g == 2 * pg + rest * g) by (nonlinear_arith)
        requires
            rest == y - 2 * pred,
            pg == pred * g,
    ;
    assert(-4000 * 0x4000 <= rest * g <= 4000 * 0x4000) by (nonlinear_arith)
        requires
            -4000 <= rest <= 4000,
            0 <= g <= 0x4000,
    ;
}

/// A steady voiced sound goes on: with one tap in the middle, no pulses and no
/// short-term predictor, a history of constant samples is heard again, weighted by
/// the tap and the scale (both in units of `2^-14`), whatever the gain. The
/// tolerance is what the quantiser's offset and the rounding amount to.
#[verifier::rlimit(60)]
pub proof fn law_pitch_repeats_history(
    s: DecoderState,
    ctl: DecoderControl,
    pulses: Seq<i16>,
    h: int,
    i: int,
)
    requires
        core_ok(s, ctl),
        pulses.len() >= s.sample_rate.frame_length,
        s.indices.signal_type == FrameSignalType::Voiced,
        0 <= i < s.sample_rate.subfr_length,
        i < ctl.pitch_l[0],
        pulses[i] == 0,
        forall|j: int|
            0 <= j < s.sample_rate.lpc_order ==> #[trigger] ctl.pred_coef_q12[0]@[j] == 0,
        0 <= h <= 0x7fff,
        forall|j: int|
            0 <= j < s.sample_rate.ltp_mem_length ==> #[trigger] s.sample_rate.out_buf@[j] == h,
        0x1_0000 <= ctl.gains_q16[0] <= 0x10_0000,
        ctl.gains_q16[0] % 64 == 0,
        0 <= ctl.ltp_scale_q14 <= 0x4000,
        ctl.ltp_coef_q14[0] == 0,
        ctl.ltp_coef_q14[1] == 0,
        0 <= ctl.ltp_coef_q14[2] <= 0x4000,
        ctl.ltp_coef_q14[3] == 0,
        ctl.ltp_coef_q14[4] == 0,
    ensures
        ({
            let out = core_run(
                core_frame(s, ctl, pulses),
                core_start(s),
                s.sample_rate.nb_subfr as nat,
            ).out[i];
            -0x5000_0000 <= 0x1000_0000 * out - (ctl.ltp_coef_q14[2] * h) * ctl.ltp_scale_q14
                <= 0x5000_0000
        }),
{
    lemma2_to64();
    let f = core_frame(s, ctl, pulses);
    let c = core_start(s);
    let nb = s.sample_rate.nb_subfr as nat;
    lemma_first_output(f, c, nb, i);
    let order = s.sample_rate.lpc_order as int;
    let row = f.row(0);
    assert(row =~= ctl.pred_coef_q12[0]@.subrange(0, order));
    assert forall|j: int| 0 <= j < row.len() implies #[trigger] row[j] == 0 by {
        assert(row[j] == ctl.pred_coef_q12[0]@[j]);
    }
    let f0 = core_frame(s, ctl, seq![]);
    assert(f0.sub_voiced(0));
    assert(f0.lag_ok(order, 0));
    assert(f0.lag(0) == f.lag(0));
    let lag = f.lag(0);
    assert(!f.bridged(0));
    let mem = f.mem;
    let at = mem + i - lag;
    let gain = f.gains[0];
    let inv = inverse_varq(gain, 47);
    let w = lemma_history_level(gain, f.scale, h);
    assert(residual_scale(f, 0) == w);
    let before = ltp_before(f, c, 0);
    assert(whitened(c.hist, at, row) == h) by {
        law_whitening_takes_prediction_away(c.hist, at, row, 0);
        assert(c.hist[at] == h);
        assert(c.hist[at - 1] * 0 == 0);
        assert((4096 * h + 2048) / 4096 == h);
    }
    assert(before[at] == mul_ww(w, h));
    let ltp = (w * h) / 0x1_0000;
    assert(before[at] == ltp);
    let now = ltp_after(f, c, 0, i as nat);
    lemma_ltp_kept(f, c, 0, i as nat, at);
    let tap = f.tap(0, 2);
    assert(tap == ctl.ltp_coef_q14[2]);
    assert(0 <= w * h <= 0x3fff_ffff * 0x1_0000) by (nonlinear_arith)
        requires
            0 <= w <= 0x7fff_ffff,
            0 <= h <= 0x7fff,
    ;
    assert(0 <= ltp * tap <= 0x1000_0000 * 0x1_0000) by (nonlinear_arith)
        requires
            0 <= ltp <= 0x3fff_ffff,
            0 <= tap <= 0x4000,
    ;
    lemma_mul_ww(ltp, tap);
    let pred = (ltp * tap) / 0x1_0000;
    let pos = c.idx - lag + 2 + i;
    assert(long_prediction(f, 0, now, pos, 5) == 2 + pred) by {
        lemma_mul_ww_zero(now[pos]);
        lemma_mul_ww_zero(now[pos - 1]);
        lemma_mul_ww_zero(now[pos - 3]);
        lemma_mul_ww_zero(now[pos - 4]);
        lemma_wrap32_range(2);
        lemma_wrap32_range(2 + pred);
        assert(long_prediction(f, 0, now, pos, 0) == 2);
        assert(long_prediction(f, 0, now, pos, 1) == 2);
        assert(long_prediction(f, 0, now, pos, 2) == 2);
        assert(long_prediction(f, 0, now, pos, 3) == 2 + pred);
        assert(long_prediction(f, 0, now, pos, 4) == 2 + pred);
    }
    lemma_offsets(s);
    assert(i < s.sample_rate.frame_length) by {
        assert(nb * s.sample_rate.subfr_length >= s.sample_rate.subfr_length) by (nonlinear_arith)
            requires
                nb >= 1,
        ;
    }
    assert(0 * f.len + i == i);
    let e = f.exc[i];
    assert(e == excitation(s.indices.seed as int, quant_offset(s.indices), pulses, i));
    assert(-3840 <= e <= 3840);
    lemma_wrap32_range((2 + pred) * 2);
    lemma_wrap32_range(e + (2 + pred) * 2);
    let res = e + 4 + 2 * pred;
    assert(residual(f, c, 0, i) == res);
    let hist = synthesis(f, c, 0, i as nat);
    lemma_synthesis_len(f, c, 0, i as nat);
    lemma_synthesis_prediction_zero(hist, row, row.len());
    let y = res + 16 * (order / 2);
    assert(synthesis(f, c, 0, (i + 1) as nat)[16 + i] == y);
    lemma_pitch_level(gain, f.scale, h, tap, inv, w, y);
    let g = gain / 64;
    lemma_mul_ww(y, g);
    let o = (y * g) / 0x1_0000;
    assert(round_shift(o, 8) == (o / 128 + 1) / 2) by {
        reveal(round_shift);
    }
    assert((tap * h) * f.scale <= 0x7fff_0000_000) by (nonlinear_arith)
        requires
            0 <= tap <= 0x4000,
            0 <= h <= 0x7fff,
            0 <= f.scale <= 0x4000,
    ;
    assert((tap * h) * f.scale >= 0) by (nonlinear_arith)
        requires
            0 <= tap,
            0 <= h,
            0 <= f.scale,
    ;
}

/// Pulses are heard: without a pitch and without a short-term predictor an output sample
/// is its pulse times the gain (Q16), with the pulse's sign or the opposite one as the
/// random number says. The tolerance is what the quantiser's offset and the rounding
/// amount to.
#[verifier::rlimit(60)]
pub proof fn law_pulses_are_heard(s: DecoderState, ctl: DecoderControl, pulses: Seq<i16>, i: int)
    requires
        core_ok(s, ctl),
        pulses.len() >= s.sample_rate.frame_length,
        s.indices.signal_type != FrameSignalType::Voiced,
        s.loss_count == 0,
        0 <= i < s.sample_rate.subfr_length,
        -100 <= pulses[i] <= 100,
        forall|j: int|
            0 <= j < s.sample_rate.lpc_order ==> #[trigger] ctl.pred_coef_q12[0]@[j] == 0,
        0x1_0000 <= ctl.gains_q16[0] <= 0x10_0000,
    ensures
        ({
            let out = core_run(
                core_frame(s, ctl, pulses),
                core_start(s),
                s.sample_rate.nb_subfr as nat,
            ).out[i];
            let level = pulses[i] * ctl.gains_q16[0];
            let kept = rand_next(pulse_seed(s.indices.seed as int, pulses, i as nat)) >= 0;
            &&& kept ==> -0x6_0000 <= 0x1_0000 * out - level <= 0x6_0000
            &&& !kept ==> -0x6_0000 <= 0x1_0000 * out + level <= 0x6_0000
        }),
{
    let f = core_frame(s, ctl, pulses);
    let c = core_start(s);
    let nb = s.sample_rate.nb_subfr as nat;
    lemma_first_output(f, c, nb, i);
    let order = s.sample_rate.lpc_order as int;
    let row = f.row(0);
    assert(row =~= ctl.pred_coef_q12[0]@.subrange(0, order));
    assert forall|j: int| 0 <= j < row.len() implies #[trigger] row[j] == 0 by {
        assert(row[j] == ctl.pred_coef_q12[0]@[j]);
    }
    assert(i < s.sample_rate.frame_length) by {
        assert(nb * s.sample_rate.subfr_length >= s.sample_rate.subfr_length) by (nonlinear_arith)
            requires
                nb >= 1,
        ;
    }
    assert(!f.sub_voiced(0));
    assert(0 * f.len + i == i);
    let e = f.exc[i];
    assert(e == excitation(s.indices.seed as int, quant_offset(s.indices), pulses, i));
    law_excitation_follows_pulses(s, s.indices.seed as int, pulses, i);
    assert(residual(f, c, 0, i) == e);
    let hist = synthesis(f, c, 0, i as nat);
    lemma_synthesis_len(f, c, 0, i as nat);
    lemma_synthesis_prediction_zero(hist, row, row.len());
    let y = e + 16 * (order / 2);
    assert(synthesis(f, c, 0, (i + 1) as nat)[16 + i] == y);
    let kept = rand_next(pulse_seed(s.indices.seed as int, pulses, i as nat)) >= 0;
    let p = if kept {
        pulses[i] as int
    } else {
        -(pulses[i] as int)
    };
    lemma_heard_level(p, f.gains[0], y);
    let g = f.gains[0] / 64;
    lemma_mul_ww(y, g);
    let o = (y * g) / 0x1_0000;
    assert(round_shift(o, 8) == (o / 128 + 1) / 2) by {
        lemma2_to64();
        reveal(round_shift);
    }
    let pg = p * f.gains[0];
    let level = pulses[i] * ctl.gains_q16[0];
    assert(kept ==> pg == level);
    assert(!kept ==> pg == -level) by (nonlinear_arith)
        requires
            !kept ==> p == -(pulses[i] as int),
            pg == p * f.gains[0],
            level == pulses[i] * ctl.gains_q16[0],
            f.gains[0] == ctl.gains_q16[0],
    ;
}

/// The steps from a pulse to the output, each rounded.
proof fn lemma_heard_level(p: int, gain: int, y: int)
    requires
        -100 <= p <= 100,
        0x1_0000 <= gain <= 0x10_0000,
        -5248 <= y - 0x4000 * p <= 5248,
    ensures
        ({
            let out = ((y * (gain / 64)) / 0x1_0000 / 128 + 1) / 2;
            &&& -0x6_0000 <= 0x1_0000 * out - p * gain <= 0x6_0000
            &&& -0x7fff_0000_0000 <= y * (gain / 64) <= 0x7fff_0000_0000
            &&& -0x8000 <= out <= 0x7fff
        }),
{
    let g = gain / 64;
    let r = gain % 64;
    let yg = y * g;
    let d = y - 0x4000 * p;
    let pg = p * gain;
    assert(y * gain == 64 * yg + y * r) by (nonlinear_arith)
        requires
            gain == 64 * g + r,
            yg == y * g,
    ;
    assert(-0x800_0000 <= y * r <= 0x800_0000) by (nonlinear_arith)
        requires
            -0x20_0000 <= y <= 0x20_0000,
            0 <= r < 64,
    ;
    assert(y * gain == 0x4000 * pg + d * gain) by (nonlinear_arith)
        requires
            d == y - 0x4000 * p,
            pg == p * gain,
    ;
    assert(-5248 * 0x10_0000 <= d * gain <= 5248 * 0x10_0000) by (nonlinear_arith)
        requires
            -5248 <= d <= 5248,
            0 <= gain <= 0x10_0000,
    ;
    assert(-100 * 0x10_0000 <= pg <= 100 * 0x10_0000) by (nonlinear_arith)
        requires
            pg == p * gain,
            -100 <= p <= 100,
            0 <= gain <= 0x10_0000,
    ;
}

// ---------------------------------------------------------------------
// Short-term prediction
// ---------------------------------------------------------------------

proof fn lemma_synthesis_prediction_one(hist: Seq<int>, a: Seq<i16>, j: int, n: nat)
    requires
        0 <= j < a.len() <= 16,
        a.len() <= hist.len(),
        n <= a.len(),
        forall|t: int| 0 <= t < a.len() && t != j ==> #[trigger] a[t] == 0,
        -0x800_0000 <= hist[hist.len() - 1 - j] <= 0x800_0000,
    ensures
        synthesis_prediction(hist, a, n) == a.len() as int / 2 + if n > j {
            (hist[hist.len() - 1 - j] * a[j]) / 0x1_0000
        } else {
            0
        },
        -0x400_0000 <= (hist[hist.len() - 1 - j] * a[j]) / 0x1_0000 <= 0x400_0000,
    decreases n,
{
    let h = hist[hist.len() - 1 - j];
    let v = a[j] as int;
    assert(-0x400_0000_0000 <= h * v <= 0x400_0000_0000) by (nonlinear_arith)
        requires
            -0x800_0000 <= h <= 0x800_0000,
            -0x8000 <= v <= 0x7fff,
    ;
    lemma_mul_ww(h, v);
    if n > 0 {
        lemma_synthesis_prediction_one(hist, a, j, (n - 1) as nat);
        if n - 1 != j {
            assert(a[n - 1] == 0);
            lemma_mul_ww_zero(hist[hist.len() - n]);
        }
        lemma_wrap32_range(a.len() as int / 2 + (h * v) / 0x1_0000);
        lemma_wrap32_range(a.len() as int / 2);
    }
}

/// A synthesised sample is its residual and what the predictor makes of those
/// before, with coefficient `j` (Q12) weighing the sample `j + 1` before: shown for
/// predictors with a single coefficient.
pub proof fn law_synthesis_adds_prediction(f: CoreFrame, c: CoreState, k: int, i: nat, j: int)
    requires
        0 <= j < f.row(k).len() <= 16,
        forall|t: int| 0 <= t < f.row(k).len() && t != j ==> #[trigger] f.row(k)[t] == 0,
        -0x800_0000 <= synthesis(f, c, k, i)[15 + i - j] <= 0x800_0000,
        -0x3000_0000 <= residual(f, c, k, i as int) <= 0x3000_0000,
    ensures
        synthesis(f, c, k, i + 1).len() == 17 + i,
        synthesis(f, c, k, i + 1)[16 + i as int] == residual(f, c, k, i as int) + 16 * (f.row(
            k,
        ).len() as int / 2 + (synthesis(f, c, k, i)[15 + i - j] * f.row(k)[j]) / 0x1_0000),
{
    let hist = synthesis(f, c, k, i);
    lemma_synthesis_len(f, c, k, i);
    lemma_synthesis_prediction_one(hist, f.row(k), j, f.row(k).len());
}

proof fn lemma_short_prediction_one(x: Seq<i16>, pos: int, a: Seq<i16>, j: int, n: nat)
    requires
        0 <= j < a.len() <= 16,
        n <= a.len(),
        forall|t: int| 0 <= t < a.len() && t != j ==> #[trigger] a[t] == 0,
    ensures
        short_prediction(x, pos, a, n) == if n > j {
            x[pos - 1 - j] * a[j]
        } else {
            0
        },
        -0x4000_0000 <= x[pos - 1 - j] * a[j] <= 0x4000_0000,
    decreases n,
{
    let h = x[pos - 1 - j] as int;
    let v = a[j] as int;
    assert(-0x4000_0000 <= h * v <= 0x4000_0000) by (nonlinear_arith)
        requires
            -0x8000 <= h <= 0x7fff,
            -0x8000 <= v <= 0x7fff,
    ;
    if n > 0 {
        lemma_short_prediction_one(x, pos, a, j, (n - 1) as nat);
        if n - 1 != j {
            assert(a[n - 1] == 0);
            assert(x[pos - n] * 0 == 0);
        }
        lemma_wrap32_range(h * v);
        lemma_wrap32_range(0);
    }
}

/// Whitening takes away what the predictor makes of the samples before, rounded to
/// the nearest sample: shown for predictors with a single coefficient (Q12).
pub proof fn law_whitening_takes_prediction_away(x: Seq<i16>, pos: int, a: Seq<i16>, j: int)
    requires
        0 <= j < a.len() <= 16,
        forall|t: int| 0 <= t < a.len() && t != j ==> #[trigger] a[t] == 0,
    ensures
        ({
            let left = (4096 * x[pos] - x[pos - 1 - j] * a[j] + 2048) / 4096;
            whitened(x, pos, a) == if left > 0x7fff {
                0x7fff
            } else if left < -0x8000 {
                -0x8000
            } else {
                left
            }
        }),
{
    lemma2_to64();
    lemma_short_prediction_one(x, pos, a, j, a.len());
    let v = 4096 * x[pos] - x[pos - 1 - j] * a[j];
    lemma_wrap32_range(v);
    reveal(round_shift);
    assert((v / 2048 + 1) / 2 == (v + 2048) / 4096);
}

/// An output sample is the synthesised one (Q14) times the gain (Q16), unless it
/// saturates.
pub proof fn law_output_is_scaled(f: CoreFrame, c: CoreState, k: int, i: int)
    requires
        0 <= i,
        0 < f.gains[k] <= 0x7fff_ffff,
        ({
            let v = synthesis(f, c, k, (i + 1) as nat)[16 + i];
            -0x7000_0000_0000 <= v * (f.gains[k] / 64) <= 0x7000_0000_0000
        }),
    ensures
        ({
            let v = synthesis(f, c, k, (i + 1) as nat)[16 + i];
            let out = output_sample(f, c, k, i);
            &&& -0x8000 < out < 0x7fff ==> -0x81_0000 <= v * (f.gains[k] / 64) - 0x100_0000 * out
                <= 0x81_0000
            &&& v >= 0 ==> out >= 0
            &&& v <= 0 ==> out <= 0
        }),
{
    lemma2_to64();
    let v = synthesis(f, c, k, (i + 1) as nat)[16 + i];
    let g = f.gains[k] / 64;
    let x = (v * g) / 0x1_0000;
    lemma_mul_ww(v, g);
    let n = (x / 128 + 1) / 2;
    assert(round_shift(x, 8) == n) by {
        reveal(round_shift);
    }
    assert(v >= 0 ==> v * g >= 0) by (nonlinear_arith)
        requires
            g >= 0,
    ;
    assert(v <= 0 ==> v * g <= 0) by (nonlinear_arith)
        requires
            g >= 0,
    ;
}

/// A frame that is not voiced and follows no lost voiced one takes nothing from the
/// history: its residual is the excitation.
pub proof fn law_unvoiced_is_excitation(f: CoreFrame, c: CoreState, k: int, i: int)
    requires
        !f.voiced,
        !f.transition,
    ensures
        residual(f, c, k, i) == f.exc[k * f.len + i],
        core_step(f, c, k).ltp == c.ltp,
        core_step(f, c, k).idx == c.idx,
{
}

/// A state that follows a change of gain.
proof fn lemma_followed(prev: int, gain: int, before: int, after: int)
    requires
        0 < prev <= 0x7fff_ffff,
        0 < gain <= 0x7fff_ffff,
        prev <= 16 * gain,
        gain <= 0x1_0000 * prev,
        0 <= before <= 0x400_0000,
        after == if prev == gain {
            before
        } else {
            mul_ww(gain_change(prev, gain), before)
        },
    ensures
        0x1_0000 * (after * gain) <= 0x1_0000 * (before * prev) + (prev / 512 + 1) * before,
        0x1_0000 * (after * gain) >= 0x1_0000 * (before * prev) - (prev / 512 + 1 + gain) * before
            - 0x1_0000 * gain,
{
    lemma2_to64();
    if prev == gain {
        assert(after == before);
        assert((prev / 512 + 1) * before >= 0) by (nonlinear_arith)
            requires
                prev > 0,
                before >= 0,
        ;
        assert((prev / 512 + 1 + gain) * before >= 0) by (nonlinear_arith)
            requires
                prev > 0,
                gain > 0,
                before >= 0,
        ;
    } else {
        let ch = gain_change(prev, gain);
        lemma_headroom_gap(prev, gain);
        law_quotient_is_close(prev, gain, 16);
        law_quotient_has_the_sign(prev, gain, 16);
        assert(pow2(16) == 0x1_0000);
        assert(0x200_0000 * (ch * gain - prev * 0x1_0000) <= prev * 0x1_0000);
        assert(0x200_0000 * (ch * gain + gain - prev * 0x1_0000) >= -(prev * 0x1_0000));
        let part = prev / 512 + 1;
        assert(ch * gain <= prev * 0x1_0000 + part);
        assert(ch * gain >= prev * 0x1_0000 - part - gain);
        assert(ch <= 0x11_0000) by (nonlinear_arith)
            requires
                ch * gain <= prev * 0x1_0000 + prev / 512 + 1,
                prev <= 16 * gain,
                prev > 0,
                gain > 0,
        ;
        assert(0 <= ch * before <= 0x11_0000 * 0x400_0000) by (nonlinear_arith)
            requires
                0 <= ch <= 0x11_0000,
                0 <= before <= 0x400_0000,
        ;
        lemma_mul_ww(ch, before);
        assert(after == (ch * before) / 0x1_0000);
        let cb = ch * before;
        let ag = after * gain;
        assert(0x1_0000 * ag <= cb * gain < 0x1_0000 * ag + 0x1_0000 * gain) by (nonlinear_arith)
            requires
                0x1_0000 * after <= cb < 0x1_0000 * after + 0x1_0000,
                ag == after * gain,
                gain > 0,
        ;
        let cg = ch * gain;
        assert(cb * gain == cg * before) by (nonlinear_arith)
            requires
                cb == ch * before,
                cg == ch * gain,
        ;
        assert(cg * before <= (prev * 0x1_0000) * before + part * before) by (nonlinear_arith)
            requires
                cg <= prev * 0x1_0000 + part,
                before >= 0,
        ;
        assert(cg * before >= (prev * 0x1_0000) * before - (part + gain) * before)
            by (nonlinear_arith)
            requires
                cg >= prev * 0x1_0000 - part - gain,
                before >= 0,
        ;
        assert((prev * 0x1_0000) * before == 0x1_0000 * (before * prev)) by (nonlinear_arith);
    }
}

/// Where the gain changes, what the subframe before left is brought to the new one:
/// state times gain stays what it was, but for rounding.
pub proof fn law_states_follow_gain(f: CoreFrame, c: CoreState, k: int, j: int)
    requires
        0 <= j < 16,
        0 < c.prev_gain <= 0x7fff_ffff,
        0 < f.gains[k] <= 0x7fff_ffff,
        c.prev_gain <= 16 * f.gains[k],
        f.gains[k] <= 0x1_0000 * c.prev_gain,
        0 <= c.lpc[j] <= 0x400_0000,
    ensures
        ({
            let gain = f.gains[k];
            let prev = c.prev_gain;
            let before = c.lpc[j];
            let after = synthesis(f, c, k, 0)[j];
            &&& 0x1_0000 * (after * gain) <= 0x1_0000 * (before * prev) + (prev / 512 + 1) * before
            &&& 0x1_0000 * (after * gain) >= 0x1_0000 * (before * prev) - (prev / 512 + 1 + gain)
                * before - 0x1_0000 * gain
        }),
{
    lemma_followed(c.prev_gain, f.gains[k], c.lpc[j], synthesis(f, c, k, 0)[j]);
}

/// So is what the long-term buffer holds of earlier subframes, where the history is
/// not filtered anew.
pub proof fn law_buffer_follows_gain(f: CoreFrame, c: CoreState, k: int, q: int)
    requires
        !f.rewhitened(k),
        c.ltp.len() == 640,
        0 <= c.idx - f.lag(k) - 2 <= q < c.idx <= 640,
        0 < c.prev_gain <= 0x7fff_ffff,
        0 < f.gains[k] <= 0x7fff_ffff,
        c.prev_gain <= 16 * f.gains[k],
        f.gains[k] <= 0x1_0000 * c.prev_gain,
        0 <= c.ltp[q] <= 0x400_0000,
    ensures
        ({
            let gain = f.gains[k];
            let prev = c.prev_gain;
            let before = c.ltp[q];
            let after = ltp_before(f, c, k)[q];
            &&& 0x1_0000 * (after * gain) <= 0x1_0000 * (before * prev) + (prev / 512 + 1) * before
            &&& 0x1_0000 * (after * gain) >= 0x1_0000 * (before * prev) - (prev / 512 + 1 + gain)
                * before - 0x1_0000 * gain
        }),
{
    let ch = gain_change(c.prev_gain, f.gains[k]);
    let before = c.ltp[q];
    if c.prev_gain != f.gains[k] && ch == 0x1_0000 {
        lemma_mul_ww(0x1_0000, before);
        assert(0x1_0000 * before / 0x1_0000 == before);
    }
    lemma_followed(c.prev_gain, f.gains[k], before, ltp_before(f, c, k)[q]);
}

/// Where the second half of a voiced frame has a predictor of its own, the history is
/// filtered anew with it: without a short-term predictor the buffer holds the samples
/// themselves, those of the first half included, divided by the new gain (Q16 and Q15
/// make Q31), but for rounding.
pub proof fn law_second_half_filters_anew(f: CoreFrame, c: CoreState, q: int)
    requires
        f.voiced,
        f.interpolated,
        c.hist.len() == 480,
        c.ltp.len() == 640,
        0 <= c.idx - f.lag(2) - 2 <= q < c.idx <= 640,
        0 <= f.mem,
        0 < f.len,
        f.mem + 2 * f.len <= 480,
        c.idx == f.mem + 2 * f.len,
        c.out.len() == 2 * f.len,
        0 < f.row(2).len() <= 16,
        f.row(2).len() <= q,
        forall|j: int| 0 <= j < f.row(2).len() ==> #[trigger] f.row(2)[j] == 0,
        0x1_0000 <= f.gains[2] <= 0x10_0000,
        0 <= sample_so_far(f, c, q),
    ensures
        ({
            let gain = f.gains[2];
            let v = 0x8000_0000 * sample_so_far(f, c, q);
            let held = ltp_before(f, c, 2)[q] * gain;
            v - 2 * gain - 0x10_0000 <= held <= v + 0x10_0000
        }),
{
    let gain = f.gains[2];
    let x = sample_so_far(f, c, q);
    let hist = hist_before(f, c, 2);
    let row = f.row(2);
    assert(hist[q] == x);
    law_whitening_takes_prediction_away(hist, q, row, 0);
    assert(hist[q - 1] * 0 == 0);
    assert((4096 * x + 2048) / 4096 == x);
    assert(whitened(hist, q, row) == x);
    let w = lemma_history_level(gain, 0x4000, x);
    let inv = inverse_varq(gain, 47);
    let v = inv * x;
    assert(0 <= v <= 0x4000_0000_0000) by (nonlinear_arith)
        requires
            v == inv * x,
            0 <= inv <= 0x7fff_ffff,
            0 <= x <= 0x7fff,
    ;
    lemma_mul_ww(inv, x);
    assert(f.mem - c.idx + q + 2 * f.len == q);
    let held = ltp_before(f, c, 2)[q];
    assert(held == v / 0x1_0000);
    let hg = held * gain;
    assert(0x1_0000 * hg <= v * gain < 0x1_0000 * hg + 0x1_0000 * gain) by (nonlinear_arith)
        requires
            0x1_0000 * held <= v < 0x1_0000 * held + 0x1_0000,
            hg == held * gain,
            gain > 0,
    ;
    let ig = inv * gain;
    assert(v * gain == ig * x) by (nonlinear_arith)
        requires
            v == inv * x,
            ig == inv * gain,
    ;
    assert(ig * x <= 0x8000_0000_0000 * x + 0x20_0000 * 0x7fff) by (nonlinear_arith)
        requires
            ig <= 0x8000_0000_0000 + 0x20_0000,
            0 <= x <= 0x7fff,
    ;
    assert(ig * x >= 0x8000_0000_0000 * x - 0x20_0000 * 0x7fff - gain * 0x7fff) by (nonlinear_arith)
        requires
            ig >= 0x8000_0000_0000 - 0x20_0000 - gain,
            0 <= x <= 0x7fff,
            gain > 0,
    ;
}

/// Sample `p` of the history and the frame's first half behind it.
pub open spec fn sample_so_far(f: CoreFrame, c: CoreState, p: int) -> int {
    if p < f.mem {
        c.hist[p] as int
    } else {
        c.out[p - f.mem] as int
    }
}

proof fn lemma_headroom_gap(prev: int, gain: int)
    requires
        0 < prev <= 0x7fff_ffff,
        0 < gain <= 0x7fff_ffff,
        prev <= 16 * gain,
        gain <= 0x1_0000 * prev,
    ensures
        0 <= 13 + headroom(prev) - headroom(gain) < 32,
{
    lemma2_to64();
    lemma_headroom(prev);
    lemma_headroom(gain);
    let ha = headroom(prev);
    let hb = headroom(gain);
    if hb > ha + 13 {
        lemma_pow2_adds(ha, (hb - ha) as nat);
        let d = pow2((hb - ha) as nat) as int;
        if hb - ha > 13 {
            lemma_pow2_strictly_increases(13, (hb - ha) as nat);
        }
        let p = pow2(ha) as int;
        assert(false) by (nonlinear_arith)
            requires
                prev <= 16 * gain,
                gain * (p * d) <= 0x7fff_ffff,
                prev * p >= 0x4000_0000,
                d >= 0x2000,
                p > 0,
                gain > 0,
        ;
    }
    if ha >= hb + 19 {
        lemma_pow2_adds(hb, (ha - hb) as nat);
        let d = pow2((ha - hb) as nat) as int;
        if ha - hb > 19 {
            lemma_pow2_strictly_increases(19, (ha - hb) as nat);
        }
        let p = pow2(hb) as int;
        assert(false) by (nonlinear_arith)
            requires
                gain <= 0x1_0000 * prev,
                prev * (p * d) <= 0x7fff_ffff,
                gain * p >= 0x4000_0000,
                d >= 0x8_0000,
                p > 0,
                prev > 0,
        ;
    }
}

// ---------------------------------------------------------------------
// Subframes
// ---------------------------------------------------------------------

/// The residual of a voiced sample enters the long-term buffer behind what it holds,
/// with one more fractional bit; what is in front stays.
pub proof fn law_residual_enters_the_buffer(f: CoreFrame, c: CoreState, k: int, i: nat, q: int)
    requires
        f.sub_voiced(k),
        0 <= c.idx,
        c.idx + i < 640,
        c.ltp.len() == 640,
        -0x3fff_ffff <= residual(f, c, k, i as int) <= 0x3fff_ffff,
        0 <= q < c.idx,
    ensures
        ltp_after(f, c, k, i + 1)[c.idx + i] == 2 * residual(f, c, k, i as int),
        ltp_after(f, c, k, i + 1)[q] == ltp_before(f, c, k)[q],
{
    lemma2_to64();
    lemma_ltp_kept(f, c, k, i, q);
    lemma_ltp_kept(f, c, k, i + 1, q);
    lemma_wrap32_range(residual(f, c, k, i as int) * 2);
}

/// Behind a lost voiced frame the first two subframes of one that is not voiced fade
/// out of it: a quarter of the sound one lag of the lost frame before, and nothing of
/// its neighbours. The later ones take nothing from the history.
pub proof fn law_lost_voice_fades_out(f: CoreFrame, c: CoreState, k: int, i: int)
    requires
        f.transition,
        !f.voiced,
        0 <= k < 4,
    ensures
        k < 2 ==> f.lag(k) == f.lag_prev,
        k < 2 ==> 4 * f.tap(k, 2) == 0x4000,
        k < 2 ==> f.tap(k, 0) == 0 && f.tap(k, 1) == 0 && f.tap(k, 3) == 0 && f.tap(k, 4) == 0,
        k >= 2 ==> residual(f, c, k, i) == f.exc[k * f.len + i],
{
}

/// A frame's output grows by one subframe at a time: what is there stays.
pub proof fn law_output_grows(f: CoreFrame, c: CoreState, k: nat)
    requires
        f.len >= 0,
    ensures
        core_run(f, c, k).out.len() == c.out.len() + k * f.len,
        core_run(f, c, k + 1).out.len() == core_run(f, c, k).out.len() + f.len,
        forall|i: int|
            0 <= i < core_run(f, c, k).out.len() ==> #[trigger] core_run(f, c, k + 1).out[i]
                == core_run(f, c, k).out[i],
        core_run(f, c, k + 1).prev_gain == f.gains[k as int],
    decreases k,
{
    if k > 0 {
        law_output_grows(f, c, (k - 1) as nat);
        assert(k * f.len == (k - 1) * f.len + f.len) by (nonlinear_arith);
    } else {
        assert(0 * f.len == 0);
    }
}

/// The first half of a frame is synthesised with the first predictor, the second
/// half with the second.
pub proof fn law_predictors_by_halves(
    s: DecoderState,
    ctl: DecoderControl,
    pulses: Seq<i16>,
    k: int,
)
    requires
        core_ok(s, ctl),
        0 <= k < 4,
    ensures
        ({
            let row = core_frame(s, ctl, pulses).row(k);
            let half: int = if k < 2 {
                0
            } else {
                1
            };
            &&& row.len() == s.sample_rate.lpc_order
            &&& forall|j: int|
                0 <= j < row.len() ==> #[trigger] row[j] == ctl.pred_coef_q12[half]@[j]
        }),
{
    assert(k / 2 == 0 || k / 2 == 1);
}

/// A frame is synthesised as its indices and parameters say: with a pitch where it is
/// voiced, with two predictors where its frequencies are interpolated, and fading out
/// of a lost voiced frame where it is not voiced itself.
pub proof fn law_frame_is_as_decoded(s: DecoderState, ctl: DecoderControl, pulses: Seq<i16>, k: int)
    requires
        0 <= k < 4,
    ensures
        ({
            let f = core_frame(s, ctl, pulses);
            let voiced = s.indices.signal_type == FrameSignalType::Voiced;
            let lost = s.loss_count > 0 && s.sample_rate.prev_signal_type
                == FrameSignalType::Voiced;
            &&& voiced ==> f.sub_voiced(k) && f.lag(k) == ctl.pitch_l[k]
            &&& voiced ==> forall|t: int|
                0 <= t < 5 ==> #[trigger] f.tap(k, t) == ctl.ltp_coef_q14[5 * k + t]
            &&& !voiced && !lost ==> !f.sub_voiced(k)
            &&& !voiced && lost ==> (f.sub_voiced(k) <==> k < 2)
            &&& f.gains[k] == ctl.gains_q16[k]
            &&& f.rewhitened(0) && !f.rewhitened(1) && !f.rewhitened(3)
            &&& f.rewhitened(2) <==> s.indices.nlsf_interp_coef_q2 < 4
        }),
{
}

} // verus!
