//! What the parameters of a frame amount to.

use crate::fixed::{bit_length, div_trunc, lemma_wrap32_range, mul_mm, round_shift};
use crate::range::lemma_bit_length_bound;
use crate::silk::bwexpander::law_expansion_shrinks;
use crate::silk::decode_parameters::{
    after_loss, frame_interp, frame_nlsf, frame_predictor, interpolated, DecoderParametersState,
};
use crate::silk::division_laws::law_inverse_is_close;
use crate::silk::encode_frame::{enclosed, next_gain_mult, trial_gain, RateLoop};
use crate::silk::gain_quant::{
    law_lowest_gain, level_at, level_gain, log2lin_of, next_level, GAIN_OFFSET_Q7, INV_SCALE_Q16,
};
use crate::silk::lpc_inv_pred_gain::{
    coef_sum, inverse_gain, inverse_gain_q12, reflection_of_coef, step_gain, undone, A_LIMIT_QA,
    MIN_INVERSE_GAIN_Q30,
};
use crate::silk::math::{headroom, inverse_varq, lemma_headroom, shl};
use crate::silk::nlsf2a::{fit_chirp, peak_at, peak_q12};
use crate::silk::nlsf_cb::SilkNlsfCb;
use crate::silk::nlsf_decode::{
    cb1_at, gap, index_level, nlsf_residual, nlsf_value, nlsf_weight, pred_weight,
};
use vstd::arithmetic::div_mod::*;
use vstd::arithmetic::power2::*;
use vstd::prelude::*;

verus! {

// ---------------------------------------------------------------------
// Gains
// ---------------------------------------------------------------------

/// The part of an octave that a fraction of 128 stands for.
proof fn lemma_curve(f: int)
    requires
        0 <= f <= 127,
    ensures
        0 <= f + (f * (128 - f) * -174) / 0x1_0000 <= f,
{
    let g = f * (128 - f) * 174;
    assert(f * (128 - f) * -174 == -g) by (nonlinear_arith)
        requires
            g == f * (128 - f) * 174,
    ;
    assert(0 <= g <= 22272 * f) by (nonlinear_arith)
        requires
            g == f * (128 - f) * 174,
            0 <= f <= 127,
    ;
}

/// A logarithm in units of a 128th of an octave: whole octaves give the powers of
/// two, and the others lie between them.
pub proof fn law_logarithm_counts_octaves(log: int)
    requires
        0 <= log < 3967,
    ensures
        pow2((log / 128) as nat) <= log2lin_of(log) < 2 * pow2((log / 128) as nat),
        log % 128 == 0 ==> log2lin_of(log) == pow2((log / 128) as nat),
{
    lemma2_to64();
    let k = (log / 128) as nat;
    let out = pow2(k) as int;
    let f = log % 128;
    lemma_pow2_pos(k);
    lemma_curve(f);
    let curve = f + (f * (128 - f) * -174) / 0x1_0000;
    if f == 0 {
        assert(0 * (128 - 0) * -174 == 0);
        assert(out * 0 == 0 && (out / 128) * 0 == 0);
    }
    if log < 2048 {
        assert(0 <= out * curve <= 127 * out) by (nonlinear_arith)
            requires
                0 <= curve <= 127,
                out > 0,
        ;
    } else {
        assert(0 <= (out / 128) * curve <= 127 * (out / 128)) by (nonlinear_arith)
            requires
                0 <= curve <= 127,
                out > 0,
        ;
        if k > 7 {
            lemma_pow2_strictly_increases(7, k);
        }
        assert(127 * (out / 128) < out);
    }
}

/// A larger logarithm gives no smaller number.
pub proof fn law_logarithm_rises(log: int, more: int)
    requires
        0 <= log <= more,
    ensures
        log2lin_of(log) <= log2lin_of(more),
    decreases more - log,
{
    if log < more {
        law_logarithm_rises(log, more - 1);
        let a = more - 1;
        if more < 3967 {
            law_logarithm_counts_octaves(a);
            law_logarithm_counts_octaves(more);
            if a / 128 == more / 128 {
                let f = a % 128;
                let out = pow2((a / 128) as nat) as int;
                let g = f * (128 - f) * -174;
                let h = (f + 1) * (128 - (f + 1)) * -174;
                assert(h >= g - 22272) by (nonlinear_arith)
                    requires
                        g == f * (128 - f) * -174,
                        h == (f + 1) * (128 - (f + 1)) * -174,
                        0 <= f,
                ;
                let c = f + g / 0x1_0000;
                let d = f + 1 + h / 0x1_0000;
                assert(c <= d);
                assert(out * c <= out * d && (out / 128) * c <= (out / 128) * d)
                    by (nonlinear_arith)
                    requires
                        c <= d,
                        out >= 0,
                ;
            } else {
                assert(more / 128 == a / 128 + 1);
                lemma_pow2_unfold((more / 128) as nat);
            }
        } else if a < 3967 {
            law_logarithm_counts_octaves(a);
            lemma2_to64();
            if a / 128 < 30 {
                lemma_pow2_strictly_increases((a / 128) as nat, 30);
            }
        }
    }
}

/// A higher level is a gain that is no smaller.
pub proof fn law_gain_rises_with_level(level: int, more: int)
    requires
        0 <= level <= more <= 63,
    ensures
        level_gain(level) <= level_gain(more),
{
    law_logarithm_rises(
        (INV_SCALE_Q16 * level) / 0x1_0000 + GAIN_OFFSET_Q7,
        (INV_SCALE_Q16 * more) / 0x1_0000 + GAIN_OFFSET_Q7,
    );
}

/// The gains reach from 1.25 to about 26000 (Q16), over 63 equal steps of the
/// logarithm, 22 of which make five octaves.
pub proof fn law_gain_levels_span(level: int)
    requires
        0 <= level <= 63,
    ensures
        81920 <= level_gain(level) <= 1686110208,
        level + 22 <= 63 ==> {
            let a = (INV_SCALE_Q16 * level) / 0x1_0000 + GAIN_OFFSET_Q7;
            let b = (INV_SCALE_Q16 * (level + 22)) / 0x1_0000 + GAIN_OFFSET_Q7;
            640 <= b - a <= 641
        },
{
    law_gain_rises_with_level(0, level);
    law_gain_rises_with_level(level, 63);
    law_lowest_gain();
    lemma2_to64();
    assert((1907825int * 63) / 0x1_0000 + 2090 == 3923);
    assert(83int + (83int * (128 - 83) * -174) / 0x1_0000 == 73);
    assert(0x4000_0000int + (0x4000_0000int / 128) * 73 == 1686110208);
    assert(3923int / 128 == 30 && 3923int % 128 == 83);
    assert(log2lin_of(3923) == 1686110208);
    assert(level_gain(63) == 1686110208);
}

/// Levels move with their indices: index 4 of a relative one stands for no change,
/// a larger one for no lower level; an absolute one falls by no more than 16.
pub proof fn law_level_follows_index(prev: int, index: int, more: int)
    requires
        0 <= prev <= 63,
        index <= more,
    ensures
        next_level(prev, 4, false) == prev,
        next_level(prev, index, false) <= next_level(prev, more, false),
        next_level(prev, index, true) <= next_level(prev, more, true),
        next_level(prev, index, true) >= prev - 16,
        index >= prev - 16 && 0 <= index <= 63 ==> next_level(prev, index, true) == index,
        4 <= index <= 4 + 8 + prev && prev + index - 4 <= 63 ==> next_level(prev, index, false)
            == prev + index - 4,
        0 <= index <= 4 && prev + index - 4 >= 0 ==> next_level(prev, index, false) == prev + index
            - 4,
{
}

/// The first gain of a frame is relative to the one before where the frame is coded on
/// from it, and stands alone otherwise; the later ones are relative to the gain before
/// each.
pub proof fn law_later_gains_are_relative(prev: int, indices: Seq<int>, k: int)
    requires
        0 <= prev <= 63,
        0 <= k < 4,
        indices.len() == 4,
        forall|j: int| 0 <= j < 4 ==> #[trigger] indices[j] == 4,
    ensures
        level_at(prev, indices, true, k) == prev,
        level_at(prev, indices, false, k) == if prev - 16 > 4 {
            prev - 16
        } else {
            4
        },
    decreases k,
{
    assert(level_at(prev, indices, true, -1) == prev);
    assert(level_at(prev, indices, false, -1) == prev);
    assert(indices[k] == 4);
    if k > 0 {
        law_later_gains_are_relative(prev, indices, k - 1);
    }
}

// ---------------------------------------------------------------------
// The search for a rate
// ---------------------------------------------------------------------

/// Too many bits raise the factor on the gains, too few lower it, each within its
/// limits; once both were seen, the next factor lies between theirs, and a quarter
/// of the way or more from both.
pub proof fn law_gain_search_moves(s: RateLoop, n_bits: int)
    requires
        s.wf(),
        64 <= s.gain_mult_q8 <= 1024,
        s.found_lower ==> 64 <= s.gain_mult_lower <= 1024,
        s.found_upper ==> 64 <= s.gain_mult_upper <= 1024,
        i32::MIN <= n_bits <= i32::MAX,
    ensures
        ({
            let e = enclosed(s, n_bits);
            let next = next_gain_mult(e, n_bits);
            let both = e.found_lower && e.found_upper;
            &&& !both && n_bits > s.max_bits ==> s.gain_mult_q8 <= next <= 1024
            &&& !both && n_bits > s.max_bits && s.gain_mult_q8 <= 682 ==> 2 * next >= 3
                * s.gain_mult_q8 - 1
            &&& !both && n_bits <= s.max_bits ==> 64 <= next <= s.gain_mult_q8
            &&& !both && n_bits <= s.max_bits && s.gain_mult_q8 >= 80 ==> 5 * next <= 4
                * s.gain_mult_q8
            &&& both && e.gain_mult_upper <= e.gain_mult_lower ==> {
                let quarter = (e.gain_mult_lower - e.gain_mult_upper) / 4;
                e.gain_mult_upper + quarter <= next <= e.gain_mult_lower - quarter
            }
        }),
{
    let e = enclosed(s, n_bits);
    lemma_wrap32_range(e.gain_mult_q8 * 3);
    lemma_wrap32_range(e.gain_mult_q8 * 4);
    if e.found_lower && e.found_upper {
        let diff = e.gain_mult_upper - e.gain_mult_lower;
        lemma_wrap32_range(diff);
        lemma_wrap32_range(e.gain_mult_lower + diff / 4);
        lemma_wrap32_range(e.gain_mult_upper - diff / 4);
    }
}

/// A trial's gain is the wanted one times the factor (Q8), rounded down to a
/// multiple of 256, unless it saturates; a locked subframe keeps its own factor.
pub proof fn law_trial_gain_is_scaled(s: RateLoop, unquantised: int, i: int)
    requires
        0 <= i < 4,
        0 <= unquantised <= 0x7fff_ffff,
        0 <= s.gain_mult_q8 <= 0x7fff,
        0 <= s.best_gain_mult[i] <= 0x7fff,
    ensures
        ({
            let factor = if s.gain_lock[i] {
                s.best_gain_mult[i] as int
            } else {
                s.gain_mult_q8 as int
            };
            let gain = trial_gain(s, unquantised, i);
            gain < 0x7fff_ffff ==> {
                &&& gain % 256 == 0
                &&& 256 * gain <= unquantised * factor < 256 * gain + 0x1_0000
            }
        }),
{
    let factor = if s.gain_lock[i] {
        s.best_gain_mult[i] as int
    } else {
        s.gain_mult_q8 as int
    };
    crate::fixed::lemma_mul_wb(unquantised, factor);
    assert(unquantised * factor >= 0) by (nonlinear_arith)
        requires
            unquantised >= 0,
            factor >= 0,
    ;
}

// ---------------------------------------------------------------------
// Inverse prediction gain
// ---------------------------------------------------------------------

/// A step's factor lies between 0 and 1.
proof fn lemma_step_gain(a: int)
    requires
        -A_LIMIT_QA <= a <= A_LIMIT_QA,
    ensures
        0 <= step_gain(a) <= 0x4000_0000,
        reflection_of_coef(a) == -(a * 128),
        step_gain(a) == 0x4000_0000 - (a * a * 0x4000) / 0x1_0000_0000,
{
    lemma2_to64();
    lemma_wrap32_range(a * 128);
    lemma_wrap32_range(-(a * 128));
    let rc = -(a * 128);
    assert(rc * rc == a * a * 0x4000) by (nonlinear_arith)
        requires
            rc == -(a * 128),
    ;
    assert(0 <= a * a <= 16773022 * 16773022) by (nonlinear_arith)
        requires
            -16773022 <= a <= 16773022,
    ;
    reveal(mul_mm);
    lemma_wrap32_range(0x4000_0000 - (rc * rc) / 0x1_0000_0000);
}

/// With each coefficient that is taken off, the gain falls or stays.
proof fn lemma_inverse_gain(a: Seq<int>, k: nat, gain: int)
    requires
        0 <= gain <= 0x4000_0000,
    ensures
        inverse_gain(a, k, gain) == 0 || MIN_INVERSE_GAIN_Q30 <= inverse_gain(a, k, gain) <= gain,
    decreases k,
{
    if -A_LIMIT_QA <= a[k as int] <= A_LIMIT_QA {
        lemma2_to64();
        lemma_step_gain(a[k as int]);
        let step = step_gain(a[k as int]);
        reveal(mul_mm);
        let m = (gain * step) / 0x1_0000_0000;
        assert(0 <= gain * step <= gain * 0x4000_0000) by (nonlinear_arith)
            requires
                0 <= gain,
                0 <= step <= 0x4000_0000,
        ;
        lemma_wrap32_range(m * 4);
        let g = shl(mul_mm(gain, step), 2);
        assert(g == m * 4);
        assert(g <= gain);
        if g >= MIN_INVERSE_GAIN_Q30 && k > 0 {
            let b = Seq::new(k, |n: int| undone(a[n], a[k - 1 - n], a[k as int]));
            lemma_inverse_gain(b, (k - 1) as nat, g);
        }
    }
}

/// The inverse prediction gain of a filter is a positive part of one (Q30), or 0
/// where the filter is not stable enough; a filter whose coefficients sum to one or
/// more is not.
pub proof fn law_inverse_gain_is_a_part(a: Seq<i16>)
    requires
        a.len() >= 1,
    ensures
        inverse_gain_q12(a) == 0 || MIN_INVERSE_GAIN_Q30 <= inverse_gain_q12(a) <= 0x4000_0000,
        coef_sum(a, a.len()) >= 4096 ==> inverse_gain_q12(a) == 0,
{
    lemma_inverse_gain(
        Seq::new(a.len(), |i: int| a[i] * 4096),
        (a.len() - 1) as nat,
        0x4000_0000,
    );
}

/// A filter with the single coefficient `c` (Q12) has the inverse prediction gain
/// `1 - c^2`.
pub proof fn law_inverse_gain_of_one(a: Seq<i16>)
    requires
        a.len() == 1,
    ensures
        -4094 <= a[0] <= 4094 ==> inverse_gain_q12(a) == 0x4000_0000 - 64 * (a[0] * a[0]),
        a[0] < -4094 || a[0] > 4094 ==> inverse_gain_q12(a) == 0,
{
    let c = a[0] as int;
    assert(coef_sum(a, 0) == 0);
    assert(coef_sum(a, 1) == c);
    let s = Seq::new(a.len(), |i: int| a[i] * 4096);
    assert(s[0] == c * 4096);
    if -4094 <= c <= 4094 {
        lemma_gain_of_one(c);
        assert(0 <= c * c <= 4094 * 4094) by (nonlinear_arith)
            requires
                -4094 <= c <= 4094,
        ;
    }
}

proof fn lemma_gain_of_one(c: int)
    requires
        -4094 <= c <= 4094,
    ensures
        shl(mul_mm(0x4000_0000, step_gain(c * 4096)), 2) == 0x4000_0000 - 64 * (c * c),
{
    lemma2_to64();
    let t = c * 4096;
    lemma_step_gain(t);
    assert(t * t * 0x4000 == 0x1_0000_0000 * (64 * (c * c))) by (nonlinear_arith)
        requires
            t == c * 4096,
    ;
    let step = step_gain(t);
    assert(step == 0x4000_0000 - 64 * (c * c));
    assert(0 <= c * c <= 4094 * 4094) by (nonlinear_arith)
        requires
            -4094 <= c <= 4094,
    ;
    reveal(mul_mm);
    assert((0x4000_0000 * step) / 0x1_0000_0000 == step / 4);
    lemma_wrap32_range(step / 4 * 4);
    assert(step / 4 * 4 == step);
}

// ---------------------------------------------------------------------
// Frequencies
// ---------------------------------------------------------------------

proof fn lemma_scaled_is_ordered(a: int, b: int, w: int, d: int)
    requires
        a <= b,
        w >= 0,
        d > 0,
    ensures
        (a * w) / d <= (b * w) / d,
{
    assert(a * w <= b * w) by (nonlinear_arith)
        requires
            a <= b,
            w >= 0,
    ;
    lemma_div_is_ordered(a * w, b * w, d);
}

/// Larger indices of the second stage give no smaller residuals.
proof fn lemma_residual_rises(cb: SilkNlsfCb, idx: Seq<int>, more: Seq<int>, i: int)
    requires
        cb.wf(),
        idx[0] == more[0],
        forall|j: int| 1 <= j <= cb.order ==> #[trigger] idx[j] <= more[j],
        0 <= i,
    ensures
        nlsf_residual(cb, idx, i) <= nlsf_residual(cb, more, i),
    decreases cb.order - i,
{
    if i < cb.order {
        lemma_residual_rises(cb, idx, more, i + 1);
        assert(idx[i + 1] <= more[i + 1]);
        lemma_scaled_is_ordered(
            nlsf_residual(cb, idx, i + 1),
            nlsf_residual(cb, more, i + 1),
            pred_weight(cb, idx[0], i),
            256,
        );
        lemma_scaled_is_ordered(
            index_level(idx[i + 1]),
            index_level(more[i + 1]),
            cb.quant_step_size_q16 as int,
            0x1_0000,
        );
    }
}

proof fn lemma_residual_zero(cb: SilkNlsfCb, idx: Seq<int>, i: int)
    requires
        forall|j: int| 1 <= j <= cb.order ==> #[trigger] idx[j] == 0,
        0 <= i,
    ensures
        nlsf_residual(cb, idx, i) == 0,
    decreases cb.order - i,
{
    if i < cb.order {
        lemma_residual_zero(cb, idx, i + 1);
        assert(idx[i + 1] == 0);
        assert(0 * pred_weight(cb, idx[0], i) == 0);
        assert(0 * cb.quant_step_size_q16 == 0);
    }
}

proof fn lemma_quotient_is_ordered(a: int, b: int, d: int)
    requires
        a <= b,
        d > 0,
    ensures
        div_trunc(a, d) <= div_trunc(b, d),
{
    if a >= 0 {
        lemma_div_is_ordered(a, b, d);
    } else if b < 0 {
        lemma_div_is_ordered(-b, -a, d);
    } else {
        lemma_div_pos_is_pos(-a, d);
        lemma_div_pos_is_pos(b, d);
    }
}

proof fn lemma_weight_is_positive(cb: SilkNlsfCb, i1: int, i: int)
    requires
        cb.wf(),
        0 <= i1 < cb.n_vectors,
        0 <= i < cb.order,
    ensures
        nlsf_weight(cb, i1, i) > 0,
{
    let below = gap(cb1_at(cb, i1, i) - cb1_at(cb, i1, i - 1));
    let above = gap(cb1_at(cb, i1, i + 1) - cb1_at(cb, i1, i));
    assert(1 <= below <= 256 && 1 <= above <= 256);
    let q = 1024int / below;
    let r = 1024int / above;
    lemma_fundamental_div_mod(1024, below);
    lemma_mod_bound(1024, below);
    lemma_fundamental_div_mod(1024, above);
    lemma_mod_bound(1024, above);
    assert(1 <= q <= 1024) by (nonlinear_arith)
        requires
            1024 == below * q + 1024int % below,
            0 <= 1024int % below < below,
            1 <= below <= 256,
    ;
    assert(1 <= r <= 1024) by (nonlinear_arith)
        requires
            1024 == above * r + 1024int % above,
            0 <= 1024int % above < above,
            1 <= above <= 256,
    ;
    crate::silk::math::lemma_sqrt_positive((q + r) * 0x1_0000);
}

/// Without a second stage the frequencies are the codebook's; larger indices of it
/// give no lower ones.
pub proof fn law_frequencies_follow_indices(cb: SilkNlsfCb, idx: Seq<int>, more: Seq<int>, i: int)
    requires
        cb.wf(),
        0 <= idx[0] < cb.n_vectors,
        idx[0] == more[0],
        forall|j: int| 1 <= j <= cb.order ==> #[trigger] idx[j] <= more[j],
        0 <= i < cb.order,
    ensures
        nlsf_value(cb, idx, i) <= nlsf_value(cb, more, i),
        (forall|j: int| 1 <= j <= cb.order ==> #[trigger] idx[j] == 0) ==> nlsf_value(cb, idx, i)
            == 128 * cb.cb1_nlsf_q8@[idx[0] * cb.order + i],
{
    lemma_weight_is_positive(cb, idx[0], i);
    lemma_residual_rises(cb, idx, more, i);
    lemma_quotient_is_ordered(
        nlsf_residual(cb, idx, i) * 0x4000,
        nlsf_residual(cb, more, i) * 0x4000,
        nlsf_weight(cb, idx[0], i),
    );
    if forall|j: int| 1 <= j <= cb.order ==> #[trigger] idx[j] == 0 {
        lemma_residual_zero(cb, idx, i);
        let w = nlsf_weight(cb, idx[0], i);
        assert(0int / w == 0) by (nonlinear_arith)
            requires
                w > 0,
        ;
    }
}

/// A second-stage index stands for that many steps, each of 1024, drawn a tenth of a
/// step towards 0.
pub proof fn law_index_levels(v: int)
    ensures
        index_level(0) == 0,
        v > 0 ==> index_level(v) == 1024 * v - 102,
        index_level(-v) == -index_level(v),
{
}

/// A residual is its own level times the step (Q16), and the part of the next one
/// that the predictor (Q8) takes; each is rounded down.
pub proof fn law_residual_is_predicted(cb: SilkNlsfCb, idx: Seq<int>, i: int)
    requires
        cb.wf(),
        0 <= i < cb.order,
    ensures
        ({
            let own = nlsf_residual(cb, idx, i) * 0x1_0000 - index_level(idx[i + 1])
                * cb.quant_step_size_q16;
            &&& i == cb.order - 1 ==> -0x1_0000 < own <= 0
            &&& i < cb.order - 1 ==> {
                let next = nlsf_residual(cb, idx, i + 1) * pred_weight(cb, idx[0], i) * 256;
                next - 0x2_0000 < own <= next
            }
        }),
{
    let level = index_level(idx[i + 1]) * cb.quant_step_size_q16;
    assert(nlsf_residual(cb, idx, cb.order as int) == 0);
    if i < cb.order - 1 {
        let p = nlsf_residual(cb, idx, i + 1) * pred_weight(cb, idx[0], i);
        assert(nlsf_residual(cb, idx, i) == p / 256 + level / 0x1_0000);
    } else {
        assert(nlsf_residual(cb, idx, i) == level / 0x1_0000);
    }
}

/// A frequency lies off the codebook's by its residual over its weight, where that is
/// inside the band: weight times distance is the residual (with 14 more bits), but for
/// rounding towards 0.
pub proof fn law_weight_divides_residual(cb: SilkNlsfCb, idx: Seq<int>, i: int)
    requires
        cb.wf(),
        0 <= idx[0] < cb.n_vectors,
        0 <= i < cb.order,
        0 < nlsf_value(cb, idx, i) < 0x7fff,
    ensures
        ({
            let off = nlsf_value(cb, idx, i) - 128 * cb.cb1_nlsf_q8@[idx[0] * cb.order + i];
            let w = nlsf_weight(cb, idx[0], i);
            let res = nlsf_residual(cb, idx, i) * 0x4000;
            &&& w > 0
            &&& res >= 0 ==> 0 <= res - off * w < w
            &&& res <= 0 ==> -w < res - off * w <= 0
        }),
{
    lemma_weight_is_positive(cb, idx[0], i);
    let w = nlsf_weight(cb, idx[0], i);
    let res = nlsf_residual(cb, idx, i) * 0x4000;
    let off = div_trunc(res, w);
    let m = if res >= 0 {
        res
    } else {
        -res
    };
    let q = m / w;
    lemma_fundamental_div_mod(m, w);
    lemma_mod_bound(m, w);
    assert(w * q == q * w) by (nonlinear_arith);
    if res < 0 {
        assert(off == -q);
        assert(off * w == -(q * w)) by (nonlinear_arith)
            requires
                off == -q,
        ;
    }
}

/// Without interpolation both halves of a frame have the same predictor; so they have
/// where the frame's frequencies are those of the frame before.
pub proof fn law_halves_agree_without_interpolation(s: DecoderParametersState)
    requires
        s.wf(),
        frame_interp(s) == 4 || frame_nlsf(s) == s.prev_nlsf_q15@.subrange(
            0,
            frame_nlsf(s).len() as int,
        ),
        frame_nlsf(s).len() <= 16,
    ensures
        frame_predictor(s, 0) == frame_predictor(s, 1),
{
    let nlsf = frame_nlsf(s);
    if frame_interp(s) < 4 {
        let between = interpolated(s.prev_nlsf_q15@, nlsf, frame_interp(s));
        assert forall|i: int| 0 <= i < nlsf.len() implies #[trigger] between[i] == nlsf[i] by {
            assert(nlsf[i] == s.prev_nlsf_q15@[i]);
            assert(frame_interp(s) * 0 == 0);
        }
        assert(between =~= nlsf);
    }
}

// ---------------------------------------------------------------------
// One coefficient less
// ---------------------------------------------------------------------

/// Taking a coefficient off a filter undoes the step that added it: times the step's
/// factor (Q30) the result is the coefficient without its mirror image's part, but for
/// rounding.
pub proof fn law_coefficient_is_taken_off(own: int, mirror: int, a: int)
    requires
        -A_LIMIT_QA <= a <= A_LIMIT_QA,
        -0x2000_0000 <= own <= 0x2000_0000,
        -0x2000_0000 <= mirror <= 0x2000_0000,
        step_gain(a) > 0,
    ensures
        ({
            let g = step_gain(a);
            let part = (mirror * (-(a * 128)) + 0x4000_0000) / 0x8000_0000;
            let left = own - part;
            let r = undone(own, mirror, a);
            let slack = 10 * (if left >= 0 {
                left
            } else {
                -left
            }) + g;
            -slack <= r * g - 0x4000_0000 * left <= slack
        }),
{
    lemma2_to64();
    lemma_step_gain(a);
    let g = step_gain(a);
    let rc = -(a * 128);
    let v = mirror * rc;
    assert(-0x2000_0000 * 0x8000_0000 <= v <= 0x2000_0000 * 0x8000_0000) by (nonlinear_arith)
        requires
            v == mirror * rc,
            -0x2000_0000 <= mirror <= 0x2000_0000,
            -0x8000_0000 <= rc <= 0x8000_0000,
    ;
    let part = (v + 0x4000_0000) / 0x8000_0000;
    assert(round_shift(v, 31) == part) by {
        reveal(round_shift);
        assert((v / 0x4000_0000 + 1) / 2 == (v + 0x4000_0000) / 0x8000_0000);
    }
    lemma_wrap32_range(part);
    let left = own - part;
    let bits = bit_length(g as nat);
    lemma_bit_length_bound(g as nat);
    lemma_headroom(g);
    assert(1 <= bits <= 31) by {
        if bits > 31 {
            if bits > 32 {
                lemma_pow2_strictly_increases(31, (bits - 1) as nat);
            }
        }
        assert(bit_length(0) == 0);
    }
    let q = bits as int + 30;
    assert(headroom(g) == 31 - bits);
    law_inverse_is_close(g, q);
    let inv = inverse_varq(g, q);
    let one = pow2(bits) as int;
    lemma_pow2_adds(bits, 30);
    lemma_pow2_adds(bits, 3);
    assert(g < one && one <= 2 * g) by {
        lemma_pow2_unfold(bits);
    }
    // inv * g against 2^30 * one
    let ig = inv * g;
    assert(0x4000_0000 * one - 8 * one - g <= ig <= 0x4000_0000 * one + 8 * one);
    let li = left * inv;
    let h = pow2((bits - 1) as nat) as int;
    lemma_pow2_pos((bits - 1) as nat);
    lemma_pow2_unfold(bits);
    let r = undone(own, mirror, a);
    assert(r == round_shift(li, bits));
    let t = li / h;
    lemma_fundamental_div_mod(li, h);
    lemma_mod_bound(li, h);
    assert(r == (t + 1) / 2) by {
        reveal(round_shift);
    }
    // r * one against left * inv
    assert(-one <= 2 * (r * one - li) <= one) by (nonlinear_arith)
        requires
            li == h * t + li % h,
            0 <= li % h < h,
            one == 2 * h,
            2 * r == t || 2 * r == t + 1,
            h > 0,
    ;
    let rg = r * g;
    let ro = r * one;
    let lig = left * ig;
    assert(li * g == lig) by (nonlinear_arith)
        requires
            li == left * inv,
            ig == inv * g,
            lig == left * ig,
    ;
    let m = if left >= 0 {
        left
    } else {
        -left
    };
    let d = ig - 0x4000_0000 * one;
    assert(-9 * one <= d <= 9 * one);
    assert(lig == 0x4000_0000 * (left * one) + left * d) by (nonlinear_arith)
        requires
            lig == left * ig,
            d == ig - 0x4000_0000 * one,
    ;
    assert(-9 * (m * one) <= left * d <= 9 * (m * one)) by (nonlinear_arith)
        requires
            -9 * one <= d <= 9 * one,
            m == left || m == -left,
            m >= 0,
    ;
    let e = ro - li;
    assert(-(g * one) <= 2 * (e * g) <= g * one) by (nonlinear_arith)
        requires
            -one <= 2 * e <= one,
            g > 0,
    ;
    assert(rg * one == lig + e * g) by (nonlinear_arith)
        requires
            rg == r * g,
            ro == r * one,
            e == ro - li,
            li * g == lig,
    ;
    let x = rg - 0x4000_0000 * left;
    assert(x * one == left * d + e * g) by (nonlinear_arith)
        requires
            x == rg - 0x4000_0000 * left,
            rg * one == 0x4000_0000 * (left * one) + left * d + e * g,
    ;
    let slack = 10 * m + g;
    assert(-slack <= x <= slack) by (nonlinear_arith)
        requires
            x * one <= 9 * (m * one) + g * one,
            x * one >= -9 * (m * one) - g * one,
            slack == 10 * m + g,
            one > 0,
            m >= 0,
            g > 0,
    ;
}

/// Behind a loss a predictor is made weaker: no coefficient grows or changes its sign.
/// Otherwise it is left as it is.
pub proof fn law_predictor_weakens_after_loss(a: Seq<i16>, i: int)
    requires
        0 <= i < a.len(),
    ensures
        after_loss(a, false) == a,
        after_loss(a, true).len() == a.len(),
        a[i] >= 0 ==> 0 <= after_loss(a, true)[i] <= a[i],
        a[i] <= 0 ==> a[i] <= after_loss(a, true)[i] <= 0,
{
    law_expansion_shrinks(63570, i as nat, a[i] as int);
}

/// A filter whose largest coefficient does not fit is weakened, by a factor (Q16) below
/// one and well above none.
pub proof fn law_fitting_weakens(a: Seq<int>)
    requires
        a.len() <= 16,
        0 <= peak_at(a, a.len()) < 16,
        peak_q12(a) > 0x7fff,
    ensures
        12000 <= fit_chirp(a) <= 65470,
{
    let m = if peak_q12(a) < 163838 {
        peak_q12(a)
    } else {
        163838
    };
    let n = peak_at(a, a.len()) + 1;
    let mn = m * n;
    assert(mn >= m) by (nonlinear_arith)
        requires
            mn == m * n,
            n >= 1,
            m >= 0,
    ;
    let d = mn / 4;
    let v = (m - 0x7fff) * 0x4000;
    assert(d >= 8192);
    assert(v <= 53000 * d);
    lemma_fundamental_div_mod(v, d);
    lemma_mod_bound(v, d);
    let q = v / d;
    assert(0 <= q <= 53000) by (nonlinear_arith)
        requires
            v == d * q + v % d,
            0 <= v % d < d,
            0 <= v <= 53000 * d,
            d > 0,
    ;
}

} // verus!
