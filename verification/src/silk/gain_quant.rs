//! Subframe gains from their indices.

use crate::fixed::{clamp32, clamped, lemma_mul_wb, smulwb};
use vstd::arithmetic::power2::*;
use vstd::bits::*;
use vstd::prelude::*;

verus! {

/// Step of the levels in the logarithmic domain.
pub const INV_SCALE_Q16: i32 = 1907825;

/// Logarithm (Q7) of the lowest level.
pub const GAIN_OFFSET_Q7: i32 = 2090;

/// `2^(log / 128)`, approximately: a parabola between powers of two.
pub open spec fn log2lin_of(log: int) -> int {
    if log < 0 {
        0
    } else if log >= 3967 {
        0x7fff_ffff
    } else {
        let out = pow2((log / 128) as nat) as int;
        let frac = log % 128;
        let curve = frac + (frac * (128 - frac) * -174) / 0x1_0000;
        if log < 2048 {
            out + (out * curve) / 128
        } else {
            out + (out / 128) * curve
        }
    }
}

pub fn silk_log2lin(log: i32) -> (r: i32)
    ensures
        r == log2lin_of(log as int),
        r >= 0,
        log >= 0 ==> r > 0,
{
    if log < 0 {
        return 0;
    }
    if log >= 3967 {
        return 0x7fff_ffff;
    }
    let whole: u32 = (log / 128) as u32;
    let frac: i32 = log % 128;
    proof {
        lemma2_to64();
        lemma_pow2_strictly_increases(whole as nat, 31);
        lemma_pow2_pos(whole as nat);
        lemma_u32_shl_is_mul(1, whole);
        assert(0 <= frac * (128 - frac) <= 4096) by (nonlinear_arith)
            requires
                0 <= frac <= 127,
        ;
        lemma_mul_wb(frac * (128 - frac), -174);
    }
    let out: i32 = (1u32 << whole) as i32;
    let curve: i32 = frac + smulwb(frac * (128 - frac), -174);
    assert(curve == frac + (frac * (128 - frac) * -174) / 0x1_0000);
    assert(-11 <= curve <= 127);
    proof {
        // the parabola stays between the ends of the octave
        lemma_curve(frac as int);
        assert(0 <= curve <= 127);
    }
    if log < 2048 {
        proof {
            assert(whole <= 15);
            lemma_pow2_strictly_increases(whole as nat, 16);
            assert(0 <= out * curve <= 0x1_0000 * 127) by (nonlinear_arith)
                requires
                    0 <= out <= 0x1_0000,
                    0 <= curve <= 127,
            ;
        }
        out + (out * curve) / 128
    } else {
        proof {
            let q = out as int / 128;
            assert(0 <= q * curve <= q * 127) by (nonlinear_arith)
                requires
                    q >= 0,
                    0 <= curve <= 127,
            ;
            assert(q * 127 <= 0x3f80_0000);
            assert(out <= 0x4000_0000) by {
                if whole < 30 {
                    lemma_pow2_strictly_increases(whole as nat, 30);
                }
            }
        }
        out + (out / 128) * curve
    }
}

proof fn lemma_curve(frac: int)
    requires
        0 <= frac <= 127,
    ensures
        0 <= frac + (frac * (128 - frac) * -174) / 0x1_0000 <= 127,
{
    let t = frac * (128 - frac) * -174;
    assert(-22272 * frac <= t <= 0) by (nonlinear_arith)
        requires
            t == frac * (128 - frac) * -174,
            0 <= frac <= 127,
    ;
    assert(t >= -65536 * frac);
    assert(t / 0x1_0000 >= -frac);
    assert(t / 0x1_0000 <= 0);
}

/// The level after `prev`: absolute, but not more than 16 below it, or relative
/// with double steps where that takes many.
pub open spec fn next_level(prev: int, index: int, absolute: bool) -> int {
    let level = if absolute {
        if index > prev - 16 {
            index
        } else {
            prev - 16
        }
    } else {
        let step = index - 4;
        let threshold = 8 + prev;
        if step > threshold {
            prev + 2 * step - threshold
        } else {
            prev + step
        }
    };
    clamped(level, 0, 63)
}

/// The level of subframe `k`, from the last level of the frame before.
pub open spec fn level_at(prev: int, indices: Seq<int>, conditional: bool, k: int) -> int
    decreases k + 1,
{
    if k < 0 {
        prev
    } else {
        next_level(level_at(prev, indices, conditional, k - 1), indices[k], k == 0 && !conditional)
    }
}

/// The gain (Q16) of a level.
pub open spec fn level_gain(level: int) -> int {
    log2lin_of((INV_SCALE_Q16 * level) / 0x1_0000 + GAIN_OFFSET_Q7)
}

/// The gain of a level.
pub fn gain_of_level(level: i32) -> (r: i32)
    requires
        0 <= level <= 63,
    ensures
        r == level_gain(level as int),
        r > 0,
{
    proof {
        lemma_mul_wb(INV_SCALE_Q16 as int, level as int);
    }
    silk_log2lin(smulwb(INV_SCALE_Q16, level) + GAIN_OFFSET_Q7)
}

/// Gains (Q16) of the first `nb_subfr` subframes; `prev_ind` is the last level.
pub fn silk_gains_dequant(
    gain_q16: &mut [i32; 4],
    ind: &[i8; 4],
    prev_ind: &mut i8,
    conditional: bool,
    nb_subfr: usize,
)
    requires
        nb_subfr <= 4,
    ensures
        ({
            let idx = Seq::new(4, |i: int| ind[i] as int);
            let prev = *old(prev_ind) as int;
            &&& forall|k: int|
                0 <= k < nb_subfr ==> #[trigger] final(gain_q16)@[k] == level_gain(
                    level_at(prev, idx, conditional, k),
                )
            &&& forall|k: int| 0 <= k < nb_subfr ==> #[trigger] final(gain_q16)@[k] > 0
            &&& forall|k: int|
                nb_subfr <= k < 4 ==> #[trigger] final(gain_q16)@[k] == old(gain_q16)@[k]
            &&& *final(prev_ind) == level_at(prev, idx, conditional, nb_subfr - 1)
        }),
        nb_subfr > 0 ==> 0 <= *final(prev_ind) <= 63,
{
    let ghost idx = Seq::new(4, |i: int| ind[i] as int);
    let ghost prev = *prev_ind as int;
    for k in 0..nb_subfr
        invariant
            nb_subfr <= 4,
            idx == Seq::new(4, |i: int| ind[i] as int),
            prev == *old(prev_ind),
            *prev_ind == level_at(prev, idx, conditional, k - 1),
            k > 0 ==> 0 <= *prev_ind <= 63,
            forall|j: int|
                0 <= j < k ==> #[trigger] gain_q16@[j] == level_gain(
                    level_at(prev, idx, conditional, j),
                ),
            forall|j: int| 0 <= j < k ==> #[trigger] gain_q16@[j] > 0,
            forall|j: int| k <= j < 4 ==> #[trigger] gain_q16@[j] == old(gain_q16)@[j],
    {
        let before: i32 = *prev_ind as i32;
        let index: i32 = ind[k] as i32;
        let level: i32 = if k == 0 && !conditional {
            if index > before - 16 {
                index
            } else {
                before - 16
            }
        } else {
            let step: i32 = index - 4;
            let threshold: i32 = 8 + before;
            if step > threshold {
                before + 2 * step - threshold
            } else {
                before + step
            }
        };
        let limited: i32 = clamp32(level, 0, 63);
        assert(idx[k as int] == index);
        *prev_ind = limited as i8;
        gain_q16[k] = gain_of_level(limited);
    }
}

/// The lowest gain is 1.25.
pub proof fn law_lowest_gain()
    ensures
        level_gain(0) == 81920,
{
    lemma2_to64();
    assert(2090int / 128 == 16);
    assert((42int * 86 * -174) / 0x1_0000 == -10);
    assert(pow2(16) == 0x1_0000);
    assert(log2lin_of(2090) == 0x1_0000 + (0x1_0000int / 128) * 32);
}

} // verus!
