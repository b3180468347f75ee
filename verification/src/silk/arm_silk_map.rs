//! Choice of kernels by architecture.
//!
//! Every architecture has a slot of its own; the same kernels stand in all of
//! them.
use crate::fixed::wrap32;
use crate::silk::biquad_alt::{biquad_coefs, biquad_output, biquad_state, channel_of};
use crate::silk::biquad_alt_neon_intr::biquad_alt_stride2_neon;
use crate::silk::lpc_inv_pred_gain::{inverse_gain_q12, lpc_inverse_pred_gain};
use crate::silk::nsq::{delayed, nsq_noise_shape_feedback_loop, taps_sum};
use crate::silk::warped_autocorrelation::{
    scaled_up, warped_autocorrelation, warped_shift, warped_sum, MAX_SHAPE_LPC_ORDER,
};
use vstd::prelude::*;

verus! {

/// Largest architecture number.
pub const OPUS_ARCHMASK: i32 = 7;

/// An architecture that there is a slot for.
pub open spec fn arch_ok(arch: int) -> bool {
    0 <= arch <= OPUS_ARCHMASK
}

/// The slot of an architecture.
pub fn dispatch_index(arch: i32) -> (r: usize)
    requires
        arch_ok(arch as int),
    ensures
        r == arch,
{
    arch as usize
}

/// The slot of an architecture; none where there is no such architecture.
pub fn checked_dispatch_index(arch: i32) -> (r: Option<usize>)
    ensures
        r == (if arch_ok(arch as int) {
            Some(arch as usize)
        } else {
            None
        }),
{
    if arch >= 0 && arch <= OPUS_ARCHMASK {
        Some(dispatch_index(arch))
    } else {
        None
    }
}

/// The kernel of the stereo biquad filter of a slot.
#[derive(Debug, Clone, Copy, PartialEq, Eq, Structural)]
pub struct SilkBiquadAltStride2Impl {
    pub slot: usize,
}

impl SilkBiquadAltStride2Impl {
    /// Filters both channels.
    pub fn call(
        &self,
        input: &[i16],
        b_q28: &[i32; 3],
        a_q28: &[i32; 2],
        state: &mut [i32; 4],
        output: &mut [i16],
    )
        requires
            input@.len() == old(output)@.len(),
            input@.len() % 2 == 0,
        ensures
            ({
                let c = biquad_coefs(b_q28@, a_q28@);
                let left = (old(state)@[0] as int, old(state)@[1] as int);
                let right = (old(state)@[2] as int, old(state)@[3] as int);
                let x0 = channel_of(input@, 0);
                let x1 = channel_of(input@, 1);
                &&& final(output)@.len() == input@.len()
                &&& forall|k: int|
                    0 <= k < input@.len() / 2 ==> #[trigger] channel_of(final(output)@, 0)[k]
                        == biquad_output(c, left, x0, k as nat)
                &&& forall|k: int|
                    0 <= k < input@.len() / 2 ==> #[trigger] channel_of(final(output)@, 1)[k]
                        == biquad_output(c, right, x1, k as nat)
                &&& (final(state)@[0] as int, final(state)@[1] as int) == biquad_state(
                    c,
                    left,
                    x0,
                    x0.len(),
                )
                &&& (final(state)@[2] as int, final(state)@[3] as int) == biquad_state(
                    c,
                    right,
                    x1,
                    x1.len(),
                )
            }),
    {
        biquad_alt_stride2_neon(input, b_q28, a_q28, state, output);
    }
}

/// The kernel of the inverse prediction gain of a slot.
#[derive(Debug, Clone, Copy, PartialEq, Eq, Structural)]
pub struct SilkLpcInversePredGainImpl {
    pub slot: usize,
}

impl SilkLpcInversePredGainImpl {
    /// Inverse prediction gain (Q30) of a filter (Q12).
    pub fn call(&self, a_q12: &[i16]) -> (r: i32)
        requires
            1 <= a_q12@.len() <= 24,
        ensures
            r == inverse_gain_q12(a_q12@),
    {
        lpc_inverse_pred_gain(a_q12)
    }
}

/// The kernel of the noise-shaping feedback of a slot.
#[derive(Debug, Clone, Copy, PartialEq, Eq, Structural)]
pub struct SilkNsqNoiseShapeFeedbackLoopImpl {
    pub slot: usize,
}

impl SilkNsqNoiseShapeFeedbackLoopImpl {
    /// Moves a sample into the delay line, and returns the filtered line (Q12).
    pub fn call(&self, data0: i32, data1: &mut [i32], coef: &[i16], order: usize) -> (r: i32)
        requires
            1 <= order <= 0xffff,
            order <= old(data1)@.len(),
            order <= coef@.len(),
        ensures
            final(data1)@ == delayed(data0, old(data1)@, order as int),
            r == wrap32(2 * taps_sum(final(data1)@, coef@, order as int, order as int)),
    {
        nsq_noise_shape_feedback_loop(data0, data1, coef, order)
    }
}

/// The kernel of the warped autocorrelation of a slot.
#[derive(Debug, Clone, Copy, PartialEq, Eq, Structural)]
pub struct SilkWarpedAutocorrelationFixImpl {
    pub slot: usize,
}

impl SilkWarpedAutocorrelationFixImpl {
    /// Correlates the input with its warped delays, and returns the scale.
    pub fn call(&self, corr: &mut [i32], input: &[i16], warping_q16: i32, order: usize) -> (r: i32)
        requires
            order <= MAX_SHAPE_LPC_ORDER,
            order % 2 == 0,
            order + 1 <= old(corr)@.len(),
            input@.len() <= 0xfffe,
        ensures
            ({
                let n = input@.len() as int;
                let w = warping_q16 as int;
                let shift = warped_shift(warped_sum(input@, w, order as int, n, 0));
                &&& r == -(10 + shift)
                &&& final(corr)@.len() == old(corr)@.len()
                &&& forall|i: int|
                    0 <= i < old(corr)@.len() ==> #[trigger] final(corr)@[i] == if i <= order {
                        scaled_up(warped_sum(input@, w, order as int, n, i), shift)
                    } else {
                        old(corr)@[i] as int
                    }
            }),
    {
        warped_autocorrelation(corr, input, warping_q16, order)
    }
}

/// The stereo biquad filter of an architecture.
pub fn select_biquad_alt_stride2_impl(arch: i32) -> (r: SilkBiquadAltStride2Impl)
    requires
        arch_ok(arch as int),
    ensures
        r.slot == arch,
{
    SilkBiquadAltStride2Impl { slot: dispatch_index(arch) }
}

/// The inverse prediction gain of an architecture.
pub fn select_lpc_inverse_pred_gain_impl(arch: i32) -> (r: SilkLpcInversePredGainImpl)
    requires
        arch_ok(arch as int),
    ensures
        r.slot == arch,
{
    SilkLpcInversePredGainImpl { slot: dispatch_index(arch) }
}

/// The noise-shaping feedback of an architecture.
pub fn select_nsq_noise_shape_feedback_loop_impl(arch: i32) -> (r:
    SilkNsqNoiseShapeFeedbackLoopImpl)
    requires
        arch_ok(arch as int),
    ensures
        r.slot == arch,
{
    SilkNsqNoiseShapeFeedbackLoopImpl { slot: dispatch_index(arch) }
}

/// The warped autocorrelation of an architecture.
pub fn select_warped_autocorrelation_fix_impl(arch: i32) -> (r: SilkWarpedAutocorrelationFixImpl)
    requires
        arch_ok(arch as int),
    ensures
        r.slot == arch,
{
    SilkWarpedAutocorrelationFixImpl { slot: dispatch_index(arch) }
}

} // verus!
