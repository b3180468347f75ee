//! Kernels by architecture, and repetition of samples.

use opus_codec::silk::arm_silk_map::{
    checked_dispatch_index, dispatch_index, select_biquad_alt_stride2_impl,
    select_lpc_inverse_pred_gain_impl, select_nsq_noise_shape_feedback_loop_impl,
    select_warped_autocorrelation_fix_impl, OPUS_ARCHMASK,
};
use opus_codec::silk::biquad_alt::biquad_alt_stride2;
use opus_codec::silk::lpc_inv_pred_gain::lpc_inverse_pred_gain;
use opus_codec::silk::nsq::nsq_noise_shape_feedback_loop;
use opus_codec::silk::warped_autocorrelation::warped_autocorrelation;
use opus_codec::upsample::up;

#[test]
fn dispatch_index_matches_arch_mask() {
    assert_eq!(dispatch_index(0), 0);
}

#[test]
fn biquad_dispatch_matches_scalar() {
    let mut state = [2_345_678, -3_456_789, 4_567_890, -5_678_901];
    let mut expected_state = state;
    let b = [1_145_324_612, -229_064_922, 1_145_324_612];
    let a = [-1_010_580_540, 505_290_270];
    let input = [1357, -2468, 3579, -4680, 5791, -6802, 7913, -8024];
    let mut output = [0i16; 8];
    let mut expected_output = output;

    let fn_ptr = select_biquad_alt_stride2_impl(0);
    fn_ptr.call(&input, &b, &a, &mut state, &mut output);

    biquad_alt_stride2(&input, &b, &a, &mut expected_state, &mut expected_output);

    assert_eq!(output, expected_output);
    assert_eq!(state, expected_state);
}

#[test]
fn lpc_inverse_pred_gain_dispatch_matches_scalar() {
    let coeffs = [
        290, -1100, 845, -451, 712, -301, 210, -77, 33, -12, 6, -3, 1, -1, 0, 0,
    ];
    let fn_ptr = select_lpc_inverse_pred_gain_impl(0);
    assert_eq!(fn_ptr.call(&coeffs), lpc_inverse_pred_gain(&coeffs));
}

#[test]
fn unknown_architecture_has_no_slot() {
    assert_eq!(checked_dispatch_index(OPUS_ARCHMASK), Some(7));
    assert_eq!(checked_dispatch_index(OPUS_ARCHMASK + 1), None);
    assert_eq!(checked_dispatch_index(-1), None);
}

#[test]
fn upsample_repeats_samples() {
    let input = [0.1_f32, -0.4, 0.8];
    let mut output = [0.0_f32; 9];
    up(&input, &mut output, 3);
    assert_eq!(output, [0.1, 0.1, 0.1, -0.4, -0.4, -0.4, 0.8, 0.8, 0.8]);
}

#[test]
fn upsample_stops_at_the_end_of_the_output() {
    let mut output = [0i16; 5];
    up(&[1i16, 2, 3], &mut output, 2);
    assert_eq!(output, [1, 1, 2, 2, 3]);
    up(&[9i16], &mut output, 2);
    assert_eq!(output, [9, 9, 2, 2, 3]);
}

#[test]
fn nsq_feedback_dispatch_matches_scalar() {
    let mut ar2_q14 = [0i32; 10];
    let mut expected_ar2 = ar2_q14;
    let coef_q13 = [12i16, -34, 56, -78, 90, -12, 34, -56, 78, -90];
    let fn_ptr = select_nsq_noise_shape_feedback_loop_impl(0);
    let arch_value = fn_ptr.call(1234, &mut ar2_q14, &coef_q13, coef_q13.len());
    let scalar_value =
        nsq_noise_shape_feedback_loop(1234, &mut expected_ar2, &coef_q13, coef_q13.len());

    assert_eq!(arch_value, scalar_value);
    assert_eq!(ar2_q14, expected_ar2);
}

#[test]
fn warped_autocorr_dispatch_matches_scalar() {
    let mut corr = [0i32; 5];
    let mut expected_corr = corr;
    let input = [1i16, -2, 3, -4, 5, -6];
    let warping_q16 = 18_000;

    let fn_ptr = select_warped_autocorrelation_fix_impl(0);
    let scale = fn_ptr.call(&mut corr, &input, warping_q16, 4);
    let expected_scale = warped_autocorrelation(&mut expected_corr, &input, warping_q16, 4);

    assert_eq!(scale, expected_scale);
    assert_eq!(corr, expected_corr);
}

#[test]
fn feedback_moves_the_delay_line() {
    let mut line = [1 << 16, 2 << 16, 3 << 16];
    // Half the order, then 5 * 10 + 1 * 20, doubled.
    let out = nsq_noise_shape_feedback_loop(5 << 16, &mut line, &[10, 20], 2);
    assert_eq!(line, [5 << 16, 1 << 16, 3 << 16]);
    assert_eq!(out, 2 * (1 + 50 + 20));
}

#[test]
fn correlation_without_warping_is_plain() {
    // 1 * 1 + 2 * 2 + 3 * 3 = 14 and 1 * 2 + 2 * 3 = 8, with 10 and 15 bits more.
    let mut corr = [7i32; 4];
    let scale = warped_autocorrelation(&mut corr, &[1, 2, 3], 0, 2);
    assert_eq!(scale, -25);
    assert_eq!(corr, [14 << 25, 8 << 25, 3 << 25, 7]);
}
