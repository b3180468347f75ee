//! Comfort noise.

use opus_codec::silk::cng::{
    apply_cng, CngState, ComfortNoiseInputs, PlcState, CNG_GAIN_SMTH_Q16,
    CNG_GAIN_SMTH_THRESHOLD_Q16, INITIAL_RAND_SEED,
};
use opus_codec::silk::decoder_control::DecoderControl;
use opus_codec::silk::types::{FrameSignalType, MAX_LPC_ORDER, MAX_NB_SUBFR};

fn div32_16(a: i32, b: i32) -> i32 {
    a / b
}

fn smulwb(a: i32, b: i32) -> i32 {
    ((i64::from(a) * i64::from(b as i16)) >> 16) as i32
}

fn smulww(a: i32, b: i32) -> i32 {
    ((i64::from(a) * i64::from(b)) >> 16) as i32
}

fn default_inputs<'a>(
    prev_nlsf_q15: &'a [i16],
    exc_q14: &'a [i32],
    loss_count: i32,
    prev_signal_type: FrameSignalType,
    subfr_length: usize,
    nb_subfr: usize,
    lpc_order: usize,
) -> ComfortNoiseInputs<'a> {
    ComfortNoiseInputs {
        fs_khz: 16,
        lpc_order,
        nb_subfr,
        subfr_length,
        prev_signal_type,
        loss_count,
        prev_nlsf_q15,
        exc_q14,
    }
}

#[test]
fn reset_seeds_nlsf_grid() {
    let mut state = CngState::new();
    state.reset(10);
    let step_q15 = div32_16(i32::from(i16::MAX), 11);
    for (idx, &value) in state.smth_nlsf_q15.iter().take(10).enumerate() {
        let expected = ((idx as i32 + 1) * step_q15) as i16;
        assert_eq!(value, expected);
    }
    assert_eq!(state.smoothed_gain_q16(), 0);
    assert_eq!(state.rand_seed, INITIAL_RAND_SEED);
}

#[test]
fn update_tracks_highest_gain_subframe() {
    let mut state = CngState::new();
    let plc = PlcState::default();
    let mut control = DecoderControl::default();
    control.gains_q16 = [1 << 16, 2 << 16, 4 << 16, 3 << 16];

    let subfr_length = 4;
    let nb_subfr = 4;
    let lpc_order = 10;
    let frame_len = subfr_length * nb_subfr;

    let prev_nlsf: Vec<i16> = (0..MAX_LPC_ORDER).map(|idx| (idx as i16) * 123).collect();
    let mut exc_q14 = vec![0i32; frame_len];
    for (idx, sample) in exc_q14.iter_mut().enumerate() {
        *sample = (idx as i32 + 1) * 10;
    }
    let inputs = default_inputs(
        &prev_nlsf,
        &exc_q14,
        0,
        FrameSignalType::Inactive,
        subfr_length,
        nb_subfr,
        lpc_order,
    );
    let mut frame = vec![0i16; frame_len];

    apply_cng(&mut state, &plc, &control, &inputs, &mut frame);

    let mut expected_gain = 0;
    for gain in control.gains_q16.iter().take(nb_subfr) {
        expected_gain += smulwb(*gain - expected_gain, CNG_GAIN_SMTH_Q16);
        if smulww(expected_gain, CNG_GAIN_SMTH_THRESHOLD_Q16) > *gain {
            expected_gain = *gain;
        }
    }
    assert_eq!(state.smoothed_gain_q16(), expected_gain);
    assert_eq!(frame, vec![0i16; frame_len]);
    let max_subfr_start = 2 * subfr_length;
    assert_eq!(
        &state.exc_buf_q14[..subfr_length],
        &exc_q14[max_subfr_start..max_subfr_start + subfr_length]
    );
    assert!(
        state
            .smth_nlsf_q15
            .iter()
            .take(lpc_order)
            .zip(prev_nlsf.iter())
            .all(|(&smoothed, &target)| smoothed.abs() <= target.abs()),
        "smoothed_nlsf={:?} prev={:?}",
        &state.smth_nlsf_q15[..lpc_order],
        &prev_nlsf[..lpc_order]
    );
}

#[test]
fn loss_path_injects_noise() {
    let mut state = CngState::new();
    state.reset(10);
    state.smth_gain_q16 = 1 << 20;
    state
        .smth_nlsf_q15
        .iter_mut()
        .enumerate()
        .for_each(|(idx, value)| *value = 200 + (idx as i16) * 50);
    state
        .exc_buf_q14
        .iter_mut()
        .enumerate()
        .for_each(|(idx, sample)| *sample = (idx as i32) * 113);
    let mut state_clone = state.clone();

    let mut control = DecoderControl::default();
    control.gains_q16 = [1 << 16; MAX_NB_SUBFR];
    let mut plc = PlcState::default();
    plc.rand_scale_q14 = 1 << 14;
    plc.prev_gain_q16 = [1 << 16, 1 << 16];

    let subfr_length = 8;
    let nb_subfr = 2;
    let lpc_order = 10;
    let frame_len = subfr_length * nb_subfr;
    let prev_nlsf = vec![300i16; MAX_LPC_ORDER];
    let exc_q14 = vec![0i32; frame_len];
    let mut frame = vec![0i16; frame_len];
    let inputs = default_inputs(
        &prev_nlsf,
        &exc_q14,
        1,
        FrameSignalType::Voiced,
        subfr_length,
        nb_subfr,
        lpc_order,
    );

    apply_cng(&mut state, &plc, &control, &inputs, &mut frame);
    assert!(frame.iter().any(|&sample| sample != 0), "frame={:?}", frame);
    assert!(
        state
            .synth_state
            .iter()
            .take(lpc_order)
            .any(|&value| value != 0)
    );

    // Deterministic seed evolution ensures identical results when re-running.
    let mut expected_frame = vec![0i16; frame_len];
    apply_cng(
        &mut state_clone,
        &plc,
        &control,
        &inputs,
        &mut expected_frame,
    );
    assert_eq!(frame, expected_frame);
}
