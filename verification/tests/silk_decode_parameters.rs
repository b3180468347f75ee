//! Parameters of a frame.

use opus_codec::silk::decode_indices::ConditionalCoding;
use opus_codec::silk::decode_parameters::{silk_decode_parameters, DecoderParametersState};
use opus_codec::silk::decode_pitch::silk_decode_pitch;
use opus_codec::silk::decoder_control::DecoderControl;
use opus_codec::silk::nlsf_decode::nlsf_decode;
use opus_codec::silk::tables_ltp::SILK_LTP_GAIN_VQ_0;
use opus_codec::silk::tables_other::SILK_LTPSCALES_TABLE_Q14;
use opus_codec::silk::types::{FrameSignalType, LTP_ORDER, MAX_LPC_ORDER, MAX_NB_SUBFR};

fn base_state() -> DecoderParametersState {
    DecoderParametersState {
        first_frame_after_reset: false,
        ..DecoderParametersState::default()
    }
}

#[test]
fn forces_interpolation_skip_on_reset() {
    let mut state = DecoderParametersState::default();
    state.indices.nlsf_interp_coef_q2 = 1;
    state.indices.signal_type = FrameSignalType::Unvoiced;
    let mut control = DecoderControl::default();

    silk_decode_parameters(&mut state, &mut control, ConditionalCoding::Independent);

    assert_eq!(state.indices.nlsf_interp_coef_q2, 4);
    assert!(control.pitch_l.iter().all(|&lag| lag == 0));

    let mut expected_nlsf = [0i16; MAX_LPC_ORDER];
    nlsf_decode(
        &mut expected_nlsf[..state.lpc_order],
        &state.indices.nlsf_indices,
        &state.nlsf_codebook,
    );
    assert_eq!(
        &state.prev_nlsf_q15[..state.lpc_order],
        &expected_nlsf[..state.lpc_order]
    );
}

#[test]
fn populates_voiced_ltp_parameters() {
    let mut state = base_state();
    state.indices.signal_type = FrameSignalType::Voiced;
    state.indices.per_index = 0;
    state.indices.ltp_scale_index = 1;
    state.indices.ltp_index = [0; MAX_NB_SUBFR];
    state.indices.lag_index = 5;
    state.indices.contour_index = 0;
    let mut control = DecoderControl::default();

    let mut expected_pitch = [0i32; MAX_NB_SUBFR];
    silk_decode_pitch(
        state.indices.lag_index,
        state.indices.contour_index,
        &mut expected_pitch,
        state.fs_khz,
        state.nb_subfr,
    );

    silk_decode_parameters(&mut state, &mut control, ConditionalCoding::Independent);

    assert_eq!(&control.pitch_l, &expected_pitch);

    let expected_taps: Vec<i16> = SILK_LTP_GAIN_VQ_0[0]
        .iter()
        .map(|&tap| i16::from(tap) << 7)
        .collect();
    assert_eq!(&control.ltp_coef_q14[..LTP_ORDER], &expected_taps[..]);
    assert_eq!(
        control.ltp_scale_q14,
        i32::from(
            SILK_LTPSCALES_TABLE_Q14[usize::try_from(state.indices.ltp_scale_index).unwrap()]
        )
    );
}

#[test]
fn bandwidth_expansion_reduces_predictor_magnitudes_after_loss() {
    let initial = base_state();
    let mut no_loss_state = initial.clone();
    let mut control_no_loss = DecoderControl::default();
    silk_decode_parameters(
        &mut no_loss_state,
        &mut control_no_loss,
        ConditionalCoding::Independent,
    );

    let mut loss_state = initial;
    loss_state.loss_count = 2;
    let mut control_loss = DecoderControl::default();
    silk_decode_parameters(
        &mut loss_state,
        &mut control_loss,
        ConditionalCoding::Independent,
    );

    let mut any_reduced = false;
    for row in 0..2 {
        for idx in 0..loss_state.lpc_order {
            let base = i32::from(control_no_loss.pred_coef_q12[row][idx]).abs();
            let after = i32::from(control_loss.pred_coef_q12[row][idx]).abs();
            assert!(after <= base);
            if after < base {
                any_reduced = true;
            }
        }
    }
    assert!(any_reduced);
}

#[test]
fn decode_pitch_wideband_stage3() {
    let mut lags = [0i32; MAX_NB_SUBFR];
    silk_decode_pitch(0, 1, &mut lags, 16, MAX_NB_SUBFR);
    assert_eq!(&lags, &[32, 32, 33, 33]);
}

#[test]
fn decode_pitch_narrowband_stage2() {
    let mut lags = [0i32; MAX_NB_SUBFR];
    silk_decode_pitch(5, 2, &mut lags, 8, MAX_NB_SUBFR);
    assert_eq!(&lags, &[20, 21, 22, 23]);
}

#[test]
fn decode_pitch_stage3_10ms() {
    let mut lags = [0i32; MAX_NB_SUBFR];
    silk_decode_pitch(3, 5, &mut lags, 16, MAX_NB_SUBFR / 2);
    assert_eq!(&lags, &[34, 37, 0, 0]);
}

#[test]
fn decode_pitch_stage2_10ms() {
    let mut lags = [0i32; MAX_NB_SUBFR];
    silk_decode_pitch(2, 1, &mut lags, 8, MAX_NB_SUBFR / 2);
    assert_eq!(&lags, &[19, 18, 0, 0]);
}
