//! State of a decoder channel.

use opus_codec::silk::decoder_set_fs::{
    DecoderSampleRateState, LTP_MEM_LENGTH_MS, MAX_FRAME_LENGTH, SUB_FRAME_LENGTH_MS,
};
use opus_codec::silk::decoder_state::{
    DecoderState, PacketLossConcealmentState, DEFAULT_PLC_SUBFRAME_COUNT,
    DEFAULT_PLC_SUBFRAME_LENGTH, UNITY_Q16,
};
use opus_codec::silk::tables_nlsf_cb_nb_mb::silk_nlsf_cb_nb_mb;
use opus_codec::silk::tables_nlsf_cb_wb::silk_nlsf_cb_wb;
use opus_codec::silk::tables_other::{SILK_UNIFORM4_ICDF, SILK_UNIFORM8_ICDF};
use opus_codec::silk::tables_pitch_lag::{PITCH_CONTOUR_10_MS_NB_ICDF, PITCH_CONTOUR_ICDF};
use opus_codec::silk::types::{
    FrameSignalType, MAX_FRAMES_PER_PACKET, MAX_LPC_ORDER, MAX_NB_SUBFR, MIN_LPC_ORDER,
};

#[test]
fn set_sample_rates_updates_wideband_state() {
    let mut state = DecoderSampleRateState::default();

    state.set_sample_rates(16, 48_000).unwrap();

    assert_eq!(state.fs_khz, 16);
    assert_eq!(state.fs_api_hz, 48_000);
    assert_eq!(state.subfr_length, SUB_FRAME_LENGTH_MS * 16);
    assert_eq!(state.frame_length, MAX_NB_SUBFR * SUB_FRAME_LENGTH_MS * 16);
    assert_eq!(state.ltp_mem_length, LTP_MEM_LENGTH_MS * 16);
    assert_eq!(state.lpc_order, MAX_LPC_ORDER);
    assert_eq!(state.pitch_contour_icdf, &PITCH_CONTOUR_ICDF[..]);
    assert_eq!(state.pitch_lag_low_bits_icdf, &SILK_UNIFORM8_ICDF[..]);
    assert_eq!(state.ps_nlsf_cb, silk_nlsf_cb_wb());
    assert!(state.first_frame_after_reset);
    assert_eq!(state.lag_prev, 100);
    assert_eq!(state.last_gain_index, 10);
    assert_eq!(state.prev_signal_type, FrameSignalType::Inactive);
    assert!(state.out_buf.iter().all(|sample| *sample == 0));
    assert!(state.s_lpc_q14_buf.iter().all(|sample| *sample == 0));
    assert_eq!(state.resampler_state.fs_in_khz(), 16);
    assert_eq!(state.resampler_state.fs_out_khz(), 48);
}

#[test]
fn narrowband_10_ms_selects_nb_tables() {
    let mut state = DecoderSampleRateState::with_subframes(MAX_NB_SUBFR / 2);

    state.set_sample_rates(8, 8_000).unwrap();

    assert_eq!(state.subfr_length, SUB_FRAME_LENGTH_MS * 8);
    assert_eq!(
        state.frame_length,
        (MAX_NB_SUBFR / 2) * SUB_FRAME_LENGTH_MS * 8
    );
    assert_eq!(state.lpc_order, MIN_LPC_ORDER);
    assert_eq!(state.ltp_mem_length, LTP_MEM_LENGTH_MS * 8);
    assert_eq!(state.pitch_contour_icdf, &PITCH_CONTOUR_10_MS_NB_ICDF[..]);
    assert_eq!(state.pitch_lag_low_bits_icdf, &SILK_UNIFORM4_ICDF[..]);
    assert_eq!(state.ps_nlsf_cb, silk_nlsf_cb_nb_mb());
}

#[test]
fn resampler_reconfigured_on_rate_change() {
    let mut state = DecoderSampleRateState::default();
    state.set_sample_rates(16, 48_000).unwrap();

    // Change only the API rate to ensure we still reconfigure the resampler.
    state.set_sample_rates(16, 44_100).unwrap();
    assert_eq!(state.fs_api_hz, 44_100);
    assert_eq!(state.resampler_state.fs_out_khz(), 44);
}

#[test]
fn decoder_state_defaults_are_zeroed() {
    let state = DecoderState::default();
    assert_eq!(state.prev_gain_q16, UNITY_Q16);
    assert_eq!(state.exc_q14, [0; MAX_FRAME_LENGTH]);
    assert_eq!(state.prev_nlsf_q15, [0; MAX_LPC_ORDER]);
    assert_eq!(state.n_frames_decoded, 0);
    assert_eq!(state.n_frames_per_packet, 0);
    assert_eq!(state.loss_count, 0);
    assert_eq!(state.lbrr_flag, 0);
    assert_eq!(state.lbrr_flags, [0; MAX_FRAMES_PER_PACKET]);
}

#[test]
fn plc_reset_matches_reference_defaults() {
    let mut plc = PacketLossConcealmentState::default();
    plc.reset(160);
    assert_eq!(plc.pitch_l_q8, 160 << 7);
    assert_eq!(plc.prev_gain_q16, [UNITY_Q16; 2]);
    assert_eq!(plc.subfr_length, DEFAULT_PLC_SUBFRAME_LENGTH);
    assert_eq!(plc.nb_subfr, DEFAULT_PLC_SUBFRAME_COUNT);
}
