//! Rate, bandwidth and activity control of the speech encoder.

use opus_codec::silk::check_control_input::EncControl;
use opus_codec::silk::control_audio_bandwidth::control_audio_bandwidth;
use opus_codec::silk::control_snr::control_snr;
use opus_codec::silk::encode_frame::{silk_encode_do_vad, VAD_NO_ACTIVITY};
use opus_codec::silk::encoder_state::{EncoderChannelState, TRANSITION_FRAMES};
use opus_codec::silk::types::{FrameSignalType, MAX_NB_SUBFR};

#[test]
fn selects_initial_rate_when_uninitialized() {
    let mut encoder = EncoderChannelState::default();
    {
        let common = encoder.common_mut();
        common.fs_khz = 0;
        common.desired_internal_sample_rate_hz = 16_000;
        common.api_sample_rate_hz = 48_000;
    }
    let mut control = EncControl::default();
    let fs_khz = control_audio_bandwidth(&mut encoder, &mut control);
    assert_eq!(fs_khz, 16);
}

#[test]
fn switches_down_immediately_when_allowed() {
    let mut encoder = EncoderChannelState::default();
    {
        let common = encoder.common_mut();
        common.fs_khz = 16;
        common.desired_internal_sample_rate_hz = 8_000;
        common.allow_bandwidth_switch = true;
    }
    let mut control = EncControl::default();
    control.opus_can_switch = true;

    let fs_khz = control_audio_bandwidth(&mut encoder, &mut control);
    assert_eq!(fs_khz, 12);
    let lp_state = encoder.low_pass_state();
    assert_eq!(lp_state.transition_frame_no, TRANSITION_FRAMES);
    assert_eq!(lp_state.mode, 0);
    assert_eq!(lp_state.in_lp_state, [0; 2]);
}

#[test]
fn requests_down_switch_when_parent_cannot_switch() {
    let mut encoder = EncoderChannelState::default();
    {
        let common = encoder.common_mut();
        common.fs_khz = 16;
        common.desired_internal_sample_rate_hz = 8_000;
        common.allow_bandwidth_switch = true;
    }
    {
        let lp_state = encoder.low_pass_state_mut();
        lp_state.transition_frame_no = 0;
        lp_state.mode = 0;
    }
    let mut control = EncControl::default();
    control.opus_can_switch = false;
    control.max_bits = 1000;

    let fs_khz = control_audio_bandwidth(&mut encoder, &mut control);
    assert_eq!(fs_khz, 16);
    assert!(control.switch_ready);
    assert_eq!(control.max_bits, 800);
}

#[test]
fn switches_up_when_allowed() {
    let mut encoder = EncoderChannelState::default();
    {
        let common = encoder.common_mut();
        common.fs_khz = 8;
        common.desired_internal_sample_rate_hz = 16_000;
        common.allow_bandwidth_switch = true;
    }
    let mut control = EncControl::default();
    control.opus_can_switch = true;

    let fs_khz = control_audio_bandwidth(&mut encoder, &mut control);
    assert_eq!(fs_khz, 16);
    let lp_state = encoder.low_pass_state();
    assert_eq!(lp_state.transition_frame_no, 0);
    assert_eq!(lp_state.mode, 0);
}

#[test]
fn clamps_internal_rate_when_outside_limits() {
    let mut encoder = EncoderChannelState::default();
    {
        let common = encoder.common_mut();
        common.fs_khz = 16;
        common.api_sample_rate_hz = 12_000;
        common.max_internal_sample_rate_hz = 12_000;
        common.min_internal_sample_rate_hz = 8_000;
    }
    let mut control = EncControl::default();
    let fs_khz = control_audio_bandwidth(&mut encoder, &mut control);
    assert_eq!(fs_khz, 12);
}

#[test]
fn follows_nb_lookup_table() {
    let mut channel = EncoderChannelState::default();
    {
        let common = channel.common_mut();
        common.fs_khz = 8;
        common.nb_subfr = MAX_NB_SUBFR;
    }
    control_snr(&mut channel, 8_000).unwrap();
    assert_eq!(channel.common().snr_db_q7, 92 * 21);
}

#[test]
fn accounts_for_two_subframe_mode() {
    let mut channel = EncoderChannelState::default();
    {
        let common = channel.common_mut();
        common.fs_khz = 12;
        common.nb_subfr = MAX_NB_SUBFR / 2;
    }
    control_snr(&mut channel, 12_000).unwrap();
    assert_eq!(channel.common().target_rate_bps, 12_000);
    assert_eq!(channel.common().snr_db_q7, 95 * 21);
}

#[test]
fn clamps_low_rates_to_zero() {
    let mut channel = EncoderChannelState::default();
    control_snr(&mut channel, 1_000).unwrap();
    assert_eq!(channel.common().snr_db_q7, 0);
}

#[test]
fn saturates_to_highest_table_entry() {
    let mut channel = EncoderChannelState::default();
    control_snr(&mut channel, 1_000_000).unwrap();
    assert_eq!(channel.common().snr_db_q7, 255 * 21);
}

#[test]
fn encode_do_vad_marks_inactive_on_silence() {
    let mut encoder = EncoderChannelState::default();
    silk_encode_do_vad(&mut encoder, VAD_NO_ACTIVITY, 0);
    assert_eq!(
        encoder.common.indices.signal_type,
        FrameSignalType::Inactive
    );
    assert!(!encoder.common.vad_flags[0]);
}
