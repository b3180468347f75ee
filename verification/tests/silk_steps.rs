//! The steps of calls that decode and code frames.

use opus_codec::range::{RangeDecoder, RangeEncoder};
use opus_codec::silk::check_control_input::EncControl;
use opus_codec::silk::control_snr::control_snr;
use opus_codec::silk::dec_api::{DecControl, Decoder};
use opus_codec::silk::decode_frame::DecodeFlag;
use opus_codec::silk::decode_indices::ConditionalCoding;
use opus_codec::silk::decode_run::{self, decode_step, DecodeAction, DecodeRun, DecodeStage};
use opus_codec::silk::decoder_checks::{can_decode, can_enter, is_configured, is_steady};
use opus_codec::silk::enc_api::{
    silk_init_encoder, Encoder, PacketState, PrefillMode, StereoConversionResult,
};
use opus_codec::silk::encode_run::{
    self, encode_step, EncodeAction, EncodeEvent, EncodeRun, EncodeStage,
};
use opus_codec::silk::encode_trials::{start_trials, trial_step, TrialAction, TrialRun};
use opus_codec::silk::encoder_state::EncoderChannelState;
use opus_codec::silk::types::SilkError;

/// Runs a call to its end, and returns the actions it asked for.
fn run_decoder(
    decoder: &mut Decoder,
    control: &mut DecControl,
    lost_flag: DecodeFlag,
    samples_out: &mut [i16],
) -> Vec<DecodeAction> {
    let mut range_decoder = RangeDecoder::init(&[]);
    let mut run = DecodeRun::new(lost_flag, true);
    let mut converted: Vec<i16> = Vec::new();
    let mut actions = Vec::new();
    loop {
        assert!(decode_run::can_step(&run, decoder, control, samples_out.len()));
        let action =
            decode_step(&mut run, decoder, control, &mut range_decoder, samples_out, &converted);
        actions.push(action);
        match action {
            DecodeAction::Glue { .. } => run.frame.fill(5),
            DecodeAction::Convert { second, n_out, .. } => {
                converted = vec![if second { -7 } else { 7 }; n_out];
            }
            DecodeAction::Done { .. } | DecodeAction::Fail { .. } => {
                assert_eq!(run.stage, DecodeStage::Done);
                assert!(actions.len() <= 12);
                return actions;
            }
            _ => {}
        }
    }
}

#[test]
fn lost_mono_frame_takes_its_steps() {
    let mut decoder = Decoder::default();
    let mut control = DecControl::default();
    let mut out = vec![0i16; 320];
    let actions = run_decoder(&mut decoder, &mut control, DecodeFlag::PacketLoss, &mut out);
    assert_eq!(
        actions,
        [
            DecodeAction::Proceed,
            DecodeAction::Conceal { channel: 0, lost: true },
            DecodeAction::Glue { channel: 0 },
            DecodeAction::Proceed,
            DecodeAction::Proceed,
            DecodeAction::Convert { channel: 0, second: false, n: 320, n_out: 320 },
            DecodeAction::Proceed,
            DecodeAction::Done { samples: 320 },
        ]
    );
    assert_eq!(out, vec![7i16; 320]);
    assert_eq!(decoder.channel_states[0].n_frames_decoded, 1);
    assert_eq!(decoder.stereo_state.s_mid, [5, 5]);
}

#[test]
fn lost_stereo_frame_converts_both_channels() {
    let mut decoder = Decoder::default();
    let mut control = DecControl::default();
    control.n_channels_api = 2;
    control.n_channels_internal = 2;
    let mut out = vec![0i16; 640];
    let actions = run_decoder(&mut decoder, &mut control, DecodeFlag::PacketLoss, &mut out);
    let converts: Vec<DecodeAction> = actions
        .iter()
        .copied()
        .filter(|action| matches!(action, DecodeAction::Convert { .. }))
        .collect();
    assert_eq!(
        converts,
        [
            DecodeAction::Convert { channel: 0, second: false, n: 320, n_out: 320 },
            DecodeAction::Convert { channel: 1, second: true, n: 320, n_out: 320 },
        ]
    );
    assert_eq!(
        actions.iter().filter(|action| **action == DecodeAction::ToLeftAndRight).count(),
        1
    );
    assert_eq!(actions.last(), Some(&DecodeAction::Done { samples: 320 }));
    assert_eq!(&out[..4], &[7, -7, 7, -7]);
    assert_eq!(decoder.channel_states[1].n_frames_decoded, 1);
}

#[test]
fn calls_without_room_or_rate_are_refused() {
    let mut decoder = Decoder::default();
    let mut control = DecControl::default();
    let mut out = vec![0i16; 319];
    let actions = run_decoder(&mut decoder, &mut control, DecodeFlag::PacketLoss, &mut out);
    let refused = DecodeAction::Fail { error: SilkError::DecPayloadTooLarge };
    assert_eq!(actions.last(), Some(&refused));

    let mut decoder = Decoder::default();
    control.internal_sample_rate = 10_000;
    let actions = run_decoder(&mut decoder, &mut control, DecodeFlag::PacketLoss, &mut out);
    let refused = DecodeAction::Fail { error: SilkError::DecInvalidSamplingFrequency };
    assert_eq!(actions, [refused]);
}

#[test]
fn channels_tell_what_they_can_do() {
    let mut decoder = Decoder::default();
    assert!(is_steady(&decoder.channel_states[0]));
    assert!(!can_decode(&decoder.channel_states[0]));
    let mut control = DecControl::default();
    let mut out = vec![0i16; 320];
    run_decoder(&mut decoder, &mut control, DecodeFlag::PacketLoss, &mut out);
    let state = &mut decoder.channel_states[0];
    assert!(is_configured(&state.sample_rate) && is_steady(state));
    assert!(can_decode(state) && can_enter(state));
    state.prev_nlsf_q15[3] = -1;
    assert!(!can_decode(state) && !can_enter(state));
    state.n_frames_decoded = -1;
    assert!(!is_steady(state));
    state.sample_rate.frame_length = 300;
    assert!(!is_configured(&state.sample_rate));
    let run = DecodeRun::new(DecodeFlag::PacketLoss, true);
    assert!(!decode_run::can_step(&run, &decoder, &control, 320));
}

fn encoder() -> Encoder {
    let mut e = Encoder {
        mid: EncoderChannelState::default(),
        side: EncoderChannelState::default(),
        packet: PacketState::default(),
    };
    let mut status = EncControl::default();
    silk_init_encoder(&mut e, 0, &mut status).unwrap();
    e
}

fn name(action: &EncodeAction) -> &'static str {
    match action {
        EncodeAction::Proceed => "proceed",
        EncodeAction::ConvertHistory { .. } => "history",
        EncodeAction::ConvertInput => "input",
        EncodeAction::CodeRedundant { .. } => "redundant",
        EncodeAction::AdaptCutoff => "cutoff",
        EncodeAction::ToMidAndSide { .. } => "stereo",
        EncodeAction::Measure { .. } => "measure",
        EncodeAction::CodePredictors { .. } => "predictors",
        EncodeAction::CodeFrame { .. } => "frame",
        EncodeAction::Done { .. } => "done",
        EncodeAction::Fail { .. } => "fail",
    }
}

/// Runs a call to its end, and returns the actions it asked for, but for those
/// that ask for nothing.
fn run_encoder(
    e: &mut Encoder,
    control: &mut EncControl,
    samples_in: &[i16],
    prefill: PrefillMode,
    stereo: StereoConversionResult,
) -> Vec<EncodeAction> {
    let mut range_encoder = RangeEncoder::new();
    let mut run = EncodeRun::new(prefill, 1);
    let mut event = EncodeEvent::Ready;
    let mut actions = Vec::new();
    loop {
        assert!(encode_run::can_step(&run, e, control, samples_in.len(), &event));
        let action =
            encode_step(&mut run, e, control, samples_in, &mut range_encoder, &event);
        event = match &action {
            EncodeAction::ConvertHistory { .. } => EncodeEvent::History { samples: Vec::new() },
            EncodeAction::ConvertInput => EncodeEvent::Converted {
                mid: run.step.mid.clone(),
                side: run.step.side.clone().unwrap_or_default(),
            },
            EncodeAction::ToMidAndSide { .. } => EncodeEvent::Stereo { result: stereo },
            EncodeAction::Measure { .. } => EncodeEvent::Activity { measured: 200 },
            EncodeAction::CodeFrame { .. } => EncodeEvent::Coded { bytes: 40 },
            _ => EncodeEvent::Ready,
        };
        let ends = matches!(&action, EncodeAction::Done { .. } | EncodeAction::Fail { .. });
        if !matches!(&action, EncodeAction::Proceed) {
            actions.push(action);
        }
        if ends {
            assert_eq!(run.stage, EncodeStage::Done);
            return actions;
        }
    }
}

fn names(actions: &[EncodeAction]) -> Vec<&'static str> {
    actions.iter().map(name).collect()
}

const APART: StereoConversionResult = StereoConversionResult {
    indices: [[1, 2, 3], [4, 5, 6]],
    mid_only_flag: false,
    mid_side_rates_bps: [20_000, 8_000],
};

#[test]
fn mono_packet_takes_its_steps() {
    let mut e = encoder();
    let mut control = EncControl::default();
    let samples = vec![9i16; 320];
    let actions = run_encoder(&mut e, &mut control, &samples, PrefillMode::Off, APART);
    assert_eq!(
        names(&actions),
        ["history", "input", "redundant", "cutoff", "measure", "frame", "done"]
    );
    assert!(matches!(actions[6], EncodeAction::Done { bytes: 40 }));
    assert!(matches!(actions[5], EncodeAction::CodeFrame { channel: 0, .. }));
    assert_eq!(e.packet.stereo_state.s_mid, [9, 9]);
    assert_eq!(e.packet.n_prev_channels_internal, 1);
}

#[test]
fn half_a_frame_only_waits() {
    let mut e = encoder();
    let mut control = EncControl::default();
    let samples = vec![9i16; 160];
    let actions = run_encoder(&mut e, &mut control, &samples, PrefillMode::Off, APART);
    assert_eq!(names(&actions), ["history", "input", "done"]);
    assert!(matches!(actions[2], EncodeAction::Done { bytes: 0 }));
    assert_eq!(e.mid.common.input_buf_ix, 160);
    let actions = run_encoder(&mut e, &mut control, &samples, PrefillMode::Off, APART);
    assert_eq!(
        names(&actions),
        ["history", "input", "redundant", "cutoff", "measure", "frame", "done"]
    );
}

#[test]
fn stereo_packet_takes_its_steps() {
    let mut control = EncControl::default();
    control.n_channels_api = 2;
    control.n_channels_internal = 2;
    let samples = vec![9i16; 640];
    let mut e = encoder();
    let actions = run_encoder(&mut e, &mut control, &samples, PrefillMode::Off, APART);
    assert_eq!(
        names(&actions),
        [
            "history", "history", "input", "redundant", "cutoff", "stereo", "measure",
            "predictors", "measure", "frame", "frame", "done"
        ]
    );
    assert!(matches!(actions[6], EncodeAction::Measure { channel: 1 }));
    assert!(matches!(
        actions[7],
        EncodeAction::CodePredictors { indices: [[1, 2, 3], [4, 5, 6]], mid_only: None }
    ));
    assert!(matches!(actions[10], EncodeAction::CodeFrame { channel: 1, .. }));
    assert_eq!(e.side.common.target_rate_bps, 8_000);

    let alone = StereoConversionResult {
        mid_only_flag: true,
        mid_side_rates_bps: [20_000, 0],
        ..APART
    };
    let mut e = encoder();
    let mut control = EncControl::default();
    control.n_channels_api = 2;
    control.n_channels_internal = 2;
    let actions = run_encoder(&mut e, &mut control, &samples, PrefillMode::Off, alone);
    assert_eq!(
        names(&actions),
        [
            "history", "history", "input", "redundant", "cutoff", "stereo", "predictors",
            "measure", "frame", "done"
        ]
    );
    assert!(matches!(actions[6], EncodeAction::CodePredictors { mid_only: Some(true), .. }));
    assert!(e.packet.prev_decode_only_middle);
}

#[test]
fn filling_the_history_codes_no_head() {
    let mut e = encoder();
    let mut control = EncControl::default();
    let samples = vec![9i16; 160];
    let actions = run_encoder(&mut e, &mut control, &samples, PrefillMode::Prefill, APART);
    assert!(!names(&actions).contains(&"redundant"));
    assert_eq!((control.payload_size_ms, control.complexity), (20, 10));
}

#[test]
fn wrong_input_ends_a_call() {
    let mut e = encoder();
    let mut control = EncControl::default();
    let samples = vec![9i16; 100];
    let actions = run_encoder(&mut e, &mut control, &samples, PrefillMode::Off, APART);
    assert_eq!(names(&actions), ["fail"]);
    assert!(matches!(
        actions[0],
        EncodeAction::Fail { error: SilkError::EncInputInvalidNoOfSamples }
    ));
    let run = EncodeRun::new(PrefillMode::Off, 1);
    e.packet.n_channels_internal = 3;
    assert!(!encode_run::can_step(&run, &e, &control, 320, &EncodeEvent::Ready));
}

fn trials(state: &EncoderChannelState, range_encoder: &RangeEncoder, max_bits: i32) -> TrialRun {
    start_trials(
        state,
        range_encoder,
        ConditionalCoding::Independent,
        max_bits,
        false,
        1024,
        [65_536; 4],
        10,
    )
}

fn write_bits(range_encoder: &mut RangeEncoder, n: usize) {
    for _ in 0..n {
        range_encoder.encode_bit_logp(false, 1);
    }
}

#[test]
fn frame_that_fits_is_taken_at_once() {
    let mut state = EncoderChannelState::default();
    let mut range_encoder = RangeEncoder::new();
    let mut run = trials(&state, &range_encoder, 100);
    let pulses = vec![0i8; 320];
    let first = trial_step(&mut run, &mut state, &mut range_encoder, &pulses, 0);
    assert_eq!(first, TrialAction::Code { again: false });
    write_bits(&mut range_encoder, 50);
    let second = trial_step(&mut run, &mut state, &mut range_encoder, &pulses, 0);
    assert_eq!(second, TrialAction::Done { restore: false });
    assert_eq!(range_encoder.tell(), 51);
}

#[test]
fn last_trial_without_room_is_empty() {
    let mut state = EncoderChannelState::default();
    let mut range_encoder = RangeEncoder::new();
    let mut run = trials(&state, &range_encoder, 20);
    let pulses = vec![1i8; 320];
    let mut coded = 0;
    let mut empty = 0;
    let mut taken = 0;
    loop {
        taken += 1;
        match trial_step(&mut run, &mut state, &mut range_encoder, &pulses, 3) {
            TrialAction::Proceed => assert_eq!(state.shape_state.last_gain_index, 3),
            TrialAction::Code { again } => {
                assert_eq!(again, coded > 0);
                assert_eq!(range_encoder.tell(), 1);
                coded += 1;
                write_bits(&mut range_encoder, 200);
            }
            TrialAction::CodeEmpty => {
                assert_eq!(range_encoder.tell(), 1);
                empty += 1;
                write_bits(&mut range_encoder, 10);
            }
            TrialAction::Gains { keep, .. } => {
                assert!(!keep);
                state.common.indices.gains_indices[0] += 1;
            }
            TrialAction::Done { restore } => {
                assert!(!restore);
                break;
            }
        }
    }
    assert_eq!((coded, empty), (7, 1));
    assert!(taken <= 28);
    assert_eq!(range_encoder.tell(), 11);
}

/// The gain level after a trial that fitted is put back; `own` replaces the level
/// of that trial.
fn level_put_back(own: Option<i32>) -> i32 {
    let mut state = EncoderChannelState::default();
    let mut range_encoder = RangeEncoder::new();
    let mut run = trials(&state, &range_encoder, 100);
    let pulses = vec![0i8; 320];
    let mut coded = 0;
    let mut level = 0i8;
    let mut kept = [0i8; 4];
    loop {
        match trial_step(&mut run, &mut state, &mut range_encoder, &pulses, level) {
            TrialAction::Proceed => {}
            TrialAction::Code { .. } => {
                let bits = if coded == 1 { 50 } else { 200 };
                if let (1, Some(level)) = (coded, own) {
                    state.shape_state.last_gain_index = level;
                }
                coded += 1;
                write_bits(&mut range_encoder, bits);
            }
            TrialAction::CodeEmpty => unreachable!(),
            TrialAction::Gains { keep, .. } => {
                if keep {
                    kept = state.common.indices.gains_indices;
                }
                level += 1;
                state.common.indices.gains_indices[0] += 1;
            }
            TrialAction::Done { restore } => {
                assert!(restore);
                break;
            }
        }
    }
    assert_eq!(range_encoder.tell(), 51);
    assert_eq!(state.common.indices.gains_indices, kept);
    state.shape_state.last_gain_index
}

#[test]
fn trial_that_fitted_is_put_back() {
    assert_eq!(level_put_back(None), 1);
}

#[test]
fn gain_level_is_kept_in_eight_bits() {
    assert_eq!(level_put_back(Some(-128)), -128);
    assert_eq!(level_put_back(Some(300)), 44);
    assert_eq!(level_put_back(Some(-129)), 127);
}

#[test]
fn ratio_of_any_rate_is_in_the_tables() {
    for fs_khz in [8, 12, 16, 24, -1] {
        let mut last = 0;
        for rate in (0..1_000_000).step_by(997) {
            let mut channel = EncoderChannelState::default();
            channel.common.fs_khz = fs_khz;
            control_snr(&mut channel, rate).unwrap();
            assert_eq!(channel.common.target_rate_bps, rate);
            assert!((last..=255 * 21).contains(&channel.common.snr_db_q7));
            last = channel.common.snr_db_q7;
        }
    }
}
