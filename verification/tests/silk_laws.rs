//! What holds of the speech layer, on given values.

use opus_codec::range::{RangeDecoder, RangeEncoder};
use opus_codec::silk::ana_filt_bank_1::ana_filt_bank_1;
use opus_codec::silk::bwexpander::bwexpander;
use opus_codec::silk::check_control_input::EncControl;
use opus_codec::silk::control_codec::{control_encoder, plan_control};
use opus_codec::silk::control_snr::control_snr;
use opus_codec::silk::dec_api::{
    decode_configure, decode_finish, double_left, output_room, place_channel, to_internal_fs_khz,
    DecControl, Decoder,
};
use opus_codec::silk::decode_call::{decode_channel, silk_decode_end, silk_decode_start};
use opus_codec::silk::decode_frame::DecodeFlag;
use opus_codec::silk::decode_pitch::silk_decode_pitch;
use opus_codec::silk::decoder_set_fs::{DecoderSampleRateState, DecoderSetFsError};
use opus_codec::silk::enc_api::{
    coding_for_channel, fill_header, header_flags, init_channel, lbrr_symbol_of,
    quantization_offset_q10, silk_encode_check, silk_init_encoder, Encoder, PacketState, PrefillMode,
    StereoConversionResult,
};
use opus_codec::silk::encode_call::{
    end_block, finish_packet, frame_job, next_input_step, silk_encode_start, start_packet,
    take_input, take_stereo, RedundantJob,
};
use opus_codec::silk::decode_indices::ConditionalCoding;
use opus_codec::silk::encode_frame::{
    count_subframe_pulses, silk_encode_do_vad, silk_gains_id, silk_lbrr_encode, RateLoop,
    RateVerdict, TrialBits,
};
use opus_codec::silk::encoder_state::EncoderChannelState;
use opus_codec::silk::gain_quant::{gain_of_level, silk_gains_dequant, silk_log2lin};
use opus_codec::silk::nlsf_stabilize::nlsf_stabilize;
use opus_codec::silk::resampler::{Resampler, ResamplerInitError};
use opus_codec::silk::sum_sqr_shift::sum_sqr_shift;
use opus_codec::silk::types::{FrameQuantizationOffsetType, FrameSignalType, SilkError};

fn encoder() -> Encoder {
    Encoder {
        mid: EncoderChannelState::default(),
        side: EncoderChannelState::default(),
        packet: PacketState::default(),
    }
}

#[test]
fn unity_chirp_keeps_coefficients() {
    let mut ar = [8192i16, -4096, 1, -1, 32_767, -32_768];
    bwexpander(&mut ar, 65_536);
    assert_eq!(ar, [8192, -4096, 1, -1, 32_767, -32_768]);
}

#[test]
fn expansion_never_grows_a_coefficient() {
    let before = [32_767i16, -32_768, 12_345, -1, 7];
    let mut ar = before;
    bwexpander(&mut ar, 60_000);
    for (a, b) in ar.iter().zip(before) {
        assert!(i32::from(*a).abs() <= i32::from(b).abs());
    }
}

#[test]
fn filter_bank_of_silence_is_silent() {
    let mut state = [0i32; 2];
    let mut low = [1i16; 2];
    let mut high = [1i16; 2];
    ana_filt_bank_1(&mut state, &mut low, &mut high, &[0; 4]);
    assert_eq!((low, high, state), ([0, 0], [0, 0], [0, 0]));
}

#[test]
fn energy_is_scaled_into_its_room() {
    assert_eq!(sum_sqr_shift(&[3, 4]), (25, 0));
    let (energy, shift) = sum_sqr_shift(&[32_767; 320]);
    assert!(energy < 1 << 29);
    assert!(shift > 0);
}

#[test]
fn lags_stay_between_2_and_18_ms() {
    for fs_khz in [8, 12, 16] {
        for lag_index in [0, 100, 255] {
            let mut lags = [0i32; 4];
            silk_decode_pitch(lag_index, 3, &mut lags, fs_khz, 4);
            assert!(lags.iter().all(|&lag| 2 * fs_khz <= lag && lag <= 18 * fs_khz));
        }
    }
}

#[test]
fn gains_of_levels() {
    assert_eq!(silk_log2lin(0), 1);
    assert_eq!(silk_log2lin(128), 2);
    assert_eq!(silk_log2lin(-1), 0);
    assert_eq!(silk_log2lin(3967), i32::MAX);
    assert_eq!(gain_of_level(0), 81_920);
    assert_eq!(gain_of_level(63), 1_686_110_208);
    let mut gains = [0i32; 4];
    let mut level = 10;
    silk_gains_dequant(&mut gains, &[0, 4, 4, 4], &mut level, false, 4);
    assert_eq!(gains, [gains[0]; 4]);
    assert_eq!(level, 0);
}

#[test]
fn spaced_frequencies_stay() {
    let delta = [10i16, 5, 5, 10];
    let mut nlsf = [1000i16, 2000, 3000];
    nlsf_stabilize(&mut nlsf, &delta);
    assert_eq!(nlsf, [1000, 2000, 3000]);
    let mut close = [1000i16, 1001, 3000];
    nlsf_stabilize(&mut close, &delta);
    assert!(close[1] - close[0] >= 5);
    assert_eq!(close[2], 3000);
}

#[test]
fn quality_grows_with_the_rate() {
    let mut last = 0;
    for rate in (5_000..80_000).step_by(5_000) {
        let mut channel = EncoderChannelState::default();
        control_snr(&mut channel, rate).unwrap();
        assert!(channel.common.snr_db_q7 >= last);
        last = channel.common.snr_db_q7;
    }
}

#[test]
fn effort_grows_with_complexity() {
    let channel = EncoderChannelState::default();
    let mut control = EncControl::default();
    for (complexity, states) in [(0, 1), (4, 2), (10, 4)] {
        control.complexity = complexity;
        let plan = plan_control(&channel.common, &channel.lp_state, &control, false, 0, None);
        assert!(!plan.settled);
        assert_eq!(plan.fs_khz, 16);
        let mut effort = init_channel(0);
        control_encoder(
            &mut effort,
            &mut control,
            false,
            0,
            None,
            &[],
        )
        .unwrap();
        assert_eq!(effort.common.effort.n_states_delayed_decision, states);
    }
}

#[test]
fn rates_that_are_refused() {
    let mut rates = DecoderSampleRateState::default();
    assert_eq!(
        rates.set_sample_rates(10, 48_000),
        Err(DecoderSetFsError::UnsupportedInternalSampleRate(10))
    );
    assert_eq!(
        rates.set_sample_rates(16, 11_025),
        Err(DecoderSetFsError::Resampler(ResamplerInitError::UnsupportedOutputRate(11_025)))
    );
    rates.nb_subfr = 3;
    assert_eq!(
        rates.set_sample_rates(16, 48_000),
        Err(DecoderSetFsError::InvalidSubframeCount(3))
    );
    let mut conversion = Resampler::default();
    assert_eq!(
        conversion.silk_resampler_init(11_025, 16_000, true),
        Err(ResamplerInitError::UnsupportedInputRate(11_025))
    );
    assert_eq!(conversion.silk_resampler_init(44_100, 16_000, true), Ok(()));
    assert_eq!(conversion.fs_in_khz(), 44);
}

#[test]
fn pauses_end_after_twenty_frames() {
    let mut channel = EncoderChannelState::default();
    channel.common.use_dtx = true;
    let mut paused = 0;
    for _ in 0..31 {
        channel.common.n_frames_encoded = 0;
        channel.common.in_dtx = true;
        silk_encode_do_vad(&mut channel, 1, 0);
        paused += usize::from(channel.common.in_dtx);
    }
    assert_eq!(paused, 20);
    assert_eq!(channel.common.no_speech_counter, 10);
    silk_encode_do_vad(&mut channel, 1, 200);
    assert!(channel.common.vad_flags[0]);
    assert_eq!(channel.common.no_speech_counter, 0);
    assert_eq!(channel.common.indices.signal_type, FrameSignalType::Unvoiced);
}

#[test]
fn redundancy_of_active_frames_only() {
    let mut channel = EncoderChannelState::default();
    channel.common.lbrr_enabled = true;
    channel.common.lbrr_gain_increases = 5;
    channel.common.indices.gains_indices = [20, 4, 4, 4];
    channel.common.speech_activity_q8 = 77;
    assert!(silk_lbrr_encode(&mut channel, &[0; 4], ConditionalCoding::Independent).is_none());
    channel.common.speech_activity_q8 = 78;
    let frame = silk_lbrr_encode(&mut channel, &[0; 4], ConditionalCoding::Independent).unwrap();
    assert_eq!(frame.indices.gains_indices, [25, 4, 4, 4]);
    assert_eq!(frame.gains_q16, [gain_of_level(25); 4]);
    assert!(channel.common.lbrr_flags[0]);
}

#[test]
fn redundancy_takes_its_gain_level_in_eight_bits() {
    let mut channel = EncoderChannelState::default();
    channel.common.lbrr_enabled = true;
    channel.common.speech_activity_q8 = 200;
    channel.common.lbrr_gain_increases = 0;
    channel.common.indices.gains_indices = [4; 4];
    channel.shape_state.last_gain_index = 256 + 44;
    let frame = silk_lbrr_encode(&mut channel, &[0; 4], ConditionalCoding::Conditional).unwrap();
    assert_eq!(frame.gains_q16, [gain_of_level(44); 4]);
    assert_eq!(channel.common.lbrr_prev_last_gain_index, 44);

    channel.common.lbrr_gain_increases = -300;
    let frame = silk_lbrr_encode(&mut channel, &[0; 4], ConditionalCoding::Conditional).unwrap();
    assert_eq!(frame.indices.gains_indices[0], (4 - 300 + 256) as i8);
}

#[test]
fn fitting_frame_ends_the_search() {
    let mut search = RateLoop::start(1000, false, 7, 1024);
    assert_eq!(search.known_bits(), TrialBits::Code);
    assert_eq!(search.judge(1000, true, 4, &[0; 4]), RateVerdict::Accept);

    let mut search = RateLoop::start(1000, false, 7, 1024);
    assert_eq!(search.judge(1200, true, 4, &[5; 4]), RateVerdict::Again { keep: false });
    assert_eq!(search.gain_mult_q8, 384);
    search.name_trial(9);
    assert_eq!(search.judge(600, true, 4, &[3; 4]), RateVerdict::Again { keep: true });
    // Between the factors of 1200 and 600 bits, as far as 1000 bits are.
    assert_eq!(search.gain_mult_q8, 384 - 128 * 400 / 600);
    search.name_trial(9);
    assert_eq!(search.known_bits(), TrialBits::Known(600));
}

#[test]
fn last_trial_that_fits_is_restored() {
    let mut search = RateLoop::start(1000, true, 1, 1024);
    assert_eq!(search.judge(900, true, 4, &[1; 4]), RateVerdict::Again { keep: true });
    for id in 2..7 {
        search.name_trial(id);
        assert_eq!(search.judge(1100, true, 4, &[1; 4]), RateVerdict::Again { keep: false });
    }
    search.name_trial(7);
    assert!(!search.needs_empty_frame(1100));
    assert_eq!(search.judge(1100, true, 4, &[1; 4]), RateVerdict::Restore);
}

#[test]
fn names_and_sums_of_subframes() {
    assert_eq!(silk_gains_id(&[1, 2, 3, 4], 4), 0x0102_0304);
    assert_eq!(silk_gains_id(&[1, 2, 3, 4], 2), 0x0102);
    let mut pulses = vec![0i8; 160];
    pulses[0] = -3;
    pulses[79] = 2;
    pulses[159] = -1;
    assert_eq!(count_subframe_pulses(&pulses, 40, 4), [3, 2, 0, 1]);
}

#[test]
fn first_frames_stand_alone() {
    assert_eq!(coding_for_channel(0, 0, false), ConditionalCoding::Independent);
    assert_eq!(coding_for_channel(1, 1, true), ConditionalCoding::Independent);
    assert_eq!(coding_for_channel(2, 1, true), ConditionalCoding::IndependentNoLtpScaling);
    assert_eq!(coding_for_channel(1, 0, true), ConditionalCoding::Conditional);
}

#[test]
fn quantisation_offsets() {
    let offset = |signal, kind| quantization_offset_q10(signal, kind);
    let (low, high) = (FrameQuantizationOffsetType::Low, FrameQuantizationOffsetType::High);
    assert_eq!(offset(FrameSignalType::Unvoiced, low), 100);
    assert_eq!(offset(FrameSignalType::Unvoiced, high), 240);
    assert_eq!(offset(FrameSignalType::Voiced, low), 32);
    assert_eq!(offset(FrameSignalType::Voiced, high), 100);
}

#[test]
fn calls_of_whole_blocks_only() {
    let control = EncControl::default();
    let packet = PacketState::default();
    let call = silk_encode_check(&control, &packet, 20, 320, PrefillMode::Off).unwrap();
    assert_eq!((call.samples, call.n_blocks_of_10ms, call.tot_blocks), (320, 2, 1));
    assert!(!call.transition);
    for samples in [319, 480] {
        assert_eq!(
            silk_encode_check(&control, &packet, 20, samples, PrefillMode::Off),
            Err(SilkError::EncInputInvalidNoOfSamples)
        );
    }
    assert_eq!(
        silk_encode_check(&control, &packet, 20, 320, PrefillMode::Prefill),
        Err(SilkError::EncInputInvalidNoOfSamples)
    );
}

#[test]
fn more_control_errors() {
    let mut control = EncControl::default();
    control.packet_loss_percentage = 101;
    assert_eq!(control.check_control_input(), Err(SilkError::EncInvalidLossRate));
    control.packet_loss_percentage = 0;
    control.lbrr_coded = 2;
    assert_eq!(control.check_control_input(), Err(SilkError::EncInternalError));
}

#[test]
fn flags_of_a_packet_read_back() {
    let mut e = encoder();
    let mut status = EncControl::default();
    silk_init_encoder(&mut e, 3, &mut status).unwrap();
    assert_eq!((e.mid.common.arch, e.side.common.arch), (3, 3));
    e.mid.common.n_frames_per_packet = 2;
    e.mid.common.vad_flags = [true, false, false];
    e.mid.common.lbrr_flags = [false, true, false];
    let mut range_encoder = RangeEncoder::new();
    let (jobs, tell) = start_packet(&mut e, &mut range_encoder, false);
    assert_eq!(
        jobs,
        [RedundantJob { frame: 1, channel: 0, coding: ConditionalCoding::Independent }]
    );
    assert!(tell <= range_encoder.tell());
    assert!(e.mid.common.lbrr_flag);
    assert_eq!(e.mid.common.lbrr_flags, [false; 3]);
    assert_eq!(header_flags(&e, 2, 1), 0b101);
    fill_header(&mut range_encoder, &e, 2, 1);
    let payload = range_encoder.finish();
    let mut range_decoder = RangeDecoder::init(&payload);
    let bits = [1, 1, 1].map(|_| range_decoder.decode_symbol_logp(1));
    assert_eq!(bits, [1, 0, 1]);
    assert_eq!(lbrr_symbol_of(&[false, true, true], 3), 6);
}

#[test]
fn redundant_frames_come_frame_by_frame() {
    let mut e = encoder();
    e.mid.common.n_frames_per_packet = 3;
    e.mid.common.lbrr_flags = [true, true, false];
    e.side.common.lbrr_flags = [false, true, true];
    let mut range_encoder = RangeEncoder::new();
    let (jobs, _) = start_packet(&mut e, &mut range_encoder, true);
    let order: Vec<(usize, usize)> = jobs.iter().map(|job| (job.frame, job.channel)).collect();
    assert_eq!(order, [(0, 0), (1, 0), (1, 1), (2, 1)]);
    assert_eq!(jobs[1].coding, ConditionalCoding::Conditional);
    assert_eq!(jobs[2].coding, ConditionalCoding::Independent);
}

#[test]
fn calls_start_their_channels() {
    let mut e = encoder();
    let mut control = EncControl::default();
    control.n_channels_api = 2;
    control.n_channels_internal = 2;
    e.mid.common.n_frames_encoded = 1;
    e.packet.prev_decode_only_middle = true;
    let call = silk_encode_start(&mut e, &mut control, 640, PrefillMode::Off).unwrap();
    assert!(call.transition);
    assert_eq!(e.mid.common.n_frames_encoded, 0);
    assert_eq!(e.side.common.fs_khz, 0);
    assert_eq!(e.packet.n_channels_internal, 2);
    assert!(!e.packet.prev_decode_only_middle);

    let mut e = encoder();
    let mut control = EncControl::default();
    let start = silk_encode_start(&mut e, &mut control, 160, PrefillMode::Prefill).unwrap();
    assert_eq!((control.payload_size_ms, control.complexity), (10, 0));
    assert_eq!((start.payload_size_ms, start.complexity), (20, 10));
    assert!(e.mid.common.prefill_flag);
}

#[test]
fn stereo_input_is_mixed_for_mono() {
    let e = encoder();
    let mut control = EncControl::default();
    control.n_channels_api = 2;
    let samples: Vec<i16> = (0..640).map(|i| if i % 2 == 0 { 10 } else { 21 }).collect();
    let step = next_input_step(&e, &control, 2, &samples, 0);
    assert_eq!((step.n, step.taken), (320, 320));
    assert_eq!(step.mid, vec![16i16; 320]);
    assert!(step.side.is_none());

    let mut control = EncControl::default();
    control.n_channels_api = 2;
    control.n_channels_internal = 2;
    let step = next_input_step(&e, &control, 2, &samples, 0);
    assert_eq!(step.mid, vec![10i16; 320]);
    assert_eq!(step.side, Some(vec![21i16; 320]));
}

#[test]
fn mono_fades_out_of_stereo() {
    let mut e = encoder();
    e.packet.n_prev_channels_internal = 2;
    let mut control = EncControl::default();
    control.n_channels_api = 2;
    let samples = vec![100i16; 640];
    let step = next_input_step(&e, &control, 2, &samples, 0);
    assert!(step.fades);
    take_input(&mut e, &step, &[100; 320], &[-31; 320]);
    assert_eq!(&e.mid.input_buf[2..], &[34i16; 320]);
    assert_eq!(e.mid.common.input_buf_ix, 320);
    assert_eq!(e.side.common.input_buf_ix, 0);
}

#[test]
fn side_left_out_and_back() {
    let mut e = encoder();
    let mut result = StereoConversionResult {
        indices: [[1, 2, 3], [4, 5, 6]],
        mid_only_flag: true,
        mid_side_rates_bps: [20_000, 0],
    };
    e.side.common.vad_flags = [true; 3];
    assert!(!take_stereo(&mut e, &result));
    assert_eq!(e.side.common.vad_flags, [false, true, true]);
    assert_eq!(e.packet.stereo_state.pred_ix[0], [[1, 2, 3], [4, 5, 6]]);
    end_block(&mut e, true);
    assert!(e.packet.prev_decode_only_middle);
    assert_eq!(e.mid.common.n_frames_encoded, 1);
    e.side.common.prev_lag = 55;
    result.mid_only_flag = false;
    assert!(take_stereo(&mut e, &result));
    assert_eq!(e.side.common.prev_lag, 100);
}

#[test]
fn middle_leaves_room_for_the_side() {
    let mut channel = EncoderChannelState::default();
    let mut control = EncControl::default();
    control.n_channels_api = 2;
    control.n_channels_internal = 2;
    control.max_bits = 1000;
    control.use_cbr = 1;
    let job = frame_job(&mut channel, &control, 1, 0, 0, 20_000, 8_000, 0, false).unwrap();
    assert_eq!((job.max_bits, job.use_cbr), (500, false));
    assert_eq!(channel.common.target_rate_bps, 20_000);
    let job = frame_job(&mut channel, &control, 2, 0, 1, 8_000, 8_000, 0, false).unwrap();
    assert_eq!((job.max_bits, job.use_cbr), (600, false));
    assert!(frame_job(&mut channel, &control, 1, 0, 1, 0, 0, 0, false).is_none());
}

#[test]
fn packets_that_pause_are_not_sent() {
    let mut e = encoder();
    let control = EncControl::default();
    let mut range_encoder = RangeEncoder::new();
    start_packet(&mut e, &mut range_encoder, false);
    e.mid.common.n_frames_encoded = 1;
    e.mid.common.in_dtx = true;
    let sent = finish_packet(&mut e, &control, &mut range_encoder, PrefillMode::Off, 40);
    assert_eq!(sent, 0);
    assert_eq!(e.packet.n_bits_exceeded, 0);
    e.mid.common.in_dtx = false;
    let sent = finish_packet(&mut e, &control, &mut range_encoder, PrefillMode::Off, 2000);
    assert_eq!(sent, 2000);
    assert_eq!(e.packet.n_bits_exceeded, 10_000);
}

#[test]
fn decoder_refuses_other_formats() {
    let mut decoder = Decoder::default();
    let mut control = DecControl::default();
    control.internal_sample_rate = 16_000;
    control.n_channels_internal = 1;
    control.payload_size_ms = 15;
    assert_eq!(decode_configure(&mut decoder, &control), Err(SilkError::DecInvalidFrameSize));
    control.payload_size_ms = 20;
    control.internal_sample_rate = 10_000;
    assert_eq!(
        decode_configure(&mut decoder, &control),
        Err(SilkError::DecInvalidSamplingFrequency)
    );
    assert_eq!(to_internal_fs_khz(12_000), Some(12));
    assert_eq!(to_internal_fs_khz(10_000), None);
    control.internal_sample_rate = 16_000;
    assert_eq!(decode_configure(&mut decoder, &control), Ok(()));
    assert_eq!(decoder.channel_states[0].sample_rate.frame_length, 320);
    assert_eq!(
        output_room(320, &control, 16, 319),
        Err(SilkError::DecPayloadTooLarge)
    );
    assert_eq!(output_room(320, &control, 16, 320), Ok(320));
}

#[test]
fn lost_frame_starts_without_reading() {
    let mut decoder = Decoder::default();
    let mut control = DecControl::default();
    control.internal_sample_rate = 16_000;
    control.n_channels_internal = 1;
    let mut range_decoder = RangeDecoder::init(&[]);
    let before = range_decoder.tell();
    let (start, _) = silk_decode_start(
        &mut decoder,
        &control,
        DecodeFlag::PacketLoss,
        true,
        &mut range_decoder,
    );
    let start = start.unwrap();
    assert_eq!(range_decoder.tell(), before);
    assert!(!start.only_middle && !start.to_mono);
    assert_eq!(start.pred_q13, [0, 0]);
    let mut frame = vec![9i16; 320];
    let payload = decode_channel(
        &mut decoder,
        0,
        start.side,
        DecodeFlag::PacketLoss,
        &mut range_decoder,
        &mut frame,
    )
    .unwrap();
    assert!(!payload.decoded);
    assert_eq!(frame, vec![9i16; 320]);
    let skipped = decode_channel(
        &mut decoder,
        1,
        false,
        DecodeFlag::PacketLoss,
        &mut range_decoder,
        &mut frame,
    );
    assert!(skipped.is_none());
    assert_eq!(frame, vec![0i16; 320]);
    assert_eq!(decoder.channel_states[1].n_frames_decoded, 1);

    let mut out = vec![0i16; 6];
    control.n_channels_api = 2;
    let n = silk_decode_end(
        &mut decoder,
        &mut control,
        DecodeFlag::PacketLoss,
        &start,
        &mut out,
        &[1, 2, 3],
        &[],
    );
    assert_eq!(n, 3);
    assert_eq!(out, [1, 1, 2, 2, 3, 3]);
    assert_eq!(decoder.channel_states[0].sample_rate.last_gain_index, 10);
}

#[test]
fn output_channels_are_interleaved() {
    let mut out = [0i16; 5];
    place_channel(&mut out, &[1, 2], 0, 2);
    place_channel(&mut out, &[8, 9], 1, 2);
    assert_eq!(out, [1, 8, 2, 9, 0]);
    double_left(&mut out, 1);
    assert_eq!(out, [1, 1, 2, 9, 0]);
    place_channel(&mut out, &[5, 6, 7], 0, 1);
    assert_eq!(out, [5, 6, 7, 9, 0]);
}

#[test]
fn pitch_lag_is_reported_at_48_khz() {
    let mut decoder = Decoder::default();
    let mut control = DecControl::default();
    control.n_channels_internal = 1;
    decoder.channel_states[0].sample_rate.set_sample_rates(12, 48_000).unwrap();
    decoder.channel_states[0].sample_rate.lag_prev = 50;
    decode_finish(&mut decoder, &mut control, DecodeFlag::Normal, true);
    assert_eq!(control.prev_pitch_lag, 0);
    assert!(decoder.prev_decode_only_middle);
    decoder.channel_states[0].sample_rate.prev_signal_type = FrameSignalType::Voiced;
    decode_finish(&mut decoder, &mut control, DecodeFlag::Normal, false);
    assert_eq!(control.prev_pitch_lag, 200);
}
