//! Pulses and frames of a decoder channel.

use opus_codec::range::{RangeDecoder, RangeEncoder};
use opus_codec::silk::code_signs::{silk_encode_signs, SHELL_CODEC_FRAME_LENGTH};
use opus_codec::silk::dec_api::{frames_per_packet, DecControl, Decoder};
use opus_codec::silk::decode_frame::{
    decode_frame_end, decode_frame_enter, silk_decode_frame, DecodeFlag,
};
use opus_codec::silk::decode_indices::{ConditionalCoding, SideInfoIndices};
use opus_codec::silk::decode_pulses::silk_decode_pulses;
use opus_codec::silk::decoder_state::DecoderState;
use opus_codec::silk::icdf::{
    delta_quantization_gain, independent_quantization_gain_lsb,
    independent_quantization_gain_msb_unvoiced,
};
use opus_codec::silk::nlsf_cb::NLSF_STAGE2_SYMBOLS;
use opus_codec::silk::tables_nlsf_cb_wb::silk_nlsf_cb_wb;
use opus_codec::silk::tables_other::{
    SILK_LSB_ICDF, SILK_NLSF_INTERPOLATION_FACTOR_ICDF, SILK_TYPE_OFFSET_VAD_ICDF,
    SILK_UNIFORM4_ICDF,
};
use opus_codec::silk::tables_pulses_per_block::{
    SILK_PULSES_PER_BLOCK_ICDF, SILK_RATE_LEVELS_ICDF, SILK_SHELL_CODE_TABLE0,
    SILK_SHELL_CODE_TABLE1, SILK_SHELL_CODE_TABLE2, SILK_SHELL_CODE_TABLE3,
    SILK_SHELL_CODE_TABLE_OFFSETS,
};
use opus_codec::silk::types::{FrameQuantizationOffsetType, FrameSignalType};

const TWELVE_KHZ_10_MS_FRAME: usize = 120;

fn padded_frame_length(frame_length: usize) -> usize {
    frame_length.div_ceil(SHELL_CODEC_FRAME_LENGTH) * SHELL_CODEC_FRAME_LENGTH
}

/// Writes how the pulses of a block are spread over its halves.
fn encode_split(encoder: &mut RangeEncoder, block: &[i32]) {
    let total: i32 = block.iter().sum();
    if block.len() == 1 || total == 0 {
        return;
    }
    let table: &[u8] = match block.len() {
        16 => &SILK_SHELL_CODE_TABLE3,
        8 => &SILK_SHELL_CODE_TABLE2,
        4 => &SILK_SHELL_CODE_TABLE1,
        _ => &SILK_SHELL_CODE_TABLE0,
    };
    let (left, right) = block.split_at(block.len() / 2);
    let start = usize::from(SILK_SHELL_CODE_TABLE_OFFSETS[total as usize]);
    let end = start + total as usize + 1;
    encoder.encode_icdf(left.iter().sum::<i32>() as usize, &table[start..end], 8);
    encode_split(encoder, left);
    encode_split(encoder, right);
}

/// Whether the shell code can take a block.
fn fits_shell(block: &[i32]) -> bool {
    [(2, 8), (4, 10), (8, 12), (16, 16)]
        .iter()
        .all(|&(size, most)| block.chunks(size).all(|part| part.iter().sum::<i32>() <= most))
}

/// Writes pulses at the first rate level.
fn encode_pulses(
    encoder: &mut RangeEncoder,
    signal_type: i32,
    quant_offset_type: i32,
    pulses: &[i8],
) {
    let mut padded = pulses.to_vec();
    padded.resize(padded_frame_length(pulses.len()), 0);
    let magnitudes: Vec<i32> = padded.iter().map(|&p| i32::from(p).abs()).collect();
    let blocks: Vec<(usize, Vec<i32>)> = magnitudes
        .chunks(SHELL_CODEC_FRAME_LENGTH)
        .map(|block| {
            let mut shift = 0;
            let mut scaled = block.to_vec();
            while !fits_shell(&scaled) {
                shift += 1;
                scaled.iter_mut().for_each(|v| *v >>= 1);
            }
            (shift, scaled)
        })
        .collect();
    let sums: Vec<i32> = blocks.iter().map(|(_, scaled)| scaled.iter().sum()).collect();

    encoder.encode_icdf(0, &SILK_RATE_LEVELS_ICDF[(signal_type >> 1) as usize], 8);
    for ((shift, _), &sum) in blocks.iter().zip(&sums) {
        let mut level = 0;
        for _ in 0..*shift {
            encoder.encode_icdf(17, &SILK_PULSES_PER_BLOCK_ICDF[level], 8);
            level = 9;
        }
        encoder.encode_icdf(sum as usize, &SILK_PULSES_PER_BLOCK_ICDF[level], 8);
    }
    for (_, scaled) in &blocks {
        encode_split(encoder, scaled);
    }
    for ((shift, _), block) in blocks.iter().zip(magnitudes.chunks(SHELL_CODEC_FRAME_LENGTH)) {
        if *shift > 0 {
            for &magnitude in block {
                for bit in (0..*shift).rev() {
                    encoder.encode_icdf(((magnitude >> bit) & 1) as usize, &SILK_LSB_ICDF, 8);
                }
            }
        }
    }
    silk_encode_signs(encoder, &padded, pulses.len(), signal_type, quant_offset_type, &sums);
}

fn reference_pulses(frame_length: usize) -> Vec<i8> {
    let mut pulses = vec![0i8; frame_length];
    for (index, value) in pulses.iter_mut().enumerate() {
        *value = match index % 5 {
            0 => 3,
            1 => -2,
            2 => 0,
            3 => 1,
            _ => -1,
        };
    }
    pulses
}

fn decode_round_trip(frame_length: usize, signal_type: i32, quant_offset_type: i32) {
    round_trip_of(&reference_pulses(frame_length), signal_type, quant_offset_type);
}

fn round_trip_of(original: &[i8], signal_type: i32, quant_offset_type: i32) {
    let frame_length = original.len();
    let mut encoder = RangeEncoder::new();
    encode_pulses(&mut encoder, signal_type, quant_offset_type, original);
    let payload = encoder.finish();

    let mut decoder = RangeDecoder::init(&payload);
    let padded_length = padded_frame_length(frame_length);
    let mut decoded = vec![0i16; padded_length];
    silk_decode_pulses(
        &mut decoder,
        &mut decoded,
        signal_type,
        quant_offset_type,
        frame_length,
    );

    for (expected, actual) in original.iter().zip(decoded.iter().take(frame_length)) {
        assert_eq!(*expected as i16, *actual);
    }
    assert!(decoded[frame_length..].iter().all(|&pulse| pulse == 0));
}

#[test]
fn pulses_of_any_size_read_back() {
    for frame_length in [80usize, 120, 160, 240, 320] {
        for (signal_type, offset_type) in [(0, 0), (1, 1), (2, 0), (2, 1)] {
            for step in [0usize, 1, 37, 255] {
                let pulses: Vec<i8> =
                    (0..frame_length).map(|i| (i * step % 256) as u8 as i8).collect();
                round_trip_of(&pulses, signal_type, offset_type);
            }
        }
    }
}

#[test]
fn round_trip_voiced_frame() {
    decode_round_trip(320, 2, 0);
}

#[test]
fn round_trip_12khz_10ms_frame() {
    decode_round_trip(TWELVE_KHZ_10_MS_FRAME, 0, 1);
}

fn configured_decoder_state() -> DecoderState {
    let mut state = DecoderState::default();
    state
        .sample_rate
        .set_sample_rates(16, 16_000)
        .expect("16 kHz configuration must succeed");
    state
}

/// Loss concealment that fills in silence: it counts lost frames, and notes the
/// type of those that were not lost.
fn conceal(state: &mut DecoderState, decoded: bool, frame: &mut [i16]) {
    if decoded {
        state.sample_rate.prev_signal_type = state.indices.signal_type;
    } else {
        frame.fill(0);
        state.loss_count += 1;
    }
}

/// Writes the side information of an unvoiced wide-band frame.
fn encode_unvoiced_indices(encoder: &mut RangeEncoder, indices: &SideInfoIndices) {
    let cb = silk_nlsf_cb_wb();
    let offset = indices.quant_offset_type.to_i32();
    encoder.encode_icdf(offset as usize, &SILK_TYPE_OFFSET_VAD_ICDF, 8);
    let gain = indices.gains_indices[0] as usize;
    encoder.encode_symbol_with_icdf(gain >> 3, independent_quantization_gain_msb_unvoiced());
    encoder.encode_symbol_with_icdf(gain & 7, independent_quantization_gain_lsb());
    for &delta in &indices.gains_indices[1..] {
        encoder.encode_symbol_with_icdf(delta as usize, delta_quantization_gain());
    }
    let vectors = cb.n_vectors as usize;
    encoder.encode_icdf(indices.nlsf_indices[0] as usize, &cb.cb1_icdf[..vectors], 8);
    let order = cb.order as usize;
    for i in 0..order {
        let entry = cb.ec_sel[(indices.nlsf_indices[0] as usize * order + i) / 2];
        let table = if i % 2 == 0 { (entry >> 1) & 7 } else { (entry >> 5) & 7 };
        let start = usize::from(table) * NLSF_STAGE2_SYMBOLS;
        let symbol = (indices.nlsf_indices[i + 1] + 4) as usize;
        encoder.encode_icdf(symbol, &cb.ec_icdf[start..start + NLSF_STAGE2_SYMBOLS], 8);
    }
    encoder.encode_icdf(
        indices.nlsf_interp_coef_q2 as usize,
        &SILK_NLSF_INTERPOLATION_FACTOR_ICDF,
        8,
    );
    encoder.encode_icdf(indices.seed as usize, &SILK_UNIFORM4_ICDF, 8);
}

#[test]
fn packet_loss_path_updates_loss_counter() {
    let mut state = configured_decoder_state();
    let frame_length = state.sample_rate.frame_length;
    let storage: Vec<u8> = Vec::new();
    let mut decoder = RangeDecoder::init(&storage);
    let mut output = vec![0i16; frame_length];

    let payload = silk_decode_frame(
        &mut state,
        &mut decoder,
        &mut output,
        DecodeFlag::PacketLoss,
        ConditionalCoding::Independent,
    );
    assert!(!payload.decoded);
    conceal(&mut state, payload.decoded, &mut output);
    decode_frame_enter(&mut state, &payload.control, &mut output, payload.decoded);
    let produced = decode_frame_end(&mut state, &payload.control);

    assert_eq!(produced, frame_length);
    assert_eq!(state.loss_count, 1);
}

#[test]
fn decodes_simple_unvoiced_frame() {
    let mut state = configured_decoder_state();
    let frame_length = state.sample_rate.frame_length;

    let mut encoder = RangeEncoder::new();
    let mut indices = SideInfoIndices::default();
    indices.signal_type = FrameSignalType::Unvoiced;
    indices.quant_offset_type = FrameQuantizationOffsetType::Low;
    indices.nlsf_interp_coef_q2 = 4;
    indices.gains_indices = [10, 6, 6, 6];
    indices.seed = 3;
    encode_unvoiced_indices(&mut encoder, &indices);

    let pulses = reference_pulses(frame_length);
    encode_pulses(&mut encoder, indices.signal_type.to_i32(), 0, &pulses);
    let payload = encoder.finish();

    let mut decoder = RangeDecoder::init(&payload);
    state.vad_flags[0] = 1;
    let mut output = vec![0i16; frame_length];
    let frame = silk_decode_frame(
        &mut state,
        &mut decoder,
        &mut output,
        DecodeFlag::Normal,
        ConditionalCoding::Independent,
    );
    assert!(frame.decoded);
    assert_eq!(state.indices, indices);
    conceal(&mut state, frame.decoded, &mut output);
    decode_frame_enter(&mut state, &frame.control, &mut output, frame.decoded);
    let produced = decode_frame_end(&mut state, &frame.control);

    assert_eq!(produced, frame_length);
    assert_eq!(state.loss_count, 0);
    assert!(!state.sample_rate.first_frame_after_reset);
    assert_eq!(
        state.sample_rate.prev_signal_type,
        FrameSignalType::Unvoiced
    );
    assert!(output.iter().any(|&sample| sample != 0));
    assert_eq!(&state.sample_rate.out_buf[..frame_length], &output[..]);
}

#[test]
fn redundancy_is_decoded_only_where_it_is_sent() {
    assert!(DecodeFlag::Normal.should_decode_payload(false));
    assert!(DecodeFlag::Lbrr.should_decode_payload(true));
    assert!(!DecodeFlag::Lbrr.should_decode_payload(false));
    assert!(!DecodeFlag::PacketLoss.should_decode_payload(true));
}

#[test]
fn frames_per_packet_matches_reference() {
    assert_eq!(frames_per_packet(0), Some((1, 2)));
    assert_eq!(frames_per_packet(10), Some((1, 2)));
    assert_eq!(frames_per_packet(20), Some((1, 4)));
    assert_eq!(frames_per_packet(40), Some((2, 4)));
    assert_eq!(frames_per_packet(60), Some((3, 4)));
    assert_eq!(frames_per_packet(15), None);
}

#[test]
fn decoder_default_initialises_channel_counts() {
    let decoder = Decoder::default();
    assert_eq!(decoder.n_channels_api, 1);
    assert_eq!(decoder.n_channels_internal, 1);
    assert!(!decoder.prev_decode_only_middle);
}

#[test]
fn dec_control_defaults_to_wideband_mono() {
    let control = DecControl::default();
    assert_eq!(control.n_channels_api, 1);
    assert_eq!(control.api_sample_rate, 16_000);
    assert_eq!(control.payload_size_ms, 20);
    assert!(!control.enable_deep_plc);
}
