//! Side information of a frame.

use opus_codec::range::{RangeDecoder, RangeEncoder};
use opus_codec::silk::decode_indices::{ConditionalCoding, DecoderIndicesState};
use opus_codec::silk::icdf::{
    delta_quantization_gain, independent_quantization_gain_lsb,
    independent_quantization_gain_msb_unvoiced,
};
use opus_codec::silk::nlsf_cb::NLSF_STAGE2_SYMBOLS;
use opus_codec::silk::tables_ltp::{SILK_LTP_GAIN_ICDF_1, SILK_LTP_PER_INDEX_ICDF};
use opus_codec::silk::tables_nlsf_cb_wb::silk_nlsf_cb_wb;
use opus_codec::silk::tables_other::{
    SILK_NLSF_INTERPOLATION_FACTOR_ICDF, SILK_TYPE_OFFSET_VAD_ICDF, SILK_UNIFORM4_ICDF,
};
use opus_codec::silk::tables_pitch_lag::{PITCH_CONTOUR_ICDF, PITCH_DELTA_ICDF};
use opus_codec::silk::types::{
    FrameQuantizationOffsetType, FrameSignalType, MAX_LPC_ORDER, MAX_NB_SUBFR,
};

fn encode_stage_one(
    encoder: &mut RangeEncoder,
    signal_type: FrameSignalType,
    stage1_index: usize,
) {
    let vectors = silk_nlsf_cb_wb().n_vectors as usize;
    let class = if matches!(signal_type, FrameSignalType::Voiced) {
        1
    } else {
        0
    };
    let start = class * vectors;
    encoder.encode_icdf(
        stage1_index,
        &silk_nlsf_cb_wb().cb1_icdf[start..start + vectors],
        8,
    );
}

fn encode_stage_two(
    encoder: &mut RangeEncoder,
    stage1_index: usize,
    order: usize,
    symbol: usize,
) {
    for i in 0..order {
        let entry = silk_nlsf_cb_wb().ec_sel[(stage1_index * order + i) / 2];
        let table = if i % 2 == 0 { (entry >> 1) & 7 } else { (entry >> 5) & 7 };
        let offset = usize::from(table) * NLSF_STAGE2_SYMBOLS;
        encoder.encode_icdf(
            symbol,
            &silk_nlsf_cb_wb().ec_icdf[offset..offset + NLSF_STAGE2_SYMBOLS],
            8,
        );
    }
}

#[test]
fn decodes_unvoiced_frame_indices() {
    let mut encoder = RangeEncoder::new();
    encoder.encode_icdf(1, &SILK_TYPE_OFFSET_VAD_ICDF, 8);
    encoder.encode_symbol_with_icdf(2, independent_quantization_gain_msb_unvoiced());
    encoder.encode_symbol_with_icdf(5, independent_quantization_gain_lsb());
    for &delta in &[0usize, 1, 2] {
        encoder.encode_symbol_with_icdf(delta, delta_quantization_gain());
    }
    encode_stage_one(&mut encoder, FrameSignalType::Unvoiced, 3);
    encode_stage_two(&mut encoder, 3, MAX_LPC_ORDER, 4);
    encoder.encode_icdf(2, &SILK_NLSF_INTERPOLATION_FACTOR_ICDF, 8);
    encoder.encode_icdf(2, &SILK_UNIFORM4_ICDF, 8);
    let packet = encoder.finish();

    let mut decoder = RangeDecoder::init(&packet);
    let mut state = DecoderIndicesState::new(silk_nlsf_cb_wb());
    state.vad_flags[0] = true;
    let indices = state.decode_indices(&mut decoder, 0, false, ConditionalCoding::Independent);

    assert_eq!(indices.signal_type, FrameSignalType::Unvoiced);
    assert_eq!(indices.quant_offset_type, FrameQuantizationOffsetType::High);
    assert_eq!(indices.gains_indices, [21, 0, 1, 2]);
    assert_eq!(indices.nlsf_indices[0], 3);
    assert!(
        indices.nlsf_indices[1..=MAX_LPC_ORDER]
            .iter()
            .all(|value| *value == 0)
    );
    assert_eq!(indices.nlsf_interp_coef_q2, 2);
    assert_eq!(indices.seed, 2);
    assert_eq!(state.prev_signal_type, FrameSignalType::Unvoiced);
}

#[test]
fn decodes_voiced_frame_with_delta_pitch() {
    let mut encoder = RangeEncoder::new();
    encoder.encode_icdf(3, &SILK_TYPE_OFFSET_VAD_ICDF, 8);
    encoder.encode_symbol_with_icdf(4, delta_quantization_gain());
    for &delta in &[2usize, 3, 4] {
        encoder.encode_symbol_with_icdf(delta, delta_quantization_gain());
    }
    encode_stage_one(&mut encoder, FrameSignalType::Voiced, 4);
    encode_stage_two(&mut encoder, 4, MAX_LPC_ORDER, 4);
    encoder.encode_icdf(1, &SILK_NLSF_INTERPOLATION_FACTOR_ICDF, 8);
    encoder.encode_icdf(10, &PITCH_DELTA_ICDF, 8);
    encoder.encode_icdf(2, &PITCH_CONTOUR_ICDF, 8);
    encoder.encode_icdf(1, &SILK_LTP_PER_INDEX_ICDF, 8);
    let gain_icdf = &SILK_LTP_GAIN_ICDF_1;
    for symbol in 0..MAX_NB_SUBFR {
        encoder.encode_icdf(symbol, gain_icdf, 8);
    }
    encoder.encode_icdf(1, &SILK_UNIFORM4_ICDF, 8);
    let packet = encoder.finish();

    let mut decoder = RangeDecoder::init(&packet);
    let mut state = DecoderIndicesState::new(silk_nlsf_cb_wb());
    state.vad_flags[0] = true;
    state.prev_signal_type = FrameSignalType::Voiced;
    state.prev_lag_index = 100;
    let indices = state.decode_indices(&mut decoder, 0, false, ConditionalCoding::Conditional);

    assert_eq!(indices.signal_type, FrameSignalType::Voiced);
    assert_eq!(indices.gains_indices, [4, 2, 3, 4]);
    assert_eq!(indices.lag_index, 101);
    assert_eq!(indices.contour_index, 2);
    assert_eq!(indices.per_index, 1);
    assert_eq!(&indices.ltp_index[..MAX_NB_SUBFR], &[0, 1, 2, 3]);
    assert_eq!(indices.ltp_scale_index, 0);
    assert_eq!(indices.seed, 1);
    assert_eq!(state.prev_lag_index, 101);
    assert_eq!(state.prev_signal_type, FrameSignalType::Voiced);
}
