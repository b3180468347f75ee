//! Signs of the excitation.

use opus_codec::range::{RangeDecoder, RangeEncoder};
use opus_codec::silk::code_signs::{silk_decode_signs, silk_encode_signs, SHELL_CODEC_FRAME_LENGTH};

fn number_of_shell_blocks(length: usize) -> usize {
    (length + SHELL_CODEC_FRAME_LENGTH / 2) / SHELL_CODEC_FRAME_LENGTH
}

fn sums_for_blocks(pulses: &[i8]) -> Vec<i32> {
    let num_blocks = number_of_shell_blocks(pulses.len());
    let mut sums = vec![0i32; num_blocks];

    for (block_index, chunk) in pulses
        .chunks(SHELL_CODEC_FRAME_LENGTH)
        .take(num_blocks)
        .enumerate()
    {
        let sum = chunk.iter().map(|value| i32::from(value.abs())).sum();
        sums[block_index] = sum;
    }

    sums
}

#[test]
fn encode_decode_roundtrip() {
    let frame_length = 32;
    let pulses = [
        3, -1, 0, 2, -2, 0, 1, -4, 0, 0, 2, -1, 0, 1, 0, -1, //
        -2, 1, 0, -1, 3, 0, 0, -2, 0, 1, 0, 2, -1, 0, 1, 0,
    ];
    let sums = sums_for_blocks(&pulses);
    let signal_type = 2; // voiced
    let quant_offset_type = 0;

    let mut encoder = RangeEncoder::new();
    silk_encode_signs(
        &mut encoder,
        &pulses,
        frame_length,
        signal_type,
        quant_offset_type,
        &sums,
    );
    let encoded = encoder.finish();

    let mut magnitudes: Vec<i16> = pulses.iter().map(|&value| i16::from(value.abs())).collect();
    let mut decoder = RangeDecoder::init(&encoded);
    silk_decode_signs(
        &mut decoder,
        &mut magnitudes,
        frame_length,
        signal_type,
        quant_offset_type,
        &sums,
    );

    let reconstructed: Vec<i8> = magnitudes.iter().map(|&value| value as i8).collect();
    assert_eq!(reconstructed, pulses);
}

#[test]
fn zero_sum_blocks_emit_no_bits() {
    let frame_length = SHELL_CODEC_FRAME_LENGTH;
    let pulses = [0i8; SHELL_CODEC_FRAME_LENGTH];
    let sums = vec![0];
    let signal_type = 0;
    let quant_offset_type = 1;

    let mut encoder = RangeEncoder::new();
    silk_encode_signs(
        &mut encoder,
        &pulses,
        frame_length,
        signal_type,
        quant_offset_type,
        &sums,
    );
    let encoded = encoder.finish();
    assert!(encoded.is_empty());

    let mut magnitudes = [0i16; SHELL_CODEC_FRAME_LENGTH];
    let mut decoder = RangeDecoder::init(&encoded);
    silk_decode_signs(
        &mut decoder,
        &mut magnitudes,
        frame_length,
        signal_type,
        quant_offset_type,
        &sums,
    );
    assert!(magnitudes.iter().all(|&value| value == 0));
}
