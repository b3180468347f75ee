//! Decoder of one speech frame.

use opus_codec::packet::Bandwidth;
use opus_codec::range::RangeDecoder;
use opus_codec::silk::decoder::{
    convert_normalized_lsfs_to_lpc_coefficients, generate_a_q12, limit_lpc_coefficients_range,
    limit_lpc_filter_prediction_gain, normalize_line_spectral_frequency_coefficients,
    normalize_lsf_stabilization, DecodeError, DecoderBuilder,
};
use opus_codec::silk::decoder_frame::SilkFrame;
use opus_codec::silk::types::{FrameQuantizationOffsetType, FrameSignalType};

const NANOSECONDS_20_MS: u32 = 20_000_000;

/// Short-term synthesis of unvoiced wide-band frames.
struct Synthesis {
    have_decoded: bool,
    previous: Vec<f32>,
}

impl Synthesis {
    fn new() -> Self {
        Synthesis { have_decoded: false, previous: Vec::new() }
    }

    fn reconstruct(&mut self, frame: &SilkFrame, out: &mut [f32; 320]) {
        let source = &frame.source.excitation;
        let predictors = &frame.spectrum.a_q12;
        let order = frame.spectrum.nlsf_q15.len();
        let mut lpc = [0.0f32; 320];
        for t in 0..320 {
            let subframe = t / 80;
            let half = if subframe > 1 && predictors.len() > 1 { 1 } else { 0 };
            let gain = frame.spectrum.gains_q16[subframe] as f32 / 65_536.0;
            let mut value = gain * (source.values[t] as f32 / 8_388_608.0);
            for (k, &tap) in predictors[half].iter().take(order).enumerate() {
                let past = if t > k {
                    lpc[t - k - 1]
                } else if t + self.previous.len() > k && t < self.previous.len() {
                    self.previous[self.previous.len() + t - k - 1]
                } else {
                    0.0
                };
                value += past * (tap as f32 / 4096.0);
            }
            lpc[t] = value;
            out[t] = value.clamp(-1.0, 1.0);
        }
        if self.have_decoded {
            self.previous = lpc[320 - order..].to_vec();
        }
        self.have_decoded = true;
    }
}

const TEST_SILK_FRAME: &[u8] = &[0x0B, 0xE4, 0xC1, 0x36, 0xEC, 0xC5, 0x80];
const TEST_SILK_FRAME_SECOND: &[u8] = &[0x07, 0xC9, 0x72, 0x27, 0xE1, 0x44, 0xEA, 0x50];
const TEST_RES_Q_10: [i16; 16] = [138, 0, 0, 0, 0, 0, 0, 0, 0, 0, 0, 0, 0, 0, 0, 0];
const TEST_NLSF_Q_15: [i16; 16] = [
    2132, 3584, 5504, 7424, 9472, 11392, 13440, 15360, 17280, 19200, 21120, 23040, 25088,
    27008, 28928, 30848,
];
const TEST_CONVERT_NLSF_Q15: [i16; 16] = [
    0x0854, 0x0E00, 0x1580, 0x1D00, 0x2500, 0x2C80, 0x3480, 0x3C00, 0x4380, 0x4B00, 0x5280,
    0x5A00, 0x6200, 0x6980, 0x7100, 0x7880,
];
const EXPECTED_A32_Q17: [i32; 16] = [
    12_974, 9_765, 4_176, 3_646, -3_766, -4_429, -2_292, -4_663, -3_441, -3_848, -4_493,
    -1_614, -1_960, -3_112, -2_153, -2_898,
];
const EXPECTED_AQ12: [i32; 16] = [
    405, 305, 131, 114, -118, -138, -72, -146, -108, -120, -140, -50,
    -61, -97, -67, -91,
];
const TEST_PITCH_LAG_FRAME: &[u8] = &[
    0xb4, 0xe2, 0x2c, 0x0e, 0x10, 0x65, 0x1d, 0xa9, 0x07, 0x5c, 0x36, 0x8f, 0x96, 0x7b, 0xf4,
    0x89, 0x41, 0x55, 0x98, 0x7a, 0x39, 0x2e, 0x6b, 0x71, 0xa4, 0x03, 0x70, 0xbf,
];
const TEST_LCG_FRAME: &[u8] = &[
    0x84, 0x2e, 0x67, 0xd3, 0x85, 0x65, 0x54, 0xe3, 0x9d, 0x90, 0x0a, 0xfa, 0x98, 0xea, 0xfd,
    0x98, 0x94, 0x41, 0xf9, 0x6d, 0x1d, 0xa0,
];
const EXPECTED_DECODE_OUT_0: [f32; 320] = [
    0.000023f32,
    0.000025f32,
    0.000027f32,
    -0.000018f32,
    0.000025f32,
    -0.000021f32,
    0.000021f32,
    -0.000024f32,
    0.000021f32,
    0.000021f32,
    -0.000022f32,
    -0.000026f32,
    0.000018f32,
    0.000022f32,
    -0.000023f32,
    -0.000025f32,
    -0.000027f32,
    0.000017f32,
    0.000020f32,
    -0.000021f32,
    0.000023f32,
    0.000027f32,
    -0.000018f32,
    -0.000023f32,
    -0.000024f32,
    0.000020f32,
    -0.000024f32,
    0.000021f32,
    0.000023f32,
    0.000027f32,
    0.000029f32,
    -0.000016f32,
    -0.000020f32,
    -0.000025f32,
    0.000018f32,
    -0.000026f32,
    -0.000028f32,
    -0.000028f32,
    -0.000028f32,
    0.000016f32,
    -0.000025f32,
    -0.000025f32,
    0.000021f32,
    0.000025f32,
    0.000027f32,
    -0.000016f32,
    0.000030f32,
    -0.000016f32,
    -0.000020f32,
    -0.000024f32,
    -0.000026f32,
    0.000019f32,
    0.000022f32,
    0.000025f32,
    -0.000019f32,
    -0.000021f32,
    -0.000024f32,
    -0.000027f32,
    -0.000029f32,
    -0.000030f32,
    0.000017f32,
    0.000022f32,
    0.000026f32,
    0.000030f32,
    0.000033f32,
    -0.000012f32,
    -0.000018f32,
    -0.000023f32,
    -0.000026f32,
    -0.000029f32,
    -0.000029f32,
    0.000016f32,
    -0.000025f32,
    0.000021f32,
    0.000024f32,
    0.000028f32,
    -0.000017f32,
    0.000027f32,
    0.000028f32,
    0.000029f32,
    -0.000006f32,
    0.000017f32,
    0.000015f32,
    0.000015f32,
    -0.000011f32,
    0.000011f32,
    0.000011f32,
    -0.000014f32,
    0.000008f32,
    -0.000016f32,
    0.000008f32,
    -0.000016f32,
    -0.000016f32,
    -0.000018f32,
    -0.000017f32,
    -0.000017f32,
    0.000008f32,
    -0.000014f32,
    -0.000013f32,
    -0.000013f32,
    -0.000012f32,
    0.000011f32,
    -0.000010f32,
    0.000015f32,
    0.000016f32,
    -0.000006f32,
    0.000015f32,
    -0.000008f32,
    -0.000009f32,
    -0.000012f32,
    0.000012f32,
    0.000012f32,
    0.000013f32,
    -0.000009f32,
    -0.000011f32,
    0.000011f32,
    0.000012f32,
    -0.000012f32,
    0.000012f32,
    0.000013f32,
    0.000014f32,
    -0.000011f32,
    0.000013f32,
    -0.000011f32,
    -0.000013f32,
    -0.000016f32,
    0.000008f32,
    -0.000015f32,
    0.000010f32,
    -0.000013f32,
    -0.000013f32,
    -0.000015f32,
    0.000010f32,
    -0.000013f32,
    0.000011f32,
    -0.000011f32,
    -0.000011f32,
    -0.000013f32,
    0.000012f32,
    -0.000011f32,
    0.000013f32,
    0.000015f32,
    0.000016f32,
    0.000016f32,
    0.000017f32,
    -0.000007f32,
    -0.000010f32,
    -0.000013f32,
    -0.000015f32,
    -0.000017f32,
    0.000007f32,
    -0.000015f32,
    -0.000015f32,
    0.000009f32,
    0.000012f32,
    -0.000011f32,
    0.000012f32,
    -0.000010f32,
    0.000013f32,
    -0.000011f32,
    0.000012f32,
    0.000012f32,
    0.000014f32,
    0.000014f32,
    -0.000007f32,
    0.000012f32,
    -0.000010f32,
    0.000010f32,
    0.000010f32,
    0.000011f32,
    -0.000010f32,
    0.000009f32,
    -0.000011f32,
    0.000008f32,
    0.000009f32,
    -0.000010f32,
    -0.000013f32,
    -0.000013f32,
    -0.000014f32,
    0.000006f32,
    0.000009f32,
    -0.000010f32,
    -0.000011f32,
    -0.000011f32,
    -0.000012f32,
    0.000008f32,
    0.000011f32,
    0.000013f32,
    -0.000007f32,
    -0.000008f32,
    -0.000010f32,
    -0.000011f32,
    0.000009f32,
    -0.000010f32,
    -0.000011f32,
    0.000009f32,
    -0.000010f32,
    -0.000011f32,
    0.000010f32,
    0.000012f32,
    -0.000009f32,
    -0.000010f32,
    -0.000010f32,
    -0.000012f32,
    0.000009f32,
    0.000011f32,
    0.000012f32,
    0.000014f32,
    -0.000007f32,
    0.000012f32,
    -0.000009f32,
    0.000011f32,
    -0.000010f32,
    0.000010f32,
    -0.000011f32,
    -0.000012f32,
    -0.000013f32,
    -0.000013f32,
    -0.000014f32,
    0.000007f32,
    -0.000012f32,
    0.000009f32,
    -0.000010f32,
    -0.000010f32,
    -0.000011f32,
    0.000010f32,
    0.000012f32,
    0.000013f32,
    -0.000006f32,
    0.000013f32,
    -0.000007f32,
    -0.000009f32,
    0.000010f32,
    -0.000010f32,
    -0.000011f32,
    0.000008f32,
    -0.000010f32,
    -0.000012f32,
    -0.000012f32,
    0.000009f32,
    0.000009f32,
    0.000011f32,
    0.000013f32,
    0.000014f32,
    0.000015f32,
    0.000014f32,
    -0.000007f32,
    0.000012f32,
    0.000011f32,
    0.000012f32,
    -0.000010f32,
    -0.000012f32,
    0.000008f32,
    0.000008f32,
    0.000009f32,
    0.000009f32,
    -0.000010f32,
    -0.000012f32,
    -0.000014f32,
    -0.000014f32,
    0.000006f32,
    0.000008f32,
    -0.000010f32,
    -0.000012f32,
    0.000010f32,
    -0.000010f32,
    0.000010f32,
    0.000012f32,
    0.000013f32,
    -0.000008f32,
    -0.000009f32,
    -0.000010f32,
    0.000009f32,
    -0.000010f32,
    -0.000011f32,
    0.000008f32,
    -0.000011f32,
    -0.000012f32,
    -0.000012f32,
    -0.000012f32,
    -0.000013f32,
    0.000008f32,
    -0.000011f32,
    -0.000011f32,
    0.000010f32,
    0.000013f32,
    -0.000007f32,
    -0.000008f32,
    -0.000009f32,
    -0.000010f32,
    0.000009f32,
    0.000011f32,
    0.000013f32,
    -0.000007f32,
    0.000013f32,
    -0.000008f32,
    0.000011f32,
    -0.000010f32,
    0.000011f32,
    0.000011f32,
    0.000012f32,
    0.000012f32,
    0.000013f32,
    -0.000008f32,
    0.000010f32,
    -0.000011f32,
    0.000009f32,
    -0.000012f32,
    -0.000013f32,
    -0.000014f32,
    0.000006f32,
    -0.000013f32,
    -0.000013f32,
    0.000008f32,
    -0.000011f32,
    -0.000012f32,
    -0.000012f32,
    0.000010f32,
    0.000011f32,
    0.000013f32,
];
const EXPECTED_DECODE_OUT_1: [f32; 320] = [
    0.000011f32,
    -0.000009f32,
    -0.000011f32,
    -0.000012f32,
    0.000009f32,
    0.000010f32,
    -0.000010f32,
    0.000011f32,
    0.000012f32,
    -0.000008f32,
    0.000011f32,
    -0.000009f32,
    -0.000010f32,
    -0.000012f32,
    0.000008f32,
    0.000009f32,
    -0.000010f32,
    0.000011f32,
    0.000012f32,
    0.000013f32,
    0.000012f32,
    0.000013f32,
    -0.000007f32,
    0.000011f32,
    0.000011f32,
    0.000011f32,
    0.000011f32,
    0.000012f32,
    -0.000009f32,
    0.000009f32,
    -0.000012f32,
    -0.000013f32,
    0.000006f32,
    0.000008f32,
    0.000009f32,
    0.000010f32,
    0.000012f32,
    0.000012f32,
    0.000012f32,
    -0.000009f32,
    -0.000011f32,
    -0.000013f32,
    0.000007f32,
    -0.000013f32,
    0.000008f32,
    0.000009f32,
    0.000011f32,
    -0.000009f32,
    -0.000011f32,
    0.000009f32,
    -0.000011f32,
    -0.000012f32,
    -0.000013f32,
    0.000008f32,
    0.000010f32,
    -0.000009f32,
    0.000011f32,
    -0.000008f32,
    -0.000010f32,
    0.000009f32,
    -0.000010f32,
    0.000010f32,
    0.000011f32,
    -0.000008f32,
    0.000011f32,
    -0.000009f32,
    -0.000010f32,
    0.000029f32,
    -0.000008f32,
    -0.000010f32,
    0.000009f32,
    0.000012f32,
    -0.000010f32,
    -0.000011f32,
    0.000010f32,
    0.000010f32,
    -0.000010f32,
    -0.000011f32,
    0.000009f32,
    0.000011f32,
    0.000011f32,
    0.000012f32,
    -0.000008f32,
    0.000011f32,
    -0.000009f32,
    -0.000011f32,
    0.000008f32,
    -0.000011f32,
    -0.000012f32,
    0.000007f32,
    -0.000011f32,
    -0.000012f32,
    -0.000013f32,
    0.000009f32,
    0.000009f32,
    0.000012f32,
    -0.000008f32,
    -0.000009f32,
    0.000011f32,
    -0.000009f32,
    -0.000010f32,
    -0.000011f32,
    -0.000012f32,
    -0.000013f32,
    0.000008f32,
    -0.000011f32,
    0.000010f32,
    -0.000009f32,
    -0.000009f32,
    -0.000012f32,
    0.000010f32,
    -0.000010f32,
    -0.000010f32,
    0.000011f32,
    0.000012f32,
    -0.000008f32,
    0.000012f32,
    -0.000007f32,
    0.000012f32,
    -0.000009f32,
    0.000011f32,
    0.000011f32,
    0.000012f32,
    -0.000008f32,
    0.000011f32,
    0.000012f32,
    0.000012f32,
    0.000012f32,
    0.000012f32,
    0.000012f32,
    0.000012f32,
    -0.000009f32,
    -0.000012f32,
    -0.000014f32,
    -0.000015f32,
    0.000005f32,
    0.000007f32,
    0.000009f32,
    -0.000011f32,
    -0.000011f32,
    0.000009f32,
    -0.000011f32,
    0.000009f32,
    -0.000010f32,
    -0.000010f32,
    -0.000012f32,
    -0.000012f32,
    0.000009f32,
    0.000011f32,
    -0.000008f32,
    0.000012f32,
    -0.000008f32,
    0.000012f32,
    -0.000009f32,
    -0.000009f32,
    -0.000011f32,
    0.000009f32,
    -0.000010f32,
    0.000009f32,
    0.000012f32,
    0.000013f32,
    -0.000008f32,
    -0.000009f32,
    -0.000011f32,
    0.000009f32,
    0.000010f32,
    0.000011f32,
    -0.000009f32,
    -0.000010f32,
    0.000010f32,
    0.000010f32,
    0.000011f32,
    -0.000009f32,
    -0.000010f32,
    0.000029f32,
    -0.000009f32,
    0.000010f32,
    -0.000010f32,
    -0.000010f32,
    0.000008f32,
    -0.000012f32,
    0.000009f32,
    0.000009f32,
    -0.000009f32,
    0.000010f32,
    -0.000010f32,
    0.000010f32,
    -0.000011f32,
    -0.000011f32,
    0.000009f32,
    -0.000011f32,
    0.000010f32,
    -0.000011f32,
    0.000011f32,
    0.000011f32,
    0.000012f32,
    -0.000008f32,
    0.000011f32,
    -0.000009f32,
    0.000010f32,
    0.000010f32,
    -0.000009f32,
    -0.000011f32,
    0.000009f32,
    -0.000011f32,
    0.000008f32,
    0.000010f32,
    -0.000009f32,
    -0.000012f32,
    0.000009f32,
    0.000010f32,
    0.000011f32,
    0.000013f32,
    0.000013f32,
    -0.000008f32,
    -0.000010f32,
    -0.000012f32,
    -0.000013f32,
    -0.000014f32,
    0.000006f32,
    0.000008f32,
    -0.000011f32,
    0.000010f32,
    0.000012f32,
    0.000013f32,
    -0.000008f32,
    0.000012f32,
    -0.000009f32,
    0.000010f32,
    0.000011f32,
    0.000012f32,
    0.000013f32,
    -0.000008f32,
    -0.000010f32,
    -0.000013f32,
    0.000007f32,
    0.000008f32,
    0.000010f32,
    -0.000010f32,
    0.000010f32,
    0.000010f32,
    0.000012f32,
    -0.000009f32,
    0.000011f32,
    -0.000010f32,
    -0.000012f32,
    0.000007f32,
    0.000010f32,
    0.000011f32,
    -0.000009f32,
    -0.000010f32,
    -0.000013f32,
    -0.000013f32,
    0.000007f32,
    0.000009f32,
    0.000011f32,
    -0.000009f32,
    0.000011f32,
    -0.000009f32,
    0.000011f32,
    0.000012f32,
    0.000013f32,
    -0.000008f32,
    -0.000010f32,
    0.000009f32,
    -0.000011f32,
    0.000029f32,
    -0.000009f32,
    -0.000010f32,
    -0.000013f32,
    0.000008f32,
    -0.000012f32,
    0.000008f32,
    -0.000011f32,
    0.000010f32,
    0.000010f32,
    0.000012f32,
    0.000013f32,
    -0.000007f32,
    -0.000009f32,
    -0.000012f32,
    -0.000013f32,
    0.000007f32,
    0.000009f32,
    -0.000010f32,
    -0.000011f32,
    0.000009f32,
    0.000011f32,
    -0.000010f32,
    -0.000010f32,
    -0.000011f32,
    -0.000012f32,
    0.000008f32,
    -0.000011f32,
    -0.000011f32,
    -0.000011f32,
    -0.000011f32,
    0.000009f32,
    -0.000010f32,
    0.000011f32,
    0.000013f32,
    -0.000007f32,
    -0.000009f32,
    0.000011f32,
    -0.000008f32,
    -0.000010f32,
    -0.000011f32,
    0.000010f32,
    -0.000011f32,
    -0.000011f32,
    -0.000012f32,
    0.000009f32,
    -0.000010f32,
    0.000010f32,
    -0.000009f32,
    -0.000010f32,
    -0.000011f32,
    0.000010f32,
    -0.000010f32,
    0.000011f32,
];
const FLOAT_EQUALITY_THRESHOLD: f32 = 0.000001f32;

#[test]
fn determine_frame_type() {
    let mut decoder = DecoderBuilder::new().build();
    let mut range_decoder = RangeDecoder {
        buf: TEST_SILK_FRAME,
        bits_read: 31,
        total_bits: 33,
        range_size: 536_870_912,
        high_and_coded_difference: 437_100_388,
    };

    let (signal_type, quantization_offset_type) =
        decoder.determine_frame_type(&mut range_decoder, false);
    assert_eq!(signal_type, FrameSignalType::Inactive);
    assert_eq!(quantization_offset_type, FrameQuantizationOffsetType::High);
}

#[test]
fn decode_subframe_quantizations() {
    let mut decoder = DecoderBuilder::new().build();
    let mut range_decoder = RangeDecoder {
        buf: TEST_SILK_FRAME,
        bits_read: 31,
        total_bits: 33,
        range_size: 482_344_960,
        high_and_coded_difference: 437_100_388,
    };

    let quantizations =
        decoder.decode_subframe_quantizations(&mut range_decoder, FrameSignalType::Inactive);
    assert_eq!(quantizations, [210_944, 112_640, 96_256, 96_256]);
}

#[test]
fn normalize_line_spectral_frequency_stage_one() {
    let mut decoder = DecoderBuilder::new().build();
    let mut range_decoder = RangeDecoder {
        buf: TEST_SILK_FRAME,
        bits_read: 47,
        total_bits: 49,
        range_size: 722_810_880,
        high_and_coded_difference: 387_065_757,
    };

    assert_eq!(
        9,
        decoder.normalize_line_spectral_frequency_stage_one(
            &mut range_decoder,
            false,
            Bandwidth::Wide,
        )
    );
}

#[test]
fn test_normalize_lsf_stabilization() {
    let mut input = [
        856, 2310, 3452, 4865, 4852, 7547, 9662, 11512, 13884, 15919, 18467, 20487, 23559,
        25900, 28222, 30700,
    ];

    let expected_out = [
        856, 2310, 3452, 4858, 4861, 7547, 9662, 11512, 13884, 15919, 18467, 20487, 23559,
        25900, 28222, 30700,
    ];

    normalize_lsf_stabilization(&mut input, Bandwidth::Wide);
    assert_eq!(&input, &expected_out);

    let mut input2 = [
        1533, 1674, 2506, 4374, 6630, 9867, 10260, 10691, 14397, 16969, 19355, 21645, 25228,
        26972, 30514, 30208,
    ];

    let expected_out2 = [
        1533, 1674, 2506, 4374, 6630, 9867, 10260, 10691, 14397, 16969, 19355, 21645, 25228,
        26972, 30360, 30363,
    ];

    normalize_lsf_stabilization(&mut input2, Bandwidth::Wide);
    assert_eq!(&input2, &expected_out2);
}

#[test]
fn normalize_line_spectral_frequency_stage_two() {
    let mut decoder = DecoderBuilder::new().build();
    let mut range_decoder = RangeDecoder {
        buf: TEST_SILK_FRAME,
        bits_read: 47,
        total_bits: 49,
        range_size: 50_822_640,
        high_and_coded_difference: 5_895_957,
    };

    let res_q10 = decoder.normalize_line_spectral_frequency_stage_two(
        &mut range_decoder,
        Bandwidth::Wide,
        9,
    );

    assert_eq!(res_q10, TEST_RES_Q_10.to_vec());
}

#[test]
fn decode_pitch_lags() {
    let mut decoder = DecoderBuilder::new().build();
    let mut range_decoder = RangeDecoder {
        buf: TEST_PITCH_LAG_FRAME,
        bits_read: 73,
        total_bits: 75,
        range_size: 30_770_362,
        high_and_coded_difference: 1_380_489,
    };

    let result = decoder
        .decode_pitch_lags(&mut range_decoder, FrameSignalType::Voiced, Bandwidth::Wide)
        .expect("pitch lag decoding should succeed");

    let info = result.expect("expected voiced frame pitch lags");
    assert_eq!(info.lag_max, 288);
    assert_eq!(info.pitch_lags, [206, 206, 206, 206]);
}

#[test]
fn decode_ltp_filter_coefficients_returns_expected_taps() {
    let mut decoder = DecoderBuilder::new().build();
    let mut range_decoder = RangeDecoder {
        buf: TEST_PITCH_LAG_FRAME,
        bits_read: 89,
        total_bits: 91,
        range_size: 253_853_952,
        high_and_coded_difference: 138_203_876,
    };

    let coeffs = decoder
        .decode_ltp_filter_coefficients(&mut range_decoder, FrameSignalType::Voiced)
        .expect("voiced frame should decode LTP filter coefficients");

    assert_eq!(
        coeffs,
        [
            [1, 1, 8, 1, 1],
            [2, 0, 77, 11, 9],
            [1, 1, 8, 1, 1],
            [-1, 36, 64, 27, -6],
        ]
    );
}

#[test]
fn decode_ltp_scaling_parameter_returns_default_for_unvoiced_frames() {
    let mut decoder = DecoderBuilder::new().build();
    let mut range_decoder = RangeDecoder::init(&[]);

    let scale =
        decoder.decode_ltp_scaling_parameter(&mut range_decoder, FrameSignalType::Unvoiced);
    assert_eq!(scale, 15_565);
}

#[test]
fn decode_ltp_scaling_parameter_decodes_voiced_frames() {
    let mut decoder = DecoderBuilder::new().build();
    let mut range_decoder = RangeDecoder {
        buf: TEST_PITCH_LAG_FRAME,
        bits_read: 105,
        total_bits: 107,
        range_size: 160_412_192,
        high_and_coded_difference: 164_623_240,
    };

    let scale =
        decoder.decode_ltp_scaling_parameter(&mut range_decoder, FrameSignalType::Voiced);
    assert_eq!(scale, 15_565);
}

#[test]
fn decode_linear_congruential_generator_seed_reads_expected_value() {
    let mut decoder = DecoderBuilder::new().build();
    let mut range_decoder = RangeDecoder {
        buf: TEST_LCG_FRAME,
        bits_read: 71,
        total_bits: 73,
        range_size: 851_775_140,
        high_and_coded_difference: 846_837_397,
    };

    let seed = decoder.decode_linear_congruential_generator_seed(&mut range_decoder);
    assert_eq!(seed, 0);
}

#[test]
fn decode_returns_error_for_non_20_ms_frames() {
    let mut decoder = DecoderBuilder::new().build();
    let result = decoder.decode(TEST_SILK_FRAME, 320, false, 1, Bandwidth::Wide);
    assert!(matches!(result, Err(DecodeError::UnsupportedFrameDuration)));
}

#[test]
fn decode_returns_error_for_stereo_frames() {
    let mut decoder = DecoderBuilder::new().build();
    let result = decoder.decode(
        TEST_SILK_FRAME,
        320,
        true,
        NANOSECONDS_20_MS,
        Bandwidth::Wide,
    );
    assert!(matches!(result, Err(DecodeError::StereoUnsupported)));
}

#[test]
fn decode_returns_error_when_output_buffer_too_small() {
    let mut decoder = DecoderBuilder::new().build();
    let result = decoder.decode(
        TEST_SILK_FRAME,
        50,
        false,
        NANOSECONDS_20_MS,
        Bandwidth::Wide,
    );
    assert!(matches!(result, Err(DecodeError::OutBufferTooSmall)));
}

#[test]
fn decode_matches_go_fixture_for_unvoiced_frame() {
    let mut decoder = DecoderBuilder::new().build();
    let mut synthesis = Synthesis::new();
    let mut out = [0.0f32; 320];

    let (frame, _) = decoder
        .decode(TEST_SILK_FRAME, 320, false, NANOSECONDS_20_MS, Bandwidth::Wide)
        .expect("decode should succeed");
    synthesis.reconstruct(&frame, &mut out);

    for (actual, expected) in out.iter().zip(EXPECTED_DECODE_OUT_0.iter()) {
        assert!((actual - expected).abs() < FLOAT_EQUALITY_THRESHOLD);
    }
}

#[test]
fn decode_matches_go_fixture_for_subsequent_unvoiced_frame() {
    let mut decoder = DecoderBuilder::new().build();
    let mut synthesis = Synthesis::new();
    let mut out = [0.0f32; 320];

    let (frame, _) = decoder
        .decode(TEST_SILK_FRAME, 320, false, NANOSECONDS_20_MS, Bandwidth::Wide)
        .expect("initial decode should succeed");
    synthesis.reconstruct(&frame, &mut out);

    let (frame, _) = decoder
        .decode(TEST_SILK_FRAME_SECOND, 320, false, NANOSECONDS_20_MS, Bandwidth::Wide)
        .expect("subsequent decode should succeed");
    synthesis.reconstruct(&frame, &mut out);

    for (actual, expected) in out.iter().zip(EXPECTED_DECODE_OUT_1.iter()) {
        assert!((actual - expected).abs() < FLOAT_EQUALITY_THRESHOLD);
    }
}

#[test]
fn decode_shell_blocks_matches_reference() {
    let decoder = DecoderBuilder::new().build();

    assert_eq!(
        decoder.decode_shell_blocks(10_000_000, Bandwidth::Narrow),
        5
    );
    assert_eq!(
        decoder.decode_shell_blocks(10_000_000, Bandwidth::Medium),
        8
    );
    assert_eq!(decoder.decode_shell_blocks(10_000_000, Bandwidth::Wide), 10);
    assert_eq!(
        decoder.decode_shell_blocks(20_000_000, Bandwidth::Narrow),
        10
    );
    assert_eq!(
        decoder.decode_shell_blocks(20_000_000, Bandwidth::Medium),
        15
    );
    assert_eq!(decoder.decode_shell_blocks(20_000_000, Bandwidth::Wide), 20);
}

#[test]
fn decode_excitation_matches_go_fixture() {
    const EXPECTED: &[i32] = &[
        25, -25, -25, -25, 25, 25, -25, 25, 25, -25, 25, -25, -25, -25, 25, 25, -25, 25, 25,
        25, 25, -211, -25, -25, 25, -25, 25, -25, 25, -25, -25, -25, 25, 25, -25, -25, 261,
        517, -25, 25, -25, -25, -25, -25, -25, -25, 25, -25, -25, 25, -25, 25, -25, 25, 25, 25,
        25, -25, 25, -25, 25, 25, 25, 25, -25, 25, 25, 25, 25, -25, -25, -25, -25, -25, -25,
        -25, 25, 25, -25, 25, 211, 25, -25, -25, 25, 211, 25, 25, 25, -25, 25, 25, -25, -25,
        -25, 25, 25, 25, 25, -25, 25, 25, -25, 25, 25, 25, 25, 25, -25, -25, 25, -25, -25, 25,
        25, -25, 25, 25, 25, -25, -25, -25, -25, -25, -25, 25, 25, 25, 25, 25, -25, 25, -25,
        -25, 25, 25, 25, 25, 25, 25, 25, -25, 25, -211, 25, -25, -25, 25, 25, -25, -25, -25,
        -25, -25, -25, -25, 25, 25, -25, -25, 25, 25, -25, 25, -25, -25, -25, 25, 25, -25, 25,
        -25, -211, -25, 25, 25, 25, -25, -25, -25, -25, 25, 25, -25, -25, 25, -25, -25, 25, 25,
        25, -25, -25, -25, -25, -25, 25, 25, -25, -211, 25, -25, 25, 25, -25, -25, 25, -25, 25,
        -25, 25, 25, -25, -211, -25, 25, 25, -25, 25, 25, -25, -211, -25, 25, 25, 25, -25, -25,
        -25, -25, 25, -211, 25, 25, 25, 25, 25, 25, -25, -25, 25, -25, 517, 517, -467, -25, 25,
        25, -25, -25, 25, -25, 25, 25, 25, -25, -25, -25, 25, 25, -25, -25, 25, -25, 25, -25,
        25, -25, 25, -25, -25, -25, 25, 25, -25, -25, 211, 25, 25, 25, 25, -25, -25, 25, -25,
        -25, -25, -25, 211, -25, 25, -25, -25, 25, -25, -25, 25, -25, 25, -25, 25, 25, -25, 25,
        -25, 25, 25, 25, 25, -25, -25, -25, 25, -25, 25, 25, -25, -25, -25, 25,
    ];

    let mut decoder = DecoderBuilder::new().build();
    let mut range_decoder = RangeDecoder {
        buf: TEST_LCG_FRAME,
        bits_read: 71,
        total_bits: 73,
        range_size: 851_775_140,
        high_and_coded_difference: 846_837_397,
    };

    let seed = decoder.decode_linear_congruential_generator_seed(&mut range_decoder);
    let shell_blocks = decoder.decode_shell_blocks(20_000_000, Bandwidth::Wide);
    assert_eq!(shell_blocks, 20);

    let rate_level = decoder.decode_rate_level(&mut range_decoder, false);
    let counts =
        decoder.decode_pulse_and_lsb_counts(&mut range_decoder, shell_blocks, rate_level);
    assert_eq!(counts.block_count, shell_blocks);

    let excitation = decoder.decode_excitation(
        &mut range_decoder,
        FrameSignalType::Unvoiced,
        FrameQuantizationOffsetType::Low,
        seed,
        &counts,
    );

    assert_eq!(EXPECTED.len(), 320);
    assert_eq!(excitation.len, EXPECTED.len());
    assert_eq!(&excitation.values[..excitation.len], EXPECTED);
}

#[test]
fn decode_pitch_lags_returns_none_for_unvoiced_frames() {
    let mut decoder = DecoderBuilder::new().build();
    let mut range_decoder = RangeDecoder::init(&[]);

    let result = decoder
        .decode_pitch_lags(
            &mut range_decoder,
            FrameSignalType::Unvoiced,
            Bandwidth::Wide,
        )
        .expect("pitch lag decoding should not fail for unvoiced frames");
    assert!(result.is_none());
}

#[test]
fn normalize_lsf_interpolation_wq2_equals_four() {
    let mut decoder = DecoderBuilder::new().build();
    let mut range_decoder = RangeDecoder {
        buf: TEST_SILK_FRAME,
        bits_read: 55,
        total_bits: 57,
        range_size: 493_249_168,
        high_and_coded_difference: 174_371_199,
    };

    let (n1_q15, w_q2) = decoder.normalize_lsf_interpolation(&mut range_decoder, &[]);
    assert!(n1_q15.is_none());
    assert_eq!(w_q2, 4);
}

#[test]
fn normalize_lsf_interpolation_wq2_equals_one() {
    let frame: &[u8] = &[
        0xac, 0xbd, 0xa9, 0xf7, 0x26, 0x24, 0x5a, 0xa4, 0x00, 0x37, 0xbf, 0x9c, 0xde, 0x0e,
        0xcf, 0x94, 0x64, 0xaa, 0xf9, 0x87, 0xd0, 0x79, 0x19, 0xa8, 0x21, 0xc0,
    ];
    let mut decoder = DecoderBuilder::new().build();
    decoder.have_decoded = true;
    decoder.n0_q15_len = 16;
    let mut range_decoder = RangeDecoder {
        buf: frame,
        bits_read: 65,
        total_bits: 67,
        range_size: 1_231_761_776,
        high_and_coded_difference: 1_068_195_183,
    };
    decoder.n0_q15[..16].copy_from_slice(&[
        518, 380, 4444, 6982, 8752, 10510, 12381, 14102, 15892, 17651, 19340, 21888, 23936,
        25984, 28160, 30208,
    ]);

    let n2_q15 = [
        215, 1447, 3712, 5120, 7168, 9088, 11264, 13184, 15232, 17536, 19712, 21888, 24192,
        26240, 28416, 30336,
    ];
    let expected: Vec<i16> = vec![
        442, 646, 4261, 6516, 8356, 10154, 12101, 13872, 15727, 17622, 19433, 21888, 24000,
        26048, 28224, 30240,
    ];

    let (actual, w_q2) = decoder.normalize_lsf_interpolation(&mut range_decoder, &n2_q15);
    assert_eq!(w_q2, 1);
    assert_eq!(actual, Some(expected));
}

#[test]
fn test_normalize_line_spectral_frequency_coefficients() {
    let mut input_nlsf_q15 = [0i16; 16];
    normalize_line_spectral_frequency_coefficients(
        &mut input_nlsf_q15,
        Bandwidth::Wide,
        &TEST_RES_Q_10,
        9,
    );
    assert_eq!(&input_nlsf_q15, &TEST_NLSF_Q_15);
}

#[test]
fn convert_normalized_lsfs_to_lpc_coefficients_matches_reference() {
    let actual = convert_normalized_lsfs_to_lpc_coefficients(&TEST_CONVERT_NLSF_Q15);

    assert_eq!(actual.as_slice(), &EXPECTED_A32_Q17);
}

#[test]
fn limit_lpc_coefficients_range_preserves_reference_values() {
    let mut a32 = EXPECTED_A32_Q17.to_vec();

    limit_lpc_coefficients_range(&mut a32);

    assert_eq!(a32.as_slice(), &EXPECTED_A32_Q17);
}

#[test]
fn limit_lpc_filter_prediction_gain_matches_reference() {
    let a32 = EXPECTED_A32_Q17.to_vec();

    let a_q12 = limit_lpc_filter_prediction_gain(&a32);

    assert_eq!(a_q12.as_slice(), &EXPECTED_AQ12);
}

#[test]
fn generate_a_q12_appends_coefficients_when_available() {
    let nlsf = TEST_CONVERT_NLSF_Q15.to_vec();
    let mut a_q12: Vec<Vec<i32>> = Vec::new();

    generate_a_q12(None, &mut a_q12);
    assert!(a_q12.is_empty());

    generate_a_q12(Some(&nlsf), &mut a_q12);
    assert_eq!(a_q12.len(), 1);
    assert_eq!(a_q12[0], EXPECTED_AQ12);
}
