//! Range coder.

use opus_codec::icdf::ICDFContext;
use opus_codec::range::{RangeDecoder, RangeEncoder};
use opus_codec::silk::tables_other::SILK_UNIFORM4_ICDF;
use opus_codec::silk::tables_pulses_per_block::{SILK_SHELL_CODE_TABLE0, SILK_SHELL_CODE_TABLE_OFFSETS};

const SILK_FRAME_TYPE_INACTIVE: ICDFContext = ICDFContext { total: 256, dist_table: &[26, 256] };

const SILK_GAIN_HIGH_BITS: [ICDFContext; 3] = [
    ICDFContext { total: 256, dist_table: &[32, 144, 212, 241, 253, 254, 255, 256] },
    ICDFContext { total: 256, dist_table: &[2, 19, 64, 124, 186, 233, 252, 256] },
    ICDFContext { total: 256, dist_table: &[1, 4, 30, 101, 195, 245, 254, 256] },
];

const SILK_GAIN_LOW_BITS: ICDFContext = ICDFContext { total: 256, dist_table: &[32, 64, 96, 128, 160, 192, 224, 256] };

const SILK_GAIN_DELTA: ICDFContext = ICDFContext { total: 256, dist_table: &[6, 11, 22, 53, 185, 206, 214, 218, 221, 223, 225, 227, 228, 229, 230, 231, 232, 233, 234, 235, 236, 237, 238, 239, 240, 241, 242, 243, 244, 245, 246, 247, 248, 249, 250, 251, 252, 253, 254, 255, 256] };

const SILK_LSF_S1: [[ICDFContext; 2]; 2] = [
    [
        ICDFContext { total: 256, dist_table: &[44, 78, 108, 127, 148, 160, 171, 174, 177, 179, 195, 197, 199, 200, 205, 207, 208, 211, 214, 215, 216, 218, 220, 222, 225, 226, 235, 244, 246, 253, 255, 256] },
        ICDFContext { total: 256, dist_table: &[1, 11, 12, 20, 23, 31, 39, 53, 66, 80, 81, 95, 107, 120, 131, 142, 154, 165, 175, 185, 196, 204, 213, 221, 228, 236, 237, 238, 244, 245, 251, 256] },
    ],
    [
        ICDFContext { total: 256, dist_table: &[31, 52, 55, 72, 73, 81, 98, 102, 103, 121, 137, 141, 143, 146, 147, 157, 158, 161, 177, 188, 204, 206, 208, 211, 213, 224, 225, 229, 238, 246, 253, 256] },
        ICDFContext { total: 256, dist_table: &[1, 5, 21, 26, 44, 55, 60, 74, 89, 90, 93, 105, 118, 132, 146, 152, 166, 178, 180, 186, 187, 199, 211, 222, 232, 235, 245, 250, 251, 252, 253, 256] },
    ],
];

const SILK_LSF_S2: [ICDFContext; 16] = [
    ICDFContext { total: 256, dist_table: &[1, 2, 3, 18, 242, 253, 254, 255, 256] },
    ICDFContext { total: 256, dist_table: &[1, 2, 4, 38, 221, 253, 254, 255, 256] },
    ICDFContext { total: 256, dist_table: &[1, 2, 6, 48, 197, 252, 254, 255, 256] },
    ICDFContext { total: 256, dist_table: &[1, 2, 10, 62, 185, 246, 254, 255, 256] },
    ICDFContext { total: 256, dist_table: &[1, 4, 20, 73, 174, 248, 254, 255, 256] },
    ICDFContext { total: 256, dist_table: &[1, 4, 21, 76, 166, 239, 254, 255, 256] },
    ICDFContext { total: 256, dist_table: &[1, 8, 32, 85, 159, 226, 252, 255, 256] },
    ICDFContext { total: 256, dist_table: &[1, 2, 20, 83, 161, 219, 249, 255, 256] },
    ICDFContext { total: 256, dist_table: &[1, 2, 3, 12, 244, 253, 254, 255, 256] },
    ICDFContext { total: 256, dist_table: &[1, 2, 4, 32, 218, 253, 254, 255, 256] },
    ICDFContext { total: 256, dist_table: &[1, 2, 5, 47, 199, 252, 254, 255, 256] },
    ICDFContext { total: 256, dist_table: &[1, 2, 12, 61, 187, 252, 254, 255, 256] },
    ICDFContext { total: 256, dist_table: &[1, 5, 24, 72, 172, 249, 254, 255, 256] },
    ICDFContext { total: 256, dist_table: &[1, 2, 16, 70, 170, 242, 254, 255, 256] },
    ICDFContext { total: 256, dist_table: &[1, 2, 17, 78, 165, 226, 251, 255, 256] },
    ICDFContext { total: 256, dist_table: &[1, 8, 29, 79, 156, 237, 254, 255, 256] },
];

const SILK_LSF_INTERPOLATION_OFFSET: ICDFContext = ICDFContext { total: 256, dist_table: &[13, 35, 64, 75, 256] };

const SILK_LCG_SEED: ICDFContext = ICDFContext { total: 256, dist_table: &[64, 128, 192, 256] };

const SILK_EXC_RATE: [ICDFContext; 2] = [
    ICDFContext { total: 256, dist_table: &[15, 66, 78, 124, 169, 182, 215, 242, 256] },
    ICDFContext { total: 256, dist_table: &[33, 63, 99, 116, 150, 199, 217, 238, 256] },
];

const SILK_PULSE_COUNT: [ICDFContext; 11] = [
    ICDFContext { total: 256, dist_table: &[131, 205, 230, 238, 241, 244, 245, 246, 247, 248, 249, 250, 251, 252, 253, 254, 255, 256] },
    ICDFContext { total: 256, dist_table: &[58, 151, 211, 234, 241, 244, 245, 246, 247, 248, 249, 250, 251, 252, 253, 254, 255, 256] },
    ICDFContext { total: 256, dist_table: &[43, 94, 140, 173, 197, 213, 224, 232, 238, 241, 244, 247, 249, 250, 251, 253, 254, 256] },
    ICDFContext { total: 256, dist_table: &[17, 69, 140, 197, 228, 240, 245, 246, 247, 248, 249, 250, 251, 252, 253, 254, 255, 256] },
    ICDFContext { total: 256, dist_table: &[6, 27, 68, 121, 170, 205, 226, 237, 243, 246, 248, 250, 251, 252, 253, 254, 255, 256] },
    ICDFContext { total: 256, dist_table: &[7, 21, 43, 71, 100, 128, 153, 173, 190, 203, 214, 223, 230, 235, 239, 243, 246, 256] },
    ICDFContext { total: 256, dist_table: &[2, 7, 21, 50, 92, 138, 179, 210, 229, 240, 246, 249, 251, 252, 253, 254, 255, 256] },
    ICDFContext { total: 256, dist_table: &[1, 3, 7, 17, 36, 65, 100, 137, 171, 199, 219, 233, 241, 246, 250, 252, 254, 256] },
    ICDFContext { total: 256, dist_table: &[1, 3, 5, 10, 19, 33, 53, 77, 104, 132, 158, 181, 201, 216, 227, 235, 241, 256] },
    ICDFContext { total: 256, dist_table: &[1, 2, 3, 9, 36, 94, 150, 189, 214, 228, 238, 244, 247, 250, 252, 253, 254, 256] },
    ICDFContext { total: 256, dist_table: &[2, 3, 9, 36, 94, 150, 189, 214, 228, 238, 244, 247, 250, 252, 253, 254, 256, 256] },
];

#[test]
fn decoder() {
    let mut decoder = RangeDecoder::init(&[0x0b, 0xe4, 0xc1, 0x36, 0xec, 0xc5, 0x80]);

    assert_eq!(decoder.decode_symbol_logp(0x1), 0);
    assert_eq!(decoder.decode_symbol_logp(0x1), 0);

    assert_eq!(decoder.decode_symbol_with_icdf(SILK_FRAME_TYPE_INACTIVE), 1);

    assert_eq!(decoder.decode_symbol_with_icdf(SILK_GAIN_HIGH_BITS[0]), 0);
    assert_eq!(decoder.decode_symbol_with_icdf(SILK_GAIN_LOW_BITS), 6);

    assert_eq!(decoder.decode_symbol_with_icdf(SILK_GAIN_DELTA), 0);
    assert_eq!(decoder.decode_symbol_with_icdf(SILK_GAIN_DELTA), 3);
    assert_eq!(decoder.decode_symbol_with_icdf(SILK_GAIN_DELTA), 4);

    assert_eq!(decoder.decode_symbol_with_icdf(SILK_LSF_S1[1][0]), 9);
    assert_eq!(decoder.decode_symbol_with_icdf(SILK_LSF_S2[10]), 5);
    assert_eq!(decoder.decode_symbol_with_icdf(SILK_LSF_S2[9]), 4);

    for _i in 0..14 {
        assert_eq!(decoder.decode_symbol_with_icdf(SILK_LSF_S2[8]), 4);
    }

    assert_eq!(
        decoder.decode_symbol_with_icdf(SILK_LSF_INTERPOLATION_OFFSET),
        4
    );

    assert_eq!(decoder.decode_symbol_with_icdf(SILK_LCG_SEED), 2);

    assert_eq!(decoder.decode_symbol_with_icdf(SILK_EXC_RATE[0]), 0);

    for _i in 0..20 {
        assert_eq!(decoder.decode_symbol_with_icdf(SILK_PULSE_COUNT[0]), 0);
    }
}

#[test]
fn encodes_symbols_with_icdf_context() {
    let mut encoder = RangeEncoder::new();
    encoder.encode_symbol_with_icdf(1, SILK_FRAME_TYPE_INACTIVE);
    encoder.encode_symbol_with_icdf(2, SILK_GAIN_HIGH_BITS[1]);
    encoder.encode_symbol_with_icdf(6, SILK_GAIN_LOW_BITS);
    encoder.encode_symbol_with_icdf(0, SILK_GAIN_DELTA);

    let storage = encoder.finish();
    let mut decoder = RangeDecoder::init(&storage);

    assert_eq!(decoder.decode_symbol_with_icdf(SILK_FRAME_TYPE_INACTIVE), 1);
    assert_eq!(decoder.decode_symbol_with_icdf(SILK_GAIN_HIGH_BITS[1]), 2);
    assert_eq!(decoder.decode_symbol_with_icdf(SILK_GAIN_LOW_BITS), 6);
    assert_eq!(decoder.decode_symbol_with_icdf(SILK_GAIN_DELTA), 0);
}

#[test]
fn encode_decode_with_u8_icdf_roundtrip() {
    let mut encoder = RangeEncoder::new();
    encoder.encode_icdf(2, &SILK_UNIFORM4_ICDF, 8);
    encoder.encode_icdf(0, &SILK_UNIFORM4_ICDF, 8);

    let storage = encoder.finish();
    let mut decoder = RangeDecoder::init(&storage);

    assert_eq!(decoder.decode_icdf(&SILK_UNIFORM4_ICDF, 8), 2);
    assert_eq!(decoder.decode_icdf(&SILK_UNIFORM4_ICDF, 8), 0);
}

#[test]
fn encode_decode_with_shell_table_slice() {
    let start = usize::from(SILK_SHELL_CODE_TABLE_OFFSETS[4]);
    let end = usize::from(SILK_SHELL_CODE_TABLE_OFFSETS[5]);
    let icdf = &SILK_SHELL_CODE_TABLE0[start..end];

    let mut encoder = RangeEncoder::new();
    encoder.encode_icdf(2, icdf, 8);
    encoder.encode_icdf(1, icdf, 8);

    let storage = encoder.finish();
    let mut decoder = RangeDecoder::init(&storage);

    assert_eq!(decoder.decode_icdf(icdf, 8), 2);
    assert_eq!(decoder.decode_icdf(icdf, 8), 1);
}

#[test]
fn patch_initial_bits_round_trips_logp_flags() {
    for header_bits in 1u32..=8 {
        let value = (1u32 << header_bits).wrapping_sub(1) ^ (header_bits % 3);
        let mut encoder = RangeEncoder::new();
        let mut icdf = [0u8; 2];
        icdf[0] = (256u16 - (256u16 >> header_bits)) as u8;
        encoder.encode_icdf(0, &icdf, 8);
        encoder.patch_initial_bits(value, header_bits);

        let storage = encoder.finish();
        let mut decoder = RangeDecoder::init(&storage);
        let mut decoded = 0u32;
        for _ in 0..header_bits {
            decoded = (decoded << 1) | decoder.decode_symbol_logp(1);
        }
        let mask = (1u32 << header_bits) - 1;
        assert_eq!(decoded, value & mask);
    }
}

#[test]
fn range_final_matches_after_roundtrip_decode() {
    let mut encoder = RangeEncoder::new();
    encoder.encode_icdf(2, &SILK_UNIFORM4_ICDF, 8);
    encoder.encode_symbol_with_icdf(1, SILK_FRAME_TYPE_INACTIVE);
    encoder.encode_icdf(0, &SILK_UNIFORM4_ICDF, 8);
    let range_final = encoder.range_final();

    let storage = encoder.finish();
    let mut decoder = RangeDecoder::init(&storage);
    assert_eq!(decoder.decode_icdf(&SILK_UNIFORM4_ICDF, 8), 2);
    assert_eq!(decoder.decode_symbol_with_icdf(SILK_FRAME_TYPE_INACTIVE), 1);
    assert_eq!(decoder.decode_icdf(&SILK_UNIFORM4_ICDF, 8), 0);

    assert_eq!(decoder.range_size, range_final);
}

#[test]
fn numbers_stay_below_their_total() {
    let mut range_decoder = RangeDecoder::init(&[0xff; 4]);
    assert_eq!(range_decoder.decode_uint(257), 256);
    let mut range_decoder = RangeDecoder::init(&[0x00; 4]);
    assert_eq!(range_decoder.decode_uint(257), 0);
}

#[test]
fn reading_never_takes_bits_back() {
    let payload: Vec<u8> = (0u8..40).map(|i| i.wrapping_mul(97)).collect();
    let mut range_decoder = RangeDecoder::init(&payload);
    let mut before = range_decoder.tell();
    for _ in 0..60 {
        range_decoder.decode_icdf(&SILK_UNIFORM4_ICDF, 8);
        assert!(before <= range_decoder.tell());
        before = range_decoder.tell();
    }
}
