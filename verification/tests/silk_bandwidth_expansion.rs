//! Bandwidth expansion.

use opus_codec::silk::bwexpander::bwexpander;
use opus_codec::silk::bwexpander_32::bwexpander_32;

fn q16_from_ratio(numerator: i32, denominator: i32) -> i32 {
    ((numerator * 65_536) + (denominator / 2)) / denominator
}

#[test]
fn matches_reference_case_for_point_nine_chirp() {
    let chirp_q16 = q16_from_ratio(9, 10);
    let mut ar = [8192, -4096, 2048, -1024];

    bwexpander(&mut ar, chirp_q16);

    assert_eq!(ar, [7373, -3318, 1493, -672]);
}

#[test]
fn matches_reference_case_for_half_chirp() {
    let chirp_q16 = q16_from_ratio(1, 2);
    let mut ar = [1000, -1000];

    bwexpander(&mut ar, chirp_q16);

    assert_eq!(ar, [500, -250]);
}

#[test]
fn bwexpander_handles_empty_input() {
    let mut ar: [i16; 0] = [];
    bwexpander(&mut ar, 0);
}

#[test]
fn leaves_coefficients_unchanged_for_unity_chirp() {
    let mut ar = [123_456_789, -98_765_432];
    bwexpander_32(&mut ar, 1 << 16);
    assert_eq!(ar, [123_456_789, -98_765_432]);
}

#[test]
fn attenuates_coefficients_for_point_nine_chirp() {
    let chirp_q16 = q16_from_ratio(9, 10);
    let mut ar = [32_000_000, -16_000_000, 8_000_000, -4_000_000];

    bwexpander_32(&mut ar, chirp_q16);

    assert_eq!(ar, [28_799_804, -12_959_717, 5_831_787, -2_624_268]);
}

#[test]
fn bwexpander_32_handles_empty_input() {
    let mut ar: [i32; 0] = [];
    bwexpander_32(&mut ar, 0);
}
