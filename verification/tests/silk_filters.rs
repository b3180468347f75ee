//! Filters and predictors.

use opus_codec::silk::a2nlsf::{a2nlsf, SILK_MAX_ORDER_LPC};
use opus_codec::silk::ana_filt_bank_1::ana_filt_bank_1;
use opus_codec::silk::apply_sine_window::apply_sine_window;
use opus_codec::silk::biquad_alt::{biquad_alt_stride1, biquad_alt_stride1_inplace, biquad_alt_stride2};
use opus_codec::silk::burg_modified::silk_burg_modified;

#[test]
fn matches_reference_output_for_known_lpc() {
    let order = 16;
    let mut a_q16 = [0i32; SILK_MAX_ORDER_LPC];
    a_q16[..order].copy_from_slice(&[
        15520, 2208, 4400, 8720, -1360, 13632, 1152, 7184, -1312, -6496, -15904, 3872, 11968,
        -10720, 8272, -7616,
    ]);

    let mut output = [0i16; SILK_MAX_ORDER_LPC];
    a2nlsf(&mut output[..order], &mut a_q16[..order]);

    let expected = [
        1496, 2925, 5334, 8052, 9524, 10640, 13688, 15291, 16759, 19462, 21048, 22212, 25217,
        26443, 29500, 31037,
    ];

    assert_eq!(&output[..order], &expected);
}

#[test]
fn splits_constant_signal() {
    let mut state = [0i32; 2];
    let input = [1i16; 8];
    let mut low = [0i16; 4];
    let mut high = [0i16; 4];
    ana_filt_bank_1(&mut state, &mut low, &mut high, &input);
    assert_eq!(low, [0, 1, 1, 1]);
    assert_eq!(high, [0, 0, 0, 0]);
    assert_eq!(state, [863, 1_023]);
}

#[test]
fn matches_reference_values() {
    let mut state = [12_345, -54_321];
    let input = [
        25_340, -4_753, 19_673, 28_343, -2_438, -27_347, -13_032, 3_506, 1_845, -3_463, 21_367,
        24_385,
    ];
    let mut low = [0i16; 6];
    let mut high = [0i16; 6];
    ana_filt_bank_1(&mut state, &mut low, &mut high, &input);
    assert_eq!(low, [7_563, 13_865, 12_275, -20_892, 1_549, 8_803]);
    assert_eq!(high, [-8_390, -13_816, 11_558, -9_801, 6_439, -9_567]);
    assert_eq!(state, [27_090_108, 30_044_726]);
}

#[test]
fn rising_window_matches_reference_sequence() {
    let input: Vec<i16> = (0..16).map(|i| (i as i32 * 100) as i16).collect();
    let mut output = vec![0i16; input.len()];

    apply_sine_window(&mut output, &input, 1);

    assert_eq!(
        output,
        [
            0, 18, 54, 109, 178, 264, 362, 474, 591, 722, 851, 989, 1119, 1256, 1376, 1500
        ]
    );
}

#[test]
fn falling_window_matches_reference_sequence() {
    let input: Vec<i16> = (0..16).map(|i| (1000 - i as i32 * 50) as i16).collect();
    let mut output = vec![0i16; input.len()];

    apply_sine_window(&mut output, &input, 2);

    assert_eq!(
        output,
        [
            991, 933, 861, 792, 712, 637, 555, 479, 401, 330, 261, 199, 143, 95, 54, 22
        ]
    );
}

#[test]
fn longer_window_handles_negative_samples() {
    let length = 32usize;
    let input: Vec<i16> = (0..length)
        .map(|i| ((i as i32 % 8) - 4) * 200)
        .map(|v| v as i16)
        .collect();
    let mut output = vec![0i16; length];

    apply_sine_window(&mut output, &input, 1);

    assert_eq!(
        output,
        [
            -39, -58, -57, -38, 0, 56, 130, 223, -333, -276, -201, -109, 0, 123, 262, 414,
            -580, -455, -315, -164, 0, 173, 355, 546, -744, -569, -385, -195, 0, 198, 398, 600
        ]
    );
}

#[test]
fn stride1_matches_reference_sequence() {
    let mut state = [123_456, -654_321];
    let b = [1_145_324_612, -229_064_922, 1_145_324_612];
    let a = [-1_010_580_540, 505_290_270];
    let input = [1234, -2345, 3456, -4567, 5678, -6789];
    let mut output = [0i16; 6];

    biquad_alt_stride1(&input, &b, &a, &mut state, &mut output);

    assert_eq!(output, [5296, -12_464, 14_977, -12_502, 17_619, -32_768]);
    assert_eq!(state, [19_797_224, 142_793_818]);
}

#[test]
fn stride2_matches_reference_sequence() {
    let mut state = [2_345_678, -3_456_789, 4_567_890, -5_678_901];
    let b = [1_145_324_612, -229_064_922, 1_145_324_612];
    let a = [-1_010_580_540, 505_290_270];
    let input = [1357, -2468, 3579, -4680, 5791, -6802, 7913, -8024];
    let mut output = [0i16; 8];

    biquad_alt_stride2(&input, &b, &a, &mut state, &mut output);

    assert_eq!(
        output,
        [
            6363, -9414, 11_772, -17_033, 12_698, -13_828, 18_946, -13_083
        ]
    );
    assert_eq!(state, [-42_612_823, -7_780_131, 28_399_995, -39_356_343]);
}

#[test]
fn identity_coefficients_copy_input() {
    let mut state = [0; 2];
    let b = [1 << 28, 0, 0];
    let a = [0, 0];
    let input = [100, -200, 300, -400];
    let mut output = [0i16; 4];

    biquad_alt_stride1(&input, &b, &a, &mut state, &mut output);
    assert_eq!(output, input);
    assert_eq!(state, [0, 0]);
}

#[test]
fn inplace_matches_out_of_place_processing() {
    let b = [1_145_324_612, -229_064_922, 1_145_324_612];
    let a = [-1_010_580_540, 505_290_270];
    let input = [1234, -2345, 3456, -4567, 5678, -6789];

    let mut state_out = [123_456, -654_321];
    let mut state_inplace = state_out;

    let mut output = [0i16; 6];
    let mut inplace_buffer = input;

    biquad_alt_stride1(&input, &b, &a, &mut state_out, &mut output);
    biquad_alt_stride1_inplace(&mut inplace_buffer, &b, &a, &mut state_inplace);

    assert_eq!(inplace_buffer, output);
    assert_eq!(state_inplace, state_out);
}

#[test]
fn zero_input_yields_zero_lpc() {
    let mut res_nrg = 0;
    let mut res_nrg_q = 0;
    let mut coeffs = [0i32; 16];
    let input = [0i16; 384];
    silk_burg_modified(
        &mut res_nrg,
        &mut res_nrg_q,
        &mut coeffs,
        &input,
        1 << 16,
        20,
        4,
        16,
        0,
    );
    assert!(coeffs.iter().all(|&c| c == 0));
    assert_eq!(res_nrg, 0);
}

#[test]
fn no_order_needs_no_input() {
    let mut res_nrg = 5;
    let mut res_nrg_q = 6;
    silk_burg_modified(&mut res_nrg, &mut res_nrg_q, &mut [], &[], -1, 1_000_000, 9, 0, 0);
    assert_eq!((res_nrg, res_nrg_q), (0, 0));
}
