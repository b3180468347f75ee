//! Correlations.

use opus_codec::silk::autocorr::autocorr;
use opus_codec::silk::corr_matrix::{corr_matrix_fix, corr_vector_fix};
use opus_codec::silk::sum_sqr_shift::sum_sqr_shift;

#[test]
fn matches_reference_for_small_positive_sequence() {
    let input = [1, 2, 3, 4];
    let mut output = [0i32; 3];
    let taps = output.len();
    let mut scratch = [0i16; 4];

    let scale = autocorr(&mut output, &input, taps, 0, &mut scratch);

    assert_eq!(output, [520_093_696, 335_544_320, 184_549_376]);
    assert_eq!(scale, -24);
}

#[test]
fn matches_reference_for_high_energy_signal() {
    let input = [30_000, -20_000, 15_000, -10_000, 5_000, -2_500, 1_250, -625];
    let mut output = [0i32; 5];
    let taps = output.len();
    let mut scratch = [0i16; 8];

    let scale = autocorr(&mut output, &input, taps, 0, &mut scratch);

    assert_eq!(
        output,
        [
            414_550_781,
            -279_101_563,
            189_453_125,
            -113_281_250,
            56_250_000
        ]
    );
    assert_eq!(scale, 2);
}

#[test]
fn matches_reference_for_mixed_polarity_samples() {
    let input = [-10, -9, -8, -7, -6, -5, -4, -3, -2, -1, 0, 1, 2, 3, 4, 5];
    let mut output = [0i32; 4];
    let taps = output.len();
    let mut scratch = [0i16; 16];

    let scale = autocorr(&mut output, &input, taps, 0, &mut scratch);

    assert_eq!(output, [462_422_016, 387_973_120, 315_621_376, 245_366_784]);
    assert_eq!(scale, -20);
}

#[test]
fn corr_vector_matches_reference_without_shift() {
    let x = [5, -3, 2, 7, -1, 4];
    let t = [10, -20, 15, -5];
    let l = 4;
    let order = 3;
    let mut actual = [0i32; 3];
    corr_vector_fix(&mut actual, &x, &t, l, order, 0, 0);
    let expected = reference_corr_vector(&x, &t, l, order, 0);
    assert_eq!(actual, expected.as_slice());
}

#[test]
fn corr_vector_matches_reference_with_shift() {
    let x = [1000, -2000, 1500, -500, 200, -100, 50];
    let t = [-7, 13, -9, 5, -3];
    let l = 5;
    let order = 3;
    let mut actual = [0i32; 3];
    corr_vector_fix(&mut actual, &x, &t, l, order, 2, 0);
    let expected = reference_corr_vector(&x, &t, l, order, 2);
    assert_eq!(actual, expected.as_slice());
}

#[test]
fn corr_matrix_matches_reference_for_zero_shift() {
    let x = [3, -1, 4, -2, 5, -3, 6];
    let l = 4;
    let order = 3;
    let mut matrix = [0i32; 9];
    let (nrg, rshift) = corr_matrix_fix(&mut matrix, &x, l, order, 0);
    let (expected_nrg, expected_shift) = sum_sqr_shift(&x[..l + order - 1]);
    assert_eq!(nrg, expected_nrg);
    assert_eq!(rshift, expected_shift);
    let expected = reference_corr_matrix(&x, l, order, rshift);
    assert_eq!(matrix.as_slice(), expected.as_slice());
}

#[test]
fn corr_matrix_matches_reference_with_shift() {
    let x = [4000, -3000, 2000, -1000, 500, -250, 125, -60];
    let l = 5;
    let order = 4;
    let mut matrix = [0i32; 16];
    let (nrg, rshift) = corr_matrix_fix(&mut matrix, &x, l, order, 0);
    let (expected_nrg, expected_shift) = sum_sqr_shift(&x[..l + order - 1]);
    assert_eq!(nrg, expected_nrg);
    assert_eq!(rshift, expected_shift);
    let expected = reference_corr_matrix(&x, l, order, rshift);
    assert_eq!(matrix.as_slice(), expected.as_slice());
}

fn reference_corr_vector(x: &[i16], t: &[i16], l: usize, order: usize, shift: i32) -> Vec<i32> {
    let history = order - 1;
    let mut result = Vec::with_capacity(order);
    for lag in 0..order {
        let start = history - lag;
        let mut acc = 0i32;
        for i in 0..l {
            let product = i32::from(x[start + i]) * i32::from(t[i]);
            acc += shift_product(product, shift);
        }
        result.push(acc);
    }
    result
}

fn reference_corr_matrix(x: &[i16], l: usize, order: usize, shift: i32) -> Vec<i32> {
    let history = order - 1;
    let mut result = vec![0i32; order * order];
    for row in 0..order {
        for col in row..order {
            let row_start = history - row;
            let col_start = history - col;
            let mut acc = 0i32;
            for i in 0..l {
                let product = i32::from(x[row_start + i]) * i32::from(x[col_start + i]);
                acc += shift_product(product, shift);
            }
            result[row * order + col] = acc;
            result[col * order + row] = acc;
        }
    }
    result
}

fn shift_product(product: i32, shift: i32) -> i32 {
    if shift > 0 { product >> shift } else { product }
}

#[test]
fn correlation_with_itself_is_positive() {
    for value in [0i16, 1, -1, 100, 32_767, -32_768] {
        for n in [1usize, 7, 160, 384] {
            let input = vec![value; n];
            if value.unsigned_abs() > 10_000 && n > 160 {
                continue;
            }
            let mut output = [0i32; 2];
            let mut scratch = vec![0i16; n];
            autocorr(&mut output, &input, 1, 0, &mut scratch);
            assert!(output[0] > 0);
        }
    }
}
