//! Shapes and weights of networks.

use opus_codec::network_plan::{
    output_arrays, pitch_shapes, pitch_window, weight_arrays, ArrayRequest, LayerNames,
    PitchArrays,
};
use opus_codec::weights::{
    conv2d_weight_size, gru_units, linear_layer_sizes, numbers_of_bytes, sparse_block_count,
    validate_sparse_idx, WeightError,
};

#[test]
fn blocks_are_listed_in_groups_of_eight_outputs() {
    // Two groups: blocks at 0 and 4, and a block at 8.
    let idx = [2, 0, 4, 1, 8];
    assert_eq!(sparse_block_count(&idx, 12, 16), 3);
    assert_eq!(validate_sparse_idx(&idx, 12, 16, "idx"), Ok(3));
    assert_eq!(validate_sparse_idx(&idx, 12, 8, "idx"), Err(WeightError::InvalidIndex("idx")));
    assert_eq!(validate_sparse_idx(&idx, 11, 16, "idx"), Err(WeightError::InvalidIndex("idx")));
    assert_eq!(sparse_block_count(&[1, 2], 12, 8), 0);
    assert_eq!(sparse_block_count(&[3, 0], 12, 8), 0);
}

#[test]
fn bytes_are_little_endian_numbers() {
    assert_eq!(numbers_of_bytes(&[1, 0, 0, 0, 255, 255, 255, 255]), Ok(vec![1, -1]));
    assert_eq!(numbers_of_bytes(&[0, 0, 0, 128]), Ok(vec![i32::MIN]));
    assert_eq!(numbers_of_bytes(&[1, 2, 3]), Err(WeightError::InvalidBlob));
}

#[test]
fn layer_sizes_in_bytes() {
    let dense = linear_layer_sizes(10, 6, None).unwrap();
    assert_eq!((dense.per_output, dense.weights, dense.float_weights), (24, 60, 240));
    let sparse = linear_layer_sizes(10, 8, Some(3)).unwrap();
    assert_eq!((sparse.weights, sparse.float_weights), (96, 384));
    assert_eq!(linear_layer_sizes(usize::MAX, 2, None), Err(WeightError::InvalidBlob));
    assert_eq!(conv2d_weight_size(2, 3, 3, 3), Ok(216));
    assert_eq!(conv2d_weight_size(usize::MAX, 3, 3, 3), Err(WeightError::InvalidBlob));
    assert_eq!(gru_units(192), Ok(64));
    assert_eq!(gru_units(191), Err(WeightError::InvalidBlob));
}

#[test]
fn arrays_of_a_layer_in_order() {
    let names = LayerNames {
        bias: Some("bias"),
        subias: None,
        weights: Some("weights"),
        float_weights: Some("floats"),
        weights_idx: None,
        diag: Some("diag"),
        scale: Some("scale"),
    };
    let request = |name, size, optional| ArrayRequest { name, size, optional };
    assert_eq!(output_arrays(&names, 6), [request("bias", 24, false), request("diag", 24, false)]);
    let (arrays, fault) = weight_arrays(&names, 10, 6, None);
    assert_eq!(
        arrays,
        [
            request("weights", 60, false),
            request("floats", 240, true),
            request("scale", 24, false),
        ]
    );
    assert_eq!(fault, None);
    let (arrays, fault) = weight_arrays(&names, usize::MAX / 6, 6, None);
    assert_eq!(arrays.len(), 1);
    assert_eq!(fault, Some(WeightError::InvalidBlob));
    let floats = LayerNames { weights: None, ..names };
    assert_eq!(weight_arrays(&floats, 10, 6, None).0, [request("floats", 240, true)]);
}

#[test]
fn shapes_follow_from_array_sizes() {
    let arrays = PitchArrays {
        dense_if_upsampler_1_bias: 64,
        dense_if_upsampler_1_weights: 64 * 88,
        dense_if_upsampler_2_bias: 64,
        dense_if_upsampler_2_weights: 64 * 64,
        dense_downsampler_bias: 64,
        dense_downsampler_weights: 64 * 288,
        dense_final_upsampler_bias: 192,
        dense_final_upsampler_weights: 192 * 64,
        gru_1_input_bias: 192,
        gru_1_recurrent_bias: 192,
        conv2d_1_bias: 4,
        conv2d_1_weights: 36,
        conv2d_2_bias: 1,
        conv2d_2_weights: 36,
    };
    let shapes = pitch_shapes(&arrays);
    assert_eq!(shapes.dense_if_upsampler_1.nb_inputs, 88);
    assert_eq!(shapes.dense_downsampler.nb_inputs, 288);
    assert_eq!(shapes.gru_1_recurrent.nb_inputs, 64);
    assert_eq!(shapes.conv2d_1.in_channels, 1);
    assert_eq!(shapes.conv2d_2.in_channels, 4);
}

#[test]
fn pitch_is_averaged_over_five_bins() {
    assert_eq!(pitch_window(90, 180), (88, 92));
    assert_eq!(pitch_window(0, 180), (0, 2));
    assert_eq!(pitch_window(179, 180), (177, 179));
}
