//! Small tables of the speech layer.

use vstd::prelude::*;

verus! {

/// Scale factors of the long-term predictor state (Q14).
pub const SILK_LTPSCALES_TABLE_Q14: [i16; 3] = [
    15565, 12288, 8192,
];

/// Equally likely symbols.
pub const SILK_UNIFORM3_ICDF: [u8; 3] = [
    171, 85, 0,
];

/// Equally likely symbols.
pub const SILK_UNIFORM4_ICDF: [u8; 4] = [
    192, 128, 64, 0,
];

/// Equally likely symbols.
pub const SILK_UNIFORM5_ICDF: [u8; 5] = [
    205, 154, 102, 51, 0,
];

/// Equally likely symbols.
pub const SILK_UNIFORM6_ICDF: [u8; 6] = [
    213, 171, 128, 85, 43, 0,
];

/// Equally likely symbols.
pub const SILK_UNIFORM8_ICDF: [u8; 8] = [
    224, 192, 160, 128, 96, 64, 32, 0,
];

/// Index of the predictor state scale.
pub const SILK_LTPSCALE_ICDF: [u8; 3] = [
    128, 64, 0,
];

/// Signal and offset type of an active frame.
pub const SILK_TYPE_OFFSET_VAD_ICDF: [u8; 4] = [
    232, 158, 10, 0,
];

/// Offset type of an inactive frame.
pub const SILK_TYPE_OFFSET_NO_VAD_ICDF: [u8; 2] = [
    230, 0,
];

/// Interpolation factor of the line spectral frequencies.
pub const SILK_NLSF_INTERPOLATION_FACTOR_ICDF: [u8; 5] = [
    243, 221, 192, 181, 0,
];

/// Amplitudes beyond the quantiser range.
pub const SILK_NLSF_EXT_ICDF: [u8; 7] = [
    100, 40, 16, 7, 3, 1, 0,
];

/// Redundancy flags of two frames.
pub const SILK_LBRR_FLAGS_2_ICDF: [u8; 3] = [
    203, 150, 0,
];

/// Redundancy flags of three frames.
pub const SILK_LBRR_FLAGS_3_ICDF: [u8; 7] = [
    215, 195, 166, 125, 110, 82, 0,
];

/// Least significant bits of pulses.
pub const SILK_LSB_ICDF: [u8; 2] = [
    120, 0,
];

/// Quantisation offsets (Q10), by voicing and offset type.
pub const SILK_QUANTIZATION_OFFSETS_Q10: [[i16; 2]; 2] = [
    [
        100, 240,
    ],
    [
        32, 100,
    ],
];

} // verus!
