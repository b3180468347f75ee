//! Pitch contour codebooks.

use vstd::prelude::*;

verus! {

/// Lag offsets of the subframes of a 20 ms narrow-band frame.
pub const SILK_CB_LAGS_STAGE2: [[i8; 11]; 4] = [
    [
        0, 2, -1, -1, -1, 0, 0, 1, 1, 0, 1,
    ],
    [
        0, 1, 0, 0, 0, 0, 0, 1, 0, 0, 0,
    ],
    [
        0, 0, 1, 0, 0, 0, 1, 0, 0, 0, 0,
    ],
    [
        0, -1, 2, 1, 0, 1, 1, 0, 0, -1, -1,
    ],
];

/// Lag offsets of the subframes of a 20 ms frame.
pub const SILK_CB_LAGS_STAGE3: [[i8; 34]; 4] = [
    [
        0, 0, 1, -1, 0, 1, -1, 0, -1, 1, -2, 2, -2, -2, 2, -3, 2, 3, -3, -4, 3, -4, 4, 4, -5, 5,
        -6, -5, 6, -7, 6, 5, 8, -9,
    ],
    [
        0, 0, 1, 0, 0, 0, 0, 0, 0, 0, -1, 1, 0, 0, 1, -1, 0, 1, -1, -1, 1, -1, 2, 1, -1, 2, -2, -2,
        2, -2, 2, 2, 3, -3,
    ],
    [
        0, 1, 0, 0, 0, 0, 0, 0, 1, 0, 1, 0, 0, 1, -1, 1, 0, 0, 2, 1, -1, 2, -1, -1, 2, -1, 2, 2,
        -1, 3, -2, -2, -2, 3,
    ],
    [
        0, 1, 0, 0, 1, 0, 1, -1, 2, -1, 2, -1, 2, 3, -2, 3, -2, -2, 4, 4, -3, 5, -3, -4, 6, -4, 6,
        5, -5, 8, -6, -5, -7, 9,
    ],
];

/// Lag offsets of the subframes of a 10 ms narrow-band frame.
pub const SILK_CB_LAGS_STAGE2_10_MS: [[i8; 3]; 2] = [
    [
        0, 1, 0,
    ],
    [
        0, 0, 1,
    ],
];

/// Lag offsets of the subframes of a 10 ms frame.
pub const SILK_CB_LAGS_STAGE3_10_MS: [[i8; 12]; 2] = [
    [
        0, 0, 1, -1, 1, -1, 2, -2, 2, -2, 3, -3,
    ],
    [
        0, 1, 0, 1, -1, 2, -1, 2, -2, 3, -2, 3,
    ],
];

/// Subframes of a 20 ms frame.
pub const PE_MAX_NB_SUBFR: usize = 4;

/// Smallest lag in milliseconds.
pub const PE_MIN_LAG_MS: usize = 2;

/// Largest lag in milliseconds.
pub const PE_MAX_LAG_MS: usize = 18;

/// Contours of a 20 ms narrow-band frame.
pub const PE_NB_CBKS_STAGE2_EXT: usize = 11;

/// Contours of a 10 ms narrow-band frame.
pub const PE_NB_CBKS_STAGE2_10_MS: usize = 3;

/// Contours of a 20 ms frame.
pub const PE_NB_CBKS_STAGE3_MAX: usize = 34;

/// Contours of a 10 ms frame.
pub const PE_NB_CBKS_STAGE3_10_MS: usize = 12;

} // verus!
