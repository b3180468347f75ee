//! Pitch lags from a lag index and a contour.

use crate::fixed::{clamp32, clamped};
use crate::silk::pitch_est_tables::{
    PE_MAX_LAG_MS, PE_MAX_NB_SUBFR, PE_MIN_LAG_MS, PE_NB_CBKS_STAGE2_10_MS, PE_NB_CBKS_STAGE2_EXT,
    PE_NB_CBKS_STAGE3_10_MS, PE_NB_CBKS_STAGE3_MAX, SILK_CB_LAGS_STAGE2, SILK_CB_LAGS_STAGE2_10_MS,
    SILK_CB_LAGS_STAGE3, SILK_CB_LAGS_STAGE3_10_MS,
};
use vstd::prelude::*;

verus! {

/// A sample rate in kHz and a number of subframes that have contours.
pub open spec fn pitch_format_ok(fs_khz: int, nb_subfr: int) -> bool {
    &&& fs_khz == 8 || fs_khz == 12 || fs_khz == 16
    &&& nb_subfr == 2 || nb_subfr == 4
}

/// Number of contours.
pub open spec fn contour_count(fs_khz: int, nb_subfr: int) -> int {
    if fs_khz == 8 {
        if nb_subfr == 4 {
            PE_NB_CBKS_STAGE2_EXT as int
        } else {
            PE_NB_CBKS_STAGE2_10_MS as int
        }
    } else if nb_subfr == 4 {
        PE_NB_CBKS_STAGE3_MAX as int
    } else {
        PE_NB_CBKS_STAGE3_10_MS as int
    }
}

/// Offset of a contour in a subframe.
pub open spec fn contour_offset(fs_khz: int, nb_subfr: int, subframe: int, contour: int) -> int {
    if fs_khz == 8 {
        if nb_subfr == 4 {
            SILK_CB_LAGS_STAGE2[subframe][contour] as int
        } else {
            SILK_CB_LAGS_STAGE2_10_MS[subframe][contour] as int
        }
    } else if nb_subfr == 4 {
        SILK_CB_LAGS_STAGE3[subframe][contour] as int
    } else {
        SILK_CB_LAGS_STAGE3_10_MS[subframe][contour] as int
    }
}

/// The lag of a subframe: 2 ms, the index and the contour's offset, limited to
/// 2 to 18 ms.
pub open spec fn pitch_lag(
    lag_index: int,
    contour: int,
    fs_khz: int,
    nb_subfr: int,
    subframe: int,
) -> int {
    clamped(
        2 * fs_khz + lag_index + contour_offset(fs_khz, nb_subfr, subframe, contour),
        2 * fs_khz,
        18 * fs_khz,
    )
}

fn codebook_entry(fs_khz: i32, nb_subfr: usize, subframe: usize, contour: usize) -> (r: i32)
    requires
        pitch_format_ok(fs_khz as int, nb_subfr as int),
        subframe < nb_subfr,
        contour < contour_count(fs_khz as int, nb_subfr as int),
    ensures
        r == contour_offset(fs_khz as int, nb_subfr as int, subframe as int, contour as int),
        -128 <= r <= 127,
{
    if fs_khz == 8 {
        if nb_subfr == PE_MAX_NB_SUBFR {
            SILK_CB_LAGS_STAGE2[subframe][contour] as i32
        } else {
            SILK_CB_LAGS_STAGE2_10_MS[subframe][contour] as i32
        }
    } else if nb_subfr == PE_MAX_NB_SUBFR {
        SILK_CB_LAGS_STAGE3[subframe][contour] as i32
    } else {
        SILK_CB_LAGS_STAGE3_10_MS[subframe][contour] as i32
    }
}

/// Decodes the lags of the subframes; slots behind them are zero.
pub fn silk_decode_pitch(
    lag_index: i16,
    contour_index: i8,
    pitch_lags: &mut [i32],
    fs_khz: i32,
    nb_subfr: usize,
)
    requires
        old(pitch_lags)@.len() >= nb_subfr,
        pitch_format_ok(fs_khz as int, nb_subfr as int),
        0 <= contour_index < contour_count(fs_khz as int, nb_subfr as int),
    ensures
        final(pitch_lags)@.len() == old(pitch_lags)@.len(),
        forall|k: int|
            0 <= k < old(pitch_lags)@.len() ==> #[trigger] final(pitch_lags)@[k] == if k
                < nb_subfr {
                pitch_lag(
                    lag_index as int,
                    contour_index as int,
                    fs_khz as int,
                    nb_subfr as int,
                    k,
                )
            } else {
                0
            },
{
    let n: usize = pitch_lags.len();
    let contour: usize = contour_index as usize;
    let min_lag: i32 = PE_MIN_LAG_MS as i32 * fs_khz;
    let max_lag: i32 = PE_MAX_LAG_MS as i32 * fs_khz;
    let base: i32 = min_lag + lag_index as i32;
    for k in 0..n
        invariant
            n == pitch_lags@.len() == old(pitch_lags)@.len(),
            n >= nb_subfr,
            pitch_format_ok(fs_khz as int, nb_subfr as int),
            contour == contour_index,
            contour < contour_count(fs_khz as int, nb_subfr as int),
            min_lag == 2 * fs_khz,
            max_lag == 18 * fs_khz,
            base == min_lag + lag_index,
            forall|j: int|
                0 <= j < k ==> #[trigger] pitch_lags@[j] == if j < nb_subfr {
                    pitch_lag(
                        lag_index as int,
                        contour_index as int,
                        fs_khz as int,
                        nb_subfr as int,
                        j,
                    )
                } else {
                    0
                },
    {
        pitch_lags[k] = if k < nb_subfr {
            clamp32(base + codebook_entry(fs_khz, nb_subfr, k, contour), min_lag, max_lag)
        } else {
            0
        };
    }
}

/// Every decoded lag lies between 2 and 18 ms.
pub proof fn law_lag_range(lag_index: int, contour: int, fs_khz: int, nb_subfr: int, subframe: int)
    requires
        fs_khz >= 0,
    ensures
        2 * fs_khz <= pitch_lag(lag_index, contour, fs_khz, nb_subfr, subframe) <= 18 * fs_khz,
{
}

} // verus!
