//! How strong the quantisation noise may be at a target bitrate.
use crate::fixed::{div_trunc, quotient, wadd, wrap32, wsub};
use crate::silk::encoder_state::{EncoderChannelState, EncoderStateCommon};
use crate::silk::types::SilkError;
use vstd::prelude::*;

verus! {

/// Signal-to-noise ratios (Q7, divided by 21) of narrow band, one for each 400
/// bits per second.
pub const TARGET_RATE_NB_DIV21: [u8; 107] = [
    0, 15, 39, 52, 61, 68, 74, 79, 84, 88, 92, 95, 99, 102, 105, 108, 111, 114, 117, 119,
    122, 124, 126, 129, 131, 133, 135, 137, 139, 142, 143, 145, 147, 149, 151, 153, 155,
    157, 158, 160, 162, 163, 165, 167, 168, 170, 171, 173, 174, 176, 177, 179, 180, 182,
    183, 185, 186, 187, 189, 190, 192, 193, 194, 196, 197, 199, 200, 201, 203, 204, 205,
    207, 208, 209, 211, 212, 213, 215, 216, 217, 219, 220, 221, 223, 224, 225, 227, 228,
    230, 231, 232, 234, 235, 236, 238, 239, 241, 242, 243, 245, 246, 248, 249, 250, 252,
    253, 255,
];

/// The same for medium band.
pub const TARGET_RATE_MB_DIV21: [u8; 155] = [
    0, 0, 28, 43, 52, 59, 65, 70, 74, 78, 81, 85, 87, 90, 93, 95, 98, 100, 102, 105, 107,
    109, 111, 113, 115, 116, 118, 120, 122, 123, 125, 127, 128, 130, 131, 133, 134, 136,
    137, 138, 140, 141, 143, 144, 145, 147, 148, 149, 151, 152, 153, 154, 156, 157, 158,
    159, 160, 162, 163, 164, 165, 166, 167, 168, 169, 171, 172, 173, 174, 175, 176, 177,
    178, 179, 180, 181, 182, 183, 184, 185, 186, 187, 188, 188, 189, 190, 191, 192, 193,
    194, 195, 196, 197, 198, 199, 200, 201, 202, 203, 203, 204, 205, 206, 207, 208, 209,
    210, 211, 212, 213, 214, 214, 215, 216, 217, 218, 219, 220, 221, 222, 223, 224, 224,
    225, 226, 227, 228, 229, 230, 231, 232, 233, 234, 235, 236, 236, 237, 238, 239, 240,
    241, 242, 243, 244, 245, 246, 247, 248, 249, 250, 251, 252, 253, 254, 255,
];

/// The same for wide band.
pub const TARGET_RATE_WB_DIV21: [u8; 191] = [
    0, 0, 0, 8, 29, 41, 49, 56, 62, 66, 70, 74, 77, 80, 83, 86, 88, 91, 93, 95, 97, 99, 101,
    103, 105, 107, 108, 110, 112, 113, 115, 116, 118, 119, 121, 122, 123, 125, 126, 127,
    129, 130, 131, 132, 134, 135, 136, 137, 138, 140, 141, 142, 143, 144, 145, 146, 147,
    148, 149, 150, 151, 152, 153, 154, 156, 157, 158, 159, 159, 160, 161, 162, 163, 164,
    165, 166, 167, 168, 169, 170, 171, 171, 172, 173, 174, 175, 176, 177, 177, 178, 179,
    180, 181, 181, 182, 183, 184, 185, 185, 186, 187, 188, 189, 189, 190, 191, 192, 192,
    193, 194, 195, 195, 196, 197, 198, 198, 199, 200, 200, 201, 202, 203, 203, 204, 205,
    206, 206, 207, 208, 209, 209, 210, 211, 211, 212, 213, 214, 214, 215, 216, 216, 217,
    218, 219, 219, 220, 221, 221, 222, 223, 224, 224, 225, 226, 226, 227, 228, 229, 229,
    230, 231, 232, 232, 233, 234, 234, 235, 236, 237, 237, 238, 239, 240, 240, 241, 242,
    243, 243, 244, 245, 246, 246, 247, 248, 249, 249, 250, 251, 252, 253, 255,
];

/// Entry `id` of the table of a rate, the last one for all above.
pub open spec fn snr_entry(fs_khz: int, id: int) -> int {
    if fs_khz == 8 {
        TARGET_RATE_NB_DIV21[if id > 106 {
            106
        } else {
            id
        }] as int
    } else if fs_khz == 12 {
        TARGET_RATE_MB_DIV21[if id > 154 {
            154
        } else {
            id
        }] as int
    } else {
        TARGET_RATE_WB_DIV21[if id > 190 {
            190
        } else {
            id
        }] as int
    }
}

/// The signal-to-noise ratio (Q7) of a target bitrate. A frame of two
/// subframes spends some of it on its side information.
pub open spec fn snr_of(fs_khz: int, nb_subfr: int, target_rate_bps: int) -> int {
    let rate = if nb_subfr == 2 {
        wrap32(target_rate_bps - (2000 + div_trunc(fs_khz, 16)))
    } else {
        target_rate_bps
    };
    let id = div_trunc(wrap32(rate + 200), 400) - 10;
    if id <= 0 {
        0
    } else {
        21 * snr_entry(fs_khz, id)
    }
}

/// Sets the target bitrate of a channel, and the signal-to-noise ratio that it
/// allows.
pub fn control_snr(channel: &mut EncoderChannelState, target_rate_bps: i32) -> (r: Result<
    (),
    SilkError,
>)
    ensures
        r == Ok::<(), SilkError>(()),
        *final(channel) == (EncoderChannelState {
            common: final(channel).common,
            ..*old(channel)
        }),
        final(channel).common == (EncoderStateCommon {
            target_rate_bps,
            snr_db_q7: final(channel).common.snr_db_q7,
            ..old(channel).common
        }),
        final(channel).common.snr_db_q7 == snr_of(
            old(channel).common.fs_khz as int,
            old(channel).common.nb_subfr as int,
            target_rate_bps as int,
        ),
{
    let fs_khz: i32 = channel.common.fs_khz;
    let rate: i32 = if channel.common.nb_subfr == 2 {
        wsub(target_rate_bps, 2000 + quotient(fs_khz, 16))
    } else {
        target_rate_bps
    };
    let steps: i32 = quotient(wadd(rate, 200), 400);
    proof {
        lemma_steps(wrap32(rate + 200));
    }
    let id: i32 = steps - 10;
    let snr_db_q7: i32 = if id <= 0 {
        0
    } else if fs_khz == 8 {
        let at: usize = if id > 106 {
            106
        } else {
            id as usize
        };
        TARGET_RATE_NB_DIV21[at] as i32 * 21
    } else if fs_khz == 12 {
        let at: usize = if id > 154 {
            154
        } else {
            id as usize
        };
        TARGET_RATE_MB_DIV21[at] as i32 * 21
    } else {
        let at: usize = if id > 190 {
            190
        } else {
            id as usize
        };
        TARGET_RATE_WB_DIV21[at] as i32 * 21
    };
    channel.common.target_rate_bps = target_rate_bps;
    channel.common.snr_db_q7 = snr_db_q7;
    Ok(())
}

proof fn lemma_steps(v: int)
    requires
        -0x8000_0000 <= v <= 0x7fff_ffff,
    ensures
        -6000000 <= div_trunc(v, 400) <= 6000000,
{
}

/// The bitrate that a frame spends on its side information.
pub open spec fn side_cost(fs_khz: int, nb_subfr: int) -> int {
    if nb_subfr == 2 {
        2000 + div_trunc(fs_khz, 16)
    } else {
        0
    }
}

/// A higher bitrate never asks for a lower signal-to-noise ratio, as long as it
/// does not wrap round; a ratio is that of an entry of a table, or none.
pub proof fn law_snr_grows_with_rate(fs_khz: int, nb_subfr: int, a: int, b: int)
    requires
        i32::MIN <= fs_khz <= i32::MAX,
        0 <= a <= b <= i32::MAX,
        b - side_cost(fs_khz, nb_subfr) + 200 <= i32::MAX,
    ensures
        0 <= snr_of(fs_khz, nb_subfr, a) <= snr_of(fs_khz, nb_subfr, b) <= 255 * 21,
{
    let drop = side_cost(fs_khz, nb_subfr);
    crate::fixed::lemma_wrap32_range(a - drop);
    crate::fixed::lemma_wrap32_range(b - drop);
    crate::fixed::lemma_wrap32_range(a - drop + 200);
    crate::fixed::lemma_wrap32_range(b - drop + 200);
    let ia = div_trunc(a - drop + 200, 400) - 10;
    let ib = div_trunc(b - drop + 200, 400) - 10;
    assert(ia <= ib);
    if ia > 0 {
        lemma_entries_grow(fs_khz, ia, ib);
    }
}

proof fn lemma_entries_grow(fs_khz: int, a: int, b: int)
    requires
        0 <= a <= b,
    ensures
        0 <= snr_entry(fs_khz, a) <= snr_entry(fs_khz, b) <= 255,
    decreases b - a,
{
    if a < b {
        lemma_entries_grow(fs_khz, a, b - 1);
        lemma_entry_step(fs_khz, b - 1);
    }
}

proof fn lemma_entry_step(fs_khz: int, k: int)
    requires
        0 <= k,
    ensures
        snr_entry(fs_khz, k) <= snr_entry(fs_khz, k + 1),
{
    if fs_khz == 8 {
        if k < 106 {
            lemma_narrow_step(k);
        }
    } else if fs_khz == 12 {
        if k < 154 {
            lemma_medium_step(k);
        }
    } else if k < 190 {
        lemma_wide_step(k);
    }
}

proof fn lemma_narrow_step(k: int)
    requires
        0 <= k < 106,
    ensures
        TARGET_RATE_NB_DIV21[k] <= TARGET_RATE_NB_DIV21[k + 1],
{
}

proof fn lemma_medium_step(k: int)
    requires
        0 <= k < 154,
    ensures
        TARGET_RATE_MB_DIV21[k] <= TARGET_RATE_MB_DIV21[k + 1],
{
}

proof fn lemma_wide_step(k: int)
    requires
        0 <= k < 190,
    ensures
        TARGET_RATE_WB_DIV21[k] <= TARGET_RATE_WB_DIV21[k + 1],
{
}

} // verus!
