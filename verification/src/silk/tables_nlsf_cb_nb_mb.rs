//! Codebook of line spectral frequencies for narrow and medium band.

use crate::silk::nlsf_cb::SilkNlsfCb;
use vstd::prelude::*;

verus! {

/// First-stage vectors (Q8).
pub const NB_MB_CB1_Q8: [u8; 320] = [
    12, 35, 60, 83, 108, 132, 157, 180, 206, 228, 15, 32, 55, 77, 101, 125, 151, 175, 201, 225, 19,
    42, 66, 89, 114, 137, 162, 184, 209, 230, 12, 25, 50, 72, 97, 120, 147, 172, 200, 223, 26, 44,
    69, 90, 114, 135, 159, 180, 205, 225, 13, 22, 53, 80, 106, 130, 156, 180, 205, 228, 15, 25, 44,
    64, 90, 115, 142, 168, 196, 222, 19, 24, 62, 82, 100, 120, 145, 168, 190, 214, 22, 31, 50, 79,
    103, 120, 151, 170, 203, 227, 21, 29, 45, 65, 106, 124, 150, 171, 196, 224, 30, 49, 75, 97,
    121, 142, 165, 186, 209, 229, 19, 25, 52, 70, 93, 116, 143, 166, 192, 219, 26, 34, 62, 75, 97,
    118, 145, 167, 194, 217, 25, 33, 56, 70, 91, 113, 143, 165, 196, 223, 21, 34, 51, 72, 97, 117,
    145, 171, 196, 222, 20, 29, 50, 67, 90, 117, 144, 168, 197, 221, 22, 31, 48, 66, 95, 117, 146,
    168, 196, 222, 24, 33, 51, 77, 116, 134, 158, 180, 200, 224, 21, 28, 70, 87, 106, 124, 149,
    170, 194, 217, 26, 33, 53, 64, 83, 117, 152, 173, 204, 225, 27, 34, 65, 95, 108, 129, 155, 174,
    210, 225, 20, 26, 72, 99, 113, 131, 154, 176, 200, 219, 34, 43, 61, 78, 93, 114, 155, 177, 205,
    229, 23, 29, 54, 97, 124, 138, 163, 179, 209, 229, 30, 38, 56, 89, 118, 129, 158, 178, 200,
    231, 21, 29, 49, 63, 85, 111, 142, 163, 193, 222, 27, 48, 77, 103, 133, 158, 179, 196, 215,
    232, 29, 47, 74, 99, 124, 151, 176, 198, 220, 237, 33, 42, 61, 76, 93, 121, 155, 174, 207, 225,
    29, 53, 87, 112, 136, 154, 170, 188, 208, 227, 24, 30, 52, 84, 131, 150, 166, 186, 203, 229,
    37, 48, 64, 84, 104, 118, 156, 177, 201, 230,
];

/// First-stage index, unvoiced then voiced.
pub const NB_MB_CB1_ICDF: [u8; 64] = [
    212, 178, 148, 129, 108, 96, 85, 82, 79, 77, 61, 59, 57, 56, 51, 49, 48, 45, 42, 41, 40, 38,
    36, 34, 31, 30, 21, 12, 10, 3, 1, 0, 255, 245, 244, 236, 233, 225, 217, 203, 190, 176, 175,
    161, 149, 136, 125, 114, 102, 91, 81, 71, 60, 52, 43, 35, 28, 20, 19, 18, 12, 11, 5, 0,
];

/// Second-stage tables and prediction weights, two coefficients a byte.
pub const NB_MB_EC_SEL: [u8; 160] = [
    16, 0, 0, 0, 0, 99, 66, 36, 36, 34, 36, 34, 34, 34, 34, 83, 69, 36, 52, 34, 116, 102, 70, 68,
    68, 176, 102, 68, 68, 34, 65, 85, 68, 84, 36, 116, 141, 152, 139, 170, 132, 187, 184, 216, 137,
    132, 249, 168, 185, 139, 104, 102, 100, 68, 68, 178, 218, 185, 185, 170, 244, 216, 187, 187,
    170, 244, 187, 187, 219, 138, 103, 155, 184, 185, 137, 116, 183, 155, 152, 136, 132, 217, 184,
    184, 170, 164, 217, 171, 155, 139, 244, 169, 184, 185, 170, 164, 216, 223, 218, 138, 214, 143,
    188, 218, 168, 244, 141, 136, 155, 170, 168, 138, 220, 219, 139, 164, 219, 202, 216, 137, 168,
    186, 246, 185, 139, 116, 185, 219, 185, 138, 100, 100, 134, 100, 102, 34, 68, 68, 100, 68, 168,
    203, 221, 218, 168, 167, 154, 136, 104, 70, 164, 246, 171, 137, 139, 137, 155, 218, 219, 139,
];

/// Second-stage symbols, eight tables of nine.
pub const NB_MB_EC_ICDF: [u8; 72] = [
    255, 254, 253, 238, 14, 3, 2, 1, 0, 255, 254, 252, 218, 35, 3, 2, 1, 0, 255, 254, 250, 208, 59,
    4, 2, 1, 0, 255, 254, 246, 194, 71, 10, 2, 1, 0, 255, 252, 236, 183, 82, 8, 2, 1, 0, 255, 252,
    235, 180, 90, 17, 2, 1, 0, 255, 248, 224, 171, 97, 30, 4, 1, 0, 255, 254, 236, 173, 95, 37, 7,
    1, 0,
];

/// Two sets of prediction weights (Q8).
pub const NB_MB_PRED_Q8: [u8; 18] = [
    179, 138, 140, 148, 151, 149, 153, 151, 163, 116, 67, 82, 59, 92, 72, 100, 89, 92,
];

/// Smallest spacing of the frequencies (Q15).
pub const NB_MB_DELTA_MIN_Q15: [i16; 11] = [
    250, 3, 6, 3, 3, 3, 4, 3, 3, 3, 461,
];

/// The codebook.
pub fn silk_nlsf_cb_nb_mb() -> (cb: SilkNlsfCb)
    ensures
        cb.n_vectors == 32,
        cb.order == 10,
        cb.quant_step_size_q16 == 11796,
        cb.cb1_nlsf_q8@ == NB_MB_CB1_Q8@,
        cb.cb1_icdf@ == NB_MB_CB1_ICDF@,
        cb.ec_sel@ == NB_MB_EC_SEL@,
        cb.ec_icdf@ == NB_MB_EC_ICDF@,
        cb.pred_q8@ == NB_MB_PRED_Q8@,
        cb.delta_min_q15@ == NB_MB_DELTA_MIN_Q15@,
        cb.wf(),
{
    let cb: SilkNlsfCb = SilkNlsfCb {
        n_vectors: 32,
        order: 10,
        quant_step_size_q16: 11796,
        cb1_nlsf_q8: &NB_MB_CB1_Q8,
        cb1_icdf: &NB_MB_CB1_ICDF,
        ec_sel: &NB_MB_EC_SEL,
        ec_icdf: &NB_MB_EC_ICDF,
        pred_q8: &NB_MB_PRED_Q8,
        delta_min_q15: &NB_MB_DELTA_MIN_Q15,
    };
    proof {
        assert(NB_MB_EC_ICDF[8] == 0);
        assert(NB_MB_EC_ICDF[17] == 0);
        assert(NB_MB_EC_ICDF[26] == 0);
        assert(NB_MB_EC_ICDF[35] == 0);
        assert(NB_MB_EC_ICDF[44] == 0);
        assert(NB_MB_EC_ICDF[53] == 0);
        assert(NB_MB_EC_ICDF[62] == 0);
        assert(NB_MB_EC_ICDF[71] == 0);
        assert(NB_MB_CB1_ICDF[31] == 0);
        assert(NB_MB_CB1_ICDF[63] == 0);
        assert forall|i: int| 0 <= i < 11 implies 0 < #[trigger] NB_MB_DELTA_MIN_Q15@[i] <= 1000 by {}
        assert forall|t: int| 0 <= t < 8 implies #[trigger] cb.ec_icdf@[9 * t + 8] == 0 by {}
    }
    cb
}

} // verus!
