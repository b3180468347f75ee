//! Codebook of line spectral frequencies for wide band.

use crate::silk::nlsf_cb::SilkNlsfCb;
use vstd::prelude::*;

verus! {

/// First-stage vectors (Q8).
pub const WB_CB1_Q8: [u8; 512] = [
    7, 23, 38, 54, 69, 85, 100, 116, 131, 147, 162, 178, 193, 208, 223, 239, 13, 25, 41, 55, 69,
    83, 98, 112, 127, 142, 157, 171, 187, 203, 220, 236, 15, 21, 34, 51, 61, 78, 92, 106, 126, 136,
    152, 167, 185, 205, 225, 240, 10, 21, 36, 50, 63, 79, 95, 110, 126, 141, 157, 173, 189, 205,
    221, 237, 17, 20, 37, 51, 59, 78, 89, 107, 123, 134, 150, 164, 184, 205, 224, 240, 10, 15, 32,
    51, 67, 81, 96, 112, 129, 142, 158, 173, 189, 204, 220, 236, 8, 21, 37, 51, 65, 79, 98, 113,
    126, 138, 155, 168, 179, 192, 209, 218, 12, 15, 34, 55, 63, 78, 87, 108, 118, 131, 148, 167,
    185, 203, 219, 236, 16, 19, 32, 36, 56, 79, 91, 108, 118, 136, 154, 171, 186, 204, 220, 237,
    11, 28, 43, 58, 74, 89, 105, 120, 135, 150, 165, 180, 196, 211, 226, 241, 6, 16, 33, 46, 60,
    75, 92, 107, 123, 137, 156, 169, 185, 199, 214, 225, 11, 19, 30, 44, 57, 74, 89, 105, 121, 135,
    152, 169, 186, 202, 218, 234, 12, 19, 29, 46, 57, 71, 88, 100, 120, 132, 148, 165, 182, 199,
    216, 233, 17, 23, 35, 46, 56, 77, 92, 106, 123, 134, 152, 167, 185, 204, 222, 237, 14, 17, 45,
    53, 63, 75, 89, 107, 115, 132, 151, 171, 188, 206, 221, 240, 9, 16, 29, 40, 56, 71, 88, 103,
    119, 137, 154, 171, 189, 205, 222, 237, 16, 19, 36, 48, 57, 76, 87, 105, 118, 132, 150, 167,
    185, 202, 218, 236, 12, 17, 29, 54, 71, 81, 94, 104, 126, 136, 149, 164, 182, 201, 221, 237,
    15, 28, 47, 62, 79, 97, 115, 129, 142, 155, 168, 180, 194, 208, 223, 238, 8, 14, 30, 45, 62,
    78, 94, 111, 127, 143, 159, 175, 192, 207, 223, 239, 17, 30, 49, 62, 79, 92, 107, 119, 132,
    145, 160, 174, 190, 204, 220, 235, 14, 19, 36, 45, 61, 76, 91, 108, 121, 138, 154, 172, 189,
    205, 222, 238, 12, 18, 31, 45, 60, 76, 91, 107, 123, 138, 154, 171, 187, 204, 221, 236, 13, 17,
    31, 43, 53, 70, 83, 103, 114, 131, 149, 167, 185, 203, 220, 237, 17, 22, 35, 42, 58, 78, 93,
    110, 125, 139, 155, 170, 188, 206, 224, 240, 8, 15, 34, 50, 67, 83, 99, 115, 131, 146, 162,
    178, 193, 209, 224, 239, 13, 16, 41, 66, 73, 86, 95, 111, 128, 137, 150, 163, 183, 206, 225,
    241, 17, 25, 37, 52, 63, 75, 92, 102, 119, 132, 144, 160, 175, 191, 212, 231, 19, 31, 49, 65,
    83, 100, 117, 133, 147, 161, 174, 187, 200, 213, 227, 242, 18, 31, 52, 68, 88, 103, 117, 126,
    138, 149, 163, 177, 192, 207, 223, 239, 16, 29, 47, 61, 76, 90, 106, 119, 133, 147, 161, 176,
    193, 209, 224, 240, 15, 21, 35, 50, 61, 73, 86, 97, 110, 119, 129, 141, 175, 198, 218, 237,
];

/// First-stage index, unvoiced then voiced.
pub const WB_CB1_ICDF: [u8; 64] = [
    225, 204, 201, 184, 183, 175, 158, 154, 153, 135, 119, 115, 113, 110, 109, 99, 98, 95, 79, 68,
    52, 50, 48, 45, 43, 32, 31, 27, 18, 10, 3, 0, 255, 251, 235, 230, 212, 201, 196, 182, 167, 166,
    163, 151, 138, 124, 110, 104, 90, 78, 76, 70, 69, 57, 45, 34, 24, 21, 11, 6, 5, 4, 3, 0,
];

/// Second-stage tables and prediction weights, two coefficients a byte.
pub const WB_EC_SEL: [u8; 256] = [
    0, 0, 0, 0, 0, 0, 0, 1, 100, 102, 102, 68, 68, 36, 34, 96, 164, 107, 158, 185, 180, 185, 139,
    102, 64, 66, 36, 34, 34, 0, 1, 32, 208, 139, 141, 191, 152, 185, 155, 104, 96, 171, 104, 166,
    102, 102, 102, 132, 1, 0, 0, 0, 0, 16, 16, 0, 80, 109, 78, 107, 185, 139, 103, 101, 208, 212,
    141, 139, 173, 153, 123, 103, 36, 0, 0, 0, 0, 0, 0, 1, 48, 0, 0, 0, 0, 0, 0, 32, 68, 135, 123,
    119, 119, 103, 69, 98, 68, 103, 120, 118, 118, 102, 71, 98, 134, 136, 157, 184, 182, 153, 139,
    134, 208, 168, 248, 75, 189, 143, 121, 107, 32, 49, 34, 34, 34, 0, 17, 2, 210, 235, 139, 123,
    185, 137, 105, 134, 98, 135, 104, 182, 100, 183, 171, 134, 100, 70, 68, 70, 66, 66, 34, 131,
    64, 166, 102, 68, 36, 2, 1, 0, 134, 166, 102, 68, 34, 34, 66, 132, 212, 246, 158, 139, 107,
    107, 87, 102, 100, 219, 125, 122, 137, 118, 103, 132, 114, 135, 137, 105, 171, 106, 50, 34,
    164, 214, 141, 143, 185, 151, 121, 103, 192, 34, 0, 0, 0, 0, 0, 1, 208, 109, 74, 187, 134, 249,
    159, 137, 102, 110, 154, 118, 87, 101, 119, 101, 0, 2, 0, 36, 36, 66, 68, 35, 96, 164, 102,
    100, 36, 0, 2, 33, 167, 138, 174, 102, 100, 84, 2, 2, 100, 107, 120, 119, 36, 197, 24, 0,
];

/// Second-stage symbols, eight tables of nine.
pub const WB_EC_ICDF: [u8; 72] = [
    255, 254, 253, 244, 12, 3, 2, 1, 0, 255, 254, 252, 224, 38, 3, 2, 1, 0, 255, 254, 251, 209, 57,
    4, 2, 1, 0, 255, 254, 244, 195, 69, 4, 2, 1, 0, 255, 251, 232, 184, 84, 7, 2, 1, 0, 255, 254,
    240, 186, 86, 14, 2, 1, 0, 255, 254, 239, 178, 91, 30, 5, 1, 0, 255, 248, 227, 177, 100, 19, 2,
    1, 0,
];

/// Two sets of prediction weights (Q8).
pub const WB_PRED_Q8: [u8; 30] = [
    175, 148, 160, 176, 178, 173, 174, 164, 177, 174, 196, 182, 198, 192, 182, 68, 62, 66, 60, 72,
    117, 85, 90, 118, 136, 151, 142, 160, 142, 155,
];

/// Smallest spacing of the frequencies (Q15).
pub const WB_DELTA_MIN_Q15: [i16; 17] = [
    100, 3, 40, 3, 3, 3, 5, 14, 14, 10, 11, 3, 8, 9, 7, 3, 347,
];

/// The codebook.
pub fn silk_nlsf_cb_wb() -> (cb: SilkNlsfCb)
    ensures
        cb.n_vectors == 32,
        cb.order == 16,
        cb.quant_step_size_q16 == 9830,
        cb.cb1_nlsf_q8@ == WB_CB1_Q8@,
        cb.cb1_icdf@ == WB_CB1_ICDF@,
        cb.ec_sel@ == WB_EC_SEL@,
        cb.ec_icdf@ == WB_EC_ICDF@,
        cb.pred_q8@ == WB_PRED_Q8@,
        cb.delta_min_q15@ == WB_DELTA_MIN_Q15@,
        cb.wf(),
{
    let cb: SilkNlsfCb = SilkNlsfCb {
        n_vectors: 32,
        order: 16,
        quant_step_size_q16: 9830,
        cb1_nlsf_q8: &WB_CB1_Q8,
        cb1_icdf: &WB_CB1_ICDF,
        ec_sel: &WB_EC_SEL,
        ec_icdf: &WB_EC_ICDF,
        pred_q8: &WB_PRED_Q8,
        delta_min_q15: &WB_DELTA_MIN_Q15,
    };
    proof {
        assert(WB_EC_ICDF[8] == 0);
        assert(WB_EC_ICDF[17] == 0);
        assert(WB_EC_ICDF[26] == 0);
        assert(WB_EC_ICDF[35] == 0);
        assert(WB_EC_ICDF[44] == 0);
        assert(WB_EC_ICDF[53] == 0);
        assert(WB_EC_ICDF[62] == 0);
        assert(WB_EC_ICDF[71] == 0);
        assert(WB_CB1_ICDF[31] == 0);
        assert(WB_CB1_ICDF[63] == 0);
        assert forall|i: int| 0 <= i < 17 implies 0 < #[trigger] WB_DELTA_MIN_Q15@[i] <= 1000 by {}
        assert forall|t: int| 0 <= t < 8 implies #[trigger] cb.ec_icdf@[9 * t + 8] == 0 by {}
    }
    cb
}

} // verus!
