//! Contexts of side information.

use crate::icdf::{context_ok, ICDFContext};
use vstd::prelude::*;

verus! {

/// High bits of a gain, inactive.
pub const INDEPENDENT_QUANTIZATION_GAIN_MSB_INACTIVE_TABLE: [u16; 8] = [
    32, 144, 212, 241, 253, 254, 255, 256,
];

/// High bits of a gain, inactive.
pub fn independent_quantization_gain_msb_inactive() -> (c: ICDFContext<'static>)
    ensures
        c.total == 256,
        c.dist_table@ == INDEPENDENT_QUANTIZATION_GAIN_MSB_INACTIVE_TABLE@,
        context_ok(256, INDEPENDENT_QUANTIZATION_GAIN_MSB_INACTIVE_TABLE@),
{
    proof {
        lemma_independent_quantization_gain_msb_inactive();
    }
    ICDFContext { total: 256, dist_table: &INDEPENDENT_QUANTIZATION_GAIN_MSB_INACTIVE_TABLE }
}

pub proof fn lemma_independent_quantization_gain_msb_inactive()
    ensures
        context_ok(256, INDEPENDENT_QUANTIZATION_GAIN_MSB_INACTIVE_TABLE@),
{
    let t = INDEPENDENT_QUANTIZATION_GAIN_MSB_INACTIVE_TABLE@;
    assert forall|i: int| 0 <= i < t.len() implies #[trigger] t[i] <= 256 by {
        assert(INDEPENDENT_QUANTIZATION_GAIN_MSB_INACTIVE_TABLE[0] <= 256);
        assert(INDEPENDENT_QUANTIZATION_GAIN_MSB_INACTIVE_TABLE[1] <= 256);
        assert(INDEPENDENT_QUANTIZATION_GAIN_MSB_INACTIVE_TABLE[2] <= 256);
        assert(INDEPENDENT_QUANTIZATION_GAIN_MSB_INACTIVE_TABLE[3] <= 256);
        assert(INDEPENDENT_QUANTIZATION_GAIN_MSB_INACTIVE_TABLE[4] <= 256);
        assert(INDEPENDENT_QUANTIZATION_GAIN_MSB_INACTIVE_TABLE[5] <= 256);
        assert(INDEPENDENT_QUANTIZATION_GAIN_MSB_INACTIVE_TABLE[6] <= 256);
        assert(INDEPENDENT_QUANTIZATION_GAIN_MSB_INACTIVE_TABLE[7] <= 256);
    }
}

/// High bits of a gain, unvoiced.
pub const INDEPENDENT_QUANTIZATION_GAIN_MSB_UNVOICED_TABLE: [u16; 8] = [
    2, 19, 64, 124, 186, 233, 252, 256,
];

/// High bits of a gain, unvoiced.
pub fn independent_quantization_gain_msb_unvoiced() -> (c: ICDFContext<'static>)
    ensures
        c.total == 256,
        c.dist_table@ == INDEPENDENT_QUANTIZATION_GAIN_MSB_UNVOICED_TABLE@,
        context_ok(256, INDEPENDENT_QUANTIZATION_GAIN_MSB_UNVOICED_TABLE@),
{
    proof {
        lemma_independent_quantization_gain_msb_unvoiced();
    }
    ICDFContext { total: 256, dist_table: &INDEPENDENT_QUANTIZATION_GAIN_MSB_UNVOICED_TABLE }
}

pub proof fn lemma_independent_quantization_gain_msb_unvoiced()
    ensures
        context_ok(256, INDEPENDENT_QUANTIZATION_GAIN_MSB_UNVOICED_TABLE@),
{
    let t = INDEPENDENT_QUANTIZATION_GAIN_MSB_UNVOICED_TABLE@;
    assert forall|i: int| 0 <= i < t.len() implies #[trigger] t[i] <= 256 by {
        assert(INDEPENDENT_QUANTIZATION_GAIN_MSB_UNVOICED_TABLE[0] <= 256);
        assert(INDEPENDENT_QUANTIZATION_GAIN_MSB_UNVOICED_TABLE[1] <= 256);
        assert(INDEPENDENT_QUANTIZATION_GAIN_MSB_UNVOICED_TABLE[2] <= 256);
        assert(INDEPENDENT_QUANTIZATION_GAIN_MSB_UNVOICED_TABLE[3] <= 256);
        assert(INDEPENDENT_QUANTIZATION_GAIN_MSB_UNVOICED_TABLE[4] <= 256);
        assert(INDEPENDENT_QUANTIZATION_GAIN_MSB_UNVOICED_TABLE[5] <= 256);
        assert(INDEPENDENT_QUANTIZATION_GAIN_MSB_UNVOICED_TABLE[6] <= 256);
        assert(INDEPENDENT_QUANTIZATION_GAIN_MSB_UNVOICED_TABLE[7] <= 256);
    }
}

/// High bits of a gain, voiced.
pub const INDEPENDENT_QUANTIZATION_GAIN_MSB_VOICED_TABLE: [u16; 8] = [
    1, 4, 30, 101, 195, 245, 254, 256,
];

/// High bits of a gain, voiced.
pub fn independent_quantization_gain_msb_voiced() -> (c: ICDFContext<'static>)
    ensures
        c.total == 256,
        c.dist_table@ == INDEPENDENT_QUANTIZATION_GAIN_MSB_VOICED_TABLE@,
        context_ok(256, INDEPENDENT_QUANTIZATION_GAIN_MSB_VOICED_TABLE@),
{
    proof {
        lemma_independent_quantization_gain_msb_voiced();
    }
    ICDFContext { total: 256, dist_table: &INDEPENDENT_QUANTIZATION_GAIN_MSB_VOICED_TABLE }
}

pub proof fn lemma_independent_quantization_gain_msb_voiced()
    ensures
        context_ok(256, INDEPENDENT_QUANTIZATION_GAIN_MSB_VOICED_TABLE@),
{
    let t = INDEPENDENT_QUANTIZATION_GAIN_MSB_VOICED_TABLE@;
    assert forall|i: int| 0 <= i < t.len() implies #[trigger] t[i] <= 256 by {
        assert(INDEPENDENT_QUANTIZATION_GAIN_MSB_VOICED_TABLE[0] <= 256);
        assert(INDEPENDENT_QUANTIZATION_GAIN_MSB_VOICED_TABLE[1] <= 256);
        assert(INDEPENDENT_QUANTIZATION_GAIN_MSB_VOICED_TABLE[2] <= 256);
        assert(INDEPENDENT_QUANTIZATION_GAIN_MSB_VOICED_TABLE[3] <= 256);
        assert(INDEPENDENT_QUANTIZATION_GAIN_MSB_VOICED_TABLE[4] <= 256);
        assert(INDEPENDENT_QUANTIZATION_GAIN_MSB_VOICED_TABLE[5] <= 256);
        assert(INDEPENDENT_QUANTIZATION_GAIN_MSB_VOICED_TABLE[6] <= 256);
        assert(INDEPENDENT_QUANTIZATION_GAIN_MSB_VOICED_TABLE[7] <= 256);
    }
}

/// Low bits of a gain.
pub const INDEPENDENT_QUANTIZATION_GAIN_LSB_TABLE: [u16; 8] = [
    32, 64, 96, 128, 160, 192, 224, 256,
];

/// Low bits of a gain.
pub fn independent_quantization_gain_lsb() -> (c: ICDFContext<'static>)
    ensures
        c.total == 256,
        c.dist_table@ == INDEPENDENT_QUANTIZATION_GAIN_LSB_TABLE@,
        context_ok(256, INDEPENDENT_QUANTIZATION_GAIN_LSB_TABLE@),
{
    proof {
        lemma_independent_quantization_gain_lsb();
    }
    ICDFContext { total: 256, dist_table: &INDEPENDENT_QUANTIZATION_GAIN_LSB_TABLE }
}

pub proof fn lemma_independent_quantization_gain_lsb()
    ensures
        context_ok(256, INDEPENDENT_QUANTIZATION_GAIN_LSB_TABLE@),
{
    let t = INDEPENDENT_QUANTIZATION_GAIN_LSB_TABLE@;
    assert forall|i: int| 0 <= i < t.len() implies #[trigger] t[i] <= 256 by {
        assert(INDEPENDENT_QUANTIZATION_GAIN_LSB_TABLE[0] <= 256);
        assert(INDEPENDENT_QUANTIZATION_GAIN_LSB_TABLE[1] <= 256);
        assert(INDEPENDENT_QUANTIZATION_GAIN_LSB_TABLE[2] <= 256);
        assert(INDEPENDENT_QUANTIZATION_GAIN_LSB_TABLE[3] <= 256);
        assert(INDEPENDENT_QUANTIZATION_GAIN_LSB_TABLE[4] <= 256);
        assert(INDEPENDENT_QUANTIZATION_GAIN_LSB_TABLE[5] <= 256);
        assert(INDEPENDENT_QUANTIZATION_GAIN_LSB_TABLE[6] <= 256);
        assert(INDEPENDENT_QUANTIZATION_GAIN_LSB_TABLE[7] <= 256);
    }
}

/// Gain relative to the one before.
pub const DELTA_QUANTIZATION_GAIN_TABLE: [u16; 41] = [
    6, 11, 22, 53, 185, 206, 214, 218, 221, 223, 225, 227, 228, 229, 230, 231, 232, 233, 234, 235,
    236, 237, 238, 239, 240, 241, 242, 243, 244, 245, 246, 247, 248, 249, 250, 251, 252, 253, 254,
    255, 256,
];

/// Gain relative to the one before.
pub fn delta_quantization_gain() -> (c: ICDFContext<'static>)
    ensures
        c.total == 256,
        c.dist_table@ == DELTA_QUANTIZATION_GAIN_TABLE@,
        context_ok(256, DELTA_QUANTIZATION_GAIN_TABLE@),
{
    proof {
        lemma_delta_quantization_gain();
    }
    ICDFContext { total: 256, dist_table: &DELTA_QUANTIZATION_GAIN_TABLE }
}

pub proof fn lemma_delta_quantization_gain()
    ensures
        context_ok(256, DELTA_QUANTIZATION_GAIN_TABLE@),
{
    let t = DELTA_QUANTIZATION_GAIN_TABLE@;
    assert forall|i: int| 0 <= i < t.len() implies #[trigger] t[i] <= 256 by {
        assert(DELTA_QUANTIZATION_GAIN_TABLE[0] <= 256);
        assert(DELTA_QUANTIZATION_GAIN_TABLE[1] <= 256);
        assert(DELTA_QUANTIZATION_GAIN_TABLE[2] <= 256);
        assert(DELTA_QUANTIZATION_GAIN_TABLE[3] <= 256);
        assert(DELTA_QUANTIZATION_GAIN_TABLE[4] <= 256);
        assert(DELTA_QUANTIZATION_GAIN_TABLE[5] <= 256);
        assert(DELTA_QUANTIZATION_GAIN_TABLE[6] <= 256);
        assert(DELTA_QUANTIZATION_GAIN_TABLE[7] <= 256);
        assert(DELTA_QUANTIZATION_GAIN_TABLE[8] <= 256);
        assert(DELTA_QUANTIZATION_GAIN_TABLE[9] <= 256);
        assert(DELTA_QUANTIZATION_GAIN_TABLE[10] <= 256);
        assert(DELTA_QUANTIZATION_GAIN_TABLE[11] <= 256);
        assert(DELTA_QUANTIZATION_GAIN_TABLE[12] <= 256);
        assert(DELTA_QUANTIZATION_GAIN_TABLE[13] <= 256);
        assert(DELTA_QUANTIZATION_GAIN_TABLE[14] <= 256);
        assert(DELTA_QUANTIZATION_GAIN_TABLE[15] <= 256);
        assert(DELTA_QUANTIZATION_GAIN_TABLE[16] <= 256);
        assert(DELTA_QUANTIZATION_GAIN_TABLE[17] <= 256);
        assert(DELTA_QUANTIZATION_GAIN_TABLE[18] <= 256);
        assert(DELTA_QUANTIZATION_GAIN_TABLE[19] <= 256);
        assert(DELTA_QUANTIZATION_GAIN_TABLE[20] <= 256);
        assert(DELTA_QUANTIZATION_GAIN_TABLE[21] <= 256);
        assert(DELTA_QUANTIZATION_GAIN_TABLE[22] <= 256);
        assert(DELTA_QUANTIZATION_GAIN_TABLE[23] <= 256);
        assert(DELTA_QUANTIZATION_GAIN_TABLE[24] <= 256);
        assert(DELTA_QUANTIZATION_GAIN_TABLE[25] <= 256);
        assert(DELTA_QUANTIZATION_GAIN_TABLE[26] <= 256);
        assert(DELTA_QUANTIZATION_GAIN_TABLE[27] <= 256);
        assert(DELTA_QUANTIZATION_GAIN_TABLE[28] <= 256);
        assert(DELTA_QUANTIZATION_GAIN_TABLE[29] <= 256);
        assert(DELTA_QUANTIZATION_GAIN_TABLE[30] <= 256);
        assert(DELTA_QUANTIZATION_GAIN_TABLE[31] <= 256);
        assert(DELTA_QUANTIZATION_GAIN_TABLE[32] <= 256);
        assert(DELTA_QUANTIZATION_GAIN_TABLE[33] <= 256);
        assert(DELTA_QUANTIZATION_GAIN_TABLE[34] <= 256);
        assert(DELTA_QUANTIZATION_GAIN_TABLE[35] <= 256);
        assert(DELTA_QUANTIZATION_GAIN_TABLE[36] <= 256);
        assert(DELTA_QUANTIZATION_GAIN_TABLE[37] <= 256);
        assert(DELTA_QUANTIZATION_GAIN_TABLE[38] <= 256);
        assert(DELTA_QUANTIZATION_GAIN_TABLE[39] <= 256);
        assert(DELTA_QUANTIZATION_GAIN_TABLE[40] <= 256);
    }
}

} // verus!
