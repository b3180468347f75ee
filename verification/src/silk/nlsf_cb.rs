//! Codebooks of line spectral frequencies.

use crate::silk::nlsf_stabilize::spacing_ok;
use vstd::prelude::*;

verus! {

/// Symbols of a second-stage table.
pub const NLSF_STAGE2_SYMBOLS: usize = 9;

/// A two-stage codebook.
#[derive(Clone, Copy, Debug, PartialEq, Eq)]
pub struct SilkNlsfCb {
    /// First-stage vectors.
    pub n_vectors: i16,
    /// Coefficients of a vector.
    pub order: i16,
    /// Second-stage step (Q16).
    pub quant_step_size_q16: i32,
    pub cb1_nlsf_q8: &'static [u8],
    pub cb1_icdf: &'static [u8],
    pub ec_sel: &'static [u8],
    pub ec_icdf: &'static [u8],
    pub pred_q8: &'static [u8],
    pub delta_min_q15: &'static [i16],
}

impl SilkNlsfCb {
    /// The tables have the sizes that the order and the number of vectors ask
    /// for, and every probability table ends.
    pub open spec fn wf(&self) -> bool {
        let n = self.n_vectors as int;
        let order = self.order as int;
        &&& 1 <= n <= 127
        &&& 2 <= order <= 16
        &&& order % 2 == 0
        &&& self.cb1_nlsf_q8@.len() == n * order
        &&& self.cb1_icdf@.len() == 2 * n
        &&& self.cb1_icdf@[n - 1] == 0
        &&& self.cb1_icdf@[2 * n - 1] == 0
        &&& self.ec_sel@.len() == n * (order / 2)
        &&& self.ec_icdf@.len() == 72
        &&& forall|t: int| 0 <= t < 8 ==> #[trigger] self.ec_icdf@[9 * t + 8] == 0
        &&& self.pred_q8@.len() == 2 * (order - 1)
        &&& self.delta_min_q15@.len() == order + 1
        &&& spacing_ok(self.delta_min_q15@)
        &&& 0 < self.quant_step_size_q16 <= 0x7fff
    }
}

} // verus!
