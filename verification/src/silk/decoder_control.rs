//! Parameters of a frame, as the synthesis takes them.

use vstd::prelude::*;

verus! {

/// What a frame is synthesised with.
#[derive(Clone, Copy, Debug, PartialEq, Eq)]
pub struct DecoderControl {
    /// Pitch lags of the subframes.
    pub pitch_l: [i32; 4],
    /// Gains of the subframes (Q16).
    pub gains_q16: [i32; 4],
    /// Short-term predictors of the frame's halves (Q12).
    pub pred_coef_q12: [[i16; 16]; 2],
    /// Long-term predictors of the subframes (Q14), five taps each.
    pub ltp_coef_q14: [i16; 20],
    /// Scale of the long-term predictor's state (Q14).
    pub ltp_scale_q14: i32,
}

impl Default for DecoderControl {
    fn default() -> (r: DecoderControl)
        ensures
            forall|k: int| 0 <= k < 4 ==> #[trigger] r.pitch_l[k] == 0,
            forall|k: int| 0 <= k < 4 ==> #[trigger] r.gains_q16[k] == 0,
            forall|i: int, k: int|
                0 <= i < 2 && 0 <= k < 16 ==> #[trigger] r.pred_coef_q12[i][k] == 0,
            forall|k: int| 0 <= k < 20 ==> #[trigger] r.ltp_coef_q14[k] == 0,
            r.ltp_scale_q14 == 0,
    {
        let row: [i16; 16] = [0;16];
        DecoderControl {
            pitch_l: [0;4],
            gains_q16: [0;4],
            pred_coef_q12: [row, row],
            ltp_coef_q14: [0;20],
            ltp_scale_q14: 0,
        }
    }
}

} // verus!
