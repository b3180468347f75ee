//! Entry point of the stereo filter for vector units.

use crate::silk::biquad_alt::{
    biquad_alt_stride2, biquad_coefs, biquad_output, biquad_state, channel_of,
};
use vstd::prelude::*;

verus! {

/// Filters an interleaved stereo signal: each channel on its own.
pub fn biquad_alt_stride2_neon(
    input: &[i16],
    b_q28: &[i32; 3],
    a_q28: &[i32; 2],
    state: &mut [i32; 4],
    output: &mut [i16],
)
    requires
        input@.len() == old(output)@.len(),
        input@.len() % 2 == 0,
    ensures
        ({
            let c = biquad_coefs(b_q28@, a_q28@);
            let left = (old(state)@[0] as int, old(state)@[1] as int);
            let right = (old(state)@[2] as int, old(state)@[3] as int);
            let x0 = channel_of(input@, 0);
            let x1 = channel_of(input@, 1);
            &&& final(output)@.len() == input@.len()
            &&& forall|k: int|
                0 <= k < input@.len() / 2 ==> #[trigger] channel_of(final(output)@, 0)[k]
                    == biquad_output(c, left, x0, k as nat)
            &&& forall|k: int|
                0 <= k < input@.len() / 2 ==> #[trigger] channel_of(final(output)@, 1)[k]
                    == biquad_output(c, right, x1, k as nat)
            &&& (final(state)@[0] as int, final(state)@[1] as int) == biquad_state(
                c,
                left,
                x0,
                x0.len(),
            )
            &&& (final(state)@[2] as int, final(state)@[3] as int) == biquad_state(
                c,
                right,
                x1,
                x1.len(),
            )
        }),
{
    biquad_alt_stride2(input, b_q28, a_q28, state, output);
}

} // verus!
