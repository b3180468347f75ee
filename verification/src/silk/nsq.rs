//! Feedback of the noise-shaping quantiser.

use crate::fixed::{mul_wb, smulwb, wadd, wmul, wrap32};
use vstd::prelude::*;

verus! {

/// The delay line with a new sample in front.
pub open spec fn delayed(sample: i32, line: Seq<i32>, order: int) -> Seq<i32> {
    Seq::new(
        line.len(),
        |i: int|
            if i == 0 {
                sample
            } else if i < order {
                line[i - 1]
            } else {
                line[i]
            },
    )
}

/// The sum of the first `k` taps of a filter, which starts from half its order
/// for rounding.
pub open spec fn taps_sum(line: Seq<i32>, coef: Seq<i16>, order: int, k: int) -> int
    decreases k,
{
    if k <= 0 {
        order / 2
    } else {
        wrap32(
            taps_sum(line, coef, order, k - 1) + mul_wb(line[k - 1] as int, coef[k - 1] as int),
        )
    }
}

/// Moves a sample into the delay line, and returns the filtered line (Q12).
pub fn nsq_noise_shape_feedback_loop(
    data0: i32,
    data1: &mut [i32],
    coef: &[i16],
    order: usize,
) -> (r: i32)
    requires
        1 <= order <= 0xffff,
        order <= old(data1)@.len(),
        order <= coef@.len(),
    ensures
        final(data1)@ == delayed(data0, old(data1)@, order as int),
        r == wrap32(2 * taps_sum(final(data1)@, coef@, order as int, order as int)),
{
    let ghost before = data1@;
    let ghost goal = delayed(data0, before, order as int);
    let room: usize = data1.len();
    let taps: usize = coef.len();
    let mut carry: i32 = data0;
    let mut out: i32 = (order / 2) as i32;
    let mut j: usize = 0;
    while j < order
        invariant
            1 <= order <= 0xffff,
            order <= room,
            order <= taps,
            room == data1@.len(),
            room == before.len(),
            taps == coef@.len(),
            j <= order,
            goal == delayed(data0, before, order as int),
            j < order ==> carry == goal[j as int],
            out == taps_sum(goal, coef@, order as int, j as int),
            forall|i: int|
                0 <= i < room ==> #[trigger] data1@[i] == if i < j {
                    goal[i]
                } else {
                    before[i]
                },
        decreases order - j,
    {
        let next: i32 = data1[j];
        data1[j] = carry;
        out = wadd(out, smulwb(carry, coef[j] as i32));
        carry = next;
        j = j + 1;
    }
    assert(data1@ =~= goal);
    wmul(2, out)
}

} // verus!
