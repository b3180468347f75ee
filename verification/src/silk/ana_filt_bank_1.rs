//! Splitting a signal into a lower and an upper half band with a pair of
//! first-order all-pass filters.

use crate::fixed::{
    lemma_mul_wb, lemma_wrap32_range, mul_wb, round_shift, sat16, sat16_of, shr32, smulwb, wadd,
    wrap32, wsub,
};
use vstd::arithmetic::power2::*;
use vstd::prelude::*;

verus! {

/// All-pass coefficients (Q15; the second is one less than the filter's).
pub const A_FB1_20: i32 = 10788;

pub const A_FB1_21: i32 = -24290;

/// One all-pass filter: its output, and the state it leaves.
pub open spec fn even_pass(state: int, sample: int) -> (int, int) {
    let x_in = sample * 1024;
    let y = wrap32(x_in - state);
    let x = wrap32(y + mul_wb(y, A_FB1_21 as int));
    (wrap32(state + x), wrap32(x_in + x))
}

/// The other one.
pub open spec fn odd_pass(state: int, sample: int) -> (int, int) {
    let x_in = sample * 1024;
    let y = wrap32(x_in - state);
    let x = mul_wb(y, A_FB1_20 as int);
    (wrap32(state + x), wrap32(x_in + x))
}

/// The two states once `k` pairs of samples are filtered.
pub open spec fn bank_state(state: Seq<i32>, input: Seq<i16>, k: nat) -> (int, int)
    decreases k,
{
    if k == 0 {
        (state[0] as int, state[1] as int)
    } else {
        let (s0, s1) = bank_state(state, input, (k - 1) as nat);
        (
            even_pass(s0, input[2 * k - 2] as int).1,
            odd_pass(s1, input[2 * k - 1] as int).1,
        )
    }
}

/// Low-band sample `k`: half the sum of the filters' outputs.
pub open spec fn low_sample(state: Seq<i32>, input: Seq<i16>, k: nat) -> int {
    let (s0, s1) = bank_state(state, input, k);
    let out_1 = even_pass(s0, input[2 * k as int] as int).0;
    let out_2 = odd_pass(s1, input[(2 * k + 1) as int] as int).0;
    sat16_of(round_shift(wrap32(out_2 + out_1), 11))
}

/// High-band sample `k`: half the difference of the filters' outputs.
pub open spec fn high_sample(state: Seq<i32>, input: Seq<i16>, k: nat) -> int {
    let (s0, s1) = bank_state(state, input, k);
    let out_1 = even_pass(s0, input[2 * k as int] as int).0;
    let out_2 = odd_pass(s1, input[(2 * k + 1) as int] as int).0;
    sat16_of(round_shift(wrap32(out_2 - out_1), 11))
}

/// `v / 2^11`, rounded to nearest.
fn round_q11(v: i32) -> (r: i32)
    ensures
        r == round_shift(v as int, 11),
{
    proof {
        reveal(round_shift);
    }
    proof {
        lemma2_to64();
    }
    shr32(shr32(v, 10) + 1, 1)
}

/// Splits `input` into two bands of half its rate.
pub fn ana_filt_bank_1(
    state: &mut [i32; 2],
    low_band: &mut [i16],
    high_band: &mut [i16],
    input: &[i16],
)
    requires
        input@.len() % 2 == 0,
        old(low_band)@.len() >= input@.len() / 2,
        old(high_band)@.len() >= input@.len() / 2,
    ensures
        final(low_band)@.len() == old(low_band)@.len(),
        final(high_band)@.len() == old(high_band)@.len(),
        forall|k: int|
            0 <= k < input@.len() / 2 ==> #[trigger] final(low_band)@[k] == low_sample(
                old(state)@,
                input@,
                k as nat,
            ),
        forall|k: int|
            0 <= k < input@.len() / 2 ==> #[trigger] final(high_band)@[k] == high_sample(
                old(state)@,
                input@,
                k as nat,
            ),
        forall|k: int|
            input@.len() / 2 <= k < old(low_band)@.len() ==> #[trigger] final(low_band)@[k] == old(
                low_band,
            )@[k],
        forall|k: int|
            input@.len() / 2 <= k < old(high_band)@.len() ==> #[trigger] final(high_band)@[k]
                == old(high_band)@[k],
        (final(state)@[0] as int, final(state)@[1] as int) == bank_state(
            old(state)@,
            input@,
            input@.len() / 2,
        ),
{
    let n: usize = input.len();
    let half: usize = n / 2;
    for k in 0..half
        invariant
            n == input@.len(),
            half == input@.len() / 2,
            input@.len() % 2 == 0,
            low_band@.len() == old(low_band)@.len() >= half,
            high_band@.len() == old(high_band)@.len() >= half,
            (state@[0] as int, state@[1] as int) == bank_state(old(state)@, input@, k as nat),
            forall|j: int|
                0 <= j < k ==> #[trigger] low_band@[j] == low_sample(old(state)@, input@, j as nat),
            forall|j: int|
                0 <= j < k ==> #[trigger] high_band@[j] == high_sample(
                    old(state)@,
                    input@,
                    j as nat,
                ),
            forall|j: int| k <= j < low_band@.len() ==> #[trigger] low_band@[j] == old(low_band)@[j],
            forall|j: int|
                k <= j < high_band@.len() ==> #[trigger] high_band@[j] == old(high_band)@[j],
    {
        let first: i32 = input[2 * k] as i32 * 1024;
        let y0: i32 = wsub(first, state[0]);
        let x0: i32 = wadd(y0, smulwb(y0, A_FB1_21));
        let out_1: i32 = wadd(state[0], x0);
        let second: i32 = input[2 * k + 1] as i32 * 1024;
        let y1: i32 = wsub(second, state[1]);
        let x1: i32 = smulwb(y1, A_FB1_20);
        let out_2: i32 = wadd(state[1], x1);
        state[0] = wadd(first, x0);
        state[1] = wadd(second, x1);
        low_band[k] = sat16(round_q11(wadd(out_2, out_1)));
        high_band[k] = sat16(round_q11(wsub(out_2, out_1)));
    }
}

/// States of moderate size stay so, whatever the samples, and no operation of
/// the filters leaves the 32-bit range.
pub proof fn law_bank_is_stable(s0: int, s1: int, a: int, b: int)
    requires
        -0x1000_0000 <= s0 <= 0x1000_0000,
        -0x1000_0000 <= s1 <= 0x1000_0000,
        -0x8000 <= a <= 0x7fff,
        -0x8000 <= b <= 0x7fff,
    ensures
        -0x1000_0000 <= even_pass(s0, a).1 <= 0x1000_0000,
        -0x1000_0000 <= odd_pass(s1, b).1 <= 0x1000_0000,
        ({
            let y = a * 1024 - s0;
            let x = y + (y * A_FB1_21) / 0x1_0000;
            even_pass(s0, a) == (s0 + x, a * 1024 + x)
        }),
        ({
            let y = b * 1024 - s1;
            let x = (y * A_FB1_20) / 0x1_0000;
            odd_pass(s1, b) == (s1 + x, b * 1024 + x)
        }),
{
    let y0 = a * 1024 - s0;
    let y1 = b * 1024 - s1;
    lemma_mul_wb(y0, -24290);
    lemma_mul_wb(y1, 10788);
    let x0 = y0 + (y0 * -24290) / 0x1_0000;
    let x1 = (y1 * 10788) / 0x1_0000;
    lemma_wrap32_range(y0);
    lemma_wrap32_range(y1);
    lemma_wrap32_range(x0);
    lemma_wrap32_range(s0 + x0);
    lemma_wrap32_range(s1 + x1);
    lemma_wrap32_range(a * 1024 + x0);
    lemma_wrap32_range(b * 1024 + x1);
}

} // verus!
