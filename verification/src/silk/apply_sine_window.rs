//! Sine windows on 16-bit signals.

use crate::fixed::{mul_wb, narrow16, shr32, smulwb, wadd, wmul, wrap16, wrap32, wsub};
use vstd::arithmetic::power2::*;
use vstd::prelude::*;

verus! {

/// Angle between window samples (Q16), by window length in steps of four from
/// 16 samples on.
pub const FREQ_TABLE_Q16: [i16; 27] = [
    12111, 9804, 8235, 7100, 6239, 5565, 5022, 4575, 4202, 3885, 3612, 3375, 3167, 2984, 2820,
    2674, 2542, 2422, 2313, 2214, 2123, 2038, 1961, 1889, 1822, 1760, 1702,
];

pub const UNITY_Q16: i32 = 0x1_0000;

/// A window of `len` samples: its angle step.
pub open spec fn window_step(len: int) -> int {
    FREQ_TABLE_Q16[len / 4 - 4] as int
}

/// `-step^2`: how far the oscillator `2 cos` lies below two.
pub open spec fn window_coef(len: int) -> int {
    mul_wb(window_step(len), -window_step(len))
}

/// The first two window values.
pub open spec fn window_start(len: int, rising: bool) -> (int, int) {
    if rising {
        (0, wrap32(window_step(len) + len / 8))
    } else {
        (0x1_0000, wrap32(wrap32(0x1_0000 + window_coef(len) / 2) + len / 16))
    }
}

/// At most one.
pub open spec fn at_most_unity(v: int) -> int {
    if v > 0x1_0000 {
        0x1_0000
    } else {
        v
    }
}

/// The window value after `s1`, which follows `s0`, in the first half of a
/// group.
pub open spec fn window_third(coef: int, s0: int, s1: int) -> int {
    at_most_unity(wrap32(wrap32(wrap32(mul_wb(s1, coef) + wrap32(s1 * 2)) - s0) + 1))
}

/// The same in the second half.
pub open spec fn window_fourth(coef: int, s0: int, s1: int) -> int {
    at_most_unity(wrap32(wrap32(mul_wb(s1, coef) + wrap32(s1 * 2)) - s0))
}

/// The two window values at hand when group `k` of four samples starts.
pub open spec fn window_at(len: int, rising: bool, k: nat) -> (int, int)
    decreases k,
{
    if k == 0 {
        window_start(len, rising)
    } else {
        let (s0, s1) = window_at(len, rising, (k - 1) as nat);
        let t0 = window_third(window_coef(len), s0, s1);
        (t0, window_fourth(window_coef(len), s1, t0))
    }
}

/// The weight (Q16) of sample `i`.
pub open spec fn window_weight(len: int, rising: bool, i: int) -> int {
    let (s0, s1) = window_at(len, rising, (i / 4) as nat);
    let t0 = window_third(window_coef(len), s0, s1);
    if i % 4 == 0 {
        wrap32(s0 + s1) / 2
    } else if i % 4 == 1 {
        s1
    } else if i % 4 == 2 {
        wrap32(t0 + s1) / 2
    } else {
        t0
    }
}

/// Weights `input` with the rising (1) or falling (2) half of a sine.
pub fn apply_sine_window(output: &mut [i16], input: &[i16], win_type: i32)
    requires
        old(output)@.len() == input@.len(),
        win_type == 1 || win_type == 2,
        16 <= input@.len() <= 120,
        input@.len() % 4 == 0,
    ensures
        final(output)@.len() == input@.len(),
        forall|i: int|
            0 <= i < input@.len() ==> #[trigger] final(output)@[i] == wrap16(
                mul_wb(
                    window_weight(input@.len() as int, win_type == 1, i),
                    input@[i] as int,
                ),
            ),
{
    let length: usize = input.len();
    let ghost len = length as int;
    let ghost rising = win_type == 1;
    let freq: i32 = FREQ_TABLE_Q16[length / 4 - 4] as i32;
    let coef: i32 = smulwb(freq, -freq);
    proof {
        lemma2_to64();
    }
    let mut s0: i32;
    let mut s1: i32;
    if win_type == 1 {
        s0 = 0;
        s1 = wadd(freq, (length / 8) as i32);
    } else {
        s0 = UNITY_Q16;
        s1 = wadd(wadd(UNITY_Q16, shr32(coef, 1)), (length / 16) as i32);
    }
    for k in 0..length / 4
        invariant
            length == input@.len() == output@.len(),
            length % 4 == 0,
            length <= 120,
            len == length,
            coef == window_coef(len),
            (s0 as int, s1 as int) == window_at(len, rising, k as nat),
            pow2(1) == 2,
            forall|i: int|
                0 <= i < 4 * k ==> #[trigger] output@[i] == wrap16(
                    mul_wb(window_weight(len, rising, i), input@[i] as int),
                ),
    {
        let i: usize = 4 * k;
        output[i] = narrow16(smulwb(shr32(wadd(s0, s1), 1), input[i] as i32));
        output[i + 1] = narrow16(smulwb(s1, input[i + 1] as i32));
        let mut t0: i32 = wadd(wsub(wadd(smulwb(s1, coef), wmul(s1, 2)), s0), 1);
        if t0 > UNITY_Q16 {
            t0 = UNITY_Q16;
        }
        output[i + 2] = narrow16(smulwb(shr32(wadd(t0, s1), 1), input[i + 2] as i32));
        output[i + 3] = narrow16(smulwb(t0, input[i + 3] as i32));
        let mut t1: i32 = wsub(wadd(smulwb(t0, coef), wmul(t0, 2)), s1);
        if t1 > UNITY_Q16 {
            t1 = UNITY_Q16;
        }
        s0 = t0;
        s1 = t1;
    }
}

} // verus!
