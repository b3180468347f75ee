//! Second-order filters on 16-bit signals.

use crate::fixed::{
    mul_wb, round_shift, sat16, sat16_of, shr32, smulwb, wadd, wmul, wrap16, wrap32, wsub,
};
use vstd::arithmetic::power2::*;
use vstd::prelude::*;

verus! {

/// Filter coefficients (Q28): the feed-forward part, and the feedback part
/// negated and split into low and high bits.
pub struct BiquadCoefs {
    pub b: Seq<i32>,
    pub a0_low: int,
    pub a0_high: int,
    pub a1_low: int,
    pub a1_high: int,
}

pub open spec fn biquad_coefs(b: Seq<i32>, a: Seq<i32>) -> BiquadCoefs {
    BiquadCoefs {
        b,
        a0_low: wrap32(-a[0]) % 0x4000,
        a0_high: wrap32(-a[0]) / 0x4000,
        a1_low: wrap32(-a[1]) % 0x4000,
        a1_high: wrap32(-a[1]) / 0x4000,
    }
}

/// The filter's output (Q14) for a sample.
pub open spec fn biquad_q14(c: BiquadCoefs, s0: int, x: int) -> int {
    wrap32(wrap32(s0 + mul_wb(c.b[0] as int, x)) * 4)
}

/// The feedback and feed-forward terms of one delay element.
pub open spec fn biquad_delay(carry: int, low: int, high: int, b: int, out: int, x: int) -> int {
    wrap32(
        wrap32(wrap32(carry + round_shift(mul_wb(out, low), 14)) + mul_wb(out, high)) + mul_wb(
            b,
            x,
        ),
    )
}

/// The delay elements after a sample.
pub open spec fn biquad_next(c: BiquadCoefs, s: (int, int), x: int) -> (int, int) {
    let out = biquad_q14(c, s.0, x);
    (
        biquad_delay(s.1, c.a0_low, c.a0_high, c.b[1] as int, out, x),
        biquad_delay(0, c.a1_low, c.a1_high, c.b[2] as int, out, x),
    )
}

/// The output sample.
pub open spec fn biquad_sample(c: BiquadCoefs, s0: int, x: int) -> int {
    sat16_of(wrap32(biquad_q14(c, s0, x) + 0x3fff) / 0x4000)
}

/// The delay elements after `k` samples.
pub open spec fn biquad_state(c: BiquadCoefs, s: (int, int), x: Seq<i16>, k: nat) -> (int, int)
    decreases k,
{
    if k == 0 {
        s
    } else {
        biquad_next(c, biquad_state(c, s, x, (k - 1) as nat), x[k - 1] as int)
    }
}

/// Output sample `k`.
pub open spec fn biquad_output(c: BiquadCoefs, s: (int, int), x: Seq<i16>, k: nat) -> int {
    biquad_sample(c, biquad_state(c, s, x, k).0, x[k as int] as int)
}

/// Every second sample, from `first` on.
pub open spec fn channel_of(x: Seq<i16>, first: int) -> Seq<i16> {
    Seq::new((x.len() / 2) as nat, |i: int| x[2 * i + first])
}

/// The feedback coefficients, split.
struct SplitCoefs {
    a0_low: i32,
    a0_high: i32,
    a1_low: i32,
    a1_high: i32,
}

fn split_coefs(a_q28: &[i32; 2], Ghost(b): Ghost<Seq<i32>>) -> (r: SplitCoefs)
    ensures
        biquad_coefs(b, a_q28@) == (BiquadCoefs {
            b,
            a0_low: r.a0_low as int,
            a0_high: r.a0_high as int,
            a1_low: r.a1_low as int,
            a1_high: r.a1_high as int,
        }),
{
    proof {
        reveal(wrap32);
    }
    proof {
        lemma2_to64();
    }
    let n0: i32 = wsub(0, a_q28[0]);
    let n1: i32 = wsub(0, a_q28[1]);
    let a0_high: i32 = shr32(n0, 14);
    let a1_high: i32 = shr32(n1, 14);
    SplitCoefs {
        a0_low: n0 - a0_high * 0x4000,
        a0_high,
        a1_low: n1 - a1_high * 0x4000,
        a1_high,
    }
}

/// Adds the scaled product to `acc`.
fn smlawb(acc: i32, b: i32, c: i32) -> (r: i32)
    ensures
        r == wrap32(acc + mul_wb(b as int, c as int)),
{
    wadd(acc, smulwb(b, c))
}

/// `v / 2^14`, rounded to nearest.
fn round_q14(v: i32) -> (r: i32)
    ensures
        r == round_shift(v as int, 14),
{
    proof {
        reveal(round_shift);
    }
    proof {
        lemma2_to64();
    }
    shr32(shr32(v, 13) + 1, 1)
}

/// Filters one sample.
fn biquad_step(b_q28: &[i32; 3], a_q28: &[i32; 2], s0: i32, s1: i32, sample: i16) -> (r: (
    i32,
    i32,
    i16,
))
    ensures
        ({
            let c = biquad_coefs(b_q28@, a_q28@);
            &&& (r.0 as int, r.1 as int) == biquad_next(c, (s0 as int, s1 as int), sample as int)
            &&& r.2 == biquad_sample(c, s0 as int, sample as int)
        }),
{
    let a: SplitCoefs = split_coefs(a_q28, Ghost(b_q28@));
    let x: i32 = sample as i32;
    let out: i32 = wmul(smlawb(s0, b_q28[0], x), 4);
    let d0: i32 = smlawb(
        smlawb(wadd(s1, round_q14(smulwb(out, a.a0_low))), out, a.a0_high),
        b_q28[1],
        x,
    );
    let d1: i32 = smlawb(
        smlawb(wadd(0, round_q14(smulwb(out, a.a1_low))), out, a.a1_high),
        b_q28[2],
        x,
    );
    proof {
        lemma2_to64();
    }
    let y: i16 = sat16(shr32(wadd(out, 0x3fff), 14));
    (d0, d1, y)
}

/// Filters a mono signal.
pub fn biquad_alt_stride1(
    input: &[i16],
    b_q28: &[i32; 3],
    a_q28: &[i32; 2],
    state: &mut [i32; 2],
    output: &mut [i16],
)
    requires
        input@.len() == old(output)@.len(),
    ensures
        ({
            let c = biquad_coefs(b_q28@, a_q28@);
            let s = (old(state)@[0] as int, old(state)@[1] as int);
            &&& final(output)@.len() == input@.len()
            &&& forall|k: int|
                0 <= k < input@.len() ==> #[trigger] final(output)@[k] == biquad_output(
                    c,
                    s,
                    input@,
                    k as nat,
                )
            &&& (final(state)@[0] as int, final(state)@[1] as int) == biquad_state(
                c,
                s,
                input@,
                input@.len(),
            )
        }),
{
    let n: usize = input.len();
    let ghost c = biquad_coefs(b_q28@, a_q28@);
    let ghost s = (state@[0] as int, state@[1] as int);
    let mut s0: i32 = state[0];
    let mut s1: i32 = state[1];
    for k in 0..n
        invariant
            n == input@.len() == output@.len(),
            c == biquad_coefs(b_q28@, a_q28@),
            (s0 as int, s1 as int) == biquad_state(c, s, input@, k as nat),
            forall|j: int|
                0 <= j < k ==> #[trigger] output@[j] == biquad_output(c, s, input@, j as nat),
    {
        let (d0, d1, y) = biquad_step(b_q28, a_q28, s0, s1, input[k]);
        output[k] = y;
        s0 = d0;
        s1 = d1;
    }
    state[0] = s0;
    state[1] = s1;
}

/// Filters a mono signal in place.
pub fn biquad_alt_stride1_inplace(
    signal: &mut [i16],
    b_q28: &[i32; 3],
    a_q28: &[i32; 2],
    state: &mut [i32; 2],
)
    ensures
        ({
            let c = biquad_coefs(b_q28@, a_q28@);
            let s = (old(state)@[0] as int, old(state)@[1] as int);
            let x = old(signal)@;
            &&& final(signal)@.len() == x.len()
            &&& forall|k: int|
                0 <= k < x.len() ==> #[trigger] final(signal)@[k] == biquad_output(
                    c,
                    s,
                    x,
                    k as nat,
                )
            &&& (final(state)@[0] as int, final(state)@[1] as int) == biquad_state(
                c,
                s,
                x,
                x.len(),
            )
        }),
{
    let n: usize = signal.len();
    let ghost c = biquad_coefs(b_q28@, a_q28@);
    let ghost s = (state@[0] as int, state@[1] as int);
    let ghost x = signal@;
    let mut s0: i32 = state[0];
    let mut s1: i32 = state[1];
    for k in 0..n
        invariant
            n == x.len() == signal@.len(),
            c == biquad_coefs(b_q28@, a_q28@),
            (s0 as int, s1 as int) == biquad_state(c, s, x, k as nat),
            forall|j: int| 0 <= j < k ==> #[trigger] signal@[j] == biquad_output(c, s, x, j as nat),
            forall|j: int| k <= j < n ==> #[trigger] signal@[j] == x[j],
    {
        let (d0, d1, y) = biquad_step(b_q28, a_q28, s0, s1, signal[k]);
        signal[k] = y;
        s0 = d0;
        s1 = d1;
    }
    state[0] = s0;
    state[1] = s1;
}

/// Filters an interleaved stereo signal: each channel on its own.
pub fn biquad_alt_stride2(
    input: &[i16],
    b_q28: &[i32; 3],
    a_q28: &[i32; 2],
    state: &mut [i32; 4],
    output: &mut [i16],
)
    requires
        input@.len() == old(output)@.len(),
        input@.len() % 2 == 0,
    ensures
        ({
            let c = biquad_coefs(b_q28@, a_q28@);
            let left = (old(state)@[0] as int, old(state)@[1] as int);
            let right = (old(state)@[2] as int, old(state)@[3] as int);
            let x0 = channel_of(input@, 0);
            let x1 = channel_of(input@, 1);
            &&& final(output)@.len() == input@.len()
            &&& forall|k: int|
                0 <= k < input@.len() / 2 ==> #[trigger] channel_of(final(output)@, 0)[k]
                    == biquad_output(c, left, x0, k as nat)
            &&& forall|k: int|
                0 <= k < input@.len() / 2 ==> #[trigger] channel_of(final(output)@, 1)[k]
                    == biquad_output(c, right, x1, k as nat)
            &&& (final(state)@[0] as int, final(state)@[1] as int) == biquad_state(
                c,
                left,
                x0,
                x0.len(),
            )
            &&& (final(state)@[2] as int, final(state)@[3] as int) == biquad_state(
                c,
                right,
                x1,
                x1.len(),
            )
        }),
{
    let n: usize = input.len();
    let half: usize = n / 2;
    let ghost c = biquad_coefs(b_q28@, a_q28@);
    let ghost left = (state@[0] as int, state@[1] as int);
    let ghost right = (state@[2] as int, state@[3] as int);
    let ghost x0 = channel_of(input@, 0);
    let ghost x1 = channel_of(input@, 1);
    let mut s0: i32 = state[0];
    let mut s1: i32 = state[1];
    let mut s2: i32 = state[2];
    let mut s3: i32 = state[3];
    for k in 0..half
        invariant
            n == input@.len() == output@.len(),
            input@.len() % 2 == 0,
            half == input@.len() / 2,
            c == biquad_coefs(b_q28@, a_q28@),
            x0 == channel_of(input@, 0),
            x1 == channel_of(input@, 1),
            (s0 as int, s1 as int) == biquad_state(c, left, x0, k as nat),
            (s2 as int, s3 as int) == biquad_state(c, right, x1, k as nat),
            forall|j: int|
                0 <= j < k ==> #[trigger] output@[2 * j] == biquad_output(c, left, x0, j as nat),
            forall|j: int|
                0 <= j < k ==> #[trigger] output@[2 * j + 1] == biquad_output(
                    c,
                    right,
                    x1,
                    j as nat,
                ),
    {
        let (d0, d1, y0) = biquad_step(b_q28, a_q28, s0, s1, input[2 * k]);
        let (d2, d3, y1) = biquad_step(b_q28, a_q28, s2, s3, input[2 * k + 1]);
        output[2 * k] = y0;
        output[2 * k + 1] = y1;
        s0 = d0;
        s1 = d1;
        s2 = d2;
        s3 = d3;
    }
    state[0] = s0;
    state[1] = s1;
    state[2] = s2;
    state[3] = s3;
}

/// A filter whose only coefficient is one, at rest, passes every sample on
/// and stays at rest.
pub proof fn law_identity_filter(b: Seq<i32>, a: Seq<i32>, x: Seq<i16>, k: nat)
    requires
        b.len() == 3,
        a.len() == 2,
        b[0] == 0x1000_0000,
        b[1] == 0,
        b[2] == 0,
        a[0] == 0,
        a[1] == 0,
        k <= x.len(),
    ensures
        biquad_state(biquad_coefs(b, a), (0, 0), x, k) == (0int, 0int),
        k < x.len() ==> biquad_output(biquad_coefs(b, a), (0, 0), x, k) == x[k as int],
    decreases k,
{
    reveal(wrap32);
    reveal(mul_wb);
    reveal(wrap16);
    reveal(round_shift);
    lemma2_to64();
    let c = biquad_coefs(b, a);
    if k > 0 {
        law_identity_filter(b, a, x, (k - 1) as nat);
        let out = biquad_q14(c, 0, x[k - 1] as int);
        assert(out * 0 == 0);
        assert(mul_wb(out, 0) == 0);
        assert(mul_wb(0, x[k - 1] as int) == 0);
    }
}

} // verus!
