//! Autocorrelation on a warped frequency axis.

use crate::fixed::{
    asr, bit_length, clamped, mul_wb, narrow32, product64, shr64, smulwb, wadd, wrap32, wsub,
};
use vstd::arithmetic::power2::{lemma2_to64, lemma_pow2_pos, lemma_pow2_unfold, pow2};
use vstd::prelude::*;

verus! {

/// Largest order.
pub const MAX_SHAPE_LPC_ORDER: usize = 24;

/// What comes out of section `i` of a chain of allpass sections (Q13) when the
/// sample `x` comes in.
pub open spec fn section(line: Seq<int>, x: int, warping: int, i: int) -> int
    decreases i,
{
    if i <= 0 {
        8192 * x
    } else {
        wrap32(
            line[i - 1] + mul_wb(
                wrap32(line[i] - section(line, x, warping, i - 1)),
                warping,
            ),
        )
    }
}

/// The chain after the first `n` samples.
pub open spec fn chain_after(input: Seq<i16>, warping: int, order: int, n: int) -> Seq<int>
    decreases n,
{
    if n <= 0 {
        Seq::new((order + 1) as nat, |i: int| 0)
    } else {
        let before = chain_after(input, warping, order, n - 1);
        Seq::new(
            (order + 1) as nat,
            |i: int| section(before, input[n - 1] as int, warping, i),
        )
    }
}

/// The correlation (Q10) of the first `n` samples with what comes out of section
/// `i`.
pub open spec fn warped_sum(input: Seq<i16>, warping: int, order: int, n: int, i: int) -> int
    decreases n,
{
    if n <= 0 {
        0
    } else {
        let line = chain_after(input, warping, order, n - 1);
        let x = input[n - 1] as int;
        warped_sum(input, warping, order, n - 1, i) + asr(
            section(line, x, warping, i) * (8192 * x),
            16,
        )
    }
}

/// Bits by which correlations are scaled up so that the first one fills 29 bits.
pub open spec fn warped_shift(energy: int) -> int {
    clamped(29 - bit_length(energy as nat), -22, 20)
}

/// A scaled correlation.
pub open spec fn scaled_up(c: int, shift: int) -> int {
    if shift >= 0 {
        wrap32(wrap32(c) * pow2(shift as nat))
    } else {
        wrap32(asr(c, (-shift) as nat))
    }
}

fn bits_of(v: i64) -> (r: i32)
    requires
        v >= 0,
    ensures
        r == bit_length(v as nat),
        0 <= r <= 63,
{
    let mut rest: i64 = v;
    let mut count: i32 = 0;
    proof {
        lemma2_to64();
        assert(pow2(63) == 0x8000_0000_0000_0000) by {
            assert(pow2(63) * 2 == pow2(64)) by {
                lemma_pow2_unfold(64);
            }
        }
    }
    while rest > 0
        invariant
            rest >= 0,
            0 <= count <= 63,
            rest < pow2((63 - count) as nat),
            bit_length(v as nat) == count + bit_length(rest as nat),
        decreases rest,
    {
        proof {
            if count == 63 {
                lemma2_to64();
            } else {
                lemma_pow2_unfold((63 - count) as nat);
            }
        }
        rest = rest / 2;
        count = count + 1;
    }
    count
}

fn power_of_two(k: i32) -> (r: i64)
    requires
        0 <= k <= 20,
    ensures
        r == pow2(k as nat),
        1 <= r <= 0x10_0000,
{
    let mut r: i64 = 1;
    let mut i: i32 = 0;
    proof {
        lemma2_to64();
    }
    while i < k
        invariant
            0 <= i <= k <= 20,
            r == pow2(i as nat),
            1 <= r,
            r * pow2((20 - i) as nat) == 0x10_0000,
        decreases k - i,
    {
        proof {
            lemma_pow2_unfold((i + 1) as nat);
            lemma_pow2_unfold((20 - i) as nat);
            lemma_pow2_pos((19 - i) as nat);
            let half = pow2((19 - i) as nat) as int;
            assert(r * (2 * half) == (2 * r) * half) by (nonlinear_arith);
            assert(2 * r <= (2 * r) * half) by (nonlinear_arith)
                requires
                    r >= 1,
                    half >= 1,
            ;
        }
        r = 2 * r;
        i = i + 1;
    }
    proof {
        lemma_pow2_pos((20 - k) as nat);
        let rest = pow2((20 - k) as nat) as int;
        assert(r <= r * rest) by (nonlinear_arith)
            requires
                r >= 1,
                rest >= 1,
        ;
    }
    r
}

fn scale_one(c: i64, shift: i32) -> (r: i32)
    requires
        -22 <= shift <= 20,
    ensures
        r == scaled_up(c as int, shift as int),
{
    if shift >= 0 {
        let low: i32 = narrow32(c);
        let factor: i64 = power_of_two(shift);
        proof {
            assert(-0x8000_0000_0000_0000 <= low * factor <= 0x7fff_ffff_ffff_ffff)
                by (nonlinear_arith)
                requires
                    -0x8000_0000 <= low <= 0x7fff_ffff,
                    1 <= factor <= 0x10_0000,
            ;
        }
        narrow32(low as i64 * factor)
    } else {
        narrow32(shr64(c, (-shift) as u32))
    }
}

/// Takes one sample through the chain, and adds its products to the sums.
fn take_sample(
    line: &mut [i32; 25],
    sums: &mut [i64; 25],
    x: i16,
    warping_q16: i32,
    order: usize,
    Ghost(most): Ghost<int>,
)
    requires
        order <= 24,
        0 <= most <= 0x3fff_c000_0000_0000,
        forall|i: int| 0 <= i <= order ==> -most <= #[trigger] old(sums)[i] <= most,
        old(sums)[0] >= 0,
    ensures
        ({
            let before = Seq::new((order + 1) as nat, |i: int| old(line)[i] as int);
            &&& forall|i: int|
                0 <= i <= order ==> #[trigger] final(line)[i] == section(
                    before,
                    x as int,
                    warping_q16 as int,
                    i,
                )
            &&& forall|i: int|
                0 <= i <= order ==> #[trigger] final(sums)[i] == old(sums)[i] + asr(
                    section(before, x as int, warping_q16 as int, i) * (8192 * x),
                    16,
                )
        }),
        forall|i: int|
            0 <= i <= order ==> -most - 0x4000_0000_0000 <= #[trigger] final(sums)[i] <= most
                + 0x4000_0000_0000,
        final(sums)[0] >= 0,
{
    let ghost before = Seq::new((order + 1) as nat, |i: int| old(line)[i] as int);
    let ghost w = warping_q16 as int;
    let first: i32 = x as i32 * 8192;
    let mut t: i32 = first;
    let mut i: usize = 0;
    while i <= order
        invariant
            order <= 24,
            i <= order + 1,
            first == 8192 * x,
            w == warping_q16,
            before == Seq::new((order + 1) as nat, |k: int| old(line)[k] as int),
            0 <= most <= 0x3fff_c000_0000_0000,
            i <= order ==> t == section(before, x as int, w, i as int),
            forall|k: int| 0 <= k <= order ==> -most <= #[trigger] old(sums)[k] <= most,
            forall|k: int|
                0 <= k < i ==> #[trigger] line[k] == section(before, x as int, w, k),
            forall|k: int| i <= k <= order ==> #[trigger] line[k] == old(line)[k],
            forall|k: int|
                0 <= k < i ==> #[trigger] sums[k] == old(sums)[k] + asr(
                    section(before, x as int, w, k) * (8192 * x),
                    16,
                ),
            forall|k: int| i <= k <= order ==> #[trigger] sums[k] == old(sums)[k],
            forall|k: int|
                0 <= k < i ==> -most - 0x4000_0000_0000 <= #[trigger] sums[k] <= most
                    + 0x4000_0000_0000,
            old(sums)[0] >= 0,
            i > 0 ==> sums[0] >= 0,
        decreases order + 1 - i,
    {
        let product: i64 = product64(t, first);
        let part: i64 = shr64(product, 16);
        proof {
            lemma2_to64();
            assert(product == section(before, x as int, w, i as int) * (8192 * x));
            if i == 0 {
                assert(product >= 0) by (nonlinear_arith)
                    requires
                        product == first * first,
                ;
            }
        }
        sums[i] = sums[i] + part;
        if i < order {
            let next: i32 = wadd(line[i], smulwb(wsub(line[i + 1], t), warping_q16));
            assert(before[i as int] == old(line)[i as int]);
            assert(before[i + 1] == old(line)[i + 1]);
            line[i] = t;
            t = next;
        } else {
            line[i] = t;
        }
        i = i + 1;
    }
}

/// Correlates the input with what comes out of each section of a chain of
/// allpass sections, and returns the scale of the results.
pub fn warped_autocorrelation(
    corr: &mut [i32],
    input: &[i16],
    warping_q16: i32,
    order: usize,
) -> (r: i32)
    requires
        order <= MAX_SHAPE_LPC_ORDER,
        order % 2 == 0,
        order + 1 <= old(corr)@.len(),
        input@.len() <= 0xfffe,
    ensures
        ({
            let n = input@.len() as int;
            let w = warping_q16 as int;
            let shift = warped_shift(warped_sum(input@, w, order as int, n, 0));
            &&& r == -(10 + shift)
            &&& final(corr)@.len() == old(corr)@.len()
            &&& forall|i: int|
                0 <= i < old(corr)@.len() ==> #[trigger] final(corr)@[i] == if i <= order {
                    scaled_up(warped_sum(input@, w, order as int, n, i), shift)
                } else {
                    old(corr)@[i] as int
                }
        }),
{
    let ghost w = warping_q16 as int;
    let n: usize = input.len();
    let room: usize = corr.len();
    let mut line: [i32; 25] = [0;25];
    let mut sums: [i64; 25] = [0;25];
    let mut k: usize = 0;
    while k < n
        invariant
            n == input@.len(),
            n <= 0xfffe,
            k <= n,
            order <= 24,
            w == warping_q16,
            forall|i: int|
                0 <= i <= order ==> #[trigger] line[i] == chain_after(
                    input@,
                    w,
                    order as int,
                    k as int,
                )[i],
            forall|i: int|
                0 <= i <= order ==> #[trigger] sums[i] == warped_sum(
                    input@,
                    w,
                    order as int,
                    k as int,
                    i,
                ),
            forall|i: int|
                0 <= i <= order ==> -k * 0x4000_0000_0000 <= #[trigger] sums[i] <= k
                    * 0x4000_0000_0000,
            sums[0] >= 0,
        decreases n - k,
    {
        let ghost before = Seq::new((order + 1) as nat, |i: int| line[i] as int);
        proof {
            assert(before =~= chain_after(input@, w, order as int, k as int));
        }
        take_sample(
            &mut line,
            &mut sums,
            input[k],
            warping_q16,
            order,
            Ghost(k * 0x4000_0000_0000),
        );
        k = k + 1;
    }
    let bits: i32 = bits_of(sums[0]);
    let wanted: i32 = 29 - bits;
    let shift: i32 = if wanted < -22 {
        -22
    } else if wanted > 20 {
        20
    } else {
        wanted
    };
    let mut i: usize = 0;
    while i <= order
        invariant
            order <= 24,
            order + 1 <= room,
            room == corr@.len(),
            room == old(corr)@.len(),
            i <= order + 1,
            -22 <= shift <= 20,
            w == warping_q16,
            n == input@.len(),
            forall|j: int|
                0 <= j <= order ==> #[trigger] sums[j] == warped_sum(
                    input@,
                    w,
                    order as int,
                    n as int,
                    j,
                ),
            forall|j: int|
                0 <= j < room ==> #[trigger] corr@[j] == if j < i {
                    scaled_up(warped_sum(input@, w, order as int, n as int, j), shift as int)
                } else {
                    old(corr)@[j] as int
                },
        decreases order + 1 - i,
    {
        corr[i] = scale_one(sums[i], shift);
        i = i + 1;
    }
    -(10 + shift)
}

} // verus!
