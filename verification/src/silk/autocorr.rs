//! Autocorrelation with automatic scaling.

use crate::fixed::{asr, bit_length, ilog, lemma_wrap32_range, narrow32, shr32, wadd, wmul, wrap32};
use crate::range::lemma_bit_length_bound;
use crate::silk::corr_matrix::lag_sum;
use crate::silk::inner_prod::mul16;
use vstd::arithmetic::div_mod::*;
use vstd::arithmetic::power2::*;
use vstd::bits::*;
use vstd::prelude::*;

verus! {

/// Sum of the first `k` squares, each divided by 512.
pub open spec fn coarse_squares(x: Seq<i16>, k: nat) -> int
    decreases k,
{
    if k == 0 {
        0
    } else {
        coarse_squares(x, (k - 1) as nat) + (x[k - 1] * x[k - 1]) / 512
    }
}

/// An estimate of the energy, divided by 512.
pub open spec fn energy_estimate(x: Seq<i16>) -> int {
    1 + 128 * x.len() + coarse_squares(x, x.len())
}

/// How far the samples are scaled down: half the bits by which the estimate
/// exceeds 21.
pub open spec fn sample_shift(x: Seq<i16>) -> nat {
    let bits = bit_length(energy_estimate(x) as nat);
    if bits >= 21 {
        ((bits - 21) / 2) as nat
    } else {
        0
    }
}

/// The samples scaled down, rounded to nearest.
pub open spec fn scaled_signal(x: Seq<i16>) -> Seq<i16> {
    let shift = sample_shift(x);
    if shift == 0 {
        x
    } else {
        Seq::new(
            x.len(),
            |i: int| asr(x[i] + pow2((shift - 1) as nat) as int, shift) as i16,
        )
    }
}

/// Correlation of the scaled signal at lag `k`, one more at lag 0 if it was
/// not scaled.
pub open spec fn raw_correlation(x: Seq<i16>, k: int) -> int {
    let c = wrap32(lag_sum(scaled_signal(x), k, 0, k, x.len() as int));
    if k == 0 && sample_shift(x) == 0 {
        wrap32(c + 1)
    } else {
        c
    }
}

/// How far correlations are scaled up so that the one at lag 0 has 29 bits.
pub open spec fn norm_shift(first: int) -> int {
    if first < 0x1000_0000 {
        29 - bit_length(first as nat)
    } else if first >= 0x4000_0000 {
        -2
    } else if first >= 0x2000_0000 {
        -1
    } else {
        0
    }
}

/// A correlation scaled by `2^up`.
pub open spec fn normalized(v: int, up: int) -> int {
    if up > 0 {
        wrap32(v * pow2(up as nat) as int)
    } else {
        asr(v, (-up) as nat)
    }
}

proof fn lemma_square(a: i16)
    ensures
        0 <= a * a <= 0x4000_0000,
        0 <= (a * a) / 512 <= 0x20_0000,
{
    assert(0 <= a * a <= 0x4000_0000) by (nonlinear_arith)
        requires
            -0x8000 <= a <= 0x7fff,
    ;
}

proof fn lemma_coarse_grows(x: Seq<i16>, a: nat, b: nat)
    requires
        a <= b <= x.len(),
    ensures
        0 <= coarse_squares(x, a) <= coarse_squares(x, b),
    decreases b,
{
    if b > 0 {
        lemma_square(x[b - 1]);
        if a < b {
            lemma_coarse_grows(x, a, (b - 1) as nat);
        } else {
            lemma_coarse_grows(x, (a - 1) as nat, (b - 1) as nat);
        }
    }
}

fn estimate(input: &[i16]) -> (r: u32)
    requires
        energy_estimate(input@) <= i32::MAX,
    ensures
        r == energy_estimate(input@),
{
    let n: usize = input.len();
    proof {
        lemma_coarse_grows(input@, 0, n as nat);
    }
    let mut total: u32 = 1 + 128 * n as u32;
    for k in 0..n
        invariant
            n == input@.len(),
            total == 1 + 128 * n + coarse_squares(input@, k as nat),
            energy_estimate(input@) <= i32::MAX,
    {
        proof {
            lemma_square(input@[k as int]);
            lemma_coarse_grows(input@, (k + 1) as nat, n as nat);
        }
        total = total + (mul16(input[k], input[k]) / 512) as u32;
    }
    total
}

/// Sum of products of samples `k` apart.
fn correlation(signal: &[i16], k: usize) -> (r: i32)
    requires
        k <= signal@.len() <= 0x0100_0000,
    ensures
        r == wrap32(lag_sum(signal@, k as int, 0, k as int, signal@.len() as int)),
{
    let n: usize = signal.len();
    let mut acc: i64 = 0;
    proof {
        lemma2_to64();
    }
    for i in k..n
        invariant
            k <= n == signal@.len() <= 0x0100_0000,
            acc == lag_sum(signal@, k as int, 0, k as int, i as int),
            -0x4000_0000 * (i - k) <= acc <= 0x4000_0000 * (i - k),
            pow2(0) == 1,
    {
        let p: i32 = mul16(signal[i], signal[i - k]);
        proof {
            lemma_div_basics(p as int);
        }
        acc = acc + p as i64;
    }
    narrow32(acc)
}

/// Correlations of `input` at the lags below `correlation_count`, scaled so
/// that the one at lag 0 lies between `2^28` and `2^29`, and the power of two
/// by which they are too small.
pub fn autocorr(
    results: &mut [i32],
    input: &[i16],
    correlation_count: usize,
    arch: i32,
    scratch: &mut [i16],
) -> (scale: i32)
    requires
        correlation_count > 0,
        input@.len() > 0,
        old(results)@.len() >= correlation_count || old(results)@.len() >= input@.len(),
        old(scratch)@.len() >= input@.len(),
        energy_estimate(input@) <= i32::MAX,
        raw_correlation(input@, 0) > 0,
    ensures
        ({
            let n = input@.len() as int;
            let count = if correlation_count < n {
                correlation_count as int
            } else {
                n
            };
            let up = norm_shift(raw_correlation(input@, 0));
            &&& final(results)@.len() == old(results)@.len()
            &&& forall|k: int|
                0 <= k < count ==> #[trigger] final(results)@[k] == normalized(
                    raw_correlation(input@, k),
                    up,
                )
            &&& forall|k: int|
                count <= k < old(results)@.len() ==> #[trigger] final(results)@[k] == old(
                    results,
                )@[k]
            &&& scale == 2 * sample_shift(input@) - up
            &&& 0x1000_0000 <= final(results)@[0] < 0x2000_0000
            &&& final(scratch)@.len() == old(scratch)@.len()
            &&& forall|i: int|
                0 <= i < old(scratch)@.len() ==> #[trigger] final(scratch)@[i] == if i < n
                    && sample_shift(input@) > 0 {
                    scaled_signal(input@)[i]
                } else {
                    old(scratch)@[i]
                }
        }),
{
    let n: usize = input.len();
    let count: usize = if correlation_count < n {
        correlation_count
    } else {
        n
    };
    proof {
        lemma_coarse_grows(input@, 0, n as nat);
    }
    let bits: u32 = ilog(estimate(input));
    let shift: u32 = if bits >= 21 {
        (bits - 21) / 2
    } else {
        0
    };
    let ghost sig = scaled_signal(input@);
    if shift > 0 {
        proof {
            lemma2_to64();
            lemma_u32_shl_is_mul(1, (shift - 1) as u32);
            lemma_pow2_strictly_increases((shift - 1) as nat, 15);
            lemma_pow2_pos((shift - 1) as nat);
        }
        let half: i32 = (1u32 << (shift - 1)) as i32;
        for i in 0..n
            invariant
                n == input@.len() <= scratch@.len(),
                0 < shift <= 6,
                shift == sample_shift(input@),
                half == pow2((shift - 1) as nat),
                1 <= half <= 0x8000,
                scratch@.len() == old(scratch)@.len(),
                sig == scaled_signal(input@),
                forall|j: int| 0 <= j < i ==> #[trigger] scratch@[j] == sig[j],
                forall|j: int| i <= j < scratch@.len() ==> #[trigger] scratch@[j] == old(scratch)@[j],
        {
            let v: i32 = input[i] as i32 + half;
            proof {
                lemma_pow2_unfold(shift as nat);
                lemma_rounded_fits(input@[i as int] as int, half as int);
            }
            scratch[i] = shr32(v, shift) as i16;
        }
        proof {
            assert(scratch@.subrange(0, n as int) =~= sig);
        }
        let signal: &[i16] = &scratch[0..n];
        for k in 0..count
            invariant
                count <= n == input@.len() <= 0x0100_0000,
                signal@ == sig,
                sig == scaled_signal(input@),
                sig.len() == n,
                sample_shift(input@) > 0,
                results@.len() == old(results)@.len() >= count,
                forall|j: int| 0 <= j < k ==> #[trigger] results@[j] == raw_correlation(input@, j),
                forall|j: int| k <= j < results@.len() ==> #[trigger] results@[j] == old(results)@[j],
        {
            results[k] = correlation(signal, k);
        }
    } else {
        for k in 0..count
            invariant
                count <= n == input@.len() <= 0x0100_0000,
                input@ == sig,
                sig == scaled_signal(input@),
                sample_shift(input@) == 0,
                results@.len() == old(results)@.len() >= count,
                forall|j: int| 0 <= j < k ==> #[trigger] results@[j] == raw_correlation(input@, j),
                forall|j: int| k <= j < results@.len() ==> #[trigger] results@[j] == old(results)@[j],
        {
            let c: i32 = correlation(input, k);
            results[k] = if k == 0 {
                wadd(c, 1)
            } else {
                c
            };
        }
    }
    let first: i32 = results[0];
    let ghost up = norm_shift(first as int);
    proof {
        lemma_norm_range(first as int);
    }
    let ghost raw = results@;
    if first < 0x1000_0000 {
        let used: u32 = ilog(first as u32);
        let grow: u32 = 29 - used;
        proof {
            lemma2_to64();
            lemma_pow2_strictly_increases(grow as nat, 31);
            lemma_u32_shl_is_mul(1, grow);
        }
        let factor: i32 = (1u32 << grow) as i32;
        for k in 0..count
            invariant
                count <= results@.len(),
                results@.len() == raw.len(),
                up == grow,
                grow > 0,
                factor == pow2(grow as nat),
                forall|j: int| 0 <= j < k ==> #[trigger] results@[j] == normalized(raw[j] as int, up),
                forall|j: int| k <= j < results@.len() ==> #[trigger] results@[j] == raw[j],
        {
            results[k] = wmul(results[k], factor);
        }
        2 * shift as i32 - grow as i32
    } else if first >= 0x2000_0000 {
        let cut: u32 = if first >= 0x4000_0000 {
            2
        } else {
            1
        };
        for k in 0..count
            invariant
                count <= results@.len(),
                results@.len() == raw.len(),
                up == -cut,
                0 < cut <= 2,
                forall|j: int| 0 <= j < k ==> #[trigger] results@[j] == normalized(raw[j] as int, up),
                forall|j: int| k <= j < results@.len() ==> #[trigger] results@[j] == raw[j],
        {
            results[k] = shr32(results[k], cut);
        }
        2 * shift as i32 + cut as i32
    } else {
        proof {
            lemma2_to64();
            assert forall|j: int| 0 <= j < count implies #[trigger] results@[j] == normalized(
                raw[j] as int,
                up,
            ) by {
                lemma_div_basics(raw[j] as int);
            }
        }
        2 * shift as i32
    }
}

/// A rounded sample fits 16 bits.
proof fn lemma_rounded_fits(v: int, half: int)
    requires
        -0x8000 <= v <= 0x7fff,
        1 <= half <= 0x8000,
    ensures
        -0x8000 <= (v + half) / (2 * half) <= 0x7fff,
{
    let d = 2 * half;
    let q = (v + half) / d;
    lemma_fundamental_div_mod(v + half, d);
    lemma_mod_bound(v + half, d);
    assert(-0x8000 <= q <= 0x7fff) by (nonlinear_arith)
        requires
            v + half == d * q + (v + half) % d,
            0 <= (v + half) % d < d,
            d == 2 * half,
            half >= 1,
            -0x8000 <= v <= 0x7fff,
    ;
}

/// Normalising gives 29 bits.
proof fn lemma_norm_range(first: int)
    requires
        0 < first <= i32::MAX,
    ensures
        0x1000_0000 <= normalized(first, norm_shift(first)) < 0x2000_0000,
        first < 0x1000_0000 ==> 1 <= norm_shift(first) <= 28,
{
    lemma2_to64();
    let b = bit_length(first as nat);
    lemma_bit_length_bound(first as nat);
    if first < 0x1000_0000 {
        if b > 28 {
            if b > 29 {
                lemma_pow2_strictly_increases(28, (b - 1) as nat);
            }
            assert(false);
        }
        let up = (29 - b) as nat;
        lemma_pow2_adds(b, up);
        lemma_pow2_adds((b - 1) as nat, up);
        lemma_pow2_pos(up);
        let p = pow2(up) as int;
        assert(pow2((b - 1) as nat) * p <= first * p < pow2(b) * p) by (nonlinear_arith)
            requires
                pow2((b - 1) as nat) <= first < pow2(b),
                p > 0,
        ;
        lemma_wrap32_range(first * p);
    } else {
        lemma_div_basics(first);
        assert((-(-2int)) as nat == 2);
        assert((-(-1int)) as nat == 1);
        assert((-0int) as nat == 0);
        assert(asr(first, 2) == first / 4);
        assert(asr(first, 1) == first / 2);
        assert(asr(first, 0) == first);
    }
}

// ---------------------------------------------------------------------
// Energy
// ---------------------------------------------------------------------

/// The energy is that of the estimate, but for what its divisions cut off.
proof fn lemma_energy_of_estimate(x: Seq<i16>, k: nat)
    requires
        k <= x.len(),
    ensures
        0 <= lag_sum(x, 0, 0, 0, k as int) <= 512 * coarse_squares(x, k) + 511 * k,
        512 * coarse_squares(x, k) <= lag_sum(x, 0, 0, 0, k as int),
    decreases k,
{
    if k > 0 {
        lemma_energy_of_estimate(x, (k - 1) as nat);
        lemma_square(x[k - 1]);
        lemma_div_basics(x[k - 1] * x[k - 1]);
        lemma2_to64();
        lemma_fundamental_div_mod(x[k - 1] * x[k - 1], 512);
    }
}

/// A sample that is divided by `p` and rounded.
proof fn lemma_scaled_square(x: int, y: int, p: int)
    requires
        p >= 2,
        p % 2 == 0,
        y == (x + p / 2) / p,
    ensures
        64 * ((y * y) * (p * p)) <= 65 * (x * x) + 1040 * (p * p),
        y == 0 ==> 4 * (x * x) <= p * p,
{
    let h = p / 2;
    let v = y * p;
    lemma_fundamental_div_mod(x + h, p);
    lemma_mod_bound(x + h, p);
    vstd::arithmetic::mul::lemma_mul_is_commutative(p, y);
    assert(x - h < v <= x + h);
    let m = if x >= 0 {
        x
    } else {
        -x
    };
    assert(v * v <= (m + h) * (m + h)) by (nonlinear_arith)
        requires
            -(m + h) <= v <= m + h,
    ;
    assert((m + h) * (m + h) == m * m + p * m + h * h) by (nonlinear_arith)
        requires
            p == 2 * h,
    ;
    assert(m * m == x * x) by (nonlinear_arith)
        requires
            m == x || m == -x,
    ;
    assert(4 * (h * h) == p * p) by (nonlinear_arith)
        requires
            p == 2 * h,
    ;
    let d = m - 32 * p;
    assert(0 <= d * d) by (nonlinear_arith);
    assert(64 * (p * m) <= m * m + 1024 * (p * p)) by (nonlinear_arith)
        requires
            0 <= d * d,
            d == m - 32 * p,
    ;
    assert(v * v == (y * y) * (p * p)) by (nonlinear_arith)
        requires
            v == y * p,
    ;
    if y == 0 {
        assert(v == 0) by (nonlinear_arith)
            requires
                v == y * p,
                y == 0,
        ;
        assert(x * x <= h * h) by (nonlinear_arith)
            requires
                -h <= x <= h,
        ;
    }
}

/// The energy of samples that are divided by `p` and rounded.
proof fn lemma_scaled_energy(x: Seq<i16>, y: Seq<i16>, p: int, k: nat)
    requires
        p >= 2,
        p % 2 == 0,
        x.len() == y.len(),
        k <= x.len(),
        forall|i: int| 0 <= i < x.len() ==> #[trigger] y[i] == (x[i] + p / 2) / p,
    ensures
        0 <= lag_sum(y, 0, 0, 0, k as int),
        64 * (lag_sum(y, 0, 0, 0, k as int) * (p * p)) <= 65 * lag_sum(x, 0, 0, 0, k as int)
            + 1040 * (k * (p * p)),
        lag_sum(y, 0, 0, 0, k as int) == 0 ==> 4 * lag_sum(x, 0, 0, 0, k as int) <= k * (p * p),
    decreases k,
{
    let q = p * p;
    if k == 0 {
        assert(0 * q == 0);
    } else {
        let xs = x[k - 1] * x[k - 1];
        let ys = y[k - 1] * y[k - 1];
        lemma_scaled_energy(x, y, p, (k - 1) as nat);
        lemma_scaled_square(x[k - 1] as int, y[k - 1] as int, p);
        lemma_square(x[k - 1]);
        lemma_square(y[k - 1]);
        lemma2_to64();
        lemma_div_basics(xs);
        lemma_div_basics(ys);
        let before = lag_sum(y, 0, 0, 0, k - 1);
        assert((before + ys) * q == before * q + ys * q) by (nonlinear_arith);
        assert(k * q == (k - 1) * q + q) by (nonlinear_arith);
        if before + ys == 0 {
            assert(y[k - 1] == 0) by (nonlinear_arith)
                requires
                    y[k - 1] * y[k - 1] == 0,
            ;
        }
    }
}

/// The correlation at lag 0 is positive where the samples need no scaling, and
/// where they are scaled and the energy stays a thirty-second below the bound at
/// which they would be scaled further. Right below that bound, rounding can lift
/// it out of 32 bits.
pub proof fn law_correlation_is_positive(x: Seq<i16>)
    requires
        1 <= x.len() <= 8192,
        energy_estimate(x) <= i32::MAX,
        sample_shift(x) > 0 ==> 32 * energy_estimate(x) <= 31 * pow2(22 + 2 * sample_shift(x)),
    ensures
        raw_correlation(x, 0) > 0,
{
    let n = x.len() as int;
    let e = energy_estimate(x);
    let shift = sample_shift(x);
    let energy = lag_sum(x, 0, 0, 0, n);
    lemma_energy_of_estimate(x, x.len());
    lemma_coarse_grows(x, 0, x.len());
    lemma_bit_length_bound(e as nat);
    lemma2_to64();
    let bits = bit_length(e as nat);
    if shift == 0 {
        if bits > 22 {
            assert(bits >= 23);
        }
        if bits < 22 {
            lemma_pow2_strictly_increases(bits, 22);
        }
        assert(e < 0x40_0000);
        lemma_wrap32_range(energy);
        lemma_wrap32_range(energy + 1);
    } else {
        let p = pow2(shift) as int;
        let y = scaled_signal(x);
        lemma_pow2_unfold(shift);
        lemma_pow2_pos((shift - 1) as nat);
        if bits > 32 {
            lemma_pow2_strictly_increases(31, (bits - 1) as nat);
        }
        if shift < 6 {
            lemma_pow2_strictly_increases(shift, 6);
        }
        lemma_pow2_adds(shift, shift);
        lemma_pow2_adds(20, 2 * shift);
        lemma_pow2_adds(22, 2 * shift);
        let q = p * p;
        assert(pow2(2 * shift) == q);
        assert(pow2(20) == 0x10_0000 && pow2(22) == 0x40_0000);
        assert forall|i: int| 0 <= i < x.len() implies #[trigger] y[i] == (x[i] + p / 2) / p by {
            assert(pow2((shift - 1) as nat) == p / 2);
            lemma_rounded_fits(x[i] as int, p / 2);
        }
        lemma_scaled_energy(x, y, p, x.len());
        let scaled = lag_sum(y, 0, 0, 0, n);
        assert(q >= 4) by (nonlinear_arith)
            requires
                p >= 2,
                q == p * p,
        ;
        assert(n * q <= 8192 * q) by (nonlinear_arith)
            requires
                n <= 8192,
                q >= 0,
        ;
        assert(energy <= 512 * e);
        assert(scaled < 0x8000_0000) by (nonlinear_arith)
            requires
                64 * (scaled * q) <= 65 * energy + 1040 * (n * q),
                energy <= 512 * e,
                32 * e <= 31 * (0x40_0000 * q),
                n * q <= 8192 * q,
                q >= 4,
        ;
        if scaled == 0 {
            if bits > 21 + 2 * shift {
                lemma_pow2_strictly_increases(20 + 2 * shift, (bits - 1) as nat);
            }
            assert(0x10_0000 * q <= e);
        }
        lemma_wrap32_range(scaled);
    }
}

} // verus!
