//! Signal energy with headroom.

use crate::fixed::{bit_length, ilog, lemma_div_is_ordered_by_denominator_signed, shr64, asr};
use crate::range::lemma_bit_length_bound;
use vstd::arithmetic::div_mod::*;
use vstd::arithmetic::mul::*;
use vstd::arithmetic::power2::*;
use vstd::prelude::*;

verus! {

/// Energy of the samples `2i` and `2i + 1`.
pub open spec fn pair_energy(x: Seq<i16>, i: int) -> int {
    x[2 * i] * x[2 * i] + if 2 * i + 1 < x.len() {
        x[2 * i + 1] * x[2 * i + 1]
    } else {
        0
    }
}

/// Sum of the first `k` pair energies, each divided by `2^shift`.
pub open spec fn energy_sum(x: Seq<i16>, shift: nat, k: nat) -> int
    decreases k,
{
    if k == 0 {
        0
    } else {
        energy_sum(x, shift, (k - 1) as nat) + asr(pair_energy(x, k - 1), shift)
    }
}

pub open spec fn pair_count(x: Seq<i16>) -> nat {
    ((x.len() + 1) / 2) as nat
}

/// A shift that is large enough for any signal of the length.
pub open spec fn coarse_shift(len: nat) -> nat {
    (bit_length(len) - 1) as nat
}

/// Energy at that shift, rounded up.
pub open spec fn coarse_energy(x: Seq<i16>) -> int {
    x.len() + energy_sum(x, coarse_shift(x.len()), pair_count(x))
}

/// The smallest shift that leaves the energy two bits of headroom, as far as
/// the coarse energy tells.
pub open spec fn energy_shift(x: Seq<i16>) -> nat {
    let need = coarse_shift(x.len()) + 3 - (32 - bit_length(coarse_energy(x) as nat));
    if need > 0 {
        need as nat
    } else {
        0
    }
}

/// The energy at that shift.
pub open spec fn scaled_energy(x: Seq<i16>) -> int {
    energy_sum(x, energy_shift(x), pair_count(x))
}

proof fn lemma_pair_energy(x: Seq<i16>, i: int)
    requires
        0 <= 2 * i < x.len(),
    ensures
        0 <= pair_energy(x, i) <= 0x8000_0000,
{
    let a = x[2 * i] as int;
    assert(0 <= a * a <= 0x4000_0000) by (nonlinear_arith)
        requires
            -0x8000 <= a <= 0x7fff,
    ;
    if 2 * i + 1 < x.len() {
        let b = x[2 * i + 1] as int;
        assert(0 <= b * b <= 0x4000_0000) by (nonlinear_arith)
            requires
                -0x8000 <= b <= 0x7fff,
        ;
    }
}

/// Bounds between sums at different shifts.
proof fn lemma_energy_bounds(x: Seq<i16>, s: nat, k: nat)
    requires
        k <= pair_count(x),
    ensures
        0 <= energy_sum(x, s, k),
        energy_sum(x, s, k) * pow2(s) <= energy_sum(x, 0, k),
        energy_sum(x, 0, k) <= (energy_sum(x, s, k) + k) * pow2(s),
        energy_sum(x, 0, k) <= k * 0x8000_0000,
    decreases k,
{
    lemma_pow2_pos(s);
    lemma2_to64();
    let p = pow2(s) as int;
    if k > 0 {
        lemma_energy_bounds(x, s, (k - 1) as nat);
        lemma_pair_energy(x, k - 1);
        let e = pair_energy(x, k - 1);
        let q = e / p;
        lemma_fundamental_div_mod(e, p);
        lemma_mod_bound(e, p);
        lemma_div_pos_is_pos(e, p);
        lemma_div_basics(e);
        let a = energy_sum(x, s, (k - 1) as nat);
        assert((a + q) * p == a * p + p * q) by (nonlinear_arith);
        assert((a + q + k) * p == (a + (k - 1)) * p + p * q + p) by (nonlinear_arith);
    } else {
        assert(0 * p == 0);
    }
}

/// The coarse energy fits, and the energy has two bits of headroom.
pub proof fn lemma_energy_fits(x: Seq<i16>)
    requires
        0 < x.len() <= 0x0fff_ffff,
    ensures
        coarse_shift(x.len()) <= 27,
        0 < coarse_energy(x) <= 0xffff_ffff,
        energy_shift(x) <= 31,
        0 <= scaled_energy(x) < 0x2000_0000,
{
    let n = x.len();
    let k = pair_count(x);
    let s = coarse_shift(n);
    lemma2_to64();
    lemma_bit_length_bound(n);
    if bit_length(n) > 28 {
        lemma_pow2_strictly_increases(28, bit_length(n));
        if bit_length(n) > 29 {
            lemma_pow2_strictly_increases(28, (bit_length(n) - 1) as nat);
        }
        assert(false);
    }
    lemma_energy_bounds(x, s, k);
    lemma_pow2_unfold(bit_length(n));
    let p = pow2(s) as int;
    let c = energy_sum(x, s, k);
    assert(n < 2 * p);
    assert(2 * k <= n + 1 <= 2 * p);
    assert(c <= 0x8000_0000) by (nonlinear_arith)
        requires
            c * p <= k * 0x8000_0000,
            k <= p,
            p > 0,
    ;
    let nrg = coarse_energy(x);
    lemma_bit_length_bound(nrg as nat);
    let b = bit_length(nrg as nat);
    if b > 32 {
        lemma_pow2_strictly_increases(32, b);
        if b > 33 {
            lemma_pow2_strictly_increases(32, (b - 1) as nat);
        }
        assert(false);
    }
    let t = energy_shift(x);
    lemma_energy_bounds(x, t, k);
    let e = scaled_energy(x);
    let total = energy_sum(x, 0, k);
    // total <= nrg * 2^s < 2^(b + s)
    lemma_pow2_adds(b, s);
    lemma_pow2_pos(s);
    assert(total <= nrg * p) by (nonlinear_arith)
        requires
            total <= (c + k) * p,
            c + k <= nrg,
            p > 0,
    ;
    assert(nrg * p < pow2(b) * p) by (nonlinear_arith)
        requires
            nrg < pow2(b),
            p > 0,
    ;
    lemma_pow2_pos(t);
    lemma_pow2_adds(29, t);
    assert(b + s <= 29 + t);
    if b + s < 29 + t {
        lemma_pow2_strictly_increases(b + s, 29 + t);
    }
    let pt = pow2(t) as int;
    assert(e < 0x2000_0000) by (nonlinear_arith)
        requires
            e * pt <= total,
            total < 0x2000_0000 * pt,
            pt > 0,
    ;
}

fn sum_pairs(x: &[i16], shift: u32) -> (r: u64)
    requires
        x@.len() <= 0x0fff_ffff,
        shift < 64,
    ensures
        r == energy_sum(x@, shift as nat, pair_count(x@)),
{
    let n: usize = x.len();
    let pairs: usize = (n + 1) / 2;
    let mut total: u64 = 0;
    proof {
        lemma_energy_bounds(x@, shift as nat, 0);
    }
    for k in 0..pairs
        invariant
            n == x@.len() <= 0x0fff_ffff,
            pairs == pair_count(x@),
            shift < 64,
            total == energy_sum(x@, shift as nat, k as nat),
            total <= k * 0x8000_0000,
    {
        proof {
            lemma_pair_energy(x@, k as int);
            lemma_pow2_pos(shift as nat);
            lemma_div_is_ordered_by_denominator_signed(
                pair_energy(x@, k as int),
                pow2(shift as nat) as int,
            );
        }
        let a: i64 = x[2 * k] as i64;
        proof {
            let ai = x@[2 * k as int] as int;
            assert(0 <= ai * ai <= 0x4000_0000) by (nonlinear_arith)
                requires
                    -0x8000 <= ai <= 0x7fff,
            ;
        }
        let mut e: i64 = a * a;
        if 2 * k + 1 < n {
            let b: i64 = x[2 * k + 1] as i64;
            proof {
                let bi = x@[2 * k + 1] as int;
                assert(0 <= bi * bi <= 0x4000_0000) by (nonlinear_arith)
                    requires
                        -0x8000 <= bi <= 0x7fff,
                ;
            }
            e = e + b * b;
        }
        let part: i64 = shr64(e, shift);
        total = total + part as u64;
    }
    total
}

/// The energy of a signal and the shift it is divided by, which leaves two
/// bits of headroom.
pub fn sum_sqr_shift(x: &[i16]) -> (r: (i32, i32))
    requires
        0 < x@.len() <= 0x0fff_ffff,
    ensures
        r.0 == scaled_energy(x@),
        r.1 == energy_shift(x@),
        0 <= r.0 < 0x2000_0000,
        0 <= r.1 <= 31,
{
    let n: usize = x.len();
    proof {
        lemma_energy_fits(x@);
        lemma_bit_length_bound(x@.len());
    }
    let coarse: u32 = ilog(n as u32) - 1;
    let nrg: u32 = (n as u64 + sum_pairs(x, coarse)) as u32;
    let used: u32 = ilog(nrg);
    let shift: u32 = if coarse + 3 + used > 32 {
        coarse + 3 + used - 32
    } else {
        0
    };
    let energy: u64 = sum_pairs(x, shift);
    (energy as i32, shift as i32)
}

} // verus!
