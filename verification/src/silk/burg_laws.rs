//! What Burg's method finds.
//!
//! The reflection coefficient of an order is the one that makes the energies of the
//! forward and the backward residual smallest, taken together. At order one that is
//! stated in terms of the signal.

use crate::fixed::{
    asr, bit_length, lemma_mul_wb, lemma_wrap32_range, mul_mm, mul_ww, round_shift, wrap32,
};
use crate::range::lemma_bit_length_bound;
use crate::silk::burg_modified::{
    burg_coef, burg_residual, burg_run, burg_shift, burg_start, burg_step, burg_sums, conditioned,
    filter_energy, filter_norm, lag_product, next_gain, product_term, reflected, reflection,
    reflection_num, residual_gain, residual_start, row_sum, scaled_down, with_product,
    without_all_edges, without_edges, BurgRows, BurgSums,
};
use crate::silk::division_laws::{law_quotient_has_the_sign, law_ratio_is_close};
use crate::silk::math::{abs, headroom, lemma_headroom};
use vstd::arithmetic::div_mod::*;
use vstd::arithmetic::power2::*;
use vstd::prelude::*;

verus! {

/// The reflection coefficient (Q31) of correlations `s` solves the normal equation
/// of its order: `nrg` times the coefficient and twice the correlation cancel, but
/// for rounding. So it opposes the correlation.
pub proof fn law_reflection_opposes_correlation(s: BurgSums)
    requires
        -0x3fff_ffff <= s.num + s.tail <= 0x3fff_ffff,
        0 < s.nrg <= 0x7fff_ffff,
        2 * abs(s.num + s.tail) < s.nrg,
    ensures
        ({
            let rc = reflection(reflection_num(s), s.nrg);
            let c = s.num + s.tail;
            &&& -0x8000_0000 <= rc <= 0x7fff_ffff
            &&& -65 * s.nrg <= rc * s.nrg + 0x1_0000_0000 * c <= 65 * s.nrg
            &&& c >= 0 ==> rc <= 0
            &&& c <= 0 ==> rc >= 0
        }),
{
    lemma2_to64();
    let c = s.num + s.tail;
    lemma_wrap32_range(c);
    lemma_wrap32_range(-c);
    lemma_wrap32_range(-c * 2);
    assert(reflection_num(s) == -2 * c);
    law_ratio_is_close(-2 * c, s.nrg);
    law_quotient_has_the_sign(-2 * c, s.nrg, 31);
}

// ---------------------------------------------------------------------
// Sums over a signal
// ---------------------------------------------------------------------

/// Sum of the products of neighbours, over the first `s` subframes.
pub open spec fn neighbours(x: Seq<i16>, len: int, s: nat) -> int
    decreases s,
{
    if s == 0 {
        0
    } else {
        neighbours(x, len, (s - 1) as nat) + lag_product(x, (s - 1) * len, 1, len)
    }
}

/// Sum of the squares of first samples, over the first `s` subframes.
pub open spec fn first_squares(x: Seq<i16>, len: int, s: nat) -> int
    decreases s,
{
    if s == 0 {
        0
    } else {
        first_squares(x, len, (s - 1) as nat) + x[(s - 1) * len] * x[(s - 1) * len]
    }
}

/// Sum of the squares of last samples, over the first `s` subframes.
pub open spec fn last_squares(x: Seq<i16>, len: int, s: nat) -> int
    decreases s,
{
    if s == 0 {
        0
    } else {
        last_squares(x, len, (s - 1) as nat) + x[(s - 1) * len + len - 1] * x[(s - 1) * len + len
            - 1]
    }
}

proof fn lemma_square(v: int)
    ensures
        v * v >= 0,
{
    assert(v * v >= 0) by (nonlinear_arith);
}

/// In a subframe, the squares of the samples that have a neighbour before and of
/// those that have one behind amount to at least twice what neighbours correlate.
proof fn lemma_pairs(x: Seq<i16>, base: int, to: int)
    requires
        to >= 1,
    ensures
        ({
            let energy = lag_product(x, base, 0, to);
            let first = x[base] * x[base];
            let last = x[base + to - 1] * x[base + to - 1];
            let pair = lag_product(x, base, 1, to);
            &&& 2 * energy - first - last >= 2 * abs(pair)
            &&& energy >= first
            &&& energy >= last
            &&& first >= 0
            &&& last >= 0
        }),
    decreases to,
{
    lemma_square(x[base] as int);
    lemma_square(x[base + to - 1] as int);
    if to == 1 {
        assert(lag_product(x, base, 0, 0) == 0);
        assert(lag_product(x, base, 0, 1) == x[base] * x[base]);
        assert(lag_product(x, base, 1, 1) == 0);
    } else {
        lemma_pairs(x, base, to - 1);
        let a = x[base + to - 1] as int;
        let b = x[base + to - 2] as int;
        assert(2 * (a * b) <= a * a + b * b && -2 * (a * b) <= a * a + b * b) by (nonlinear_arith);
    }
}

/// Sums over subframes.
proof fn lemma_subframes(x: Seq<i16>, len: int, s: nat)
    requires
        len >= 1,
    ensures
        lag_product(x, 0, 0, len * s) == subframe_energies(x, len, s),
        2 * subframe_energies(x, len, s) - first_squares(x, len, s) - last_squares(x, len, s) >= 2
            * abs(neighbours(x, len, s)),
        0 <= first_squares(x, len, s) <= subframe_energies(x, len, s),
        0 <= last_squares(x, len, s) <= subframe_energies(x, len, s),
    decreases s,
{
    if s == 0 {
        assert(len * 0 == 0);
    } else {
        let t = (s - 1) as nat;
        lemma_subframes(x, len, t);
        lemma_pairs(x, t * len, len);
        lemma_split(x, len * t, len);
        assert(len * s == len * t + len) by (nonlinear_arith)
            requires
                s == t + 1,
        ;
        assert(len * t == t * len) by (nonlinear_arith);
    }
}

/// Sum of the energies of the first `s` subframes.
spec fn subframe_energies(x: Seq<i16>, len: int, s: nat) -> int
    decreases s,
{
    if s == 0 {
        0
    } else {
        subframe_energies(x, len, (s - 1) as nat) + lag_product(x, (s - 1) * len, 0, len)
    }
}

proof fn lemma_split(x: Seq<i16>, base: int, to: int)
    requires
        base >= 0,
        to >= 0,
    ensures
        lag_product(x, 0, 0, base + to) == lag_product(x, 0, 0, base) + lag_product(x, base, 0, to),
    decreases to,
{
    if to > 0 {
        lemma_split(x, base, to - 1);
    }
}

/// The energies grow with the subframes.
proof fn lemma_energies_grow(x: Seq<i16>, len: int, s: nat, nb: nat)
    requires
        len >= 1,
        s <= nb,
    ensures
        0 <= subframe_energies(x, len, s) <= subframe_energies(x, len, nb),
        s < nb ==> x[s * len] * x[s * len] <= subframe_energies(x, len, nb),
        s < nb ==> x[s * len + len - 1] * x[s * len + len - 1] <= subframe_energies(x, len, nb),
        s < nb ==> abs(lag_product(x, s * len, 1, len)) <= subframe_energies(x, len, nb),
    decreases nb,
{
    if s == nb {
        lemma_subframes(x, len, s);
    } else {
        let t = (nb - 1) as nat;
        lemma_energies_grow(x, len, s, t);
        lemma_pairs(x, t * len, len);
    }
}

// ---------------------------------------------------------------------
// Scaled sums
// ---------------------------------------------------------------------

/// The scale of the correlations: a factor where the signal is weak, a divisor
/// where it is strong.
spec fn scale_of(rs: int) -> int {
    pow2(abs(rs) as nat) as int
}

/// `w` is `v` at scale `rs`, and less by at most `slack` where it is divided.
spec fn below(rs: int, v: int, w: int, slack: int) -> bool {
    if rs <= 0 {
        w == v * scale_of(rs)
    } else {
        v - slack * scale_of(rs) <= w * scale_of(rs) <= v
    }
}

/// `w` is `v` at scale `rs`, and more by at most `slack` where it is divided.
spec fn above(rs: int, v: int, w: int, slack: int) -> bool {
    if rs <= 0 {
        w == v * scale_of(rs)
    } else {
        v <= w * scale_of(rs) <= v + slack * scale_of(rs)
    }
}

/// The energy at its scale has 28 bits, unless it is very small.
proof fn lemma_energy_scale(energy: int)
    requires
        0 < energy < 0x8_0000_0000,
    ensures
        ({
            let rs = burg_shift(energy);
            let p = scale_of(rs);
            &&& -16 <= rs <= 7
            &&& 1 <= p <= 0x1_0000
            &&& rs <= 0 ==> 0x1_0000 <= energy * p < 0x1000_0000
            &&& rs > 0 ==> 0x800_0000 * p <= energy < 0x1000_0000 * p
            &&& rs > 0 ==> p <= 128
            &&& rs > 0 ==> p >= 2
        }),
{
    lemma2_to64();
    let bits = bit_length(energy as nat);
    lemma_bit_length_bound(energy as nat);
    if bits > 35 {
        lemma_pow2_adds(3, 32);
        if bits > 36 {
            lemma_pow2_strictly_increases(35, (bits - 1) as nat);
        }
        assert(false);
    }
    let rs = burg_shift(energy);
    let p = scale_of(rs);
    lemma_pow2_pos(abs(rs) as nat);
    if abs(rs) < 16 {
        lemma_pow2_strictly_increases(abs(rs) as nat, 16);
    }
    if rs > 0 {
        lemma_pow2_adds(rs as nat, 27);
        lemma_pow2_adds(rs as nat, 28);
        if rs < 7 {
            lemma_pow2_strictly_increases(rs as nat, 7);
        }
        if rs > 1 {
            lemma_pow2_strictly_increases(1, rs as nat);
        }
    } else if bits >= 12 {
        lemma_pow2_adds(bits, (-rs) as nat);
        lemma_pow2_adds((bits - 1) as nat, (-rs) as nat);
        let lo = pow2((bits - 1) as nat) as int;
        let hi = pow2(bits) as int;
        assert(lo * p <= energy * p < hi * p) by (nonlinear_arith)
            requires
                lo <= energy < hi,
                p > 0,
        ;
    } else {
        lemma_pow2_strictly_increases(bits, 12);
        assert(energy * p < 0x1000_0000) by (nonlinear_arith)
            requires
                energy < 0x1000,
                p == 0x1_0000,
        ;
        assert(energy * p >= 0x1_0000) by (nonlinear_arith)
            requires
                energy >= 1,
                p == 0x1_0000,
        ;
    }
}

/// A sum at its scale.
proof fn lemma_scaled_down(rs: int, energy: int, v: int)
    requires
        0 < energy < 0x8_0000_0000,
        rs == burg_shift(energy),
        -energy <= v <= energy,
    ensures
        below(rs, v, scaled_down(v, rs), 1),
        -0x1000_0000 <= scaled_down(v, rs) <= 0x1000_0000,
{
    lemma_energy_scale(energy);
    let p = scale_of(rs);
    if rs > 0 {
        let w = v / p;
        assert(scaled_down(v, rs) == w);
        lemma_fundamental_div_mod(v, p);
        lemma_mod_bound(v, p);
        assert(w * p == p * w) by (nonlinear_arith);
        assert(-0x1000_0000 <= w <= 0x1000_0000) by (nonlinear_arith)
            requires
                v == p * w + v % p,
                0 <= v % p < p,
                -0x1000_0000 * p <= v <= 0x1000_0000 * p,
                p > 0,
        ;
    } else {
        assert(scaled_down(v, rs) == v * p);
        assert(-(energy * p) <= v * p <= energy * p) by (nonlinear_arith)
            requires
                -energy <= v <= energy,
                p > 0,
        ;
    }
}

/// The row of neighbours.
proof fn lemma_row(x: Seq<i16>, len: int, nb: nat, s: nat)
    requires
        len >= 1,
        s <= nb <= 384,
        0 < subframe_energies(x, len, nb) < 0x8_0000_0000,
    ensures
        ({
            let rs = burg_shift(subframe_energies(x, len, nb));
            let w = row_sum(x, len, rs, 1, s);
            &&& below(rs, neighbours(x, len, s), w, s as int)
            &&& -0x1000_1000 <= w <= 0x1000_1000
        }),
    decreases s,
{
    let energy = subframe_energies(x, len, nb);
    let rs = burg_shift(energy);
    let p = scale_of(rs);
    lemma_energy_scale(energy);
    if s == 0 {
        assert(0 * p == 0);
    } else {
        let t = (s - 1) as nat;
        lemma_row(x, len, nb, t);
        lemma_energies_grow(x, len, t, nb);
        lemma_energies_grow(x, len, s, nb);
        lemma_subframes(x, len, s);
        let v = lag_product(x, t * len, 1, len);
        lemma_scaled_down(rs, energy, v);
        let w = scaled_down(v, rs);
        let before = row_sum(x, len, rs, 1, t);
        lemma_wrap32_range(w);
        lemma_wrap32_range(before + w);
        let sum = neighbours(x, len, s);
        let part = neighbours(x, len, t);
        assert(sum == part + v);
        assert(abs(sum) <= energy);
        if rs <= 0 {
            assert((part + v) * p == part * p + v * p) by (nonlinear_arith);
            assert(-(energy * p) <= sum * p <= energy * p) by (nonlinear_arith)
                requires
                    -energy <= sum <= energy,
                    p > 0,
            ;
        } else {
            let r = before + w;
            assert(r * p == before * p + w * p) by (nonlinear_arith)
                requires
                    r == before + w,
            ;
            assert(s * p == t * p + p) by (nonlinear_arith)
                requires
                    s == t + 1,
            ;
            assert(1 * p == p);
            assert(-0x1000_1000 <= r <= 0x1000_1000) by (nonlinear_arith)
                requires
                    sum - s * p <= r * p <= sum,
                    -0x1000_0000 * p <= sum <= 0x1000_0000 * p,
                    0 <= s <= 384,
                    p > 0,
            ;
        }
    }
}

/// What a sample at an edge takes away.
proof fn lemma_edge(rs: int, energy: int, v: i16)
    requires
        0 < energy < 0x8_0000_0000,
        rs == burg_shift(energy),
        v * v <= energy,
    ensures
        ({
            let w = -product_term(rs, residual_gain(rs, residual_start(rs, v as int)), v as int);
            &&& above(rs, v * v, w, 1)
            &&& 0 <= w <= 0x1000_0001
        }),
{
    lemma2_to64();
    lemma_energy_scale(energy);
    let p = scale_of(rs);
    let q = v as int;
    let sq = q * q;
    lemma_square(q);
    if rs > -2 {
        lemma_wrap32_range(q * 512);
        lemma_wrap32_range(-(q * 512));
        let up = pow2((7 - rs) as nat) as int;
        let full = pow2((16 - rs) as nat) as int;
        lemma_pow2_adds(9, (7 - rs) as nat);
        assert(full == 512 * up);
        if rs <= 0 {
            assert(full == 0x1_0000 * p) by {
                lemma_pow2_adds(16, (-rs) as nat);
            }
            // Weak samples only.
            assert(rs == 0 || rs == -1);
            assert(sq * p <= energy * p) by (nonlinear_arith)
                requires
                    sq <= energy,
                    p > 0,
            ;
            assert(-0x4000 <= q <= 0x4000) by (nonlinear_arith)
                requires
                    sq * p < 0x1000_0000,
                    sq == q * q,
                    p >= 1,
            ;
        } else {
            assert(full * p == 0x1_0000) by {
                lemma_pow2_adds((16 - rs) as nat, rs as nat);
            }
        }
        assert((-(q * 512)) * up == -(q * full)) by (nonlinear_arith)
            requires
                full == 512 * up,
        ;
        assert(-0x8000_0000 <= -(q * full) <= 0x7fff_ffff) by {
            if rs == -1 {
                assert(p == 2);
                assert(-11586 <= q <= 11586) by (nonlinear_arith)
                    requires
                        sq * p < 0x1000_0000,
                        sq == q * q,
                        p == 2,
                ;
                assert(full == 0x2_0000);
            } else if rs == 0 {
                assert(p == 1);
                assert(full == 0x1_0000);
            } else {
                lemma_pow2_strictly_increases((16 - rs) as nat, 16);
                assert(full <= 0x8000) by {
                    if rs > 1 {
                        lemma_pow2_strictly_increases((16 - rs) as nat, 15);
                    }
                }
                assert(-0x4000_0000 <= q * full <= 0x4000_0000) by (nonlinear_arith)
                    requires
                        -0x8000 <= q <= 0x7fff,
                        0 < full <= 0x8000,
                ;
            }
        }
        lemma_wrap32_range(-(q * full));
        let t = -(q * full);
        lemma_mul_wb(t, q);
        assert(t * q == -(sq * full)) by (nonlinear_arith)
            requires
                t == -(q * full),
                sq == q * q,
        ;
        let w = -((-(sq * full)) / 0x1_0000);
        if rs <= 0 {
            assert(sq * full == 0x1_0000 * (sq * p)) by (nonlinear_arith)
                requires
                    full == 0x1_0000 * p,
            ;
            assert(w == sq * p);
            assert(sq * p <= energy * p) by (nonlinear_arith)
                requires
                    sq <= energy,
                    p > 0,
            ;
            assert(sq * p >= 0) by (nonlinear_arith)
                requires
                    sq >= 0,
                    p > 0,
            ;
        } else {
            let sf = sq * full;
            assert(0x1_0000 * w >= sf && 0x1_0000 * w < sf + 0x1_0000);
            assert(sf * p == 0x1_0000 * sq) by (nonlinear_arith)
                requires
                    sf == sq * full,
                    full * p == 0x1_0000,
            ;
            assert(0x1_0000 * (w * p) >= sf * p && 0x1_0000 * (w * p) <= sf * p + 0x1_0000 * p)
                by (nonlinear_arith)
                requires
                    0x1_0000 * w >= sf,
                    0x1_0000 * w < sf + 0x1_0000,
                    p > 0,
            ;
            assert(1 * p == p);
            assert(0 <= w <= 0x1000_0001) by (nonlinear_arith)
                requires
                    sq <= w * p <= sq + p,
                    0 <= sq <= 0x1000_0000 * p,
                    p > 0,
            ;
        }
    } else {
        assert(p >= 4) by {
            if rs < -2 {
                lemma_pow2_strictly_increases(2, (-rs) as nat);
            }
        }
        let k = (-rs - 1) as nat;
        let half = pow2(k) as int;
        lemma_pow2_unfold((-rs) as nat);
        assert(p == 2 * half);
        assert(half <= 0x8000);
        assert(sq * p <= energy * p) by (nonlinear_arith)
            requires
                sq <= energy,
                p > 0,
        ;
        assert(-0x2000 <= q <= 0x2000) by (nonlinear_arith)
            requires
                sq * p < 0x1000_0000,
                p >= 4,
                sq == q * q,
        ;
        lemma_wrap32_range(q * 0x2_0000);
        lemma_wrap32_range(-(q * 0x2_0000));
        assert(-0x1000_0000 <= q * half <= 0x1000_0000) by (nonlinear_arith)
            requires
                -0x2000 <= q <= 0x2000,
                0 < half <= 0x8000,
        ;
        lemma_wrap32_range(q * half);
        let t = -(q * 0x2_0000);
        let u = q * half;
        assert(t * u == -0x1_0000 * (sq * p)) by (nonlinear_arith)
            requires
                t == -(q * 0x2_0000),
                u == q * half,
                p == 2 * half,
                sq == q * q,
        ;
        assert(sq * p >= 0) by (nonlinear_arith)
            requires
                sq >= 0,
                p > 0,
        ;
        reveal(mul_ww);
        assert((t * u) / 0x1_0000 == -(sq * p));
        lemma_wrap32_range(-(sq * p));
    }
}

/// The energies without the samples at the edges.
proof fn lemma_edges(x: Seq<i16>, len: int, nb: nat, r: BurgRows, af: Seq<int>, k0: int, s: nat)
    requires
        len >= 1,
        s <= nb <= 384,
        0 < subframe_energies(x, len, nb) < 0x8_0000_0000,
        r.caf[0] == k0,
        r.cab[0] == k0,
        r.first.len() == 16,
        r.last.len() == 16,
        0 <= k0 <= 0x1001_0000,
    ensures
        ({
            let rs = burg_shift(subframe_energies(x, len, nb));
            let w = without_all_edges(r, rs, af, x, len, 0, s);
            &&& w.first[0] == r.first[0]
            &&& w.last[0] == r.last[0]
            &&& above(rs, first_squares(x, len, s), k0 - w.caf[0], s as int)
            &&& above(rs, last_squares(x, len, s), k0 - w.cab[0], s as int)
            &&& 0 <= k0 - w.caf[0] <= 0x1000_0000 + s
            &&& 0 <= k0 - w.cab[0] <= 0x1000_0000 + s
        }),
    decreases s,
{
    let energy = subframe_energies(x, len, nb);
    let rs = burg_shift(energy);
    let p = scale_of(rs);
    lemma_energy_scale(energy);
    if s == 0 {
        assert(0 * p == 0);
    } else {
        let t = (s - 1) as nat;
        lemma_edges(x, len, nb, r, af, k0, t);
        lemma_energies_grow(x, len, t, nb);
        lemma_energies_grow(x, len, s, nb);
        lemma_subframes(x, len, s);
        let before = without_all_edges(r, rs, af, x, len, 0, t);
        let after = without_all_edges(r, rs, af, x, len, 0, s);
        let v1 = x[t * len];
        let v2 = x[t * len + len - 1];
        lemma_edge(rs, energy, v1);
        lemma_edge(rs, energy, v2);
        let w1 = -product_term(rs, residual_gain(rs, residual_start(rs, v1 as int)), v1 as int);
        let w2 = -product_term(rs, residual_gain(rs, residual_start(rs, v2 as int)), v2 as int);
        lemma_wrap32_range(before.caf[0] - w1);
        lemma_wrap32_range(before.cab[0] - w2);
        assert(after == without_edges(before, rs, af, x, t * len, len, 0));
        assert(after.caf[0] == wrap32(before.caf[0] - w1));
        assert(after.cab[0] == wrap32(before.cab[0] - w2));
        lemma_above_adds(
            rs,
            first_squares(x, len, t),
            k0 - before.caf[0],
            t as int,
            v1 * v1,
            w1,
        );
        lemma_above_adds(rs, last_squares(x, len, t), k0 - before.cab[0], t as int, v2 * v2, w2);
        lemma_above_range(rs, energy, first_squares(x, len, s), k0 - after.caf[0], s as int);
        lemma_above_range(rs, energy, last_squares(x, len, s), k0 - after.cab[0], s as int);
    }
}

proof fn lemma_above_adds(rs: int, v: int, w: int, slack: int, v2: int, w2: int)
    requires
        above(rs, v, w, slack),
        above(rs, v2, w2, 1),
    ensures
        above(rs, v + v2, w + w2, slack + 1),
{
    let p = scale_of(rs);
    assert((w + w2) * p == w * p + w2 * p) by (nonlinear_arith);
    assert((v + v2) * p == v * p + v2 * p) by (nonlinear_arith);
    assert((slack + 1) * p == slack * p + 1 * p) by (nonlinear_arith);
}

proof fn lemma_above_range(rs: int, energy: int, v: int, w: int, slack: int)
    requires
        0 < energy < 0x8_0000_0000,
        rs == burg_shift(energy),
        0 <= v <= energy,
        0 <= slack <= 384,
        above(rs, v, w, slack),
    ensures
        0 <= w <= 0x1000_0000 + slack,
{
    lemma_energy_scale(energy);
    let p = scale_of(rs);
    if rs <= 0 {
        assert(0 <= v * p <= energy * p) by (nonlinear_arith)
            requires
                0 <= v <= energy,
                p > 0,
        ;
    } else {
        assert(0 <= w <= 0x1000_0000 + slack) by (nonlinear_arith)
            requires
                v <= w * p <= v + slack * p,
                0 <= v <= 0x1000_0000 * p,
                p > 0,
        ;
    }
}

// ---------------------------------------------------------------------
// The first order
// ---------------------------------------------------------------------

/// The correlations of the first order.
spec fn first_sums(x: Seq<i16>, len: int, nb: nat) -> BurgSums {
    let rs = burg_shift(subframe_energies(x, len, nb));
    let b = burg_start(x, len, nb, rs, 1);
    burg_sums(without_all_edges(b.rows, rs, b.af, x, len, 0, nb), b.af, 0, 0)
}

/// The energy that conditions the recursion.
spec fn conditioned_energy(x: Seq<i16>, len: int, nb: nat) -> int {
    let energy = subframe_energies(x, len, nb);
    conditioned(wrap32(scaled_down(energy, burg_shift(energy))))
}

proof fn lemma_conditioned(energy: int)
    requires
        0 < energy < 0x8_0000_0000,
    ensures
        ({
            let rs = burg_shift(energy);
            let c0 = scaled_down(energy, rs);
            let k0 = conditioned(wrap32(c0));
            &&& 0 <= c0 <= 0x1000_0000
            &&& wrap32(c0) == c0
            &&& k0 == c0 + (42950 * c0) / 0x1_0000_0000 + 1
            &&& 0 <= k0 <= 0x1001_0000
            &&& below(rs, energy, c0, 1)
            &&& rs > 0 ==> c0 >= 0x800_0000
        }),
{
    let rs = burg_shift(energy);
    lemma_energy_scale(energy);
    lemma_scaled_down(rs, energy, energy);
    let p = scale_of(rs);
    let c0 = scaled_down(energy, rs);
    if rs > 0 {
        assert(1 * p == p);
        assert(c0 >= 0x800_0000 && c0 >= 0) by (nonlinear_arith)
            requires
                energy - p <= c0 * p,
                c0 * p <= energy,
                c0 == energy / p,
                energy >= 0x800_0000 * p,
                p > 0,
        ;
    }
    lemma_wrap32_range(c0);
    reveal(mul_mm);
    lemma_wrap32_range(c0 + (42950 * c0) / 0x1_0000_0000);
    lemma_wrap32_range(c0 + (42950 * c0) / 0x1_0000_0000 + 1);
}

/// They are the signal's at their scale, and the energies outweigh the correlation.
proof fn lemma_first_sums(x: Seq<i16>, len: int, nb: nat)
    requires
        len >= 1,
        1 <= nb <= 384,
        0 < subframe_energies(x, len, nb) < 0x8_0000_0000,
    ensures
        ({
            let energy = subframe_energies(x, len, nb);
            let rs = burg_shift(energy);
            let s = first_sums(x, len, nb);
            let k0 = conditioned_energy(x, len, nb);
            &&& s.num == 0
            &&& s.tail == row_sum(x, len, rs, 1, nb)
            &&& below(rs, neighbours(x, len, nb), s.tail, nb as int)
            &&& -0x1000_1000 <= s.tail <= 0x1000_1000
            &&& exists|w1: int, w2: int|
                s.nrg == 2 * k0 - w1 - w2 && #[trigger] above(
                    rs,
                    first_squares(x, len, nb),
                    w1,
                    nb as int,
                ) && #[trigger] above(rs, last_squares(x, len, nb), w2, nb as int)
            &&& 2 * abs(s.tail) < s.nrg <= 0x7fff_ffff
        }),
{
    let energy = subframe_energies(x, len, nb);
    let rs = burg_shift(energy);
    let p = scale_of(rs);
    lemma_energy_scale(energy);
    lemma_subframes(x, len, nb);
    lemma_conditioned(energy);
    lemma_row(x, len, nb, nb);
    let c0 = scaled_down(energy, rs);
    let k0 = conditioned_energy(x, len, nb);
    let b = burg_start(x, len, nb, rs, 1);
    assert(b.rows.caf[0] == k0);
    assert(b.rows.cab[0] == k0);
    assert(b.rows.first[0] == row_sum(x, len, rs, 1, nb));
    lemma_edges(x, len, nb, b.rows, b.af, k0, nb);
    let r = without_all_edges(b.rows, rs, b.af, x, len, 0, nb);
    let w1 = k0 - r.caf[0];
    let w2 = k0 - r.cab[0];
    let s = first_sums(x, len, nb);
    lemma_wrap32_range(r.cab[0] + r.caf[0]);
    assert(s.nrg == 2 * k0 - w1 - w2);
    let c = s.tail;
    let pairs = neighbours(x, len, nb);
    let first = first_squares(x, len, nb);
    let last = last_squares(x, len, nb);
    assert(above(rs, first, w1, nb as int) && above(rs, last, w2, nb as int));
    assert(2 * abs(c) < s.nrg) by {
        if rs <= 0 {
            assert(2 * (energy * p) - first * p - last * p >= 2 * abs(pairs * p)) by (nonlinear_arith)
                requires
                    2 * energy - first - last >= 2 * abs(pairs),
                    p > 0,
            ;
        } else {
            let d = 2 * k0 - w1 - w2;
            let n = nb as int;
            assert((42950 * c0) / 0x1_0000_0000 >= 1342);
            // Twice the energy, less what the divisions lose.
            assert(d * p >= 2 * (c0 * p) + 2686 * p - w1 * p - w2 * p) by (nonlinear_arith)
                requires
                    d >= 2 * c0 + 2686 - w1 - w2,
                    p > 0,
            ;
            assert(n * p <= 384 * p) by (nonlinear_arith)
                requires
                    n <= 384,
                    p > 0,
            ;
            assert(1 * p == p);
            assert(2 * abs(pairs) <= 2 * energy - first - last);
            assert(d * p > 2 * abs(pairs) + 2 * (n * p));
            if c >= 0 {
                assert(2 * (c * p) <= 2 * pairs);
                assert(d > 2 * c) by (nonlinear_arith)
                    requires
                        d * p > 2 * (c * p),
                        p > 0,
                ;
            } else {
                assert(-2 * (c * p) <= -2 * pairs + 2 * (n * p));
                assert(d > -2 * c) by (nonlinear_arith)
                    requires
                        d * p > -2 * (c * p),
                        p > 0,
                ;
            }
        }
    }
}

/// The coefficient (Q16) of the first order, from its reflection coefficient.
proof fn lemma_first_step(x: Seq<i16>, len: int, nb: nat, min_gain: int)
    requires
        len >= 1,
        1 <= nb <= 384,
        0 < subframe_energies(x, len, nb) < 0x8_0000_0000,
        !burg_run(x, len, nb, burg_shift(subframe_energies(x, len, nb)), min_gain, 1, 1).limited,
    ensures
        ({
            let s = first_sums(x, len, nb);
            let rc = reflection(reflection_num(s), s.nrg);
            let b = burg_run(
                x,
                len,
                nb,
                burg_shift(subframe_energies(x, len, nb)),
                min_gain,
                1,
                1,
            );
            let a = burg_coef(b, 0);
            &&& -0x4000 <= 0x8000 * a + rc <= 0x4000
            &&& rc <= 0 ==> a >= 0
            &&& rc >= 0 ==> a <= 0
        }),
{
    lemma2_to64();
    let rs = burg_shift(subframe_energies(x, len, nb));
    let start = burg_start(x, len, nb, rs, 1);
    assert(burg_run(x, len, nb, rs, min_gain, 1, 0) == start);
    let b = burg_run(x, len, nb, rs, min_gain, 1, 1);
    assert(b == burg_step(start, x, len, nb, rs, min_gain, 0));
    let s = first_sums(x, len, nb);
    let rc = reflection(reflection_num(s), s.nrg);
    assert(b.af[0] == asr(rc, 6));
    assert(asr(rc, 6) == rc / 64);
    reveal(round_shift);
    assert(burg_coef(b, 0) == -((rc / 64 / 256 + 1) / 2));
}

/// At order one the coefficient (Q16) solves the normal equation of the signal: it
/// makes the energies of the forward and backward residual smallest. The tolerance
/// is what the conditioning of the energy and the rounding amount to.
#[verifier::rlimit(60)]
pub proof fn law_first_coefficient(x: Seq<i16>, len: int, nb: nat, min_gain: int)
    requires
        len >= 1,
        1 <= nb <= 384,
        x.len() >= len * nb,
        0 < lag_product(x, 0, 0, len * nb) < 0x8_0000_0000,
        !burg_run(x, len, nb, burg_shift(lag_product(x, 0, 0, len * nb)), min_gain, 1, 1).limited,
    ensures
        ({
            let energy = lag_product(x, 0, 0, len * nb);
            let a = burg_coef(burg_run(x, len, nb, burg_shift(energy), min_gain, 1, 1), 0);
            let both = 2 * energy - first_squares(x, len, nb) - last_squares(x, len, nb);
            -8 * energy <= a * both - 0x2_0000 * neighbours(x, len, nb) <= 8 * energy
        }),
{
    lemma_subframes(x, len, nb);
    let energy = subframe_energies(x, len, nb);
    let rs = burg_shift(energy);
    let p = scale_of(rs);
    lemma_energy_scale(energy);
    lemma_conditioned(energy);
    lemma_first_sums(x, len, nb);
    lemma_first_step(x, len, nb, min_gain);
    let s = first_sums(x, len, nb);
    law_reflection_opposes_correlation(s);
    let rc = reflection(reflection_num(s), s.nrg);
    let a = burg_coef(burg_run(x, len, nb, rs, min_gain, 1, 1), 0);
    let c = s.tail;
    let nrg = s.nrg;
    let k0 = conditioned_energy(x, len, nb);
    let c0 = scaled_down(energy, rs);
    let first = first_squares(x, len, nb);
    let last = last_squares(x, len, nb);
    let (w1, w2) = choose|w1: int, w2: int|
        nrg == 2 * k0 - w1 - w2 && #[trigger] above(rs, first, w1, nb as int) && #[trigger] above(
            rs,
            last,
            w2,
            nb as int,
        );
    let pairs = neighbours(x, len, nb);
    let both = 2 * energy - first - last;
    let an = a * nrg;
    let rn = rc * nrg;
    assert(-0x4000 * nrg <= 0x8000 * an + rn <= 0x4000 * nrg) by (nonlinear_arith)
        requires
            -0x4000 <= 0x8000 * a + rc <= 0x4000,
            an == a * nrg,
            rn == rc * nrg,
            nrg > 0,
    ;
    // The coefficient times the energies, against the correlation.
    let off = an - 0x2_0000 * c;
    assert(-16449 * nrg <= 0x8000 * off <= 16449 * nrg);
    assert(-0x1_0000 <= a <= 0x1_0000);
    let extra = 2 * ((42950 * c0) / 0x1_0000_0000 + 1);
    if rs <= 0 {
        assert(both * p == 2 * (energy * p) - first * p - last * p) by (nonlinear_arith)
            requires
                both == 2 * energy - first - last,
        ;
        assert(nrg == both * p + extra);
        let bp = both * p;
        let ep = energy * p;
        assert(an == a * bp + a * extra) by (nonlinear_arith)
            requires
                an == a * nrg,
                nrg == bp + extra,
        ;
        assert(-0x1_0000 * extra <= a * extra <= 0x1_0000 * extra) by (nonlinear_arith)
            requires
                -0x1_0000 <= a <= 0x1_0000,
                extra >= 0,
        ;
        assert(c0 == ep);
        assert(0x1_0000 * extra <= 4 * ep);
        assert(nrg <= 2 * ep + extra) by {
            assert(first * p >= 0 && last * p >= 0) by (nonlinear_arith)
                requires
                    first >= 0,
                    last >= 0,
                    p > 0,
            ;
        }
        let ab = a * both;
        assert(a * bp == ab * p) by (nonlinear_arith)
            requires
                bp == both * p,
                ab == a * both,
        ;
        assert(0x8000 * (ab * p - 0x2_0000 * (pairs * p)) <= 0x8000 * (8 * ep));
        assert(0x8000 * (ab * p - 0x2_0000 * (pairs * p)) >= -0x8000 * (8 * ep));
        assert(-8 * energy <= ab - 0x2_0000 * pairs <= 8 * energy) by (nonlinear_arith)
            requires
                ab * p - 0x2_0000 * (pairs * p) <= 8 * ep,
                ab * p - 0x2_0000 * (pairs * p) >= -8 * ep,
                ep == energy * p,
                p > 0,
        ;
    } else {
        let n = nb as int;
        let np = nrg * p;
        assert(np == 2 * (c0 * p) + extra * p - w1 * p - w2 * p) by (nonlinear_arith)
            requires
                np == nrg * p,
                nrg == 2 * c0 + extra - w1 - w2,
        ;
        assert(1 * p == p);
        assert(n * p <= 384 * p) by (nonlinear_arith)
            requires
                n <= 384,
                p > 0,
        ;
        assert(extra * p <= 5400 * p && extra * p >= 0) by (nonlinear_arith)
            requires
                0 <= extra <= 5400,
                p > 0,
        ;
        // In units of the signal.
        let gap = np - both;
        assert(gap <= extra * p);
        assert(gap >= -770 * p);
        let cp = c * p;
        assert(pairs - 384 * p <= cp <= pairs);
        let ab = a * both;
        let ag = a * gap;
        assert(an * p == ab + ag) by (nonlinear_arith)
            requires
                an == a * nrg,
                np == nrg * p,
                gap == np - both,
                ab == a * both,
                ag == a * gap,
        ;
        assert(-0x1_0000 * (5400 * p) <= ag <= 0x1_0000 * (5400 * p)) by (nonlinear_arith)
            requires
                -0x1_0000 <= a <= 0x1_0000,
                -770 * p <= gap <= 5400 * p,
                ag == a * gap,
                p > 0,
        ;
        assert(off * p == an * p - 0x2_0000 * cp) by (nonlinear_arith)
            requires
                off == an - 0x2_0000 * c,
                cp == c * p,
        ;
        assert(-16449 * np <= 0x8000 * (off * p) <= 16449 * np) by (nonlinear_arith)
            requires
                -16449 * nrg <= 0x8000 * off <= 16449 * nrg,
                np == nrg * p,
                p > 0,
        ;
        assert(np <= 2 * energy + 5400 * p);
        assert(energy >= 0x800_0000 * p);
    }
}

/// At order one the coefficient has the sign of the correlation of neighbours: it is
/// not negative where no neighbours have opposite signs, and not positive where all
/// have.
pub proof fn law_first_coefficient_has_the_sign(x: Seq<i16>, len: int, nb: nat, min_gain: int)
    requires
        len >= 1,
        1 <= nb <= 384,
        x.len() >= len * nb,
        0 < lag_product(x, 0, 0, len * nb) < 0x8_0000_0000,
        !burg_run(x, len, nb, burg_shift(lag_product(x, 0, 0, len * nb)), min_gain, 1, 1).limited,
    ensures
        ({
            let energy = lag_product(x, 0, 0, len * nb);
            let a = burg_coef(burg_run(x, len, nb, burg_shift(energy), min_gain, 1, 1), 0);
            &&& (forall|i: int| 0 < i < len * nb ==> #[trigger] x[i] * x[i - 1] >= 0) ==> a >= 0
            &&& (forall|i: int| 0 < i < len * nb ==> #[trigger] x[i] * x[i - 1] <= 0) ==> a <= 0
        }),
{
    lemma_subframes(x, len, nb);
    let energy = subframe_energies(x, len, nb);
    let rs = burg_shift(energy);
    lemma_first_sums(x, len, nb);
    lemma_first_step(x, len, nb, min_gain);
    let s = first_sums(x, len, nb);
    law_reflection_opposes_correlation(s);
    let c = s.tail;
    if forall|i: int| 0 < i < len * nb ==> #[trigger] x[i] * x[i - 1] >= 0 {
        assert(c >= 0) by {
            lemma_row_sign(x, len, nb, nb, true);
        }
    }
    if forall|i: int| 0 < i < len * nb ==> #[trigger] x[i] * x[i - 1] <= 0 {
        assert(c <= 0) by {
            lemma_row_sign(x, len, nb, nb, false);
        }
    }
}

/// The row of neighbours has the sign that all products of neighbours have.
proof fn lemma_row_sign(x: Seq<i16>, len: int, nb: nat, s: nat, up: bool)
    requires
        len >= 1,
        s <= nb <= 384,
        0 < subframe_energies(x, len, nb) < 0x8_0000_0000,
        forall|i: int|
            0 < i < len * nb ==> if up {
                #[trigger] x[i] * x[i - 1] >= 0
            } else {
                x[i] * x[i - 1] <= 0
            },
    ensures
        up ==> row_sum(x, len, burg_shift(subframe_energies(x, len, nb)), 1, s) >= 0,
        !up ==> row_sum(x, len, burg_shift(subframe_energies(x, len, nb)), 1, s) <= 0,
    decreases s,
{
    let energy = subframe_energies(x, len, nb);
    let rs = burg_shift(energy);
    let p = scale_of(rs);
    lemma_energy_scale(energy);
    if s > 0 {
        let t = (s - 1) as nat;
        lemma_row_sign(x, len, nb, t, up);
        lemma_row(x, len, nb, t);
        lemma_energies_grow(x, len, t, nb);
        assert(t * len >= 0 && t * len + len <= len * nb) by (nonlinear_arith)
            requires
                t + 1 <= nb,
                len >= 1,
                t >= 0,
        ;
        lemma_product_sign(x, t * len, len, len * nb, up);
        let v = lag_product(x, t * len, 1, len);
        lemma_scaled_down(rs, energy, v);
        let w = scaled_down(v, rs);
        lemma_wrap32_range(w);
        lemma_wrap32_range(row_sum(x, len, rs, 1, t) + w);
        if rs <= 0 {
            assert(v >= 0 ==> v * p >= 0) by (nonlinear_arith)
                requires
                    p > 0,
            ;
            assert(v <= 0 ==> v * p <= 0) by (nonlinear_arith)
                requires
                    p > 0,
            ;
        } else {
            assert(1 * p == p);
            assert(v >= 0 ==> w >= 0) by (nonlinear_arith)
                requires
                    w == v / p,
                    p > 0,
            ;
            assert(v <= 0 ==> w <= 0) by (nonlinear_arith)
                requires
                    w * p <= v,
                    p > 0,
            ;
        }
    }
}

proof fn lemma_product_sign(x: Seq<i16>, base: int, to: int, end: int, up: bool)
    requires
        base >= 0,
        base + to <= end,
        forall|i: int|
            0 < i < end ==> if up {
                #[trigger] x[i] * x[i - 1] >= 0
            } else {
                x[i] * x[i - 1] <= 0
            },
    ensures
        up ==> lag_product(x, base, 1, to) >= 0,
        !up ==> lag_product(x, base, 1, to) <= 0,
    decreases to,
{
    if to > 1 {
        lemma_product_sign(x, base, to - 1, end, up);
        let i = base + to - 1;
        assert(if up {
            x[i] * x[i - 1] >= 0
        } else {
            x[i] * x[i - 1] <= 0
        });
    }
}

/// The rows of the first order.
spec fn first_rows(x: Seq<i16>, len: int, nb: nat) -> BurgRows {
    let rs = burg_shift(subframe_energies(x, len, nb));
    let b = burg_start(x, len, nb, rs, 1);
    without_all_edges(b.rows, rs, b.af, x, len, 0, nb)
}

proof fn lemma_first_rows(x: Seq<i16>, len: int, nb: nat)
    requires
        len >= 1,
        1 <= nb <= 384,
        0 < subframe_energies(x, len, nb) < 0x8_0000_0000,
    ensures
        ({
            let r = first_rows(x, len, nb);
            let k0 = conditioned_energy(x, len, nb);
            let s = first_sums(x, len, nb);
            &&& 0 <= r.caf[0] <= k0
            &&& 0 <= r.cab[0] <= k0
            &&& s.nrg == r.cab[0] + r.caf[0]
            &&& s.head == s.tail
        }),
{
    let energy = subframe_energies(x, len, nb);
    let rs = burg_shift(energy);
    let p = scale_of(rs);
    lemma_energy_scale(energy);
    lemma_subframes(x, len, nb);
    lemma_conditioned(energy);
    let c0 = scaled_down(energy, rs);
    let k0 = conditioned_energy(x, len, nb);
    let b = burg_start(x, len, nb, rs, 1);
    assert(b.rows.caf[0] == k0);
    assert(b.rows.cab[0] == k0);
    lemma_edges(x, len, nb, b.rows, b.af, k0, nb);
    let r = first_rows(x, len, nb);
    lemma_less_than_all(rs, energy, first_squares(x, len, nb), k0 - r.caf[0], nb as int, c0, k0);
    lemma_less_than_all(rs, energy, last_squares(x, len, nb), k0 - r.cab[0], nb as int, c0, k0);
    lemma_wrap32_range(r.cab[0] + r.caf[0]);
    assert(b.rows.first[0] == b.rows.last[0]);
}

proof fn lemma_less_than_all(rs: int, energy: int, v: int, w: int, slack: int, c0: int, k0: int)
    requires
        0 < energy < 0x8_0000_0000,
        rs == burg_shift(energy),
        0 <= v <= energy,
        0 <= slack <= 384,
        above(rs, v, w, slack),
        below(rs, energy, c0, 1),
        rs > 0 ==> c0 >= 0x800_0000,
        k0 == c0 + (42950 * c0) / 0x1_0000_0000 + 1,
        c0 >= 0,
    ensures
        w <= k0,
{
    lemma_energy_scale(energy);
    let p = scale_of(rs);
    if rs <= 0 {
        assert(v * p <= energy * p) by (nonlinear_arith)
            requires
                v <= energy,
                p > 0,
        ;
    } else {
        assert((42950 * c0) / 0x1_0000_0000 >= 1342);
        assert(w <= c0 + 1 + slack) by (nonlinear_arith)
            requires
                w * p <= v + slack * p,
                v <= energy,
                energy <= c0 * p + 1 * p,
                p > 0,
        ;
    }
}

/// The residual energy of one reflection, in plain numbers.
proof fn lemma_reflected_energy(
    f0: int,
    b0: int,
    c: int,
    rc: int,
    h: int,
)
    requires
        0 <= f0 <= 0x1001_0000,
        0 <= b0 <= 0x1001_0000,
        0 < f0 + b0,
        2 * abs(c) < f0 + b0,
        -0x8000_0000 <= rc <= 0x7fff_ffff,
        -65 * (f0 + b0) <= rc * (f0 + b0) + 0x1_0000_0000 * c <= 65 * (f0 + b0),
        -0x4000 <= 0x8000 * h - rc <= 0x4000,
    ensures
        ({
            let u = (c * rc) / 0x1_0000_0000;
            let g = c + 2 * ((b0 * rc) / 0x1_0000_0000);
            let m = (g * h) / 0x1_0000;
            &&& -0x2000_0000 <= u <= 0x2000_0000
            &&& -0x2003_0000 <= g <= 0x2003_0000
            &&& -0x2003_0000 <= m <= 0x2003_0000
            &&& 2 * u + m <= 80 + abs(g) / 0x2_0000
            &&& abs(g) <= abs(c) + b0 + 2
        }),
{
    let nrg = f0 + b0;
    let cr = c * rc;
    let br = b0 * rc;
    let u = cr / 0x1_0000_0000;
    let v = br / 0x1_0000_0000;
    let g = c + 2 * v;
    let gh = g * h;
    let m = gh / 0x1_0000;
    assert(-0x800_8000_0000_0000 <= cr <= 0x800_8000_0000_0000 && -0x800_8000_0000_0000 <= br
        <= 0x800_8000_0000_0000) by (nonlinear_arith)
        requires
            cr == c * rc,
            br == b0 * rc,
            0 <= b0 <= 0x1001_0000,
            -0x1001_0000 <= c <= 0x1001_0000,
            -0x8000_0000 <= rc <= 0x7fff_ffff,
    ;
    assert(-0x1_0000 <= h <= 0x1_0000);
    assert(abs(2 * v) <= b0 + 2) by {
        assert(-(0x8000_0000 * b0) <= br <= 0x8000_0000 * b0) by (nonlinear_arith)
            requires
                br == b0 * rc,
                b0 >= 0,
                -0x8000_0000 <= rc <= 0x7fff_ffff,
        ;
    }
    assert(-0x2003_0000_0000 <= gh <= 0x2003_0000_0000) by (nonlinear_arith)
        requires
            gh == g * h,
            -0x1_0000 <= h <= 0x1_0000,
            -0x2003_0000 <= g <= 0x2003_0000,
    ;
    // All in units of 2^-62.
    let rr = rc * rc;
    assert(0 <= rr <= 0x4000_0000_0000_0000) by (nonlinear_arith)
        requires
            rr == rc * rc,
            -0x8000_0000 <= rc <= 0x7fff_ffff,
    ;
    let gr = g * rc;
    let e = 0x8000 * h - rc;
    assert(0x8000 * gh == gr + g * e) by (nonlinear_arith)
        requires
            gh == g * h,
            gr == g * rc,
            e == 0x8000 * h - rc,
    ;
    assert(g * e <= 0x4000 * abs(g)) by (nonlinear_arith)
        requires
            -0x4000 <= e <= 0x4000,
    ;
    let vr = v * rc;
    assert(gr == cr + 2 * vr) by (nonlinear_arith)
        requires
            gr == g * rc,
            g == c + 2 * v,
            cr == c * rc,
            vr == v * rc,
    ;
    let b2 = b0 * rr;
    let f2 = f0 * rr;
    let slip = br - 0x1_0000_0000 * v;
    assert(0x1_0000_0000 * vr == b2 - slip * rc) by (nonlinear_arith)
        requires
            vr == v * rc,
            slip == br - 0x1_0000_0000 * v,
            br == b0 * rc,
            b2 == b0 * rr,
            rr == rc * rc,
    ;
    assert(-(slip * rc) <= 0x1_0000_0000 * 0x8000_0000) by (nonlinear_arith)
        requires
            0 <= slip < 0x1_0000_0000,
            -0x8000_0000 <= rc <= 0x7fff_ffff,
    ;
    let k = rc * nrg + 0x1_0000_0000 * c;
    assert(k * rc == f2 + b2 + 0x1_0000_0000 * cr) by (nonlinear_arith)
        requires
            k == rc * nrg + 0x1_0000_0000 * c,
            nrg == f0 + b0,
            f2 == f0 * rr,
            b2 == b0 * rr,
            rr == rc * rc,
            cr == c * rc,
    ;
    assert(k * rc <= 65 * 0x2002_0000 * 0x8000_0000) by (nonlinear_arith)
        requires
            -65 * 0x2002_0000 <= k <= 65 * 0x2002_0000,
            -0x8000_0000 <= rc <= 0x7fff_ffff,
    ;
    assert(f2 >= 0) by (nonlinear_arith)
        requires
            f2 == f0 * rr,
            f0 >= 0,
            rr >= 0,
    ;
    // 2u + m against the products.
    assert(0x1_0000_0000 * u <= cr);
    assert(0x1_0000 * m <= gh);
    assert(0x8000_0000 * (2 * u + m) <= cr + gr + 0x4000 * abs(g));
    assert(0x1_0000_0000 * (cr + gr) == 2 * (0x1_0000_0000 * cr) + 2 * (b2 - slip * rc));
    assert(0x1_0000_0000 * (cr + gr) <= 2 * (k * rc) - 2 * f2 + 2 * (0x1_0000_0000 * 0x8000_0000));
}

/// At order one the residual energy does not exceed the energy of the signal at its
/// scale, but for rounding.
#[verifier::rlimit(60)]
pub proof fn law_residual_energy_is_smaller(x: Seq<i16>, len: int, nb: nat, min_gain: int)
    requires
        len >= 1,
        1 <= nb <= 384,
        x.len() >= len * nb,
        0 < lag_product(x, 0, 0, len * nb) < 0x8_0000_0000,
        !burg_run(x, len, nb, burg_shift(lag_product(x, 0, 0, len * nb)), min_gain, 1, 1).limited,
    ensures
        ({
            let energy = lag_product(x, 0, 0, len * nb);
            let rs = burg_shift(energy);
            let b = burg_run(x, len, nb, rs, min_gain, 1, 1);
            let all = scaled_down(energy, rs);
            burg_residual(b, x, len, nb, rs, 1) <= all + all / 0x8000 + 90
        }),
{
    lemma2_to64();
    lemma_subframes(x, len, nb);
    let energy = subframe_energies(x, len, nb);
    let rs = burg_shift(energy);
    lemma_conditioned(energy);
    lemma_first_sums(x, len, nb);
    lemma_first_rows(x, len, nb);
    lemma_first_step(x, len, nb, min_gain);
    let s = first_sums(x, len, nb);
    law_reflection_opposes_correlation(s);
    let rc = reflection(reflection_num(s), s.nrg);
    let start = burg_start(x, len, nb, rs, 1);
    assert(burg_run(x, len, nb, rs, min_gain, 1, 0) == start);
    let b = burg_run(x, len, nb, rs, min_gain, 1, 1);
    assert(b == burg_step(start, x, len, nb, rs, min_gain, 0));
    let r = first_rows(x, len, nb);
    let f0 = r.caf[0];
    let b0 = r.cab[0];
    let c = s.tail;
    let h = round_shift(b.af[0], 9);
    assert(h == -burg_coef(b, 0));
    lemma_reflected_energy(f0, b0, c, rc, h);
    let u = (c * rc) / 0x1_0000_0000;
    let v = (b0 * rc) / 0x1_0000_0000;
    let g = c + 2 * v;
    let m = (g * h) / 0x1_0000;
    assert(b.rows.caf[0] == f0 + 2 * u) by {
        reveal(mul_mm);
        lemma_wrap32_range(u * 2);
        lemma_wrap32_range(f0 + u * 2);
        assert(b.rows.caf[0] == reflected(f0, c, rc));
    }
    assert(b.rows.caf[1] == g) by {
        reveal(mul_mm);
        lemma_wrap32_range(v * 2);
        lemma_wrap32_range(c + v * 2);
        assert(b.rows.caf[1] == reflected(c, b0, rc));
    }
    assert(mul_ww(g, h) == m) by {
        reveal(mul_ww);
        lemma_wrap32_range(m);
    }
    lemma_wrap32_range(f0 + 2 * u + m);
    assert(filter_energy(b, 0) == b.rows.caf[0]);
    assert(filter_energy(b, 1) == f0 + 2 * u + m);
    let c0 = scaled_down(energy, rs);
    let floor = (42950 * c0) / 0x1_0000_0000;
    assert(mul_mm(42950, c0) == floor) by {
        reveal(mul_mm);
    }
    let hh = h * h;
    assert(0 <= hh <= 0x1_0000_0000) by (nonlinear_arith)
        requires
            hh == h * h,
            -0x1_0000 <= h <= 0x1_0000,
    ;
    let norm = 0x1_0000 + hh / 0x1_0000;
    assert(filter_norm(b, 1) == norm) by {
        reveal(mul_ww);
        lemma_wrap32_range(hh / 0x1_0000);
        lemma_wrap32_range(norm);
        assert(filter_norm(b, 0) == 0x1_0000);
    }
    lemma_wrap32_range(-norm);
    let less = (floor * (-norm)) / 0x1_0000;
    assert(-0x2000_0000 <= floor * (-norm) <= -0x1_0000 * floor) by (nonlinear_arith)
        requires
            0 <= floor <= 2700,
            0x1_0000 <= norm <= 0x2_0000,
    ;
    assert(mul_ww(floor, -norm) == less) by {
        reveal(mul_ww);
        lemma_wrap32_range(less);
    }
    assert(less <= -floor);
    let res = f0 + 2 * u + m + less;
    lemma_wrap32_range(res);
    assert(burg_residual(b, x, len, nb, rs, 1) == res);
}

// ---------------------------------------------------------------------
// Every order
// ---------------------------------------------------------------------

/// A step of the recursion adds to each coefficient its mirror image times the
/// reflection coefficient (Q31), but for rounding.
pub proof fn law_step_adds_the_mirror(a: int, mirror: int, rc: int)
    requires
        -0x2000_0000 <= a <= 0x2000_0000,
        -0x2000_0000 <= mirror <= 0x2000_0000,
        -0x8000_0000 <= rc <= 0x7fff_ffff,
    ensures
        ({
            let r = reflected(a, mirror, rc);
            mirror * rc - 0x1_0000_0000 < 0x8000_0000 * (r - a) <= mirror * rc
        }),
{
    lemma2_to64();
    reveal(mul_mm);
    let m = mirror * rc;
    assert(-0x1000_0000_0000_0000 <= m <= 0x1000_0000_0000_0000) by (nonlinear_arith)
        requires
            m == mirror * rc,
            -0x2000_0000 <= mirror <= 0x2000_0000,
            -0x8000_0000 <= rc <= 0x7fff_ffff,
    ;
    let h = m / 0x1_0000_0000;
    lemma_wrap32_range(h * 2);
    lemma_wrap32_range(a + h * 2);
}

/// Each step multiplies the inverse prediction gain (Q30) by one less the square of
/// its reflection coefficient, but for rounding; so it never grows.
pub proof fn law_gain_falls_by_the_square(gain: int, rc: int)
    requires
        0 <= gain <= 0x4000_0000,
        -0x8000_0000 <= rc <= 0x7fff_ffff,
    ensures
        ({
            let next = next_gain(gain, rc);
            let rest = 0x4000_0000 - (rc * rc) / 0x1_0000_0000;
            &&& 0 <= rest <= 0x4000_0000
            &&& gain * rest - 0x1_0000_0000 < 0x4000_0000 * next <= gain * rest
            &&& 0 <= next <= gain
        }),
{
    lemma2_to64();
    reveal(mul_mm);
    assert(0 <= rc * rc <= 0x4000_0000_0000_0000) by (nonlinear_arith)
        requires
            -0x8000_0000 <= rc <= 0x7fff_ffff,
    ;
    let rest = 0x4000_0000 - (rc * rc) / 0x1_0000_0000;
    lemma_wrap32_range(rest);
    let v = gain * rest;
    assert(0 <= v <= gain * 0x4000_0000) by (nonlinear_arith)
        requires
            v == gain * rest,
            0 <= gain,
            0 <= rest <= 0x4000_0000,
    ;
    let m = v / 0x1_0000_0000;
    lemma_wrap32_range(m * 4);
}

/// A product with a coefficient (Q25) is added as it is, but for less than 256 that
/// rounding takes.
pub proof fn law_products_are_added(acc: int, v: int, a: int)
    requires
        -0x2000_0000 <= acc <= 0x2000_0000,
        -0x1000_0000 <= v <= 0x1000_0000,
        0 < a <= 0x400_0000,
    ensures
        ({
            let r = with_product(acc, v, a);
            v * a - 0x200_0000 * 256 < 0x200_0000 * (r - acc) <= v * a
        }),
{
    lemma2_to64();
    lemma_headroom(a);
    let up = if headroom(a) < 7 {
        headroom(a)
    } else {
        7nat
    };
    let p = pow2(up) as int;
    let q = pow2((7 - up) as nat) as int;
    lemma_pow2_adds(up, (7 - up) as nat);
    lemma_pow2_pos(up);
    lemma_pow2_pos((7 - up) as nat);
    assert(p * q == 128);
    assert(p <= 128 && q <= 128) by (nonlinear_arith)
        requires
            p * q == 128,
            p >= 1,
            q >= 1,
    ;
    let top = pow2(headroom(a)) as int;
    assert(a * p <= a * top) by {
        if up < headroom(a) {
            lemma_pow2_strictly_increases(up, headroom(a));
        }
        assert(a * p <= a * top) by (nonlinear_arith)
            requires
                p <= top,
                a > 0,
        ;
    }
    let ap = a * p;
    assert(ap >= 0) by (nonlinear_arith)
        requires
            ap == a * p,
            a > 0,
            p > 0,
    ;
    lemma_wrap32_range(ap);
    reveal(mul_mm);
    let m = (v * ap) / 0x1_0000_0000;
    let va = v * a;
    assert(v * ap == va * p) by (nonlinear_arith)
        requires
            ap == a * p,
            va == v * a,
    ;
    assert(-0x40_0000_0000_0000 <= va <= 0x40_0000_0000_0000) by (nonlinear_arith)
        requires
            va == v * a,
            -0x1000_0000 <= v <= 0x1000_0000,
            0 < a <= 0x400_0000,
    ;
    let vp = va * p;
    assert(0x1_0000_0000 * m <= vp < 0x1_0000_0000 * m + 0x1_0000_0000);
    let mq = m * q;
    assert(0x1_0000_0000 * mq <= vp * q < 0x1_0000_0000 * mq + 0x1_0000_0000 * q)
        by (nonlinear_arith)
        requires
            0x1_0000_0000 * m <= vp < 0x1_0000_0000 * m + 0x1_0000_0000,
            mq == m * q,
            q > 0,
    ;
    assert(vp * q == 128 * va) by (nonlinear_arith)
        requires
            vp == va * p,
            p * q == 128,
    ;
    lemma_wrap32_range(mq);
    lemma_wrap32_range(acc + mq);
}

} // verus!
