//! Fixed-point division and square roots.

use crate::fixed::{
    asr, bit_length, div_trunc, divide, ilog, lemma_wrap32_range, mul_mm, mul_wb, mul_ww, sat32,
    sat32_of, shr32, smmul, smulwb, smulww, wadd, wmul, wrap32, wsub,
};
use crate::range::lemma_bit_length_bound;
use vstd::arithmetic::div_mod::*;
use vstd::arithmetic::power2::*;
use vstd::bits::*;
use vstd::prelude::*;

verus! {

pub open spec fn abs(v: int) -> int {
    if v >= 0 {
        v
    } else {
        -v
    }
}

/// How far a value can be scaled up within 31 bits.
pub open spec fn headroom(v: int) -> nat {
    let bits = bit_length(abs(v) as nat);
    if bits <= 31 {
        (31 - bits) as nat
    } else {
        0
    }
}

/// A value scaled up by `2^k`, in 32 bits.
pub open spec fn shl(v: int, k: nat) -> int {
    wrap32(v * pow2(k) as int)
}

pub fn shl32(v: i32, k: u32) -> (r: i32)
    requires
        k <= 30,
    ensures
        r == shl(v as int, k as nat),
{
    proof {
        lemma2_to64();
        lemma_pow2_strictly_increases(k as nat, 31);
        lemma_u32_shl_is_mul(1, k);
    }
    wmul(v, (1u32 << k) as i32)
}

pub fn headroom32(v: i32) -> (r: u32)
    ensures
        r == headroom(v as int),
        r <= 31,
{
    let magnitude: u32 = if v >= 0 {
        v as u32
    } else {
        (-(v as i64)) as u32
    };
    let bits: u32 = ilog(magnitude);
    if bits <= 31 {
        31 - bits
    } else {
        0
    }
}

/// Scaling up by the headroom fills 31 bits.
pub proof fn lemma_headroom(v: int)
    requires
        -0x8000_0000 <= v <= 0x7fff_ffff,
        v != 0,
    ensures
        headroom(v) <= 30,
        v > 0 ==> 0x4000_0000 <= v * pow2(headroom(v)) <= 0x7fff_ffff,
        v < 0 ==> -0x8000_0000 <= v * pow2(headroom(v)) <= -0x4000_0000,
        shl(v, headroom(v)) == v * pow2(headroom(v)),
{
    lemma2_to64();
    let a = abs(v);
    let b = bit_length(a as nat);
    lemma_bit_length_bound(a as nat);
    let h = headroom(v);
    if b > 32 {
        lemma_pow2_strictly_increases(31, (b - 1) as nat);
        assert(false);
    }
    if b == 32 {
        assert(a == 0x8000_0000);
        assert(v * 1 == v);
    } else {
        lemma_pow2_adds(b, h);
        lemma_pow2_adds((b - 1) as nat, h);
        lemma_pow2_pos(h);
        let p = pow2(h) as int;
        assert(pow2((b - 1) as nat) * p <= a * p < pow2(b) * p) by (nonlinear_arith)
            requires
                pow2((b - 1) as nat) <= a < pow2(b),
                p > 0,
        ;
        if v < 0 {
            assert(v * p == -(a * p)) by (nonlinear_arith)
                requires
                    v == -a,
            ;
        }
    }
    lemma_wrap32_range(v * pow2(h));
}

/// `v` scaled by `2^-down`, limited to 32 bits where that scales up.
pub open spec fn rescaled(v: int, down: int) -> int {
    if down < 0 {
        sat32_of(v * pow2((-down) as nat) as int)
    } else if down < 32 {
        asr(v, down as nat)
    } else {
        0
    }
}

pub fn rescale(v: i32, down: i32) -> (r: i32)
    requires
        -63 <= down <= 100,
    ensures
        r == rescaled(v as int, down as int),
{
    if down < 0 {
        let up: u32 = (-down) as u32;
        if up <= 31 {
            proof {
                lemma2_to64();
                if up < 31 {
                    lemma_pow2_strictly_increases(up as nat, 31);
                }
                lemma_u64_shl_is_mul(1, up as u64);
                let p = pow2(up as nat) as int;
                assert(-0x4000_0000_0000_0000 <= v * p <= 0x4000_0000_0000_0000) by (nonlinear_arith)
                    requires
                        -0x8000_0000 <= v <= 0x7fff_ffff,
                        0 <= p <= 0x8000_0000,
                ;
            }
            let factor: i64 = (1u64 << up as u64) as i64;
            sat32(v as i64 * factor)
        } else {
            proof {
                lemma2_to64();
                if up > 32 {
                    lemma_pow2_strictly_increases(32, up as nat);
                }
                let p = pow2(up as nat) as int;
                assert(v > 0 ==> v * p >= 0x1_0000_0000) by (nonlinear_arith)
                    requires
                        p >= 0x1_0000_0000,
                ;
                assert(v < 0 ==> v * p <= -0x1_0000_0000) by (nonlinear_arith)
                    requires
                        p >= 0x1_0000_0000,
                ;
                assert(v == 0 ==> v * p == 0) by (nonlinear_arith);
            }
            if v > 0 {
                0x7fff_ffff
            } else if v < 0 {
                -0x8000_0000
            } else {
                0
            }
        }
    } else if down < 32 {
        shr32(v, down as u32)
    } else {
        0
    }
}

/// Reciprocal of a normalised denominator, with 14 bits of precision.
pub open spec fn short_inverse(b_norm: int) -> int {
    div_trunc(0x1fff_ffff, b_norm / 0x1_0000)
}

/// `a / b` in `q` fractional bits: a first approximation and one refinement.
pub open spec fn div_varq(a: int, b: int, q: int) -> int {
    let a_norm = shl(a, headroom(a));
    let b_norm = shl(b, headroom(b));
    let inverse = short_inverse(b_norm);
    let first = mul_wb(a_norm, inverse);
    let rest = wrap32(a_norm - shl(mul_mm(b_norm, first), 3));
    let result = wrap32(first + mul_wb(rest, inverse));
    rescaled(result, 29 + headroom(a) - headroom(b) - q)
}

/// `1 / b` in `q` fractional bits.
pub open spec fn inverse_varq(b: int, q: int) -> int {
    let b_norm = shl(b, headroom(b));
    let inverse = short_inverse(b_norm);
    let first = shl(inverse, 16);
    let err = shl(wrap32(0x2000_0000 - mul_wb(b_norm, inverse)), 3);
    let result = wrap32(first + mul_ww(err, inverse));
    rescaled(result, 61 - headroom(b) - q)
}

fn invert_short(b_norm: i32) -> (r: i32)
    requires
        b_norm >= 0x4000_0000 || b_norm <= -0x4000_0000,
    ensures
        r == short_inverse(b_norm as int),
        -0x7fff <= r <= 0x7fff,
{
    proof {
        lemma2_to64();
    }
    let den: i32 = shr32(b_norm, 16);
    assert(den >= 0x4000 || den <= -0x4000);
    proof {
        let d = abs(den as int);
        let q = 0x1fff_ffffint / d;
        lemma_fundamental_div_mod(0x1fff_ffff, d);
        lemma_mod_bound(0x1fff_ffff, d);
        assert(0 <= q <= 0x7fff) by (nonlinear_arith)
            requires
                0x1fff_ffff == d * q + 0x1fff_ffffint % d,
                0 <= 0x1fff_ffffint % d,
                d >= 0x4000,
                0x1fff_ffffint % d < d,
        ;
    }
    divide(0x1fff_ffff, den) as i32
}

pub fn div32_varq(a32: i32, b32: i32, q_res: i32) -> (r: i32)
    requires
        b32 != 0,
        0 <= q_res <= 60,
    ensures
        r == div_varq(a32 as int, b32 as int, q_res as int),
{
    let ha: u32 = headroom32(a32);
    let hb: u32 = headroom32(b32);
    let a_norm: i32 = if a32 == 0 {
        proof {
            lemma_wrap32_range(0);
            assert(0 * pow2(ha as nat) == 0);
        }
        0
    } else {
        proof {
            lemma_headroom(a32 as int);
        }
        shl32(a32, ha)
    };
    proof {
        lemma_headroom(b32 as int);
    }
    let b_norm: i32 = shl32(b32, hb);
    let inverse: i32 = invert_short(b_norm);
    let first: i32 = smulwb(a_norm, inverse);
    let rest: i32 = wsub(a_norm, shl32(smmul(b_norm, first), 3));
    let result: i32 = wadd(first, smulwb(rest, inverse));
    rescale(result, 29 + ha as i32 - hb as i32 - q_res)
}

pub fn inverse32_varq(b32: i32, q_res: i32) -> (r: i32)
    requires
        b32 != 0,
        0 < q_res <= 62,
    ensures
        r == inverse_varq(b32 as int, q_res as int),
{
    let hb: u32 = headroom32(b32);
    proof {
        lemma_headroom(b32 as int);
    }
    let b_norm: i32 = shl32(b32, hb);
    let inverse: i32 = invert_short(b_norm);
    let first: i32 = shl32(inverse, 16);
    let err: i32 = shl32(wsub(0x2000_0000, smulwb(b_norm, inverse)), 3);
    let result: i32 = wadd(first, smulww(err, inverse));
    rescale(result, 61 - hb as i32 - q_res)
}

/// The seven bits behind the leading one of `x`.
pub open spec fn leading_fraction(x: int) -> int {
    let lz = (32 - bit_length(x as nat)) as nat;
    ((x * pow2(lz + 1)) % 0x1_0000_0000) / 0x200_0000
}

/// Approximate square root: linear between powers of two.
pub open spec fn sqrt_of(x: int) -> int {
    if x <= 0 {
        0
    } else {
        let lz = (32 - bit_length(x as nat)) as nat;
        let base = if lz % 2 == 1 {
            32768int
        } else {
            46214
        };
        let y = base / pow2(lz / 2) as int;
        wrap32(y + mul_wb(y, 213 * leading_fraction(x)))
    }
}

/// The square root of a positive number is positive.
pub proof fn lemma_sqrt_positive(x: int)
    requires
        0 < x <= 0x7fff_ffff,
    ensures
        0 < sqrt_of(x) <= 0xffff,
{
    lemma2_to64();
    let b = bit_length(x as nat);
    lemma_bit_length_bound(x as nat);
    if b > 31 {
        if b > 32 {
            lemma_pow2_strictly_increases(31, (b - 1) as nat);
        }
        assert(false);
    }
    let lz = (32 - b) as nat;
    let h = lz / 2;
    let p = pow2(h) as int;
    lemma_pow2_pos(h);
    if h < 15 {
        lemma_pow2_strictly_increases(h, 15);
    }
    let base = if lz % 2 == 1 {
        32768int
    } else {
        46214
    };
    let y = base / p;
    lemma_div_non_zero(base, p);
    crate::fixed::lemma_div_is_ordered_by_denominator_signed(base, p);
    let f = leading_fraction(x);
    assert(0 <= f <= 127);
    crate::fixed::lemma_mul_wb(y, 213 * f);
    assert(0 <= y * (213 * f) <= 46214 * 27051) by (nonlinear_arith)
        requires
            0 <= y <= 46214,
            0 <= f <= 127,
    ;
    lemma_wrap32_range(y + mul_wb(y, 213 * f));
}

pub fn sqrt_approx(x: i32) -> (r: i32)
    ensures
        r == sqrt_of(x as int),
{
    if x <= 0 {
        return 0;
    }
    proof {
        lemma2_to64();
        lemma_bit_length_bound(x as nat);
        if bit_length(x as nat) > 31 {
            if bit_length(x as nat) > 32 {
                lemma_pow2_strictly_increases(31, (bit_length(x as nat) - 1) as nat);
            }
            assert(false);
        }
    }
    let lz: u32 = 32 - ilog(x as u32);
    proof {
        if lz + 1 < 32 {
            lemma_pow2_strictly_increases((lz + 1) as nat, 32);
        }
        lemma_u64_shl_is_mul(1, (lz + 1) as u64);
        let p = pow2((lz + 1) as nat) as int;
        assert(x * p <= 0x7fff_ffff * 0x1_0000_0000) by (nonlinear_arith)
            requires
                0 <= x <= 0x7fff_ffff,
                0 <= p <= 0x1_0000_0000,
        ;
    }
    let moved: u64 = x as u64 * (1u64 << (lz + 1) as u64);
    let frac: i32 = ((moved % 0x1_0000_0000) / 0x200_0000) as i32;
    let base: i32 = if lz % 2 == 1 {
        32768
    } else {
        46214
    };
    let y: i32 = shr32(base, lz / 2);
    wadd(y, smulwb(y, 213 * frac))
}

/// `v / 2^k` rounded to nearest.
pub fn round_shr(v: i32, k: u32) -> (r: i32)
    requires
        1 <= k <= 31,
    ensures
        r == crate::fixed::round_shift(v as int, k as nat),
{
    proof {
        reveal(crate::fixed::round_shift);
        lemma2_to64();
        lemma_pow2_pos((k - 1) as nat);
        crate::fixed::lemma_div_is_ordered_by_denominator_signed(
            v as int,
            pow2((k - 1) as nat) as int,
        );
    }
    let half: i64 = shr32(v, k - 1) as i64 + 1;
    proof {
        crate::fixed::lemma_shr_i64(half, 1);
    }
    (half >> 1) as i32
}

} // verus!
