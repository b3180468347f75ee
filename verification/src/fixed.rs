//! Fixed-point arithmetic on two's-complement integers.
//!
//! Every operation is stated over mathematical integers: a right shift is a
//! division rounded towards minus infinity, a left shift a multiplication, and
//! a narrowing cast a reduction modulo a power of two.

use vstd::arithmetic::div_mod::*;
use vstd::arithmetic::power2::*;
use vstd::prelude::*;

verus! {

/// The value that `v` has after being reduced to a signed 32-bit integer.
#[verifier::opaque]
pub open spec fn wrap32(v: int) -> int {
    (v + 0x8000_0000) % 0x1_0000_0000 - 0x8000_0000
}

/// The value that `v` has after being reduced to a signed 16-bit integer.
#[verifier::opaque]
pub open spec fn wrap16(v: int) -> int {
    (v + 0x8000) % 0x1_0000 - 0x8000
}

/// `v` taken in 8 bits.
pub open spec fn wrap8(v: int) -> int {
    (v + 0x80) % 0x100 - 0x80
}

/// `v` limited to `lo..=hi`.
pub open spec fn clamped(v: int, lo: int, hi: int) -> int {
    if v < lo {
        lo
    } else if v > hi {
        hi
    } else {
        v
    }
}

/// `v` limited to the signed 16-bit range.
pub open spec fn sat16_of(v: int) -> int {
    clamped(v, -0x8000, 0x7fff)
}

/// `v` limited to the signed 32-bit range.
pub open spec fn sat32_of(v: int) -> int {
    clamped(v, -0x8000_0000, 0x7fff_ffff)
}

/// `v` divided by `2^k`, rounded towards minus infinity.
pub open spec fn asr(v: int, k: nat) -> int {
    v / (pow2(k) as int)
}

/// `v` divided by `2^k`, rounded to nearest with ties upwards.
#[verifier::opaque]
pub open spec fn round_shift(v: int, k: nat) -> int {
    if k == 0 {
        v
    } else {
        (v / (pow2((k - 1) as nat) as int) + 1) / 2
    }
}

/// Product of a 32-bit value with the low half of another, scaled by `2^-16`.
#[verifier::opaque]
pub open spec fn mul_wb(a: int, b: int) -> int {
    (a * wrap16(b)) / 0x1_0000
}

/// Product of two 32-bit values scaled by `2^-16`, reduced to 32 bits.
#[verifier::opaque]
pub open spec fn mul_ww(a: int, b: int) -> int {
    wrap32((a * b) / 0x1_0000)
}

/// Product of two 32-bit values scaled by `2^-32`.
#[verifier::opaque]
pub open spec fn mul_mm(a: int, b: int) -> int {
    (a * b) / 0x1_0000_0000
}

/// Number of bits needed to write `v`.
pub open spec fn bit_length(v: nat) -> nat
    decreases v,
{
    if v == 0 {
        0
    } else {
        1 + bit_length(v / 2)
    }
}

/// Reducing to 32 bits gives a 32-bit value, and leaves such values alone.
pub proof fn lemma_wrap32_range(v: int)
    ensures
        -0x8000_0000 <= wrap32(v) <= 0x7fff_ffff,
        -0x8000_0000 <= v <= 0x7fff_ffff ==> wrap32(v) == v,
{
    reveal(wrap32);
}

/// Reducing to 16 bits gives a 16-bit value, and leaves such values alone.
pub proof fn lemma_wrap16_range(v: int)
    ensures
        -0x8000 <= wrap16(v) <= 0x7fff,
        -0x8000 <= v <= 0x7fff ==> wrap16(v) == v,
{
    reveal(wrap16);
}

/// Reducing early changes nothing in a sum.
pub proof fn lemma_wrap32_add(a: int, b: int)
    ensures
        wrap32(wrap32(a) + b) == wrap32(a + b),
        wrap32(wrap32(a) - b) == wrap32(a - b),
{
    reveal(wrap32);
    let q = (a + 0x8000_0000) / 0x1_0000_0000;
    assert(wrap32(a) == a - q * 0x1_0000_0000);
    lemma_mod_multiples_vanish(-q, a + b + 0x8000_0000, 0x1_0000_0000);
    lemma_mod_multiples_vanish(-q, a - b + 0x8000_0000, 0x1_0000_0000);
}

/// A 16-bit second factor is taken as it is.
pub proof fn lemma_mul_wb(a: int, b: int)
    requires
        -0x8000 <= b <= 0x7fff,
    ensures
        mul_wb(a, b) == (a * b) / 0x1_0000,
{
    reveal(mul_wb);
    lemma_wrap16_range(b);
}

/// Dividing by `a` and then by `b` is dividing by their product.
pub proof fn lemma_div_twice(v: int, a: int, b: int)
    requires
        a > 0,
        b > 0,
    ensures
        (v / a) / b == v / (a * b),
{
    let q = v / a;
    let h = q / b;
    lemma_fundamental_div_mod(v, a);
    lemma_mod_bound(v, a);
    lemma_fundamental_div_mod(q, b);
    lemma_mod_bound(q, b);
    let rest = a * (q % b) + v % a;
    assert(v == (a * b) * h + rest && 0 <= rest < a * b) by (nonlinear_arith)
        requires
            v == a * q + v % a,
            q == b * h + q % b,
            0 <= v % a < a,
            0 <= q % b < b,
            rest == a * (q % b) + v % a,
            a > 0,
            b > 0,
    ;
    lemma_fundamental_div_mod_converse(v, a * b, h, rest);
}

/// A right shift divides by a power of two and rounds down.
pub proof fn lemma_shr_i64(v: i64, k: u32)
    requires
        k < 64,
    ensures
        (v >> k) == asr(v as int, k as nat),
    decreases k,
{
    lemma_pow2_pos(k as nat);
    if k == 0 {
        assert(v >> 0u32 == v) by (bit_vector);
        lemma2_to64();
    } else {
        let k1: u32 = (k - 1) as u32;
        lemma_shr_i64(v, k1);
        lemma_pow2_pos(k1 as nat);
        let w: i64 = v >> k1;
        assert(v >> k == (v >> k1) >> 1u32) by (bit_vector)
            requires
                1 <= k < 64,
                k1 == k - 1,
        ;
        assert((w >> 1u32) * 2 + (w & 1) == w && 0 <= (w & 1) <= 1) by (bit_vector);
        lemma_pow2_unfold(k as nat);
        lemma_div_twice(v as int, pow2(k1 as nat) as int, 2);
        assert(w / 2 == (w >> 1u32));
    }
}

/// Reduces a 64-bit value to its low 32 bits.
pub fn narrow32(v: i64) -> (r: i32)
    ensures
        r == wrap32(v as int),
{
    proof {
        reveal(wrap32);
    }
    let lo: u32 = v as u32;
    proof {
        assert(v == (v >> 32u32) * 0x1_0000_0000 + (v as u32)) by (bit_vector);
        let q = (v >> 32u32) as int;
        assert(v as int == q * 0x1_0000_0000 + lo as int);
        if lo < 0x8000_0000 {
            lemma_fundamental_div_mod_converse(v as int + 0x8000_0000, 0x1_0000_0000, q, lo as int + 0x8000_0000);
        } else {
            lemma_fundamental_div_mod_converse(v as int + 0x8000_0000, 0x1_0000_0000, q + 1, lo as int - 0x8000_0000);
        }
    }
    if lo < 0x8000_0000 {
        lo as i32
    } else {
        (lo as i64 - 0x1_0000_0000) as i32
    }
}

/// `v` taken in 8 bits.
pub fn narrow8(v: i32) -> (r: i8)
    ensures
        r == wrap8(v as int),
{
    let low: i64 = (v as i64 + 0x8000_0080) % 0x100;
    assert((v + 0x8000_0080) % 0x100 == (v + 0x80) % 0x100);
    (low - 0x80) as i8
}

/// Reduces a 32-bit value to its low 16 bits.
pub fn narrow16(v: i32) -> (r: i16)
    ensures
        r == wrap16(v as int),
{
    proof {
        reveal(wrap16);
    }
    let lo: u16 = v as u16;
    proof {
        assert(v == (v >> 16u32) * 0x1_0000 + (v as u16)) by (bit_vector);
        let q = (v >> 16u32) as int;
        if lo < 0x8000 {
            lemma_fundamental_div_mod_converse(v as int + 0x8000, 0x1_0000, q, lo as int + 0x8000);
        } else {
            lemma_fundamental_div_mod_converse(v as int + 0x8000, 0x1_0000, q + 1, lo as int - 0x8000);
        }
    }
    if lo < 0x8000 {
        lo as i16
    } else {
        (lo as i32 - 0x1_0000) as i16
    }
}

/// Shifts right by `k`, rounding down.
pub fn shr64(v: i64, k: u32) -> (r: i64)
    requires
        k < 64,
    ensures
        r == asr(v as int, k as nat),
{
    proof {
        lemma_shr_i64(v, k);
    }
    v >> k
}

/// Shifts right by `k`, rounding down.
pub fn shr32(v: i32, k: u32) -> (r: i32)
    requires
        k < 64,
    ensures
        r == asr(v as int, k as nat),
{
    proof {
        lemma_pow2_pos(k as nat);
        lemma_div_is_ordered_by_denominator_signed(v as int, pow2(k as nat) as int);
    }
    shr64(v as i64, k) as i32
}

/// Division by a positive number does not move away from zero.
pub proof fn lemma_div_is_ordered_by_denominator_signed(v: int, d: int)
    requires
        d > 0,
    ensures
        v >= 0 ==> 0 <= v / d <= v,
        v < 0 ==> v <= v / d < 0,
{
    lemma_fundamental_div_mod(v, d);
    lemma_mod_bound(v, d);
    let q = v / d;
    if v >= 0 {
        assert(q >= 0 && q <= v) by (nonlinear_arith)
            requires
                v == d * q + v % d,
                0 <= v % d < d,
                d > 0,
                v >= 0,
        ;
    } else {
        assert(q < 0 && q >= v) by (nonlinear_arith)
            requires
                v == d * q + v % d,
                0 <= v % d < d,
                d > 0,
                v < 0,
        ;
    }
}

/// Sum reduced to 32 bits.
pub fn wadd(a: i32, b: i32) -> (r: i32)
    ensures
        r == wrap32(a + b),
{
    proof {
        reveal(wrap32);
    }
    a.wrapping_add(b)
}

/// Difference reduced to 32 bits.
pub fn wsub(a: i32, b: i32) -> (r: i32)
    ensures
        r == wrap32(a - b),
{
    proof {
        reveal(wrap32);
    }
    a.wrapping_sub(b)
}

/// Product reduced to 32 bits.
pub fn wmul(a: i32, b: i32) -> (r: i32)
    ensures
        r == wrap32(a * b),
{
    proof {
        reveal(wrap32);
    }
    a.wrapping_mul(b)
}

/// Product scaled by `2^-16`, the second factor taken modulo `2^16`.
pub fn smulwb(a: i32, b: i32) -> (r: i32)
    ensures
        r == mul_wb(a as int, b as int),
{
    proof {
        reveal(mul_wb);
        reveal(wrap16);
    }
    let c: i16 = narrow16(b);
    proof {
        assert(-0x8000_0000 * 0x8000 <= a * c <= 0x8000_0000 * 0x8000) by (nonlinear_arith)
            requires
                -0x8000_0000 <= a <= 0x7fff_ffff,
                -0x8000 <= c <= 0x7fff,
        ;
        lemma2_to64();
    }
    let product: i64 = a as i64 * c as i64;
    shr64(product, 16) as i32
}

/// Product scaled by `2^-16`.
pub fn smulww(a: i32, b: i32) -> (r: i32)
    ensures
        r == mul_ww(a as int, b as int),
{
    proof {
        reveal(mul_ww);
    }
    let product: i64 = product64(a, b);
    proof {
        lemma2_to64();
    }
    narrow32(shr64(product, 16))
}

/// Product scaled by `2^-32`.
pub fn smmul(a: i32, b: i32) -> (r: i32)
    ensures
        r == mul_mm(a as int, b as int),
{
    proof {
        reveal(mul_mm);
    }
    let product: i64 = product64(a, b);
    proof {
        lemma2_to64();
    }
    shr64(product, 32) as i32
}

/// Exact product.
pub fn product64(a: i32, b: i32) -> (r: i64)
    ensures
        r == a * b,
        -0x4000_0000_0000_0000 <= r <= 0x4000_0000_0000_0000,
{
    proof {
        assert(-0x4000_0000_0000_0000 <= a * b <= 0x4000_0000_0000_0000) by (nonlinear_arith)
            requires
                -0x8000_0000 <= a <= 0x7fff_ffff,
                -0x8000_0000 <= b <= 0x7fff_ffff,
        ;
    }
    a as i64 * b as i64
}

/// Limits `v` to the signed 16-bit range.
pub fn sat16(v: i32) -> (r: i16)
    ensures
        r == sat16_of(v as int),
{
    if v > 0x7fff {
        0x7fff
    } else if v < -0x8000 {
        -0x8000
    } else {
        v as i16
    }
}

/// Limits `v` to the signed 32-bit range.
pub fn sat32(v: i64) -> (r: i32)
    ensures
        r == sat32_of(v as int),
{
    if v > 0x7fff_ffff {
        0x7fff_ffff
    } else if v < -0x8000_0000 {
        -0x8000_0000
    } else {
        v as i32
    }
}

/// Limits `v` to `lo..=hi`.
pub fn clamp32(v: i32, lo: i32, hi: i32) -> (r: i32)
    ensures
        r == clamped(v as int, lo as int, hi as int),
{
    if v < lo {
        lo
    } else if v > hi {
        hi
    } else {
        v
    }
}

/// Number of bits needed to write `v`.
pub fn ilog(v: u32) -> (r: u32)
    ensures
        r == bit_length(v as nat),
        r <= 32,
{
    let mut rest: u32 = v;
    let mut count: u32 = 0;
    proof {
        lemma2_to64();
    }
    while rest > 0
        invariant
            count + bit_length(rest as nat) == bit_length(v as nat),
            count <= 32,
            rest < pow2((32 - count) as nat),
        decreases rest,
    {
        proof {
            if count == 32 {
                lemma2_to64();
            } else {
                lemma_pow2_unfold((32 - count) as nat);
            }
        }
        rest = rest / 2;
        count = count + 1;
    }
    count
}

/// `a / b` rounded towards zero.
pub open spec fn div_trunc(a: int, b: int) -> int {
    let q = if a >= 0 {
        a
    } else {
        -a
    } / if b >= 0 {
        b
    } else {
        -b
    };
    if (a >= 0) == (b >= 0) {
        q
    } else {
        -q
    }
}

/// `a / b` rounded towards zero.
pub fn divide(a: i32, b: i32) -> (r: i64)
    requires
        b != 0,
    ensures
        r == div_trunc(a as int, b as int),
        -0x8000_0000 <= r <= 0x8000_0000,
{
    let ua: u64 = if a >= 0 {
        a as u64
    } else {
        (-(a as i64)) as u64
    };
    let ub: u64 = if b >= 0 {
        b as u64
    } else {
        (-(b as i64)) as u64
    };
    let q: u64 = ua / ub;
    proof {
        lemma_div_is_ordered_by_denominator_signed(ua as int, ub as int);
    }
    if (a >= 0) == (b >= 0) {
        q as i64
    } else {
        -(q as i64)
    }
}

/// `a / b` rounded towards zero.
pub fn quotient(a: i32, b: i32) -> (r: i32)
    requires
        b > 0,
    ensures
        r == div_trunc(a as int, b as int),
        a >= 0 ==> 0 <= r <= a,
        a < 0 ==> a <= r <= 0,
{
    let q: i64 = divide(a, b);
    proof {
        lemma_div_is_ordered_by_denominator_signed(
            if a >= 0 {
                a as int
            } else {
                -(a as int)
            },
            b as int,
        );
    }
    q as i32
}

} // verus!
