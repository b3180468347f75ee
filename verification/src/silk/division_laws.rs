//! How close the fixed-point divisions come to the true quotients.

use crate::fixed::{
    bit_length, lemma_mul_wb, lemma_wrap32_range, mul_mm, mul_wb, mul_ww, sat32_of, wrap32,
};
use crate::range::lemma_bit_length_bound;
use crate::silk::math::{
    abs, div_varq, headroom, inverse_varq, leading_fraction, lemma_headroom, rescaled, shl,
    short_inverse, sqrt_of,
};
use vstd::arithmetic::div_mod::*;
use vstd::arithmetic::power2::*;
use vstd::prelude::*;

verus! {

/// Reducing what is taken away changes nothing in a difference.
pub proof fn lemma_wrap32_sub(a: int, b: int)
    ensures
        wrap32(a - wrap32(b)) == wrap32(a - b),
{
    reveal(wrap32);
    let q = (b + 0x8000_0000) / 0x1_0000_0000;
    assert(wrap32(b) == b - q * 0x1_0000_0000);
    lemma_mod_multiples_vanish(q, a - b + 0x8000_0000, 0x1_0000_0000);
}

/// The short reciprocal of a normalised number is exact to 14 bits.
pub proof fn lemma_short_inverse(x: int)
    requires
        0x4000_0000 <= x <= 0x7fff_ffff,
    ensures
        0x4000 <= short_inverse(x) <= 0x7fff,
        0x2000_0000_0000 - 0x8000_0000 <= x * short_inverse(x) <= 0x2000_0000_0000 + 0x8000_0000,
        short_inverse(x) == 0x7fff ==> x < 0x4001_0000,
{
    let d = x / 0x1_0000;
    let e = x % 0x1_0000;
    let y = short_inverse(x);
    assert(y == 0x1fff_ffffint / d);
    lemma_fundamental_div_mod(0x1fff_ffff, d);
    lemma_mod_bound(0x1fff_ffff, d);
    assert(d * y <= 0x1fff_ffff < d * y + d);
    assert(0x4000 <= y <= 0x7fff) by (nonlinear_arith)
        requires
            d * y <= 0x1fff_ffff < d * y + d,
            0x4000 <= d <= 0x7fff,
    ;
    assert(y == 0x7fff ==> d == 0x4000) by (nonlinear_arith)
        requires
            d * y <= 0x1fff_ffff < d * y + d,
            0x4000 <= d <= 0x7fff,
    ;
    assert(x * y == 0x1_0000 * (d * y) + e * y) by (nonlinear_arith)
        requires
            x == 0x1_0000 * d + e,
    ;
    assert(0 <= e * y <= 0x7fff_0000) by (nonlinear_arith)
        requires
            0 <= e <= 0xffff,
            0 <= y <= 0x7fff,
    ;
}

/// The reciprocal of a normalised number, before it is scaled.
pub open spec fn raw_inverse(x: int) -> int {
    let y = short_inverse(x);
    wrap32(
        shl(y, 16) + mul_ww(shl(wrap32(0x2000_0000 - mul_wb(x, y)), 3), y),
    )
}

/// It is exact to about 27 bits.
pub proof fn lemma_raw_inverse(x: int)
    requires
        0x4000_0000 <= x <= 0x7fff_ffff,
    ensures
        0 < raw_inverse(x) <= 0x7fff_ffff,
        -0x4_0000_0000 <= raw_inverse(x) * x - 0x2000_0000_0000_0000 <= 0x4_0000_0000,
{
    lemma2_to64();
    lemma_short_inverse(x);
    let y = short_inverse(x);
    let big_d = 0x2000_0000_0000 - x * y;
    let p = (x * y) / 0x1_0000;
    let f = (x * y) % 0x1_0000;
    lemma_mul_wb(x, y);
    let e0 = 0x2000_0000 - p;
    assert(-0x8000 <= e0 <= 0x8000);
    lemma_wrap32_range(e0);
    lemma_wrap32_range(e0 * 8);
    let err = 8 * e0;
    assert(0x2000 * err == big_d + f);
    assert(-0x8_0000_0000 <= err * y <= 0x8_0000_0000) by (nonlinear_arith)
        requires
            -0x40000 <= err <= 0x40000,
            0 <= y <= 0x7fff,
    ;
    let m = (err * y) / 0x1_0000;
    let f2 = (err * y) % 0x1_0000;
    reveal(mul_ww);
    lemma_wrap32_range(m);
    lemma_wrap32_range(y * 0x1_0000);
    let r = 0x1_0000 * y + m;
    if y == 0x7fff {
        assert(x * y >= 0x4000_0000 * 0x7fff) by (nonlinear_arith)
            requires
                x >= 0x4000_0000,
                y == 0x7fff,
        ;
        assert(e0 <= 0x4000);
        assert(err * y <= 0x20000 * 0x7fff) by (nonlinear_arith)
            requires
                err <= 0x20000,
                y == 0x7fff,
        ;
        assert(r <= 0x7fff_ffff);
    } else {
        assert(err * y <= 0x40000 * 0x7ffe) by (nonlinear_arith)
            requires
                err <= 0x40000,
                0 <= y <= 0x7ffe,
        ;
        assert(r <= 0x7fff_ffff);
    }
    lemma_wrap32_range(r);
    assert(raw_inverse(x) == r);
    let xy = x * y;
    assert(r * x == 0x1_0000 * xy + m * x) by (nonlinear_arith)
        requires
            r == 0x1_0000 * y + m,
            xy == x * y,
    ;
    assert(0x1_0000 * (m * x) == err * xy - f2 * x) by (nonlinear_arith)
        requires
            err * y == 0x1_0000 * m + f2,
            xy == x * y,
    ;
    assert(0x2000 * (err * xy) == (big_d + f) * xy) by (nonlinear_arith)
        requires
            0x2000 * err == big_d + f,
    ;
    assert((big_d + f) * xy == 0x2000_0000_0000 * (big_d + f) - (big_d * big_d + f * big_d))
        by (nonlinear_arith)
        requires
            big_d == 0x2000_0000_0000 - xy,
    ;
    assert(0x2000_0000 * (r * x) == 0x2000_0000 * 0x2000_0000_0000_0000 + 0x2000_0000_0000 * f - (
    big_d * big_d + f * big_d) - 0x2000 * (f2 * x));
    assert(0 <= big_d * big_d <= 0x4000_0000_0000_0000) by (nonlinear_arith)
        requires
            -0x8000_0000 <= big_d <= 0x8000_0000,
    ;
    assert(-0x8000_0000_0000 <= f * big_d <= 0x8000_0000_0000) by (nonlinear_arith)
        requires
            -0x8000_0000 <= big_d <= 0x8000_0000,
            0 <= f <= 0xffff,
    ;
    assert(0 <= f2 * x <= 0x8000_0000_0000) by (nonlinear_arith)
        requires
            0 <= x <= 0x7fff_ffff,
            0 <= f2 <= 0xffff,
    ;
}

/// A reciprocal in `q` fractional bits lies within one of the true one and a part
/// in `2^27` of it, where it is not scaled up.
pub proof fn law_inverse_is_close(b: int, q: int)
    requires
        0 < b <= 0x7fff_ffff,
        27 <= q <= 61 - headroom(b),
        61 - headroom(b) - q < 32,
    ensures
        0 <= inverse_varq(b, q) <= 0x7fff_ffff,
        inverse_varq(b, q) * b <= pow2(q as nat) + pow2((q - 27) as nat),
        inverse_varq(b, q) * b >= pow2(q as nat) - pow2((q - 27) as nat) - b,
{
    lemma2_to64();
    lemma_headroom(b);
    let h = headroom(b);
    let x = shl(b, h);
    assert(x == b * pow2(h));
    lemma_raw_inverse(x);
    let raw = raw_inverse(x);
    let down = (61 - h - q) as nat;
    let p = pow2(down) as int;
    lemma_pow2_pos(down);
    let r = raw / p;
    assert(inverse_varq(b, q) == r);
    lemma_fundamental_div_mod(raw, p);
    lemma_mod_bound(raw, p);
    assert(0 <= r <= raw) by (nonlinear_arith)
        requires
            raw == p * r + raw % p,
            0 <= raw % p < p,
            raw >= 0,
            p >= 1,
    ;
    let t = pow2(h) as int;
    lemma_pow2_pos(h);
    let u = p * t;
    lemma_pow2_adds(down, h);
    assert(u == pow2((61 - q) as nat));
    lemma_pow2_pos((61 - q) as nat);
    assert((r * b) * u <= raw * x < (r * b) * u + b * u) by (nonlinear_arith)
        requires
            raw == p * r + raw % p,
            0 <= raw % p < p,
            x == b * t,
            u == p * t,
            b > 0,
            t > 0,
    ;
    let one = pow2(q as nat) as int;
    let part = pow2((q - 27) as nat) as int;
    lemma_pow2_adds(q as nat, (61 - q) as nat);
    lemma_pow2_adds((q - 27) as nat, (61 - q) as nat);
    lemma_pow2_adds(29, 32);
    lemma_pow2_adds(2, 32);
    assert(one * u == 0x2000_0000_0000_0000);
    assert(part * u == 0x4_0000_0000);
    let rb = r * b;
    assert(rb <= one + part) by (nonlinear_arith)
        requires
            rb * u <= one * u + part * u,
            u > 0,
    ;
    assert(rb >= one - part - b) by (nonlinear_arith)
        requires
            rb * u + b * u >= one * u - part * u,
            u > 0,
    ;
}

/// The quotient of normalised numbers, before it is scaled.
pub open spec fn raw_quotient(a: int, x: int) -> int {
    let y = short_inverse(x);
    let first = mul_wb(a, y);
    let rest = wrap32(a - shl(mul_mm(x, first), 3));
    wrap32(first + mul_wb(rest, y))
}

/// It is exact to about 25 bits.
#[verifier::rlimit(40)]
pub proof fn lemma_raw_quotient(a: int, x: int)
    requires
        0x4000_0000 <= x <= 0x7fff_ffff,
        -0x8000_0000 <= a <= 0x7fff_ffff,
    ensures
        -0x4000_0010 <= raw_quotient(a, x) <= 0x4000_0010,
        -0x4_0000_0000 <= raw_quotient(a, x) * x - 0x2000_0000 * a <= 0x4_0000_0000,
{
    lemma2_to64();
    lemma_short_inverse(x);
    let y = short_inverse(x);
    let xy = x * y;
    let d = 0x2000_0000_0000 - xy;
    lemma_mul_wb(a, y);
    let first = (a * y) / 0x1_0000;
    let f1 = (a * y) % 0x1_0000;
    assert(-0x4000_0000 <= first <= 0x4000_0000) by {
        assert(-0x4000_0000_0000 <= a * y <= 0x4000_0000_0000) by (nonlinear_arith)
            requires
                -0x8000_0000 <= a <= 0x7fff_ffff,
                0 <= y <= 0x7fff,
        ;
    }
    reveal(mul_mm);
    let m = (x * first) / 0x1_0000_0000;
    let f2 = (x * first) % 0x1_0000_0000;
    let rest = a - 8 * m;
    assert(0x1_0000 * (x * first) == a * xy - f1 * x) by (nonlinear_arith)
        requires
            a * y == 0x1_0000 * first + f1,
            xy == x * y,
    ;
    assert(a * xy == 0x2000_0000_0000 * a - a * d) by (nonlinear_arith)
        requires
            d == 0x2000_0000_0000 - xy,
    ;
    assert(0x2000_0000_0000 * rest == a * d + f1 * x + 0x1_0000 * f2);
    assert(-0x4000_0000_0000_0000 <= a * d <= 0x4000_0000_0000_0000) by (nonlinear_arith)
        requires
            -0x8000_0000 <= a <= 0x7fff_ffff,
            -0x8000_0000 <= d <= 0x8000_0000,
    ;
    assert(0 <= f1 * x <= 0x8000_0000_0000) by (nonlinear_arith)
        requires
            0 <= x <= 0x7fff_ffff,
            0 <= f1 <= 0xffff,
    ;
    assert(-0x2_0010 <= rest <= 0x2_0010);
    lemma_wrap32_sub(a, m * 8);
    lemma_wrap32_range(rest);
    lemma_mul_wb(rest, y);
    let t = (rest * y) / 0x1_0000;
    let f3 = (rest * y) % 0x1_0000;
    assert(-0x1_0010_0000 <= rest * y <= 0x1_0010_0000) by (nonlinear_arith)
        requires
            -0x2_0010 <= rest <= 0x2_0010,
            0 <= y <= 0x7fff,
    ;
    let r = first + t;
    lemma_wrap32_range(r);
    assert(raw_quotient(a, x) == r);
    let rx = r * x;
    assert(0x1_0000 * rx == a * xy + rest * xy - f1 * x - f3 * x) by (nonlinear_arith)
        requires
            a * y == 0x1_0000 * first + f1,
            rest * y == 0x1_0000 * t + f3,
            r == first + t,
            rx == r * x,
            xy == x * y,
    ;
    assert(rest * xy == 0x2000_0000_0000 * rest - rest * d) by (nonlinear_arith)
        requires
            d == 0x2000_0000_0000 - xy,
    ;
    assert(0x1_0000 * rx == 0x2000_0000_0000 * a + 0x1_0000 * f2 - rest * d - f3 * x);
    assert(-0x1_0008_0000_0000 <= rest * d <= 0x1_0008_0000_0000) by (nonlinear_arith)
        requires
            -0x2_0010 <= rest <= 0x2_0010,
            -0x8000_0000 <= d <= 0x8000_0000,
    ;
    assert(0 <= f3 * x <= 0x8000_0000_0000) by (nonlinear_arith)
        requires
            0 <= x <= 0x7fff_ffff,
            0 <= f3 <= 0xffff,
    ;
    assert(-0x4_0000_0000 <= rx - 0x2000_0000 * a <= 0x4_0000_0000);
    assert(-0x4000_0010 <= r <= 0x4000_0010) by (nonlinear_arith)
        requires
            rx == r * x,
            x >= 0x4000_0000,
            rx <= 0x2000_0000 * 0x7fff_ffff + 0x4_0000_0000,
            rx >= -0x2000_0000 * 0x8000_0000 - 0x4_0000_0000,
    ;
}

/// A quotient has the sign of the dividend, and is 0 for 0.
pub proof fn law_quotient_has_the_sign(a: int, b: int, q: int)
    requires
        -0x8000_0000 <= a <= 0x7fff_ffff,
        0 < b <= 0x7fff_ffff,
        0 <= q <= 60,
    ensures
        a >= 0 ==> div_varq(a, b, q) >= 0,
        a <= 0 ==> div_varq(a, b, q) <= 0,
{
    lemma2_to64();
    lemma_headroom(b);
    let x = shl(b, headroom(b));
    let an = shl(a, headroom(a));
    if a == 0 {
        assert(an == 0) by {
            assert(0 * pow2(headroom(0)) == 0) by (nonlinear_arith);
            lemma_wrap32_range(0);
        }
    } else {
        lemma_headroom(a);
    }
    lemma_raw_quotient(an, x);
    let raw = raw_quotient(an, x);
    if a == 0 {
        assert(raw == 0) by {
            let y = short_inverse(x);
            lemma_short_inverse(x);
            lemma_mul_wb(0, y);
            reveal(mul_mm);
            lemma_wrap32_range(0);
            assert(x * 0 == 0);
        }
    } else if a > 0 {
        assert(raw > 0) by (nonlinear_arith)
            requires
                raw * x >= 0x2000_0000 * an - 0x4_0000_0000,
                an >= 0x4000_0000,
                x > 0,
        ;
    } else {
        assert(raw < 0) by (nonlinear_arith)
            requires
                raw * x <= 0x2000_0000 * an + 0x4_0000_0000,
                an <= -0x4000_0000,
                x > 0,
        ;
    }
    let down = 29 + headroom(a) - headroom(b) - q;
    assert(div_varq(a, b, q) == rescaled(raw, down));
    if down < 0 {
        let p = pow2((-down) as nat) as int;
        lemma_pow2_pos((-down) as nat);
        assert(raw >= 0 ==> raw * p >= 0) by (nonlinear_arith)
            requires
                p > 0,
        ;
        assert(raw <= 0 ==> raw * p <= 0) by (nonlinear_arith)
            requires
                p > 0,
        ;
    } else if down < 32 {
        let p = pow2(down as nat) as int;
        lemma_pow2_pos(down as nat);
        lemma_fundamental_div_mod(raw, p);
        lemma_mod_bound(raw, p);
        let r = raw / p;
        assert(raw >= 0 ==> r >= 0) by (nonlinear_arith)
            requires
                raw == p * r + raw % p,
                0 <= raw % p < p,
        ;
        assert(raw <= 0 ==> r <= 0) by (nonlinear_arith)
            requires
                raw == p * r + raw % p,
                0 <= raw % p < p,
        ;
    }
}

/// A quotient in `q` fractional bits lies within one of the true one and a part in
/// `2^25` of it, where it is not scaled up.
pub proof fn law_quotient_is_close(a: int, b: int, q: int)
    requires
        -0x8000_0000 <= a <= 0x7fff_ffff,
        a != 0,
        0 < b <= 0x7fff_ffff,
        0 <= q <= 60,
        0 <= 29 + headroom(a) - headroom(b) - q < 32,
    ensures
        0x200_0000 * (div_varq(a, b, q) * b - a * pow2(q as nat)) <= abs(a) * pow2(q as nat),
        0x200_0000 * (div_varq(a, b, q) * b + b - a * pow2(q as nat)) >= -(abs(a) * pow2(
            q as nat,
        )),
{
    lemma2_to64();
    lemma_headroom(b);
    lemma_headroom(a);
    let ha = headroom(a);
    let hb = headroom(b);
    let x = shl(b, hb);
    let an = shl(a, ha);
    lemma_raw_quotient(an, x);
    let raw = raw_quotient(an, x);
    let down = (29 + ha - hb - q) as nat;
    let p = pow2(down) as int;
    lemma_pow2_pos(down);
    let r = raw / p;
    assert(div_varq(a, b, q) == r);
    lemma_fundamental_div_mod(raw, p);
    lemma_mod_bound(raw, p);
    let t = pow2(hb) as int;
    lemma_pow2_pos(hb);
    let u = p * t;
    lemma_pow2_adds(down, hb);
    assert(u == pow2((29 + ha - q) as nat));
    lemma_pow2_pos((29 + ha - q) as nat);
    let rb = r * b;
    assert(rb * u <= raw * x < rb * u + b * u) by (nonlinear_arith)
        requires
            raw == p * r + raw % p,
            0 <= raw % p < p,
            x == b * t,
            u == p * t,
            rb == r * b,
            b > 0,
            t > 0,
    ;
    let one = pow2(q as nat) as int;
    let up = pow2(ha) as int;
    lemma_pow2_adds(q as nat, (29 + ha - q) as nat);
    lemma_pow2_adds(29, ha);
    assert(one * u == 0x2000_0000 * up);
    let m = abs(a);
    let ao = a * one;
    let mo = m * one;
    assert(ao * u == 0x2000_0000 * an) by (nonlinear_arith)
        requires
            one * u == 0x2000_0000 * up,
            an == a * up,
            ao == a * one,
    ;
    assert(m * up >= 0x4000_0000) by {
        assert(a > 0 ==> m * up == an);
        assert(a < 0 ==> m * up == -an) by (nonlinear_arith)
            requires
                an == a * up,
                a < 0 ==> m == -a,
        ;
    }
    assert(mo * u >= 0x2000_0000 * 0x4000_0000) by (nonlinear_arith)
        requires
            one * u == 0x2000_0000 * up,
            m * up >= 0x4000_0000,
            mo == m * one,
    ;
    assert(0x200_0000 * (rb - ao) <= mo) by (nonlinear_arith)
        requires
            rb * u <= ao * u + 0x4_0000_0000,
            mo * u >= 0x2000_0000 * 0x4000_0000,
            u > 0,
    ;
    assert(0x200_0000 * (rb + b - ao) >= -mo) by (nonlinear_arith)
        requires
            rb * u + b * u >= ao * u - 0x4_0000_0000,
            mo * u >= 0x2000_0000 * 0x4000_0000,
            u > 0,
    ;
}

/// A ratio below one in 31 fractional bits lies within 65 of the true one.
pub proof fn law_ratio_is_close(a: int, b: int)
    requires
        0 < b <= 0x7fff_ffff,
        -b < a < b,
    ensures
        -0x8000_0000 <= div_varq(a, b, 31) <= 0x7fff_ffff,
        -65 * b <= div_varq(a, b, 31) * b - 0x8000_0000 * a <= 65 * b,
{
    lemma2_to64();
    law_quotient_has_the_sign(a, b, 31);
    if a == 0 {
        assert(0 * b == 0);
    } else {
        lemma_headroom(b);
        lemma_headroom(a);
        let ha = headroom(a);
        let hb = headroom(b);
        let x = shl(b, hb);
        let an = shl(a, ha);
        lemma_raw_quotient(an, x);
        let raw = raw_quotient(an, x);
        lemma_smaller_has_more_headroom(a, b);
        let r = div_varq(a, b, 31);
        if ha - hb - 2 >= 32 {
            assert(false);
        } else if ha - hb - 2 >= 0 {
            law_quotient_is_close(a, b, 31);
            lemma_pow2_strictly_increases(30, 31);
            assert(pow2(31) == 0x8000_0000);
            let m = abs(a);
            let one = pow2(31) as int;
            assert(a * one == 0x8000_0000 * a && m * one == 0x8000_0000 * m) by (nonlinear_arith)
                requires
                    one == 0x8000_0000,
            ;
            assert(m <= b);
            assert(r * b - 0x8000_0000 * a <= 64 * b);
            let p = pow2((ha - hb - 2) as nat) as int;
            lemma_pow2_pos((ha - hb - 2) as nat);
            lemma_fundamental_div_mod(raw, p);
            lemma_mod_bound(raw, p);
            assert(-0x8000_0000 <= raw / p <= 0x7fff_ffff) by (nonlinear_arith)
                requires
                    raw == p * (raw / p) + raw % p,
                    0 <= raw % p < p,
                    p >= 1,
                    -0x4000_0010 <= raw <= 0x4000_0010,
            ;
        } else {
            let up = (2 + hb - ha) as nat;
            assert(up == 1 || up == 2);
            let p = pow2(up) as int;
            assert(p == 2 || p == 4);
            assert(r == sat32_of(raw * p));
            let t = pow2(hb) as int;
            lemma_pow2_pos(hb);
            lemma_pow2_adds((ha - hb) as nat, hb);
            let v = if up == 1 {
                2 * raw
            } else {
                4 * raw
            };
            assert(raw * p == v) by (nonlinear_arith)
                requires
                    p == 2 && v == 2 * raw || p == 4 && v == 4 * raw,
            ;
            let w = pow2((ha - hb) as nat) as int;
            assert(w * p == 4);
            // The unlimited ratio, times what both were scaled up by.
            let d = v * b - 0x8000_0000 * a;
            let rx = raw * x;
            assert((v * b) * t == p * rx) by (nonlinear_arith)
                requires
                    v == raw * p,
                    x == b * t,
                    rx == raw * x,
            ;
            let at = a * t;
            assert(p * an == 4 * at) by (nonlinear_arith)
                requires
                    an == a * (w * t),
                    w * p == 4,
                    at == a * t,
            ;
            let vb = v * b;
            assert(d * t == vb * t - 0x8000_0000 * at) by (nonlinear_arith)
                requires
                    d == vb - 0x8000_0000 * a,
                    at == a * t,
            ;
            assert(p * (rx - 0x2000_0000 * an) == p * rx - 0x2000_0000 * (p * an))
                by (nonlinear_arith);
            let e = raw * x - 0x2000_0000 * an;
            assert(-0x10_0000_0000 <= p * e <= 0x10_0000_0000) by (nonlinear_arith)
                requires
                    -0x4_0000_0000 <= e <= 0x4_0000_0000,
                    p == 2 || p == 4,
            ;
            assert(-64 * b <= d <= 64 * b) by (nonlinear_arith)
                requires
                    -0x10_0000_0000 <= d * t <= 0x10_0000_0000,
                    b * t >= 0x4000_0000,
                    t > 0,
            ;
            if v > 0x7fff_ffff {
                assert(0x7fff_ffff * b <= v * b) by (nonlinear_arith)
                    requires
                        v > 0x7fff_ffff,
                        b > 0,
                ;
            } else if v < -0x8000_0000 {
                assert(-0x8000_0000 * b >= v * b) by (nonlinear_arith)
                    requires
                        v < -0x8000_0000,
                        b > 0,
                ;
            }
        }
    }
}

proof fn lemma_smaller_has_more_headroom(a: int, b: int)
    requires
        0 < b <= 0x7fff_ffff,
        -b < a < b,
        a != 0,
    ensures
        headroom(a) >= headroom(b),
{
    lemma2_to64();
    lemma_headroom(a);
    lemma_headroom(b);
    if headroom(a) < headroom(b) {
        let p = pow2(headroom(a)) as int;
        let d = pow2((headroom(b) - headroom(a)) as nat) as int;
        lemma_pow2_adds(headroom(a), (headroom(b) - headroom(a)) as nat);
        lemma_pow2_pos(headroom(a));
        if headroom(b) - headroom(a) > 1 {
            lemma_pow2_strictly_increases(1, (headroom(b) - headroom(a)) as nat);
        }
        assert(d >= 2);
        assert(false) by (nonlinear_arith)
            requires
                -b < a < b,
                a > 0 && a * p >= 0x4000_0000 || a < 0 && a * p <= -0x4000_0000,
                b * (p * d) <= 0x7fff_ffff,
                d >= 2,
                p > 0,
                b > 0,
        ;
    }
}

/// The square of a square root is the number, but for a part in 500 above it and a
/// part in 20 below that of a root larger by 3.
pub proof fn law_square_root_is_close(x: int)
    requires
        0 < x <= 0x7fff_ffff,
    ensures
        1000 * (sqrt_of(x) * sqrt_of(x)) <= 1002 * x,
        100 * ((sqrt_of(x) + 3) * (sqrt_of(x) + 3)) >= 95 * x,
{
    lemma2_to64();
    let b = bit_length(x as nat);
    lemma_bit_length_bound(x as nat);
    assert(1 <= b <= 31) by {
        if b > 31 {
            if b > 32 {
                lemma_pow2_strictly_increases(31, (b - 1) as nat);
            }
        }
        assert(bit_length(0) == 0);
    }
    let lz = (32 - b) as nat;
    let e = pow2(lz) as int;
    lemma_pow2_adds(lz, b);
    lemma_pow2_adds(lz, (b - 1) as nat);
    lemma_pow2_pos(lz);
    let big = x * e;
    let lo = pow2((b - 1) as nat) as int;
    let hi = pow2(b) as int;
    assert(lo * e <= big < hi * e) by (nonlinear_arith)
        requires
            lo <= x < hi,
            big == x * e,
            e > 0,
    ;
    assert(0x8000_0000 <= big < 0x1_0000_0000);
    lemma_pow2_unfold(lz + 1);
    assert(x * pow2(lz + 1) == 2 * big) by (nonlinear_arith)
        requires
            big == x * e,
            pow2(lz + 1) == 2 * e,
    ;
    let f = leading_fraction(x);
    assert(f == (2 * big - 0x1_0000_0000) / 0x200_0000);
    assert(0 <= f <= 127);
    assert(0x8000_0000 + f * 0x100_0000 <= big < 0x8000_0000 + (f + 1) * 0x100_0000);
    let h = lz / 2;
    let p = pow2(h) as int;
    lemma_pow2_pos(h);
    lemma_pow2_adds(h, h);
    lemma_pow2_adds(h, (15 - h) as nat);
    let base = if lz % 2 == 1 {
        32768int
    } else {
        46214
    };
    let k = base / p;
    lemma_fundamental_div_mod(base, p);
    lemma_mod_bound(base, p);
    let kp = k * p;
    assert(kp <= base < kp + p) by (nonlinear_arith)
        requires
            base == p * k + base % p,
            0 <= base % p < p,
            kp == k * p,
    ;
    assert(0 <= k <= base) by (nonlinear_arith)
        requires
            kp <= base < kp + p,
            kp == k * p,
            p >= 1,
            base >= 0,
    ;
    let kc = k * (213 * f);
    lemma_mul_wb(k, 213 * f);
    let g = kc / 0x1_0000;
    assert(0 <= kc <= 46214 * 27051) by (nonlinear_arith)
        requires
            kc == k * (213 * f),
            0 <= k <= 46214,
            0 <= f <= 127,
    ;
    lemma_wrap32_range(k + g);
    let y = k + g;
    assert(sqrt_of(x) == y);
    let c = 0x1_0000 + 213 * f;
    // 65536 y against k c
    assert(k * c == 0x1_0000 * k + kc) by (nonlinear_arith)
        requires
            c == 0x1_0000 + 213 * f,
            kc == k * (213 * f),
    ;
    assert(k * c - 0x1_0000 < 0x1_0000 * y <= k * c);
    let yp = y * p;
    if lz % 2 == 1 {
        assert(e == 2 * (p * p)) by {
            lemma_pow2_unfold(lz);
        }
        let d = pow2((15 - h) as nat) as int;
        assert(k == d) by (nonlinear_arith)
            requires
                p * d == 32768,
                kp <= 32768 < kp + p,
                kp == k * p,
                p > 0,
        ;
        assert(kp == 32768) by (nonlinear_arith)
            requires
                p * d == 32768,
                k == d,
                kp == k * p,
        ;
        lemma_root_bounds(y, p, k, c, f, big, kp, 2);
        assert((y * y) * e == 2 * (yp * yp)) by (nonlinear_arith)
            requires
                e == 2 * (p * p),
                yp == y * p,
        ;
    } else {
        assert(e == p * p);
        lemma_root_bounds(y, p, k, c, f, big, kp, 1);
        assert((y * y) * e == yp * yp) by (nonlinear_arith)
            requires
                e == p * p,
                yp == y * p,
        ;
    }
    let yy = y * y;
    let zz = (y + 3) * (y + 3);
    let m: int = if lz % 2 == 1 {
        2
    } else {
        1
    };
    let zp = (y + 3) * p;
    assert(zz * e == m * (zp * zp)) by (nonlinear_arith)
        requires
            e == m * (p * p),
            zz == (y + 3) * (y + 3),
            zp == (y + 3) * p,
    ;
    assert(1000 * yy <= 1002 * x) by (nonlinear_arith)
        requires
            1000 * (yy * e) <= 1002 * big,
            big == x * e,
            e > 0,
    ;
    assert(100 * zz >= 95 * x) by (nonlinear_arith)
        requires
            100 * (zz * e) >= 95 * big,
            big == x * e,
            e > 0,
    ;
}

/// Bounds of an approximate root `y` of a number that is `big` when scaled up, both
/// scaled: `m * kp^2` is about `2^31`.
proof fn lemma_root_bounds(
    y: int,
    p: int,
    k: int,
    c: int,
    f: int,
    big: int,
    kp: int,
    m: int,
)
    requires
        p >= 1,
        k >= 0,
        kp == k * p,
        0 <= f <= 127,
        c == 0x1_0000 + 213 * f,
        k * c - 0x1_0000 < 0x1_0000 * y <= k * c,
        0x8000_0000 + f * 0x100_0000 <= big < 0x8000_0000 + (f + 1) * 0x100_0000,
        m == 2 && kp == 32768 || m == 1 && kp <= 46214 < kp + p,
    ensures
        1000 * (m * ((y * p) * (y * p))) <= 1002 * big,
        100 * (m * (((y + 3) * p) * ((y + 3) * p))) >= 95 * big,
{
    let yp = y * p;
    let top = if m == 2 {
        32768int
    } else {
        46214
    };
    assert(0x1_0000 * yp <= kp * c) by (nonlinear_arith)
        requires
            0x1_0000 * y <= k * c,
            yp == y * p,
            kp == k * p,
            p >= 1,
    ;
    assert(kp * c <= top * c) by (nonlinear_arith)
        requires
            kp <= top,
            c >= 0,
    ;
    assert(yp >= 0) by (nonlinear_arith)
        requires
            k * c - 0x1_0000 < 0x1_0000 * y,
            k >= 0,
            c >= 0,
            yp == y * p,
            p >= 1,
    ;
    let tc = top * c;
    assert((0x1_0000 * yp) * (0x1_0000 * yp) <= tc * tc) by (nonlinear_arith)
        requires
            0 <= 0x1_0000 * yp <= tc,
    ;
    assert((0x1_0000 * yp) * (0x1_0000 * yp) == 0x1_0000_0000 * (yp * yp)) by (nonlinear_arith);
    let cc = c * c;
    assert(tc * tc == (top * top) * cc) by (nonlinear_arith)
        requires
            tc == top * c,
            cc == c * c,
    ;
    assert(cc == 0x1_0000_0000 + 27918336 * f + 45369 * (f * f)) by (nonlinear_arith)
        requires
            c == 0x1_0000 + 213 * f,
            cc == c * c,
    ;
    assert(f * f <= 127 * f && f * f >= 0) by (nonlinear_arith)
        requires
            0 <= f <= 127,
    ;
    // Above: the root is no larger than this.
    assert(m == 2 ==> top * top == 0x4000_0000);
    assert(m == 1 ==> top * top == 2135733796);
    assert(m == 2 ==> (top * top) * cc == 0x4000_0000 * cc);
    assert(m == 1 ==> (top * top) * cc == 2135733796 * cc);
    assert(1000 * (m * (yp * yp)) <= 1002 * big);
    // Below: a root larger by 3 is no smaller than this.
    let zp = (y + 3) * p;
    assert(0x1_0000 * zp >= tc) by {
        if m == 2 {
            assert(0x1_0000 * zp >= kp * c) by (nonlinear_arith)
                requires
                    k * c - 0x1_0000 < 0x1_0000 * y,
                    zp == (y + 3) * p,
                    kp == k * p,
                    p >= 1,
            ;
        } else {
            assert(0x1_0000 * zp >= (kp + p) * c) by (nonlinear_arith)
                requires
                    k * c - 0x1_0000 < 0x1_0000 * y,
                    c <= 0x2_0000,
                    zp == (y + 3) * p,
                    kp == k * p,
                    p >= 1,
            ;
            assert((kp + p) * c >= 46214 * c) by (nonlinear_arith)
                requires
                    kp + p > 46214,
                    c >= 0,
            ;
        }
    }
    assert(tc >= 0) by (nonlinear_arith)
        requires
            tc == top * c,
            top >= 0,
            c >= 0,
    ;
    assert((0x1_0000 * zp) * (0x1_0000 * zp) >= tc * tc) by (nonlinear_arith)
        requires
            0x1_0000 * zp >= tc,
            tc >= 0,
    ;
    assert((0x1_0000 * zp) * (0x1_0000 * zp) == 0x1_0000_0000 * (zp * zp)) by (nonlinear_arith);
    lemma_parabola(f);
    let z = m * (zp * zp);
    assert(m == 2 ==> z == 2 * (zp * zp));
    assert(m == 1 ==> z == zp * zp);
    assert(0x1_0000_0000 * z >= 2135733796 * cc);
    let edge = 0x8000_0000 + (f + 1) * 0x100_0000;
    assert(100 * (2135733796 * cc) >= 408021893120 * edge) by {
        assert(95 * 0x1_0000_0000 * edge == 408021893120 * edge);
    }
    assert(big <= edge);
    assert(100 * z >= 95 * big) by (nonlinear_arith)
        requires
            0x1_0000_0000 * z >= 2135733796 * cc,
            100 * (2135733796 * cc) >= 408021893120 * edge,
            big <= edge,
    ;
}

/// The chord of the square root lies close below it.
proof fn lemma_parabola(f: int)
    requires
        0 <= f <= 127,
    ensures
        100 * (2135733796 * (0x1_0000_0000 + 27918336 * f + 45369 * (f * f))) >= 95 * 0x1_0000_0000
            * (0x8000_0000 + (f + 1) * 0x100_0000),
{
    // A quadratic in `f` without roots.
    let d = f - 46;
    let dd = d * d;
    let ff = f * f;
    assert(dd >= 0) by (nonlinear_arith)
        requires
            dd == d * d,
    ;
    assert(ff == dd + 92 * f - 2116) by (nonlinear_arith)
        requires
            d == f - 46,
            dd == d * d,
            ff == f * f,
    ;
    assert(0x1_0000_0000 + 27918336 * f + 45369 * ff == 45369 * dd + 32092284 * f + 4198966492);
    assert(213573379600 * (45369 * dd + 32092284 * f + 4198966492) >= 408021893120 * (
    0x8000_0000 + (f + 1) * 0x100_0000)) by (nonlinear_arith)
        requires
            dd >= 0,
            0 <= f <= 127,
    ;
    assert(95 * 0x1_0000_0000 == 408021893120);
}

} // verus!
