//! Prediction filters by Burg's method, over several subframes.
//!
//! The recursion does not filter the signal. It keeps the first and last rows
//! of the correlation matrix of the samples that take part, and the products of
//! that matrix with the forward and backward filters.

use crate::fixed::{
    asr, bit_length, clamp32, clamped, mul_mm, mul_wb, mul_ww, narrow32, round_shift, shr32, shr64,
    smmul, smulwb, smulww, wadd, wmul, wrap32, wsub,
};
use crate::silk::inner_prod::mul16;
use crate::silk::math::{
    abs, div32_varq, div_varq, headroom, headroom32, round_shr, shl, shl32, sqrt_approx, sqrt_of,
};
use vstd::arithmetic::div_mod::*;
use vstd::arithmetic::mul::*;
use vstd::arithmetic::power2::*;
use vstd::bits::*;
use vstd::prelude::*;

verus! {

/// Largest predictor order.
pub const MAX_LPC_ORDER: usize = 16;

/// Most samples of a frame.
pub const MAX_FRAME_SIZE: usize = 384;

/// Relative noise floor that conditions the correlations (Q32).
pub const FIND_LPC_COND_FAC_Q32: i32 = 42950;

// ---------------------------------------------------------------------
// Correlations
// ---------------------------------------------------------------------

/// Sum over `lag <= i < to` of the products of sample `i` with sample
/// `i - lag`, counted from `base` on.
pub open spec fn lag_product(x: Seq<i16>, base: int, lag: int, to: int) -> int
    decreases to - lag,
{
    if to <= lag {
        0
    } else {
        lag_product(x, base, lag, to - 1) + x[base + to - 1] * x[base + to - 1 - lag]
    }
}

/// `v` scaled by `2^-rs`.
pub open spec fn scaled_down(v: int, rs: int) -> int {
    if rs > 0 {
        asr(v, rs as nat)
    } else {
        v * pow2((-rs) as nat) as int
    }
}

/// Sum of the lag products of the first `s` subframes, each scaled.
pub open spec fn row_sum(x: Seq<i16>, len: int, rs: int, lag: int, s: nat) -> int
    decreases s,
{
    if s == 0 {
        0
    } else {
        wrap32(
            row_sum(x, len, rs, lag, (s - 1) as nat) + wrap32(
                scaled_down(lag_product(x, (s - 1) * len, lag, len), rs),
            ),
        )
    }
}

/// The energy that leaves 3 bits of headroom is `2^-rs` times the signal's.
pub open spec fn burg_shift(energy: int) -> int {
    clamped(bit_length(energy as nat) - 28, -16, 7)
}

/// A little more than `v`.
pub open spec fn conditioned(v: int) -> int {
    wrap32(wrap32(v + mul_mm(FIND_LPC_COND_FAC_Q32 as int, v)) + 1)
}

// ---------------------------------------------------------------------
// One order of the recursion
// ---------------------------------------------------------------------

/// The matrix rows and products.
pub struct BurgRows {
    pub first: Seq<int>,
    pub last: Seq<int>,
    pub caf: Seq<int>,
    pub cab: Seq<int>,
}

/// A sample that no longer takes part, negated and scaled.
pub open spec fn edge(rs: int, v: int) -> int {
    wrap32(
        -shl(
            v,
            if rs > -2 {
                (16 - rs) as nat
            } else {
                (-rs) as nat
            },
        ),
    )
}

pub open spec fn edge_term(rs: int, e: int, v: int) -> int {
    if rs > -2 {
        mul_wb(e, v)
    } else {
        wrap32(e * v)
    }
}

pub open spec fn residual_start(rs: int, v: int) -> int {
    if rs > -2 {
        shl(v, 9)
    } else {
        shl(v, 17)
    }
}

pub open spec fn residual_term(rs: int, a: int, v: int) -> int {
    if rs > -2 {
        mul_wb(a, v)
    } else {
        wrap32(v * round_shift(a, 8))
    }
}

/// Forward residual of sample `n` of the subframe at `base`, with `k` taps.
pub open spec fn head_residual(
    rs: int,
    af: Seq<int>,
    x: Seq<i16>,
    base: int,
    n: int,
    k: nat,
) -> int
    decreases k,
{
    if k == 0 {
        residual_start(rs, x[base + n] as int)
    } else {
        wrap32(
            head_residual(rs, af, x, base, n, (k - 1) as nat) + residual_term(
                rs,
                af[k - 1],
                x[base + n - k] as int,
            ),
        )
    }
}

/// Backward residual of the sample `n + 1` before the end of the subframe.
pub open spec fn tail_residual(
    rs: int,
    af: Seq<int>,
    x: Seq<i16>,
    base: int,
    len: int,
    n: int,
    k: nat,
) -> int
    decreases k,
{
    if k == 0 {
        residual_start(rs, x[base + len - n - 1] as int)
    } else {
        wrap32(
            tail_residual(rs, af, x, base, len, n, (k - 1) as nat) + residual_term(
                rs,
                af[k - 1],
                x[base + len - n + k - 1] as int,
            ),
        )
    }
}

pub open spec fn residual_gain(rs: int, t: int) -> int {
    if rs > -2 {
        shl(wrap32(-t), (7 - rs) as nat)
    } else {
        wrap32(-t)
    }
}

pub open spec fn product_term(rs: int, t: int, v: int) -> int {
    if rs > -2 {
        mul_wb(t, v)
    } else {
        mul_ww(t, shl(v, (-rs - 1) as nat))
    }
}

/// The rows without the `n`th samples from both ends of the subframe at
/// `base`.
pub open spec fn without_edges(
    r: BurgRows,
    rs: int,
    af: Seq<int>,
    x: Seq<i16>,
    base: int,
    len: int,
    n: int,
) -> BurgRows {
    let e1 = edge(rs, x[base + n] as int);
    let e2 = edge(rs, x[base + len - n - 1] as int);
    let t1 = residual_gain(rs, head_residual(rs, af, x, base, n, n as nat));
    let t2 = residual_gain(rs, tail_residual(rs, af, x, base, len, n, n as nat));
    BurgRows {
        first: Seq::new(
            16,
            |k: int|
                if k < n {
                    wrap32(r.first[k] + edge_term(rs, e1, x[base + n - k - 1] as int))
                } else {
                    r.first[k]
                },
        ),
        last: Seq::new(
            16,
            |k: int|
                if k < n {
                    wrap32(r.last[k] + edge_term(rs, e2, x[base + len - n + k] as int))
                } else {
                    r.last[k]
                },
        ),
        caf: Seq::new(
            17,
            |k: int|
                if k <= n {
                    wrap32(r.caf[k] + product_term(rs, t1, x[base + n - k] as int))
                } else {
                    r.caf[k]
                },
        ),
        cab: Seq::new(
            17,
            |k: int|
                if k <= n {
                    wrap32(r.cab[k] + product_term(rs, t2, x[base + len - n + k - 1] as int))
                } else {
                    r.cab[k]
                },
        ),
    }
}

/// The same for the first `s` subframes.
pub open spec fn without_all_edges(
    r: BurgRows,
    rs: int,
    af: Seq<int>,
    x: Seq<i16>,
    len: int,
    n: int,
    s: nat,
) -> BurgRows
    decreases s,
{
    if s == 0 {
        r
    } else {
        without_edges(
            without_all_edges(r, rs, af, x, len, n, (s - 1) as nat),
            rs,
            af,
            x,
            (s - 1) * len,
            len,
            n,
        )
    }
}

/// A coefficient scaled up as far as 7 bits go, and the scale that is missing.
pub open spec fn raised(a: int) -> (int, nat) {
    let up = if headroom(a) < 7 {
        headroom(a)
    } else {
        7
    };
    (shl(a, up), (7 - up) as nat)
}

/// `acc` and the product of a coefficient with `v`.
pub open spec fn with_product(acc: int, v: int, a: int) -> int {
    wrap32(acc + shl(mul_mm(v, raised(a).0), raised(a).1))
}

/// New ends of the products, and the parts of the reflection coefficient.
pub struct BurgSums {
    pub head: int,
    pub tail: int,
    pub num: int,
    pub nrg: int,
}

pub open spec fn burg_sums(r: BurgRows, af: Seq<int>, n: int, k: nat) -> BurgSums
    decreases k,
{
    if k == 0 {
        BurgSums { head: r.first[n], tail: r.last[n], num: 0, nrg: wrap32(r.cab[0] + r.caf[0]) }
    } else {
        let s = burg_sums(r, af, n, (k - 1) as nat);
        let a = af[k - 1];
        BurgSums {
            head: with_product(s.head, r.last[n - k], a),
            tail: with_product(s.tail, r.first[n - k], a),
            num: with_product(s.num, r.cab[n - k + 1], a),
            nrg: with_product(s.nrg, wrap32(r.cab[k as int] + r.caf[k as int]), a),
        }
    }
}

/// Twice the numerator, negated.
pub open spec fn reflection_num(s: BurgSums) -> int {
    shl(wrap32(-wrap32(s.num + s.tail)), 1)
}

/// The reflection coefficient (Q31).
pub open spec fn reflection(num: int, nrg: int) -> int {
    if abs(num) < nrg {
        div_varq(num, nrg, 31)
    } else if num > 0 {
        0x7fff_ffff
    } else {
        -0x8000_0000
    }
}

/// The inverse prediction gain (Q30) with one more reflection coefficient.
pub open spec fn next_gain(gain: int, rc: int) -> int {
    shl(mul_mm(gain, wrap32(0x4000_0000 - mul_mm(rc, rc))), 2)
}

/// The reflection coefficient that reaches exactly the smallest gain.
pub open spec fn limited_reflection(gain: int, min_gain: int, num: int) -> int {
    let limit = wrap32(0x4000_0000 - div_varq(min_gain, gain, 30));
    let root = sqrt_of(limit);
    if root > 0 {
        let refined = shl(wrap32((root + limit / root + 1) / 2), 16);
        if num < 0 {
            wrap32(-refined)
        } else {
            refined
        }
    } else {
        root
    }
}

/// `a[k]` and `rc` times its mirror image.
pub open spec fn reflected(a: int, mirror: int, rc: int) -> int {
    wrap32(a + shl(mul_mm(mirror, rc), 1))
}

pub struct BurgState {
    pub rows: BurgRows,
    /// The filter (Q25).
    pub af: Seq<int>,
    /// Inverse prediction gain (Q30).
    pub gain: int,
    /// The gain has reached its limit.
    pub limited: bool,
}

/// The recursion from order `n` to order `n + 1`.
pub open spec fn burg_step(
    b: BurgState,
    x: Seq<i16>,
    len: int,
    nb: nat,
    rs: int,
    min_gain: int,
    n: int,
) -> BurgState {
    let r = without_all_edges(b.rows, rs, b.af, x, len, n, nb);
    let s = burg_sums(r, b.af, n, n as nat);
    let num = reflection_num(s);
    let rc0 = reflection(num, s.nrg);
    let gain = next_gain(b.gain, rc0);
    let limited = gain <= min_gain;
    let rc = if limited {
        limited_reflection(b.gain, min_gain, num)
    } else {
        rc0
    };
    let caf = r.caf.update(n + 1, s.head);
    let cab = r.cab.update(n + 1, s.tail);
    BurgState {
        rows: if limited {
            BurgRows { caf, cab, ..r }
        } else {
            BurgRows {
                caf: Seq::new(
                    17,
                    |k: int|
                        if k <= n + 1 {
                            reflected(caf[k], cab[n + 1 - k], rc)
                        } else {
                            caf[k]
                        },
                ),
                cab: Seq::new(
                    17,
                    |k: int|
                        if k <= n + 1 {
                            reflected(cab[k], caf[n + 1 - k], rc)
                        } else {
                            cab[k]
                        },
                ),
                ..r
            }
        },
        af: Seq::new(
            16,
            |k: int|
                if k < n {
                    reflected(b.af[k], b.af[n - 1 - k], rc)
                } else if k == n {
                    asr(rc, 6)
                } else {
                    b.af[k]
                },
        ),
        gain: if limited {
            min_gain
        } else {
            gain
        },
        limited,
    }
}

/// The recursion before its first order.
pub open spec fn burg_start(x: Seq<i16>, len: int, nb: nat, rs: int, order: int) -> BurgState {
    let c0 = conditioned(wrap32(scaled_down(lag_product(x, 0, 0, len * nb), rs)));
    let row = Seq::new(
        16,
        |k: int|
            if k < order {
                row_sum(x, len, rs, k + 1, nb)
            } else {
                0
            },
    );
    let products = Seq::new(
        17,
        |k: int|
            if k == 0 {
                c0
            } else {
                0
            },
    );
    BurgState {
        rows: BurgRows { first: row, last: row, caf: products, cab: products },
        af: Seq::new(16, |k: int| 0),
        gain: 0x4000_0000,
        limited: false,
    }
}

/// The recursion after `n` orders, or where the gain reached its limit.
pub open spec fn burg_run(
    x: Seq<i16>,
    len: int,
    nb: nat,
    rs: int,
    min_gain: int,
    order: int,
    n: nat,
) -> BurgState
    decreases n,
{
    if n == 0 {
        burg_start(x, len, nb, rs, order)
    } else {
        let b = burg_run(x, len, nb, rs, min_gain, order, (n - 1) as nat);
        if b.limited {
            b
        } else {
            burg_step(b, x, len, nb, rs, min_gain, n - 1)
        }
    }
}

// ---------------------------------------------------------------------
// Results
// ---------------------------------------------------------------------

/// Prediction coefficient `k` (Q16).
pub open spec fn burg_coef(b: BurgState, k: int) -> int {
    -round_shift(b.af[k], 9)
}

/// The scaled energy without the first `order` samples of each subframe.
pub open spec fn energy_behind_heads(
    x: Seq<i16>,
    len: int,
    rs: int,
    order: int,
    c0: int,
    s: nat,
) -> int
    decreases s,
{
    if s == 0 {
        c0
    } else {
        wrap32(
            energy_behind_heads(x, len, rs, order, c0, (s - 1) as nat) - wrap32(
                scaled_down(lag_product(x, (s - 1) * len, 0, order), rs),
            ),
        )
    }
}

/// The product of the filter with the matrix products, with `k` taps.
pub open spec fn filter_energy(b: BurgState, k: nat) -> int
    decreases k,
{
    if k == 0 {
        b.rows.caf[0]
    } else {
        wrap32(
            filter_energy(b, (k - 1) as nat) + mul_ww(
                b.rows.caf[k as int],
                round_shift(b.af[k - 1], 9),
            ),
        )
    }
}

/// The filter's own energy (Q16), with `k` taps.
pub open spec fn filter_norm(b: BurgState, k: nat) -> int
    decreases k,
{
    if k == 0 {
        0x1_0000
    } else {
        let a = round_shift(b.af[k - 1], 9);
        wrap32(filter_norm(b, (k - 1) as nat) + mul_ww(a, a))
    }
}

/// The residual energy.
pub open spec fn burg_residual(b: BurgState, x: Seq<i16>, len: int, nb: nat, rs: int, order: nat) -> int {
    let c0 = wrap32(scaled_down(lag_product(x, 0, 0, len * nb), rs));
    if b.limited {
        shl(mul_mm(b.gain, energy_behind_heads(x, len, rs, order as int, c0, nb)), 2)
    } else {
        wrap32(
            filter_energy(b, order) + mul_ww(
                mul_mm(FIND_LPC_COND_FAC_Q32 as int, c0),
                wrap32(-filter_norm(b, order)),
            ),
        )
    }
}

// ---------------------------------------------------------------------
// Code
// ---------------------------------------------------------------------

pub open spec fn ints16(a: [i32; 16]) -> Seq<int> {
    Seq::new(16, |k: int| a[k] as int)
}

pub open spec fn ints17(a: [i32; 17]) -> Seq<int> {
    Seq::new(17, |k: int| a[k] as int)
}

/// The arrays of the recursion.
struct Rows {
    first: [i32; 16],
    last: [i32; 16],
    caf: [i32; 17],
    cab: [i32; 17],
}

impl View for Rows {
    type V = BurgRows;

    closed spec fn view(&self) -> BurgRows {
        BurgRows {
            first: ints16(self.first),
            last: ints16(self.last),
            caf: ints17(self.caf),
            cab: ints17(self.cab),
        }
    }
}

fn sum_lag(x: &[i16], base: usize, lag: usize, to: usize) -> (r: i64)
    requires
        base + to <= x@.len() <= MAX_FRAME_SIZE,
    ensures
        r == lag_product(x@, base as int, lag as int, to as int),
        -0x4000_0000 * 384 <= r <= 0x4000_0000 * 384,
        lag == 0 ==> r >= 0,
{
    let mut sum: i64 = 0;
    if to > lag {
        for i in lag..to
            invariant
                base + to <= x@.len() <= MAX_FRAME_SIZE,
                lag <= to,
                sum == lag_product(x@, base as int, lag as int, i as int),
                -0x4000_0000 * (i - lag) <= sum <= 0x4000_0000 * (i - lag),
                lag == 0 ==> sum >= 0,
        {
            let p: i32 = mul16(x[base + i], x[base + i - lag]);
            proof {
                let a = x@[base + i] as int;
                assert(a * a >= 0) by (nonlinear_arith);
            }
            sum = sum + p as i64;
        }
    }
    sum
}

/// `v * 2^-rs` in 32 bits.
fn scale_sum(v: i64, rs: i32) -> (r: i32)
    requires
        -16 <= rs <= 7,
        -0x4000_0000 * 384 <= v <= 0x4000_0000 * 384,
    ensures
        r == wrap32(scaled_down(v as int, rs as int)),
{
    if rs > 0 {
        narrow32(shr64(v, rs as u32))
    } else {
        let up: u32 = (-rs) as u32;
        proof {
            lemma2_to64();
            if up < 16 {
                lemma_pow2_strictly_increases(up as nat, 16);
            }
            lemma_u32_shl_is_mul(1, up);
            let p = pow2(up as nat) as int;
            assert(-0x4000_0000 * 384 * 0x1_0000 <= v * p <= 0x4000_0000 * 384 * 0x1_0000)
                by (nonlinear_arith)
                requires
                    -0x4000_0000 * 384 <= v <= 0x4000_0000 * 384,
                    0 <= p <= 0x1_0000,
            ;
        }
        narrow32(v * (1u32 << up) as i64)
    }
}

fn neg(v: i32) -> (r: i32)
    ensures
        r == wrap32(-(v as int)),
{
    wsub(0, v)
}

fn edge_of(rs: i32, v: i16) -> (r: i32)
    requires
        -16 <= rs <= 7,
    ensures
        r == edge(rs as int, v as int),
{
    if rs > -2 {
        neg(shl32(v as i32, (16 - rs) as u32))
    } else {
        neg(shl32(v as i32, (-rs) as u32))
    }
}

fn edge_term_of(rs: i32, e: i32, v: i16) -> (r: i32)
    ensures
        r == edge_term(rs as int, e as int, v as int),
{
    if rs > -2 {
        smulwb(e, v as i32)
    } else {
        wmul(e, v as i32)
    }
}

fn residual_start_of(rs: i32, v: i16) -> (r: i32)
    ensures
        r == residual_start(rs as int, v as int),
{
    if rs > -2 {
        shl32(v as i32, 9)
    } else {
        shl32(v as i32, 17)
    }
}

fn residual_term_of(rs: i32, a: i32, v: i16) -> (r: i32)
    ensures
        r == residual_term(rs as int, a as int, v as int),
{
    if rs > -2 {
        smulwb(a, v as i32)
    } else {
        wmul(v as i32, round_shr(a, 8))
    }
}

fn residual_gain_of(rs: i32, t: i32) -> (r: i32)
    requires
        -16 <= rs <= 7,
    ensures
        r == residual_gain(rs as int, t as int),
{
    if rs > -2 {
        shl32(neg(t), (7 - rs) as u32)
    } else {
        neg(t)
    }
}

fn product_term_of(rs: i32, t: i32, v: i16) -> (r: i32)
    requires
        -16 <= rs <= 7,
    ensures
        r == product_term(rs as int, t as int, v as int),
{
    if rs > -2 {
        smulwb(t, v as i32)
    } else {
        smulww(t, shl32(v as i32, (-rs - 1) as u32))
    }
}

/// Takes the edge samples of one subframe out.
fn drop_edges(
    rows: &mut Rows,
    rs: i32,
    af: &[i32; 16],
    x: &[i16],
    base: usize,
    len: usize,
    n: usize,
)
    requires
        -16 <= rs <= 7,
        n < 16,
        n < len,
        base + len <= x@.len() <= MAX_FRAME_SIZE,
    ensures
        final(rows)@ == without_edges(
            old(rows)@,
            rs as int,
            ints16(*af),
            x@,
            base as int,
            len as int,
            n as int,
        ),
{
    let ghost a = ints16(*af);
    let ghost b = base as int;
    let ghost r0 = rows@;
    let ghost goal = without_edges(r0, rs as int, a, x@, b, len as int, n as int);
    let e1: i32 = edge_of(rs, x[base + n]);
    let e2: i32 = edge_of(rs, x[base + len - n - 1]);
    let mut t1: i32 = residual_start_of(rs, x[base + n]);
    let mut t2: i32 = residual_start_of(rs, x[base + len - n - 1]);
    for k in 0..n
        invariant
            -16 <= rs <= 7,
            n < 16,
            n < len,
            base + len <= x@.len() <= MAX_FRAME_SIZE,
            a == ints16(*af),
            b == base,
            e1 == edge(rs as int, x@[b + n] as int),
            e2 == edge(rs as int, x@[b + len - n - 1] as int),
            t1 == head_residual(rs as int, a, x@, b, n as int, k as nat),
            t2 == tail_residual(rs as int, a, x@, b, len as int, n as int, k as nat),
            goal == without_edges(r0, rs as int, a, x@, b, len as int, n as int),
            r0 == old(rows)@,
            forall|j: int| 0 <= j < k ==> #[trigger] rows.first@[j] == goal.first[j],
            forall|j: int| 0 <= j < k ==> #[trigger] rows.last@[j] == goal.last[j],
            forall|j: int| k <= j < 16 ==> #[trigger] rows.first@[j] == r0.first[j],
            forall|j: int| k <= j < 16 ==> #[trigger] rows.last@[j] == r0.last[j],
            rows.caf == old(rows).caf,
            rows.cab == old(rows).cab,
    {
        let head: i16 = x[base + n - k - 1];
        let tail: i16 = x[base + len - n + k];
        rows.first[k] = wadd(rows.first[k], edge_term_of(rs, e1, head));
        rows.last[k] = wadd(rows.last[k], edge_term_of(rs, e2, tail));
        t1 = wadd(t1, residual_term_of(rs, af[k], head));
        t2 = wadd(t2, residual_term_of(rs, af[k], tail));
    }
    t1 = residual_gain_of(rs, t1);
    t2 = residual_gain_of(rs, t2);
    for k in 0..n + 1
        invariant
            -16 <= rs <= 7,
            n < 16,
            n < len,
            base + len <= x@.len() <= MAX_FRAME_SIZE,
            a == ints16(*af),
            b == base,
            t1 == residual_gain(
                rs as int,
                head_residual(rs as int, a, x@, b, n as int, n as nat),
            ),
            t2 == residual_gain(
                rs as int,
                tail_residual(rs as int, a, x@, b, len as int, n as int, n as nat),
            ),
            goal == without_edges(r0, rs as int, a, x@, b, len as int, n as int),
            forall|j: int| 0 <= j < 16 ==> #[trigger] rows.first@[j] == goal.first[j],
            forall|j: int| 0 <= j < 16 ==> #[trigger] rows.last@[j] == goal.last[j],
            forall|j: int| 0 <= j < k ==> #[trigger] rows.caf@[j] == goal.caf[j],
            forall|j: int| 0 <= j < k ==> #[trigger] rows.cab@[j] == goal.cab[j],
            forall|j: int| k <= j < 17 ==> #[trigger] rows.caf@[j] == r0.caf[j],
            forall|j: int| k <= j < 17 ==> #[trigger] rows.cab@[j] == r0.cab[j],
    {
        let head: i16 = x[base + n - k];
        let tail: i16 = x[base + len - n + k - 1];
        rows.caf[k] = wadd(rows.caf[k], product_term_of(rs, t1, head));
        rows.cab[k] = wadd(rows.cab[k], product_term_of(rs, t2, tail));
    }
    proof {
        assert(rows@.first =~= goal.first);
        assert(rows@.last =~= goal.last);
        assert(rows@.caf =~= goal.caf);
        assert(rows@.cab =~= goal.cab);
    }
}

fn drop_all_edges(
    rows: &mut Rows,
    rs: i32,
    af: &[i32; 16],
    x: &[i16],
    len: usize,
    nb: usize,
    n: usize,
)
    requires
        -16 <= rs <= 7,
        n < 16,
        n < len,
        len * nb <= x@.len() <= MAX_FRAME_SIZE,
    ensures
        final(rows)@ == without_all_edges(
            old(rows)@,
            rs as int,
            ints16(*af),
            x@,
            len as int,
            n as int,
            nb as nat,
        ),
{
    for s in 0..nb
        invariant
            -16 <= rs <= 7,
            n < 16,
            n < len,
            len * nb <= x@.len() <= MAX_FRAME_SIZE,
            rows@ == without_all_edges(
                old(rows)@,
                rs as int,
                ints16(*af),
                x@,
                len as int,
                n as int,
                s as nat,
            ),
    {
        proof {
            lemma_subframe(len as int, nb as int, s as int);
        }
        drop_edges(rows, rs, af, x, s * len, len, n);
    }
}

/// A subframe lies inside the frame.
proof fn lemma_subframe(len: int, nb: int, s: int)
    requires
        0 <= len,
        0 <= s < nb,
    ensures
        0 <= s * len,
        s * len + len <= len * nb,
{
    assert(0 <= s * len && s * len + len <= len * nb) by (nonlinear_arith)
        requires
            0 <= len,
            0 <= s,
            s + 1 <= nb,
    ;
}

fn with_product_of(acc: i32, v: i32, a1: i32, shift: u32, Ghost(a): Ghost<int>) -> (r: i32)
    requires
        (a1 as int, shift as nat) == raised(a),
        shift <= 7,
    ensures
        r == with_product(acc as int, v as int, a),
{
    wadd(acc, shl32(smmul(v, a1), shift))
}

/// The ends of the products and the parts of the reflection coefficient.
fn sums_of(rows: &Rows, af: &[i32; 16], n: usize) -> (r: (i32, i32, i32, i32))
    requires
        n < 16,
    ensures
        (BurgSums { head: r.0 as int, tail: r.1 as int, num: r.2 as int, nrg: r.3 as int })
            == burg_sums(rows@, ints16(*af), n as int, n as nat),
{
    let mut head: i32 = rows.first[n];
    let mut tail: i32 = rows.last[n];
    let mut num: i32 = 0;
    let mut nrg: i32 = wadd(rows.cab[0], rows.caf[0]);
    for k in 0..n
        invariant
            n < 16,
            (BurgSums {
                head: head as int,
                tail: tail as int,
                num: num as int,
                nrg: nrg as int,
            }) == burg_sums(rows@, ints16(*af), n as int, k as nat),
    {
        let a: i32 = af[k];
        let h: u32 = headroom32(a);
        let up: u32 = if h < 7 {
            h
        } else {
            7
        };
        let a1: i32 = shl32(a, up);
        let shift: u32 = 7 - up;
        head = with_product_of(head, rows.last[n - k - 1], a1, shift, Ghost(a as int));
        tail = with_product_of(tail, rows.first[n - k - 1], a1, shift, Ghost(a as int));
        num = with_product_of(num, rows.cab[n - k], a1, shift, Ghost(a as int));
        nrg = with_product_of(
            nrg,
            wadd(rows.cab[k + 1], rows.caf[k + 1]),
            a1,
            shift,
            Ghost(a as int),
        );
    }
    (head, tail, num, nrg)
}

fn reflection_of(num: i32, nrg: i32) -> (r: i32)
    ensures
        r == reflection(num as int, nrg as int),
{
    let magnitude: i64 = if num >= 0 {
        num as i64
    } else {
        -(num as i64)
    };
    if magnitude < nrg as i64 {
        div32_varq(num, nrg, 31)
    } else if num > 0 {
        0x7fff_ffff
    } else {
        -0x8000_0000
    }
}

fn limited_reflection_of(gain: i32, min_gain: i32, num: i32) -> (r: i32)
    requires
        gain != 0,
    ensures
        r == limited_reflection(gain as int, min_gain as int, num as int),
{
    let limit: i32 = wsub(0x4000_0000, div32_varq(min_gain, gain, 30));
    let root: i32 = sqrt_approx(limit);
    if root > 0 {
        assert(limit > 0);
        let mean: i64 = (root as i64 + (limit / root) as i64 + 1) / 2;
        let refined: i32 = shl32(narrow32(mean), 16);
        if num < 0 {
            neg(refined)
        } else {
            refined
        }
    } else {
        root
    }
}

fn reflect(a: i32, mirror: i32, rc: i32) -> (r: i32)
    ensures
        r == reflected(a as int, mirror as int, rc as int),
{
    wadd(a, shl32(smmul(mirror, rc), 1))
}

/// The filter and products after a reflection.
fn reflect_filter(af: &mut [i32; 16], n: usize, rc: i32)
    requires
        n < 16,
    ensures
        ints16(*final(af)) == Seq::new(
            16,
            |k: int|
                if k < n {
                    reflected(ints16(*old(af))[k], ints16(*old(af))[n - 1 - k], rc as int)
                } else if k == n {
                    asr(rc as int, 6)
                } else {
                    ints16(*old(af))[k]
                },
        ),
{
    let before: [i32; 16] = *af;
    for k in 0..n
        invariant
            n < 16,
            before == *old(af),
            forall|j: int|
                0 <= j < k ==> #[trigger] af@[j] == reflected(
                    before[j] as int,
                    before[n - 1 - j] as int,
                    rc as int,
                ),
            forall|j: int| k <= j < 16 ==> #[trigger] af@[j] == before[j],
    {
        af[k] = reflect(before[k], before[n - 1 - k], rc);
    }
    af[n] = shr32(rc, 6);
    assert(ints16(*af) =~= Seq::new(
        16,
        |k: int|
            if k < n {
                reflected(ints16(before)[k], ints16(before)[n - 1 - k], rc as int)
            } else if k == n {
                asr(rc as int, 6)
            } else {
                ints16(before)[k]
            },
    ));
}

fn reflect_products(rows: &mut Rows, n: usize, rc: i32)
    requires
        n < 16,
    ensures
        ({
            let o = old(rows)@;
            final(rows)@ == (BurgRows {
                caf: Seq::new(
                    17,
                    |k: int|
                        if k <= n + 1 {
                            reflected(o.caf[k], o.cab[n + 1 - k], rc as int)
                        } else {
                            o.caf[k]
                        },
                ),
                cab: Seq::new(
                    17,
                    |k: int|
                        if k <= n + 1 {
                            reflected(o.cab[k], o.caf[n + 1 - k], rc as int)
                        } else {
                            o.cab[k]
                        },
                ),
                ..o
            })
        }),
{
    let ghost o = rows@;
    let caf: [i32; 17] = rows.caf;
    let cab: [i32; 17] = rows.cab;
    for k in 0..n + 2
        invariant
            n < 16,
            rows.first == old(rows).first,
            rows.last == old(rows).last,
            forall|j: int|
                0 <= j < k ==> #[trigger] rows.caf@[j] == reflected(
                    caf[j] as int,
                    cab[n + 1 - j] as int,
                    rc as int,
                ),
            forall|j: int|
                0 <= j < k ==> #[trigger] rows.cab@[j] == reflected(
                    cab[j] as int,
                    caf[n + 1 - j] as int,
                    rc as int,
                ),
            forall|j: int| k <= j < 17 ==> #[trigger] rows.caf@[j] == caf[j],
            forall|j: int| k <= j < 17 ==> #[trigger] rows.cab@[j] == cab[j],
    {
        rows.caf[k] = reflect(caf[k], cab[n + 1 - k], rc);
        rows.cab[k] = reflect(cab[k], caf[n + 1 - k], rc);
    }
    proof {
        assert(rows@.first =~= o.first);
        assert(rows@.last =~= o.last);
        assert(rows@.caf =~= Seq::new(
            17,
            |k: int|
                if k <= n + 1 {
                    reflected(o.caf[k], o.cab[n + 1 - k], rc as int)
                } else {
                    o.caf[k]
                },
        ));
        assert(rows@.cab =~= Seq::new(
            17,
            |k: int|
                if k <= n + 1 {
                    reflected(o.cab[k], o.caf[n + 1 - k], rc as int)
                } else {
                    o.cab[k]
                },
        ));
    }
}

/// One order of the recursion; true if the gain reached its limit.
fn advance(
    rows: &mut Rows,
    af: &mut [i32; 16],
    gain: &mut i32,
    x: &[i16],
    len: usize,
    nb: usize,
    rs: i32,
    min_gain: i32,
    n: usize,
) -> (limited: bool)
    requires
        -16 <= rs <= 7,
        n < 16,
        n < len,
        len * nb <= x@.len() <= MAX_FRAME_SIZE,
        *old(gain) != 0,
        min_gain >= 0,
    ensures
        ({
            let before = BurgState {
                rows: old(rows)@,
                af: ints16(*old(af)),
                gain: *old(gain) as int,
                limited: false,
            };
            let after = BurgState {
                rows: final(rows)@,
                af: ints16(*final(af)),
                gain: *final(gain) as int,
                limited,
            };
            after == burg_step(
                before,
                x@,
                len as int,
                nb as nat,
                rs as int,
                min_gain as int,
                n as int,
            )
        }),
        !limited ==> *final(gain) > min_gain,
{
    let ghost before = BurgState {
        rows: rows@,
        af: ints16(*af),
        gain: *gain as int,
        limited: false,
    };
    drop_all_edges(rows, rs, af, x, len, nb, n);
    let ghost r = rows@;
    let (head, tail, num0, nrg) = sums_of(rows, af, n);
    rows.caf[n + 1] = head;
    rows.cab[n + 1] = tail;
    proof {
        assert(rows@.caf =~= r.caf.update(n + 1, head as int));
        assert(rows@.cab =~= r.cab.update(n + 1, tail as int));
        assert(rows@.first =~= r.first);
        assert(rows@.last =~= r.last);
    }
    let num: i32 = shl32(neg(wadd(num0, tail)), 1);
    let mut rc: i32 = reflection_of(num, nrg);
    let next: i32 = shl32(smmul(*gain, wsub(0x4000_0000, smmul(rc, rc))), 2);
    let limited: bool = next <= min_gain;
    if limited {
        rc = limited_reflection_of(*gain, min_gain, num);
        *gain = min_gain;
    } else {
        *gain = next;
    }
    reflect_filter(af, n, rc);
    if !limited {
        reflect_products(rows, n, rc);
    }
    proof {
        let goal = burg_step(
            before,
            x@,
            len as int,
            nb as nat,
            rs as int,
            min_gain as int,
            n as int,
        );
        assert(ints16(*af) =~= goal.af);
        assert(rows@.caf =~= goal.rows.caf);
        assert(rows@.cab =~= goal.rows.cab);
        assert(rows@.first =~= goal.rows.first);
        assert(rows@.last =~= goal.rows.last);
    }
    limited
}

/// The rows and products before the first order.
fn start_rows(x: &[i16], len: usize, nb: usize, rs: i32, order: usize, c0: i32) -> (r: Rows)
    requires
        -16 <= rs <= 7,
        1 <= order <= 16,
        order <= len,
        len * nb <= x@.len() <= MAX_FRAME_SIZE,
        c0 == wrap32(scaled_down(lag_product(x@, 0, 0, len * nb), rs as int)),
    ensures
        r@ == burg_start(x@, len as int, nb as nat, rs as int, order as int).rows,
{
    let ghost goal = burg_start(x@, len as int, nb as nat, rs as int, order as int).rows;
    let mut row: [i32; 16] = [0;16];
    for n in 0..order
        invariant
            -16 <= rs <= 7,
            1 <= order <= 16,
            order <= len,
            len * nb <= x@.len() <= MAX_FRAME_SIZE,
            forall|j: int|
                0 <= j < n ==> #[trigger] row@[j] == row_sum(
                    x@,
                    len as int,
                    rs as int,
                    j + 1,
                    nb as nat,
                ),
            forall|j: int| n <= j < 16 ==> #[trigger] row@[j] == 0,
    {
        let mut sum: i32 = 0;
        for s in 0..nb
            invariant
                -16 <= rs <= 7,
                n < order <= 16,
                order <= len,
                len * nb <= x@.len() <= MAX_FRAME_SIZE,
                sum == row_sum(x@, len as int, rs as int, n + 1, s as nat),
        {
            proof {
                lemma_subframe(len as int, nb as int, s as int);
            }
            let part: i64 = sum_lag(x, s * len, n + 1, len);
            sum = wadd(sum, scale_sum(part, rs));
        }
        row[n] = sum;
    }
    let base: i32 = wadd(wadd(c0, smmul(FIND_LPC_COND_FAC_Q32, c0)), 1);
    let mut caf: [i32; 17] = [0;17];
    caf[0] = base;
    let r: Rows = Rows { first: row, last: row, caf, cab: caf };
    proof {
        assert(r@.first =~= goal.first);
        assert(r@.last =~= goal.last);
        assert(r@.caf =~= goal.caf);
        assert(r@.cab =~= goal.cab);
    }
    r
}

/// Fits a prediction filter of `order` coefficients (Q16) to `nb_subfr`
/// subframes, with the inverse prediction gain (Q30) limited from below; gives
/// the residual energy and its number of fractional bits.
pub fn silk_burg_modified(
    res_nrg: &mut i32,
    res_nrg_q: &mut i32,
    a_q16: &mut [i32],
    x: &[i16],
    min_inv_gain_q30: i32,
    subfr_length: usize,
    nb_subfr: usize,
    order: usize,
    arch: i32,
)
    requires
        order <= MAX_LPC_ORDER,
        old(a_q16)@.len() >= order,
        subfr_length >= order,
        order > 0 ==> subfr_length * nb_subfr <= x@.len(),
        order > 0 ==> subfr_length * nb_subfr <= MAX_FRAME_SIZE,
        order > 0 ==> min_inv_gain_q30 >= 0,
    ensures
        final(a_q16)@.len() == old(a_q16)@.len(),
        ({
            let len = subfr_length as int;
            let nb = nb_subfr as nat;
            let frame = x@.subrange(0, len * nb);
            let energy = lag_product(frame, 0, 0, len * nb);
            let rs = burg_shift(energy);
            let b = burg_run(
                frame,
                len,
                nb,
                rs,
                min_inv_gain_q30 as int,
                order as int,
                order as nat,
            );
            if order == 0 || energy == 0 {
                &&& *final(res_nrg) == 0
                &&& *final(res_nrg_q) == 0
                &&& forall|k: int| 0 <= k < order ==> #[trigger] final(a_q16)@[k] == 0
                &&& forall|k: int|
                    order <= k < old(a_q16)@.len() ==> #[trigger] final(a_q16)@[k] == old(a_q16)@[k]
            } else {
                &&& *final(res_nrg) == burg_residual(b, frame, len, nb, rs, order as nat)
                &&& *final(res_nrg_q) == -rs
                &&& forall|k: int| 0 <= k < order ==> #[trigger] final(a_q16)@[k] == burg_coef(b, k)
                &&& forall|k: int|
                    order <= k < old(a_q16)@.len() ==> #[trigger] final(a_q16)@[k] == if b.limited
                        && k < 16 {
                        burg_coef(b, k)
                    } else {
                        old(a_q16)@[k] as int
                    }
            }
        }),
{
    if order == 0 {
        *res_nrg = 0;
        *res_nrg_q = 0;
        return;
    }
    let total: usize = subfr_length * nb_subfr;
    let frame: &[i16] = &x[0..total];
    let ghost f = frame@;
    let ghost len = subfr_length as int;
    let ghost nb = nb_subfr as nat;
    let energy: i64 = sum_lag(frame, 0, 0, total);
    if energy == 0 {
        for k in 0..order
            invariant
                a_q16@.len() == old(a_q16)@.len() >= order,
                forall|j: int| 0 <= j < k ==> #[trigger] a_q16@[j] == 0,
                forall|j: int| k <= j < a_q16@.len() ==> #[trigger] a_q16@[j] == old(a_q16)@[j],
        {
            a_q16[k] = 0;
        }
        *res_nrg = 0;
        *res_nrg_q = 0;
        return;
    }
    let rs: i32 = clamp32(bits_of(energy) as i32 - 28, -16, 7);
    assert(rs == burg_shift(energy as int));
    let ghost run = |n: nat|
        burg_run(f, len, nb, rs as int, min_inv_gain_q30 as int, order as int, n);
    let mut c0: i32 = scale_sum(energy, rs);
    let ghost c_full = c0 as int;
    let mut rows: Rows = start_rows(frame, subfr_length, nb_subfr, rs, order, c0);
    let mut af: [i32; 16] = [0;16];
    let mut gain: i32 = 0x4000_0000;
    let mut limited: bool = false;
    let mut n: usize = 0;
    assert(ints16(af) =~= Seq::new(16, |k: int| 0int));
    while n < order && !limited
        invariant
            n <= order <= 16,
            order <= subfr_length,
            -16 <= rs <= 7,
            frame@ == f,
            len == subfr_length,
            nb == nb_subfr,
            subfr_length * nb_subfr <= f.len() <= MAX_FRAME_SIZE,
            !limited ==> gain != 0,
            min_inv_gain_q30 >= 0,
            (BurgState { rows: rows@, af: ints16(af), gain: gain as int, limited }) == burg_run(
                f,
                len,
                nb,
                rs as int,
                min_inv_gain_q30 as int,
                order as int,
                n as nat,
            ),
        decreases order - n,
    {
        limited = advance(
            &mut rows,
            &mut af,
            &mut gain,
            frame,
            subfr_length,
            nb_subfr,
            rs,
            min_inv_gain_q30,
            n,
        );
        n = n + 1;
    }
    let ghost b = BurgState { rows: rows@, af: ints16(af), gain: gain as int, limited };
    proof {
        if limited {
            lemma_run_stays(
                f,
                len,
                nb,
                rs as int,
                min_inv_gain_q30 as int,
                order as int,
                n as nat,
                order as nat,
            );
        }
        assert(b == burg_run(
            f,
            len,
            nb,
            rs as int,
            min_inv_gain_q30 as int,
            order as int,
            order as nat,
        ));
    }
    *res_nrg_q = -rs;
    if limited {
        let width: usize = if a_q16.len() < 16 {
            a_q16.len()
        } else {
            16
        };
        for k in 0..width
            invariant
                a_q16@.len() == old(a_q16)@.len() >= order,
                width <= 16,
                width <= a_q16@.len(),
                b.af == ints16(af),
                forall|j: int| 0 <= j < k ==> #[trigger] a_q16@[j] == burg_coef(b, j),
                forall|j: int| k <= j < a_q16@.len() ==> #[trigger] a_q16@[j] == old(a_q16)@[j],
        {
            a_q16[k] = negated_coef(af[k]);
        }
        for s in 0..nb_subfr
            invariant
                -16 <= rs <= 7,
                order <= 16,
                order <= subfr_length,
                frame@ == f,
                len == subfr_length,
                nb == nb_subfr,
                subfr_length * nb_subfr <= f.len() <= MAX_FRAME_SIZE,
                c0 == energy_behind_heads(f, len, rs as int, order as int, c_full, s as nat),
        {
            proof {
                lemma_subframe(len, nb as int, s as int);
            }
            let part: i64 = sum_lag(frame, s * subfr_length, 0, order);
            c0 = wsub(c0, scale_sum(part, rs));
        }
        *res_nrg = shl32(smmul(gain, c0), 2);
    } else {
        let mut nrg: i32 = rows.caf[0];
        let mut norm: i32 = 0x1_0000;
        for k in 0..order
            invariant
                order <= 16,
                a_q16@.len() == old(a_q16)@.len() >= order,
                b.af == ints16(af),
                b.rows == rows@,
                nrg == filter_energy(b, k as nat),
                norm == filter_norm(b, k as nat),
                forall|j: int| 0 <= j < k ==> #[trigger] a_q16@[j] == burg_coef(b, j),
                forall|j: int| k <= j < a_q16@.len() ==> #[trigger] a_q16@[j] == old(a_q16)@[j],
        {
            let a: i32 = round_shr(af[k], 9);
            nrg = wadd(nrg, smulww(rows.caf[k + 1], a));
            norm = wadd(norm, smulww(a, a));
            a_q16[k] = negated_coef(af[k]);
        }
        *res_nrg = wadd(nrg, smulww(smmul(FIND_LPC_COND_FAC_Q32, c0), neg(norm)));
    }
}

fn negated_coef(a: i32) -> (r: i32)
    ensures
        r == -round_shift(a as int, 9),
{
    proof {
        reveal(round_shift);
        lemma2_to64();
    }
    let r: i32 = round_shr(a, 9);
    assert((9 - 1) as nat == 8);
    assert(r == (a as int / 256 + 1) / 2);
    -r
}

/// Number of bits of a positive value.
fn bits_of(v: i64) -> (r: u32)
    requires
        0 < v <= 0x4000_0000 * 384,
    ensures
        r == bit_length(v as nat),
        r <= 40,
{
    let mut rest: i64 = v;
    let mut count: u32 = 0;
    proof {
        lemma2_to64();
        lemma2_to64_rest();
    }
    while rest > 0
        invariant
            rest >= 0,
            count + bit_length(rest as nat) == bit_length(v as nat),
            count <= 40,
            rest < pow2((40 - count) as nat),
        decreases rest,
    {
        proof {
            if count == 40 {
                lemma2_to64();
            } else {
                lemma_pow2_unfold((40 - count) as nat);
            }
        }
        rest = rest / 2;
        count = count + 1;
    }
    count
}

/// Once limited, the recursion stays as it is.
proof fn lemma_run_stays(
    x: Seq<i16>,
    len: int,
    nb: nat,
    rs: int,
    min_gain: int,
    order: int,
    n: nat,
    m: nat,
)
    requires
        n <= m,
        burg_run(x, len, nb, rs, min_gain, order, n).limited,
    ensures
        burg_run(x, len, nb, rs, min_gain, order, m) == burg_run(
            x,
            len,
            nb,
            rs,
            min_gain,
            order,
            n,
        ),
    decreases m,
{
    if n < m {
        lemma_run_stays(x, len, nb, rs, min_gain, order, n, (m - 1) as nat);
    }
}

} // verus!
