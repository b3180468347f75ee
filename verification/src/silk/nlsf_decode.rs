//! Line spectral frequencies from codebook indices.

use crate::fixed::{clamped, div_trunc};
use crate::silk::decode_indices::{lemma_select_inside, stage2_select};
use crate::silk::math::{lemma_sqrt_positive, sqrt_approx, sqrt_of};
use crate::silk::nlsf_cb::SilkNlsfCb;
use crate::silk::nlsf_stabilize::{nlsf_stabilize, spaced, stabilized};
use vstd::arithmetic::div_mod::*;
use vstd::prelude::*;

verus! {

/// Entry `i` of first-stage vector `i1`; 0 before and 256 behind them.
pub open spec fn cb1_at(cb: SilkNlsfCb, i1: int, i: int) -> int {
    if i < 0 {
        0
    } else if i >= cb.order {
        256
    } else {
        cb.cb1_nlsf_q8@[i1 * cb.order + i] as int
    }
}

/// At least one.
pub open spec fn gap(v: int) -> int {
    if v < 1 {
        1
    } else {
        v
    }
}

/// Weight (Q9) of coefficient `i`: large where neighbours are close.
pub open spec fn nlsf_weight(cb: SilkNlsfCb, i1: int, i: int) -> int {
    let below = gap(cb1_at(cb, i1, i) - cb1_at(cb, i1, i - 1));
    let above = gap(cb1_at(cb, i1, i + 1) - cb1_at(cb, i1, i));
    sqrt_of((1024int / below + 1024int / above) * 0x1_0000)
}

/// Weight (Q8) by which a residual predicts the one before it.
pub open spec fn pred_weight(cb: SilkNlsfCb, i1: int, i: int) -> int {
    let e = stage2_select(cb, i1, i);
    let set = (if i % 2 == 0 {
        e
    } else {
        e / 16
    }) % 2;
    cb.pred_q8@[i + set * (cb.order - 1)] as int
}

/// A second-stage index as a value (Q10), drawn a tenth towards zero.
pub open spec fn index_level(v: int) -> int {
    if v > 0 {
        v * 1024 - 102
    } else if v < 0 {
        v * 1024 + 102
    } else {
        0
    }
}

/// Second-stage residual (Q10) of coefficient `i`.
pub open spec fn nlsf_residual(cb: SilkNlsfCb, idx: Seq<int>, i: int) -> int
    decreases cb.order - i,
{
    if i >= cb.order {
        0
    } else {
        let predicted = if i + 1 < cb.order {
            (nlsf_residual(cb, idx, i + 1) * pred_weight(cb, idx[0], i)) / 256
        } else {
            0
        };
        predicted + (index_level(idx[i + 1]) * cb.quant_step_size_q16) / 0x1_0000
    }
}

/// Frequency (Q15) `i` before it is moved apart from others.
pub open spec fn nlsf_value(cb: SilkNlsfCb, idx: Seq<int>, i: int) -> int {
    clamped(
        cb1_at(cb, idx[0], i) * 128 + div_trunc(
            nlsf_residual(cb, idx, i) * 0x4000,
            nlsf_weight(cb, idx[0], i),
        ),
        0,
        0x7fff,
    )
}

/// The frequencies that the indices stand for.
pub open spec fn nlsf_decoded(cb: SilkNlsfCb, idx: Seq<int>) -> Seq<i16> {
    stabilized(
        Seq::new(cb.order as nat, |i: int| nlsf_value(cb, idx, i) as i16),
        cb.delta_min_q15@,
    )
}

proof fn lemma_residual_bound(cb: SilkNlsfCb, idx: Seq<int>, i: int)
    requires
        cb.wf(),
        0 <= i <= cb.order,
        0 <= idx[0] < cb.n_vectors,
        idx.len() == 17,
        forall|k: int| 1 <= k <= cb.order ==> -128 <= #[trigger] idx[k] <= 127,
    ensures
        -0x1_0001 * (cb.order - i) <= nlsf_residual(cb, idx, i) <= 0x1_0001 * (cb.order - i),
    decreases cb.order - i,
{
    if i < cb.order {
        lemma_residual_bound(cb, idx, i + 1);
        let r = nlsf_residual(cb, idx, i + 1);
        let c = index_level(idx[i + 1]);
        assert(-128 <= idx[i + 1] <= 127);
        let q = cb.quant_step_size_q16 as int;
        assert(-0x2_0000 * 0x8000 <= c * q <= 0x2_0000 * 0x8000) by (nonlinear_arith)
            requires
                -0x2_0000 <= c <= 0x2_0000,
                0 <= q <= 0x8000,
        ;
        if i + 1 < cb.order {
            let w = pred_weight(cb, idx[0], i);
            let b = 0x1_0001 * (cb.order - i - 1);
            assert(-b * 256 <= r * w <= b * 256) by (nonlinear_arith)
                requires
                    -b <= r <= b,
                    0 <= w <= 255,
                    b >= 0,
            ;
        }
    }
}

/// Weight `i`.
pub fn weight(cb: &SilkNlsfCb, i1: usize, i: usize) -> (w: i32)
    requires
        cb.wf(),
        i1 < cb.n_vectors,
        i < cb.order,
    ensures
        w == nlsf_weight(*cb, i1 as int, i as int),
        w > 0,
{
    let order: usize = cb.order as usize;
    proof {
        assert(0 <= i1 * order && i1 * order + order <= cb.n_vectors * cb.order) by (nonlinear_arith)
            requires
                0 <= i1,
                i1 + 1 <= cb.n_vectors,
                order == cb.order,
                order >= 0,
        ;
        assert(cb.n_vectors * cb.order <= 127 * 16) by (nonlinear_arith)
            requires
                0 <= cb.n_vectors <= 127,
                0 <= cb.order <= 16,
        ;
    }
    let base: usize = i1 * order;
    let here: i32 = cb.cb1_nlsf_q8[base + i] as i32;
    let before: i32 = if i == 0 {
        0
    } else {
        cb.cb1_nlsf_q8[base + i - 1] as i32
    };
    let behind: i32 = if i + 1 == order {
        256
    } else {
        cb.cb1_nlsf_q8[base + i + 1] as i32
    };
    let below: i32 = if here - before < 1 {
        1
    } else {
        here - before
    };
    let above: i32 = if behind - here < 1 {
        1
    } else {
        behind - here
    };
    let sum: i32 = 1024 / below + 1024 / above;
    proof {
        crate::fixed::lemma_div_is_ordered_by_denominator_signed(1024, below as int);
        crate::fixed::lemma_div_is_ordered_by_denominator_signed(1024, above as int);
        lemma_div_non_zero(1024, below as int);
        lemma_sqrt_positive(sum * 0x1_0000);
    }
    sqrt_approx(sum * 0x1_0000)
}

/// `a / b` rounded towards zero.
pub(crate) fn quotient(a: i64, b: i32) -> (r: i64)
    requires
        b > 0,
        -0x10_0000_0000 <= a <= 0x10_0000_0000,
    ensures
        r == div_trunc(a as int, b as int),
        -0x10_0000_0000 <= r <= 0x10_0000_0000,
{
    let ua: u64 = if a >= 0 {
        a as u64
    } else {
        (-a) as u64
    };
    let q: u64 = ua / b as u64;
    proof {
        crate::fixed::lemma_div_is_ordered_by_denominator_signed(ua as int, b as int);
    }
    if a >= 0 {
        q as i64
    } else {
        -(q as i64)
    }
}

/// The residuals.
pub(crate) fn residuals(cb: &SilkNlsfCb, indices: &[i8; 17], Ghost(idx): Ghost<Seq<int>>) -> (r: [i32; 16])
    requires
        cb.wf(),
        idx == Seq::new(17, |i: int| indices[i] as int),
        0 <= indices[0] < cb.n_vectors,
    ensures
        forall|i: int|
            0 <= i < cb.order ==> #[trigger] r[i] == nlsf_residual(*cb, idx, i) && -0x11_0000
                <= r[i] <= 0x11_0000,
{
    let mut r: [i32; 16] = [0;16];
    let order: usize = cb.order as usize;
    let i1: usize = indices[0] as usize;
    let mut i: usize = order;
    assert(idx[0] == i1);
    while i > 0
        invariant
            cb.wf(),
            order == cb.order,
            i <= order,
            i1 == indices[0],
            i1 < cb.n_vectors,
            idx == Seq::new(17, |i: int| indices[i] as int),
            forall|j: int|
                i <= j < order ==> #[trigger] r[j] == nlsf_residual(*cb, idx, j) && -0x11_0000
                    <= r[j] <= 0x11_0000,
        decreases i,
    {
        i = i - 1;
        proof {
            lemma_residual_bound(*cb, idx, i as int);
            lemma_residual_bound(*cb, idx, i + 1);
            lemma_select_inside(*cb, i1 as int, i as int);
            let h = cb.order as int / 2;
            assert(0 <= i1 * h <= 127 * 8) by (nonlinear_arith)
                requires
                    0 <= i1 <= 127,
                    0 <= h <= 8,
            ;
        }
        let v: i32 = indices[i + 1] as i32;
        let level: i32 = if v > 0 {
            v * 1024 - 102
        } else if v < 0 {
            v * 1024 + 102
        } else {
            0
        };
        proof {
            let q = cb.quant_step_size_q16 as int;
            assert(-0x2_0000 * 0x8000 <= level * q <= 0x2_0000 * 0x8000) by (nonlinear_arith)
                requires
                    -0x2_0000 <= level <= 0x2_0000,
                    0 <= q <= 0x8000,
            ;
            vstd::arithmetic::power2::lemma2_to64();
        }
        let own: i64 = crate::fixed::shr64(level as i64 * cb.quant_step_size_q16 as i64, 16);
        let mut predicted: i64 = 0;
        if i + 1 < order {
            let e: u8 = cb.ec_sel[i1 * (order / 2) + i / 2];
            let set: usize = if i % 2 == 0 {
                (e % 2) as usize
            } else {
                (e / 16 % 2) as usize
            };
            proof {
                let s = set as int;
                assert(0 <= s * (cb.order - 1) <= cb.order - 1) by (nonlinear_arith)
                    requires
                        0 <= s <= 1,
                        cb.order >= 1,
                ;
            }
            let w: u8 = cb.pred_q8[i + set * (order - 1)];
            proof {
                let ri = r[i + 1] as int;
                assert(-0x11_0000 * 256 <= ri * w <= 0x11_0000 * 256) by (nonlinear_arith)
                    requires
                        -0x11_0000 <= ri <= 0x11_0000,
                        0 <= w <= 255,
                ;
            }
            predicted = crate::fixed::shr64(r[i + 1] as i64 * w as i64, 8);
        }
        r[i] = (predicted + own) as i32;
    }
    r
}

/// Decodes the frequencies (Q15) of a frame.
pub fn nlsf_decode(nlsf_q15: &mut [i16], nlsf_indices: &[i8; 17], cb: &SilkNlsfCb)
    requires
        cb.wf(),
        old(nlsf_q15)@.len() == cb.order,
        0 <= nlsf_indices[0] < cb.n_vectors,
    ensures
        final(nlsf_q15)@ == nlsf_decoded(*cb, Seq::new(17, |i: int| nlsf_indices[i] as int)),
        final(nlsf_q15)@.len() == cb.order,
        spaced(final(nlsf_q15)@, cb.delta_min_q15@),
{
    let ghost idx = Seq::new(17, |i: int| nlsf_indices[i] as int);
    let order: usize = cb.order as usize;
    let i1: usize = nlsf_indices[0] as usize;
    assert(idx[0] == i1);
    let r: [i32; 16] = residuals(cb, nlsf_indices, Ghost(idx));
    for i in 0..order
        invariant
            cb.wf(),
            order == cb.order,
            i1 < cb.n_vectors,
            idx[0] == i1,
            nlsf_q15@.len() == order,
            forall|j: int|
                0 <= j < cb.order ==> #[trigger] r[j] == nlsf_residual(*cb, idx, j) && -0x11_0000
                    <= r[j] <= 0x11_0000,
            forall|j: int| 0 <= j < i ==> #[trigger] nlsf_q15@[j] == nlsf_value(*cb, idx, j),
    {
        let w: i32 = weight(cb, i1, i);
        let part: i64 = quotient(r[i] as i64 * 0x4000, w);
        proof {
            assert(0 <= i1 * order && i1 * order + order <= cb.n_vectors * cb.order)
                by (nonlinear_arith)
                requires
                    0 <= i1,
                    i1 + 1 <= cb.n_vectors,
                    order == cb.order,
                    order >= 0,
            ;
            assert(cb.n_vectors * cb.order <= 127 * 16) by (nonlinear_arith)
                requires
                    0 <= cb.n_vectors <= 127,
                    0 <= cb.order <= 16,
            ;
        }
        let v: i64 = cb.cb1_nlsf_q8[i1 * order + i] as i64 * 128 + part;
        nlsf_q15[i] = if v < 0 {
            0
        } else if v > 0x7fff {
            0x7fff
        } else {
            v as i16
        };
    }
    assert(nlsf_q15@ =~= Seq::new(cb.order as nat, |i: int| nlsf_value(*cb, idx, i) as i16));
    nlsf_stabilize(nlsf_q15, cb.delta_min_q15);
}

} // verus!
