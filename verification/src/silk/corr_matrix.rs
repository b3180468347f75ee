//! Correlations for least-squares prediction.
//!
//! The columns of the data matrix `X` are windows of `l` samples of one signal,
//! each starting one sample before the one to its left.

use crate::fixed::{asr, lemma_wrap32_add, lemma_wrap32_range, shr32, wadd, wrap32, wsub};
use crate::silk::inner_prod::{dot, inner_prod_aligned_scale, mul16};
use crate::silk::sum_sqr_shift::{energy_shift, scaled_energy, sum_sqr_shift};
use vstd::arithmetic::div_mod::*;
use vstd::arithmetic::mul::*;
use vstd::prelude::*;

verus! {

/// Column `k` of the data matrix.
pub open spec fn column(x: Seq<i16>, l: int, order: int, k: int) -> Seq<i16> {
    x.subrange(order - 1 - k, order - 1 - k + l)
}

/// `X' t`: the inner products of the columns with `t`.
pub fn corr_vector_fix(
    xt: &mut [i32],
    x: &[i16],
    t: &[i16],
    l: usize,
    order: usize,
    rshifts: i32,
    arch: i32,
)
    requires
        order > 0,
        l > 0,
        old(xt)@.len() >= order,
        x@.len() >= l + order - 1,
        t@.len() >= l,
        0 <= rshifts < 64,
    ensures
        final(xt)@.len() == old(xt)@.len(),
        forall|k: int|
            0 <= k < order ==> #[trigger] final(xt)@[k] == wrap32(
                dot(column(x@, l as int, order as int, k), t@, rshifts as nat, l as nat),
            ),
        forall|k: int| order <= k < old(xt)@.len() ==> #[trigger] final(xt)@[k] == old(xt)@[k],
{
    let width: usize = x.len();
    let target: &[i16] = &t[0..l];
    for k in 0..order
        invariant
            width == x@.len(),
            l > 0,
            xt@.len() == old(xt)@.len() >= order,
            x@.len() >= l + order - 1,
            target@ == t@.subrange(0, l as int),
            t@.len() >= l,
            0 <= rshifts < 64,
            forall|j: int|
                0 <= j < k ==> #[trigger] xt@[j] == wrap32(
                    dot(column(x@, l as int, order as int, j), t@, rshifts as nat, l as nat),
                ),
            forall|j: int| k <= j < xt@.len() ==> #[trigger] xt@[j] == old(xt)@[j],
    {
        let start: usize = order - 1 - k;
        let col: &[i16] = &x[start..start + l];
        proof {
            lemma_dot_prefix(col@, target@, t@, rshifts as nat, l as nat);
        }
        xt[k] = inner_prod_aligned_scale(col, target, rshifts as u32);
    }
}

proof fn lemma_dot_prefix(a: Seq<i16>, b: Seq<i16>, c: Seq<i16>, shift: nat, k: nat)
    requires
        k <= b.len() <= c.len(),
        forall|i: int| 0 <= i < b.len() ==> b[i] == c[i],
    ensures
        dot(a, b, shift, k) == dot(a, c, shift, k),
    decreases k,
{
    if k > 0 {
        lemma_dot_prefix(a, b, c, shift, (k - 1) as nat);
    }
}

/// Sum over `from <= i < to` of the products of the samples `i` and `i - lag`,
/// each divided by `2^shift`.
pub open spec fn lag_sum(x: Seq<i16>, lag: int, shift: nat, from: int, to: int) -> int
    decreases to - from,
{
    if to <= from {
        0
    } else {
        lag_sum(x, lag, shift, from, to - 1) + asr(x[to - 1] * x[to - 1 - lag], shift)
    }
}

/// Entry (`row`, `col`) of `X' X` below the diagonal.
pub open spec fn cross_entry(
    x: Seq<i16>,
    l: int,
    order: int,
    shift: nat,
    row: int,
    col: int,
) -> int {
    wrap32(lag_sum(x, row - col, shift, order - 1 - col, order - 1 - col + l))
}

/// Entry (`k`, `k`): the energy of the signal without the samples outside
/// column `k`.
pub open spec fn diagonal_entry(x: Seq<i16>, l: int, order: int, shift: nat, k: int) -> int {
    let energy = scaled_energy(x.subrange(0, l + order - 1));
    wrap32(
        energy - lag_sum(x, 0, shift, 0, order - 1 - k) - lag_sum(
            x,
            0,
            shift,
            order - 1 - k + l,
            order - 1 + l,
        ),
    )
}

/// A sum grows by its first product too.
proof fn lemma_lag_sum_front(x: Seq<i16>, lag: int, shift: nat, from: int, to: int)
    requires
        from < to,
    ensures
        lag_sum(x, lag, shift, from, to) == asr(x[from] * x[from - lag], shift) + lag_sum(
            x,
            lag,
            shift,
            from + 1,
            to,
        ),
    decreases to - from,
{
    reveal_with_fuel(lag_sum, 2);
    if from + 1 < to {
        lemma_lag_sum_front(x, lag, shift, from, to - 1);
    }
}

proof fn lemma_dot_is_lag_sum(x: Seq<i16>, a: int, lag: int, shift: nat, l: nat, k: nat)
    requires
        k <= l,
        0 <= a - lag,
        lag >= 0,
        a + l <= x.len(),
    ensures
        dot(
            x.subrange(a, a + l),
            x.subrange(a - lag, a - lag + l),
            shift,
            k,
        ) == lag_sum(x, lag, shift, a, a + k),
    decreases k,
{
    if k > 0 {
        lemma_dot_is_lag_sum(x, a, lag, shift, l, (k - 1) as nat);
    }
}

/// Different places of a square matrix are different places of its storage.
proof fn lemma_place(order: int, r: int, c: int, r2: int, c2: int)
    requires
        0 <= r < order,
        0 <= c < order,
        0 <= r2 < order,
        0 <= c2 < order,
    ensures
        0 <= r * order + c < order * order,
        r * order + c == r2 * order + c2 <==> (r == r2 && c == c2),
{
    assert(0 <= r * order + c < order * order) by (nonlinear_arith)
        requires
            0 <= r < order,
            0 <= c < order,
    ;
    lemma_fundamental_div_mod_converse(r * order + c, order, r, c);
    lemma_fundamental_div_mod_converse(r2 * order + c2, order, r2, c2);
}

/// The value stored for (`r`, `c`).
pub open spec fn entry(m: Seq<i32>, order: int, r: int, c: int) -> i32 {
    m[r * order + c]
}

fn set_symmetric(m: &mut [i32], order: usize, row: usize, col: usize, value: i32)
    requires
        old(m)@.len() >= order * order,
        row < order,
        col < order,
    ensures
        final(m)@.len() == old(m)@.len(),
        entry(final(m)@, order as int, row as int, col as int) == value,
        entry(final(m)@, order as int, col as int, row as int) == value,
        forall|r: int, c: int|
            0 <= r < order && 0 <= c < order && !(r == row && c == col) && !(r == col && c == row)
                ==> #[trigger] entry(final(m)@, order as int, r, c) == entry(
                old(m)@,
                order as int,
                r,
                c,
            ),
        forall|i: int| order * order <= i < old(m)@.len() ==> final(m)@[i] == old(m)@[i],
{
    let n: usize = m.len();
    proof {
        lemma_place(order as int, row as int, col as int, col as int, row as int);
        lemma_place(order as int, col as int, row as int, row as int, col as int);
        assert(row * order <= row * order + col);
        assert forall|r: int, c: int|
            0 <= r < order && 0 <= c < order && !(r == row && c == col) && !(r == col && c
                == row) implies r * order + c != row * order + col && r * order + c != col * order
            + row && 0 <= #[trigger] (r * order + c) < order * order by {
            lemma_place(order as int, r, c, row as int, col as int);
            lemma_place(order as int, r, c, col as int, row as int);
        }
    }
    m[row * order + col] = value;
    m[col * order + row] = value;
}

/// `X' X`, and the energy of the whole signal with the shift that all products
/// are divided by.
pub fn corr_matrix_fix(xx: &mut [i32], x: &[i16], l: usize, order: usize, arch: i32) -> (r: (
    i32,
    i32,
))
    requires
        order > 0,
        l > 0,
        l + order - 1 <= x@.len(),
        l + order - 1 <= 0x0fff_ffff,
        old(xx)@.len() >= order * order,
    ensures
        ({
            let head = x@.subrange(0, l + order - 1);
            let shift = energy_shift(head);
            &&& r.0 == scaled_energy(head)
            &&& r.1 == shift
            &&& final(xx)@.len() == old(xx)@.len()
            &&& forall|k: int|
                0 <= k < order ==> #[trigger] entry(final(xx)@, order as int, k, k)
                    == diagonal_entry(x@, l as int, order as int, shift, k)
            &&& forall|row: int, col: int|
                0 <= col < row < order ==> #[trigger] entry(final(xx)@, order as int, row, col)
                    == cross_entry(x@, l as int, order as int, shift, row, col)
            &&& forall|row: int, col: int|
                0 <= col < row < order ==> #[trigger] entry(final(xx)@, order as int, col, row)
                    == cross_entry(x@, l as int, order as int, shift, row, col)
            &&& forall|i: int|
                order * order <= i < old(xx)@.len() ==> #[trigger] final(xx)@[i] == old(xx)@[i]
        }),
{
    let history: usize = order - 1;
    let head_len: usize = l + history;
    let ghost head = x@.subrange(0, l + order - 1);
    let (nrg, rshifts) = sum_sqr_shift(&x[0..head_len]);
    let shift: u32 = rshifts as u32;
    let ghost sh = shift as nat;
    let ghost n = order as int;
    let ghost h = order - 1;
    let ghost len = l as int;
    let mut energy: i32 = nrg;
    proof {
        lemma_wrap32_range(nrg as int);
    }
    for i in 0..history
        invariant
            history <= x@.len(),
            shift <= 31,
            sh == shift,
            energy == wrap32(nrg - lag_sum(x@, 0, sh, 0, i as int)),
    {
        proof {
            lemma_wrap32_add(
                nrg - lag_sum(x@, 0, sh, 0, i as int),
                asr(x@[i as int] * x@[i as int], sh),
            );
        }
        energy = wsub(energy, shr32(mul16(x[i], x[i]), shift));
    }
    set_symmetric(xx, order, 0, 0, energy);
    for j in 1..order
        invariant
            history == order - 1,
            head_len == l + history <= x@.len(),
            shift <= 31,
            sh == shift,
            n == order,
            h == order - 1,
            len == l,
            order > 0,
            l > 0,
            head == x@.subrange(0, l + order - 1),
            nrg == scaled_energy(head),
            sh == energy_shift(head),
            energy == diagonal_entry(x@, len, n, sh, j - 1),
            xx@.len() == old(xx)@.len() >= order * order,
            forall|k: int|
                0 <= k < j ==> #[trigger] entry(xx@, n, k, k) == diagonal_entry(x@, len, n, sh, k),
            forall|i: int| order * order <= i < old(xx)@.len() ==> xx@[i] == old(xx)@[i],
    {
        let leaving: usize = history + l - j;
        let entering: usize = history - j;
        proof {
            let jj = j as int;
            let front = lag_sum(x@, 0, sh, 0, h - (jj - 1));
            let back = lag_sum(x@, 0, sh, h - (jj - 1) + len, h + len);
            lemma_lag_sum_front(x@, 0, sh, h - jj + len, h + len);
            let out = asr(x@[leaving as int] * x@[leaving as int], sh);
            let inn = asr(x@[entering as int] * x@[entering as int], sh);
            lemma_wrap32_add(nrg - front - back, out);
            lemma_wrap32_add(nrg - front - back - out, inn);
        }
        energy = wsub(energy, shr32(mul16(x[leaving], x[leaving]), shift));
        energy = wadd(energy, shr32(mul16(x[entering], x[entering]), shift));
        set_symmetric(xx, order, j, j, energy);
    }
    for lag in 1..order
        invariant
            history == order - 1,
            head_len == l + history <= x@.len(),
            shift <= 31,
            sh == shift,
            n == order,
            h == order - 1,
            len == l,
            order > 0,
            l > 0,
            xx@.len() == old(xx)@.len() >= order * order,
            forall|k: int|
                0 <= k < order ==> #[trigger] entry(xx@, n, k, k) == diagonal_entry(
                    x@,
                    len,
                    n,
                    sh,
                    k,
                ),
            forall|row: int, col: int|
                0 <= col < row < order && row - col < lag ==> #[trigger] entry(xx@, n, row, col)
                    == cross_entry(x@, len, n, sh, row, col),
            forall|row: int, col: int|
                0 <= col < row < order && row - col < lag ==> #[trigger] entry(xx@, n, col, row)
                    == cross_entry(x@, len, n, sh, row, col),
            forall|i: int| order * order <= i < old(xx)@.len() ==> xx@[i] == old(xx)@[i],
    {
        let base: usize = history - lag;
        let mut cross: i32 = inner_prod_aligned_scale(
            &x[history..history + l],
            &x[base..base + l],
            shift,
        );
        proof {
            lemma_dot_is_lag_sum(x@, history as int, lag as int, sh, l as nat, l as nat);
            assert(cross == cross_entry(x@, len, n, sh, lag as int, 0));
        }
        set_symmetric(xx, order, lag, 0, cross);
        for j in 1..order - lag
            invariant
                history == order - 1,
                base == history - lag,
                1 <= lag < order,
                head_len == l + history <= x@.len(),
                shift <= 31,
                sh == shift,
                n == order,
                h == order - 1,
                len == l,
                order > 0,
                l > 0,
                cross == cross_entry(x@, len, n, sh, lag + j - 1, j - 1),
                xx@.len() == old(xx)@.len() >= order * order,
                forall|k: int|
                    0 <= k < order ==> #[trigger] entry(xx@, n, k, k) == diagonal_entry(
                        x@,
                        len,
                        n,
                        sh,
                        k,
                    ),
                forall|row: int, col: int|
                    0 <= col < row < order && (row - col < lag || (row - col == lag && col < j))
                        ==> #[trigger] entry(xx@, n, row, col) == cross_entry(
                        x@,
                        len,
                        n,
                        sh,
                        row,
                        col,
                    ),
                forall|row: int, col: int|
                    0 <= col < row < order && (row - col < lag || (row - col == lag && col < j))
                        ==> #[trigger] entry(xx@, n, col, row) == cross_entry(
                        x@,
                        len,
                        n,
                        sh,
                        row,
                        col,
                    ),
                forall|i: int| order * order <= i < old(xx)@.len() ==> xx@[i] == old(xx)@[i],
        {
            let leave_a: usize = history + l - j;
            let leave_b: usize = base + l - j;
            let enter_a: usize = history - j;
            let enter_b: usize = base - j;
            proof {
                let jj = j as int;
                let lg = lag as int;
                let from = h - (jj - 1);
                let s = lag_sum(x@, lg, sh, from, from + len);
                lemma_lag_sum_front(x@, lg, sh, h - jj, from + len);
                let out = asr(x@[leave_a as int] * x@[leave_b as int], sh);
                let inn = asr(x@[enter_a as int] * x@[enter_b as int], sh);
                lemma_wrap32_add(s, out);
                lemma_wrap32_add(s - out, inn);
            }
            cross = wsub(cross, shr32(mul16(x[leave_a], x[leave_b]), shift));
            cross = wadd(cross, shr32(mul16(x[enter_a], x[enter_b]), shift));
            set_symmetric(xx, order, lag + j, j, cross);
        }
    }
    (nrg, rshifts)
}

/// With no shift and values that fit, an entry is the plain inner product of
/// its two columns.
pub proof fn law_cross_is_inner_product(x: Seq<i16>, l: nat, order: int, row: int, col: int)
    requires
        0 <= col < row < order,
        l + order - 1 <= x.len(),
    ensures
        cross_entry(x, l as int, order, 0, row, col) == wrap32(
            dot(column(x, l as int, order, col), column(x, l as int, order, row), 0, l),
        ),
{
    lemma_dot_is_lag_sum(x, order - 1 - col, row - col, 0, l, l);
}

} // verus!
