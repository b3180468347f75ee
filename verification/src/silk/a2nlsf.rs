//! Line spectral frequencies of a prediction filter.
//!
//! The filter polynomial is split into a symmetric and an antisymmetric part.
//! The roots of both lie on the unit circle and alternate; they are found by a
//! walk over a cosine table, bisection and interpolation. Where not all roots
//! are found the filter's bandwidth is expanded and the walk starts anew.

use crate::fixed::{
    clamp32, clamped, div_trunc, divide, mul_ww, narrow32, shr32, smulww, wadd, wmul, wrap32, wsub,
};
use crate::silk::bwexpander::chirp_power;
use crate::silk::bwexpander_32::bwexpander_32;
use crate::silk::table_lsf_cos::{LSF_COS_TAB_SZ_FIX, SILK_LSF_COS_TAB_FIX_Q12};
use vstd::arithmetic::power2::*;
use vstd::bits::*;
use vstd::prelude::*;

verus! {

/// Largest filter order.
pub const SILK_MAX_ORDER_LPC: usize = 24;

/// Walks after the first.
pub const MAX_ITERATIONS_A2NLSF_FIX: usize = 16;

// ---------------------------------------------------------------------
// Polynomials
// ---------------------------------------------------------------------

/// Coefficient `n` of the symmetric part, before its fixed root is divided
/// out.
pub open spec fn sum_coef(a: Seq<i32>, dd: int, n: int) -> int {
    if n == dd {
        0x1_0000
    } else {
        wrap32(-wrap32(a[dd - n - 1] + a[dd + n]))
    }
}

/// Coefficient `n` of the antisymmetric part.
pub open spec fn difference_coef(a: Seq<i32>, dd: int, n: int) -> int {
    if n == dd {
        0x1_0000
    } else {
        wrap32(a[dd + n] - a[dd - n - 1])
    }
}

/// The symmetric part divided by `1 + z^-1`.
pub open spec fn p_coef(a: Seq<i32>, dd: int, n: int) -> int
    decreases dd - n,
{
    if n >= dd {
        sum_coef(a, dd, n)
    } else {
        wrap32(sum_coef(a, dd, n) - p_coef(a, dd, n + 1))
    }
}

/// The antisymmetric part divided by `1 - z^-1`.
pub open spec fn q_coef(a: Seq<i32>, dd: int, n: int) -> int
    decreases dd - n,
{
    if n >= dd {
        difference_coef(a, dd, n)
    } else {
        wrap32(difference_coef(a, dd, n) + q_coef(a, dd, n + 1))
    }
}

/// One pass of the change from `cos(n w)` to powers of `cos(w)`.
pub open spec fn pass_coef(poly: Seq<int>, dd: int, k: int, m: int) -> int
    decreases dd - m,
{
    if m > dd - 2 || m < k - 2 {
        poly[m]
    } else if m == k - 2 {
        wrap32(poly[m] - wrap32(pass_coef(poly, dd, k, m + 2) * 2))
    } else {
        wrap32(poly[m] - pass_coef(poly, dd, k, m + 2))
    }
}

/// The passes `2..=k`.
pub open spec fn cos_powers(poly: Seq<int>, dd: int, k: int) -> Seq<int>
    decreases k,
{
    if k < 2 {
        poly
    } else {
        let before = cos_powers(poly, dd, k - 1);
        Seq::new((dd + 1) as nat, |m: int| pass_coef(before, dd, k, m))
    }
}

/// The symmetric part as a polynomial in `cos(w)`.
pub open spec fn p_poly(a: Seq<i32>, dd: int) -> Seq<int> {
    cos_powers(Seq::new((dd + 1) as nat, |n: int| p_coef(a, dd, n)), dd, dd)
}

/// The antisymmetric part as a polynomial in `cos(w)`.
pub open spec fn q_poly(a: Seq<i32>, dd: int) -> Seq<int> {
    cos_powers(Seq::new((dd + 1) as nat, |n: int| q_coef(a, dd, n)), dd, dd)
}

/// The value of a polynomial's coefficients from `n` on, at `x` (Q16).
pub open spec fn poly_tail(poly: Seq<int>, x: int, n: int) -> int
    decreases poly.len() - n,
{
    if n >= poly.len() - 1 {
        poly[poly.len() - 1]
    } else {
        wrap32(poly[n] + mul_ww(poly_tail(poly, x, n + 1), x))
    }
}

/// The value of a polynomial at `x` (Q12).
pub open spec fn poly_value(poly: Seq<int>, x: int) -> int {
    poly_tail(poly, wrap32(x * 16), 0)
}

// ---------------------------------------------------------------------
// Root search
// ---------------------------------------------------------------------

pub open spec fn cos_at(k: int) -> int {
    SILK_LSF_COS_TAB_FIX_Q12[k] as int
}

/// A bracket of a root: two points with the polynomial's values, and the
/// position (Q8) inside the table step.
pub struct Bracket {
    pub xlo: int,
    pub ylo: int,
    pub xhi: int,
    pub yhi: int,
    pub frac: int,
}

/// `2^(7 - m)`.
pub open spec fn half_step(m: int) -> int {
    if m == 0 {
        128
    } else if m == 1 {
        64
    } else {
        32
    }
}

/// Halves a bracket.
pub open spec fn halved(poly: Seq<int>, b: Bracket, m: int) -> Bracket {
    let xmid = (wrap32(b.xlo + b.xhi) + 1) / 2;
    let ymid = poly_value(poly, xmid);
    if (b.ylo <= 0 && ymid >= 0) || (b.ylo >= 0 && ymid <= 0) {
        Bracket { xhi: xmid, yhi: ymid, ..b }
    } else {
        Bracket { xlo: xmid, ylo: ymid, frac: wrap32(b.frac + half_step(m)), ..b }
    }
}

/// The position of the root, by linear interpolation.
pub open spec fn root_position(b: Bracket) -> int {
    if -0x1_0000 < b.ylo < 0x1_0000 || b.ylo == -0x8000_0000 {
        let den = wrap32(b.ylo - b.yhi);
        if den != 0 {
            let nom = wrap32(wrap32(b.ylo * 32) + den / 2);
            wrap32(b.frac + div_trunc(nom, den))
        } else {
            b.frac
        }
    } else {
        let den = wrap32(b.ylo - b.yhi) / 32;
        if den != 0 {
            wrap32(b.frac + div_trunc(b.ylo, den))
        } else {
            b.frac
        }
    }
}

/// The frequency (Q15) of the root in the table step that ends at `k`.
pub open spec fn root_frequency(poly: Seq<int>, k: int, xlo: int, ylo: int, yhi: int) -> int {
    let b = Bracket { xlo, ylo, xhi: cos_at(k), yhi, frac: -256 };
    let found = root_position(halved(poly, halved(poly, halved(poly, b, 0), 1), 2));
    clamped(wrap32(wrap32(k * 256) + found), 0, 0x7fff)
}

/// The search: the filter as far as it is expanded, the frequencies found,
/// their number, the table entry, the walk, and the lower point.
pub struct RootSearch {
    pub a: Seq<i32>,
    pub nlsf: Seq<i16>,
    pub root: int,
    pub k: int,
    pub walk: int,
    pub xlo: int,
    pub ylo: int,
    pub thr: int,
}

/// The start of a walk.
pub open spec fn walk_start(a: Seq<i32>, nlsf: Seq<i16>, walk: int) -> RootSearch {
    let dd = a.len() as int / 2;
    let first = poly_value(p_poly(a, dd), cos_at(0));
    if first < 0 {
        RootSearch {
            a,
            nlsf: nlsf.update(0, 0),
            root: 1,
            k: 1,
            walk,
            xlo: cos_at(0),
            ylo: poly_value(q_poly(a, dd), cos_at(0)),
            thr: 0,
        }
    } else {
        RootSearch { a, nlsf, root: 0, k: 1, walk, xlo: cos_at(0), ylo: first, thr: 0 }
    }
}

/// The filter expanded for a walk.
pub open spec fn expanded_for(a: Seq<i32>, walk: int) -> Seq<i32> {
    Seq::new(
        a.len(),
        |i: int|
            mul_ww(
                chirp_power(0x1_0000 - pow2(walk as nat) as int, i as nat),
                a[i] as int,
            ) as i32,
    )
}

/// Equally spaced frequencies.
pub open spec fn even_spacing(len: nat) -> Seq<i16> {
    Seq::new(len, |i: int| ((i + 1) * (0x8000int / (len as int + 1))) as i16)
}

/// One step of the search, before the last root is found.
pub open spec fn search_step(s: RootSearch) -> RootSearch {
    let d = s.a.len() as int;
    let dd = d / 2;
    if s.k > LSF_COS_TAB_SZ_FIX {
        if s.walk + 1 > MAX_ITERATIONS_A2NLSF_FIX {
            RootSearch { nlsf: even_spacing(s.a.len()), root: d, walk: s.walk + 1, ..s }
        } else {
            walk_start(expanded_for(s.a, s.walk + 1), s.nlsf, s.walk + 1)
        }
    } else {
        let poly = if s.root % 2 == 0 {
            p_poly(s.a, dd)
        } else {
            q_poly(s.a, dd)
        };
        let yhi = poly_value(poly, cos_at(s.k));
        if (s.ylo <= 0 && yhi >= s.thr) || (s.ylo >= 0 && yhi <= -s.thr) {
            RootSearch {
                nlsf: s.nlsf.update(
                    s.root,
                    root_frequency(poly, s.k, s.xlo, s.ylo, yhi) as i16,
                ),
                root: s.root + 1,
                xlo: cos_at(s.k - 1),
                ylo: if ((s.root + 1) / 2) % 2 == 0 {
                    4096
                } else {
                    -4096
                },
                thr: if yhi == 0 {
                    1
                } else {
                    0
                },
                ..s
            }
        } else {
            RootSearch { k: s.k + 1, xlo: cos_at(s.k), ylo: yhi, thr: 0, ..s }
        }
    }
}

/// The search carried to its end.
pub open spec fn search_end(s: RootSearch) -> RootSearch
    decreases 18 - s.walk, 131 - s.k + s.a.len() - s.root,
{
    if s.root >= s.a.len() || s.walk > 16 || s.walk < 0 || s.k > 129 || s.k < 1 || s.root < 0 {
        s
    } else {
        search_end(search_step(s))
    }
}

// ---------------------------------------------------------------------
// Code
// ---------------------------------------------------------------------

/// The array starts with the polynomial.
pub open spec fn holds_poly(c: [i32; 13], poly: Seq<int>) -> bool {
    &&& 1 <= poly.len() <= 13
    &&& forall|n: int| 0 <= n < poly.len() ==> #[trigger] c[n] == poly[n]
}

fn trans_poly(poly: &mut [i32; 13], dd: usize, Ghost(start): Ghost<Seq<int>>)
    requires
        dd <= 12,
        holds_poly(*old(poly), start),
        start.len() == dd + 1,
    ensures
        holds_poly(*final(poly), cos_powers(start, dd as int, dd as int)),
        cos_powers(start, dd as int, dd as int).len() == dd + 1,
{
    let mut k: usize = 1;
    while k < dd
        invariant
            1 <= k <= dd || (k == 1 && dd == 0),
            dd <= 12,
            start.len() == dd + 1,
            cos_powers(start, dd as int, k as int).len() == dd + 1,
            holds_poly(*poly, cos_powers(start, dd as int, k as int)),
        decreases dd - k,
    {
        k = k + 1;
        let ghost before = cos_powers(start, dd as int, k - 1);
        let ghost after = cos_powers(start, dd as int, k as int);
        let mut m: usize = dd - 1;
        while m > k - 1
            invariant
                2 <= k <= dd <= 12,
                k - 1 <= m <= dd - 1,
                before.len() == dd + 1,
                forall|j: int|
                    m <= j <= dd ==> #[trigger] poly@[j] == pass_coef(before, dd as int, k as int, j),
                forall|j: int| 0 <= j < m ==> #[trigger] poly@[j] == before[j],
            decreases m,
        {
            m = m - 1;
            poly[m] = wsub(poly[m], poly[m + 2]);
        }
        let low: usize = k - 2;
        poly[low] = wsub(poly[low], wmul(poly[k], 2));
        assert forall|j: int| 0 <= j <= dd implies #[trigger] poly@[j] == after[j] by {
            if j < k - 2 {
                assert(poly@[j] == before[j]);
            } else if j >= k - 1 {
                assert(poly@[j] == pass_coef(before, dd as int, k as int, j));
            }
        }
    }
}

fn eval_poly(poly: &[i32; 13], x: i32, dd: usize, Ghost(p): Ghost<Seq<int>>) -> (y: i32)
    requires
        dd <= 12,
        holds_poly(*poly, p),
        p.len() == dd + 1,
    ensures
        y == poly_value(p, x as int),
{
    let mut y32: i32 = poly[dd];
    let x_q16: i32 = wmul(x, 16);
    let mut n: usize = dd;
    while n > 0
        invariant
            n <= dd <= 12,
            holds_poly(*poly, p),
            p.len() == dd + 1,
            y32 == poly_tail(p, x_q16 as int, n as int),
        decreases n,
    {
        n = n - 1;
        y32 = wadd(poly[n], smulww(y32, x_q16));
    }
    y32
}

fn split_filter(a_q16: &[i32], dd: usize) -> (r: ([i32; 13], [i32; 13]))
    requires
        dd <= 12,
        a_q16@.len() == 2 * dd,
    ensures
        holds_poly(r.0, p_poly(a_q16@, dd as int)),
        holds_poly(r.1, q_poly(a_q16@, dd as int)),
        p_poly(a_q16@, dd as int).len() == dd + 1,
        q_poly(a_q16@, dd as int).len() == dd + 1,
{
    let ghost a = a_q16@;
    let mut p: [i32; 13] = [0;13];
    let mut q: [i32; 13] = [0;13];
    p[dd] = 0x1_0000;
    q[dd] = 0x1_0000;
    for k in 0..dd
        invariant
            dd <= 12,
            a == a_q16@,
            a.len() == 2 * dd,
            p@[dd as int] == 0x1_0000,
            q@[dd as int] == 0x1_0000,
            forall|j: int| 0 <= j < k ==> #[trigger] p@[j] == sum_coef(a, dd as int, j),
            forall|j: int| 0 <= j < k ==> #[trigger] q@[j] == difference_coef(a, dd as int, j),
    {
        let even: i32 = a_q16[dd - k - 1];
        let odd: i32 = a_q16[dd + k];
        p[k] = wsub(0, wadd(even, odd));
        q[k] = wsub(odd, even);
    }
    let mut k: usize = dd;
    while k > 0
        invariant
            k <= dd <= 12,
            forall|j: int| k <= j <= dd ==> #[trigger] p@[j] == p_coef(a, dd as int, j),
            forall|j: int| k <= j <= dd ==> #[trigger] q@[j] == q_coef(a, dd as int, j),
            forall|j: int| 0 <= j < k ==> #[trigger] p@[j] == sum_coef(a, dd as int, j),
            forall|j: int| 0 <= j < k ==> #[trigger] q@[j] == difference_coef(a, dd as int, j),
        decreases k,
    {
        p[k - 1] = wsub(p[k - 1], p[k]);
        q[k - 1] = wadd(q[k - 1], q[k]);
        k = k - 1;
    }
    let ghost p0 = Seq::new((dd + 1) as nat, |n: int| p_coef(a, dd as int, n));
    let ghost q0 = Seq::new((dd + 1) as nat, |n: int| q_coef(a, dd as int, n));
    trans_poly(&mut p, dd, Ghost(p0));
    trans_poly(&mut q, dd, Ghost(q0));
    (p, q)
}

fn find_root(poly: &[i32; 13], dd: usize, k: usize, xlo: i32, ylo: i32, yhi: i32, Ghost(p): Ghost<
    Seq<int>,
>) -> (r: i16)
    requires
        dd <= 12,
        1 <= k <= 128,
        holds_poly(*poly, p),
        p.len() == dd + 1,
    ensures
        r == root_frequency(p, k as int, xlo as int, ylo as int, yhi as int),
        r >= 0,
{
    let mut xl: i32 = xlo;
    let mut yl: i32 = ylo;
    let mut xh: i32 = SILK_LSF_COS_TAB_FIX_Q12[k] as i32;
    let mut yh: i32 = yhi;
    let mut frac: i32 = -256;
    let ghost b0 = Bracket {
        xlo: xlo as int,
        ylo: ylo as int,
        xhi: cos_at(k as int),
        yhi: yhi as int,
        frac: -256,
    };
    let ghost b1 = halved(p, b0, 0);
    let ghost b2 = halved(p, b1, 1);
    let ghost b3 = halved(p, b2, 2);
    for m in 0..3usize
        invariant
            dd <= 12,
            holds_poly(*poly, p),
            p.len() == dd + 1,
            b1 == halved(p, b0, 0),
            b2 == halved(p, b1, 1),
            b3 == halved(p, b2, 2),
            (Bracket {
                xlo: xl as int,
                ylo: yl as int,
                xhi: xh as int,
                yhi: yh as int,
                frac: frac as int,
            }) == if m == 0 {
                b0
            } else if m == 1 {
                b1
            } else if m == 2 {
                b2
            } else {
                b3
            },
    {
        let sum: i32 = wadd(xl, xh);
        proof {
            lemma2_to64();
        }
        let xmid: i32 = ((sum as i64 + 1) >> 1) as i32;
        proof {
            crate::fixed::lemma_shr_i64((sum as i64 + 1) as i64, 1);
        }
        let ymid: i32 = eval_poly(poly, xmid, dd, Ghost(p));
        if (yl <= 0 && ymid >= 0) || (yl >= 0 && ymid <= 0) {
            xh = xmid;
            yh = ymid;
        } else {
            xl = xmid;
            yl = ymid;
            let step: i32 = if m == 0 {
                128
            } else if m == 1 {
                64
            } else {
                32
            };
            frac = wadd(frac, step);
        }
    }
    proof {
        lemma2_to64();
    }
    let diff: i32 = wsub(yl, yh);
    if (-0x1_0000 < yl && yl < 0x1_0000) || yl == -0x8000_0000 {
        if diff != 0 {
            let nom: i32 = wadd(wmul(yl, 32), shr32(diff, 1));
            frac = add_quotient(frac, nom, diff);
        }
    } else {
        let den: i32 = shr32(diff, 5);
        if den != 0 {
            frac = add_quotient(frac, yl, den);
        }
    }
    clamp32(wadd(wmul(k as i32, 256), frac), 0, 0x7fff) as i16
}

fn add_quotient(frac: i32, nom: i32, den: i32) -> (r: i32)
    requires
        den != 0,
    ensures
        r == wrap32(frac + div_trunc(nom as int, den as int)),
{
    narrow32(frac as i64 + divide(nom, den))
}

fn space_evenly(nlsf_q15: &mut [i16])
    requires
        2 <= old(nlsf_q15)@.len() <= 24,
    ensures
        final(nlsf_q15)@ == even_spacing(old(nlsf_q15)@.len()),
        forall|i: int| 0 <= i < old(nlsf_q15)@.len() ==> #[trigger] final(nlsf_q15)@[i] >= 0,
{
    let d: usize = nlsf_q15.len();
    let spacing: i32 = 0x8000 / (d as i32 + 1);
    for i in 0..d
        invariant
            d == nlsf_q15@.len() == old(nlsf_q15)@.len(),
            2 <= d <= 24,
            spacing == 0x8000int / (d as int + 1),
            forall|j: int|
                0 <= j < i ==> #[trigger] nlsf_q15@[j] == ((j + 1) * (0x8000int / (d as int + 1))) as i16
                    && nlsf_q15@[j] >= 0,
    {
        proof {
            let dd = d as int + 1;
            vstd::arithmetic::div_mod::lemma_fundamental_div_mod(0x8000, dd);
            vstd::arithmetic::div_mod::lemma_mod_bound(0x8000, dd);
            assert(0 <= (i + 1) * spacing <= 0x7fff) by (nonlinear_arith)
                requires
                    0x8000 == dd * spacing + 0x8000int % dd,
                    0 <= 0x8000int % dd,
                    0 <= i,
                    i + 1 < dd,
                    spacing >= 0,
                    0x8000int % dd < dd,
                    3 <= dd <= 25,
            ;
        }
        nlsf_q15[i] = ((i as i32 + 1) * spacing) as i16;
    }
    assert(nlsf_q15@ =~= even_spacing(old(nlsf_q15)@.len()));
}

fn expand_for_walk(a_q16: &mut [i32], walk: usize)
    requires
        1 <= walk <= 16,
    ensures
        final(a_q16)@ == expanded_for(old(a_q16)@, walk as int),
{
    proof {
        lemma2_to64();
        lemma_pow2_strictly_increases(walk as nat, 17);
        lemma_u32_shl_is_mul(1, walk as u32);
    }
    let chirp: i32 = 0x1_0000 - (1u32 << walk as u32) as i32;
    bwexpander_32(a_q16, chirp);
    assert(a_q16@ =~= expanded_for(old(a_q16)@, walk as int));
}

/// Finds the line spectral frequencies (Q15) of a prediction filter (Q16).
/// The filter is left expanded as far as was needed.
pub fn a2nlsf(nlsf_q15: &mut [i16], a_q16: &mut [i32])
    requires
        old(nlsf_q15)@.len() == old(a_q16)@.len(),
        old(a_q16)@.len() % 2 == 0,
        old(a_q16)@.len() <= SILK_MAX_ORDER_LPC,
    ensures
        ({
            let end = search_end(walk_start(old(a_q16)@, old(nlsf_q15)@, 0));
            &&& final(nlsf_q15)@ == end.nlsf
            &&& final(a_q16)@ == end.a
            &&& end.root == old(a_q16)@.len()
        }),
        forall|i: int| 0 <= i < old(nlsf_q15)@.len() ==> #[trigger] final(nlsf_q15)@[i] >= 0,
{
    let d: usize = nlsf_q15.len();
    let dd: usize = d / 2;
    let ghost a0 = a_q16@;
    let ghost n0 = nlsf_q15@;
    let (mut p, mut q) = split_filter(a_q16, dd);
    let mut xlo: i32 = SILK_LSF_COS_TAB_FIX_Q12[0] as i32;
    let mut ylo: i32 = eval_poly(&p, xlo, dd, Ghost(p_poly(a_q16@, dd as int)));
    let mut root: usize = 0;
    if d == 0 {
        proof {
            lemma_empty_filter(a0);
        }
        return;
    }
    if ylo < 0 {
        nlsf_q15[0] = 0;
        root = 1;
        ylo = eval_poly(&q, xlo, dd, Ghost(q_poly(a_q16@, dd as int)));
    }
    let mut k: usize = 1;
    let mut walk: usize = 0;
    let mut thr: i32 = 0;
    let ghost end = search_end(walk_start(a0, n0, 0));
    while root < d
        invariant
            d == nlsf_q15@.len() == a_q16@.len(),
            nlsf_q15@.len() == old(nlsf_q15)@.len(),
            old(a_q16)@.len() == d,
            dd == d / 2,
            d % 2 == 0,
            2 <= d <= 24,
            root <= d,
            1 <= k <= 129,
            walk <= 16,
            0 <= thr <= 1,
            holds_poly(p, p_poly(a_q16@, dd as int)),
            holds_poly(q, q_poly(a_q16@, dd as int)),
            p_poly(a_q16@, dd as int).len() == dd + 1,
            q_poly(a_q16@, dd as int).len() == dd + 1,
            end == search_end(
                RootSearch {
                    a: a_q16@,
                    nlsf: nlsf_q15@,
                    root: root as int,
                    k: k as int,
                    walk: walk as int,
                    xlo: xlo as int,
                    ylo: ylo as int,
                    thr: thr as int,
                },
            ),
            forall|i: int| 0 <= i < root ==> #[trigger] nlsf_q15@[i] >= 0,
            end == search_end(walk_start(old(a_q16)@, old(nlsf_q15)@, 0)),
        decreases 18 - walk, 131 - k + d - root,
    {
        let ghost s = RootSearch {
            a: a_q16@,
            nlsf: nlsf_q15@,
            root: root as int,
            k: k as int,
            walk: walk as int,
            xlo: xlo as int,
            ylo: ylo as int,
            thr: thr as int,
        };
        if k > LSF_COS_TAB_SZ_FIX {
            walk = walk + 1;
            if walk > MAX_ITERATIONS_A2NLSF_FIX {
                space_evenly(nlsf_q15);
                proof {
                    let t = search_step(s);
                    assert(search_end(t) == t);
                }
                return;
            }
            expand_for_walk(a_q16, walk);
            let (np, nq) = split_filter(a_q16, dd);
            p = np;
            q = nq;
            xlo = SILK_LSF_COS_TAB_FIX_Q12[0] as i32;
            ylo = eval_poly(&p, xlo, dd, Ghost(p_poly(a_q16@, dd as int)));
            root = 0;
            if ylo < 0 {
                nlsf_q15[0] = 0;
                root = 1;
                ylo = eval_poly(&q, xlo, dd, Ghost(q_poly(a_q16@, dd as int)));
            }
            k = 1;
            thr = 0;
        } else {
            let xhi: i32 = SILK_LSF_COS_TAB_FIX_Q12[k] as i32;
            let even: bool = root % 2 == 0;
            let yhi: i32 = if even {
                eval_poly(&p, xhi, dd, Ghost(p_poly(a_q16@, dd as int)))
            } else {
                eval_poly(&q, xhi, dd, Ghost(q_poly(a_q16@, dd as int)))
            };
            if (ylo <= 0 && yhi >= thr) || (ylo >= 0 && yhi <= -thr) {
                let found: i16 = if even {
                    find_root(&p, dd, k, xlo, ylo, yhi, Ghost(p_poly(a_q16@, dd as int)))
                } else {
                    find_root(&q, dd, k, xlo, ylo, yhi, Ghost(q_poly(a_q16@, dd as int)))
                };
                nlsf_q15[root] = found;
                root = root + 1;
                thr = if yhi == 0 {
                    1
                } else {
                    0
                };
                xlo = SILK_LSF_COS_TAB_FIX_Q12[k - 1] as i32;
                ylo = if (root / 2) % 2 == 0 {
                    4096
                } else {
                    -4096
                };
            } else {
                k = k + 1;
                xlo = xhi;
                ylo = yhi;
                thr = 0;
            }
        }
    }
}

/// A filter without coefficients has no roots to find.
proof fn lemma_empty_filter(a: Seq<i32>)
    requires
        a.len() == 0,
    ensures
        forall|nlsf: Seq<i16>|
            nlsf.len() == 0 ==> (#[trigger] search_end(walk_start(a, nlsf, 0))).nlsf == nlsf
                && search_end(walk_start(a, nlsf, 0)).a == a && search_end(
                walk_start(a, nlsf, 0),
            ).root == 0,
{
    assert(p_poly(a, 0).len() == 1);
    assert(p_poly(a, 0)[0] == 0x1_0000);
    assert(poly_value(p_poly(a, 0), cos_at(0)) == 0x1_0000);
}

} // verus!
