//! Short-term predictors of speech frames.

use crate::fixed::{round_shift, sat16, sat16_of, shr32, shr64, wadd, wrap32};
use crate::silk::nlsf2a::{
    cosines, expand, expanded, filter_of_cosines, filter_q17, find_peak, fit_chirp, holds16,
    lsf_cosines, magnitude as magnitude_of, peak_q12,
};
use crate::silk::nlsf_stabilize::frequencies;
use vstd::arithmetic::power2::lemma2_to64;
use vstd::prelude::*;

verus! {

/// A filter (Q17) brought into range by at most `left` expansions, and how many
/// are left.
pub open spec fn range_limited(a: Seq<int>, left: nat) -> (Seq<int>, nat)
    decreases left,
{
    if left == 0 || peak_q12(a) <= 0x7fff {
        (a, left)
    } else {
        range_limited(expanded(a, fit_chirp(a)), (left - 1) as nat)
    }
}

/// A coefficient (Q17) that is a whole number in Q12 and inside 16 bits.
pub open spec fn rounded_q17(v: int) -> int {
    32 * sat16_of(wrap32(v + 16) / 32)
}

/// A filter (Q17) after its range is limited: where nine expansions were
/// needed, its coefficients are also rounded.
pub open spec fn limited(a: Seq<int>) -> Seq<int> {
    let (b, left) = range_limited(a, 10);
    if left == 1 {
        Seq::new(b.len(), |i: int| rounded_q17(b[i]))
    } else {
        b
    }
}

/// A coefficient (Q12) of one in Q17.
pub open spec fn coefficient_q12(v: int) -> int {
    wrap32(v + 16) / 32
}

/// The filter (Q12) of frequencies (Q15).
pub open spec fn filter_of(nlsf: Seq<i16>) -> Seq<int> {
    let a = limited(filter_q17(lsf_cosines(nlsf)));
    Seq::new(a.len(), |i: int| coefficient_q12(a[i]))
}

/// The filter (Q17) of frequencies (Q15).
pub fn convert_normalized_lsfs_to_lpc_coefficients(nlsf_q15: &[i16]) -> (r: Vec<i32>)
    requires
        nlsf_q15@.len() == 10 || nlsf_q15@.len() == 16,
        frequencies(nlsf_q15@),
    ensures
        r@.len() == nlsf_q15@.len(),
        forall|i: int|
            0 <= i < r@.len() ==> #[trigger] r@[i] == filter_q17(lsf_cosines(nlsf_q15@))[i],
{
    let d: usize = nlsf_q15.len();
    let c: [i32; 16] = cosines(nlsf_q15);
    let ghost cs = lsf_cosines(nlsf_q15@);
    let a: [i32; 16] = filter_of_cosines(&c, d, Ghost(cs));
    let mut out: Vec<i32> = Vec::new();
    for i in 0..d
        invariant
            d <= 16,
            holds16(a, filter_q17(cs)),
            filter_q17(cs).len() == d,
            out@.len() == i,
            forall|j: int| 0 <= j < i ==> #[trigger] out@[j] == filter_q17(cs)[j],
    {
        assert(a[i as int] == filter_q17(cs)[i as int]);
        out.push(a[i]);
    }
    out
}

pub open spec fn ints_of_i32(s: Seq<i32>) -> Seq<int> {
    Seq::new(s.len(), |i: int| s[i] as int)
}

/// Limits the range of a filter (Q17).
pub fn limit_lpc_coefficients_range(a32_q17: &mut Vec<i32>)
    requires
        1 <= old(a32_q17)@.len() <= 16,
    ensures
        final(a32_q17)@.len() == old(a32_q17)@.len(),
        ints_of_i32(final(a32_q17)@) == limited(ints_of_i32(old(a32_q17)@)),
{
    let d: usize = a32_q17.len();
    let ghost start = ints_of_i32(a32_q17@);
    let mut a: [i32; 16] = [0;16];
    for i in 0..d
        invariant
            d == a32_q17@.len(),
            d <= 16,
            start == ints_of_i32(a32_q17@),
            forall|j: int| 0 <= j < i ==> #[trigger] a[j] == start[j],
    {
        a[i] = a32_q17[i];
    }
    let (left, cur) = limit_range(&mut a, d, Ghost(start));
    let mut i: usize = 0;
    let ghost b = cur@;
    while i < d
        invariant
            d <= 16,
            i <= d,
            a32_q17@.len() == d,
            b.len() == d,
            holds16(a, b),
            forall|j: int|
                0 <= j < i ==> #[trigger] a32_q17@[j] == if left == 1 {
                    rounded_q17(b[j])
                } else {
                    b[j]
                },
        decreases d - i,
    {
        assert(a[i as int] == b[i as int]);
        if left == 1 {
            proof {
                lemma2_to64();
            }
            let q12: i16 = sat16(shr32(wadd(a[i], 16), 5));
            a32_q17[i] = q12 as i32 * 32;
        } else {
            a32_q17[i] = a[i];
        }
        i = i + 1;
    }
    assert(ints_of_i32(a32_q17@) =~= limited(start));
}

fn limit_range(a: &mut [i32; 16], d: usize, Ghost(s): Ghost<Seq<int>>) -> (r: (
    usize,
    Ghost<Seq<int>>,
))
    requires
        1 <= d <= 16,
        s.len() == d,
        holds16(*old(a), s),
    ensures
        holds16(*final(a), r.1@),
        (r.1@, r.0 as nat) == range_limited(s, 10),
        r.1@.len() == d,
{
    let mut left: usize = 10;
    let ghost mut cur = s;
    while left > 0
        invariant
            1 <= d <= 16,
            cur.len() == d,
            holds16(*a, cur),
            left <= 10,
            range_limited(s, 10) == range_limited(cur, left as nat),
        decreases left,
    {
        let t: usize = find_peak(a, d, Ghost(cur));
        let m: i64 = magnitude_of(a[t]);
        proof {
            reveal(round_shift);
            lemma2_to64();
        }
        let peak: i64 = shr64(shr64(m, 4) + 1, 1);
        assert((5 - 1) as nat == 4);
        assert(peak == peak_q12(cur));
        if peak <= 0x7fff {
            return (left, Ghost(cur));
        }
        let top: i64 = if peak < 163838 {
            peak
        } else {
            163838
        };
        proof {
            assert(0x8000 <= top * (t + 1) <= 163838 * 16) by (nonlinear_arith)
                requires
                    0x8000 <= top <= 163838,
                    0 <= t <= 15,
            ;
        }
        let den: i64 = (top * (t as i64 + 1)) / 4;
        let num: i64 = (top - 0x7fff) * 0x4000;
        proof {
            crate::fixed::lemma_div_is_ordered_by_denominator_signed(num as int, den as int);
        }
        let chirp: i32 = (65470 - num / den) as i32;
        assert(chirp == fit_chirp(cur));
        expand(a, d, chirp, Ghost(cur));
        proof {
            cur = expanded(cur, chirp as int);
        }
        left = left - 1;
    }
    (0, Ghost(cur))
}

/// The filter (Q12) of one in Q17.
pub fn limit_lpc_filter_prediction_gain(a32_q17: &Vec<i32>) -> (r: Vec<i32>)
    ensures
        r@.len() == a32_q17@.len(),
        forall|i: int|
            0 <= i < r@.len() ==> #[trigger] r@[i] == coefficient_q12(a32_q17@[i] as int),
{
    let n: usize = a32_q17.len();
    let mut out: Vec<i32> = Vec::new();
    for i in 0..n
        invariant
            n == a32_q17@.len(),
            out@.len() == i,
            forall|j: int|
                0 <= j < i ==> #[trigger] out@[j] == coefficient_q12(a32_q17@[j] as int),
    {
        proof {
            lemma2_to64();
        }
        out.push(shr32(wadd(a32_q17[i], 16), 5));
    }
    out
}

/// Appends the filter (Q12) of frequencies (Q15) to a list, if there are
/// frequencies.
pub fn generate_a_q12(q15: Option<&Vec<i16>>, a_q12: &mut Vec<Vec<i32>>)
    requires
        q15 is Some ==> (q15->0@.len() == 10 || q15->0@.len() == 16) && frequencies(q15->0@),
    ensures
        match q15 {
            None => final(a_q12)@ == old(a_q12)@,
            Some(nlsf) => final(a_q12)@.len() == old(a_q12)@.len() + 1 && final(
                a_q12)@.drop_last() == old(a_q12)@ && ints_of_i32(final(a_q12)@.last()@)
                == filter_of(nlsf@),
        },
{
    if let Some(nlsf) = q15 {
        let mut a: Vec<i32> = convert_normalized_lsfs_to_lpc_coefficients(nlsf.as_slice());
        assert(ints_of_i32(a@) =~= filter_q17(lsf_cosines(nlsf@)));
        limit_lpc_coefficients_range(&mut a);
        let ghost b = ints_of_i32(a@);
        let c: Vec<i32> = limit_lpc_filter_prediction_gain(&a);
        proof {
            assert forall|i: int| 0 <= i < c@.len() implies #[trigger] ints_of_i32(c@)[i]
                == filter_of(nlsf@)[i] by {
                assert(b[i] == a@[i]);
            }
            assert(ints_of_i32(c@) =~= filter_of(nlsf@));
        }
        a_q12.push(c);
        assert(a_q12@.drop_last() =~= old(a_q12)@);
    }
}

} // verus!
