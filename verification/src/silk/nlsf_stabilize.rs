//! Keeping line spectral frequencies apart.

use crate::fixed::{clamp32, clamped};
use vstd::prelude::*;

verus! {

/// The distances are positive and leave room for all frequencies.
pub open spec fn spacing_ok(delta: Seq<i16>) -> bool {
    &&& 3 <= delta.len() <= 17
    &&& forall|i: int| 0 <= i < delta.len() ==> 0 < #[trigger] delta[i] <= 1000
}

/// Sum of the distances `from..to`.
pub open spec fn delta_sum(delta: Seq<i16>, from: int, to: int) -> int
    decreases to - from,
{
    if to <= from {
        0
    } else {
        delta_sum(delta, from, to - 1) + delta[to - 1]
    }
}

/// The room that frequency `i` has beyond the distance from the one before it;
/// zero and 32768 stand before the first and behind the last.
pub open spec fn slack(x: Seq<i16>, delta: Seq<i16>, i: int) -> int {
    let before = if i == 0 {
        0
    } else {
        x[i - 1] as int
    };
    let here = if i == x.len() {
        0x8000
    } else {
        x[i] as int
    };
    here - before - delta[i]
}

/// All frequencies keep their distances.
pub open spec fn spaced(x: Seq<i16>, delta: Seq<i16>) -> bool {
    forall|i: int| 0 <= i <= x.len() ==> #[trigger] slack(x, delta, i) >= 0
}

/// Of the first `k` places, the first with the least slack.
pub open spec fn tightest(x: Seq<i16>, delta: Seq<i16>, k: int) -> int
    decreases k,
{
    if k <= 1 {
        0
    } else {
        let t = tightest(x, delta, k - 1);
        if slack(x, delta, k - 1) < slack(x, delta, t) {
            k - 1
        } else {
            t
        }
    }
}

/// Moves the frequencies around place `i` apart.
pub open spec fn moved_apart(x: Seq<i16>, delta: Seq<i16>, i: int) -> Seq<i16> {
    let n = x.len() as int;
    if i == 0 {
        x.update(0, delta[0])
    } else if i == n {
        x.update(n - 1, (0x8000 - delta[n]) as i16)
    } else {
        let half = delta[i] as int / 2;
        let lowest = half + delta_sum(delta, 0, i);
        let highest = 0x8000 - half - delta_sum(delta, i + 1, n + 1);
        let center = clamped((x[i - 1] + x[i] + 1) / 2, lowest, highest);
        x.update(i - 1, (center - half) as i16).update(i, (center - half + delta[i]) as i16)
    }
}

/// `k` attempts.
pub open spec fn after_attempts(x: Seq<i16>, delta: Seq<i16>, k: nat) -> Seq<i16>
    decreases k,
{
    if k == 0 {
        x
    } else {
        let y = after_attempts(x, delta, (k - 1) as nat);
        let t = tightest(y, delta, y.len() as int + 1);
        if slack(y, delta, t) >= 0 {
            y
        } else {
            moved_apart(y, delta, t)
        }
    }
}

/// `v` put into ascending values, behind equal ones.
pub open spec fn inserted(s: Seq<i16>, v: i16) -> Seq<i16>
    decreases s.len(),
{
    if s.len() == 0 || s.last() <= v {
        s.push(v)
    } else {
        inserted(s.drop_last(), v).push(s.last())
    }
}

/// The values in ascending order.
pub open spec fn ascending(s: Seq<i16>) -> Seq<i16>
    decreases s.len(),
{
    if s.len() == 0 {
        s
    } else {
        inserted(ascending(s.drop_last()), s.last())
    }
}

/// Value `k` raised to its distance from the one before, as far as 16 bits go.
pub open spec fn raised_at(x: Seq<i16>, delta: Seq<i16>, k: int) -> int
    decreases k,
{
    let least = if k <= 0 {
        delta[0] as int
    } else {
        let v = raised_at(x, delta, k - 1) + delta[k];
        if v > 0x7fff {
            0x7fff
        } else {
            v
        }
    };
    if x[k] > least {
        x[k] as int
    } else {
        least
    }
}

/// Value `k` lowered to its distance from the one behind.
pub open spec fn lowered_at(x: Seq<int>, delta: Seq<i16>, k: int) -> int
    decreases x.len() - k,
{
    let most = if k >= x.len() - 1 {
        0x8000 - delta[x.len() as int]
    } else {
        lowered_at(x, delta, k + 1) - delta[k + 1]
    };
    if x[k] < most {
        x[k]
    } else {
        most
    }
}

/// The values sorted and forced apart.
pub open spec fn forced_apart(x: Seq<i16>, delta: Seq<i16>) -> Seq<i16> {
    let up = Seq::new(x.len(), |k: int| raised_at(ascending(x), delta, k));
    Seq::new(x.len(), |k: int| lowered_at(up, delta, k) as i16)
}

/// Twenty gentle attempts, and force if those were not enough.
pub open spec fn stabilized(x: Seq<i16>, delta: Seq<i16>) -> Seq<i16> {
    let y = after_attempts(x, delta, 20);
    if exists|k: nat|
        k < 20 && ({
            let z = #[trigger] after_attempts(x, delta, k);
            slack(z, delta, tightest(z, delta, z.len() as int + 1)) >= 0
        }) {
        y
    } else {
        forced_apart(y, delta)
    }
}

proof fn lemma_delta_sum(delta: Seq<i16>, from: int, to: int)
    requires
        spacing_ok(delta),
        0 <= from <= to <= delta.len(),
    ensures
        0 <= delta_sum(delta, from, to) <= 1000 * (to - from),
    decreases to - from,
{
    if from < to {
        lemma_delta_sum(delta, from, to - 1);
    }
}

proof fn lemma_delta_split(delta: Seq<i16>, a: int, b: int, c: int)
    requires
        0 <= a <= b <= c <= delta.len(),
    ensures
        delta_sum(delta, a, c) == delta_sum(delta, a, b) + delta_sum(delta, b, c),
    decreases c - b,
{
    if b < c {
        lemma_delta_split(delta, a, b, c - 1);
    }
}

proof fn lemma_tightest(x: Seq<i16>, delta: Seq<i16>, k: int)
    requires
        1 <= k <= x.len() + 1,
    ensures
        0 <= tightest(x, delta, k) < k,
        forall|i: int|
            0 <= i < k ==> slack(x, delta, tightest(x, delta, k)) <= #[trigger] slack(x, delta, i),
    decreases k,
{
    if k > 1 {
        lemma_tightest(x, delta, k - 1);
    }
}

/// Values between 0 and 32767.
pub open spec fn frequencies(x: Seq<i16>) -> bool {
    forall|i: int| 0 <= i < x.len() ==> 0 <= #[trigger] x[i]
}

/// Sum of the first distances.
fn sum_deltas(delta: &[i16], from: usize, to: usize) -> (r: i32)
    requires
        spacing_ok(delta@),
        from <= to <= delta@.len(),
    ensures
        r == delta_sum(delta@, from as int, to as int),
        0 <= r <= 17000,
{
    let mut sum: i32 = 0;
    for k in from..to
        invariant
            spacing_ok(delta@),
            from <= to <= delta@.len(),
            sum == delta_sum(delta@, from as int, k as int),
            0 <= sum <= 1000 * (k - from),
    {
        sum = sum + delta[k] as i32;
    }
    sum
}

fn slack_of(x: &[i16], delta: &[i16], i: usize) -> (r: i32)
    requires
        delta@.len() == x@.len() + 1,
        i <= x@.len(),
    ensures
        r == slack(x@, delta@, i as int),
{
    let before: i32 = if i == 0 {
        0
    } else {
        x[i - 1] as i32
    };
    let here: i32 = if i == x.len() {
        0x8000
    } else {
        x[i] as i32
    };
    here - before - delta[i] as i32
}

/// One attempt; true if there was nothing to do.
fn attempt(x: &mut [i16], delta: &[i16]) -> (done: bool)
    requires
        spacing_ok(delta@),
        delta@.len() == old(x)@.len() + 1,
    ensures
        ({
            let t = tightest(old(x)@, delta@, old(x)@.len() as int + 1);
            &&& done == (slack(old(x)@, delta@, t) >= 0)
            &&& final(x)@ == if done {
                old(x)@
            } else {
                moved_apart(old(x)@, delta@, t)
            }
        }),
        final(x)@.len() == old(x)@.len(),
{
    let n: usize = x.len();
    let mut t: usize = 0;
    let mut least: i32 = slack_of(x, delta, 0);
    for k in 1..n + 1
        invariant
            n == x@.len(),
            x@ == old(x)@,
            delta@.len() == n + 1,
            t < k <= n + 1,
            t == tightest(x@, delta@, k as int),
            least == slack(x@, delta@, t as int),
    {
        let s: i32 = slack_of(x, delta, k);
        if s < least {
            t = k;
            least = s;
        }
    }
    if least >= 0 {
        return true;
    }
    if t == 0 {
        x[0] = delta[0];
    } else if t == n {
        x[n - 1] = (0x8000 - delta[n] as i32) as i16;
    } else {
        let half: i32 = delta[t] as i32 / 2;
        let lowest: i32 = half + sum_deltas(delta, 0, t);
        let highest: i32 = 0x8000 - half - sum_deltas(delta, t + 1, n + 1);
        proof {
            lemma_delta_sum(delta@, 0, t as int);
            lemma_delta_sum(delta@, t + 1, n + 1);
        }
        let middle: i32 = (((x[t - 1] as i32 + x[t] as i32) as i64 + 1) >> 1) as i32;
        proof {
            crate::fixed::lemma_shr_i64(((x@[t - 1] as i32 + x@[t as int] as i32) as i64 + 1) as i64, 1);
            vstd::arithmetic::power2::lemma2_to64();
            assert(middle == (x@[t - 1] + x@[t as int] + 1) / 2);
        }
        let center: i32 = clamp32(middle, lowest, highest);
        x[t - 1] = (center - half) as i16;
        x[t] = (center - half + delta[t] as i32) as i16;
        assert(x@ =~= moved_apart(old(x)@, delta@, t as int));
    }
    false
}

proof fn lemma_inserted_len(s: Seq<i16>, v: i16)
    ensures
        inserted(s, v).len() == s.len() + 1,
    decreases s.len(),
{
    if s.len() > 0 && s.last() > v {
        lemma_inserted_len(s.drop_last(), v);
    }
}

proof fn lemma_ascending_len(s: Seq<i16>)
    ensures
        ascending(s).len() == s.len(),
    decreases s.len(),
{
    if s.len() > 0 {
        lemma_ascending_len(s.drop_last());
        lemma_inserted_len(ascending(s.drop_last()), s.last());
    }
}

/// Sorts in place.
fn sort(x: &mut [i16])
    ensures
        final(x)@ == ascending(old(x)@),
        final(x)@.len() == old(x)@.len(),
{
    let n: usize = x.len();
    assert(x@.take(0) =~= ascending(old(x)@.take(0)));
    for i in 0..n
        invariant
            n == x@.len() == old(x)@.len(),
            x@.take(i as int) == ascending(old(x)@.take(i as int)),
            forall|j: int| i <= j < n ==> #[trigger] x@[j] == old(x)@[j],
    {
        let current: i16 = x[i];
        let ghost head = x@.take(i as int);
        let ghost whole = inserted(head, current);
        let mut j: usize = i;
        proof {
            lemma_inserted_len(head, current);
            assert(whole.subrange(i + 1, i + 1) =~= seq![]);
            assert(head.take(i as int) =~= head);
            assert(whole =~= inserted(head.take(j as int), current) + x@.subrange(j + 1, i + 1));
        }
        while j > 0 && x[j - 1] > current
            invariant
                j <= i < n == x@.len(),
                head.len() == i,
                x@.take(j as int) == head.take(j as int),
                whole == inserted(head.take(j as int), current) + x@.subrange(j + 1, i + 1),
                forall|q: int| i + 1 <= q < n ==> #[trigger] x@[q] == old(x)@[q],
                n == old(x)@.len(),
            decreases j,
        {
            let ghost y = x@;
            let ghost part = head.take(j as int);
            x[j] = x[j - 1];
            proof {
                assert(part.last() == y[j - 1]) by {
                    assert(y.take(j as int)[j - 1] == part[j - 1]);
                }
                assert(part.drop_last() =~= head.take(j - 1));
                assert(x@.subrange(j as int, i + 1) =~= seq![part.last()] + y.subrange(j + 1, i + 1));
                assert(inserted(part, current) == inserted(part.drop_last(), current).push(part.last()));
                assert(inserted(part, current) + y.subrange(j + 1, i + 1) =~= inserted(
                    head.take(j - 1),
                    current,
                ) + x@.subrange(j as int, i + 1));
                assert(x@.take(j - 1) =~= head.take(j - 1)) by {
                    assert forall|q: int| 0 <= q < j - 1 implies x@[q] == head[q] by {
                        assert(y.take(j as int)[q] == head.take(j as int)[q]);
                    }
                }
            }
            j = j - 1;
        }
        let ghost y = x@;
        x[j] = current;
        proof {
            let part = head.take(j as int);
            assert(inserted(part, current) == part.push(current)) by {
                if j > 0 {
                    assert(y.take(j as int)[j - 1] == part[j - 1]);
                }
            }
            assert(x@.take(i + 1) =~= whole) by {
                assert forall|q: int| 0 <= q < i + 1 implies x@[q] == whole[q] by {
                    if q < j {
                        assert(y.take(j as int)[q] == part[q]);
                    } else if q > j {
                        assert(y.subrange(j + 1, i + 1)[q - j - 1] == y[q]);
                    }
                }
            }
            assert(old(x)@.take(i + 1).drop_last() =~= old(x)@.take(i as int));
            assert(old(x)@.take(i + 1).last() == current);
        }
    }
    assert(x@.take(n as int) =~= x@);
    assert(old(x)@.take(n as int) =~= old(x)@);
}

proof fn lemma_raised(x: Seq<i16>, delta: Seq<i16>, k: int)
    requires
        spacing_ok(delta),
        delta.len() == x.len() + 1,
        0 <= k < x.len(),
    ensures
        delta_sum(delta, 0, k + 1) <= raised_at(x, delta, k) <= 0x7fff,
    decreases k,
{
    lemma_delta_sum(delta, 0, k + 1);
    if k > 0 {
        lemma_raised(x, delta, k - 1);
    } else {
        reveal_with_fuel(delta_sum, 2);
    }
}

proof fn lemma_lowered(x: Seq<int>, delta: Seq<i16>, k: int)
    requires
        spacing_ok(delta),
        delta.len() == x.len() + 1,
        0 <= k < x.len(),
        forall|i: int|
            0 <= i < x.len() ==> delta_sum(delta, 0, i + 1) <= #[trigger] x[i] <= 0x7fff,
    ensures
        delta_sum(delta, 0, k + 1) <= lowered_at(x, delta, k) <= 0x8000 - delta_sum(
            delta,
            k + 1,
            delta.len() as int,
        ),
        0 <= lowered_at(x, delta, k) <= 0x7fff,
    decreases x.len() - k,
{
    let n = x.len() as int;
    lemma_delta_sum(delta, 0, k + 1);
    lemma_delta_sum(delta, k + 1, n + 1);
    lemma_delta_split(delta, 0, k + 1, n + 1);
    lemma_delta_sum(delta, 0, n + 1);
    if k < n - 1 {
        lemma_lowered(x, delta, k + 1);
        lemma_delta_split(delta, k + 1, k + 2, n + 1);
        reveal_with_fuel(delta_sum, 2);
    } else {
        reveal_with_fuel(delta_sum, 2);
    }
}

/// Forcing keeps every distance.
proof fn lemma_forced_is_spaced(x: Seq<i16>, delta: Seq<i16>)
    requires
        spacing_ok(delta),
        delta.len() == x.len() + 1,
    ensures
        spaced(forced_apart(x, delta), delta),
        frequencies(forced_apart(x, delta)),
{
    lemma_ascending_len(x);
    let a = ascending(x);
    let up = Seq::new(x.len(), |k: int| raised_at(a, delta, k));
    let out = forced_apart(x, delta);
    let n = x.len() as int;
    assert forall|i: int| 0 <= i < up.len() implies delta_sum(delta, 0, i + 1) <= #[trigger] up[i]
        <= 0x7fff by {
        lemma_raised(a, delta, i);
    }
    assert forall|i: int| 0 <= i < n implies 0 <= #[trigger] out[i] && out[i] == lowered_at(
        up,
        delta,
        i,
    ) by {
        lemma_lowered(up, delta, i);
    }
    assert forall|i: int| 0 <= i <= n implies #[trigger] slack(out, delta, i) >= 0 by {
        if i == 0 {
            lemma_lowered(up, delta, 0);
            reveal_with_fuel(delta_sum, 2);
            assert(out[0] == lowered_at(up, delta, 0));
        } else if i < n {
            assert(out[i] == lowered_at(up, delta, i));
            assert(out[i - 1] == lowered_at(up, delta, i - 1));
        } else {
            assert(out[n - 1] == lowered_at(up, delta, n - 1));
        }
    }
}

/// Sorts and forces the frequencies apart.
fn force(x: &mut [i16], delta: &[i16])
    requires
        spacing_ok(delta@),
        delta@.len() == old(x)@.len() + 1,
    ensures
        final(x)@ == forced_apart(old(x)@, delta@),
        final(x)@.len() == old(x)@.len(),
{
    let n: usize = x.len();
    sort(x);
    let ghost a = ascending(old(x)@);
    let ghost d = delta@;
    let ghost up = Seq::new(n as nat, |k: int| raised_at(a, d, k));
    for k in 0..n
        invariant
            n == x@.len() == a.len(),
            d == delta@,
            spacing_ok(d),
            d.len() == n + 1,
            forall|j: int| 0 <= j < k ==> #[trigger] x@[j] == raised_at(a, d, j),
            forall|j: int| k <= j < n ==> #[trigger] x@[j] == a[j],
    {
        let mut least: i32 = if k == 0 {
            delta[0] as i32
        } else {
            x[k - 1] as i32 + delta[k] as i32
        };
        if least > 0x7fff {
            least = 0x7fff;
        }
        if (x[k] as i32) < least {
            x[k] = least as i16;
        }
    }
    proof {
        assert forall|i: int| 0 <= i < up.len() implies delta_sum(d, 0, i + 1) <= #[trigger] up[i]
            <= 0x7fff by {
            lemma_raised(a, d, i);
        }
    }
    let mut k: usize = n;
    while k > 0
        invariant
            k <= n == x@.len(),
            d == delta@,
            spacing_ok(d),
            d.len() == n + 1,
            up.len() == n,
            forall|i: int|
                0 <= i < up.len() ==> delta_sum(d, 0, i + 1) <= #[trigger] up[i] <= 0x7fff,
            forall|j: int| 0 <= j < k ==> #[trigger] x@[j] == up[j],
            forall|j: int| k <= j < n ==> #[trigger] x@[j] == lowered_at(up, d, j),
        decreases k,
    {
        k = k - 1;
        proof {
            lemma_lowered(up, d, k as int);
        }
        let most: i32 = if k == n - 1 {
            0x8000 - delta[n] as i32
        } else {
            x[k + 1] as i32 - delta[k + 1] as i32
        };
        if x[k] as i32 > most {
            x[k] = most as i16;
        }
    }
    assert(x@ =~= forced_apart(old(x)@, d));
}

/// Moves the frequencies apart so that all keep their distances.
pub fn nlsf_stabilize(x: &mut [i16], delta: &[i16])
    requires
        spacing_ok(delta@),
        delta@.len() == old(x)@.len() + 1,
    ensures
        final(x)@ == stabilized(old(x)@, delta@),
        final(x)@.len() == old(x)@.len(),
        spaced(final(x)@, delta@),
{
    let ghost x0 = x@;
    let ghost d = delta@;
    for i in 0..20usize
        invariant
            spacing_ok(d),
            d == delta@,
            x0 == old(x)@,
            d.len() == x@.len() + 1,
            x@.len() == x0.len(),
            x@ == after_attempts(x0, d, i as nat),
            forall|k: nat|
                k < i ==> ({
                    let z = #[trigger] after_attempts(x0, d, k);
                    slack(z, d, tightest(z, d, z.len() as int + 1)) < 0
                }),
    {
        let ghost y = x@;
        let done: bool = attempt(x, delta);
        if done {
            proof {
                lemma_tightest(y, d, y.len() as int + 1);
                lemma_attempts_stay(x0, d, i as nat, 20);
                assert(spaced(y, d)) by {
                    assert forall|q: int| 0 <= q <= y.len() implies #[trigger] slack(y, d, q)
                        >= 0 by {}
                }
            }
            return;
        }
    }
    proof {
        lemma_forced_is_spaced(x@, d);
    }
    force(x, delta);
}

/// Once all distances are kept, further attempts change nothing.
proof fn lemma_attempts_stay(x: Seq<i16>, delta: Seq<i16>, k: nat, m: nat)
    requires
        k <= m,
        ({
            let z = after_attempts(x, delta, k);
            slack(z, delta, tightest(z, delta, z.len() as int + 1)) >= 0
        }),
    ensures
        after_attempts(x, delta, m) == after_attempts(x, delta, k),
    decreases m,
{
    if k < m {
        lemma_attempts_stay(x, delta, k, (m - 1) as nat);
    }
}

/// Frequencies that keep their distances are left alone.
pub proof fn law_spaced_is_stable(x: Seq<i16>, delta: Seq<i16>)
    requires
        delta.len() == x.len() + 1,
        spaced(x, delta),
    ensures
        stabilized(x, delta) == x,
{
    lemma_tightest(x, delta, x.len() as int + 1);
    assert(after_attempts(x, delta, 0) == x);
    lemma_attempts_stay(x, delta, 0, 20);
}

} // verus!
