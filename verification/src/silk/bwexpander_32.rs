//! Bandwidth expansion of 32-bit prediction filters.

use crate::fixed::{mul_ww, smulww, wrap32, wsub};
use crate::silk::bwexpander::{chirp_power, law_unity_chirp, next_chirp};
use vstd::prelude::*;

verus! {

/// Scales coefficient `k` by the `k + 1`st power of `chirp_q16 / 2^16`.
pub fn bwexpander_32(ar: &mut [i32], chirp_q16: i32)
    ensures
        final(ar)@.len() == old(ar)@.len(),
        forall|k: int|
            0 <= k < old(ar)@.len() ==> #[trigger] final(ar)@[k] == mul_ww(
                chirp_power(chirp_q16 as int, k as nat),
                old(ar)@[k] as int,
            ),
{
    let n: usize = ar.len();
    let minus_one: i32 = wsub(chirp_q16, 0x1_0000);
    let mut factor: i32 = chirp_q16;
    for k in 0..n
        invariant
            n == old(ar)@.len(),
            ar@.len() == n,
            minus_one == wrap32(chirp_q16 - 0x1_0000),
            factor == chirp_power(chirp_q16 as int, k as nat),
            forall|j: int|
                0 <= j < k ==> #[trigger] ar@[j] == mul_ww(
                    chirp_power(chirp_q16 as int, j as nat),
                    old(ar)@[j] as int,
                ),
            forall|j: int| k <= j < n ==> #[trigger] ar@[j] == old(ar)@[j],
    {
        let v: i32 = ar[k];
        ar[k] = smulww(factor, v);
        factor = next_chirp(factor, minus_one);
    }
}

/// A factor of one changes no coefficient.
pub proof fn law_unity_chirp_32(k: nat, v: int)
    requires
        -0x8000_0000 <= v <= 0x7fff_ffff,
    ensures
        mul_ww(chirp_power(0x1_0000, k), v) == v,
{
    reveal(mul_ww);
    reveal(wrap32);
    law_unity_chirp(k, 0);
}

} // verus!
