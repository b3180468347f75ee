//! Probability contexts of the range coder.

use vstd::prelude::*;

verus! {

/// A static probability model: entry `k` of `dist_table` is the number of
/// counts, out of `total`, of the symbols up to and with `k`.
#[derive(Clone, Copy, Debug)]
pub struct ICDFContext<'a> {
    pub total: u32,
    pub dist_table: &'a [u16],
}

/// The context gives every count below `total` to a symbol.
pub open spec fn context_ok(total: int, dist: Seq<u16>) -> bool {
    &&& 0 < total <= 0x1_0000
    &&& dist.len() > 0
    &&& dist.last() == total
    &&& forall|i: int| 0 <= i < dist.len() ==> #[trigger] dist[i] <= total
}

} // verus!
