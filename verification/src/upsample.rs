//! Upsampling by repetition.
use vstd::prelude::*;

verus! {

/// `output` with each sample of `input` repeated `count` times at its front, as
/// far as it reaches.
pub open spec fn repeated<T>(input: Seq<T>, output: Seq<T>, count: int) -> Seq<T> {
    Seq::new(
        output.len(),
        |i: int|
            if i < input.len() * count {
                input[i / count]
            } else {
                output[i]
            },
    )
}

/// Repeats each sample of `input` `upsample_count` times, as far as `output`
/// reaches.
pub fn up<T: Copy>(input: &[T], output: &mut [T], upsample_count: usize)
    ensures
        final(output)@ == repeated(input@, old(output)@, upsample_count as int),
{
    let ghost before = output@;
    let ghost count = upsample_count as int;
    let n: usize = input.len();
    let room: usize = output.len();
    let mut index: usize = 0;
    if upsample_count == 0 {
        assert(input@.len() * 0 == 0) by (nonlinear_arith);
        assert(output@ =~= repeated(input@, before, 0));
        return;
    }
    let mut s: usize = 0;
    assert(0 * count == 0) by (nonlinear_arith);
    while s < n
        invariant
            n == input@.len(),
            room == output@.len(),
            room == before.len(),
            before == old(output)@,
            s <= n,
            count == upsample_count,
            upsample_count > 0,
            index == s * count,
            index <= room,
            forall|i: int|
                0 <= i < room ==> #[trigger] output@[i] == if i < index {
                    input@[i / count]
                } else {
                    before[i]
                },
        decreases n - s,
    {
        let mut k: usize = 0;
        while k < upsample_count
            invariant
                n == input@.len(),
                room == output@.len(),
                room == before.len(),
                before == old(output)@,
                s < n,
                count == upsample_count,
                upsample_count > 0,
                k <= upsample_count,
                index == s * count + k,
                index <= room,
                forall|i: int|
                    0 <= i < room ==> #[trigger] output@[i] == if i < index {
                        input@[i / count]
                    } else {
                        before[i]
                    },
            decreases upsample_count - k,
        {
            if index >= room {
                proof {
                    assert(s * count + count <= n * count) by (nonlinear_arith)
                        requires
                            s + 1 <= n,
                            count > 0,
                    ;
                    assert(output@ =~= repeated(input@, before, count));
                }
                return;
            }
            proof {
                vstd::arithmetic::div_mod::lemma_fundamental_div_mod_converse(
                    index as int,
                    count,
                    s as int,
                    k as int,
                );
            }
            output[index] = input[s];
            index = index + 1;
            k = k + 1;
        }
        proof {
            assert((s + 1) * count == s * count + count) by (nonlinear_arith);
        }
        s = s + 1;
    }
    assert(output@ =~= repeated(input@, before, count));
}

/// Every sample that there is room for is repeated.
pub proof fn law_each_sample_is_repeated<T>(input: Seq<T>, output: Seq<T>, count: int, s: int, k: int)
    requires
        0 <= s < input.len(),
        0 <= k < count,
        s * count + k < output.len(),
    ensures
        repeated(input, output, count)[s * count + k] == input[s],
{
    vstd::arithmetic::div_mod::lemma_fundamental_div_mod_converse(s * count + k, count, s, k);
    assert(0 <= s * count && s * count + count <= input.len() * count) by (nonlinear_arith)
        requires
            0 <= s,
            s + 1 <= input.len(),
            count > 0,
    ;
}

} // verus!
