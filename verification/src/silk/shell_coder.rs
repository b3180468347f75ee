//! Splitting the pulses of a block among its samples.
//!
//! The pulses of a block are split between its halves, those of a half between
//! its quarters, and so on down to single samples.

use crate::range::{
    dec_icdf_next, dec_icdf_symbol, dec_inside, icdf_ok, ints_of_u8, DecState, RangeDecoder,
};
use crate::silk::tables_pulses_per_block::{
    SILK_SHELL_CODE_TABLE0, SILK_SHELL_CODE_TABLE1, SILK_SHELL_CODE_TABLE2, SILK_SHELL_CODE_TABLE3,
    SILK_SHELL_CODE_TABLE_OFFSETS,
};
use vstd::arithmetic::power2::*;
use vstd::prelude::*;

verus! {

/// An 8-bit table that ends with zero is a model of 256 counts.
pub proof fn lemma_u8_table(icdf: Seq<u8>)
    requires
        icdf.len() > 0,
        icdf.last() == 0,
    ensures
        icdf_ok(ints_of_u8(icdf), 8),
{
    lemma2_to64();
    assert(ints_of_u8(icdf).last() == icdf.last());
}

/// The tables of a level: groups of `2^level` samples are split in two.
pub open spec fn shell_table(level: int) -> Seq<u8> {
    if level == 1 {
        SILK_SHELL_CODE_TABLE0@
    } else if level == 2 {
        SILK_SHELL_CODE_TABLE1@
    } else if level == 3 {
        SILK_SHELL_CODE_TABLE2@
    } else {
        SILK_SHELL_CODE_TABLE3@
    }
}

/// The model by which `p` pulses are split.
pub open spec fn split_table(level: int, p: int) -> Seq<u8> {
    let start = SILK_SHELL_CODE_TABLE_OFFSETS[p] as int;
    shell_table(level).subrange(start, start + p + 1)
}

/// Pulses of the first half.
pub open spec fn split_left(s: DecState, level: int, p: int) -> int {
    if p > 0 {
        dec_icdf_symbol(s, ints_of_u8(split_table(level, p)), 8)
    } else {
        0
    }
}

pub open spec fn split_next(s: DecState, level: int, p: int) -> DecState {
    if p > 0 {
        dec_icdf_next(s, ints_of_u8(split_table(level, p)), 8)
    } else {
        s
    }
}

/// The decoder once `p` pulses are split among `2^level` samples.
pub open spec fn shell_next(s: DecState, level: nat, p: int) -> DecState
    decreases level,
{
    if level == 0 {
        s
    } else {
        let left = split_left(s, level as int, p);
        let s1 = split_next(s, level as int, p);
        shell_next(
            shell_next(s1, (level - 1) as nat, left),
            (level - 1) as nat,
            p - left,
        )
    }
}

/// The pulses of the samples.
pub open spec fn shell_pulses(s: DecState, level: nat, p: int) -> Seq<int>
    decreases level,
{
    if level == 0 {
        seq![p]
    } else {
        let left = split_left(s, level as int, p);
        let s1 = split_next(s, level as int, p);
        shell_pulses(s1, (level - 1) as nat, left) + shell_pulses(
            shell_next(s1, (level - 1) as nat, left),
            (level - 1) as nat,
            p - left,
        )
    }
}

/// Samples of a level.
pub open spec fn shell_width(level: nat) -> int {
    if level == 0 {
        1
    } else if level == 1 {
        2
    } else if level == 2 {
        4
    } else if level == 3 {
        8
    } else {
        16
    }
}

proof fn lemma_table0_ends(p: int)
    requires
        1 <= p <= 16,
    ensures
        SILK_SHELL_CODE_TABLE0[SILK_SHELL_CODE_TABLE_OFFSETS[p] + p] == 0,
{
    assert(SILK_SHELL_CODE_TABLE0[1] == 0);
    assert(SILK_SHELL_CODE_TABLE0[4] == 0);
    assert(SILK_SHELL_CODE_TABLE0[8] == 0);
    assert(SILK_SHELL_CODE_TABLE0[13] == 0);
    assert(SILK_SHELL_CODE_TABLE0[19] == 0);
    assert(SILK_SHELL_CODE_TABLE0[26] == 0);
    assert(SILK_SHELL_CODE_TABLE0[34] == 0);
    assert(SILK_SHELL_CODE_TABLE0[43] == 0);
    assert(SILK_SHELL_CODE_TABLE0[53] == 0);
    assert(SILK_SHELL_CODE_TABLE0[64] == 0);
    assert(SILK_SHELL_CODE_TABLE0[76] == 0);
    assert(SILK_SHELL_CODE_TABLE0[89] == 0);
    assert(SILK_SHELL_CODE_TABLE0[103] == 0);
    assert(SILK_SHELL_CODE_TABLE0[118] == 0);
    assert(SILK_SHELL_CODE_TABLE0[134] == 0);
    assert(SILK_SHELL_CODE_TABLE0[151] == 0);
    lemma_offsets(p);
}

proof fn lemma_table1_ends(p: int)
    requires
        1 <= p <= 16,
    ensures
        SILK_SHELL_CODE_TABLE1[SILK_SHELL_CODE_TABLE_OFFSETS[p] + p] == 0,
{
    assert(SILK_SHELL_CODE_TABLE1[1] == 0);
    assert(SILK_SHELL_CODE_TABLE1[4] == 0);
    assert(SILK_SHELL_CODE_TABLE1[8] == 0);
    assert(SILK_SHELL_CODE_TABLE1[13] == 0);
    assert(SILK_SHELL_CODE_TABLE1[19] == 0);
    assert(SILK_SHELL_CODE_TABLE1[26] == 0);
    assert(SILK_SHELL_CODE_TABLE1[34] == 0);
    assert(SILK_SHELL_CODE_TABLE1[43] == 0);
    assert(SILK_SHELL_CODE_TABLE1[53] == 0);
    assert(SILK_SHELL_CODE_TABLE1[64] == 0);
    assert(SILK_SHELL_CODE_TABLE1[76] == 0);
    assert(SILK_SHELL_CODE_TABLE1[89] == 0);
    assert(SILK_SHELL_CODE_TABLE1[103] == 0);
    assert(SILK_SHELL_CODE_TABLE1[118] == 0);
    assert(SILK_SHELL_CODE_TABLE1[134] == 0);
    assert(SILK_SHELL_CODE_TABLE1[151] == 0);
    lemma_offsets(p);
}

proof fn lemma_table2_ends(p: int)
    requires
        1 <= p <= 16,
    ensures
        SILK_SHELL_CODE_TABLE2[SILK_SHELL_CODE_TABLE_OFFSETS[p] + p] == 0,
{
    assert(SILK_SHELL_CODE_TABLE2[1] == 0);
    assert(SILK_SHELL_CODE_TABLE2[4] == 0);
    assert(SILK_SHELL_CODE_TABLE2[8] == 0);
    assert(SILK_SHELL_CODE_TABLE2[13] == 0);
    assert(SILK_SHELL_CODE_TABLE2[19] == 0);
    assert(SILK_SHELL_CODE_TABLE2[26] == 0);
    assert(SILK_SHELL_CODE_TABLE2[34] == 0);
    assert(SILK_SHELL_CODE_TABLE2[43] == 0);
    assert(SILK_SHELL_CODE_TABLE2[53] == 0);
    assert(SILK_SHELL_CODE_TABLE2[64] == 0);
    assert(SILK_SHELL_CODE_TABLE2[76] == 0);
    assert(SILK_SHELL_CODE_TABLE2[89] == 0);
    assert(SILK_SHELL_CODE_TABLE2[103] == 0);
    assert(SILK_SHELL_CODE_TABLE2[118] == 0);
    assert(SILK_SHELL_CODE_TABLE2[134] == 0);
    assert(SILK_SHELL_CODE_TABLE2[151] == 0);
    lemma_offsets(p);
}

proof fn lemma_table3_ends(p: int)
    requires
        1 <= p <= 16,
    ensures
        SILK_SHELL_CODE_TABLE3[SILK_SHELL_CODE_TABLE_OFFSETS[p] + p] == 0,
{
    assert(SILK_SHELL_CODE_TABLE3[1] == 0);
    assert(SILK_SHELL_CODE_TABLE3[4] == 0);
    assert(SILK_SHELL_CODE_TABLE3[8] == 0);
    assert(SILK_SHELL_CODE_TABLE3[13] == 0);
    assert(SILK_SHELL_CODE_TABLE3[19] == 0);
    assert(SILK_SHELL_CODE_TABLE3[26] == 0);
    assert(SILK_SHELL_CODE_TABLE3[34] == 0);
    assert(SILK_SHELL_CODE_TABLE3[43] == 0);
    assert(SILK_SHELL_CODE_TABLE3[53] == 0);
    assert(SILK_SHELL_CODE_TABLE3[64] == 0);
    assert(SILK_SHELL_CODE_TABLE3[76] == 0);
    assert(SILK_SHELL_CODE_TABLE3[89] == 0);
    assert(SILK_SHELL_CODE_TABLE3[103] == 0);
    assert(SILK_SHELL_CODE_TABLE3[118] == 0);
    assert(SILK_SHELL_CODE_TABLE3[134] == 0);
    assert(SILK_SHELL_CODE_TABLE3[151] == 0);
    lemma_offsets(p);
}

pub proof fn lemma_offsets(p: int)
    requires
        1 <= p <= 16,
    ensures
        ({
            let o = SILK_SHELL_CODE_TABLE_OFFSETS[p];
            &&& p == 1 ==> o == 0
            &&& p == 2 ==> o == 2
            &&& p == 3 ==> o == 5
            &&& p == 4 ==> o == 9
            &&& p == 5 ==> o == 14
            &&& p == 6 ==> o == 20
            &&& p == 7 ==> o == 27
            &&& p == 8 ==> o == 35
            &&& p == 9 ==> o == 44
            &&& p == 10 ==> o == 54
            &&& p == 11 ==> o == 65
            &&& p == 12 ==> o == 77
            &&& p == 13 ==> o == 90
            &&& p == 14 ==> o == 104
            &&& p == 15 ==> o == 119
            &&& p == 16 ==> o == 135
        }),
{
}

/// Every split has a model.
pub proof fn lemma_split_table(level: int, p: int)
    requires
        1 <= level <= 4,
        1 <= p <= 16,
    ensures
        split_table(level, p).len() == p + 1,
        SILK_SHELL_CODE_TABLE_OFFSETS[p] + p + 1 <= 152,
        icdf_ok(ints_of_u8(split_table(level, p)), 8),
{
    lemma_offsets(p);
    lemma_table0_ends(p);
    lemma_table1_ends(p);
    lemma_table2_ends(p);
    lemma_table3_ends(p);
    lemma_u8_table(split_table(level, p));
}

/// Reads how `p` pulses split.
fn read_split(decoder: &mut RangeDecoder, level: usize, p: i32) -> (left: i32)
    requires
        old(decoder).wf(),
        dec_inside(old(decoder)@),
        1 <= level <= 4,
        0 <= p <= 16,
    ensures
        final(decoder).wf(),
        dec_inside(final(decoder)@),
        left == split_left(old(decoder)@, level as int, p as int),
        final(decoder)@ == split_next(old(decoder)@, level as int, p as int),
        0 <= left <= p,
{
    if p == 0 {
        return 0;
    }
    proof {
        lemma_split_table(level as int, p as int);
    }
    let from: usize = SILK_SHELL_CODE_TABLE_OFFSETS[p as usize] as usize;
    let to: usize = from + p as usize + 1;
    let k: usize = if level == 1 {
        decoder.decode_icdf(&SILK_SHELL_CODE_TABLE0[from..to], 8)
    } else if level == 2 {
        decoder.decode_icdf(&SILK_SHELL_CODE_TABLE1[from..to], 8)
    } else if level == 3 {
        decoder.decode_icdf(&SILK_SHELL_CODE_TABLE2[from..to], 8)
    } else {
        decoder.decode_icdf(&SILK_SHELL_CODE_TABLE3[from..to], 8)
    };
    k as i32
}

/// Splits `p` pulses among `2^level` samples from `start` on.
fn split(decoder: &mut RangeDecoder, pulses: &mut [i16], start: usize, level: usize, p: i32)
    requires
        old(decoder).wf(),
        dec_inside(old(decoder)@),
        level <= 4,
        0 <= p <= 16,
        start + shell_width(level as nat) <= old(pulses)@.len(),
    ensures
        final(decoder).wf(),
        dec_inside(final(decoder)@),
        final(decoder)@ == shell_next(old(decoder)@, level as nat, p as int),
        final(pulses)@.len() == old(pulses)@.len(),
        shell_pulses(old(decoder)@, level as nat, p as int).len() == shell_width(level as nat),
        forall|i: int|
            0 <= i < shell_width(level as nat) ==> 0 <= #[trigger] shell_pulses(
                old(decoder)@,
                level as nat,
                p as int,
            )[i] <= p,
        forall|i: int|
            0 <= i < old(pulses)@.len() ==> #[trigger] final(pulses)@[i] == if start <= i < start
                + shell_width(level as nat) {
                shell_pulses(old(decoder)@, level as nat, p as int)[i - start]
            } else {
                old(pulses)@[i] as int
            },
    decreases level,
{
    let n: usize = pulses.len();
    if level == 0 {
        pulses[start] = p as i16;
        return;
    }
    let ghost s = decoder@;
    let ghost p0 = pulses@;
    let left: i32 = read_split(decoder, level, p);
    let half: usize = if level == 1 {
        1
    } else if level == 2 {
        2
    } else if level == 3 {
        4
    } else {
        8
    };
    let ghost lower = (level - 1) as nat;
    let ghost s1 = decoder@;
    let ghost s2 = shell_next(s1, lower, left as int);
    let ghost a = shell_pulses(s1, lower, left as int);
    let ghost b = shell_pulses(s2, lower, p - left);
    split(decoder, pulses, start, level - 1, left);
    let ghost p1 = pulses@;
    split(decoder, pulses, start + half, level - 1, p - left);
    proof {
        let all = shell_pulses(s, level as nat, p as int);
        assert(all == a + b);
        assert forall|i: int| 0 <= i < p0.len() implies #[trigger] pulses@[i] == if start <= i < start
            + shell_width(level as nat) {
            all[i - start]
        } else {
            p0[i] as int
        } by {
            if start + half <= i < start + 2 * half {
                assert(all[i - start] == b[i - start - half]);
            } else {
                assert(pulses@[i] == p1[i]);
                if start <= i < start + half {
                    assert(all[i - start] == a[i - start]);
                }
            }
        }
        assert forall|i: int| 0 <= i < shell_width(level as nat) implies 0 <= #[trigger] all[i] <= p by {
            if i < half {
                assert(all[i] == a[i]);
            } else {
                assert(all[i] == b[i - half]);
            }
        }
    }
}

/// Splits `total` pulses among the sixteen samples from `start` on.
pub fn silk_shell_decoder(
    decoder: &mut RangeDecoder,
    pulses: &mut [i16],
    start: usize,
    total: i32,
)
    requires
        old(decoder).wf(),
        dec_inside(old(decoder)@),
        0 <= total <= 16,
        start + 16 <= old(pulses)@.len(),
    ensures
        final(decoder).wf(),
        dec_inside(final(decoder)@),
        final(decoder)@ == shell_next(old(decoder)@, 4, total as int),
        final(pulses)@.len() == old(pulses)@.len(),
        shell_pulses(old(decoder)@, 4, total as int).len() == 16,
        forall|i: int|
            0 <= i < 16 ==> 0 <= #[trigger] shell_pulses(old(decoder)@, 4, total as int)[i]
                <= total,
        forall|i: int|
            0 <= i < old(pulses)@.len() ==> #[trigger] final(pulses)@[i] == if start <= i < start
                + 16 {
                shell_pulses(old(decoder)@, 4, total as int)[i - start]
            } else {
                old(pulses)@[i] as int
            },
{
    split(decoder, pulses, start, 4, total);
}

/// Sum of the values of a sequence.
pub open spec fn total_of(v: Seq<int>) -> int
    decreases v.len(),
{
    if v.len() == 0 {
        0
    } else {
        total_of(v.drop_last()) + v.last()
    }
}

pub proof fn lemma_total_of_sum(a: Seq<int>, b: Seq<int>)
    ensures
        total_of(a + b) == total_of(a) + total_of(b),
    decreases b.len(),
{
    if b.len() == 0 {
        assert(a + b =~= a);
    } else {
        assert((a + b).drop_last() =~= a + b.drop_last());
        lemma_total_of_sum(a, b.drop_last());
    }
}

/// The samples of a block together have the pulses of the block.
pub proof fn law_shell_keeps_pulses(s: DecState, level: nat, p: int)
    ensures
        total_of(shell_pulses(s, level, p)) == p,
    decreases level,
{
    reveal_with_fuel(total_of, 2);
    if level == 0 {
        assert(seq![p].drop_last() =~= seq![]);
    } else {
        let left = split_left(s, level as int, p);
        let s1 = split_next(s, level as int, p);
        law_shell_keeps_pulses(s1, (level - 1) as nat, left);
        law_shell_keeps_pulses(
            shell_next(s1, (level - 1) as nat, left),
            (level - 1) as nat,
            p - left,
        );
        lemma_total_of_sum(
            shell_pulses(s1, (level - 1) as nat, left),
            shell_pulses(shell_next(s1, (level - 1) as nat, left), (level - 1) as nat, p - left),
        );
    }
}

} // verus!
