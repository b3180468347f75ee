//! Every symbol of the models of pulses has a share of the interval.

use crate::range::ints_of_u8;
use crate::range_laws::{item_ok, CodedItem};
use crate::silk::decode_pulses::{escape_table, lemma_count_table, rate_table};
use crate::silk::shell_coder::{lemma_offsets, lemma_split_table, lemma_u8_table, split_table};
use crate::silk::tables_other::SILK_LSB_ICDF;
use crate::silk::tables_pulses_per_block::{
    SILK_PULSES_PER_BLOCK_ICDF, SILK_RATE_LEVELS_ICDF,
    SILK_SHELL_CODE_TABLE0, SILK_SHELL_CODE_TABLE1, SILK_SHELL_CODE_TABLE2, SILK_SHELL_CODE_TABLE3,
    SILK_SHELL_CODE_TABLE_OFFSETS,
};
use vstd::arithmetic::power2::lemma2_to64;
use vstd::prelude::*;

verus! {

/// Entry `i` is larger than the next one.
pub open spec fn drops(t: Seq<u8>, i: int) -> bool {
    t[i] > t[i + 1]
}

/// Each entry is larger than those behind it, and the last one is zero.
pub open spec fn falling(t: Seq<u8>) -> bool {
    &&& t.len() > 0
    &&& t.last() == 0
    &&& forall|i: int, j: int| 0 <= i < j < t.len() ==> t[i] > t[j]
}

proof fn lemma_drops_far(t: Seq<u8>, i: int, j: int)
    requires
        0 <= i < j < t.len(),
        forall|k: int| 0 <= k < t.len() - 1 ==> #[trigger] drops(t, k),
    ensures
        t[i] > t[j],
    decreases j - i,
{
    assert(drops(t, j - 1));
    if i < j - 1 {
        lemma_drops_far(t, i, j - 1);
    }
}

proof fn lemma_falling(t: Seq<u8>)
    requires
        t.len() > 0,
        t.last() == 0,
        forall|k: int| 0 <= k < t.len() - 1 ==> #[trigger] drops(t, k),
    ensures
        falling(t),
{
    assert forall|i: int, j: int| 0 <= i < j < t.len() implies t[i] > t[j] by {
        lemma_drops_far(t, i, j);
    }
}

/// A symbol of a falling table, with its model.
pub open spec fn table_item(t: Seq<u8>, symbol: int) -> CodedItem {
    CodedItem::Icdf { table: ints_of_u8(t), ftb: 8, symbol }
}

/// Every symbol of a falling table can be coded.
pub proof fn lemma_table_item(t: Seq<u8>, symbol: int)
    requires
        falling(t),
        0 <= symbol < t.len(),
    ensures
        item_ok(table_item(t, symbol)),
{
    lemma2_to64();
    lemma_u8_table(t);
}

proof fn lemma_shell0(p: int, i: int)
    requires
        1 <= p <= 16,
        0 <= i < p,
    ensures
        ({
            let at = SILK_SHELL_CODE_TABLE_OFFSETS[p] + i;
            SILK_SHELL_CODE_TABLE0[at] > SILK_SHELL_CODE_TABLE0[at + 1]
        }),
{
    let t = SILK_SHELL_CODE_TABLE0;
    lemma_offsets(p);
    assert(t[0] > t[1]);
    assert(t[2] > t[3] > t[4]);
    assert(t[5] > t[6] > t[7] > t[8]);
    assert(t[9] > t[10] > t[11] > t[12] > t[13]);
    assert(t[14] > t[15] > t[16] > t[17] > t[18] > t[19]);
    assert(t[20] > t[21] > t[22] > t[23] > t[24] > t[25] > t[26]);
    assert(t[27] > t[28] > t[29] > t[30] > t[31] > t[32] > t[33] > t[34]);
    assert(t[35] > t[36] > t[37] > t[38] > t[39] > t[40] > t[41] > t[42] > t[43]);
    assert(t[44] > t[45] > t[46] > t[47] > t[48] > t[49] > t[50] > t[51] > t[52] > t[53]);
    assert(t[54] > t[55] > t[56] > t[57] > t[58] > t[59] > t[60] > t[61] > t[62] > t[63] > t[64]);
    assert(t[65] > t[66] > t[67] > t[68] > t[69] > t[70] > t[71] > t[72] > t[73] > t[74] > t[75]
        > t[76]);
    assert(t[77] > t[78] > t[79] > t[80] > t[81] > t[82] > t[83] > t[84] > t[85] > t[86] > t[87]
        > t[88] > t[89]);
    assert(t[90] > t[91] > t[92] > t[93] > t[94] > t[95] > t[96] > t[97] > t[98] > t[99]
        > t[100] > t[101] > t[102] > t[103]);
    assert(t[104] > t[105] > t[106] > t[107] > t[108] > t[109] > t[110] > t[111] > t[112]
        > t[113] > t[114] > t[115] > t[116] > t[117] > t[118]);
    assert(t[119] > t[120] > t[121] > t[122] > t[123] > t[124] > t[125] > t[126] > t[127]
        > t[128] > t[129] > t[130] > t[131] > t[132] > t[133] > t[134]);
    assert(t[135] > t[136] > t[137] > t[138] > t[139] > t[140] > t[141] > t[142] > t[143]
        > t[144] > t[145] > t[146] > t[147] > t[148] > t[149] > t[150] > t[151]);
}

proof fn lemma_shell1(p: int, i: int)
    requires
        1 <= p <= 16,
        0 <= i < p,
    ensures
        ({
            let at = SILK_SHELL_CODE_TABLE_OFFSETS[p] + i;
            SILK_SHELL_CODE_TABLE1[at] > SILK_SHELL_CODE_TABLE1[at + 1]
        }),
{
    let t = SILK_SHELL_CODE_TABLE1;
    lemma_offsets(p);
    assert(t[0] > t[1]);
    assert(t[2] > t[3] > t[4]);
    assert(t[5] > t[6] > t[7] > t[8]);
    assert(t[9] > t[10] > t[11] > t[12] > t[13]);
    assert(t[14] > t[15] > t[16] > t[17] > t[18] > t[19]);
    assert(t[20] > t[21] > t[22] > t[23] > t[24] > t[25] > t[26]);
    assert(t[27] > t[28] > t[29] > t[30] > t[31] > t[32] > t[33] > t[34]);
    assert(t[35] > t[36] > t[37] > t[38] > t[39] > t[40] > t[41] > t[42] > t[43]);
    assert(t[44] > t[45] > t[46] > t[47] > t[48] > t[49] > t[50] > t[51] > t[52] > t[53]);
    assert(t[54] > t[55] > t[56] > t[57] > t[58] > t[59] > t[60] > t[61] > t[62] > t[63] > t[64]);
    assert(t[65] > t[66] > t[67] > t[68] > t[69] > t[70] > t[71] > t[72] > t[73] > t[74] > t[75]
        > t[76]);
    assert(t[77] > t[78] > t[79] > t[80] > t[81] > t[82] > t[83] > t[84] > t[85] > t[86] > t[87]
        > t[88] > t[89]);
    assert(t[90] > t[91] > t[92] > t[93] > t[94] > t[95] > t[96] > t[97] > t[98] > t[99]
        > t[100] > t[101] > t[102] > t[103]);
    assert(t[104] > t[105] > t[106] > t[107] > t[108] > t[109] > t[110] > t[111] > t[112]
        > t[113] > t[114] > t[115] > t[116] > t[117] > t[118]);
    assert(t[119] > t[120] > t[121] > t[122] > t[123] > t[124] > t[125] > t[126] > t[127]
        > t[128] > t[129] > t[130] > t[131] > t[132] > t[133] > t[134]);
    assert(t[135] > t[136] > t[137] > t[138] > t[139] > t[140] > t[141] > t[142] > t[143]
        > t[144] > t[145] > t[146] > t[147] > t[148] > t[149] > t[150] > t[151]);
}

proof fn lemma_shell2(p: int, i: int)
    requires
        1 <= p <= 16,
        0 <= i < p,
    ensures
        ({
            let at = SILK_SHELL_CODE_TABLE_OFFSETS[p] + i;
            SILK_SHELL_CODE_TABLE2[at] > SILK_SHELL_CODE_TABLE2[at + 1]
        }),
{
    let t = SILK_SHELL_CODE_TABLE2;
    lemma_offsets(p);
    assert(t[0] > t[1]);
    assert(t[2] > t[3] > t[4]);
    assert(t[5] > t[6] > t[7] > t[8]);
    assert(t[9] > t[10] > t[11] > t[12] > t[13]);
    assert(t[14] > t[15] > t[16] > t[17] > t[18] > t[19]);
    assert(t[20] > t[21] > t[22] > t[23] > t[24] > t[25] > t[26]);
    assert(t[27] > t[28] > t[29] > t[30] > t[31] > t[32] > t[33] > t[34]);
    assert(t[35] > t[36] > t[37] > t[38] > t[39] > t[40] > t[41] > t[42] > t[43]);
    assert(t[44] > t[45] > t[46] > t[47] > t[48] > t[49] > t[50] > t[51] > t[52] > t[53]);
    assert(t[54] > t[55] > t[56] > t[57] > t[58] > t[59] > t[60] > t[61] > t[62] > t[63] > t[64]);
    assert(t[65] > t[66] > t[67] > t[68] > t[69] > t[70] > t[71] > t[72] > t[73] > t[74] > t[75]
        > t[76]);
    assert(t[77] > t[78] > t[79] > t[80] > t[81] > t[82] > t[83] > t[84] > t[85] > t[86] > t[87]
        > t[88] > t[89]);
    assert(t[90] > t[91] > t[92] > t[93] > t[94] > t[95] > t[96] > t[97] > t[98] > t[99]
        > t[100] > t[101] > t[102] > t[103]);
    assert(t[104] > t[105] > t[106] > t[107] > t[108] > t[109] > t[110] > t[111] > t[112]
        > t[113] > t[114] > t[115] > t[116] > t[117] > t[118]);
    assert(t[119] > t[120] > t[121] > t[122] > t[123] > t[124] > t[125] > t[126] > t[127]
        > t[128] > t[129] > t[130] > t[131] > t[132] > t[133] > t[134]);
    assert(t[135] > t[136] > t[137] > t[138] > t[139] > t[140] > t[141] > t[142] > t[143]
        > t[144] > t[145] > t[146] > t[147] > t[148] > t[149] > t[150] > t[151]);
}

proof fn lemma_shell3(p: int, i: int)
    requires
        1 <= p <= 16,
        0 <= i < p,
    ensures
        ({
            let at = SILK_SHELL_CODE_TABLE_OFFSETS[p] + i;
            SILK_SHELL_CODE_TABLE3[at] > SILK_SHELL_CODE_TABLE3[at + 1]
        }),
{
    let t = SILK_SHELL_CODE_TABLE3;
    lemma_offsets(p);
    assert(t[0] > t[1]);
    assert(t[2] > t[3] > t[4]);
    assert(t[5] > t[6] > t[7] > t[8]);
    assert(t[9] > t[10] > t[11] > t[12] > t[13]);
    assert(t[14] > t[15] > t[16] > t[17] > t[18] > t[19]);
    assert(t[20] > t[21] > t[22] > t[23] > t[24] > t[25] > t[26]);
    assert(t[27] > t[28] > t[29] > t[30] > t[31] > t[32] > t[33] > t[34]);
    assert(t[35] > t[36] > t[37] > t[38] > t[39] > t[40] > t[41] > t[42] > t[43]);
    assert(t[44] > t[45] > t[46] > t[47] > t[48] > t[49] > t[50] > t[51] > t[52] > t[53]);
    assert(t[54] > t[55] > t[56] > t[57] > t[58] > t[59] > t[60] > t[61] > t[62] > t[63] > t[64]);
    assert(t[65] > t[66] > t[67] > t[68] > t[69] > t[70] > t[71] > t[72] > t[73] > t[74] > t[75]
        > t[76]);
    assert(t[77] > t[78] > t[79] > t[80] > t[81] > t[82] > t[83] > t[84] > t[85] > t[86] > t[87]
        > t[88] > t[89]);
    assert(t[90] > t[91] > t[92] > t[93] > t[94] > t[95] > t[96] > t[97] > t[98] > t[99]
        > t[100] > t[101] > t[102] > t[103]);
    assert(t[104] > t[105] > t[106] > t[107] > t[108] > t[109] > t[110] > t[111] > t[112]
        > t[113] > t[114] > t[115] > t[116] > t[117] > t[118]);
    assert(t[119] > t[120] > t[121] > t[122] > t[123] > t[124] > t[125] > t[126] > t[127]
        > t[128] > t[129] > t[130] > t[131] > t[132] > t[133] > t[134]);
    assert(t[135] > t[136] > t[137] > t[138] > t[139] > t[140] > t[141] > t[142] > t[143]
        > t[144] > t[145] > t[146] > t[147] > t[148] > t[149] > t[150] > t[151]);
}

/// The tables by which pulses are split are falling.
pub proof fn lemma_split_falls(level: int, p: int)
    requires
        1 <= level <= 4,
        1 <= p <= 16,
    ensures
        falling(split_table(level, p)),
        split_table(level, p).len() == p + 1,
{
    let t = split_table(level, p);
    lemma_offsets(p);
    lemma_split_table(level, p);
    assert forall|k: int| 0 <= k < t.len() - 1 implies #[trigger] drops(t, k) by {
        lemma_shell0(p, k);
        lemma_shell1(p, k);
        lemma_shell2(p, k);
        lemma_shell3(p, k);
    }
    assert(ints_of_u8(t).last() == t.last());
    lemma_falling(t);
}

/// The tables of pulses in a block are falling.
pub proof fn lemma_counts_fall(level: int)
    requires
        0 <= level < 10,
    ensures
        SILK_PULSES_PER_BLOCK_ICDF[level]@.len() == 18,
        falling(SILK_PULSES_PER_BLOCK_ICDF[level]@),
{
    assert({
        let t = SILK_PULSES_PER_BLOCK_ICDF[0];
        t[0] > t[1] > t[2] > t[3] > t[4] > t[5] > t[6] > t[7] > t[8] > t[9] > t[10] > t[11]
        > t[12] > t[13] > t[14] > t[15] > t[16] > t[17]
    });
    assert({
        let t = SILK_PULSES_PER_BLOCK_ICDF[1];
        t[0] > t[1] > t[2] > t[3] > t[4] > t[5] > t[6] > t[7] > t[8] > t[9] > t[10] > t[11]
        > t[12] > t[13] > t[14] > t[15] > t[16] > t[17]
    });
    assert({
        let t = SILK_PULSES_PER_BLOCK_ICDF[2];
        t[0] > t[1] > t[2] > t[3] > t[4] > t[5] > t[6] > t[7] > t[8] > t[9] > t[10] > t[11]
        > t[12] > t[13] > t[14] > t[15] > t[16] > t[17]
    });
    assert({
        let t = SILK_PULSES_PER_BLOCK_ICDF[3];
        t[0] > t[1] > t[2] > t[3] > t[4] > t[5] > t[6] > t[7] > t[8] > t[9] > t[10] > t[11]
        > t[12] > t[13] > t[14] > t[15] > t[16] > t[17]
    });
    assert({
        let t = SILK_PULSES_PER_BLOCK_ICDF[4];
        t[0] > t[1] > t[2] > t[3] > t[4] > t[5] > t[6] > t[7] > t[8] > t[9] > t[10] > t[11]
        > t[12] > t[13] > t[14] > t[15] > t[16] > t[17]
    });
    assert({
        let t = SILK_PULSES_PER_BLOCK_ICDF[5];
        t[0] > t[1] > t[2] > t[3] > t[4] > t[5] > t[6] > t[7] > t[8] > t[9] > t[10] > t[11]
        > t[12] > t[13] > t[14] > t[15] > t[16] > t[17]
    });
    assert({
        let t = SILK_PULSES_PER_BLOCK_ICDF[6];
        t[0] > t[1] > t[2] > t[3] > t[4] > t[5] > t[6] > t[7] > t[8] > t[9] > t[10] > t[11]
        > t[12] > t[13] > t[14] > t[15] > t[16] > t[17]
    });
    assert({
        let t = SILK_PULSES_PER_BLOCK_ICDF[7];
        t[0] > t[1] > t[2] > t[3] > t[4] > t[5] > t[6] > t[7] > t[8] > t[9] > t[10] > t[11]
        > t[12] > t[13] > t[14] > t[15] > t[16] > t[17]
    });
    assert({
        let t = SILK_PULSES_PER_BLOCK_ICDF[8];
        t[0] > t[1] > t[2] > t[3] > t[4] > t[5] > t[6] > t[7] > t[8] > t[9] > t[10] > t[11]
        > t[12] > t[13] > t[14] > t[15] > t[16] > t[17]
    });
    assert({
        let t = SILK_PULSES_PER_BLOCK_ICDF[9];
        t[0] > t[1] > t[2] > t[3] > t[4] > t[5] > t[6] > t[7] > t[8] > t[9] > t[10] > t[11]
        > t[12] > t[13] > t[14] > t[15] > t[16] > t[17]
    });
    lemma_count_table(level);
    let t = SILK_PULSES_PER_BLOCK_ICDF[level]@;
    assert forall|k: int| 0 <= k < t.len() - 1 implies #[trigger] drops(t, k) by {}
    lemma_falling(t);
}

/// So are those of pulses with extra bits.
pub proof fn lemma_escapes_fall(extra: int)
    ensures
        falling(escape_table(extra)),
        escape_table(extra).len() == if extra == 10 {
            17int
        } else {
            18
        },
{
    lemma_counts_fall(9);
}

/// So are those of rate levels.
pub proof fn lemma_rates_fall(signal_type: int)
    ensures
        falling(rate_table(signal_type)),
        rate_table(signal_type).len() == 9,
{
    let t = rate_table(signal_type);
    assert({
        let t = SILK_RATE_LEVELS_ICDF[0];
        t[0] > t[1] > t[2] > t[3] > t[4] > t[5] > t[6] > t[7] > t[8] && t[8] == 0
    });
    assert({
        let t = SILK_RATE_LEVELS_ICDF[1];
        t[0] > t[1] > t[2] > t[3] > t[4] > t[5] > t[6] > t[7] > t[8] && t[8] == 0
    });
    assert forall|k: int| 0 <= k < t.len() - 1 implies #[trigger] drops(t, k) by {}
    lemma_falling(t);
}

/// So is that of extra bits.
pub proof fn lemma_bits_fall()
    ensures
        falling(SILK_LSB_ICDF@),
        SILK_LSB_ICDF@.len() == 2,
{
    assert(SILK_LSB_ICDF[0] > SILK_LSB_ICDF[1] && SILK_LSB_ICDF[1] == 0);
}

} // verus!
