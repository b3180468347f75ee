//! What reading gives back of pulses that were written.
//!
//! A frame of pulses is written as a rate level, the pulses of each block, how
//! they split among its samples, the bits by which samples are extended, and the
//! signs. A writer chooses the rate level and by how many bits each block is
//! extended; whatever it chooses, the same pulses are read.

use crate::range::{dec_icdf_next, dec_icdf_symbol, ints_of_u8, DecState};
use crate::range_encoder::enc_stream;
use crate::range_laws::{
    dec_item_next, dec_item_symbol, dec_items, enc_items, item_ok, item_symbol, items_ok,
    law_stream_round_trip, CodedItem,
};
use crate::silk::code_signs::{
    lemma_sign_item, sign_blocks, sign_item, signed_pulse, signs_read, SignModel,
};
use crate::silk::decode_pulses::{
    bits_next, block_pulses, count_of, counts_next, escape_table, escaped_count, magnitude,
    pulse_frame, rate_table, shell_blocks, shell_sample, shells_next, with_bits, BlockCount,
    ESCAPE_PULSES, MAX_FRAME_LENGTH,
};
use crate::silk::pulse_tables::{
    lemma_bits_fall, lemma_counts_fall, lemma_escapes_fall, lemma_rates_fall, lemma_split_falls,
    lemma_table_item, table_item,
};
use crate::silk::shell_coder::{
    lemma_total_of_sum, shell_next, shell_pulses, shell_width, split_left, split_next, split_table,
    total_of,
};
use crate::silk::tables_other::SILK_LSB_ICDF;
use crate::silk::tables_pulses_per_block::SILK_PULSES_PER_BLOCK_ICDF;
use vstd::arithmetic::power2::*;
use vstd::prelude::*;

verus! {

// ---------------------------------------------------------------------
// Reading one item after the other
// ---------------------------------------------------------------------

/// The decoder once items are read with their models.
pub open spec fn dec_after(d: DecState, items: Seq<CodedItem>) -> DecState
    decreases items.len(),
{
    if items.len() == 0 {
        d
    } else {
        dec_after(dec_item_next(d, items[0]), items.skip(1))
    }
}

/// The decoder is about to read the symbols of the items.
pub open spec fn gives(d: DecState, items: Seq<CodedItem>) -> bool
    decreases items.len(),
{
    items.len() == 0 || (dec_item_symbol(d, items[0]) == item_symbol(items[0]) && gives(
        dec_item_next(d, items[0]),
        items.skip(1),
    ))
}

proof fn lemma_gives_joined(d: DecState, a: Seq<CodedItem>, b: Seq<CodedItem>)
    ensures
        gives(d, a + b) == (gives(d, a) && gives(dec_after(d, a), b)),
        dec_after(d, a + b) == dec_after(dec_after(d, a), b),
    decreases a.len(),
{
    if a.len() == 0 {
        assert(a + b =~= b);
    } else {
        assert((a + b).skip(1) =~= a.skip(1) + b);
        lemma_gives_joined(dec_item_next(d, a[0]), a.skip(1), b);
    }
}

proof fn lemma_gives_one(d: DecState, item: CodedItem)
    ensures
        gives(d, seq![item]) == (dec_item_symbol(d, item) == item_symbol(item)),
        dec_after(d, seq![item]) == dec_item_next(d, item),
{
    reveal_with_fuel(gives, 2);
    reveal_with_fuel(dec_after, 2);
    assert(seq![item].skip(1) =~= seq![]);
}

proof fn lemma_items_ok_joined(a: Seq<CodedItem>, b: Seq<CodedItem>)
    requires
        items_ok(a),
        items_ok(b),
    ensures
        items_ok(a + b),
{
    assert forall|i: int| 0 <= i < (a + b).len() implies item_ok(#[trigger] (a + b)[i]) by {
        if i < a.len() {
            assert(item_ok(a[i]));
        } else {
            assert(item_ok(b[i - a.len()]));
        }
    }
}

/// A decoder of a stream, from item `k` on, gives the items up to `m`.
proof fn lemma_stream_gives(items: Seq<CodedItem>, k: nat, m: nat)
    requires
        items_ok(items),
        k <= m <= items.len(),
    ensures
        gives(
            dec_items(enc_stream(enc_items(items)), items, k),
            items.subrange(k as int, m as int),
        ),
    decreases m - k,
{
    let buf = enc_stream(enc_items(items));
    let part = items.subrange(k as int, m as int);
    if k < m {
        law_stream_round_trip(items);
        assert(part[0] == items[k as int]);
        assert(part.skip(1) =~= items.subrange((k + 1) as int, m as int));
        let d = dec_items(buf, items, k);
        assert(dec_item_symbol(d, items[k as int]) == item_symbol(items[k as int]));
        assert(dec_items(buf, items, k + 1) == dec_item_next(d, items[k as int]));
        lemma_stream_gives(items, k + 1, m);
    }
}

// ---------------------------------------------------------------------
// Splits
// ---------------------------------------------------------------------

pub open spec fn not_negative(v: Seq<int>) -> bool {
    forall|i: int| 0 <= i < v.len() ==> 0 <= #[trigger] v[i]
}

proof fn lemma_total_not_negative(v: Seq<int>)
    requires
        not_negative(v),
    ensures
        0 <= total_of(v),
    decreases v.len(),
{
    if v.len() > 0 {
        lemma_total_not_negative(v.drop_last());
    }
}

/// How the pulses `v` of `2^level` samples are written, given their sum.
pub open spec fn split_items(level: nat, v: Seq<int>) -> Seq<CodedItem>
    decreases level,
{
    if level == 0 {
        seq![]
    } else {
        let half = shell_width((level - 1) as nat);
        let left = v.take(half);
        let p = total_of(v);
        let own = if p > 0 {
            seq![table_item(split_table(level as int, p), total_of(left))]
        } else {
            seq![]
        };
        own + split_items((level - 1) as nat, left) + split_items((level - 1) as nat, v.skip(half))
    }
}

proof fn lemma_halves(level: nat, v: Seq<int>)
    requires
        1 <= level <= 4,
        v.len() == shell_width(level),
        not_negative(v),
    ensures
        ({
            let half = shell_width((level - 1) as nat);
            let (left, right) = (v.take(half), v.skip(half));
            &&& v == left + right
            &&& left.len() == half
            &&& right.len() == half
            &&& not_negative(left)
            &&& not_negative(right)
            &&& total_of(v) == total_of(left) + total_of(right)
            &&& 0 <= total_of(left)
            &&& 0 <= total_of(right)
        }),
{
    let half = shell_width((level - 1) as nat);
    let left = v.take(half);
    let right = v.skip(half);
    assert(v =~= left + right);
    lemma_total_of_sum(left, right);
    lemma_total_not_negative(left);
    lemma_total_not_negative(right);
}

proof fn lemma_split_items_ok(level: nat, v: Seq<int>)
    requires
        level <= 4,
        v.len() == shell_width(level),
        not_negative(v),
        total_of(v) <= 16,
    ensures
        items_ok(split_items(level, v)),
    decreases level,
{
    if level > 0 {
        let half = shell_width((level - 1) as nat);
        let left = v.take(half);
        let right = v.skip(half);
        let p = total_of(v);
        lemma_halves(level, v);
        lemma_split_items_ok((level - 1) as nat, left);
        lemma_split_items_ok((level - 1) as nat, right);
        let own = if p > 0 {
            seq![table_item(split_table(level as int, p), total_of(left))]
        } else {
            seq![]
        };
        if p > 0 {
            lemma_split_falls(level as int, p);
            lemma_table_item(split_table(level as int, p), total_of(left));
        }
        lemma_items_ok_joined(own, split_items((level - 1) as nat, left));
        lemma_items_ok_joined(
            own + split_items((level - 1) as nat, left),
            split_items((level - 1) as nat, right),
        );
    }
}

proof fn lemma_split_reads(d: DecState, level: nat, v: Seq<int>)
    requires
        level <= 4,
        v.len() == shell_width(level),
        not_negative(v),
        gives(d, split_items(level, v)),
    ensures
        shell_pulses(d, level, total_of(v)) == v,
        shell_next(d, level, total_of(v)) == dec_after(d, split_items(level, v)),
    decreases level,
{
    let p = total_of(v);
    if level == 0 {
        reveal_with_fuel(total_of, 2);
        assert(v.drop_last() =~= seq![]);
        assert(v =~= seq![p]);
    } else {
        let half = shell_width((level - 1) as nat);
        let left = v.take(half);
        let right = v.skip(half);
        lemma_halves(level, v);
        let lower = (level - 1) as nat;
        let (a, b) = (split_items(lower, left), split_items(lower, right));
        let item = table_item(split_table(level as int, p), total_of(left));
        let own = if p > 0 {
            seq![item]
        } else {
            seq![]
        };
        lemma_gives_joined(d, own + a, b);
        lemma_gives_joined(d, own, a);
        lemma_gives_one(d, item);
        assert(split_left(d, level as int, p) == total_of(left));
        assert(split_next(d, level as int, p) == dec_after(d, own));
        let s1 = dec_after(d, own);
        lemma_split_reads(s1, lower, left);
        lemma_split_reads(dec_after(s1, a), lower, right);
    }
}

/// Nothing is read where there are no pulses to split.
proof fn lemma_no_split(d: DecState, level: nat)
    ensures
        shell_next(d, level, 0) == d,
    decreases level,
{
    if level > 0 {
        lemma_no_split(d, (level - 1) as nat);
    }
}

// ---------------------------------------------------------------------
// Blocks
// ---------------------------------------------------------------------

/// The samples of block `b`.
pub open spec fn block_of(samples: Seq<int>, b: int) -> Seq<int> {
    samples.subrange(16 * b, 16 * b + 16)
}

/// How the samples of the first `n` blocks are written, given the pulses of the
/// blocks.
pub open spec fn blocks_items(samples: Seq<int>, n: nat) -> Seq<CodedItem>
    decreases n,
{
    if n == 0 {
        seq![]
    } else {
        blocks_items(samples, (n - 1) as nat) + split_items(4, block_of(samples, n - 1))
    }
}

proof fn lemma_blocks_items_ok(samples: Seq<int>, n: nat)
    requires
        16 * n <= samples.len(),
        not_negative(samples),
        forall|b: int| 0 <= b < n ==> total_of(#[trigger] block_of(samples, b)) <= 16,
    ensures
        items_ok(blocks_items(samples, n)),
    decreases n,
{
    if n > 0 {
        lemma_blocks_items_ok(samples, (n - 1) as nat);
        lemma_split_items_ok(4, block_of(samples, n - 1));
        lemma_items_ok_joined(
            blocks_items(samples, (n - 1) as nat),
            split_items(4, block_of(samples, n - 1)),
        );
    }
}

proof fn lemma_blocks_read(d: DecState, samples: Seq<int>, counts: Seq<int>, n: nat)
    requires
        16 * n <= samples.len(),
        n <= counts.len(),
        not_negative(samples),
        forall|b: int| 0 <= b < n ==> #[trigger] counts[b] == total_of(block_of(samples, b)),
        gives(d, blocks_items(samples, n)),
    ensures
        shells_next(d, counts, n) == dec_after(d, blocks_items(samples, n)),
        forall|i: int| 0 <= i < 16 * n ==> #[trigger] shell_sample(d, counts, i) == samples[i],
    decreases n,
{
    if n > 0 {
        let b = n - 1;
        let before = blocks_items(samples, b as nat);
        let v = block_of(samples, b);
        lemma_gives_joined(d, before, split_items(4, v));
        lemma_blocks_read(d, samples, counts, b as nat);
        let s = dec_after(d, before);
        lemma_split_reads(s, 4, v);
        lemma_total_not_negative(v);
        if counts[b] <= 0 {
            lemma_no_split(s, 4);
        }
        assert forall|i: int| 0 <= i < 16 * n implies #[trigger] shell_sample(d, counts, i)
            == samples[i] by {
            if i >= 16 * b {
                assert(i / 16 == b && i % 16 == i - 16 * b);
                assert(v[i % 16] == samples[i]);
                if counts[b] <= 0 {
                    lemma_none_without_total(v, i % 16);
                }
            }
        }
    }
}

proof fn lemma_none_without_total(v: Seq<int>, i: int)
    requires
        not_negative(v),
        total_of(v) <= 0,
        0 <= i < v.len(),
    ensures
        v[i] == 0,
    decreases v.len(),
{
    lemma_total_not_negative(v.drop_last());
    if i < v.len() - 1 {
        assert(v.drop_last()[i] == v[i]);
        lemma_none_without_total(v.drop_last(), i);
    }
}

// ---------------------------------------------------------------------
// Pulses of blocks
// ---------------------------------------------------------------------

/// How a number of pulses with `extra` bits is written after `at - 1` escapes.
pub open spec fn escape_items(p: int, extra: int, at: int) -> Seq<CodedItem>
    decreases extra - at,
{
    if at >= extra {
        seq![table_item(escape_table(extra), p)]
    } else {
        seq![table_item(escape_table(at), ESCAPE_PULSES as int)] + escape_items(p, extra, at + 1)
    }
}

/// How the pulses of a block are written at a rate level.
pub open spec fn count_items(level: int, p: int, extra: int) -> Seq<CodedItem> {
    let t = SILK_PULSES_PER_BLOCK_ICDF[level]@;
    if extra == 0 {
        seq![table_item(t, p)]
    } else {
        seq![table_item(t, ESCAPE_PULSES as int)] + escape_items(p, extra, 1)
    }
}

proof fn lemma_escape_items_ok(p: int, extra: int, at: int)
    requires
        0 <= p <= 16,
        1 <= at <= extra <= 10,
    ensures
        items_ok(escape_items(p, extra, at)),
    decreases extra - at,
{
    lemma_escapes_fall(at);
    if at >= extra {
        lemma_table_item(escape_table(extra), p);
    } else {
        lemma_table_item(escape_table(at), 17);
        lemma_escape_items_ok(p, extra, at + 1);
        lemma_items_ok_joined(
            seq![table_item(escape_table(at), 17)],
            escape_items(p, extra, at + 1),
        );
    }
}

proof fn lemma_escape_reads(d: DecState, p: int, extra: int, at: int)
    requires
        0 <= p <= 16,
        1 <= at <= extra <= 10,
        gives(d, escape_items(p, extra, at)),
    ensures
        escaped_count(d, at) == (BlockCount {
            pulses: p,
            extra,
            next: dec_after(d, escape_items(p, extra, at)),
        }),
    decreases extra - at,
{
    if at >= extra {
        lemma_gives_one(d, table_item(escape_table(extra), p));
    } else {
        let item = table_item(escape_table(at), 17);
        let rest = escape_items(p, extra, at + 1);
        lemma_gives_joined(d, seq![item], rest);
        lemma_gives_one(d, item);
        lemma_escape_reads(dec_item_next(d, item), p, extra, at + 1);
    }
}

proof fn lemma_count_items_ok(level: int, p: int, extra: int)
    requires
        0 <= level < 10,
        0 <= p <= 16,
        0 <= extra <= 10,
    ensures
        items_ok(count_items(level, p, extra)),
{
    let t = SILK_PULSES_PER_BLOCK_ICDF[level]@;
    lemma_counts_fall(level);
    lemma_table_item(t, p);
    lemma_table_item(t, 17);
    if extra > 0 {
        lemma_escape_items_ok(p, extra, 1);
        lemma_items_ok_joined(seq![table_item(t, 17)], escape_items(p, extra, 1));
    }
}

proof fn lemma_count_reads(d: DecState, level: int, p: int, extra: int)
    requires
        0 <= p <= 16,
        0 <= extra <= 10,
        gives(d, count_items(level, p, extra)),
    ensures
        block_pulses(d, level) == (BlockCount {
            pulses: p,
            extra,
            next: dec_after(d, count_items(level, p, extra)),
        }),
{
    let t = SILK_PULSES_PER_BLOCK_ICDF[level]@;
    if extra == 0 {
        lemma_gives_one(d, table_item(t, p));
    } else {
        let item = table_item(t, 17);
        lemma_gives_joined(d, seq![item], escape_items(p, extra, 1));
        lemma_gives_one(d, item);
        lemma_escape_reads(dec_item_next(d, item), p, extra, 1);
    }
}

/// How the pulses of the first `n` blocks are written.
pub open spec fn counts_items(level: int, counts: Seq<int>, extra: Seq<int>, n: nat) -> Seq<
    CodedItem,
>
    decreases n,
{
    if n == 0 {
        seq![]
    } else {
        counts_items(level, counts, extra, (n - 1) as nat) + count_items(
            level,
            counts[n - 1],
            extra[n - 1],
        )
    }
}

/// Numbers of pulses and extra bits that can be written.
pub open spec fn counts_ok(counts: Seq<int>, extra: Seq<int>, n: nat) -> bool {
    &&& n <= counts.len()
    &&& n <= extra.len()
    &&& forall|b: int| 0 <= b < n ==> 0 <= #[trigger] counts[b] <= 16
    &&& forall|b: int| 0 <= b < n ==> 0 <= #[trigger] extra[b] <= 10
}

proof fn lemma_counts_items_ok(level: int, counts: Seq<int>, extra: Seq<int>, n: nat)
    requires
        0 <= level < 10,
        counts_ok(counts, extra, n),
    ensures
        items_ok(counts_items(level, counts, extra, n)),
    decreases n,
{
    if n > 0 {
        lemma_counts_items_ok(level, counts, extra, (n - 1) as nat);
        lemma_count_items_ok(level, counts[n - 1], extra[n - 1]);
        lemma_items_ok_joined(
            counts_items(level, counts, extra, (n - 1) as nat),
            count_items(level, counts[n - 1], extra[n - 1]),
        );
    }
}

proof fn lemma_counts_read(d: DecState, level: int, counts: Seq<int>, extra: Seq<int>, n: nat)
    requires
        counts_ok(counts, extra, n),
        gives(d, counts_items(level, counts, extra, n)),
    ensures
        counts_next(d, level, n) == dec_after(d, counts_items(level, counts, extra, n)),
        forall|b: int| 0 <= b < n ==> (#[trigger] count_of(d, level, b)).pulses == counts[b],
        forall|b: int| 0 <= b < n ==> (#[trigger] count_of(d, level, b)).extra == extra[b],
    decreases n,
{
    if n > 0 {
        let b = n - 1;
        let before = counts_items(level, counts, extra, b as nat);
        lemma_gives_joined(d, before, count_items(level, counts[b], extra[b]));
        lemma_counts_read(d, level, counts, extra, b as nat);
        lemma_count_reads(dec_after(d, before), level, counts[b], extra[b]);
    }
}

// ---------------------------------------------------------------------
// Extra bits
// ---------------------------------------------------------------------

/// How the lowest `bits` bits of a magnitude are written, the highest first.
pub open spec fn bit_items(m: int, bits: nat) -> Seq<CodedItem>
    decreases bits,
{
    if bits == 0 {
        seq![]
    } else {
        seq![table_item(SILK_LSB_ICDF@, (m / pow2((bits - 1) as nat) as int) % 2)] + bit_items(
            m,
            (bits - 1) as nat,
        )
    }
}

proof fn lemma_bit_items_ok(m: int, bits: nat)
    ensures
        items_ok(bit_items(m, bits)),
    decreases bits,
{
    if bits > 0 {
        let bit = (m / pow2((bits - 1) as nat) as int) % 2;
        lemma_bits_fall();
        lemma_table_item(SILK_LSB_ICDF@, bit);
        lemma_bit_items_ok(m, (bits - 1) as nat);
        lemma_items_ok_joined(
            seq![table_item(SILK_LSB_ICDF@, bit)],
            bit_items(m, (bits - 1) as nat),
        );
    }
}

proof fn lemma_bits_read_back(d: DecState, m: int, bits: nat)
    requires
        0 <= m,
        gives(d, bit_items(m, bits)),
    ensures
        with_bits(d, m / pow2(bits) as int, bits) == (m, dec_after(d, bit_items(m, bits))),
    decreases bits,
{
    lemma2_to64();
    if bits == 0 {
        assert(m / 1 == m);
    } else {
        let lower = (bits - 1) as nat;
        let q = pow2(lower) as int;
        let item = table_item(SILK_LSB_ICDF@, (m / q) % 2);
        lemma_pow2_pos(lower);
        lemma_pow2_unfold(bits);
        crate::fixed::lemma_div_twice(m, q, 2);
        assert(q * 2 == pow2(bits));
        assert(2 * (m / pow2(bits) as int) + (m / q) % 2 == m / q);
        lemma_gives_joined(d, seq![item], bit_items(m, lower));
        lemma_gives_one(d, item);
        lemma_bits_read_back(dec_item_next(d, item), m, lower);
    }
}

/// How the extra bits of the first `n` samples are written.
pub open spec fn extended_items(magnitudes: Seq<int>, extra: Seq<int>, n: nat) -> Seq<CodedItem>
    decreases n,
{
    if n == 0 {
        seq![]
    } else {
        extended_items(magnitudes, extra, (n - 1) as nat) + bit_items(
            magnitudes[n - 1],
            extra[(n - 1) / 16] as nat,
        )
    }
}

proof fn lemma_extended_items_ok(magnitudes: Seq<int>, extra: Seq<int>, n: nat)
    ensures
        items_ok(extended_items(magnitudes, extra, n)),
    decreases n,
{
    if n > 0 {
        lemma_extended_items_ok(magnitudes, extra, (n - 1) as nat);
        lemma_bit_items_ok(magnitudes[n - 1], extra[(n - 1) / 16] as nat);
        lemma_items_ok_joined(
            extended_items(magnitudes, extra, (n - 1) as nat),
            bit_items(magnitudes[n - 1], extra[(n - 1) / 16] as nat),
        );
    }
}

/// A magnitude without its extra bits.
pub open spec fn shortened(m: int, bits: int) -> int {
    m / pow2(bits as nat) as int
}

proof fn lemma_extended_read_back(
    d: DecState,
    samples: Seq<int>,
    magnitudes: Seq<int>,
    extra: Seq<int>,
    n: nat,
)
    requires
        n <= samples.len(),
        n <= magnitudes.len(),
        not_negative(magnitudes),
        forall|i: int|
            0 <= i < n ==> #[trigger] samples[i] == shortened(magnitudes[i], extra[i / 16]),
        gives(d, extended_items(magnitudes, extra, n)),
    ensures
        bits_next(d, samples, extra, n) == dec_after(d, extended_items(magnitudes, extra, n)),
        forall|i: int|
            0 <= i < n ==> #[trigger] magnitude(d, samples, extra, i) == magnitudes[i],
    decreases n,
{
    if n > 0 {
        let i = n - 1;
        let before = extended_items(magnitudes, extra, i as nat);
        let bits = extra[i / 16] as nat;
        lemma_gives_joined(d, before, bit_items(magnitudes[i], bits));
        lemma_extended_read_back(d, samples, magnitudes, extra, i as nat);
        lemma_bits_read_back(dec_after(d, before), magnitudes[i], bits);
    }
}

// ---------------------------------------------------------------------
// Signs
// ---------------------------------------------------------------------

/// How the signs of the first `n` samples are written.
pub open spec fn signs_items(m: SignModel, pulses: Seq<i8>, n: nat) -> Seq<CodedItem>
    decreases n,
{
    if n == 0 {
        seq![]
    } else if m.coded(n - 1) && pulses[n - 1] != 0 {
        signs_items(m, pulses, (n - 1) as nat) + seq![sign_item(m, pulses, n - 1)]
    } else {
        signs_items(m, pulses, (n - 1) as nat)
    }
}

proof fn lemma_signs_items_ok(m: SignModel, pulses: Seq<i8>, n: nat)
    requires
        m.ok(),
    ensures
        items_ok(signs_items(m, pulses, n)),
    decreases n,
{
    if n > 0 {
        lemma_signs_items_ok(m, pulses, (n - 1) as nat);
        if m.coded(n - 1) && pulses[n - 1] != 0 {
            lemma_sign_item(m, pulses, n - 1);
            lemma_items_ok_joined(
                signs_items(m, pulses, (n - 1) as nat),
                seq![sign_item(m, pulses, n - 1)],
            );
        }
    }
}

/// A pulse without its sign.
pub open spec fn size_of_pulse(p: i8) -> int {
    if p < 0 {
        -(p as int)
    } else {
        p as int
    }
}

proof fn lemma_signs_read_back(
    d: DecState,
    m: SignModel,
    pulses: Seq<i8>,
    magnitudes: Seq<i16>,
    n: nat,
)
    requires
        n <= pulses.len(),
        n <= magnitudes.len(),
        forall|i: int| 0 <= i < n ==> #[trigger] magnitudes[i] == size_of_pulse(pulses[i]),
        forall|i: int| 0 <= i < n && pulses[i] != 0 ==> #[trigger] m.coded(i),
        gives(d, signs_items(m, pulses, n)),
    ensures
        signs_read(d, m, magnitudes, n) == dec_after(d, signs_items(m, pulses, n)),
        forall|i: int| 0 <= i < n ==> #[trigger] signed_pulse(d, m, magnitudes, i) == pulses[i],
    decreases n,
{
    if n > 0 {
        let i = n - 1;
        let before = signs_items(m, pulses, i as nat);
        let item = sign_item(m, pulses, i);
        assert(magnitudes[i] == size_of_pulse(pulses[i]));
        if pulses[i] != 0 {
            assert(m.coded(i));
            lemma_gives_joined(d, before, seq![item]);
            lemma_gives_one(dec_after(d, before), item);
        }
        lemma_signs_read_back(d, m, pulses, magnitudes, i as nat);
        assert(signed_pulse(d, m, magnitudes, i) == pulses[i]);
    }
}

// ---------------------------------------------------------------------
// Frames
// ---------------------------------------------------------------------

/// A frame of pulses, with what its writer chooses: the rate level, and the bits
/// by which the samples of each block are extended.
pub struct WrittenFrame {
    pub signal_type: int,
    pub offset_type: int,
    pub frame_length: int,
    pub pulses: Seq<i8>,
    pub level: int,
    pub extra: Seq<int>,
}

impl WrittenFrame {
    pub open spec fn blocks(self) -> int {
        shell_blocks(self.frame_length)
    }

    /// The pulses without their signs, filled up to whole blocks.
    pub open spec fn magnitudes(self) -> Seq<int> {
        Seq::new(
            (16 * self.blocks()) as nat,
            |i: int|
                if i < self.frame_length {
                    size_of_pulse(self.pulses[i])
                } else {
                    0
                },
        )
    }

    /// The magnitudes without their extra bits.
    pub open spec fn samples(self) -> Seq<int> {
        Seq::new(
            (16 * self.blocks()) as nat,
            |i: int| shortened(self.magnitudes()[i], self.extra[i / 16]),
        )
    }

    /// The pulses of the blocks, without extra bits.
    pub open spec fn counts(self) -> Seq<int> {
        Seq::new(self.blocks() as nat, |b: int| total_of(block_of(self.samples(), b)))
    }

    pub open spec fn signs(self) -> SignModel {
        SignModel {
            signal_type: self.signal_type,
            offset_type: self.offset_type,
            sums: Seq::new(
                self.blocks() as nat,
                |b: int| (self.counts()[b] + 32 * self.extra[b]) as i32,
            ),
            blocks: sign_blocks(self.frame_length),
        }
    }

    /// The signs of all blocks are coded, and no block has more pulses than can
    /// be split.
    pub open spec fn ok(self) -> bool {
        &&& 0 <= self.signal_type <= 2
        &&& 0 <= self.offset_type <= 1
        &&& 0 < self.frame_length <= MAX_FRAME_LENGTH
        &&& sign_blocks(self.frame_length) == self.blocks()
        &&& self.frame_length <= self.pulses.len()
        &&& 0 <= self.level < 9
        &&& self.extra.len() == self.blocks()
        &&& forall|b: int| 0 <= b < self.blocks() ==> 0 <= #[trigger] self.extra[b] <= 10
        &&& forall|b: int| 0 <= b < self.blocks() ==> #[trigger] self.counts()[b] <= 16
    }

    /// How the frame is written.
    pub open spec fn items(self) -> Seq<CodedItem> {
        seq![table_item(rate_table(self.signal_type), self.level)] + counts_items(
            self.level,
            self.counts(),
            self.extra,
            self.blocks() as nat,
        ) + blocks_items(self.samples(), self.blocks() as nat) + extended_items(
            self.magnitudes(),
            self.extra,
            (16 * self.blocks()) as nat,
        ) + signs_items(self.signs(), self.pulses, self.frame_length as nat)
    }
}

proof fn lemma_frame_parts(w: WrittenFrame)
    requires
        w.ok(),
    ensures
        not_negative(w.magnitudes()),
        not_negative(w.samples()),
        counts_ok(w.counts(), w.extra, w.blocks() as nat),
        w.signs().ok(),
        forall|b: int|
            0 <= b < w.blocks() ==> total_of(#[trigger] block_of(w.samples(), b)) <= 16,
        forall|b: int|
            0 <= b < w.blocks() ==> #[trigger] w.counts()[b] == total_of(block_of(w.samples(), b)),
{
    let samples = w.samples();
    assert forall|i: int| 0 <= i < samples.len() implies 0 <= #[trigger] samples[i] by {
        let bits = w.extra[i / 16] as nat;
        lemma_pow2_pos(bits);
        vstd::arithmetic::div_mod::lemma_div_pos_is_pos(w.magnitudes()[i], pow2(bits) as int);
    }
    assert forall|b: int| 0 <= b < w.blocks() implies 0 <= #[trigger] w.counts()[b] <= 16 by {
        lemma_total_not_negative(block_of(samples, b));
    }
    assert forall|b: int| 0 <= b < w.blocks() implies total_of(#[trigger] block_of(samples, b))
        <= 16 by {
        assert(w.counts()[b] <= 16);
    }
}

/// A pulse that is not zero has a coded sign.
proof fn lemma_pulses_have_signs(w: WrittenFrame, i: int)
    requires
        w.ok(),
        0 <= i < w.frame_length,
        w.pulses[i] != 0,
    ensures
        w.signs().coded(i),
{
    let b = i / 16;
    lemma_frame_parts(w);
    assert(0 <= w.counts()[b] <= 16 && 0 <= w.extra[b] <= 10);
    if w.extra[b] == 0 {
        lemma2_to64();
        assert(w.samples()[i] == w.magnitudes()[i]) by {
            assert(w.magnitudes()[i] / 1 == w.magnitudes()[i]);
        }
        let v = block_of(w.samples(), b);
        assert(v[i - 16 * b] == w.samples()[i]);
        if total_of(v) <= 0 {
            lemma_none_without_total(v, i - 16 * b);
        }
    }
}

proof fn lemma_frame_items_ok(w: WrittenFrame)
    requires
        w.ok(),
    ensures
        items_ok(w.items()),
{
    let n = w.blocks() as nat;
    let rate = seq![table_item(rate_table(w.signal_type), w.level)];
    let counts = counts_items(w.level, w.counts(), w.extra, n);
    let blocks = blocks_items(w.samples(), n);
    let bits = extended_items(w.magnitudes(), w.extra, 16 * n);
    let signs = signs_items(w.signs(), w.pulses, w.frame_length as nat);
    lemma_frame_parts(w);
    lemma_rates_fall(w.signal_type);
    lemma_table_item(rate_table(w.signal_type), w.level);
    lemma_counts_items_ok(w.level, w.counts(), w.extra, n);
    lemma_blocks_items_ok(w.samples(), n);
    lemma_extended_items_ok(w.magnitudes(), w.extra, 16 * n);
    lemma_signs_items_ok(w.signs(), w.pulses, w.frame_length as nat);
    lemma_items_ok_joined(rate, counts);
    lemma_items_ok_joined(rate + counts, blocks);
    lemma_items_ok_joined(rate + counts + blocks, bits);
    lemma_items_ok_joined(rate + counts + blocks + bits, signs);
}

/// The pulses that a decoder gives where it is about to read a frame.
pub open spec fn frame_read(w: WrittenFrame, d: DecState) -> bool {
    let f = pulse_frame(d, w.signal_type, w.offset_type, w.frame_length);
    &&& forall|i: int|
        0 <= i < w.frame_length ==> #[trigger] signed_pulse(
            f.before_signs,
            f.signs,
            f.magnitudes,
            i,
        ) == w.pulses[i]
    &&& f.magnitudes.len() == 16 * w.blocks()
    &&& forall|i: int|
        w.frame_length <= i < f.magnitudes.len() ==> #[trigger] f.magnitudes[i] == 0
}

/// The decoder behind a frame.
pub open spec fn frame_next(w: WrittenFrame, d: DecState) -> DecState {
    let f = pulse_frame(d, w.signal_type, w.offset_type, w.frame_length);
    signs_read(f.before_signs, f.signs, f.magnitudes, w.frame_length as nat)
}

/// The parts of a frame, where the decoder is at `s1` before the pulses of blocks,
/// at `s2` before the splits, and at `s3` before the extra bits.
proof fn lemma_frame_is(
    d: DecState,
    signal_type: int,
    offset_type: int,
    frame_length: int,
    counts: Seq<int>,
    extra: Seq<int>,
    samples: Seq<int>,
    magnitudes: Seq<int>,
)
    requires
        ({
            let n = shell_blocks(frame_length);
            let t = ints_of_u8(rate_table(signal_type));
            let level = dec_icdf_symbol(d, t, 8);
            let s1 = dec_icdf_next(d, t, 8);
            let s2 = counts_next(s1, level, n as nat);
            let s3 = shells_next(s2, counts, n as nat);
            &&& 0 < frame_length
            &&& counts.len() == n
            &&& extra.len() == n
            &&& samples.len() == 16 * n
            &&& magnitudes.len() == 16 * n
            &&& forall|b: int|
                0 <= b < n ==> (#[trigger] count_of(s1, level, b)).pulses == counts[b]
            &&& forall|b: int| 0 <= b < n ==> (#[trigger] count_of(s1, level, b)).extra == extra[b]
            &&& forall|i: int|
                0 <= i < 16 * n ==> #[trigger] shell_sample(s2, counts, i) == samples[i]
            &&& forall|i: int|
                0 <= i < 16 * n ==> #[trigger] magnitude(s3, samples, extra, i) == magnitudes[i]
        }),
    ensures
        ({
            let n = shell_blocks(frame_length);
            let t = ints_of_u8(rate_table(signal_type));
            let level = dec_icdf_symbol(d, t, 8);
            let s2 = counts_next(dec_icdf_next(d, t, 8), level, n as nat);
            let s3 = shells_next(s2, counts, n as nat);
            let f = pulse_frame(d, signal_type, offset_type, frame_length);
            &&& f.before_signs == bits_next(s3, samples, extra, (16 * n) as nat)
            &&& f.signs.signal_type == signal_type
            &&& f.signs.offset_type == offset_type
            &&& f.signs.blocks == sign_blocks(frame_length)
            &&& f.signs.sums == Seq::new(n as nat, |b: int| (counts[b] + 32 * extra[b]) as i32)
            &&& f.magnitudes == Seq::new((16 * n) as nat, |i: int| magnitudes[i] as i16)
        }),
{
    reveal(pulse_frame);
    let f = pulse_frame(d, signal_type, offset_type, frame_length);
    assert(f.counts =~= counts);
    assert(f.extra =~= extra);
    assert(f.samples =~= samples);
    assert(f.signs.sums =~= Seq::new(
        shell_blocks(frame_length) as nat,
        |b: int| (counts[b] + 32 * extra[b]) as i32,
    ));
    assert(f.magnitudes =~= Seq::new(
        (16 * shell_blocks(frame_length)) as nat,
        |i: int| magnitudes[i] as i16,
    ));
}

proof fn lemma_gives_parts(
    d: DecState,
    a: Seq<CodedItem>,
    b: Seq<CodedItem>,
    c: Seq<CodedItem>,
    e: Seq<CodedItem>,
    g: Seq<CodedItem>,
)
    requires
        gives(d, a + b + c + e + g),
    ensures
        ({
            let s1 = dec_after(d, a);
            let s2 = dec_after(s1, b);
            let s3 = dec_after(s2, c);
            let s4 = dec_after(s3, e);
            &&& gives(d, a)
            &&& gives(s1, b)
            &&& gives(s2, c)
            &&& gives(s3, e)
            &&& gives(s4, g)
            &&& dec_after(d, a + b + c + e + g) == dec_after(s4, g)
        }),
{
    lemma_gives_joined(d, a + b + c + e, g);
    lemma_gives_joined(d, a + b + c, e);
    lemma_gives_joined(d, a + b, c);
    lemma_gives_joined(d, a, b);
}

proof fn lemma_frame_reads(w: WrittenFrame, d: DecState)
    requires
        w.ok(),
        gives(d, w.items()),
    ensures
        frame_read(w, d),
        frame_next(w, d) == dec_after(d, w.items()),
{
    let n = w.blocks() as nat;
    let (counts, extra, samples, magnitudes) = (w.counts(), w.extra, w.samples(), w.magnitudes());
    let rate = table_item(rate_table(w.signal_type), w.level);
    let count_part = counts_items(w.level, counts, extra, n);
    let block_part = blocks_items(samples, n);
    let bit_part = extended_items(magnitudes, extra, 16 * n);
    let sign_part = signs_items(w.signs(), w.pulses, w.frame_length as nat);
    lemma_frame_parts(w);
    lemma_gives_parts(d, seq![rate], count_part, block_part, bit_part, sign_part);
    lemma_gives_one(d, rate);
    let s1 = dec_item_next(d, rate);
    let s2 = dec_after(s1, count_part);
    let s3 = dec_after(s2, block_part);
    let s4 = dec_after(s3, bit_part);
    lemma_counts_read(s1, w.level, counts, extra, n);
    lemma_blocks_read(s2, samples, counts, n);
    lemma_extended_read_back(s3, samples, magnitudes, extra, 16 * n);
    lemma_frame_is(
        d,
        w.signal_type,
        w.offset_type,
        w.frame_length,
        counts,
        extra,
        samples,
        magnitudes,
    );
    lemma_frame_signs(w, d, s4);
}

proof fn lemma_frame_signs(w: WrittenFrame, d: DecState, s4: DecState)
    requires
        w.ok(),
        ({
            let f = pulse_frame(d, w.signal_type, w.offset_type, w.frame_length);
            &&& f.before_signs == s4
            &&& f.signs == w.signs()
            &&& f.magnitudes == Seq::new(
                (16 * w.blocks()) as nat,
                |i: int| w.magnitudes()[i] as i16,
            )
        }),
        gives(s4, signs_items(w.signs(), w.pulses, w.frame_length as nat)),
    ensures
        frame_read(w, d),
        frame_next(w, d) == dec_after(
            s4,
            signs_items(w.signs(), w.pulses, w.frame_length as nat),
        ),
{
    let f = pulse_frame(d, w.signal_type, w.offset_type, w.frame_length);
    assert forall|i: int| 0 <= i < w.frame_length && w.pulses[i] != 0 implies #[trigger] w.signs()
        .coded(i) by {
        lemma_pulses_have_signs(w, i);
    }
    assert forall|i: int| 0 <= i < w.frame_length implies #[trigger] f.magnitudes[i]
        == size_of_pulse(w.pulses[i]) by {
        assert(w.magnitudes()[i] == size_of_pulse(w.pulses[i]));
    }
    lemma_signs_read_back(s4, w.signs(), w.pulses, f.magnitudes, w.frame_length as nat);
}

proof fn lemma_dec_items_after(buf: Seq<u8>, items: Seq<CodedItem>, k: nat, m: nat)
    requires
        k <= m <= items.len(),
    ensures
        dec_after(dec_items(buf, items, k), items.subrange(k as int, m as int)) == dec_items(
            buf,
            items,
            m,
        ),
    decreases m - k,
{
    let part = items.subrange(k as int, m as int);
    if k < m {
        assert(part[0] == items[k as int]);
        assert(part.skip(1) =~= items.subrange((k + 1) as int, m as int));
        assert(dec_items(buf, items, k + 1) == dec_item_next(
            dec_items(buf, items, k),
            items[k as int],
        ));
        lemma_dec_items_after(buf, items, k + 1, m);
    }
}

/// Reading a frame of pulses gives back the pulses that were written, at whatever
/// rate level and with whatever extra bits; samples behind the frame are zero. It
/// may stand anywhere in a stream, and what stands behind it is read next.
pub proof fn law_pulses_round_trip(
    before: Seq<CodedItem>,
    w: WrittenFrame,
    behind: Seq<CodedItem>,
)
    requires
        items_ok(before),
        w.ok(),
        items_ok(behind),
    ensures
        ({
            let items = before + w.items() + behind;
            let buf = enc_stream(enc_items(items));
            let d = dec_items(buf, items, before.len());
            &&& frame_read(w, d)
            &&& frame_next(w, d) == dec_items(buf, items, before.len() + w.items().len())
        }),
{
    let own = w.items();
    let items = before + own + behind;
    let buf = enc_stream(enc_items(items));
    let from = before.len();
    let to = from + own.len();
    lemma_frame_items_ok(w);
    lemma_items_ok_joined(before, own);
    lemma_items_ok_joined(before + own, behind);
    lemma_stream_gives(items, from, to);
    assert(items.subrange(from as int, to as int) =~= own);
    lemma_frame_reads(w, dec_items(buf, items, from));
    lemma_dec_items_after(buf, items, from, to);
}

/// Every frame of pulses can be written, at every rate level: with seven extra
/// bits no sample has more than one pulse left.
pub proof fn law_pulses_can_be_written(w: WrittenFrame)
    requires
        0 <= w.signal_type <= 2,
        0 <= w.offset_type <= 1,
        0 < w.frame_length <= MAX_FRAME_LENGTH,
        sign_blocks(w.frame_length) == w.blocks(),
        w.frame_length <= w.pulses.len(),
        0 <= w.level < 9,
        w.extra == Seq::new(w.blocks() as nat, |b: int| 7int),
    ensures
        w.ok(),
{
    lemma2_to64();
    assert forall|b: int| 0 <= b < w.blocks() implies #[trigger] w.counts()[b] <= 16 by {
        let v = block_of(w.samples(), b);
        assert forall|i: int| 0 <= i < v.len() implies #[trigger] v[i] <= 1 by {
            let at = 16 * b + i;
            assert(at / 16 == b);
            assert(v[i] == shortened(w.magnitudes()[at], w.extra[b]));
            let m = w.magnitudes()[at];
            assert(0 <= m <= 128);
            assert(w.extra[b] == 7 && pow2(7) == 128);
            assert(m / 128 <= 1) by (nonlinear_arith)
                requires
                    m <= 128,
            ;
        }
        lemma_total_of_ones(v);
    }
}

proof fn lemma_total_of_ones(v: Seq<int>)
    requires
        forall|i: int| 0 <= i < v.len() ==> #[trigger] v[i] <= 1,
    ensures
        total_of(v) <= v.len(),
    decreases v.len(),
{
    if v.len() > 0 {
        lemma_total_of_ones(v.drop_last());
    }
}

} // verus!
