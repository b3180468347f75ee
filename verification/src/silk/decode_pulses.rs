//! Excitation pulses of a frame.

use crate::range::{
    dec_icdf_next, dec_icdf_symbol, dec_inside, icdf_ok, ints_of_u8, DecState, RangeDecoder,
};
use crate::silk::code_signs::{sign_blocks, signed_pulse, signs_read, silk_decode_signs, SignModel};
use crate::silk::shell_coder::{lemma_u8_table, shell_next, shell_pulses, silk_shell_decoder};
use crate::silk::tables_other::SILK_LSB_ICDF;
use crate::silk::tables_pulses_per_block::{SILK_PULSES_PER_BLOCK_ICDF, SILK_RATE_LEVELS_ICDF};
use vstd::prelude::*;

verus! {

/// Stands for pulses that take more bits.
pub const ESCAPE_PULSES: usize = 17;

/// Most bits that pulses are extended by.
pub const MAX_LSB_COUNT: usize = 10;

/// Samples of a frame.
pub const MAX_FRAME_LENGTH: usize = 320;

/// Blocks that hold all samples.
pub open spec fn shell_blocks(frame_length: int) -> int {
    (frame_length + 15) / 16
}

/// Rate level of a frame.
pub open spec fn rate_table(signal_type: int) -> Seq<u8> {
    SILK_RATE_LEVELS_ICDF[if signal_type >= 2 {
        1
    } else {
        0
    }]@
}

/// The table for pulses with `extra` bits: with the most, no further ones.
pub open spec fn escape_table(extra: int) -> Seq<u8> {
    if extra == MAX_LSB_COUNT {
        SILK_PULSES_PER_BLOCK_ICDF[9]@.subrange(1, 18)
    } else {
        SILK_PULSES_PER_BLOCK_ICDF[9]@
    }
}

/// A number of pulses, the bits they are extended by, and the decoder after
/// them.
pub struct BlockCount {
    pub pulses: int,
    pub extra: int,
    pub next: DecState,
}

/// A count after `extra` escapes.
pub open spec fn escaped_count(s: DecState, extra: int) -> BlockCount
    decreases 10 - extra,
{
    let t = ints_of_u8(escape_table(extra));
    let k = dec_icdf_symbol(s, t, 8);
    let s1 = dec_icdf_next(s, t, 8);
    if k == ESCAPE_PULSES && extra < MAX_LSB_COUNT {
        escaped_count(s1, extra + 1)
    } else {
        BlockCount { pulses: k, extra, next: s1 }
    }
}

/// The pulses of a block at a rate level.
pub open spec fn block_pulses(s: DecState, level: int) -> BlockCount {
    let t = ints_of_u8(SILK_PULSES_PER_BLOCK_ICDF[level]@);
    let k = dec_icdf_symbol(s, t, 8);
    let s1 = dec_icdf_next(s, t, 8);
    if k == ESCAPE_PULSES {
        escaped_count(s1, 1)
    } else {
        BlockCount { pulses: k, extra: 0, next: s1 }
    }
}

/// The decoder once the counts of `b` blocks are read.
pub open spec fn counts_next(s: DecState, level: int, b: nat) -> DecState
    decreases b,
{
    if b == 0 {
        s
    } else {
        block_pulses(counts_next(s, level, (b - 1) as nat), level).next
    }
}

/// The count of block `b`.
pub open spec fn count_of(s: DecState, level: int, b: int) -> BlockCount {
    block_pulses(counts_next(s, level, b as nat), level)
}

/// The decoder once the pulses of `b` blocks are split.
pub open spec fn shells_next(s: DecState, counts: Seq<int>, b: nat) -> DecState
    decreases b,
{
    if b == 0 {
        s
    } else {
        let before = shells_next(s, counts, (b - 1) as nat);
        if counts[b - 1] > 0 {
            shell_next(before, 4, counts[b - 1])
        } else {
            before
        }
    }
}

/// The pulses of sample `i`, without the extra bits.
pub open spec fn shell_sample(s: DecState, counts: Seq<int>, i: int) -> int {
    let b = i / 16;
    if counts[b] > 0 {
        shell_pulses(shells_next(s, counts, b as nat), 4, counts[b])[i % 16]
    } else {
        0
    }
}

/// `v` extended by `bits` bits.
pub open spec fn with_bits(s: DecState, v: int, bits: nat) -> (int, DecState)
    decreases bits,
{
    if bits == 0 {
        (v, s)
    } else {
        let t = ints_of_u8(SILK_LSB_ICDF@);
        with_bits(
            dec_icdf_next(s, t, 8),
            2 * v + dec_icdf_symbol(s, t, 8),
            (bits - 1) as nat,
        )
    }
}

/// The decoder once the first `i` samples are extended.
pub open spec fn bits_next(s: DecState, samples: Seq<int>, extra: Seq<int>, i: nat) -> DecState
    decreases i,
{
    if i == 0 {
        s
    } else {
        with_bits(
            bits_next(s, samples, extra, (i - 1) as nat),
            samples[i - 1],
            extra[(i - 1) / 16] as nat,
        ).1
    }
}

/// The magnitude of sample `i`.
pub open spec fn magnitude(s: DecState, samples: Seq<int>, extra: Seq<int>, i: int) -> int {
    with_bits(bits_next(s, samples, extra, i as nat), samples[i], extra[i / 16] as nat).0
}

/// The parts of a coded frame of pulses.
pub struct PulseFrame {
    pub counts: Seq<int>,
    pub extra: Seq<int>,
    /// Samples without the extra bits.
    pub samples: Seq<int>,
    pub magnitudes: Seq<i16>,
    pub signs: SignModel,
    /// The decoder before the signs.
    pub before_signs: DecState,
}

/// The frame that a decoder is about to read.
#[verifier::opaque]
pub open spec fn pulse_frame(
    s: DecState,
    signal_type: int,
    offset_type: int,
    frame_length: int,
) -> PulseFrame {
    let blocks = shell_blocks(frame_length);
    let t = ints_of_u8(rate_table(signal_type));
    let level = dec_icdf_symbol(s, t, 8);
    let s1 = dec_icdf_next(s, t, 8);
    let counts = Seq::new(blocks as nat, |b: int| count_of(s1, level, b).pulses);
    let extra = Seq::new(blocks as nat, |b: int| count_of(s1, level, b).extra);
    let s2 = counts_next(s1, level, blocks as nat);
    let samples = Seq::new((16 * blocks) as nat, |i: int| shell_sample(s2, counts, i));
    let s3 = shells_next(s2, counts, blocks as nat);
    PulseFrame {
        counts,
        extra,
        samples,
        magnitudes: Seq::new(
            (16 * blocks) as nat,
            |i: int| magnitude(s3, samples, extra, i) as i16,
        ),
        signs: SignModel {
            signal_type,
            offset_type,
            sums: Seq::new(blocks as nat, |b: int| (counts[b] + 32 * extra[b]) as i32),
            blocks: sign_blocks(frame_length),
        },
        before_signs: bits_next(s3, samples, extra, (16 * blocks) as nat),
    }
}

proof fn lemma_rate_tables()
    ensures
        forall|k: int|
            0 <= k < 2 ==> (#[trigger] SILK_RATE_LEVELS_ICDF[k])@.len() == 9
                && SILK_RATE_LEVELS_ICDF[k]@.last() == 0,
{
    assert(SILK_RATE_LEVELS_ICDF[0]@.last() == 0);
    assert(SILK_RATE_LEVELS_ICDF[1]@.last() == 0);
}

pub proof fn lemma_count_table(level: int)
    requires
        0 <= level < 10,
    ensures
        SILK_PULSES_PER_BLOCK_ICDF[level]@.len() == 18,
        SILK_PULSES_PER_BLOCK_ICDF[level]@.last() == 0,
{
    assert(SILK_PULSES_PER_BLOCK_ICDF[0]@.last() == 0);
    assert(SILK_PULSES_PER_BLOCK_ICDF[1]@.last() == 0);
    assert(SILK_PULSES_PER_BLOCK_ICDF[2]@.last() == 0);
    assert(SILK_PULSES_PER_BLOCK_ICDF[3]@.last() == 0);
    assert(SILK_PULSES_PER_BLOCK_ICDF[4]@.last() == 0);
    assert(SILK_PULSES_PER_BLOCK_ICDF[5]@.last() == 0);
    assert(SILK_PULSES_PER_BLOCK_ICDF[6]@.last() == 0);
    assert(SILK_PULSES_PER_BLOCK_ICDF[7]@.last() == 0);
    assert(SILK_PULSES_PER_BLOCK_ICDF[8]@.last() == 0);
    assert(SILK_PULSES_PER_BLOCK_ICDF[9]@.last() == 0);
}

/// Reads the pulses of a block.
fn read_count(decoder: &mut RangeDecoder, level: usize) -> (r: (i32, u8))
    requires
        old(decoder).wf(),
        dec_inside(old(decoder)@),
        level < 10,
    ensures
        final(decoder).wf(),
        dec_inside(final(decoder)@),
        (BlockCount { pulses: r.0 as int, extra: r.1 as int, next: final(decoder)@ })
            == block_pulses(old(decoder)@, level as int),
        0 <= r.0 <= 16,
        r.1 <= 10,
{
    proof {
        lemma_count_table(level as int);
        lemma_count_table(9);
        lemma_u8_table(SILK_PULSES_PER_BLOCK_ICDF[level as int]@);
        lemma_u8_table(escape_table(0));
        lemma_u8_table(escape_table(10));
    }
    let ghost whole = block_pulses(decoder@, level as int);
    let mut sum: usize = decoder.decode_icdf(&SILK_PULSES_PER_BLOCK_ICDF[level], 8);
    let mut extra: u8 = 0;
    while sum == ESCAPE_PULSES
        invariant
            decoder.wf(),
            dec_inside(decoder@),
            extra <= 10,
            sum <= 17,
            extra == 10 ==> sum < 17,
            icdf_ok(ints_of_u8(escape_table(0)), 8),
            icdf_ok(ints_of_u8(escape_table(10)), 8),
            escape_table(0).len() == 18,
            if sum == ESCAPE_PULSES {
                whole == escaped_count(decoder@, extra + 1)
            } else {
                whole == (BlockCount { pulses: sum as int, extra: extra as int, next: decoder@ })
            },
        decreases 10 - extra,
    {
        extra = extra + 1;
        if extra as usize == MAX_LSB_COUNT {
            sum = decoder.decode_icdf(&SILK_PULSES_PER_BLOCK_ICDF[9][1..18], 8);
        } else {
            assert(escape_table(extra as int) == escape_table(0));
            sum = decoder.decode_icdf(&SILK_PULSES_PER_BLOCK_ICDF[9], 8);
        }
    }
    (sum as i32, extra)
}

/// Reads the extra bits of a sample.
pub(crate) fn read_bits(decoder: &mut RangeDecoder, v: i16, bits: u8) -> (r: i16)
    requires
        old(decoder).wf(),
        dec_inside(old(decoder)@),
        0 <= v <= 16,
        bits <= 10,
    ensures
        final(decoder).wf(),
        dec_inside(final(decoder)@),
        (r as int, final(decoder)@) == with_bits(old(decoder)@, v as int, bits as nat),
        0 <= r,
{
    let ghost whole = with_bits(decoder@, v as int, bits as nat);
    let mut value: i32 = v as i32;
    let mut left: u8 = bits;
    proof {
        lemma_u8_table(SILK_LSB_ICDF@);
        vstd::arithmetic::power2::lemma2_to64();
    }
    while left > 0
        invariant
            decoder.wf(),
            dec_inside(decoder@),
            left <= bits <= 10,
            icdf_ok(ints_of_u8(SILK_LSB_ICDF@), 8),
            0 <= value < 17 * vstd::arithmetic::power2::pow2((bits - left) as nat),
            whole == with_bits(decoder@, value as int, left as nat),
        decreases left,
    {
        let bit: usize = decoder.decode_icdf(&SILK_LSB_ICDF, 8);
        proof {
            vstd::arithmetic::power2::lemma_pow2_unfold((bits - left + 1) as nat);
            if bits - left < 10 {
                vstd::arithmetic::power2::lemma_pow2_strictly_increases((bits - left) as nat, 10);
            }
            vstd::arithmetic::power2::lemma2_to64();
        }
        value = 2 * value + bit as i32;
        left = left - 1;
    }
    proof {
        vstd::arithmetic::power2::lemma2_to64();
        if bits < 10 {
            vstd::arithmetic::power2::lemma_pow2_strictly_increases(bits as nat, 10);
        }
    }
    value as i16
}

/// Reads the pulses of a frame into `pulses`, which also takes the padding of
/// the last block.
pub fn silk_decode_pulses(
    decoder: &mut RangeDecoder,
    pulses: &mut [i16],
    signal_type: i32,
    quant_offset_type: i32,
    frame_length: usize,
)
    requires
        old(decoder).wf(),
        dec_inside(old(decoder)@),
        0 < frame_length <= MAX_FRAME_LENGTH,
        0 <= quant_offset_type <= 1,
        0 <= signal_type <= 2,
        16 * shell_blocks(frame_length as int) <= old(pulses)@.len(),
    ensures
        ({
            let f = pulse_frame(
                old(decoder)@,
                signal_type as int,
                quant_offset_type as int,
                frame_length as int,
            );
            &&& final(decoder).wf()
            &&& dec_inside(final(decoder)@)
            &&& final(decoder)@ == signs_read(
                f.before_signs,
                f.signs,
                f.magnitudes,
                frame_length as nat,
            )
            &&& final(pulses)@.len() == old(pulses)@.len()
            &&& forall|i: int|
                0 <= i < old(pulses)@.len() ==> #[trigger] final(pulses)@[i] == if i
                    < frame_length {
                    signed_pulse(f.before_signs, f.signs, f.magnitudes, i)
                } else if i < f.magnitudes.len() {
                    f.magnitudes[i] as int
                } else {
                    old(pulses)@[i] as int
                }
        }),
{
    let blocks: usize = (frame_length + 15) / 16;
    reveal(pulse_frame);
    let ghost f = pulse_frame(
        decoder@,
        signal_type as int,
        quant_offset_type as int,
        frame_length as int,
    );
    let ghost t = ints_of_u8(rate_table(signal_type as int));
    let ghost s1 = dec_icdf_next(decoder@, t, 8);
    proof {
        lemma_rate_tables();
        lemma_u8_table(rate_table(signal_type as int));
    }
    let row: usize = if signal_type >= 2 {
        1
    } else {
        0
    };
    let level: usize = decoder.decode_icdf(&SILK_RATE_LEVELS_ICDF[row], 8);
    let mut sums: [i32; 20] = [0;20];
    let mut extra: [u8; 20] = [0;20];
    for b in 0..blocks
        invariant
            decoder.wf(),
            dec_inside(decoder@),
            level < 9,
            blocks <= 20,
            f.counts.len() == blocks,
            f.extra.len() == blocks,
            decoder@ == counts_next(s1, level as int, b as nat),
            f.counts == Seq::new(blocks as nat, |b: int| count_of(s1, level as int, b).pulses),
            f.extra == Seq::new(blocks as nat, |b: int| count_of(s1, level as int, b).extra),
            forall|j: int| 0 <= j < b ==> #[trigger] sums@[j] == f.counts[j],
            forall|j: int| 0 <= j < b ==> #[trigger] extra@[j] == f.extra[j],
            forall|j: int| 0 <= j < b ==> 0 <= #[trigger] sums@[j] <= 16,
            forall|j: int| 0 <= j < b ==> #[trigger] extra@[j] <= 10,
    {
        let (count, more) = read_count(decoder, level);
        sums[b] = count;
        extra[b] = more;
    }
    let ghost s2 = decoder@;
    for b in 0..blocks
        invariant
            decoder.wf(),
            dec_inside(decoder@),
            blocks <= 20,
            f.counts.len() == blocks,
            f.samples == Seq::new(
                (16 * blocks) as nat,
                |i: int| shell_sample(s2, f.counts, i),
            ),
            pulses@.len() == old(pulses)@.len() >= 16 * blocks,
            decoder@ == shells_next(s2, f.counts, b as nat),
            forall|j: int| 0 <= j < blocks ==> #[trigger] sums@[j] == f.counts[j],
            forall|j: int| 0 <= j < blocks ==> 0 <= #[trigger] sums@[j] <= 16,
            forall|i: int| 0 <= i < 16 * b ==> #[trigger] pulses@[i] == f.samples[i],
            forall|i: int| 0 <= i < 16 * b ==> 0 <= #[trigger] pulses@[i] <= 16,
            forall|i: int|
                16 * blocks <= i < pulses@.len() ==> #[trigger] pulses@[i] == old(pulses)@[i],
    {
        let ghost before = pulses@;
        let start: usize = 16 * b;
        if sums[b] > 0 {
            let ghost sb = decoder@;
            silk_shell_decoder(decoder, pulses, start, sums[b]);
            assert forall|i: int| 0 <= i < 16 * (b + 1) implies #[trigger] pulses@[i]
                == f.samples[i] && 0 <= pulses@[i] <= 16 by {
                if i < 16 * b {
                    assert(before[i] == f.samples[i]);
                } else {
                    assert(i / 16 == b && i % 16 == i - start);
                    assert(0 <= shell_pulses(sb, 4, sums@[b as int] as int)[i - start] <= 16);
                }
            }
        } else {
            for i in start..start + 16
                invariant
                    start == 16 * b,
                    b < blocks <= 20,
                    pulses@.len() == old(pulses)@.len() >= 16 * blocks,
                    forall|j: int| 0 <= j < start ==> #[trigger] pulses@[j] == before[j],
                    forall|j: int| start <= j < i ==> #[trigger] pulses@[j] == 0,
                    forall|j: int|
                        16 * blocks <= j < pulses@.len() ==> #[trigger] pulses@[j] == old(
                            pulses,
                        )@[j],
            {
                pulses[i] = 0;
            }
            assert forall|i: int| 0 <= i < 16 * (b + 1) implies #[trigger] pulses@[i]
                == f.samples[i] && 0 <= pulses@[i] <= 16 by {
                if i < 16 * b {
                    assert(pulses@[i] == before[i]);
                    assert(before[i] == f.samples[i]);
                } else {
                    assert(i / 16 == b);
                }
            }
        }
    }
    let ghost s3 = decoder@;
    for i in 0..16 * blocks
        invariant
            decoder.wf(),
            dec_inside(decoder@),
            blocks <= 20,
            f.extra.len() == blocks,
            f.samples.len() == 16 * blocks,
            f.magnitudes == Seq::new(
                (16 * blocks) as nat,
                |i: int| magnitude(s3, f.samples, f.extra, i) as i16,
            ),
            pulses@.len() == old(pulses)@.len() >= 16 * blocks,
            decoder@ == bits_next(s3, f.samples, f.extra, i as nat),
            forall|j: int| 0 <= j < blocks ==> #[trigger] extra@[j] == f.extra[j],
            forall|j: int| 0 <= j < blocks ==> #[trigger] extra@[j] <= 10,
            forall|j: int| 0 <= j < i ==> #[trigger] pulses@[j] == f.magnitudes[j],
            forall|j: int| i <= j < 16 * blocks ==> #[trigger] pulses@[j] == f.samples[j],
            forall|j: int| i <= j < 16 * blocks ==> 0 <= #[trigger] pulses@[j] <= 16,
            forall|j: int|
                16 * blocks <= j < pulses@.len() ==> #[trigger] pulses@[j] == old(pulses)@[j],
    {
        assert(extra@[i as int / 16] == f.extra[i as int / 16]);
        let v: i16 = read_bits(decoder, pulses[i], extra[i / 16]);
        assert(v == magnitude(s3, f.samples, f.extra, i as int));
        pulses[i] = v;
    }
    for b in 0..blocks
        invariant
            blocks <= 20,
            f.counts.len() == blocks,
            f.extra.len() == blocks,
            forall|j: int| 0 <= j < blocks ==> #[trigger] extra@[j] == f.extra[j],
            forall|j: int| 0 <= j < blocks ==> #[trigger] extra@[j] <= 10,
            forall|j: int|
                0 <= j < b ==> #[trigger] sums@[j] == f.counts[j] + 32 * f.extra[j] && sums@[j]
                    >= 0,
            forall|j: int| b <= j < blocks ==> #[trigger] sums@[j] == f.counts[j],
            forall|j: int| b <= j < blocks ==> 0 <= #[trigger] sums@[j] <= 16,
    {
        sums[b] = sums[b] + 32 * extra[b] as i32;
    }
    assert(sums@.subrange(0, blocks as int) =~= f.signs.sums);
    let ghost mags = pulses@;
    proof {
        lemma_signs_prefix(decoder@, f.signs, mags, f.magnitudes, frame_length as nat);
        assert forall|i: int| 0 <= i < frame_length implies #[trigger] signed_pulse(
            decoder@,
            f.signs,
            mags,
            i,
        ) == signed_pulse(decoder@, f.signs, f.magnitudes, i) by {
            lemma_signs_prefix(decoder@, f.signs, mags, f.magnitudes, i as nat);
        }
    }
    silk_decode_signs(
        decoder,
        pulses,
        frame_length,
        signal_type,
        quant_offset_type,
        &sums[0..blocks],
    );
}

/// Signs depend only on the samples before them.
proof fn lemma_signs_prefix(s: DecState, m: SignModel, a: Seq<i16>, b: Seq<i16>, i: nat)
    requires
        i <= a.len(),
        i <= b.len(),
        forall|j: int| 0 <= j < i ==> #[trigger] a[j] == b[j],
    ensures
        signs_read(s, m, a, i) == signs_read(s, m, b, i),
    decreases i,
{
    if i > 0 {
        lemma_signs_prefix(s, m, a, b, (i - 1) as nat);
        assert(a[i - 1] == b[i - 1]);
    }
}

} // verus!
