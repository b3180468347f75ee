//! Pitch, long-term predictor and excitation of a mono 20 ms frame.
use crate::packet::Bandwidth;
use crate::range::{dec_inside, DecState, RangeDecoder};
use crate::silk::code_signs::{sign_blocks, signed_pulse, signs_read, silk_decode_signs, SignModel};
use crate::silk::decode_indices::{lag_read, ltp_gain_table, ltp_next, nxt, read, sym};
use crate::silk::decode_parameters::ltp_tap;
use crate::silk::decode_pitch::{pitch_lag, silk_decode_pitch};
use crate::silk::decode_pulses::{
    bits_next, lemma_count_table, magnitude, read_bits, shell_sample, shells_next,
};
use crate::silk::decoder::{
    is_speech, khz_of, DecodePitchLagsError, Decoder, ExcitationQ23, PitchLagInfo,
    ShellBlockCounts,
};
use crate::silk::decoder_set_fs::{contour_table, low_bits_table};
use crate::silk::shell_coder::{shell_pulses, silk_shell_decoder};
use crate::silk::tables_ltp::{
    SILK_LTP_GAIN_ICDF_0, SILK_LTP_GAIN_ICDF_1, SILK_LTP_GAIN_ICDF_2, SILK_LTP_GAIN_VQ_0,
    SILK_LTP_GAIN_VQ_1, SILK_LTP_GAIN_VQ_2, SILK_LTP_PER_INDEX_ICDF,
};
use crate::silk::tables_other::{
    SILK_LTPSCALE_ICDF, SILK_UNIFORM4_ICDF, SILK_UNIFORM6_ICDF, SILK_UNIFORM8_ICDF,
};
use crate::silk::tables_pitch_lag::{PITCH_CONTOUR_ICDF, PITCH_CONTOUR_NB_ICDF, PITCH_LAG_ICDF};
use crate::silk::tables_pulses_per_block::{SILK_PULSES_PER_BLOCK_ICDF, SILK_RATE_LEVELS_ICDF};
use crate::silk::types::{FrameQuantizationOffsetType, FrameSignalType};
use vstd::prelude::*;

verus! {

// ---------------------------------------------------------------------
// Pitch
// ---------------------------------------------------------------------

/// The decoder behind the lags of a frame.
pub open spec fn lags_next(s: DecState, b: Bandwidth) -> DecState {
    nxt(
        lag_read(s, khz_of(b), low_bits_table(khz_of(b)), false, 0).1,
        contour_table(khz_of(b), 4),
    )
}

/// The lag of subframe `k` that a decoder is about to read.
pub open spec fn lag_of_subframe(s: DecState, b: Bandwidth, k: int) -> int {
    let (lag, s1) = lag_read(s, khz_of(b), low_bits_table(khz_of(b)), false, 0);
    pitch_lag(lag, sym(s1, contour_table(khz_of(b), 4)), khz_of(b), 4, k)
}

/// Tap `t` of subframe `k` that a decoder is about to read (Q7).
pub open spec fn tap_read(s: DecState, k: int, t: int) -> int {
    let per = sym(s, SILK_LTP_PER_INDEX_ICDF@);
    let s1 = nxt(s, SILK_LTP_PER_INDEX_ICDF@);
    ltp_tap(per, sym(ltp_next(s1, per, k as nat), ltp_gain_table(per)), t)
}

/// The decoder behind the long-term predictors of a frame.
pub open spec fn taps_next(s: DecState) -> DecState {
    ltp_next(
        nxt(s, SILK_LTP_PER_INDEX_ICDF@),
        sym(s, SILK_LTP_PER_INDEX_ICDF@),
        4,
    )
}

/// The scale (Q14) of an index.
pub open spec fn ltp_scale(index: int) -> int {
    if index == 0 {
        15565
    } else if index == 1 {
        12288
    } else {
        8192
    }
}

impl Decoder {
    /// Reads the lags of a voiced frame.
    pub fn decode_pitch_lags(
        &mut self,
        range_decoder: &mut RangeDecoder,
        signal_type: FrameSignalType,
        bandwidth: Bandwidth,
    ) -> (r: Result<Option<PitchLagInfo>, DecodePitchLagsError>)
        requires
            old(range_decoder).wf(),
            dec_inside(old(range_decoder)@),
        ensures
            *final(self) == *old(self),
            final(range_decoder).wf(),
            dec_inside(final(range_decoder)@),
            if signal_type != FrameSignalType::Voiced {
                r == Ok::<Option<PitchLagInfo>, DecodePitchLagsError>(None) && final(
                    range_decoder)@ == old(range_decoder)@
            } else if !is_speech(bandwidth) {
                r == Err::<Option<PitchLagInfo>, DecodePitchLagsError>(
                    DecodePitchLagsError::UnsupportedBandwidth,
                ) && final(range_decoder)@ == old(range_decoder)@
            } else {
                &&& r is Ok && r->Ok_0 is Some
                &&& r->Ok_0->0.lag_max == 18 * khz_of(bandwidth)
                &&& forall|k: int|
                    0 <= k < 4 ==> #[trigger] r->Ok_0->0.pitch_lags[k] == lag_of_subframe(
                        old(range_decoder)@,
                        bandwidth,
                        k,
                    )
                &&& final(range_decoder)@ == lags_next(old(range_decoder)@, bandwidth)
            },
    {
        match signal_type {
            FrameSignalType::Voiced => {},
            _ => return Ok(None),
        }
        assert(PITCH_LAG_ICDF@.last() == 0);
        assert(SILK_UNIFORM4_ICDF@.last() == 0);
        assert(SILK_UNIFORM6_ICDF@.last() == 0);
        assert(SILK_UNIFORM8_ICDF@.last() == 0);
        assert(PITCH_CONTOUR_ICDF@.last() == 0);
        assert(PITCH_CONTOUR_NB_ICDF@.last() == 0);
        let (low_icdf, contour_icdf, fs_khz): (&'static [u8], &'static [u8], i32) = match bandwidth {
            Bandwidth::Narrow => (&SILK_UNIFORM4_ICDF, &PITCH_CONTOUR_NB_ICDF, 8),
            Bandwidth::Medium => (&SILK_UNIFORM6_ICDF, &PITCH_CONTOUR_ICDF, 12),
            Bandwidth::Wide => (&SILK_UNIFORM8_ICDF, &PITCH_CONTOUR_ICDF, 16),
            _ => return Err(DecodePitchLagsError::UnsupportedBandwidth),
        };
        let high: i32 = read(range_decoder, &PITCH_LAG_ICDF) as i32;
        let low: i32 = read(range_decoder, low_icdf) as i32;
        assert(high * (fs_khz as int / 2) <= 31 * 8) by (nonlinear_arith)
            requires
                0 <= high <= 31,
                0 <= fs_khz as int / 2 <= 8,
        ;
        assert(0 <= high * (fs_khz as int / 2)) by (nonlinear_arith)
            requires
                0 <= high,
                0 <= fs_khz as int / 2,
        ;
        let lag: i16 = (high * (fs_khz / 2) + low) as i16;
        let contour: i8 = read(range_decoder, contour_icdf) as i8;
        let mut pitch_lags: [i32; 4] = [0;4];
        silk_decode_pitch(lag, contour, &mut pitch_lags, fs_khz, 4);
        Ok(Some(PitchLagInfo { lag_max: 18 * fs_khz as u32, pitch_lags }))
    }

    /// Reads the long-term predictors (Q7) of a voiced frame.
    pub fn decode_ltp_filter_coefficients(
        &mut self,
        range_decoder: &mut RangeDecoder,
        signal_type: FrameSignalType,
    ) -> (r: Option<[[i8; 5]; 4]>)
        requires
            old(range_decoder).wf(),
            dec_inside(old(range_decoder)@),
        ensures
            *final(self) == *old(self),
            final(range_decoder).wf(),
            dec_inside(final(range_decoder)@),
            if signal_type != FrameSignalType::Voiced {
                r is None && final(range_decoder)@ == old(range_decoder)@
            } else {
                &&& r is Some
                &&& forall|k: int, t: int|
                    0 <= k < 4 && 0 <= t < 5 ==> #[trigger] r->0[k][t] == tap_read(
                        old(range_decoder)@,
                        k,
                        t,
                    )
                &&& final(range_decoder)@ == taps_next(old(range_decoder)@)
            },
    {
        match signal_type {
            FrameSignalType::Voiced => {},
            _ => return None,
        }
        assert(SILK_LTP_PER_INDEX_ICDF@.last() == 0);
        let per: usize = read(range_decoder, &SILK_LTP_PER_INDEX_ICDF);
        let row0: [i8; 5] = read_taps(range_decoder, per);
        let row1: [i8; 5] = read_taps(range_decoder, per);
        let row2: [i8; 5] = read_taps(range_decoder, per);
        let row3: [i8; 5] = read_taps(range_decoder, per);
        let rows: [[i8; 5]; 4] = [row0, row1, row2, row3];
        proof {
            let s = old(range_decoder)@;
            let s1 = nxt(s, SILK_LTP_PER_INDEX_ICDF@);
            reveal_with_fuel(ltp_next, 5);
            assert forall|k: int, t: int| 0 <= k < 4 && 0 <= t < 5 implies #[trigger] rows[k][t]
                == tap_read(s, k, t) by {
                if k == 0 {
                    assert(rows[k] == row0);
                } else if k == 1 {
                    assert(rows[k] == row1);
                } else if k == 2 {
                    assert(rows[k] == row2);
                } else {
                    assert(rows[k] == row3);
                }
            }
        }
        Some(rows)
    }

    /// Reads the scale (Q14) of the long-term predictor's state.
    pub fn decode_ltp_scaling_parameter(
        &mut self,
        range_decoder: &mut RangeDecoder,
        signal_type: FrameSignalType,
    ) -> (r: i32)
        requires
            old(range_decoder).wf(),
            dec_inside(old(range_decoder)@),
        ensures
            *final(self) == *old(self),
            final(range_decoder).wf(),
            dec_inside(final(range_decoder)@),
            if signal_type != FrameSignalType::Voiced {
                r == 15565 && final(range_decoder)@ == old(range_decoder)@
            } else {
                r == ltp_scale(sym(old(range_decoder)@, SILK_LTPSCALE_ICDF@)) && final(
                    range_decoder)@ == nxt(old(range_decoder)@, SILK_LTPSCALE_ICDF@)
            },
    {
        match signal_type {
            FrameSignalType::Voiced => {},
            _ => return 15565,
        }
        assert(SILK_LTPSCALE_ICDF@.last() == 0);
        let index: usize = read(range_decoder, &SILK_LTPSCALE_ICDF);
        if index == 0 {
            15565
        } else if index == 1 {
            12288
        } else {
            8192
        }
    }

    /// Reads the seed of the excitation's signs.
    pub fn decode_linear_congruential_generator_seed(
        &mut self,
        range_decoder: &mut RangeDecoder,
    ) -> (r: u32)
        requires
            old(range_decoder).wf(),
            dec_inside(old(range_decoder)@),
        ensures
            *final(self) == *old(self),
            final(range_decoder).wf(),
            dec_inside(final(range_decoder)@),
            r == sym(old(range_decoder)@, SILK_UNIFORM4_ICDF@),
            final(range_decoder)@ == nxt(old(range_decoder)@, SILK_UNIFORM4_ICDF@),
            r < 4,
    {
        assert(SILK_UNIFORM4_ICDF@.last() == 0);
        read(range_decoder, &SILK_UNIFORM4_ICDF) as u32
    }
}

fn read_taps(range_decoder: &mut RangeDecoder, per: usize) -> (r: [i8; 5])
    requires
        old(range_decoder).wf(),
        dec_inside(old(range_decoder)@),
        per < 3,
    ensures
        final(range_decoder).wf(),
        dec_inside(final(range_decoder)@),
        final(range_decoder)@ == nxt(old(range_decoder)@, ltp_gain_table(per as int)),
        forall|t: int|
            0 <= t < 5 ==> #[trigger] r[t] == ltp_tap(
                per as int,
                sym(old(range_decoder)@, ltp_gain_table(per as int)),
                t,
            ),
{
    assert(SILK_LTP_GAIN_ICDF_0@.last() == 0);
    assert(SILK_LTP_GAIN_ICDF_1@.last() == 0);
    assert(SILK_LTP_GAIN_ICDF_2@.last() == 0);
    if per == 0 {
        SILK_LTP_GAIN_VQ_0[read(range_decoder, &SILK_LTP_GAIN_ICDF_0)]
    } else if per == 1 {
        SILK_LTP_GAIN_VQ_1[read(range_decoder, &SILK_LTP_GAIN_ICDF_1)]
    } else {
        SILK_LTP_GAIN_VQ_2[read(range_decoder, &SILK_LTP_GAIN_ICDF_2)]
    }
}

// ---------------------------------------------------------------------
// Pulses
// ---------------------------------------------------------------------

/// Blocks of a frame.
pub open spec fn blocks_of(b: Bandwidth, nanoseconds: int) -> int {
    if nanoseconds == 10_000_000 {
        if b == Bandwidth::Narrow {
            5
        } else if b == Bandwidth::Medium {
            8
        } else if b == Bandwidth::Wide {
            10
        } else {
            0
        }
    } else if nanoseconds == 20_000_000 {
        if b == Bandwidth::Narrow {
            10
        } else if b == Bandwidth::Medium {
            15
        } else if b == Bandwidth::Wide {
            20
        } else {
            0
        }
    } else {
        0
    }
}

/// The model of rate levels.
pub open spec fn level_table(voiced: bool) -> Seq<u8> {
    SILK_RATE_LEVELS_ICDF[if voiced {
        1
    } else {
        0
    }]@
}

/// Pulses of a block, the bits that they are extended by, and the decoder
/// behind them.
pub struct CountRead {
    pub pulses: int,
    pub extra: int,
    pub next: DecState,
}

/// A count after `extra` escapes. The tenth one is followed by a count without
/// escapes, whatever it was itself.
pub open spec fn escapes_read(s: DecState, extra: int) -> CountRead
    decreases 10 - extra,
{
    let t = SILK_PULSES_PER_BLOCK_ICDF[9]@;
    let last = t.subrange(1, 18);
    let k = sym(s, t);
    let s1 = nxt(s, t);
    if extra + 1 >= 10 {
        CountRead { pulses: sym(s1, last), extra: extra + 1, next: nxt(s1, last) }
    } else if k == 17 {
        escapes_read(s1, extra + 1)
    } else {
        CountRead { pulses: k, extra: extra + 1, next: s1 }
    }
}

/// The count of a block at a rate level.
pub open spec fn count_read(s: DecState, level: int) -> CountRead {
    let t = SILK_PULSES_PER_BLOCK_ICDF[level]@;
    let k = sym(s, t);
    let s1 = nxt(s, t);
    if k == 17 {
        escapes_read(s1, 0)
    } else {
        CountRead { pulses: k, extra: 0, next: s1 }
    }
}

/// The decoder once the counts of `b` blocks are read.
pub open spec fn counts_after(s: DecState, level: int, b: nat) -> DecState
    decreases b,
{
    if b == 0 {
        s
    } else {
        count_read(counts_after(s, level, (b - 1) as nat), level).next
    }
}

fn read_count(range_decoder: &mut RangeDecoder, level: usize) -> (r: (u8, u8))
    requires
        old(range_decoder).wf(),
        dec_inside(old(range_decoder)@),
        level < 10,
    ensures
        final(range_decoder).wf(),
        dec_inside(final(range_decoder)@),
        (CountRead { pulses: r.0 as int, extra: r.1 as int, next: final(range_decoder)@ })
            == count_read(old(range_decoder)@, level as int),
        r.0 <= 16,
        r.1 <= 10,
{
    proof {
        lemma_count_table(level as int);
        lemma_count_table(9);
    }
    let ghost whole = count_read(range_decoder@, level as int);
    let mut count: usize = read(range_decoder, &SILK_PULSES_PER_BLOCK_ICDF[level]);
    if count != 17 {
        return (count as u8, 0);
    }
    let mut extra: u8 = 0;
    while count == 17 && extra < 10
        invariant
            range_decoder.wf(),
            dec_inside(range_decoder@),
            extra <= 10,
            count <= 17,
            SILK_PULSES_PER_BLOCK_ICDF[9]@.len() == 18,
            SILK_PULSES_PER_BLOCK_ICDF[9]@.last() == 0,
            count == 17 && extra < 10 ==> whole == escapes_read(range_decoder@, extra as int),
            extra == 10 ==> whole == (CountRead {
                pulses: sym(range_decoder@, SILK_PULSES_PER_BLOCK_ICDF[9]@.subrange(1, 18)),
                extra: 10,
                next: nxt(range_decoder@, SILK_PULSES_PER_BLOCK_ICDF[9]@.subrange(1, 18)),
            }),
            count != 17 && extra < 10 ==> whole == (CountRead {
                pulses: count as int,
                extra: extra as int,
                next: range_decoder@,
            }),
        decreases 10 - extra,
    {
        count = read(range_decoder, &SILK_PULSES_PER_BLOCK_ICDF[9]);
        extra = extra + 1;
    }
    if extra == 10 {
        assert(SILK_PULSES_PER_BLOCK_ICDF[9]@.subrange(1, 18).last() == 0);
        count = read(range_decoder, &SILK_PULSES_PER_BLOCK_ICDF[9][1..18]);
    }
    (count as u8, extra)
}

impl Decoder {
    /// Blocks of a frame; none where no speech frame has that duration.
    pub fn decode_shell_blocks(&self, nanoseconds: u32, bandwidth: Bandwidth) -> (r: usize)
        ensures
            r == blocks_of(bandwidth, nanoseconds as int),
            r <= 20,
    {
        if nanoseconds == 10_000_000 {
            match bandwidth {
                Bandwidth::Narrow => 5,
                Bandwidth::Medium => 8,
                Bandwidth::Wide => 10,
                _ => 0,
            }
        } else if nanoseconds == 20_000_000 {
            match bandwidth {
                Bandwidth::Narrow => 10,
                Bandwidth::Medium => 15,
                Bandwidth::Wide => 20,
                _ => 0,
            }
        } else {
            0
        }
    }

    /// Reads the rate level of a frame.
    pub fn decode_rate_level(&mut self, range_decoder: &mut RangeDecoder, voiced: bool) -> (r: u32)
        requires
            old(range_decoder).wf(),
            dec_inside(old(range_decoder)@),
        ensures
            *final(self) == *old(self),
            final(range_decoder).wf(),
            dec_inside(final(range_decoder)@),
            r == sym(old(range_decoder)@, level_table(voiced)),
            final(range_decoder)@ == nxt(old(range_decoder)@, level_table(voiced)),
            r < 9,
    {
        assert(SILK_RATE_LEVELS_ICDF[0]@.last() == 0);
        assert(SILK_RATE_LEVELS_ICDF[1]@.last() == 0);
        if voiced {
            read(range_decoder, &SILK_RATE_LEVELS_ICDF[1]) as u32
        } else {
            read(range_decoder, &SILK_RATE_LEVELS_ICDF[0]) as u32
        }
    }

    /// Reads the pulses of all blocks.
    pub fn decode_pulse_and_lsb_counts(
        &mut self,
        range_decoder: &mut RangeDecoder,
        shell_blocks: usize,
        rate_level: u32,
    ) -> (r: ShellBlockCounts)
        requires
            shell_blocks <= 20,
            rate_level < 10,
            old(range_decoder).wf(),
            dec_inside(old(range_decoder)@),
        ensures
            *final(self) == *old(self),
            final(range_decoder).wf(),
            dec_inside(final(range_decoder)@),
            final(range_decoder)@ == counts_after(
                old(range_decoder)@,
                rate_level as int,
                shell_blocks as nat,
            ),
            r.wf(),
            r.block_count == shell_blocks,
            counts_hold(r, old(range_decoder)@, rate_level as int),
    {
        let ghost s = range_decoder@;
        let mut counts: ShellBlockCounts = ShellBlockCounts::new(shell_blocks);
        let mut b: usize = 0;
        while b < shell_blocks
            invariant
                b <= shell_blocks <= 20,
                rate_level < 10,
                range_decoder.wf(),
                dec_inside(range_decoder@),
                range_decoder@ == counts_after(s, rate_level as int, b as nat),
                counts.block_count == shell_blocks,
                counts.wf(),
                forall|j: int|
                    0 <= j < 20 ==> #[trigger] counts.pulse_counts[j] == if j < b {
                        count_read(
                            counts_after(s, rate_level as int, j as nat),
                            rate_level as int,
                        ).pulses
                    } else {
                        0
                    },
                forall|j: int|
                    0 <= j < 20 ==> #[trigger] counts.lsb_counts[j] == if j < b {
                        count_read(
                            counts_after(s, rate_level as int, j as nat),
                            rate_level as int,
                        ).extra
                    } else {
                        0
                    },
            decreases shell_blocks - b,
        {
            let (pulses, extra) = read_count(range_decoder, rate_level as usize);
            counts.pulse_counts[b] = pulses;
            counts.lsb_counts[b] = extra;
            b = b + 1;
        }
        counts
    }
}

/// The counts are those that a decoder is about to read at a rate level.
pub open spec fn counts_hold(c: ShellBlockCounts, s: DecState, level: int) -> bool {
    &&& forall|b: int|
        0 <= b < 20 ==> #[trigger] c.pulse_counts[b] == if b < c.block_count {
            count_read(counts_after(s, level, b as nat), level).pulses
        } else {
            0
        }
    &&& forall|b: int|
        0 <= b < 20 ==> #[trigger] c.lsb_counts[b] == if b < c.block_count {
            count_read(counts_after(s, level, b as nat), level).extra
        } else {
            0
        }
}

// ---------------------------------------------------------------------
// Excitation
// ---------------------------------------------------------------------

/// The pulses of a frame, as a decoder is about to read them.
pub struct RawPulses {
    pub counts: Seq<int>,
    pub extra: Seq<int>,
    /// Samples without the extra bits.
    pub samples: Seq<int>,
    pub magnitudes: Seq<i16>,
    pub signs: SignModel,
    /// The decoder before the signs.
    pub before_signs: DecState,
}

/// The pulses of a frame whose counts are read.
pub open spec fn raw_pulses(
    s: DecState,
    c: ShellBlockCounts,
    signal: FrameSignalType,
    offset: FrameQuantizationOffsetType,
) -> RawPulses {
    let blocks = c.block_count as int;
    let counts = Seq::new(blocks as nat, |b: int| c.pulse_counts[b] as int);
    let extra = Seq::new(blocks as nat, |b: int| c.lsb_counts[b] as int);
    let samples = Seq::new((16 * blocks) as nat, |i: int| shell_sample(s, counts, i));
    let s1 = shells_next(s, counts, blocks as nat);
    RawPulses {
        counts,
        extra,
        samples,
        magnitudes: Seq::new(
            (16 * blocks) as nat,
            |i: int| magnitude(s1, samples, extra, i) as i16,
        ),
        signs: SignModel {
            signal_type: signal.number(),
            offset_type: offset.number(),
            sums: Seq::new(blocks as nat, |b: int| (counts[b] + 32 * extra[b]) as i32),
            blocks: sign_blocks(16 * blocks),
        },
        before_signs: bits_next(s1, samples, extra, (16 * blocks) as nat),
    }
}

/// Pulse `i` with its sign.
pub open spec fn raw_pulse(r: RawPulses, i: int) -> int {
    signed_pulse(r.before_signs, r.signs, r.magnitudes, i)
}

/// Quantisation offset (Q23).
pub open spec fn offset_q23(signal: FrameSignalType, offset: FrameQuantizationOffsetType) -> int {
    if signal == FrameSignalType::Voiced {
        if offset == FrameQuantizationOffsetType::Low {
            8
        } else {
            25
        }
    } else if offset == FrameQuantizationOffsetType::Low {
        25
    } else {
        60
    }
}

pub open spec fn sign_of(v: int) -> int {
    if v > 0 {
        1
    } else if v < 0 {
        -1
    } else {
        0
    }
}

/// The next number of the generator.
pub open spec fn next_seed(seed: int) -> int {
    (seed * 196314165 + 907633515) % 0x1_0000_0000
}

/// The seed before sample `i`: each pulse is added to it.
pub open spec fn seed_at(seed: int, raw: Seq<int>, i: nat) -> int
    decreases i,
{
    if i == 0 {
        seed
    } else {
        (next_seed(seed_at(seed, raw, (i - 1) as nat)) + raw[i - 1]) % 0x1_0000_0000
    }
}

/// The excitation (Q23) of sample `i`: its pulse, drawn towards zero and
/// shifted by the offset, with a random sign.
pub open spec fn excitation_q23(raw: Seq<int>, offset: int, seed: int, i: int) -> int {
    let v = 256 * raw[i] - 20 * sign_of(raw[i]) + offset;
    if next_seed(seed_at(seed, raw, i as nat)) >= 0x8000_0000 {
        -v
    } else {
        v
    }
}

fn read_shells(range_decoder: &mut RangeDecoder, counts: &ShellBlockCounts, Ghost(r): Ghost<
    RawPulses,
>) -> (pulses: Vec<i16>)
    requires
        old(range_decoder).wf(),
        dec_inside(old(range_decoder)@),
        counts.wf(),
        r.counts == Seq::new(counts.block_count as nat, |b: int| counts.pulse_counts[b] as int),
        r.samples == Seq::new(
            (16 * counts.block_count) as nat,
            |i: int| shell_sample(old(range_decoder)@, r.counts, i),
        ),
    ensures
        final(range_decoder).wf(),
        dec_inside(final(range_decoder)@),
        final(range_decoder)@ == shells_next(
            old(range_decoder)@,
            r.counts,
            counts.block_count as nat,
        ),
        pulses@.len() == 16 * counts.block_count,
        forall|i: int| 0 <= i < pulses@.len() ==> #[trigger] pulses@[i] == r.samples[i],
        forall|i: int| 0 <= i < pulses@.len() ==> 0 <= #[trigger] pulses@[i] <= 16,
{
    let blocks: usize = counts.block_count;
    let ghost s = range_decoder@;
    let mut pulses: Vec<i16> = vec![0i16;16 * blocks];
    let mut b: usize = 0;
    while b < blocks
        invariant
            range_decoder.wf(),
            dec_inside(range_decoder@),
            counts.wf(),
            blocks == counts.block_count,
            b <= blocks,
            r.counts == Seq::new(blocks as nat, |b: int| counts.pulse_counts[b] as int),
            r.samples == Seq::new((16 * blocks) as nat, |i: int| shell_sample(s, r.counts, i)),
            pulses@.len() == 16 * blocks,
            range_decoder@ == shells_next(s, r.counts, b as nat),
            forall|i: int| 0 <= i < 16 * b ==> #[trigger] pulses@[i] == r.samples[i],
            forall|i: int| 0 <= i < 16 * blocks ==> 0 <= #[trigger] pulses@[i] <= 16,
            forall|i: int| 16 * b <= i < 16 * blocks ==> #[trigger] pulses@[i] == 0,
        decreases blocks - b,
    {
        let ghost before = pulses@;
        let count: i32 = counts.pulse_counts[b] as i32;
        assert(counts.pulse_counts[b as int] <= 16);
        assert(r.counts[b as int] == count);
        if count > 0 {
            let ghost sb = range_decoder@;
            silk_shell_decoder(range_decoder, pulses.as_mut_slice(), 16 * b, count);
            assert forall|i: int| 0 <= i < 16 * (b + 1) implies #[trigger] pulses@[i]
                == r.samples[i] by {
                if i < 16 * b {
                    assert(before[i] == r.samples[i]);
                } else {
                    assert(i / 16 == b && i % 16 == i - 16 * b);
                }
            }
            assert forall|i: int| 0 <= i < 16 * blocks implies 0 <= #[trigger] pulses@[i]
                <= 16 by {
                if 16 * b <= i < 16 * b + 16 {
                    assert(0 <= shell_pulses(sb, 4, count as int)[i - 16 * b] <= 16);
                } else {
                    assert(0 <= before[i] <= 16);
                }
            }
            assert forall|i: int| 16 * (b + 1) <= i < 16 * blocks implies #[trigger] pulses@[i]
                == 0 by {
                assert(before[i] == 0);
            }
        } else {
            assert forall|i: int| 0 <= i < 16 * (b + 1) implies #[trigger] pulses@[i]
                == r.samples[i] by {
                if i >= 16 * b {
                    assert(i / 16 == b);
                }
            }
        }
        b = b + 1;
    }
    pulses
}

fn read_extra_bits(
    range_decoder: &mut RangeDecoder,
    pulses: &mut Vec<i16>,
    counts: &ShellBlockCounts,
    Ghost(r): Ghost<RawPulses>,
)
    requires
        old(range_decoder).wf(),
        dec_inside(old(range_decoder)@),
        counts.wf(),
        old(pulses)@.len() == 16 * counts.block_count,
        r.samples.len() == 16 * counts.block_count,
        forall|i: int| 0 <= i < old(pulses)@.len() ==> #[trigger] old(pulses)@[i] == r.samples[i],
        forall|i: int| 0 <= i < old(pulses)@.len() ==> 0 <= #[trigger] old(pulses)@[i] <= 16,
        r.extra == Seq::new(counts.block_count as nat, |b: int| counts.lsb_counts[b] as int),
        r.magnitudes == Seq::new(
            (16 * counts.block_count) as nat,
            |i: int| magnitude(old(range_decoder)@, r.samples, r.extra, i) as i16,
        ),
    ensures
        final(range_decoder).wf(),
        dec_inside(final(range_decoder)@),
        final(range_decoder)@ == bits_next(
            old(range_decoder)@,
            r.samples,
            r.extra,
            (16 * counts.block_count) as nat,
        ),
        final(pulses)@ == r.magnitudes,
        forall|i: int| 0 <= i < final(pulses)@.len() ==> 0 <= #[trigger] final(pulses)@[i],
{
    let n: usize = 16 * counts.block_count;
    let ghost s = range_decoder@;
    let mut i: usize = 0;
    while i < n
        invariant
            range_decoder.wf(),
            dec_inside(range_decoder@),
            counts.wf(),
            n == 16 * counts.block_count,
            i <= n,
            pulses@.len() == n,
            r.samples.len() == n,
            r.magnitudes == Seq::new(n as nat, |i: int| magnitude(s, r.samples, r.extra, i) as i16),
            r.extra == Seq::new(counts.block_count as nat, |b: int| counts.lsb_counts[b] as int),
            range_decoder@ == bits_next(s, r.samples, r.extra, i as nat),
            forall|j: int| 0 <= j < i ==> #[trigger] pulses@[j] == r.magnitudes[j],
            forall|j: int| 0 <= j < i ==> 0 <= #[trigger] pulses@[j],
            forall|j: int| i <= j < n ==> #[trigger] pulses@[j] == r.samples[j],
            forall|j: int| i <= j < n ==> 0 <= #[trigger] pulses@[j] <= 16,
        decreases n - i,
    {
        assert(r.extra[i as int / 16] == counts.lsb_counts[i as int / 16]);
        assert(counts.lsb_counts[i as int / 16] <= 10);
        let v: i16 = read_bits(range_decoder, pulses[i], counts.lsb_counts[i / 16]);
        assert(v == magnitude(s, r.samples, r.extra, i as int));
        pulses[i] = v;
        i = i + 1;
    }
    assert(pulses@ =~= r.magnitudes);
}

fn read_signs(
    range_decoder: &mut RangeDecoder,
    pulses: &mut Vec<i16>,
    signal_type: FrameSignalType,
    quantization_offset_type: FrameQuantizationOffsetType,
    counts: &ShellBlockCounts,
    Ghost(r): Ghost<RawPulses>,
)
    requires
        old(range_decoder).wf(),
        dec_inside(old(range_decoder)@),
        counts.wf(),
        r == raw_pulses_of(r, counts, signal_type, quantization_offset_type),
        old(range_decoder)@ == r.before_signs,
        old(pulses)@ == r.magnitudes,
        r.magnitudes.len() == 16 * counts.block_count,
    ensures
        final(range_decoder).wf(),
        dec_inside(final(range_decoder)@),
        final(range_decoder)@ == signs_read(
            r.before_signs,
            r.signs,
            r.magnitudes,
            (16 * counts.block_count) as nat,
        ),
        final(pulses)@.len() == 16 * counts.block_count,
        forall|i: int|
            0 <= i < final(pulses)@.len() ==> #[trigger] final(pulses)@[i] == raw_pulse(r, i),
{
    let blocks: usize = counts.block_count;
    let sums: [i32; 20] = counts.sign_sums();
    assert(sums@.subrange(0, blocks as int) =~= r.signs.sums);
    silk_decode_signs(
        range_decoder,
        pulses.as_mut_slice(),
        16 * blocks,
        signal_type.to_i32(),
        quantization_offset_type.to_i32(),
        &sums[0..blocks],
    );
}

/// The sign model of `r` is that of the counts.
spec fn raw_pulses_of(
    r: RawPulses,
    c: &ShellBlockCounts,
    signal: FrameSignalType,
    offset: FrameQuantizationOffsetType,
) -> RawPulses {
    RawPulses {
        signs: SignModel {
            signal_type: signal.number(),
            offset_type: offset.number(),
            sums: Seq::new(
                c.block_count as nat,
                |b: int| (c.pulse_counts[b] as int + 32 * c.lsb_counts[b] as int) as i32,
            ),
            blocks: sign_blocks(16 * c.block_count),
        },
        ..r
    }
}

/// The pulses of a frame as numbers.
pub open spec fn raw_values(r: RawPulses) -> Seq<int> {
    Seq::new(r.magnitudes.len(), |i: int| raw_pulse(r, i))
}

fn add_pulse(seed: u32, raw: i16) -> (r: u32)
    ensures
        r == (seed + raw) % 0x1_0000_0000,
{
    let sum: i64 = seed as i64 + raw as i64;
    if sum < 0 {
        (sum + 0x1_0000_0000) as u32
    } else if sum >= 0x1_0000_0000 {
        (sum - 0x1_0000_0000) as u32
    } else {
        sum as u32
    }
}

impl Decoder {
    /// Reads the pulses of a frame, and makes its excitation of them.
    pub fn decode_excitation(
        &mut self,
        range_decoder: &mut RangeDecoder,
        signal_type: FrameSignalType,
        quantization_offset_type: FrameQuantizationOffsetType,
        seed: u32,
        counts: &ShellBlockCounts,
    ) -> (r: ExcitationQ23)
        requires
            old(range_decoder).wf(),
            dec_inside(old(range_decoder)@),
            counts.wf(),
        ensures
            *final(self) == *old(self),
            final(range_decoder).wf(),
            dec_inside(final(range_decoder)@),
            ({
                let p = raw_pulses(
                    old(range_decoder)@,
                    *counts,
                    signal_type,
                    quantization_offset_type,
                );
                let n = 16 * counts.block_count;
                &&& final(range_decoder)@ == signs_read(
                    p.before_signs,
                    p.signs,
                    p.magnitudes,
                    n as nat,
                )
                &&& r.len == n
                &&& forall|i: int|
                    0 <= i < 320 ==> #[trigger] r.values[i] == if i < n {
                        excitation_q23(
                            raw_values(p),
                            offset_q23(signal_type, quantization_offset_type),
                            seed as int,
                            i,
                        )
                    } else {
                        0
                    }
            }),
    {
        let ghost p = raw_pulses(
            range_decoder@,
            *counts,
            signal_type,
            quantization_offset_type,
        );
        let n: usize = 16 * counts.block_count;
        let mut pulses: Vec<i16> = read_shells(range_decoder, counts, Ghost(p));
        read_extra_bits(range_decoder, &mut pulses, counts, Ghost(p));
        proof {
            let q = raw_pulses_of(p, counts, signal_type, quantization_offset_type);
            assert(p.signs.sums =~= q.signs.sums);
        }
        read_signs(
            range_decoder,
            &mut pulses,
            signal_type,
            quantization_offset_type,
            counts,
            Ghost(p),
        );
        let ghost raw = raw_values(p);
        let voiced: bool = matches!(signal_type, FrameSignalType::Voiced);
        let offset: i32 = match quantization_offset_type {
            FrameQuantizationOffsetType::Low => if voiced {
                8
            } else {
                25
            },
            FrameQuantizationOffsetType::High => if voiced {
                25
            } else {
                60
            },
        };
        let mut out: ExcitationQ23 = ExcitationQ23::new(n);
        let mut state: u32 = seed;
        let mut i: usize = 0;
        while i < n
            invariant
                n <= 320,
                i <= n,
                n == 16 * counts.block_count,
                pulses@.len() == n,
                raw.len() == n,
                forall|j: int| 0 <= j < n ==> #[trigger] pulses@[j] == raw[j],
                0 <= offset <= 60,
                offset == offset_q23(signal_type, quantization_offset_type),
                state == seed_at(seed as int, raw, i as nat),
                out.len == n,
                forall|j: int|
                    0 <= j < 320 ==> #[trigger] out.values[j] == if j < i {
                        excitation_q23(raw, offset as int, seed as int, j)
                    } else {
                        0
                    },
            decreases n - i,
        {
            let v: i16 = pulses[i];
            assert(v == raw[i as int]);
            let sign: i32 = if v > 0 {
                1
            } else if v < 0 {
                -1
            } else {
                0
            };
            let value: i32 = 256 * v as i32 - 20 * sign + offset;
            let next: u32 = ((state as u64 * 196314165 + 907633515) % 0x1_0000_0000) as u32;
            out.values[i] = if next >= 0x8000_0000 {
                -value
            } else {
                value
            };
            state = add_pulse(next, v);
            i = i + 1;
        }
        out
    }
}

} // verus!
