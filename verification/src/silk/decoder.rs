//! A decoder of mono 20 ms frames, up to the parameters of the synthesis.
//!
//! The synthesis itself works on floating-point samples and is done outside.
use crate::fixed::{clamped, div_trunc, narrow16, shr32, wrap16};
use crate::packet::Bandwidth;
use crate::range::{dec_inside, dec_logp_bit, dec_logp_next, DecState, RangeDecoder};
use crate::silk::decode_indices::{
    gain_read, gains_next, nxt, read, read_stage2, stage1_table, stage2_next, stage2_read, sym,
    type_read,
};
use crate::silk::gain_quant::{gain_of_level, level_gain};
use crate::silk::icdf::{
    delta_quantization_gain, independent_quantization_gain_lsb,
    independent_quantization_gain_msb_inactive, independent_quantization_gain_msb_unvoiced,
    independent_quantization_gain_msb_voiced,
};
use crate::silk::nlsf_cb::SilkNlsfCb;
use crate::silk::nlsf_decode::{
    cb1_at, index_level, nlsf_residual, nlsf_weight, pred_weight, quotient, residuals, weight,
};
use crate::silk::nlsf_stabilize::{frequencies, nlsf_stabilize, spaced, stabilized};
use crate::silk::tables_nlsf_cb_nb_mb::silk_nlsf_cb_nb_mb;
use crate::silk::tables_nlsf_cb_wb::silk_nlsf_cb_wb;
use crate::silk::tables_other::{
    SILK_NLSF_INTERPOLATION_FACTOR_ICDF, SILK_TYPE_OFFSET_NO_VAD_ICDF, SILK_TYPE_OFFSET_VAD_ICDF,
};
use crate::silk::types::{FrameQuantizationOffsetType, FrameSignalType};
use vstd::arithmetic::power2::lemma2_to64;
use vstd::prelude::*;

pub use crate::silk::decoder_predictor::{
    coefficient_q12, convert_normalized_lsfs_to_lpc_coefficients, filter_of, generate_a_q12,
    ints_of_i32, limit_lpc_coefficients_range, limit_lpc_filter_prediction_gain, limited,
};

verus! {

/// Nanoseconds of a frame.
pub const NANOSECONDS_20_MS: u32 = 20_000_000;

/// The lags of a frame, and the largest that its bandwidth has.
#[derive(Debug, Clone, Copy, PartialEq, Eq)]
pub struct PitchLagInfo {
    pub lag_max: u32,
    pub pitch_lags: [i32; 4],
}

/// Pulses of each block, and the bits that they are extended by.
#[derive(Debug, Clone, Copy)]
pub struct ShellBlockCounts {
    pub block_count: usize,
    pub pulse_counts: [u8; 20],
    pub lsb_counts: [u8; 20],
}

impl ShellBlockCounts {
    /// No pulses in `block_count` blocks.
    pub fn new(block_count: usize) -> (r: ShellBlockCounts)
        requires
            block_count <= 20,
        ensures
            r.block_count == block_count,
            forall|b: int| 0 <= b < 20 ==> #[trigger] r.pulse_counts[b] == 0,
            forall|b: int| 0 <= b < 20 ==> #[trigger] r.lsb_counts[b] == 0,
    {
        ShellBlockCounts { block_count, pulse_counts: [0;20], lsb_counts: [0;20] }
    }

    pub open spec fn wf(self) -> bool {
        &&& self.block_count <= 20
        &&& forall|b: int| 0 <= b < 20 ==> #[trigger] self.pulse_counts[b] <= 16
        &&& forall|b: int| 0 <= b < 20 ==> #[trigger] self.lsb_counts[b] <= 10
    }

    /// Pulses and bits of each block in one number, the bits from bit 5 on.
    pub fn sign_sums(&self) -> (r: [i32; 20])
        requires
            self.wf(),
        ensures
            forall|b: int|
                0 <= b < 20 ==> #[trigger] r[b] == if b < self.block_count {
                    self.pulse_counts[b] + 32 * self.lsb_counts[b]
                } else {
                    0
                },
    {
        let mut sums: [i32; 20] = [0;20];
        for b in 0..self.block_count
            invariant
                self.wf(),
                forall|j: int|
                    0 <= j < 20 ==> #[trigger] sums[j] == if j < b {
                        self.pulse_counts[j] + 32 * self.lsb_counts[j]
                    } else {
                        0
                    },
        {
            assert(self.pulse_counts[b as int] <= 16 && self.lsb_counts[b as int] <= 10);
            sums[b] = self.pulse_counts[b] as i32 + 32 * self.lsb_counts[b] as i32;
        }
        sums
    }
}

/// Excitation of a frame (Q23).
#[derive(Debug, Clone, Copy)]
pub struct ExcitationQ23 {
    pub len: usize,
    pub values: [i32; 320],
}

impl ExcitationQ23 {
    /// Silence of `len` samples.
    pub fn new(len: usize) -> (r: ExcitationQ23)
        requires
            len <= 320,
        ensures
            r.len == len,
            forall|i: int| 0 <= i < 320 ==> #[trigger] r.values[i] == 0,
    {
        ExcitationQ23 { len, values: [0;320] }
    }
}

/// Why pitch lags cannot be read.
#[derive(Debug, Clone, Copy, PartialEq, Eq, Structural)]
pub enum DecodePitchLagsError {
    NonAbsoluteLagsUnsupported,
    UnsupportedBandwidth,
}

/// Why a frame cannot be decoded.
#[derive(Debug, Clone, Copy, PartialEq, Eq, Structural)]
pub enum DecodeError {
    UnsupportedFrameDuration,
    StereoUnsupported,
    OutBufferTooSmall,
    UnsupportedLowBitrateRedundancy,
    PitchLags(DecodePitchLagsError),
}

/// Builds a decoder.
#[derive(Debug, Clone, Copy)]
pub struct DecoderBuilder {}

impl DecoderBuilder {
    pub fn new() -> (r: DecoderBuilder) {
        DecoderBuilder {  }
    }

    /// A decoder before its first frame.
    pub fn build(self) -> (r: Decoder)
        ensures
            r.fresh(),
            r.wf(),
    {
        Decoder {
            have_decoded: false,
            is_previous_frame_voiced: false,
            previous_log_gain: 0,
            n0_q15: [0;16],
            n0_q15_len: 0,
        }
    }
}

impl Default for DecoderBuilder {
    fn default() -> (r: DecoderBuilder) {
        DecoderBuilder {  }
    }
}

/// What a decoder keeps from frame to frame, beside the synthesis.
#[derive(Debug, Clone, Copy)]
pub struct Decoder {
    /// A frame was decoded.
    pub have_decoded: bool,
    pub is_previous_frame_voiced: bool,
    pub previous_log_gain: i32,
    /// Frequencies of the last frame (Q15).
    pub n0_q15: [i16; 16],
    pub n0_q15_len: usize,
}

/// The bandwidths that speech has.
pub open spec fn is_speech(b: Bandwidth) -> bool {
    b == Bandwidth::Narrow || b == Bandwidth::Medium || b == Bandwidth::Wide
}

/// Internal rate in kHz.
pub open spec fn khz_of(b: Bandwidth) -> int {
    if b == Bandwidth::Narrow {
        8
    } else if b == Bandwidth::Medium {
        12
    } else {
        16
    }
}

/// Order of the short-term predictor.
pub open spec fn order_of(b: Bandwidth) -> int {
    if b == Bandwidth::Wide {
        16
    } else {
        10
    }
}

/// `cb` is the codebook of a bandwidth.
pub open spec fn is_codebook(b: Bandwidth, cb: SilkNlsfCb) -> bool {
    &&& cb.wf()
    &&& cb.order == order_of(b)
    &&& cb.n_vectors == 32
    &&& cb.quant_step_size_q16 <= 11796
    &&& if b == Bandwidth::Wide {
        crate::silk::decoder_set_fs::is_wb_codebook(cb)
    } else {
        crate::silk::decoder_set_fs::is_nb_codebook(cb)
    }
}

/// The codebook of a bandwidth.
pub fn codebook_of(bandwidth: Bandwidth) -> (r: SilkNlsfCb)
    ensures
        is_codebook(bandwidth, r),
{
    match bandwidth {
        Bandwidth::Wide => silk_nlsf_cb_wb(),
        _ => silk_nlsf_cb_nb_mb(),
    }
}

// ---------------------------------------------------------------------
// Gains
// ---------------------------------------------------------------------

/// The log gain of subframe `k`: the first stands alone, but falls by at most
/// 16 from the last frame; each other is relative to the one before.
pub open spec fn log_gain_at(d: Decoder, indices: Seq<int>, k: int) -> int
    decreases k,
{
    if k <= 0 {
        if d.have_decoded && d.previous_log_gain - 16 > indices[0] {
            d.previous_log_gain - 16
        } else {
            indices[0]
        }
    } else {
        let before = log_gain_at(d, indices, k - 1);
        let step = indices[k];
        clamped(
            if 2 * step - 16 > before + step - 4 {
                2 * step - 16
            } else {
                before + step - 4
            },
            0,
            63,
        )
    }
}

/// The gain indices that a decoder is about to read.
pub open spec fn gain_indices_read(s: DecState, signal: FrameSignalType) -> Seq<int> {
    Seq::new(4, |k: int| gain_read(s, signal, false, k))
}

impl Decoder {
    pub open spec fn fresh(self) -> bool {
        &&& !self.have_decoded
        &&& !self.is_previous_frame_voiced
        &&& self.previous_log_gain == 0
        &&& forall|i: int| 0 <= i < 16 ==> #[trigger] self.n0_q15[i] == 0
        &&& self.n0_q15_len == 0
    }

    pub open spec fn wf(self) -> bool {
        &&& 0 <= self.previous_log_gain <= 63
        &&& self.n0_q15_len <= 16
        &&& forall|i: int| 0 <= i < 16 ==> 0 <= #[trigger] self.n0_q15[i]
    }

    /// Reads whether the frame is active, and whether redundancy precedes it.
    pub fn decode_header_bits(&mut self, range_decoder: &mut RangeDecoder) -> (r: (bool, bool))
        requires
            old(range_decoder).wf(),
            dec_inside(old(range_decoder)@),
        ensures
            *final(self) == *old(self),
            final(range_decoder).wf(),
            dec_inside(final(range_decoder)@),
            ({
                let s = old(range_decoder)@;
                let s1 = dec_logp_next(s, 1);
                &&& r.0 == (dec_logp_bit(s, 1) == 1)
                &&& r.1 == (dec_logp_bit(s1, 1) == 1)
                &&& final(range_decoder)@ == dec_logp_next(s1, 1)
            }),
    {
        let vad: bool = range_decoder.decode_symbol_logp(1) == 1;
        let lbrr: bool = range_decoder.decode_symbol_logp(1) == 1;
        (vad, lbrr)
    }

    /// Reads the signal type and the quantisation offset of a frame.
    pub fn determine_frame_type(
        &mut self,
        range_decoder: &mut RangeDecoder,
        voice_activity_detected: bool,
    ) -> (r: (FrameSignalType, FrameQuantizationOffsetType))
        requires
            old(range_decoder).wf(),
            dec_inside(old(range_decoder)@),
        ensures
            *final(self) == *old(self),
            final(range_decoder).wf(),
            dec_inside(final(range_decoder)@),
            ({
                let (raw, next) = type_read(old(range_decoder)@, voice_activity_detected);
                &&& r.0 == FrameSignalType::of_number(raw / 2)
                &&& r.1.number() == raw % 2
                &&& final(range_decoder)@ == next
                &&& (r.0 == FrameSignalType::Inactive) == !voice_activity_detected
            }),
    {
        if voice_activity_detected {
            assert(SILK_TYPE_OFFSET_VAD_ICDF@.last() == 0);
            let symbol: usize = read(range_decoder, &SILK_TYPE_OFFSET_VAD_ICDF);
            match symbol {
                0 => (FrameSignalType::Unvoiced, FrameQuantizationOffsetType::Low),
                1 => (FrameSignalType::Unvoiced, FrameQuantizationOffsetType::High),
                2 => (FrameSignalType::Voiced, FrameQuantizationOffsetType::Low),
                _ => (FrameSignalType::Voiced, FrameQuantizationOffsetType::High),
            }
        } else {
            assert(SILK_TYPE_OFFSET_NO_VAD_ICDF@.last() == 0);
            let symbol: usize = read(range_decoder, &SILK_TYPE_OFFSET_NO_VAD_ICDF);
            if symbol == 0 {
                (FrameSignalType::Inactive, FrameQuantizationOffsetType::Low)
            } else {
                (FrameSignalType::Inactive, FrameQuantizationOffsetType::High)
            }
        }
    }

    /// Reads the gains of the subframes (Q16).
    pub fn decode_subframe_quantizations(
        &mut self,
        range_decoder: &mut RangeDecoder,
        signal_type: FrameSignalType,
    ) -> (r: [i32; 4])
        requires
            old(self).wf(),
            old(range_decoder).wf(),
            dec_inside(old(range_decoder)@),
        ensures
            final(self).wf(),
            final(range_decoder).wf(),
            dec_inside(final(range_decoder)@),
            final(range_decoder)@ == gains_next(old(range_decoder)@, signal_type, false, 4),
            ({
                let idx = gain_indices_read(old(range_decoder)@, signal_type);
                &&& forall|k: int|
                    0 <= k < 4 ==> #[trigger] r[k] == level_gain(log_gain_at(*old(self), idx, k))
                &&& forall|k: int| 0 <= k < 4 ==> #[trigger] r[k] > 0
                &&& *final(self) == (Decoder {
                    previous_log_gain: final(self).previous_log_gain,
                    ..*old(self)
                })
                &&& final(self).previous_log_gain == log_gain_at(*old(self), idx, 3)
            }),
    {
        let ghost s = range_decoder@;
        let ghost d = *self;
        let ghost idx = gain_indices_read(s, signal_type);
        let mut gains: [i32; 4] = [0;4];
        let msb: u32 = match signal_type {
            FrameSignalType::Inactive => range_decoder.decode_symbol_with_icdf(
                independent_quantization_gain_msb_inactive(),
            ),
            FrameSignalType::Unvoiced => range_decoder.decode_symbol_with_icdf(
                independent_quantization_gain_msb_unvoiced(),
            ),
            FrameSignalType::Voiced => range_decoder.decode_symbol_with_icdf(
                independent_quantization_gain_msb_voiced(),
            ),
        };
        let lsb: u32 = range_decoder.decode_symbol_with_icdf(independent_quantization_gain_lsb());
        let index: i32 = 8 * msb as i32 + lsb as i32;
        assert(index == idx[0]);
        assert(range_decoder@ == gains_next(s, signal_type, false, 1));
        let floor: i32 = self.previous_log_gain - 16;
        let first: i32 = if self.have_decoded && floor > index {
            floor
        } else {
            index
        };
        self.previous_log_gain = first;
        gains[0] = gain_of_level(first);
        let mut k: usize = 1;
        while k < 4
            invariant
                1 <= k <= 4,
                range_decoder.wf(),
                dec_inside(range_decoder@),
                idx == gain_indices_read(s, signal_type),
                range_decoder@ == gains_next(s, signal_type, false, k as nat),
                0 <= self.previous_log_gain <= 63,
                self.previous_log_gain == log_gain_at(d, idx, k - 1),
                *self == (Decoder { previous_log_gain: self.previous_log_gain, ..d }),
                forall|j: int|
                    0 <= j < k ==> #[trigger] gains[j] == level_gain(log_gain_at(d, idx, j)),
                forall|j: int| 0 <= j < k ==> #[trigger] gains[j] > 0,
            decreases 4 - k,
        {
            let delta: i32 = range_decoder.decode_symbol_with_icdf(
                delta_quantization_gain(),
            ) as i32;
            assert(delta == idx[k as int]);
            let wide: i32 = 2 * delta - 16;
            let near: i32 = self.previous_log_gain + delta - 4;
            let level: i32 = if wide > near {
                wide
            } else {
                near
            };
            self.previous_log_gain = if level < 0 {
                0
            } else if level > 63 {
                63
            } else {
                level
            };
            gains[k] = gain_of_level(self.previous_log_gain);
            k = k + 1;
        }
        gains
    }
}

// ---------------------------------------------------------------------
// Frequencies
// ---------------------------------------------------------------------

/// The second-stage indices that a decoder is about to read, behind the
/// first-stage index.
pub open spec fn stage_indices(s: DecState, cb: SilkNlsfCb, i1: int) -> Seq<int> {
    Seq::new(
        17,
        |k: int|
            if k == 0 {
                i1
            } else if k <= cb.order {
                stage2_read(stage2_next(s, cb, i1, (k - 1) as nat), cb, i1, k - 1).0
            } else {
                0
            },
    )
}

/// Residuals of small indices are small.
proof fn lemma_small_residual(cb: SilkNlsfCb, idx: Seq<int>, i: int)
    requires
        cb.wf(),
        cb.quant_step_size_q16 <= 11796,
        0 <= i <= cb.order,
        0 <= idx[0] < cb.n_vectors,
        idx.len() == 17,
        forall|k: int| 1 <= k <= cb.order ==> -10 <= #[trigger] idx[k] <= 10,
    ensures
        -1844 * (cb.order - i) <= nlsf_residual(cb, idx, i) <= 1844 * (cb.order - i),
    decreases cb.order - i,
{
    if i < cb.order {
        lemma_small_residual(cb, idx, i + 1);
        let r = nlsf_residual(cb, idx, i + 1);
        let c = index_level(idx[i + 1]);
        assert(-10 <= idx[i + 1] <= 10);
        let q = cb.quant_step_size_q16 as int;
        assert(-10240 * 11796 <= c * q <= 10240 * 11796) by (nonlinear_arith)
            requires
                -10240 <= c <= 10240,
                0 <= q <= 11796,
        ;
        if i + 1 < cb.order {
            let w = pred_weight(cb, idx[0], i);
            let b = 1844 * (cb.order - i - 1);
            assert(-b * 256 <= r * w <= b * 256) by (nonlinear_arith)
                requires
                    -b <= r <= b,
                    0 <= w <= 255,
                    b >= 0,
            ;
        }
    }
}

/// Frequency (Q15) `k` of a residual (Q10), before frequencies are moved apart.
pub open spec fn coefficient(cb: SilkNlsfCb, i1: int, res: int, k: int) -> int {
    clamped(
        cb1_at(cb, i1, k) * 128 + div_trunc(res * 0x4000, nlsf_weight(cb, i1, k)),
        0,
        0x7fff,
    )
}

/// Frequencies (Q15) of residuals (Q10), before they are moved apart.
pub fn normalize_line_spectral_frequency_coefficients(
    nlsf_q15: &mut [i16],
    bandwidth: Bandwidth,
    res_q10: &[i16],
    i1: u32,
)
    requires
        old(nlsf_q15)@.len() == order_of(bandwidth),
        res_q10@.len() == order_of(bandwidth),
        i1 < 32,
    ensures
        final(nlsf_q15)@.len() == order_of(bandwidth),
        forall|cb: SilkNlsfCb, k: int|
            is_codebook(bandwidth, cb) && 0 <= k < order_of(bandwidth) ==> #[trigger] final(
                nlsf_q15)@[k] == #[trigger] coefficient(cb, i1 as int, res_q10@[k] as int, k),
        frequencies(final(nlsf_q15)@),
{
    let cb: SilkNlsfCb = codebook_of(bandwidth);
    let order: usize = cb.order as usize;
    for k in 0..order
        invariant
            is_codebook(bandwidth, cb),
            order == cb.order,
            i1 < 32,
            nlsf_q15@.len() == order,
            res_q10@.len() == order,
            forall|j: int|
                0 <= j < k ==> #[trigger] nlsf_q15@[j] == coefficient(
                    cb,
                    i1 as int,
                    res_q10@[j] as int,
                    j,
                ),
    {
        let w: i32 = weight(&cb, i1 as usize, k);
        proof {
            let o = order as int;
            let v = i1 as int;
            vstd::arithmetic::mul::lemma_mul_inequality(v + 1, 32, o);
            vstd::arithmetic::mul::lemma_mul_is_distributive_add_other_way(o, v, 1);
            vstd::arithmetic::mul::lemma_mul_nonnegative(v, o);
            assert(cb.n_vectors * cb.order == 32 * o);
        }
        let first: i64 = cb.cb1_nlsf_q8[i1 as usize * order + k] as i64 * 128;
        let value: i64 = first + quotient(res_q10[k] as i64 * 0x4000, w);
        nlsf_q15[k] = if value < 0 {
            0
        } else if value > 0x7fff {
            0x7fff
        } else {
            value as i16
        };
    }
    proof {
        assert forall|other: SilkNlsfCb, k: int|
            is_codebook(bandwidth, other) && 0 <= k < order_of(bandwidth) implies #[trigger]
        nlsf_q15@[k] == #[trigger] coefficient(other, i1 as int, res_q10@[k] as int, k) by {
            lemma_same_codebook(bandwidth, cb, other, i1 as int, res_q10@[k] as int, k);
        }
    }
}

/// There is one codebook for a bandwidth.
proof fn lemma_same_codebook(
    b: Bandwidth,
    x: SilkNlsfCb,
    y: SilkNlsfCb,
    i1: int,
    res: int,
    k: int,
)
    requires
        is_codebook(b, x),
        is_codebook(b, y),
    ensures
        coefficient(x, i1, res, k) == coefficient(y, i1, res, k),
{
    assert(cb1_at(x, i1, k) == cb1_at(y, i1, k));
    assert(cb1_at(x, i1, k - 1) == cb1_at(y, i1, k - 1));
    assert(cb1_at(x, i1, k + 1) == cb1_at(y, i1, k + 1));
}

/// Moves frequencies (Q15) apart.
pub fn normalize_lsf_stabilization(nlsf_q15: &mut [i16], bandwidth: Bandwidth)
    requires
        old(nlsf_q15)@.len() == order_of(bandwidth),
        frequencies(old(nlsf_q15)@),
    ensures
        final(nlsf_q15)@.len() == order_of(bandwidth),
        forall|cb: SilkNlsfCb| #[trigger]
            is_codebook(bandwidth, cb) ==> final(nlsf_q15)@ == stabilized(
                old(nlsf_q15)@,
                cb.delta_min_q15@,
            ) && spaced(final(nlsf_q15)@, cb.delta_min_q15@),
{
    let cb: SilkNlsfCb = codebook_of(bandwidth);
    nlsf_stabilize(nlsf_q15, cb.delta_min_q15);
}

/// A frequency between those of two frames, by a weight of quarters.
pub open spec fn interpolated(prev: int, next: int, w: int) -> int {
    wrap16(prev + (w * (next - prev)) / 4)
}

impl Decoder {
    /// Reads the first-stage index of the frequencies.
    pub fn normalize_line_spectral_frequency_stage_one(
        &mut self,
        range_decoder: &mut RangeDecoder,
        voiced: bool,
        bandwidth: Bandwidth,
    ) -> (r: u32)
        requires
            is_speech(bandwidth),
            old(range_decoder).wf(),
            dec_inside(old(range_decoder)@),
        ensures
            *final(self) == *old(self),
            final(range_decoder).wf(),
            dec_inside(final(range_decoder)@),
            r < 32,
            forall|cb: SilkNlsfCb| #[trigger]
                is_codebook(bandwidth, cb) ==> {
                    let t = stage1_table(
                        cb,
                        if voiced {
                            FrameSignalType::Voiced
                        } else {
                            FrameSignalType::Unvoiced
                        },
                    );
                    r == sym(old(range_decoder)@, t) && final(range_decoder)@ == nxt(
                        old(range_decoder)@,
                        t,
                    )
                },
    {
        let cb: SilkNlsfCb = codebook_of(bandwidth);
        assert(cb.cb1_icdf@[31] == 0 && cb.cb1_icdf@[63] == 0);
        if voiced {
            read(range_decoder, &cb.cb1_icdf[32..64]) as u32
        } else {
            read(range_decoder, &cb.cb1_icdf[0..32]) as u32
        }
    }

    /// Reads the residuals (Q10) of the frequencies.
    pub fn normalize_line_spectral_frequency_stage_two(
        &mut self,
        range_decoder: &mut RangeDecoder,
        bandwidth: Bandwidth,
        i1: u32,
    ) -> (r: Vec<i16>)
        requires
            i1 < 32,
            old(range_decoder).wf(),
            dec_inside(old(range_decoder)@),
        ensures
            *final(self) == *old(self),
            final(range_decoder).wf(),
            dec_inside(final(range_decoder)@),
            r@.len() == order_of(bandwidth),
            exists|cb: SilkNlsfCb| #[trigger]
                is_codebook(bandwidth, cb) && final(range_decoder)@ == stage2_next(
                    old(range_decoder)@,
                    cb,
                    i1 as int,
                    cb.order as nat,
                ) && forall|k: int|
                    0 <= k < r@.len() ==> #[trigger] r@[k] == nlsf_residual(
                        cb,
                        stage_indices(old(range_decoder)@, cb, i1 as int),
                        k,
                    ),
    {
        let cb: SilkNlsfCb = codebook_of(bandwidth);
        let ghost s = range_decoder@;
        let ghost idx = stage_indices(s, cb, i1 as int);
        let order: usize = cb.order as usize;
        let mut indices: [i8; 17] = [0;17];
        indices[0] = i1 as i8;
        let mut k: usize = 0;
        while k < order
            invariant
                is_codebook(bandwidth, cb),
                order == cb.order,
                k <= order,
                i1 < 32,
                range_decoder.wf(),
                dec_inside(range_decoder@),
                idx == stage_indices(s, cb, i1 as int),
                range_decoder@ == stage2_next(s, cb, i1 as int, k as nat),
                forall|j: int| 0 <= j <= k ==> #[trigger] indices[j] == idx[j],
                forall|j: int| k < j < 17 ==> #[trigger] indices[j] == 0,
                forall|j: int| 1 <= j <= k ==> -10 <= #[trigger] indices[j] <= 10,
            decreases order - k,
        {
            indices[k + 1] = read_stage2(range_decoder, &cb, i1 as usize, k);
            k = k + 1;
        }
        let ghost whole = Seq::new(17, |i: int| indices[i] as int);
        assert(whole =~= idx);
        let res: [i32; 16] = residuals(&cb, &indices, Ghost(whole));
        let mut out: Vec<i16> = Vec::new();
        for j in 0..order
            invariant
                is_codebook(bandwidth, cb),
                order == cb.order,
                idx.len() == 17,
                0 <= idx[0] < 32,
                forall|t: int| 1 <= t <= cb.order ==> -10 <= #[trigger] idx[t] <= 10,
                forall|t: int| 0 <= t < order ==> #[trigger] res[t] == nlsf_residual(cb, idx, t),
                out@.len() == j,
                forall|t: int| 0 <= t < j ==> #[trigger] out@[t] == nlsf_residual(cb, idx, t),
        {
            proof {
                lemma_small_residual(cb, idx, j as int);
            }
            out.push(res[j] as i16);
        }
        assert(is_codebook(bandwidth, cb));
        out
    }

    /// Reads the weight of the last frame's frequencies, and gives the
    /// frequencies (Q15) of the first half of the frame where they differ from
    /// those of the second.
    pub fn normalize_lsf_interpolation(
        &mut self,
        range_decoder: &mut RangeDecoder,
        n2_q15: &[i16],
    ) -> (r: (Option<Vec<i16>>, i16))
        requires
            n2_q15@.len() <= 16,
            old(range_decoder).wf(),
            dec_inside(old(range_decoder)@),
        ensures
            *final(self) == *old(self),
            final(range_decoder).wf(),
            dec_inside(final(range_decoder)@),
            final(range_decoder)@ == nxt(
                old(range_decoder)@,
                SILK_NLSF_INTERPOLATION_FACTOR_ICDF@,
            ),
            ({
                let w = sym(old(range_decoder)@, SILK_NLSF_INTERPOLATION_FACTOR_ICDF@);
                &&& r.1 == w
                &&& 0 <= w <= 4
                &&& match r.0 {
                    None => w == 4 || !old(self).have_decoded,
                    Some(n1) => w != 4 && old(self).have_decoded && n1@.len() == n2_q15@.len()
                        && forall|k: int|
                        0 <= k < n1@.len() ==> #[trigger] n1@[k] == interpolated(
                            old(self).n0_q15[k] as int,
                            n2_q15@[k] as int,
                            w,
                        ),
                }
            }),
    {
        assert(SILK_NLSF_INTERPOLATION_FACTOR_ICDF@.last() == 0);
        let w: i16 = read(range_decoder, &SILK_NLSF_INTERPOLATION_FACTOR_ICDF) as i16;
        if w == 4 || !self.have_decoded {
            return (None, w);
        }
        let n: usize = n2_q15.len();
        let mut out: Vec<i16> = Vec::new();
        for k in 0..n
            invariant
                n <= 16,
                n == n2_q15@.len(),
                0 <= w <= 3,
                out@.len() == k,
                forall|j: int|
                    0 <= j < k ==> #[trigger] out@[j] == interpolated(
                        self.n0_q15[j] as int,
                        n2_q15@[j] as int,
                        w as int,
                    ),
        {
            let prev: i32 = self.n0_q15[k] as i32;
            let diff: i32 = n2_q15[k] as i32 - prev;
            proof {
                lemma2_to64();
                assert(-3 * 0x1_0000 <= w * diff <= 3 * 0x1_0000) by (nonlinear_arith)
                    requires
                        0 <= w <= 3,
                        -0x1_0000 <= diff <= 0x1_0000,
                ;
            }
            out.push(narrow16(prev + shr32(w as i32 * diff, 2)));
        }
        (Some(out), w)
    }
}

/// Frequencies between those of two frames are no lower than the lower ones and
/// no higher than the higher ones.
pub proof fn law_interpolation_lies_between(prev: int, next: int, w: int)
    requires
        0 <= prev <= 0x7fff,
        0 <= next <= 0x7fff,
        0 <= w <= 3,
    ensures
        prev <= next ==> prev <= interpolated(prev, next, w) <= next,
        next <= prev ==> next <= interpolated(prev, next, w) <= prev,
{
    let d = next - prev;
    let v = (w * d) / 4;
    if d >= 0 {
        assert(0 <= w * d <= 3 * d) by (nonlinear_arith)
            requires
                0 <= w <= 3,
                d >= 0,
        ;
    } else {
        assert(3 * d <= w * d <= 0) by (nonlinear_arith)
            requires
                0 <= w <= 3,
                d < 0,
        ;
    }
    crate::fixed::lemma_wrap16_range(prev + v);
}

} // verus!
