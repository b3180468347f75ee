//! The parameters of a mono 20 ms frame.
use crate::packet::Bandwidth;
use crate::range::{
    dec_inside, dec_logp_bit, dec_logp_next, dec_start, DecState, RangeDecoder,
};
use crate::silk::decode_indices::{gains_next, nxt, stage1_table, stage2_next, sym, type_read};
use crate::silk::decoder::{
    coefficient, filter_of, gain_indices_read, generate_a_q12, interpolated, ints_of_i32,
    is_codebook, is_speech, khz_of, law_interpolation_lies_between, log_gain_at,
    normalize_line_spectral_frequency_coefficients, normalize_lsf_stabilization, order_of,
    stage_indices, DecodeError, Decoder, ExcitationQ23, PitchLagInfo, ShellBlockCounts,
    NANOSECONDS_20_MS,
};
use crate::silk::decoder_excitation::{
    blocks_of, counts_after, counts_hold, excitation_q23, lag_of_subframe, lags_next, level_table,
    ltp_scale, offset_q23, raw_pulses, raw_values, tap_read, taps_next,
};
use crate::silk::gain_quant::level_gain;
use crate::silk::nlsf_cb::SilkNlsfCb;
use crate::silk::nlsf_decode::nlsf_residual;
use crate::silk::nlsf_stabilize::{frequencies, spaced, stabilized};
use crate::silk::tables_other::{
    SILK_LTPSCALE_ICDF, SILK_NLSF_INTERPOLATION_FACTOR_ICDF, SILK_UNIFORM4_ICDF,
};
use crate::silk::types::{FrameQuantizationOffsetType, FrameSignalType};
use vstd::prelude::*;

verus! {

/// Signal type, gains and short-term predictors of a frame.
#[derive(Debug)]
pub struct FrameSpectrum {
    pub signal_type: FrameSignalType,
    pub quantization_offset_type: FrameQuantizationOffsetType,
    /// Gains of the subframes (Q16).
    pub gains_q16: [i32; 4],
    /// Frequencies (Q15).
    pub nlsf_q15: Vec<i16>,
    /// Weight of the last frame's frequencies in quarters; 4 for none.
    pub w_q2: i16,
    /// Predictors (Q12): one, or those of both halves.
    pub a_q12: Vec<Vec<i32>>,
}

/// Long-term predictors and excitation of a frame.
#[derive(Debug)]
pub struct FrameExcitation {
    pub pitch: Option<PitchLagInfo>,
    /// Long-term predictors (Q7).
    pub ltp: Option<[[i8; 5]; 4]>,
    /// Scale of the long-term predictor's state (Q14).
    pub ltp_scale_q14: i32,
    pub excitation: ExcitationQ23,
}

/// What a frame is synthesised with.
#[derive(Debug)]
pub struct SilkFrame {
    pub spectrum: FrameSpectrum,
    pub source: FrameExcitation,
}

/// Frequencies (Q15) of a first-stage index and the residuals behind it.
pub open spec fn nlsf_read(s: DecState, cb: SilkNlsfCb, i1: int) -> Seq<i16> {
    stabilized(
        Seq::new(
            cb.order as nat,
            |k: int|
                coefficient(cb, i1, nlsf_residual(cb, stage_indices(s, cb, i1), k), k) as i16,
        ),
        cb.delta_min_q15@,
    )
}

/// The model of the first-stage index.
pub open spec fn first_table(cb: SilkNlsfCb, voiced: bool) -> Seq<u8> {
    stage1_table(
        cb,
        if voiced {
            FrameSignalType::Voiced
        } else {
            FrameSignalType::Unvoiced
        },
    )
}

/// Frequencies (Q15) of the first half of a frame.
pub open spec fn halfway(d: Decoder, nlsf: Seq<i16>, w: int) -> Seq<i16> {
    Seq::new(
        nlsf.len(),
        |k: int| interpolated(d.n0_q15[k] as int, nlsf[k] as int, w) as i16,
    )
}

/// The spectrum of a frame was read from `s`, and the decoder stands at `end`.
pub open spec fn spectrum_parsed(
    d: Decoder,
    s: DecState,
    vad: bool,
    cb: SilkNlsfCb,
    f: FrameSpectrum,
    end: DecState,
    a: Decoder,
) -> bool {
    let (raw, s1) = type_read(s, vad);
    let signal = FrameSignalType::of_number(raw / 2);
    let gains = gain_indices_read(s1, signal);
    let s2 = gains_next(s1, signal, false, 4);
    let table = first_table(cb, signal == FrameSignalType::Voiced);
    let i1 = sym(s2, table);
    let s3 = nxt(s2, table);
    let s4 = stage2_next(s3, cb, i1, cb.order as nat);
    let w = sym(s4, SILK_NLSF_INTERPOLATION_FACTOR_ICDF@);
    let split = w != 4 && d.have_decoded;
    let n = f.a_q12@.len();
    &&& f.signal_type == signal
    &&& f.quantization_offset_type.number() == raw % 2
    &&& forall|k: int|
        0 <= k < 4 ==> #[trigger] f.gains_q16[k] == level_gain(log_gain_at(d, gains, k))
    &&& f.nlsf_q15@ == nlsf_read(s3, cb, i1)
    &&& f.w_q2 == w
    &&& n == if split {
        2nat
    } else {
        1
    }
    &&& split ==> ints_of_i32(f.a_q12@[0]@) == filter_of(halfway(d, f.nlsf_q15@, w))
    &&& ints_of_i32(f.a_q12@[n - 1]@) == filter_of(f.nlsf_q15@)
    &&& end == nxt(s4, SILK_NLSF_INTERPOLATION_FACTOR_ICDF@)
    &&& a == (Decoder { previous_log_gain: a.previous_log_gain, ..d })
    &&& a.previous_log_gain == log_gain_at(d, gains, 3)
}

/// The excitation of a frame was read from `s`.
pub open spec fn source_parsed(
    s: DecState,
    b: Bandwidth,
    signal: FrameSignalType,
    offset: FrameQuantizationOffsetType,
    c: ShellBlockCounts,
    f: FrameExcitation,
) -> bool {
    let voiced = signal == FrameSignalType::Voiced;
    let s1 = if voiced {
        lags_next(s, b)
    } else {
        s
    };
    let s2 = if voiced {
        taps_next(s1)
    } else {
        s1
    };
    let s3 = if voiced {
        nxt(s2, SILK_LTPSCALE_ICDF@)
    } else {
        s2
    };
    let seed = sym(s3, SILK_UNIFORM4_ICDF@);
    let s4 = nxt(s3, SILK_UNIFORM4_ICDF@);
    let level = sym(s4, level_table(voiced));
    let s5 = nxt(s4, level_table(voiced));
    let s6 = counts_after(s5, level, c.block_count as nat);
    let raw = raw_values(raw_pulses(s6, c, signal, offset));
    let n = 16 * c.block_count;
    &&& f.pitch is Some == voiced
    &&& voiced ==> f.pitch->0.lag_max == 18 * khz_of(b) && forall|k: int|
        0 <= k < 4 ==> #[trigger] f.pitch->0.pitch_lags[k] == lag_of_subframe(s, b, k)
    &&& f.ltp is Some == voiced
    &&& voiced ==> forall|k: int, t: int|
        0 <= k < 4 && 0 <= t < 5 ==> #[trigger] f.ltp->0[k][t] == tap_read(s1, k, t)
    &&& f.ltp_scale_q14 == if voiced {
        ltp_scale(sym(s2, SILK_LTPSCALE_ICDF@))
    } else {
        15565
    }
    &&& c.block_count == blocks_of(b, NANOSECONDS_20_MS as int)
    &&& counts_hold(c, s5, level)
    &&& f.excitation.len == n
    &&& forall|i: int|
        0 <= i < 320 ==> #[trigger] f.excitation.values[i] == if i < n {
            excitation_q23(raw, offset_q23(signal, offset), seed, i)
        } else {
            0
        }
}

/// Why a frame is not read at all.
pub open spec fn frame_fault(b: Bandwidth, out_len: int, is_stereo: bool, nanoseconds: int) -> Option<
    DecodeError,
> {
    if nanoseconds != NANOSECONDS_20_MS {
        Some(DecodeError::UnsupportedFrameDuration)
    } else if is_stereo {
        Some(DecodeError::StereoUnsupported)
    } else if 4 * b.subframe_samples() > out_len {
        Some(DecodeError::OutBufferTooSmall)
    } else {
        None
    }
}

/// The first bits of a payload: whether the frame is active, whether redundancy
/// precedes it, and the decoder behind them.
pub open spec fn header_bits(input: Seq<u8>) -> (bool, bool, DecState) {
    let s = dec_start(input);
    let s1 = dec_logp_next(s, 1);
    (dec_logp_bit(s, 1) == 1, dec_logp_bit(s1, 1) == 1, dec_logp_next(s1, 1))
}

impl Decoder {
    /// Reads the spectrum of a frame.
    #[verifier::rlimit(60)]
    fn read_spectrum(
        &mut self,
        range_decoder: &mut RangeDecoder,
        vad: bool,
        bandwidth: Bandwidth,
    ) -> (r: (FrameSpectrum, Ghost<SilkNlsfCb>))
        requires
            old(self).wf(),
            is_speech(bandwidth),
            old(range_decoder).wf(),
            dec_inside(old(range_decoder)@),
        ensures
            final(self).wf(),
            final(range_decoder).wf(),
            dec_inside(final(range_decoder)@),
            is_codebook(bandwidth, r.1@),
            spectrum_parsed(
                *old(self),
                old(range_decoder)@,
                vad,
                r.1@,
                r.0,
                final(range_decoder)@,
                *final(self),
            ),
            r.0.nlsf_q15@.len() == order_of(bandwidth),
            frequencies(r.0.nlsf_q15@),
    {
        let ghost d = *self;
        let (signal_type, quantization_offset_type) = self.determine_frame_type(range_decoder, vad);
        let gains_q16: [i32; 4] = self.decode_subframe_quantizations(range_decoder, signal_type);
        let voiced: bool = matches!(signal_type, FrameSignalType::Voiced);
        let i1: u32 = self.normalize_line_spectral_frequency_stage_one(
            range_decoder,
            voiced,
            bandwidth,
        );
        let ghost s3 = range_decoder@;
        let res: Vec<i16> = self.normalize_line_spectral_frequency_stage_two(
            range_decoder,
            bandwidth,
            i1,
        );
        let ghost cb = choose|cb: SilkNlsfCb| #[trigger]
            is_codebook(bandwidth, cb) && range_decoder@ == stage2_next(
                s3,
                cb,
                i1 as int,
                cb.order as nat,
            ) && forall|k: int|
                0 <= k < res@.len() ==> #[trigger] res@[k] == nlsf_residual(
                    cb,
                    stage_indices(s3, cb, i1 as int),
                    k,
                );
        let n: usize = res.len();
        let mut nlsf_q15: Vec<i16> = vec![0i16;n];
        normalize_line_spectral_frequency_coefficients(
            nlsf_q15.as_mut_slice(),
            bandwidth,
            res.as_slice(),
            i1,
        );
        proof {
            assert(nlsf_q15@ =~= Seq::new(
                cb.order as nat,
                |k: int|
                    coefficient(
                        cb,
                        i1 as int,
                        nlsf_residual(cb, stage_indices(s3, cb, i1 as int), k),
                        k,
                    ) as i16,
            )) by {
                assert forall|k: int| 0 <= k < nlsf_q15@.len() implies #[trigger] nlsf_q15@[k]
                    == coefficient(
                    cb,
                    i1 as int,
                    nlsf_residual(cb, stage_indices(s3, cb, i1 as int), k),
                    k,
                ) by {
                    assert(res@[k] == nlsf_residual(cb, stage_indices(s3, cb, i1 as int), k));
                    assert(nlsf_q15@[k] == coefficient(cb, i1 as int, res@[k] as int, k));
                }
            }
        }
        normalize_lsf_stabilization(nlsf_q15.as_mut_slice(), bandwidth);
        proof {
            lemma_spaced_frequencies(nlsf_q15@, cb);
        }
        let (halfway_nlsf, w_q2) = self.normalize_lsf_interpolation(
            range_decoder,
            nlsf_q15.as_slice(),
        );
        let mut a_q12: Vec<Vec<i32>> = Vec::new();
        if let Some(n1) = &halfway_nlsf {
            proof {
                assert forall|k: int| 0 <= k < n1@.len() implies 0 <= #[trigger] n1@[k] by {
                    law_interpolation_lies_between(
                        d.n0_q15[k] as int,
                        nlsf_q15@[k] as int,
                        w_q2 as int,
                    );
                }
                assert(n1@ =~= halfway(d, nlsf_q15@, w_q2 as int));
            }
            generate_a_q12(Some(n1), &mut a_q12);
        }
        let ghost before = a_q12@;
        generate_a_q12(Some(&nlsf_q15), &mut a_q12);
        proof {
            if before.len() == 1 {
                assert(a_q12@[0] == a_q12@.drop_last()[0]);
            }
        }
        (
            FrameSpectrum {
                signal_type,
                quantization_offset_type,
                gains_q16,
                nlsf_q15,
                w_q2,
                a_q12,
            },
            Ghost(cb),
        )
    }
}

/// Frequencies that keep their distances are not negative.
proof fn lemma_spaced_frequencies(x: Seq<i16>, cb: SilkNlsfCb)
    requires
        cb.wf(),
        x.len() == cb.order,
        spaced(x, cb.delta_min_q15@),
    ensures
        frequencies(x),
{
    assert forall|i: int| 0 <= i < x.len() implies 0 <= #[trigger] x[i] by {
        crate::silk::decode_parameters::lemma_spaced_positive(x, cb.delta_min_q15@, i);
    }
}

/// The decoder after a frame: its frequencies are the last ones.
pub open spec fn frame_kept(b: Decoder, f: FrameSpectrum, a: Decoder) -> bool {
    let n = f.nlsf_q15@.len();
    &&& a == (Decoder {
        have_decoded: true,
        is_previous_frame_voiced: f.signal_type == FrameSignalType::Voiced,
        n0_q15: a.n0_q15,
        n0_q15_len: n as usize,
        ..b
    })
    &&& forall|k: int|
        0 <= k < 16 ==> #[trigger] a.n0_q15[k] == if k < n {
            f.nlsf_q15@[k]
        } else {
            b.n0_q15[k]
        }
}

/// How a frame was read.
pub struct FrameSteps {
    pub cb: SilkNlsfCb,
    /// The decoder behind the spectrum.
    pub s: DecState,
    /// What is kept behind the spectrum.
    pub d: Decoder,
    pub counts: ShellBlockCounts,
}

impl Decoder {
    /// Reads the excitation of a frame.
    fn read_source(
        &mut self,
        range_decoder: &mut RangeDecoder,
        bandwidth: Bandwidth,
        signal_type: FrameSignalType,
        quantization_offset_type: FrameQuantizationOffsetType,
    ) -> (r: (FrameExcitation, Ghost<ShellBlockCounts>))
        requires
            is_speech(bandwidth),
            old(range_decoder).wf(),
            dec_inside(old(range_decoder)@),
        ensures
            *final(self) == *old(self),
            source_parsed(
                old(range_decoder)@,
                bandwidth,
                signal_type,
                quantization_offset_type,
                r.1@,
                r.0,
            ),
    {
        let pitch: Option<PitchLagInfo> = match self.decode_pitch_lags(
            range_decoder,
            signal_type,
            bandwidth,
        ) {
            Ok(found) => found,
            Err(_) => None,
        };
        let ltp: Option<[[i8; 5]; 4]> = self.decode_ltp_filter_coefficients(
            range_decoder,
            signal_type,
        );
        let ltp_scale_q14: i32 = self.decode_ltp_scaling_parameter(range_decoder, signal_type);
        let seed: u32 = self.decode_linear_congruential_generator_seed(range_decoder);
        let blocks: usize = self.decode_shell_blocks(NANOSECONDS_20_MS, bandwidth);
        let voiced: bool = matches!(signal_type, FrameSignalType::Voiced);
        let level: u32 = self.decode_rate_level(range_decoder, voiced);
        let counts: ShellBlockCounts = self.decode_pulse_and_lsb_counts(
            range_decoder,
            blocks,
            level,
        );
        let excitation: ExcitationQ23 = self.decode_excitation(
            range_decoder,
            signal_type,
            quantization_offset_type,
            seed,
            &counts,
        );
        (FrameExcitation { pitch, ltp, ltp_scale_q14, excitation }, Ghost(counts))
    }

    /// Reads what a frame is synthesised with from its payload; `out_len` is
    /// the room for its samples.
    pub fn decode(
        &mut self,
        input: &[u8],
        out_len: usize,
        is_stereo: bool,
        nanoseconds: u32,
        bandwidth: Bandwidth,
    ) -> (r: Result<(SilkFrame, Ghost<FrameSteps>), DecodeError>)
        requires
            old(self).wf(),
            input@.len() <= usize::MAX / 8,
            is_speech(bandwidth) || frame_fault(
                bandwidth,
                out_len as int,
                is_stereo,
                nanoseconds as int,
            ) is Some || header_bits(input@).1,
        ensures
            final(self).wf(),
            match frame_fault(bandwidth, out_len as int, is_stereo, nanoseconds as int) {
                Some(e) => r == Err::<(SilkFrame, Ghost<FrameSteps>), DecodeError>(e)
                    && *final(self) == *old(self),
                None => if header_bits(input@).1 {
                    r == Err::<(SilkFrame, Ghost<FrameSteps>), DecodeError>(
                        DecodeError::UnsupportedLowBitrateRedundancy,
                    ) && *final(self) == *old(self)
                } else {
                    &&& r is Ok
                    &&& ({
                        let (f, steps) = r->Ok_0;
                        let w = steps@;
                        let (vad, _, s) = header_bits(input@);
                        &&& is_codebook(bandwidth, w.cb)
                        &&& spectrum_parsed(*old(self), s, vad, w.cb, f.spectrum, w.s, w.d)
                        &&& source_parsed(
                            w.s,
                            bandwidth,
                            f.spectrum.signal_type,
                            f.spectrum.quantization_offset_type,
                            w.counts,
                            f.source,
                        )
                        &&& frame_kept(w.d, f.spectrum, *final(self))
                    })
                },
            },
    {
        let samples: usize = 4 * bandwidth.samples_in_subframe() as usize;
        if nanoseconds != NANOSECONDS_20_MS {
            return Err(DecodeError::UnsupportedFrameDuration);
        }
        if is_stereo {
            return Err(DecodeError::StereoUnsupported);
        }
        if samples > out_len {
            return Err(DecodeError::OutBufferTooSmall);
        }
        let mut range_decoder: RangeDecoder = RangeDecoder::init(input);
        let (vad, lbrr) = self.decode_header_bits(&mut range_decoder);
        if lbrr {
            return Err(DecodeError::UnsupportedLowBitrateRedundancy);
        }
        let (spectrum, cb) = self.read_spectrum(&mut range_decoder, vad, bandwidth);
        let ghost w_s = range_decoder@;
        let ghost w_d = *self;
        let (source, counts) = self.read_source(
            &mut range_decoder,
            bandwidth,
            spectrum.signal_type,
            spectrum.quantization_offset_type,
        );
        self.keep_frame(&spectrum);
        let steps = Ghost(FrameSteps { cb: cb@, s: w_s, d: w_d, counts: counts@ });
        Ok((SilkFrame { spectrum, source }, steps))
    }

    /// Keeps what the next frame needs of a frame.
    fn keep_frame(&mut self, f: &FrameSpectrum)
        requires
            old(self).wf(),
            f.nlsf_q15@.len() <= 16,
            frequencies(f.nlsf_q15@),
        ensures
            final(self).wf(),
            frame_kept(*old(self), *f, *final(self)),
    {
        let n: usize = f.nlsf_q15.len();
        let ghost b = *self;
        let mut kept: [i16; 16] = self.n0_q15;
        for k in 0..n
            invariant
                n <= 16,
                n == f.nlsf_q15@.len(),
                forall|j: int|
                    0 <= j < 16 ==> #[trigger] kept[j] == if j < k {
                        f.nlsf_q15@[j]
                    } else {
                        b.n0_q15[j]
                    },
        {
            kept[k] = f.nlsf_q15[k];
        }
        self.n0_q15 = kept;
        self.n0_q15_len = n;
        self.have_decoded = true;
        self.is_previous_frame_voiced = matches!(f.signal_type, FrameSignalType::Voiced);
        proof {
            assert forall|i: int| 0 <= i < 16 implies 0 <= #[trigger] self.n0_q15[i] by {
                if i < n {
                    assert(f.nlsf_q15@[i] >= 0);
                } else {
                    assert(b.n0_q15[i] >= 0);
                }
            }
        }
    }
}

} // verus!
