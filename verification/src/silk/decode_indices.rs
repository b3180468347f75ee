//! Side information of a frame.

use crate::icdf::ICDFContext;
use crate::range::{
    dec_context_next, dec_context_symbol, dec_icdf_next, dec_icdf_symbol, dec_inside, ints_of_u8,
    DecState, RangeDecoder,
};
use crate::silk::icdf::{
    delta_quantization_gain, independent_quantization_gain_lsb,
    independent_quantization_gain_msb_inactive, independent_quantization_gain_msb_unvoiced,
    independent_quantization_gain_msb_voiced, DELTA_QUANTIZATION_GAIN_TABLE,
    INDEPENDENT_QUANTIZATION_GAIN_LSB_TABLE, INDEPENDENT_QUANTIZATION_GAIN_MSB_INACTIVE_TABLE,
    INDEPENDENT_QUANTIZATION_GAIN_MSB_UNVOICED_TABLE,
    INDEPENDENT_QUANTIZATION_GAIN_MSB_VOICED_TABLE,
};
use crate::silk::nlsf_cb::SilkNlsfCb;
use crate::silk::shell_coder::lemma_u8_table;
use crate::silk::tables_ltp::{
    SILK_LTP_GAIN_ICDF_0, SILK_LTP_GAIN_ICDF_1, SILK_LTP_GAIN_ICDF_2, SILK_LTP_PER_INDEX_ICDF,
};
use crate::silk::tables_other::{
    SILK_LTPSCALE_ICDF, SILK_NLSF_EXT_ICDF, SILK_NLSF_INTERPOLATION_FACTOR_ICDF,
    SILK_TYPE_OFFSET_NO_VAD_ICDF, SILK_TYPE_OFFSET_VAD_ICDF, SILK_UNIFORM4_ICDF,
    SILK_UNIFORM8_ICDF,
};
use crate::silk::tables_pitch_lag::{PITCH_CONTOUR_ICDF, PITCH_DELTA_ICDF, PITCH_LAG_ICDF};
use crate::silk::types::{FrameQuantizationOffsetType, FrameSignalType};
use vstd::arithmetic::mul::*;
use vstd::prelude::*;

verus! {

/// How a frame's parameters relate to the frame before.
#[derive(Debug, Clone, Copy, PartialEq, Eq, Structural)]
pub enum ConditionalCoding {
    Independent,
    IndependentNoLtpScaling,
    Conditional,
}

/// Quantisation indices of a frame.
#[derive(Debug, Clone, Copy, PartialEq, Eq)]
pub struct SideInfoIndices {
    pub gains_indices: [i8; 4],
    pub ltp_index: [i8; 4],
    pub nlsf_indices: [i8; 17],
    pub lag_index: i16,
    pub contour_index: i8,
    pub signal_type: FrameSignalType,
    pub quant_offset_type: FrameQuantizationOffsetType,
    pub nlsf_interp_coef_q2: i8,
    pub per_index: i8,
    pub ltp_scale_index: i8,
    pub seed: i8,
}

/// The same as sequences and integers.
pub struct Indices {
    pub gains: Seq<int>,
    pub ltp: Seq<int>,
    pub nlsf: Seq<int>,
    pub lag: int,
    pub contour: int,
    pub signal: FrameSignalType,
    pub offset: FrameQuantizationOffsetType,
    pub interp: int,
    pub per: int,
    pub scale: int,
    pub seed: int,
}

pub open spec fn ints_of_i8(s: Seq<i8>) -> Seq<int> {
    Seq::new(s.len(), |i: int| s[i] as int)
}

impl View for SideInfoIndices {
    type V = Indices;

    open spec fn view(&self) -> Indices {
        Indices {
            gains: ints_of_i8(self.gains_indices@),
            ltp: ints_of_i8(self.ltp_index@),
            nlsf: ints_of_i8(self.nlsf_indices@),
            lag: self.lag_index as int,
            contour: self.contour_index as int,
            signal: self.signal_type,
            offset: self.quant_offset_type,
            interp: self.nlsf_interp_coef_q2 as int,
            per: self.per_index as int,
            scale: self.ltp_scale_index as int,
            seed: self.seed as int,
        }
    }
}

/// Indices of an inactive frame.
pub open spec fn no_indices() -> Indices {
    Indices {
        gains: Seq::new(4, |i: int| 0),
        ltp: Seq::new(4, |i: int| 0),
        nlsf: Seq::new(17, |i: int| 0),
        lag: 0,
        contour: 0,
        signal: FrameSignalType::Inactive,
        offset: FrameQuantizationOffsetType::Low,
        interp: 4,
        per: 0,
        scale: 0,
        seed: 0,
    }
}

impl Default for SideInfoIndices {
    fn default() -> (r: SideInfoIndices)
        ensures
            r@ == no_indices(),
    {
        let r: SideInfoIndices = SideInfoIndices {
            gains_indices: [0;4],
            ltp_index: [0;4],
            nlsf_indices: [0;17],
            lag_index: 0,
            contour_index: 0,
            signal_type: FrameSignalType::Inactive,
            quant_offset_type: FrameQuantizationOffsetType::Low,
            nlsf_interp_coef_q2: 4,
            per_index: 0,
            ltp_scale_index: 0,
            seed: 0,
        };
        proof {
            assert(r@.gains =~= no_indices().gains);
            assert(r@.ltp =~= no_indices().ltp);
            assert(r@.nlsf =~= no_indices().nlsf);
        }
        r
    }
}

/// What side information depends on.
#[derive(Debug, Clone, Copy)]
pub struct DecoderIndicesState {
    pub vad_flags: [bool; 3],
    pub nb_subfr: usize,
    pub fs_khz: i32,
    pub lpc_order: usize,
    pub pitch_lag_low_bits_icdf: &'static [u8],
    pub pitch_contour_icdf: &'static [u8],
    pub nlsf_codebook: SilkNlsfCb,
    pub prev_signal_type: FrameSignalType,
    pub prev_lag_index: i16,
}

// ---------------------------------------------------------------------
// The stream
// ---------------------------------------------------------------------

pub open spec fn sym(s: DecState, icdf: Seq<u8>) -> int {
    dec_icdf_symbol(s, ints_of_u8(icdf), 8)
}

pub open spec fn nxt(s: DecState, icdf: Seq<u8>) -> DecState {
    dec_icdf_next(s, ints_of_u8(icdf), 8)
}

/// Signal and offset type in one number; active frames start at 2.
pub open spec fn type_read(s: DecState, active: bool) -> (int, DecState) {
    if active {
        (sym(s, SILK_TYPE_OFFSET_VAD_ICDF@) + 2, nxt(s, SILK_TYPE_OFFSET_VAD_ICDF@))
    } else {
        (sym(s, SILK_TYPE_OFFSET_NO_VAD_ICDF@), nxt(s, SILK_TYPE_OFFSET_NO_VAD_ICDF@))
    }
}

/// The context of a gain's high bits.
pub open spec fn gain_msb_table(signal: FrameSignalType) -> Seq<u16> {
    match signal {
        FrameSignalType::Inactive => INDEPENDENT_QUANTIZATION_GAIN_MSB_INACTIVE_TABLE@,
        FrameSignalType::Unvoiced => INDEPENDENT_QUANTIZATION_GAIN_MSB_UNVOICED_TABLE@,
        FrameSignalType::Voiced => INDEPENDENT_QUANTIZATION_GAIN_MSB_VOICED_TABLE@,
    }
}

/// The gain index of the first subframe: six bits on their own, or relative.
pub open spec fn first_gain_read(
    s: DecState,
    signal: FrameSignalType,
    conditional: bool,
) -> (int, DecState) {
    if conditional {
        (
            dec_context_symbol(s, 256, DELTA_QUANTIZATION_GAIN_TABLE@),
            dec_context_next(s, 256, DELTA_QUANTIZATION_GAIN_TABLE@),
        )
    } else {
        let msb = gain_msb_table(signal);
        let lsb = INDEPENDENT_QUANTIZATION_GAIN_LSB_TABLE@;
        let s1 = dec_context_next(s, 256, msb);
        (
            8 * dec_context_symbol(s, 256, msb) + dec_context_symbol(s1, 256, lsb),
            dec_context_next(s1, 256, lsb),
        )
    }
}

/// The decoder once the gains of `k` subframes are read.
pub open spec fn gains_next(
    s: DecState,
    signal: FrameSignalType,
    conditional: bool,
    k: nat,
) -> DecState
    decreases k,
{
    if k == 0 {
        s
    } else if k == 1 {
        first_gain_read(s, signal, conditional).1
    } else {
        dec_context_next(
            gains_next(s, signal, conditional, (k - 1) as nat),
            256,
            DELTA_QUANTIZATION_GAIN_TABLE@,
        )
    }
}

/// The gain index of subframe `k`.
pub open spec fn gain_read(
    s: DecState,
    signal: FrameSignalType,
    conditional: bool,
    k: int,
) -> int {
    if k == 0 {
        first_gain_read(s, signal, conditional).0
    } else {
        dec_context_symbol(
            gains_next(s, signal, conditional, k as nat),
            256,
            DELTA_QUANTIZATION_GAIN_TABLE@,
        )
    }
}

/// The first-stage model.
pub open spec fn stage1_table(cb: SilkNlsfCb, signal: FrameSignalType) -> Seq<u8> {
    let n = cb.n_vectors as int;
    if signal == FrameSignalType::Voiced {
        cb.cb1_icdf@.subrange(n, 2 * n)
    } else {
        cb.cb1_icdf@.subrange(0, n)
    }
}

/// The byte that selects the model and weight of coefficient `i`.
pub open spec fn stage2_select(cb: SilkNlsfCb, i1: int, i: int) -> int {
    cb.ec_sel@[i1 * (cb.order as int / 2) + i / 2] as int
}

/// Where the second-stage model of coefficient `i` starts.
pub open spec fn stage2_offset(cb: SilkNlsfCb, i1: int, i: int) -> int {
    let e = stage2_select(cb, i1, i);
    9 * ((if i % 2 == 0 {
        e / 2
    } else {
        e / 32
    }) % 8)
}

pub open spec fn stage2_table(cb: SilkNlsfCb, i1: int, i: int) -> Seq<u8> {
    let o = stage2_offset(cb, i1, i);
    cb.ec_icdf@.subrange(o, o + 9)
}

/// A second-stage index, extended where it reaches the quantiser's end.
pub open spec fn stage2_read(s: DecState, cb: SilkNlsfCb, i1: int, i: int) -> (int, DecState) {
    let t = stage2_table(cb, i1, i);
    let k = sym(s, t);
    let s1 = nxt(s, t);
    if k == 0 {
        (-4 - sym(s1, SILK_NLSF_EXT_ICDF@), nxt(s1, SILK_NLSF_EXT_ICDF@))
    } else if k == 8 {
        (4 + sym(s1, SILK_NLSF_EXT_ICDF@), nxt(s1, SILK_NLSF_EXT_ICDF@))
    } else {
        (k - 4, s1)
    }
}

/// The decoder once `i` second-stage indices are read.
pub open spec fn stage2_next(s: DecState, cb: SilkNlsfCb, i1: int, i: nat) -> DecState
    decreases i,
{
    if i == 0 {
        s
    } else {
        stage2_read(stage2_next(s, cb, i1, (i - 1) as nat), cb, i1, i - 1).1
    }
}

/// The lag index: relative to the previous lag where that is coded so.
pub open spec fn lag_read(
    s: DecState,
    fs_khz: int,
    low_bits: Seq<u8>,
    relative: bool,
    prev: int,
) -> (int, DecState) {
    let delta = sym(s, PITCH_DELTA_ICDF@);
    let s1 = if relative {
        nxt(s, PITCH_DELTA_ICDF@)
    } else {
        s
    };
    if relative && delta > 0 {
        (crate::fixed::clamped(prev + delta - 9, -0x8000, 0x7fff), s1)
    } else {
        let s2 = nxt(s1, PITCH_LAG_ICDF@);
        (sym(s1, PITCH_LAG_ICDF@) * (fs_khz / 2) + sym(s2, low_bits), nxt(s2, low_bits))
    }
}

pub open spec fn ltp_gain_table(per: int) -> Seq<u8> {
    if per == 0 {
        SILK_LTP_GAIN_ICDF_0@
    } else if per == 1 {
        SILK_LTP_GAIN_ICDF_1@
    } else {
        SILK_LTP_GAIN_ICDF_2@
    }
}

/// Entries of a predictor codebook.
pub open spec fn ltp_count(per: int) -> int {
    if per == 0 {
        8
    } else if per == 1 {
        16
    } else {
        32
    }
}

/// The decoder once the predictor indices of `k` subframes are read.
pub open spec fn ltp_next(s: DecState, per: int, k: nat) -> DecState
    decreases k,
{
    if k == 0 {
        s
    } else {
        nxt(ltp_next(s, per, (k - 1) as nat), ltp_gain_table(per))
    }
}

/// What a frame is read with.
pub struct IndexModel {
    pub active: bool,
    pub nb_subfr: int,
    pub fs_khz: int,
    pub order: int,
    pub low_bits: Seq<u8>,
    pub contours: Seq<u8>,
    pub cb: SilkNlsfCb,
    pub prev_voiced: bool,
    pub prev_lag: int,
    pub coding: ConditionalCoding,
}

/// Indices, the decoder after them, and the lag for the next frame.
pub struct IndexRead {
    pub indices: Indices,
    pub next: DecState,
    pub prev_lag: int,
}

/// Signal type, gains and spectrum.
pub open spec fn spectrum_read(s: DecState, m: IndexModel) -> (Indices, DecState) {
    let (raw, s1) = type_read(s, m.active);
    let signal = FrameSignalType::of_number(raw / 2);
    let conditional = m.coding == ConditionalCoding::Conditional;
    let s2 = gains_next(s1, signal, conditional, m.nb_subfr as nat);
    let t1 = stage1_table(m.cb, signal);
    let i1 = sym(s2, t1);
    let s3 = nxt(s2, t1);
    let s4 = stage2_next(s3, m.cb, i1, m.order as nat);
    let i = Indices {
        gains: Seq::new(
            4,
            |k: int|
                if k < m.nb_subfr {
                    gain_read(s1, signal, conditional, k)
                } else {
                    0
                },
        ),
        nlsf: Seq::new(
            17,
            |k: int|
                if k == 0 {
                    i1
                } else if k <= m.order {
                    stage2_read(stage2_next(s3, m.cb, i1, (k - 1) as nat), m.cb, i1, k - 1).0
                } else {
                    0
                },
        ),
        signal,
        offset: if raw % 2 == 0 {
            FrameQuantizationOffsetType::Low
        } else {
            FrameQuantizationOffsetType::High
        },
        interp: if m.nb_subfr == 4 {
            sym(s4, SILK_NLSF_INTERPOLATION_FACTOR_ICDF@)
        } else {
            4
        },
        ..no_indices()
    };
    (
        i,
        if m.nb_subfr == 4 {
            nxt(s4, SILK_NLSF_INTERPOLATION_FACTOR_ICDF@)
        } else {
            s4
        },
    )
}

/// Pitch and long-term predictor of a voiced frame.
pub open spec fn pitch_read(s: DecState, m: IndexModel, i: Indices) -> (Indices, DecState) {
    let relative = m.coding == ConditionalCoding::Conditional && m.prev_voiced;
    let (lag, s1) = lag_read(s, m.fs_khz, m.low_bits, relative, m.prev_lag);
    let s2 = nxt(s1, m.contours);
    let per = sym(s2, SILK_LTP_PER_INDEX_ICDF@);
    let s3 = nxt(s2, SILK_LTP_PER_INDEX_ICDF@);
    let s4 = ltp_next(s3, per, m.nb_subfr as nat);
    let scaled = m.coding == ConditionalCoding::Independent;
    (
        Indices {
            lag,
            contour: sym(s1, m.contours),
            per,
            ltp: Seq::new(
                4,
                |k: int|
                    if k < m.nb_subfr {
                        sym(ltp_next(s3, per, k as nat), ltp_gain_table(per))
                    } else {
                        0
                    },
            ),
            scale: if scaled {
                sym(s4, SILK_LTPSCALE_ICDF@)
            } else {
                0
            },
            ..i
        },
        if scaled {
            nxt(s4, SILK_LTPSCALE_ICDF@)
        } else {
            s4
        },
    )
}

/// The side information of a frame.
#[verifier::opaque]
pub open spec fn indices_read(s: DecState, m: IndexModel) -> IndexRead {
    let (i1, s1) = spectrum_read(s, m);
    let voiced = i1.signal == FrameSignalType::Voiced;
    let (i2, s2) = if voiced {
        pitch_read(s1, m, i1)
    } else {
        (i1, s1)
    };
    IndexRead {
        indices: Indices { seed: sym(s2, SILK_UNIFORM4_ICDF@), ..i2 },
        next: nxt(s2, SILK_UNIFORM4_ICDF@),
        prev_lag: if voiced {
            i2.lag
        } else {
            m.prev_lag
        },
    }
}

// ---------------------------------------------------------------------
// Code
// ---------------------------------------------------------------------

/// Reads a symbol of a table that ends with zero.
pub fn read(decoder: &mut RangeDecoder, icdf: &[u8]) -> (k: usize)
    requires
        old(decoder).wf(),
        dec_inside(old(decoder)@),
        icdf@.len() > 0,
        icdf@.last() == 0,
    ensures
        final(decoder).wf(),
        dec_inside(final(decoder)@),
        k == sym(old(decoder)@, icdf@),
        final(decoder)@ == nxt(old(decoder)@, icdf@),
        k < icdf@.len(),
{
    proof {
        lemma_u8_table(icdf@);
    }
    decoder.decode_icdf(icdf, 8)
}

/// The byte of a selection table lies inside it.
pub proof fn lemma_select_inside(cb: SilkNlsfCb, i1: int, i: int)
    requires
        cb.wf(),
        0 <= i1 < cb.n_vectors,
        0 <= i < cb.order,
    ensures
        0 <= i1 * (cb.order as int / 2) + i / 2 < cb.ec_sel@.len(),
        0 <= stage2_offset(cb, i1, i) <= 63,
        stage2_table(cb, i1, i).len() == 9,
        stage2_table(cb, i1, i).last() == 0,
{
    let h = cb.order as int / 2;
    assert(0 <= i1 * h && i1 * h + h <= cb.n_vectors * h) by (nonlinear_arith)
        requires
            0 <= i1,
            i1 + 1 <= cb.n_vectors,
            h >= 0,
    ;
    let e = stage2_select(cb, i1, i);
    let t = (if i % 2 == 0 {
        e / 2
    } else {
        e / 32
    }) % 8;
    assert(cb.ec_icdf@[9 * t + 8] == 0);
}

/// Reads the second-stage index of coefficient `i`.
pub fn read_stage2(decoder: &mut RangeDecoder, cb: &SilkNlsfCb, i1: usize, i: usize) -> (r: i8)
    requires
        old(decoder).wf(),
        dec_inside(old(decoder)@),
        cb.wf(),
        i1 < cb.n_vectors,
        i < cb.order,
    ensures
        final(decoder).wf(),
        dec_inside(final(decoder)@),
        (r as int, final(decoder)@) == stage2_read(old(decoder)@, *cb, i1 as int, i as int),
        -10 <= r <= 10,
{
    proof {
        lemma_select_inside(*cb, i1 as int, i as int);
        let h = cb.order as int / 2;
        assert(0 <= i1 * h <= 127 * 8) by (nonlinear_arith)
            requires
                0 <= i1 <= 127,
                0 <= h <= 8,
        ;
    }
    let e: u8 = cb.ec_sel[i1 * (cb.order as usize / 2) + i / 2];
    let t: usize = if i % 2 == 0 {
        (e / 2 % 8) as usize
    } else {
        (e / 32 % 8) as usize
    };
    let offset: usize = 9 * t;
    let k: i8 = read(decoder, &cb.ec_icdf[offset..offset + 9]) as i8;
    if k == 0 {
        let more: i8 = read(decoder, &SILK_NLSF_EXT_ICDF) as i8;
        -4 - more
    } else if k == 8 {
        let more: i8 = read(decoder, &SILK_NLSF_EXT_ICDF) as i8;
        4 + more
    } else {
        k - 4
    }
}

impl DecoderIndicesState {
    pub open spec fn wf(&self) -> bool {
        &&& self.nb_subfr == 2 || self.nb_subfr == 4
        &&& self.fs_khz == 8 || self.fs_khz == 12 || self.fs_khz == 16
        &&& self.nlsf_codebook.wf()
        &&& self.lpc_order <= self.nlsf_codebook.order
        &&& 0 < self.pitch_lag_low_bits_icdf@.len() <= 8
        &&& self.pitch_lag_low_bits_icdf@.last() == 0
        &&& 0 < self.pitch_contour_icdf@.len() <= 127
        &&& self.pitch_contour_icdf@.last() == 0
    }

    /// The model of frame `frame_index`.
    pub open spec fn model(
        &self,
        frame_index: int,
        decode_lbrr: bool,
        coding: ConditionalCoding,
    ) -> IndexModel {
        IndexModel {
            active: decode_lbrr || self.vad_flags[frame_index],
            nb_subfr: self.nb_subfr as int,
            fs_khz: self.fs_khz as int,
            order: self.lpc_order as int,
            low_bits: self.pitch_lag_low_bits_icdf@,
            contours: self.pitch_contour_icdf@,
            cb: self.nlsf_codebook,
            prev_voiced: self.prev_signal_type == FrameSignalType::Voiced,
            prev_lag: self.prev_lag_index as int,
            coding,
        }
    }

    /// Wide band, 20 ms, nothing decoded yet.
    pub fn new(nlsf_codebook: SilkNlsfCb) -> (r: DecoderIndicesState)
        ensures
            r.vad_flags@ == seq![false, false, false],
            r.nb_subfr == 4,
            r.fs_khz == 16,
            r.lpc_order == 16,
            r.pitch_lag_low_bits_icdf@ == SILK_UNIFORM8_ICDF@,
            r.pitch_contour_icdf@ == PITCH_CONTOUR_ICDF@,
            r.nlsf_codebook == nlsf_codebook,
            r.prev_signal_type == FrameSignalType::Inactive,
            r.prev_lag_index == 0,
            nlsf_codebook.wf() && nlsf_codebook.order == 16 ==> r.wf(),
    {
        let r: DecoderIndicesState = DecoderIndicesState {
            vad_flags: [false;3],
            nb_subfr: 4,
            fs_khz: 16,
            lpc_order: 16,
            pitch_lag_low_bits_icdf: &SILK_UNIFORM8_ICDF,
            pitch_contour_icdf: &PITCH_CONTOUR_ICDF,
            nlsf_codebook,
            prev_signal_type: FrameSignalType::Inactive,
            prev_lag_index: 0,
        };
        assert(r.vad_flags@ =~= seq![false, false, false]);
        assert(SILK_UNIFORM8_ICDF@.last() == 0);
        assert(PITCH_CONTOUR_ICDF@.last() == 0);
        r
    }

    /// Reads the side information of frame `frame_index`.
    pub fn decode_indices(
        &mut self,
        range_decoder: &mut RangeDecoder,
        frame_index: usize,
        decode_lbrr: bool,
        coding: ConditionalCoding,
    ) -> (r: SideInfoIndices)
        requires
            old(self).wf(),
            old(range_decoder).wf(),
            dec_inside(old(range_decoder)@),
            frame_index < 3,
        ensures
            ({
                let out = indices_read(
                    old(range_decoder)@,
                    old(self).model(frame_index as int, decode_lbrr, coding),
                );
                &&& r@ == out.indices
                &&& final(range_decoder)@ == out.next
                &&& *final(self) == (DecoderIndicesState {
                    prev_signal_type: out.indices.signal,
                    prev_lag_index: out.prev_lag as i16,
                    ..*old(self)
                })
                &&& final(self).prev_lag_index == out.prev_lag
            }),
            final(self).wf(),
            final(range_decoder).wf(),
            dec_inside(final(range_decoder)@),
            0 <= r.contour_index < old(self).pitch_contour_icdf@.len(),
            0 <= r.per_index <= 2,
            0 <= r.ltp_scale_index <= 2,
            0 <= r.nlsf_indices[0] < old(self).nlsf_codebook.n_vectors,
            0 <= r.nlsf_interp_coef_q2 <= 4,
            forall|k: int| 1 <= k < 17 ==> -10 <= #[trigger] r.nlsf_indices[k] <= 10,
            forall|k: int| 0 <= k < 4 ==> 0 <= #[trigger] r.gains_indices[k] <= 63,
            forall|k: int|
                0 <= k < 4 ==> 0 <= #[trigger] r.ltp_index[k] < ltp_count(r.per_index as int),
    {
        reveal(indices_read);
        let ghost m = self.model(frame_index as int, decode_lbrr, coding);
        let ghost s0 = range_decoder@;
        let mut indices: SideInfoIndices = SideInfoIndices::default();
        let active: bool = decode_lbrr || self.vad_flags[frame_index];
        proof {
            assert(SILK_TYPE_OFFSET_VAD_ICDF@.last() == 0);
            assert(SILK_TYPE_OFFSET_NO_VAD_ICDF@.last() == 0);
            assert(SILK_UNIFORM4_ICDF@.last() == 0);
        }
        self.decode_spectrum(range_decoder, active, coding, &mut indices);
        let voiced: bool = indices.signal_type == FrameSignalType::Voiced;
        let ghost before_lag = self.prev_lag_index;
        if voiced {
            self.decode_pitch_and_ltp(range_decoder, coding, &mut indices);
            self.prev_lag_index = indices.lag_index;
        }
        indices.seed = read(range_decoder, &SILK_UNIFORM4_ICDF) as i8;
        self.prev_signal_type = indices.signal_type;
        indices
    }

    fn decode_spectrum(
        &self,
        range_decoder: &mut RangeDecoder,
        active: bool,
        coding: ConditionalCoding,
        indices: &mut SideInfoIndices,
    )
        requires
            self.wf(),
            old(range_decoder).wf(),
            dec_inside(old(range_decoder)@),
            old(indices)@ == no_indices(),
        ensures
            final(range_decoder).wf(),
            dec_inside(final(range_decoder)@),
            (final(indices)@, final(range_decoder)@) == spectrum_read(
                old(range_decoder)@,
                IndexModel { active, ..self.model(0, false, coding) },
            ),
            0 <= final(indices).nlsf_indices[0] < self.nlsf_codebook.n_vectors,
            0 <= final(indices).nlsf_interp_coef_q2 <= 4,
            forall|k: int| 1 <= k < 17 ==> -10 <= #[trigger] final(indices).nlsf_indices[k] <= 10,
            forall|k: int| 0 <= k < 4 ==> 0 <= #[trigger] final(indices).gains_indices[k] <= 63,
            final(indices).contour_index == 0,
            final(indices).per_index == 0,
            final(indices).ltp_scale_index == 0,
            forall|k: int| 0 <= k < 4 ==> #[trigger] final(indices).ltp_index[k] == 0,
    {
        let ghost m = IndexModel { active, ..self.model(0, false, coding) };
        let ghost s0 = range_decoder@;
        proof {
            assert(SILK_TYPE_OFFSET_VAD_ICDF@.last() == 0);
            assert(SILK_TYPE_OFFSET_NO_VAD_ICDF@.last() == 0);
            assert(SILK_NLSF_INTERPOLATION_FACTOR_ICDF@.last() == 0);
            assert forall|k: int| 0 <= k < 4 implies #[trigger] indices.gains_indices[k] == 0 by {
                assert(indices@.gains[k] == 0);
            }
            assert forall|k: int| 0 <= k < 4 implies #[trigger] indices.ltp_index[k] == 0 by {
                assert(indices@.ltp[k] == 0);
            }
            assert forall|k: int| 0 <= k < 17 implies #[trigger] indices.nlsf_indices[k] == 0 by {
                assert(indices@.nlsf[k] == 0);
            }
        }
        let raw: usize = if active {
            read(range_decoder, &SILK_TYPE_OFFSET_VAD_ICDF) + 2
        } else {
            read(range_decoder, &SILK_TYPE_OFFSET_NO_VAD_ICDF)
        };
        let ghost s1 = range_decoder@;
        let signal: FrameSignalType = if raw / 2 == 0 {
            FrameSignalType::Inactive
        } else if raw / 2 == 1 {
            FrameSignalType::Unvoiced
        } else {
            FrameSignalType::Voiced
        };
        indices.signal_type = signal;
        indices.quant_offset_type = if raw % 2 == 0 {
            FrameQuantizationOffsetType::Low
        } else {
            FrameQuantizationOffsetType::High
        };
        let conditional: bool = coding == ConditionalCoding::Conditional;
        let gains: [i8; 4] = self.decode_gains(range_decoder, signal, conditional);
        indices.gains_indices = gains;
        let nlsf: [i8; 17] = self.decode_nlsf(range_decoder, signal);
        indices.nlsf_indices = nlsf;
        indices.nlsf_interp_coef_q2 = if self.nb_subfr == 4 {
            read(range_decoder, &SILK_NLSF_INTERPOLATION_FACTOR_ICDF) as i8
        } else {
            4
        };
        proof {
            let goal = spectrum_read(s0, m);
            assert(indices@.gains =~= goal.0.gains);
            assert(indices@.nlsf =~= goal.0.nlsf);
            assert(indices@.ltp =~= goal.0.ltp);
        }
    }

    fn decode_gains(
        &self,
        range_decoder: &mut RangeDecoder,
        signal: FrameSignalType,
        conditional: bool,
    ) -> (gains: [i8; 4])
        requires
            self.wf(),
            old(range_decoder).wf(),
            dec_inside(old(range_decoder)@),
        ensures
            final(range_decoder).wf(),
            dec_inside(final(range_decoder)@),
            final(range_decoder)@ == gains_next(
                old(range_decoder)@,
                signal,
                conditional,
                self.nb_subfr as nat,
            ),
            forall|k: int|
                0 <= k < 4 ==> #[trigger] gains[k] == if k < self.nb_subfr {
                    gain_read(old(range_decoder)@, signal, conditional, k)
                } else {
                    0
                },
            forall|k: int| 0 <= k < 4 ==> 0 <= #[trigger] gains[k] <= 63,
    {
        let ghost s = range_decoder@;
        let mut gains: [i8; 4] = [0;4];
        if conditional {
            let delta: ICDFContext = delta_quantization_gain();
            gains[0] = range_decoder.decode_symbol_with_icdf(delta) as i8;
        } else {
            let high: ICDFContext = match signal {
                FrameSignalType::Inactive => independent_quantization_gain_msb_inactive(),
                FrameSignalType::Unvoiced => independent_quantization_gain_msb_unvoiced(),
                FrameSignalType::Voiced => independent_quantization_gain_msb_voiced(),
            };
            let low: ICDFContext = independent_quantization_gain_lsb();
            assert(high.dist_table@ == gain_msb_table(signal));
            let msb: u32 = range_decoder.decode_symbol_with_icdf(high);
            let lsb: u32 = range_decoder.decode_symbol_with_icdf(low);
            gains[0] = (8 * msb + lsb) as i8;
        }
        assert(range_decoder@ == gains_next(s, signal, conditional, 1));
        for k in 1..self.nb_subfr
            invariant
                self.wf(),
                range_decoder.wf(),
                dec_inside(range_decoder@),
                s == old(range_decoder)@,
                range_decoder@ == gains_next(s, signal, conditional, k as nat),
                forall|j: int|
                    0 <= j < k ==> #[trigger] gains[j] == gain_read(s, signal, conditional, j),
                forall|j: int| k <= j < 4 ==> #[trigger] gains[j] == 0,
                forall|j: int| 0 <= j < 4 ==> 0 <= #[trigger] gains[j] <= 63,
        {
            let delta: ICDFContext = delta_quantization_gain();
            gains[k] = range_decoder.decode_symbol_with_icdf(delta) as i8;
        }
        gains
    }

    fn decode_nlsf(&self, range_decoder: &mut RangeDecoder, signal: FrameSignalType) -> (nlsf: [i8;
        17])
        requires
            self.wf(),
            old(range_decoder).wf(),
            dec_inside(old(range_decoder)@),
        ensures
            final(range_decoder).wf(),
            dec_inside(final(range_decoder)@),
            ({
                let s = old(range_decoder)@;
                let cb = self.nlsf_codebook;
                let t = stage1_table(cb, signal);
                let i1 = sym(s, t);
                let s1 = nxt(s, t);
                &&& final(range_decoder)@ == stage2_next(s1, cb, i1, self.lpc_order as nat)
                &&& 0 <= i1 < cb.n_vectors
                &&& forall|k: int|
                    0 <= k < 17 ==> #[trigger] nlsf[k] == if k == 0 {
                        i1
                    } else if k <= self.lpc_order {
                        stage2_read(stage2_next(s1, cb, i1, (k - 1) as nat), cb, i1, k - 1).0
                    } else {
                        0
                    }
                &&& forall|k: int| 1 <= k < 17 ==> -10 <= #[trigger] nlsf[k] <= 10
            }),
    {
        let cb: SilkNlsfCb = self.nlsf_codebook;
        let n: usize = cb.n_vectors as usize;
        let ghost s = range_decoder@;
        let ghost t = stage1_table(cb, signal);
        let i1: usize = if signal == FrameSignalType::Voiced {
            read(range_decoder, &cb.cb1_icdf[n..2 * n])
        } else {
            read(range_decoder, &cb.cb1_icdf[0..n])
        };
        let ghost s1 = range_decoder@;
        let mut nlsf: [i8; 17] = [0;17];
        nlsf[0] = i1 as i8;
        for i in 0..self.lpc_order
            invariant
                self.wf(),
                cb == self.nlsf_codebook,
                range_decoder.wf(),
                dec_inside(range_decoder@),
                i1 < cb.n_vectors,
                nlsf[0] == i1,
                range_decoder@ == stage2_next(s1, cb, i1 as int, i as nat),
                forall|k: int|
                    1 <= k <= i ==> #[trigger] nlsf[k] == stage2_read(
                        stage2_next(s1, cb, i1 as int, (k - 1) as nat),
                        cb,
                        i1 as int,
                        k - 1,
                    ).0,
                forall|k: int| i < k < 17 ==> #[trigger] nlsf[k] == 0,
                forall|k: int| 1 <= k < 17 ==> -10 <= #[trigger] nlsf[k] <= 10,
        {
            let v: i8 = read_stage2(range_decoder, &cb, i1, i);
            nlsf[i + 1] = v;
        }
        nlsf
    }

    fn decode_pitch_and_ltp(
        &self,
        range_decoder: &mut RangeDecoder,
        coding: ConditionalCoding,
        indices: &mut SideInfoIndices,
    )
        requires
            self.wf(),
            old(range_decoder).wf(),
            dec_inside(old(range_decoder)@),
        ensures
            final(range_decoder).wf(),
            dec_inside(final(range_decoder)@),
            (final(indices)@, final(range_decoder)@) == pitch_read(
                old(range_decoder)@,
                self.model(0, false, coding),
                old(indices)@,
            ),
            final(indices).gains_indices == old(indices).gains_indices,
            final(indices).nlsf_indices == old(indices).nlsf_indices,
            final(indices).nlsf_interp_coef_q2 == old(indices).nlsf_interp_coef_q2,
            final(indices).signal_type == old(indices).signal_type,
            0 <= final(indices).contour_index < self.pitch_contour_icdf@.len(),
            0 <= final(indices).per_index <= 2,
            0 <= final(indices).ltp_scale_index <= 2,
            forall|k: int|
                0 <= k < 4 ==> 0 <= #[trigger] final(indices).ltp_index[k] < ltp_count(
                    final(indices).per_index as int,
                ),
    {
        let ghost s0 = range_decoder@;
        let ghost m = self.model(0, false, coding);
        let ghost i0 = indices@;
        proof {
            assert(SILK_LTP_PER_INDEX_ICDF@.last() == 0);
            assert(SILK_LTPSCALE_ICDF@.last() == 0);
            assert(SILK_LTP_GAIN_ICDF_0@.last() == 0);
            assert(SILK_LTP_GAIN_ICDF_1@.last() == 0);
            assert(SILK_LTP_GAIN_ICDF_2@.last() == 0);
        }
        let relative: bool = coding == ConditionalCoding::Conditional && self.prev_signal_type
            == FrameSignalType::Voiced;
        indices.lag_index = self.decode_lag(range_decoder, relative);
        indices.contour_index = read(range_decoder, self.pitch_contour_icdf) as i8;
        let per: usize = read(range_decoder, &SILK_LTP_PER_INDEX_ICDF);
        indices.per_index = per as i8;
        let ghost s3 = range_decoder@;
        let gain_icdf: &[u8] = if per == 0 {
            &SILK_LTP_GAIN_ICDF_0
        } else if per == 1 {
            &SILK_LTP_GAIN_ICDF_1
        } else {
            &SILK_LTP_GAIN_ICDF_2
        };
        let mut ltp: [i8; 4] = [0;4];
        for k in 0..self.nb_subfr
            invariant
                self.wf(),
                range_decoder.wf(),
                dec_inside(range_decoder@),
                gain_icdf@ == ltp_gain_table(per as int),
                gain_icdf@.last() == 0,
                gain_icdf@.len() == ltp_count(per as int),
                ltp_count(per as int) <= 32,
                range_decoder@ == ltp_next(s3, per as int, k as nat),
                forall|j: int|
                    0 <= j < k ==> #[trigger] ltp[j] == sym(
                        ltp_next(s3, per as int, j as nat),
                        ltp_gain_table(per as int),
                    ),
                forall|j: int| k <= j < 4 ==> #[trigger] ltp[j] == 0,
                forall|j: int| 0 <= j < 4 ==> 0 <= #[trigger] ltp[j] < gain_icdf@.len(),
        {
            ltp[k] = read(range_decoder, gain_icdf) as i8;
        }
        indices.ltp_index = ltp;
        indices.ltp_scale_index = if coding == ConditionalCoding::Independent {
            read(range_decoder, &SILK_LTPSCALE_ICDF) as i8
        } else {
            0
        };
        proof {
            let goal = pitch_read(s0, m, i0);
            assert(indices@.ltp =~= goal.0.ltp);
        }
    }

    fn decode_lag(&self, range_decoder: &mut RangeDecoder, relative: bool) -> (lag: i16)
        requires
            self.wf(),
            old(range_decoder).wf(),
            dec_inside(old(range_decoder)@),
        ensures
            final(range_decoder).wf(),
            dec_inside(final(range_decoder)@),
            (lag as int, final(range_decoder)@) == lag_read(
                old(range_decoder)@,
                self.fs_khz as int,
                self.pitch_lag_low_bits_icdf@,
                relative,
                self.prev_lag_index as int,
            ),
    {
        proof {
            assert(PITCH_DELTA_ICDF@.last() == 0);
            assert(PITCH_LAG_ICDF@.last() == 0);
        }
        if relative {
            let delta: i32 = read(range_decoder, &PITCH_DELTA_ICDF) as i32;
            if delta > 0 {
                return crate::fixed::sat16(self.prev_lag_index as i32 + delta - 9);
            }
        }
        let step: i32 = self.fs_khz / 2;
        let high: i32 = read(range_decoder, &PITCH_LAG_ICDF) as i32;
        let low: i32 = read(range_decoder, self.pitch_lag_low_bits_icdf) as i32;
        proof {
            assert(0 <= high * step <= 31 * 8) by (nonlinear_arith)
                requires
                    0 <= high <= 31,
                    0 <= step <= 8,
            ;
        }
        (high * step + low) as i16
    }
}

} // verus!
