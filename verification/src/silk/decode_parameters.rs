//! Frame parameters from quantisation indices.

use crate::fixed::{sat16, sat16_of, shr32};
use crate::silk::bwexpander::{bwexpander, chirp_power, chirped16};
use crate::silk::decode_indices::{
    ints_of_i8, ltp_count, no_indices, ConditionalCoding, Indices, SideInfoIndices,
};
use crate::silk::decode_pitch::{contour_count, pitch_format_ok, pitch_lag, silk_decode_pitch};
use crate::silk::decoder_control::DecoderControl;
use crate::silk::gain_quant::{level_at, level_gain, silk_gains_dequant};
use crate::silk::nlsf2a::{lpc_of_nlsf, nlsf2a};
use crate::silk::nlsf_cb::SilkNlsfCb;
use crate::silk::nlsf_decode::{nlsf_decode, nlsf_decoded};
use crate::silk::nlsf_stabilize::{slack, spaced};
use crate::silk::tables_ltp::{SILK_LTP_GAIN_VQ_0, SILK_LTP_GAIN_VQ_1, SILK_LTP_GAIN_VQ_2};
use crate::silk::tables_nlsf_cb_wb::silk_nlsf_cb_wb;
use crate::silk::tables_other::SILK_LTPSCALES_TABLE_Q14;
use crate::silk::types::FrameSignalType;
use vstd::arithmetic::power2::*;
use vstd::prelude::*;

verus! {

/// Bandwidth expansion after lost frames.
pub const BWE_AFTER_LOSS_Q16: i32 = 63570;

/// What the parameters of a frame depend on.
#[derive(Clone, Copy, Debug)]
pub struct DecoderParametersState {
    pub indices: SideInfoIndices,
    /// Frequencies of the frame before (Q15).
    pub prev_nlsf_q15: [i16; 16],
    pub nlsf_codebook: SilkNlsfCb,
    pub lpc_order: usize,
    pub nb_subfr: usize,
    pub fs_khz: i32,
    /// Frames lost in a row.
    pub loss_count: i32,
    pub first_frame_after_reset: bool,
    pub last_gain_index: i8,
    pub arch: i32,
}

impl Default for DecoderParametersState {
    /// Wide band, 20 ms, before the first frame.
    fn default() -> (r: DecoderParametersState)
        ensures
            r.indices@ == no_indices(),
            forall|i: int| 0 <= i < 16 ==> #[trigger] r.prev_nlsf_q15[i] == 0,
            r.nlsf_codebook.wf(),
            r.nlsf_codebook.order == 16,
            r.nlsf_codebook.n_vectors == 32,
            r.lpc_order == 16,
            r.nb_subfr == 4,
            r.fs_khz == 16,
            r.loss_count == 0,
            r.first_frame_after_reset,
            r.last_gain_index == 0,
            r.arch == 0,
            r.wf(),
    {
        let r: DecoderParametersState = DecoderParametersState {
            indices: SideInfoIndices::default(),
            prev_nlsf_q15: [0;16],
            nlsf_codebook: silk_nlsf_cb_wb(),
            lpc_order: 16,
            nb_subfr: 4,
            fs_khz: 16,
            loss_count: 0,
            first_frame_after_reset: true,
            last_gain_index: 0,
            arch: 0,
        };
        assert(r.indices@.nlsf[0] == 0);
        r
    }
}

impl DecoderParametersState {
    /// The format is one of the codec's, and the indices are in range.
    pub open spec fn wf(&self) -> bool {
        &&& pitch_format_ok(self.fs_khz as int, self.nb_subfr as int)
        &&& self.nlsf_codebook.wf()
        &&& self.lpc_order == self.nlsf_codebook.order
        &&& self.lpc_order == 10 || self.lpc_order == 16
        &&& 0 <= self.indices.nlsf_indices[0] < self.nlsf_codebook.n_vectors
        &&& 0 <= self.indices.nlsf_interp_coef_q2
        &&& forall|i: int| 0 <= i < 16 ==> 0 <= #[trigger] self.prev_nlsf_q15[i]
        &&& self.indices.signal_type == FrameSignalType::Voiced ==> {
            &&& 0 <= self.indices.contour_index < contour_count(
                self.fs_khz as int,
                self.nb_subfr as int,
            )
            &&& 0 <= self.indices.per_index <= 2
            &&& 0 <= self.indices.ltp_scale_index <= 2
            &&& forall|k: int|
                0 <= k < 4 ==> 0 <= #[trigger] self.indices.ltp_index[k] < ltp_count(
                    self.indices.per_index as int,
                )
        }
    }

    /// The default with another codebook.
    pub fn with_codebook(nlsf_codebook: SilkNlsfCb) -> (r: DecoderParametersState)
        ensures
            r.nlsf_codebook == nlsf_codebook,
            r.indices@ == no_indices(),
            forall|i: int| 0 <= i < 16 ==> #[trigger] r.prev_nlsf_q15[i] == 0,
            r.lpc_order == 16,
            r.nb_subfr == 4,
            r.fs_khz == 16,
            r.loss_count == 0,
            r.first_frame_after_reset,
            r.last_gain_index == 0,
            r.arch == 0,
    {
        let base: DecoderParametersState = DecoderParametersState::default();
        DecoderParametersState { nlsf_codebook, ..base }
    }
}

/// Between the frequencies of two frames, `interp` quarters of the way.
pub open spec fn interpolated(prev: Seq<i16>, cur: Seq<i16>, interp: int) -> Seq<i16> {
    Seq::new(
        cur.len(),
        |i: int| sat16_of(prev[i] + (interp * (cur[i] - prev[i])) / 4) as i16,
    )
}

/// A predictor as it is after lost frames.
pub open spec fn after_loss(a: Seq<i16>, lost: bool) -> Seq<i16> {
    if lost {
        Seq::new(
            a.len(),
            |i: int|
                chirped16(a[i] as int, chirp_power(BWE_AFTER_LOSS_Q16 as int, i as nat)) as i16,
        )
    } else {
        a
    }
}

/// Tap `t` (Q7) of entry `k` of a long-term predictor codebook.
pub open spec fn ltp_tap(per: int, k: int, t: int) -> int {
    if per == 0 {
        SILK_LTP_GAIN_VQ_0[k][t] as int
    } else if per == 1 {
        SILK_LTP_GAIN_VQ_1[k][t] as int
    } else {
        SILK_LTP_GAIN_VQ_2[k][t] as int
    }
}

/// The frame's frequencies.
pub open spec fn frame_nlsf(s: DecoderParametersState) -> Seq<i16> {
    nlsf_decoded(s.nlsf_codebook, ints_of_i8(s.indices.nlsf_indices@))
}

/// The interpolation factor: none right after a reset.
pub open spec fn frame_interp(s: DecoderParametersState) -> int {
    if s.first_frame_after_reset {
        4
    } else {
        s.indices.nlsf_interp_coef_q2 as int
    }
}

/// The predictor of the frame's first (0) or second (1) half.
pub open spec fn frame_predictor(s: DecoderParametersState, half: int) -> Seq<i16> {
    let nlsf = frame_nlsf(s);
    let a = if half == 0 && frame_interp(s) < 4 {
        lpc_of_nlsf(interpolated(s.prev_nlsf_q15@, nlsf, frame_interp(s)))
    } else {
        lpc_of_nlsf(nlsf)
    };
    after_loss(a, s.loss_count > 0)
}

/// The control holds the parameters of the frame.
pub open spec fn control_holds(
    c: DecoderControl,
    s: DecoderParametersState,
    coding: ConditionalCoding,
) -> bool {
    let conditional = coding == ConditionalCoding::Conditional;
    let gains = ints_of_i8(s.indices.gains_indices@);
    let voiced = s.indices.signal_type == FrameSignalType::Voiced;
    let i = s.indices;
    &&& forall|k: int|
        0 <= k < 4 ==> #[trigger] c.gains_q16[k] == if k < s.nb_subfr {
            level_gain(level_at(s.last_gain_index as int, gains, conditional, k))
        } else {
            0
        }
    &&& forall|h: int, k: int|
        0 <= h < 2 && 0 <= k < 16 ==> #[trigger] c.pred_coef_q12[h][k] == if k < s.lpc_order {
            frame_predictor(s, h)[k] as int
        } else {
            0
        }
    &&& forall|k: int|
        0 <= k < 4 ==> #[trigger] c.pitch_l[k] == if voiced && k < s.nb_subfr {
            pitch_lag(
                i.lag_index as int,
                i.contour_index as int,
                s.fs_khz as int,
                s.nb_subfr as int,
                k,
            )
        } else {
            0
        }
    &&& forall|k: int|
        0 <= k < 20 ==> #[trigger] c.ltp_coef_q14[k] == if voiced && k < 5 * s.nb_subfr {
            ltp_tap(i.per_index as int, i.ltp_index[k / 5] as int, k % 5) * 128
        } else {
            0
        }
    &&& c.ltp_scale_q14 == if voiced {
        SILK_LTPSCALES_TABLE_Q14[i.ltp_scale_index as int] as int
    } else {
        0
    }
}

/// Frequencies that keep their distances are not negative.
pub proof fn lemma_spaced_positive(x: Seq<i16>, delta: Seq<i16>, i: int)
    requires
        spaced(x, delta),
        delta.len() == x.len() + 1,
        forall|k: int| 0 <= k < delta.len() ==> 0 < #[trigger] delta[k],
        0 <= i < x.len(),
    ensures
        x[i] > 0,
    decreases i,
{
    assert(slack(x, delta, i) >= 0);
    if i > 0 {
        lemma_spaced_positive(x, delta, i - 1);
    }
}

/// Expands a predictor as after lost frames.
fn expand_row(row: &mut [i16; 16], order: usize)
    requires
        order <= 16,
    ensures
        forall|k: int|
            0 <= k < 16 ==> #[trigger] final(row)@[k] == if k < order {
                chirped16(
                    old(row)@[k] as int,
                    chirp_power(BWE_AFTER_LOSS_Q16 as int, k as nat),
                )
            } else {
                old(row)@[k] as int
            },
{
    let mut part: Vec<i16> = Vec::new();
    for i in 0..order
        invariant
            order <= 16,
            part@.len() == i,
            forall|j: int| 0 <= j < i ==> #[trigger] part@[j] == row@[j],
    {
        part.push(row[i]);
    }
    bwexpander(&mut part, BWE_AFTER_LOSS_Q16);
    let before: [i16; 16] = *row;
    for i in 0..order
        invariant
            order <= 16,
            part@.len() == order,
            forall|j: int|
                0 <= j < order ==> #[trigger] part@[j] == chirped16(
                    before@[j] as int,
                    chirp_power(BWE_AFTER_LOSS_Q16 as int, j as nat),
                ),
            forall|j: int| 0 <= j < i ==> #[trigger] row@[j] == part@[j],
            forall|j: int| i <= j < 16 ==> #[trigger] row@[j] == before@[j],
    {
        row[i] = part[i];
    }
}

/// The predictors of both halves.
fn decode_predictors(state: &DecoderParametersState, nlsf: &[i16; 16]) -> (rows: (
    [i16; 16],
    [i16; 16],
))
    requires
        state.wf(),
        nlsf@.subrange(0, state.lpc_order as int) == frame_nlsf(*state),
        forall|i: int| 0 <= i < 16 ==> 0 <= #[trigger] nlsf@[i],
    ensures
        forall|k: int|
            0 <= k < 16 ==> #[trigger] rows.0@[k] == if k < state.lpc_order {
                frame_predictor(*state, 0)[k] as int
            } else {
                0
            },
        forall|k: int|
            0 <= k < 16 ==> #[trigger] rows.1@[k] == if k < state.lpc_order {
                frame_predictor(*state, 1)[k] as int
            } else {
                0
            },
{
    let order: usize = state.lpc_order;
    let ghost cur = frame_nlsf(*state);
    let mut row1: [i16; 16] = [0;16];
    nlsf2a(&mut row1, &nlsf[0..order]);
    assert forall|k: int| 0 <= k < order implies #[trigger] row1@[k] == lpc_of_nlsf(cur)[k] by {
        assert(row1@.subrange(0, order as int)[k] == row1@[k]);
    }
    let interp: i32 = if state.first_frame_after_reset {
        4
    } else {
        state.indices.nlsf_interp_coef_q2 as i32
    };
    let mut row0: [i16; 16] = row1;
    if interp < 4 {
        let ghost mixed = interpolated(state.prev_nlsf_q15@, cur, interp as int);
        let mut mid: [i16; 16] = [0;16];
        for i in 0..order
            invariant
                state.wf(),
                order == state.lpc_order,
                0 <= interp < 4,
                cur.len() == order,
                mixed == interpolated(state.prev_nlsf_q15@, cur, interp as int),
                nlsf@.subrange(0, order as int) == cur,
                forall|k: int| 0 <= k < 16 ==> 0 <= #[trigger] nlsf@[k],
                forall|k: int| 0 <= k < i ==> #[trigger] mid@[k] == mixed[k],
                forall|k: int| 0 <= k < 16 ==> 0 <= #[trigger] mid@[k],
        {
            let prev: i32 = state.prev_nlsf_q15[i] as i32;
            let now: i32 = nlsf[i] as i32;
            assert(cur[i as int] == nlsf@.subrange(0, order as int)[i as int]);
            proof {
                lemma2_to64();
                assert(-3 * 0x8000 <= interp * (now - prev) <= 3 * 0x8000) by (nonlinear_arith)
                    requires
                        0 <= interp <= 3,
                        -0x8000 <= now - prev <= 0x8000,
                ;
                if now >= prev {
                    assert(0 <= interp * (now - prev)) by (nonlinear_arith)
                        requires
                            0 <= interp,
                            now >= prev,
                    ;
                } else {
                    assert(4 * (now - prev) <= interp * (now - prev)) by (nonlinear_arith)
                        requires
                            0 <= interp <= 4,
                            now < prev,
                    ;
                }
            }
            mid[i] = sat16(prev + shr32(interp * (now - prev), 2));
        }
        assert(mid@.subrange(0, order as int) =~= mixed);
        row0 = [0;16];
        nlsf2a(&mut row0, &mid[0..order]);
        assert forall|k: int| 0 <= k < order implies #[trigger] row0@[k] == lpc_of_nlsf(
            mixed,
        )[k] by {
            assert(row0@.subrange(0, order as int)[k] == row0@[k]);
        }
    }
    if state.loss_count > 0 {
        proof {
            assert forall|k: int| 0 <= k < order implies #[trigger] frame_predictor(
                *state,
                0,
            )[k] == chirped16(
                row0@[k] as int,
                chirp_power(BWE_AFTER_LOSS_Q16 as int, k as nat),
            ) by {
                reveal(crate::fixed::wrap16);
            }
            assert forall|k: int| 0 <= k < order implies #[trigger] frame_predictor(
                *state,
                1,
            )[k] == chirped16(
                row1@[k] as int,
                chirp_power(BWE_AFTER_LOSS_Q16 as int, k as nat),
            ) by {
                reveal(crate::fixed::wrap16);
            }
        }
        expand_row(&mut row0, order);
        expand_row(&mut row1, order);
    }
    (row0, row1)
}

/// The taps of the subframes.
fn decode_taps(indices: &SideInfoIndices, nb_subfr: usize) -> (r: [i16; 20])
    requires
        nb_subfr <= 4,
        0 <= indices.per_index <= 2,
        forall|k: int|
            0 <= k < 4 ==> 0 <= #[trigger] indices.ltp_index[k] < ltp_count(
                indices.per_index as int,
            ),
    ensures
        forall|k: int|
            0 <= k < 20 ==> #[trigger] r[k] == if k < 5 * nb_subfr {
                ltp_tap(indices.per_index as int, indices.ltp_index[k / 5] as int, k % 5) * 128
            } else {
                0
            },
{
    let mut r: [i16; 20] = [0;20];
    for i in 0..5 * nb_subfr
        invariant
            nb_subfr <= 4,
            0 <= indices.per_index <= 2,
            forall|k: int|
                0 <= k < 4 ==> 0 <= #[trigger] indices.ltp_index[k] < ltp_count(
                    indices.per_index as int,
                ),
            forall|k: int|
                0 <= k < i ==> #[trigger] r[k] == ltp_tap(
                    indices.per_index as int,
                    indices.ltp_index[k / 5] as int,
                    k % 5,
                ) * 128,
            forall|k: int| i <= k < 20 ==> #[trigger] r[k] == 0,
    {
        let entry: usize = indices.ltp_index[i / 5] as usize;
        let t: usize = i % 5;
        let tap: i8 = if indices.per_index == 0 {
            SILK_LTP_GAIN_VQ_0[entry][t]
        } else if indices.per_index == 1 {
            SILK_LTP_GAIN_VQ_1[entry][t]
        } else {
            SILK_LTP_GAIN_VQ_2[entry][t]
        };
        r[i] = tap as i16 * 128;
    }
    r
}

/// Turns the indices of a frame into its parameters.
pub fn silk_decode_parameters(
    state: &mut DecoderParametersState,
    control: &mut DecoderControl,
    cond_coding: ConditionalCoding,
)
    requires
        old(state).wf(),
    ensures
        control_holds(*final(control), *old(state), cond_coding),
        forall|k: int| 0 <= k < old(state).nb_subfr ==> #[trigger] final(control).gains_q16[k] > 0,
        final(state).wf(),
        forall|k: int|
            0 <= k < 16 ==> #[trigger] final(state).prev_nlsf_q15[k] == if k < old(
                state,
            ).lpc_order {
                frame_nlsf(*old(state))[k] as int
            } else {
                0
            },
        final(state).last_gain_index == level_at(
            old(state).last_gain_index as int,
            ints_of_i8(old(state).indices.gains_indices@),
            cond_coding == ConditionalCoding::Conditional,
            old(state).nb_subfr - 1,
        ),
        0 <= final(state).last_gain_index <= 63,
        final(state).indices@ == (Indices {
            interp: frame_interp(*old(state)),
            per: if old(state).indices.signal_type == FrameSignalType::Voiced {
                old(state).indices.per_index as int
            } else {
                0
            },
            ..old(state).indices@
        }),
        final(state).nlsf_codebook == old(state).nlsf_codebook,
        final(state).lpc_order == old(state).lpc_order,
        final(state).nb_subfr == old(state).nb_subfr,
        final(state).fs_khz == old(state).fs_khz,
        final(state).loss_count == old(state).loss_count,
        final(state).first_frame_after_reset == old(state).first_frame_after_reset,
        final(state).arch == old(state).arch,
{
    let ghost s0 = *state;
    let nb: usize = state.nb_subfr;
    let order: usize = state.lpc_order;
    let voiced: bool = state.indices.signal_type == FrameSignalType::Voiced;
    let conditional: bool = cond_coding == ConditionalCoding::Conditional;
    let mut gains: [i32; 4] = [0;4];
    let mut last: i8 = state.last_gain_index;
    silk_gains_dequant(&mut gains, &state.indices.gains_indices, &mut last, conditional, nb);
    state.last_gain_index = last;
    assert(Seq::new(4, |i: int| s0.indices.gains_indices[i] as int) =~= ints_of_i8(
        s0.indices.gains_indices@,
    ));
    let mut part: Vec<i16> = Vec::new();
    for i in 0..order
        invariant
            part@.len() == i,
    {
        part.push(0);
    }
    nlsf_decode(&mut part, &state.indices.nlsf_indices, &state.nlsf_codebook);
    proof {
        assert(Seq::new(17, |i: int| s0.indices.nlsf_indices[i] as int) =~= ints_of_i8(
            s0.indices.nlsf_indices@,
        ));
        assert(part@ == frame_nlsf(s0));
        assert forall|i: int| 0 <= i < order implies part@[i] > 0 by {
            lemma_spaced_positive(part@, s0.nlsf_codebook.delta_min_q15@, i);
        }
    }
    let mut nlsf: [i16; 16] = [0;16];
    for i in 0..order
        invariant
            order <= 16,
            part@.len() == order,
            forall|k: int| 0 <= k < order ==> part@[k] > 0,
            forall|k: int| 0 <= k < i ==> #[trigger] nlsf@[k] == part@[k],
            forall|k: int| i <= k < 16 ==> #[trigger] nlsf@[k] == 0,
    {
        nlsf[i] = part[i];
    }
    assert(nlsf@.subrange(0, order as int) =~= part@);
    let ghost s1 = DecoderParametersState { last_gain_index: last, ..s0 };
    assert(*state == s1);
    let (row0, row1) = decode_predictors(state, &nlsf);
    proof {
        assert(frame_predictor(s1, 0) == frame_predictor(s0, 0));
        assert(frame_predictor(s1, 1) == frame_predictor(s0, 1));
    }
    if state.first_frame_after_reset {
        state.indices.nlsf_interp_coef_q2 = 4;
    }
    state.prev_nlsf_q15 = nlsf;
    control.gains_q16 = gains;
    control.pred_coef_q12 = [row0, row1];
    if voiced {
        let mut lags: [i32; 4] = [0;4];
        silk_decode_pitch(
            state.indices.lag_index,
            state.indices.contour_index,
            &mut lags,
            state.fs_khz,
            nb,
        );
        control.pitch_l = lags;
        control.ltp_coef_q14 = decode_taps(&state.indices, nb);
        control.ltp_scale_q14 = SILK_LTPSCALES_TABLE_Q14[state.indices.ltp_scale_index as usize] as i32;
    } else {
        control.pitch_l = [0;4];
        control.ltp_coef_q14 = [0;20];
        control.ltp_scale_q14 = 0;
        state.indices.per_index = 0;
    }
    proof {
        let c = *control;
        assert forall|h: int, k: int|
            0 <= h < 2 && 0 <= k < 16 implies #[trigger] c.pred_coef_q12[h][k] == if k
            < s0.lpc_order {
            frame_predictor(s0, h)[k] as int
        } else {
            0
        } by {
            if h == 0 {
                assert(c.pred_coef_q12[h] == row0);
                assert(row0@[k] == c.pred_coef_q12[h][k]);
            } else {
                assert(c.pred_coef_q12[h] == row1);
                assert(row1@[k] == c.pred_coef_q12[h][k]);
            }
        }
    }
}

} // verus!
