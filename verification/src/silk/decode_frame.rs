//! Decoding of a frame.
//!
//! The concealment of lost frames is done outside, between the steps here: the
//! payload is decoded; the frame is concealed or made known to the concealment;
//! the frame enters the history and the comfort noise; the frame is joined to
//! the one before; the frame becomes the last one.
use crate::range::{dec_inside, DecState, RangeDecoder};
use crate::silk::cng::{
    apply_cng, cng_for_rate, cng_learnt, cng_ok, cng_quiet, cng_spent, ints_of_i32, noise_filter,
    noisy_sample, CngModel, CngState, ComfortNoiseInputs, PlcState,
};
use crate::silk::code_signs::{signed_pulse, signs_read};
use crate::silk::decode_core::{
    core_frame, core_ok, core_run, core_start, lemma_filled, silk_decode_core,
};
use crate::silk::decode_indices::{
    indices_read, ints_of_i8, ltp_count, ConditionalCoding, DecoderIndicesState, IndexModel,
    Indices, SideInfoIndices,
};
use crate::silk::decode_parameters::{
    control_holds, frame_interp, frame_nlsf, silk_decode_parameters, DecoderParametersState,
};
use crate::silk::decode_pitch::{contour_count, law_lag_range};
use crate::silk::decode_pulses::{pulse_frame, silk_decode_pulses};
use crate::silk::decoder_control::DecoderControl;
use crate::silk::decoder_set_fs::{contour_table, low_bits_table, DecoderSampleRateState};
use crate::silk::decoder_state::DecoderState;
use crate::silk::gain_quant::level_at;
use crate::silk::types::FrameSignalType;
use vstd::prelude::*;

verus! {

/// What there is to decode.
#[derive(Debug, Clone, Copy, PartialEq, Eq, Structural)]
pub enum DecodeFlag {
    /// The frame.
    Normal,
    /// Nothing: the packet was lost.
    PacketLoss,
    /// The frame's redundant copy in the packet behind.
    Lbrr,
}

impl DecodeFlag {
    pub open spec fn has_payload(self, lbrr_active: bool) -> bool {
        match self {
            DecodeFlag::Normal => true,
            DecodeFlag::PacketLoss => false,
            DecodeFlag::Lbrr => lbrr_active,
        }
    }

    /// Whether the packet holds the frame.
    pub fn should_decode_payload(self, lbrr_active: bool) -> (r: bool)
        ensures
            r == self.has_payload(lbrr_active),
    {
        match self {
            DecodeFlag::Normal => true,
            DecodeFlag::PacketLoss => false,
            DecodeFlag::Lbrr => lbrr_active,
        }
    }
}

/// A channel that can decode a frame: its rates are set, and its history is one
/// that frames leave behind.
pub open spec fn channel_ok(s: DecoderState) -> bool {
    &&& s.sample_rate.configured()
    &&& -128 <= s.sample_rate.last_gain_index <= 127
    &&& cng_ok(s.cng_state)
    &&& forall|i: int| 0 <= i < 16 ==> 0 <= #[trigger] s.prev_nlsf_q15[i]
    &&& s.loss_count > 0 && s.sample_rate.prev_signal_type == FrameSignalType::Voiced ==> 2
        <= s.sample_rate.lag_prev <= 18 * s.sample_rate.fs_khz
}

/// The model of the side information of frame `frame_index`.
pub open spec fn side_model(
    s: DecoderState,
    frame_index: int,
    lbrr: bool,
    coding: ConditionalCoding,
) -> IndexModel {
    let sr = s.sample_rate;
    IndexModel {
        active: lbrr || s.vad_flags[frame_index] != 0,
        nb_subfr: sr.nb_subfr as int,
        fs_khz: sr.fs_khz as int,
        order: sr.lpc_order as int,
        low_bits: sr.pitch_lag_low_bits_icdf@,
        contours: sr.pitch_contour_icdf@,
        cb: sr.ps_nlsf_cb,
        prev_voiced: s.ec_prev_signal_type == FrameSignalType::Voiced,
        prev_lag: s.ec_prev_lag_index as int,
        coding,
    }
}

/// The indices are ones that parameters can be made of.
pub open spec fn indices_in_range(s: DecoderState, i: SideInfoIndices) -> bool {
    &&& 0 <= i.contour_index < contour_count(
        s.sample_rate.fs_khz as int,
        s.sample_rate.nb_subfr as int,
    )
    &&& 0 <= i.per_index <= 2
    &&& 0 <= i.ltp_scale_index <= 2
    &&& 0 <= i.nlsf_indices[0] < s.sample_rate.ps_nlsf_cb.n_vectors
    &&& 0 <= i.nlsf_interp_coef_q2 <= 4
    &&& forall|k: int|
        0 <= k < 4 ==> 0 <= #[trigger] i.ltp_index[k] < ltp_count(i.per_index as int)
}

/// Reads the side information of frame `frame_index`.
pub fn decode_side_information(
    state: &mut DecoderState,
    range_decoder: &mut RangeDecoder,
    frame_index: usize,
    decode_lbrr: bool,
    cond_coding: ConditionalCoding,
) -> (r: SideInfoIndices)
    requires
        old(state).sample_rate.configured(),
        old(range_decoder).wf(),
        dec_inside(old(range_decoder)@),
        frame_index < 3,
    ensures
        final(range_decoder).wf(),
        dec_inside(final(range_decoder)@),
        ({
            let out = indices_read(
                old(range_decoder)@,
                side_model(*old(state), frame_index as int, decode_lbrr, cond_coding),
            );
            &&& r@ == out.indices
            &&& final(range_decoder)@ == out.next
            &&& *final(state) == (DecoderState {
                indices: r,
                ec_prev_signal_type: out.indices.signal,
                ec_prev_lag_index: out.prev_lag as i16,
                ..*old(state)
            })
            &&& final(state).ec_prev_lag_index == out.prev_lag
        }),
        indices_in_range(*old(state), r),
{
    let sr: DecoderSampleRateState = state.sample_rate;
    let vad_flags: [bool; 3] = [
        state.vad_flags[0] != 0,
        state.vad_flags[1] != 0,
        state.vad_flags[2] != 0,
    ];
    let mut reader: DecoderIndicesState = DecoderIndicesState {
        vad_flags,
        nb_subfr: sr.nb_subfr,
        fs_khz: sr.fs_khz,
        lpc_order: sr.lpc_order,
        pitch_lag_low_bits_icdf: sr.pitch_lag_low_bits_icdf,
        pitch_contour_icdf: sr.pitch_contour_icdf,
        nlsf_codebook: sr.ps_nlsf_cb,
        prev_signal_type: state.ec_prev_signal_type,
        prev_lag_index: state.ec_prev_lag_index,
    };
    proof {
        lemma_tables(sr.fs_khz as int, sr.nb_subfr as int);
        assert(vad_flags[frame_index as int] == (state.vad_flags[frame_index as int] != 0));
    }
    let indices: SideInfoIndices = reader.decode_indices(
        range_decoder,
        frame_index,
        decode_lbrr,
        cond_coding,
    );
    state.ec_prev_signal_type = reader.prev_signal_type;
    state.ec_prev_lag_index = reader.prev_lag_index;
    state.indices = indices;
    indices
}

proof fn lemma_tables(fs_khz: int, nb_subfr: int)
    ensures
        0 < low_bits_table(fs_khz).len() <= 8,
        low_bits_table(fs_khz).last() == 0,
        0 < contour_table(fs_khz, nb_subfr).len() <= 127,
        contour_table(fs_khz, nb_subfr).last() == 0,
        nb_subfr == 2 || nb_subfr == 4 ==> contour_table(fs_khz, nb_subfr).len() == contour_count(
            fs_khz,
            nb_subfr,
        ),
{
}

/// What a payload holds, step by step.
pub struct PayloadSteps {
    /// The state with the indices of the frame.
    pub read: DecoderState,
    /// The stream behind the indices.
    pub after_indices: DecState,
    pub pulses: Seq<i16>,
    /// What the parameters are made of.
    pub params: DecoderParametersState,
    pub control: DecoderControl,
    /// The state with the parameters of the frame.
    pub set: DecoderState,
}

/// The side information was read.
#[verifier::opaque]
pub open spec fn step_read(
    b: DecoderState,
    d: DecState,
    lbrr: bool,
    coding: ConditionalCoding,
    read: DecoderState,
    after: DecState,
) -> bool {
    let out = indices_read(d, side_model(b, b.n_frames_decoded as int, lbrr, coding));
    &&& read == (DecoderState {
        indices: read.indices,
        ec_prev_signal_type: out.indices.signal,
        ec_prev_lag_index: read.ec_prev_lag_index,
        ..b
    })
    &&& read.indices@ == out.indices
    &&& read.ec_prev_lag_index == out.prev_lag
    &&& after == out.next
}

/// The pulses were read.
#[verifier::opaque]
pub open spec fn step_pulses(read: DecoderState, after: DecState, pulses: Seq<i16>, end: DecState) -> bool {
    let n = read.sample_rate.frame_length as int;
    let f = pulse_frame(
        after,
        read.indices.signal_type.number(),
        read.indices.quant_offset_type.number(),
        n,
    );
    &&& end == signs_read(f.before_signs, f.signs, f.magnitudes, n as nat)
    &&& pulses.len() >= n
    &&& forall|i: int|
        0 <= i < n ==> #[trigger] pulses[i] == signed_pulse(
            f.before_signs,
            f.signs,
            f.magnitudes,
            i,
        )
}

/// The parameters were made of the indices.
#[verifier::opaque]
pub open spec fn step_parameters(
    coding: ConditionalCoding,
    read: DecoderState,
    params: DecoderParametersState,
    control: DecoderControl,
    set: DecoderState,
) -> bool {
    let sr = read.sample_rate;
    &&& params.indices == read.indices
    &&& params.prev_nlsf_q15 == read.prev_nlsf_q15
    &&& params.nlsf_codebook == sr.ps_nlsf_cb
    &&& params.lpc_order == sr.lpc_order
    &&& params.nb_subfr == sr.nb_subfr
    &&& params.fs_khz == sr.fs_khz
    &&& params.loss_count == read.loss_count
    &&& params.first_frame_after_reset == sr.first_frame_after_reset
    &&& params.last_gain_index == sr.last_gain_index
    &&& control_holds(control, params, coding)
    &&& set == (DecoderState {
        sample_rate: DecoderSampleRateState {
            last_gain_index: set.sample_rate.last_gain_index,
            ..sr
        },
        prev_nlsf_q15: set.prev_nlsf_q15,
        indices: set.indices,
        ..read
    })
    &&& set.sample_rate.last_gain_index == level_at(
        sr.last_gain_index as int,
        ints_of_i8(read.indices.gains_indices@),
        coding == ConditionalCoding::Conditional,
        sr.nb_subfr - 1,
    )
    &&& forall|k: int|
        0 <= k < 16 ==> #[trigger] set.prev_nlsf_q15[k] == if k < sr.lpc_order {
            frame_nlsf(params)[k] as int
        } else {
            0
        }
    &&& set.indices@ == (Indices {
        interp: frame_interp(params),
        per: if read.indices.signal_type == FrameSignalType::Voiced {
            read.indices.per_index as int
        } else {
            0
        },
        ..read.indices@
    })
}

/// The frame was synthesised.
#[verifier::opaque]
pub open spec fn step_synthesis(
    set: DecoderState,
    made: DecoderControl,
    pulses: Seq<i16>,
    out0: Seq<i16>,
    a: DecoderState,
    control: DecoderControl,
    out: Seq<i16>,
) -> bool {
    let f = core_frame(set, made, pulses);
    let nb = set.sample_rate.nb_subfr;
    let end = core_run(f, core_start(set), nb as nat);
    &&& out.len() == out0.len()
    &&& out.subrange(0, nb * f.len) == end.out
    &&& forall|i: int| nb * f.len <= i < out0.len() ==> #[trigger] out[i] == out0[i]
    &&& a.prev_gain_q16 == end.prev_gain
    &&& a.sample_rate.out_buf@ == end.hist
    &&& forall|i: int|
        0 <= i < 16 ==> #[trigger] a.sample_rate.s_lpc_q14_buf[i] == end.lpc[i]
    &&& forall|i: int|
        0 <= i < 320 ==> #[trigger] a.exc_q14[i] == if i < f.exc.len() {
            f.exc[i]
        } else {
            set.exc_q14[i] as int
        }
    &&& a == (DecoderState {
        sample_rate: DecoderSampleRateState {
            out_buf: a.sample_rate.out_buf,
            s_lpc_q14_buf: a.sample_rate.s_lpc_q14_buf,
            ..set.sample_rate
        },
        prev_gain_q16: a.prev_gain_q16,
        exc_q14: a.exc_q14,
        ..set
    })
    &&& forall|k: int|
        0 <= k < 4 ==> #[trigger] control.pitch_l[k] == if k < nb && f.bridged(k) {
            f.lag_prev
        } else {
            made.pitch_l[k] as int
        }
    &&& forall|i: int|
        0 <= i < 20 ==> #[trigger] control.ltp_coef_q14[i] == if i / 5 < nb && f.bridged(i / 5) {
            f.tap(i / 5, i % 5)
        } else {
            made.ltp_coef_q14[i] as int
        }
    &&& control.gains_q16 == made.gains_q16
    &&& control.pred_coef_q12 == made.pred_coef_q12
    &&& control.ltp_scale_q14 == made.ltp_scale_q14
}

/// What a payload gives: its indices, pulses and parameters are read one after
/// the other, and the frame is synthesised.
pub open spec fn payload_decoded(
    b: DecoderState,
    d: DecState,
    flag: DecodeFlag,
    coding: ConditionalCoding,
    out0: Seq<i16>,
    w: PayloadSteps,
    a: DecoderState,
    end: DecState,
    control: DecoderControl,
    out: Seq<i16>,
) -> bool {
    &&& step_read(b, d, flag == DecodeFlag::Lbrr, coding, w.read, w.after_indices)
    &&& step_pulses(w.read, w.after_indices, w.pulses, end)
    &&& step_parameters(coding, w.read, w.params, w.control, w.set)
    &&& step_synthesis(w.set, w.control, w.pulses, out0, a, control, out)
}

/// No parameters.
pub open spec fn no_control(c: DecoderControl) -> bool {
    &&& forall|k: int| 0 <= k < 4 ==> #[trigger] c.pitch_l[k] == 0
    &&& forall|k: int| 0 <= k < 4 ==> #[trigger] c.gains_q16[k] == 0
    &&& forall|i: int, k: int| 0 <= i < 2 && 0 <= k < 16 ==> #[trigger] c.pred_coef_q12[i][k] == 0
    &&& forall|k: int| 0 <= k < 20 ==> #[trigger] c.ltp_coef_q14[k] == 0
    &&& c.ltp_scale_q14 == 0
}

/// Samples of a frame, and of the history.
pub proof fn lemma_frame_length(sr: DecoderSampleRateState)
    requires
        sr.configured(),
    ensures
        80 <= sr.frame_length <= 320,
        sr.frame_length <= sr.ltp_mem_length <= 320,
{
    assert(2 * sr.subfr_length <= sr.nb_subfr * sr.subfr_length <= 4 * sr.subfr_length)
        by (nonlinear_arith)
        requires
            2 <= sr.nb_subfr <= 4,
            sr.subfr_length >= 0,
    ;
}

/// Reads the side information and the pulses of a frame.
fn read_payload(
    state: &mut DecoderState,
    range_decoder: &mut RangeDecoder,
    lbrr: bool,
    cond_coding: ConditionalCoding,
) -> (r: (Vec<i16>, Ghost<DecState>))
    requires
        channel_ok(*old(state)),
        0 <= old(state).n_frames_decoded < 3,
        old(range_decoder).wf(),
        dec_inside(old(range_decoder)@),
    ensures
        final(range_decoder).wf(),
        dec_inside(final(range_decoder)@),
        step_read(*old(state), old(range_decoder)@, lbrr, cond_coding, *final(state), r.1@),
        step_pulses(*final(state), r.1@, r.0@, final(range_decoder)@),
        r.0@.len() >= final(state).sample_rate.frame_length,
        channel_ok(*final(state)),
        indices_in_range(*final(state), final(state).indices),
        final(state).sample_rate == old(state).sample_rate,
        final(state).n_frames_decoded == old(state).n_frames_decoded,
{
    reveal(step_read);
    reveal(step_pulses);
    let frame_index: usize = state.n_frames_decoded as usize;
    let frame_length: usize = state.sample_rate.frame_length;
    proof {
        lemma_frame_length(state.sample_rate);
    }
    let indices: SideInfoIndices = decode_side_information(
        state,
        range_decoder,
        frame_index,
        lbrr,
        cond_coding,
    );
    let ghost after = range_decoder@;
    let mut pulses: Vec<i16> = vec![0i16;(frame_length + 15) / 16 * 16];
    silk_decode_pulses(
        range_decoder,
        pulses.as_mut_slice(),
        indices.signal_type.to_i32(),
        indices.quant_offset_type.to_i32(),
        frame_length,
    );
    (pulses, Ghost(after))
}

/// Makes the parameters of a frame.
fn set_parameters(
    state: &mut DecoderState,
    control: &mut DecoderControl,
    cond_coding: ConditionalCoding,
) -> (r: Ghost<DecoderParametersState>)
    requires
        channel_ok(*old(state)),
        indices_in_range(*old(state), old(state).indices),
    ensures
        step_parameters(cond_coding, *old(state), r@, *final(control), *final(state)),
        core_ok(*final(state), *final(control)),
        forall|i: int| 0 <= i < 16 ==> 0 <= #[trigger] final(state).prev_nlsf_q15[i],
        final(state).sample_rate.configured(),
        final(state).sample_rate.frame_length == old(state).sample_rate.frame_length,
        final(state).cng_state == old(state).cng_state,
        final(state).n_frames_decoded == old(state).n_frames_decoded,
{
    reveal(step_parameters);
    let sr: DecoderSampleRateState = state.sample_rate;
    let mut params: DecoderParametersState = DecoderParametersState {
        indices: state.indices,
        prev_nlsf_q15: state.prev_nlsf_q15,
        nlsf_codebook: sr.ps_nlsf_cb,
        lpc_order: sr.lpc_order,
        nb_subfr: sr.nb_subfr,
        fs_khz: sr.fs_khz,
        loss_count: state.loss_count,
        first_frame_after_reset: sr.first_frame_after_reset,
        last_gain_index: sr.last_gain_index as i8,
        arch: state.arch,
    };
    let ghost before = params;
    let ghost read = *state;
    silk_decode_parameters(&mut params, control, cond_coding);
    state.prev_nlsf_q15 = params.prev_nlsf_q15;
    state.indices = params.indices;
    state.sample_rate.last_gain_index = params.last_gain_index as i32;
    proof {
        if before.indices.signal_type == FrameSignalType::Voiced {
            lemma_decoded_lags(before, *control, cond_coding);
        }
        assert(state.indices@.signal == read.indices@.signal);
        lemma_lags_inside(read, *control, *state);
    }
    Ghost(before)
}

/// The lags of a frame lie inside the history.
proof fn lemma_lags_inside(read: DecoderState, control: DecoderControl, set: DecoderState)
    requires
        channel_ok(read),
        set.sample_rate == (DecoderSampleRateState {
            last_gain_index: set.sample_rate.last_gain_index,
            ..read.sample_rate
        }),
        set.loss_count == read.loss_count,
        set.indices.signal_type == read.indices.signal_type,
        forall|k: int| 0 <= k < read.sample_rate.nb_subfr ==> #[trigger] control.gains_q16[k] > 0,
        read.indices.signal_type == FrameSignalType::Voiced ==> forall|k: int|
            0 <= k < read.sample_rate.nb_subfr ==> 2 * read.sample_rate.fs_khz
                <= #[trigger] control.pitch_l[k] <= 18 * read.sample_rate.fs_khz,
    ensures
        core_ok(set, control),
{
    let sr = set.sample_rate;
    let f = core_frame(set, control, seq![]);
    let fs = sr.fs_khz as int;
    lemma_frame_length(read.sample_rate);
    assert forall|k: int| 0 <= k < sr.nb_subfr && f.sub_voiced(k) implies #[trigger] f.lag_ok(
        sr.lpc_order as int,
        k,
    ) by {
        lemma_filled(f, k);
        if f.bridged(k) {
            assert(2 <= read.sample_rate.lag_prev <= 18 * fs);
        } else {
            assert(f.lag(k) == control.pitch_l[k]);
        }
    }
}

/// The lags that indices give.
proof fn lemma_decoded_lags(
    params: DecoderParametersState,
    control: DecoderControl,
    coding: ConditionalCoding,
)
    requires
        control_holds(control, params, coding),
        params.indices.signal_type == FrameSignalType::Voiced,
        params.fs_khz >= 0,
        params.nb_subfr <= 4,
    ensures
        forall|k: int|
            0 <= k < params.nb_subfr ==> 2 * params.fs_khz <= #[trigger] control.pitch_l[k] <= 18
                * params.fs_khz,
{
    let i = params.indices;
    assert forall|k: int| 0 <= k < params.nb_subfr implies 2 * params.fs_khz
        <= #[trigger] control.pitch_l[k] <= 18 * params.fs_khz by {
        law_lag_range(
            i.lag_index as int,
            i.contour_index as int,
            params.fs_khz as int,
            params.nb_subfr as int,
            k,
        );
    }
}

/// Synthesises a frame.
fn synthesise(
    state: &mut DecoderState,
    control: &mut DecoderControl,
    output: &mut [i16],
    pulses: &[i16],
)
    requires
        core_ok(*old(state), *old(control)),
        old(state).sample_rate.configured(),
        old(output)@.len() >= old(state).sample_rate.frame_length,
        pulses@.len() >= old(state).sample_rate.frame_length,
    ensures
        step_synthesis(
            *old(state),
            *old(control),
            pulses@,
            old(output)@,
            *final(state),
            *final(control),
            final(output)@,
        ),
        final(state).sample_rate.configured(),
        final(state).cng_state == old(state).cng_state,
        final(state).prev_nlsf_q15 == old(state).prev_nlsf_q15,
        final(state).n_frames_decoded == old(state).n_frames_decoded,
{
    reveal(step_synthesis);
    silk_decode_core(state, control, output, pulses, 0);
}

/// A frame's payload.
pub struct DecodedPayload {
    /// Whether there was one.
    pub decoded: bool,
    /// The parameters of the frame.
    pub control: DecoderControl,
    /// What was read, step by step.
    pub steps: Ghost<PayloadSteps>,
}

/// Decodes the payload of a frame, if there is one, into `output`.
pub fn silk_decode_frame(
    state: &mut DecoderState,
    range_decoder: &mut RangeDecoder,
    output: &mut [i16],
    lost_flag: DecodeFlag,
    cond_coding: ConditionalCoding,
) -> (r: DecodedPayload)
    requires
        channel_ok(*old(state)),
        0 <= old(state).n_frames_decoded < 3,
        old(output)@.len() >= old(state).sample_rate.frame_length,
        old(range_decoder).wf(),
        dec_inside(old(range_decoder)@),
    ensures
        final(range_decoder).wf(),
        dec_inside(final(range_decoder)@),
        r.decoded == lost_flag.has_payload(
            old(state).lbrr_flags[old(state).n_frames_decoded as int] != 0,
        ),
        !r.decoded ==> *final(state) == *old(state) && final(range_decoder)@ == old(range_decoder)@
            && final(output)@ == old(output)@ && no_control(r.control),
        r.decoded ==> payload_decoded(
            *old(state),
            old(range_decoder)@,
            lost_flag,
            cond_coding,
            old(output)@,
            r.steps@,
            *final(state),
            final(range_decoder)@,
            r.control,
            final(output)@,
        ),
        final(state).sample_rate.configured(),
        cng_ok(final(state).cng_state),
        forall|i: int| 0 <= i < 16 ==> 0 <= #[trigger] final(state).prev_nlsf_q15[i],
        final(state).n_frames_decoded == old(state).n_frames_decoded,
{
    let frame_index: usize = state.n_frames_decoded as usize;
    if !lost_flag.should_decode_payload(state.lbrr_flags[frame_index] != 0) {
        return DecodedPayload {
            decoded: false,
            control: DecoderControl::default(),
            steps: Ghost(arbitrary()),
        };
    }
    let (control, steps) = decode_payload(state, range_decoder, output, lost_flag, cond_coding);
    DecodedPayload { decoded: true, control, steps }
}

/// Decodes the payload of a frame.
fn decode_payload(
    state: &mut DecoderState,
    range_decoder: &mut RangeDecoder,
    output: &mut [i16],
    lost_flag: DecodeFlag,
    cond_coding: ConditionalCoding,
) -> (r: (DecoderControl, Ghost<PayloadSteps>))
    requires
        channel_ok(*old(state)),
        0 <= old(state).n_frames_decoded < 3,
        old(output)@.len() >= old(state).sample_rate.frame_length,
        old(range_decoder).wf(),
        dec_inside(old(range_decoder)@),
    ensures
        final(range_decoder).wf(),
        dec_inside(final(range_decoder)@),
        payload_decoded(
            *old(state),
            old(range_decoder)@,
            lost_flag,
            cond_coding,
            old(output)@,
            r.1@,
            *final(state),
            final(range_decoder)@,
            r.0,
            final(output)@,
        ),
        final(state).sample_rate.configured(),
        cng_ok(final(state).cng_state),
        forall|i: int| 0 <= i < 16 ==> 0 <= #[trigger] final(state).prev_nlsf_q15[i],
        final(state).n_frames_decoded == old(state).n_frames_decoded,
{
    let mut control: DecoderControl = DecoderControl::default();
    let lbrr: bool = matches!(lost_flag, DecodeFlag::Lbrr);
    let (pulses, after) = read_payload(state, range_decoder, lbrr, cond_coding);
    let ghost read = *state;
    let params = set_parameters(state, &mut control, cond_coding);
    let ghost w = PayloadSteps {
        read,
        after_indices: after@,
        pulses: pulses@,
        params: params@,
        control,
        set: *state,
    };
    synthesise(state, &mut control, output, pulses.as_slice());
    (control, Ghost(w))
}

// ---------------------------------------------------------------------
// After the concealment
// ---------------------------------------------------------------------

/// The history after a frame entered it.
pub open spec fn history_with(out_buf: Seq<i16>, mem: int, frame: Seq<i16>) -> Seq<i16> {
    let kept = mem - frame.len();
    Seq::new(
        out_buf.len(),
        |i: int|
            if i < kept {
                out_buf[i + frame.len()]
            } else if i < mem {
                frame[i - kept]
            } else {
                out_buf[i]
            },
    )
}

fn refresh_output_buffer(state: &mut DecoderState, frame: &[i16])
    requires
        old(state).sample_rate.ltp_mem_length <= 320,
        frame@.len() <= old(state).sample_rate.ltp_mem_length,
    ensures
        *final(state) == (DecoderState {
            sample_rate: DecoderSampleRateState {
                out_buf: final(state).sample_rate.out_buf,
                ..old(state).sample_rate
            },
            ..*old(state)
        }),
        final(state).sample_rate.out_buf@ == history_with(
            old(state).sample_rate.out_buf@,
            old(state).sample_rate.ltp_mem_length as int,
            frame@,
        ),
{
    let mem: usize = state.sample_rate.ltp_mem_length;
    let n: usize = frame.len();
    let kept: usize = mem - n;
    let mut buf: [i16; 480] = state.sample_rate.out_buf;
    let ghost before = buf@;
    for i in 0..kept
        invariant
            kept + n == mem,
            mem <= 320,
            before.len() == 480,
            forall|j: int|
                0 <= j < 480 ==> #[trigger] buf@[j] == if j < i {
                    before[j + n]
                } else {
                    before[j]
                },
    {
        buf[i] = buf[i + n];
    }
    for i in 0..n
        invariant
            kept + n == mem,
            mem <= 320,
            n == frame@.len(),
            before.len() == 480,
            forall|j: int|
                0 <= j < 480 ==> #[trigger] buf@[j] == if j < kept {
                    before[j + n]
                } else if j < kept + i {
                    frame@[j - kept]
                } else {
                    before[j]
                },
    {
        buf[kept + i] = frame[i];
    }
    assert(buf@ =~= history_with(before, mem as int, frame@));
    state.sample_rate.out_buf = buf;
}

/// The noise statistics before noise is added, `losses` losses in a row.
pub open spec fn noise_model(b: DecoderState, losses: int, gains: Seq<int>) -> CngModel {
    let sr = b.sample_rate;
    let r = cng_for_rate(
        b.cng_state@,
        sr.fs_khz as int,
        sr.lpc_order as int,
        b.prev_nlsf_q15@,
    );
    if losses == 0 && sr.prev_signal_type == FrameSignalType::Inactive {
        cng_learnt(
            r,
            sr.lpc_order as int,
            sr.nb_subfr as nat,
            sr.subfr_length as int,
            b.prev_nlsf_q15@,
            b.exc_q14@,
            gains,
        )
    } else {
        r
    }
}

/// The channel and the frame after the frame is decoded or concealed: the loss
/// is over where it was decoded, it enters the history, and comfort noise
/// learns from it or is added to it.
pub open spec fn frame_entered(
    b: DecoderState,
    decoded: bool,
    control: DecoderControl,
    frame: Seq<i16>,
    a: DecoderState,
    out: Seq<i16>,
) -> bool {
    let sr = b.sample_rate;
    let losses = if decoded {
        0
    } else {
        b.loss_count as int
    };
    let m = noise_model(b, losses, ints_of_i32(control.gains_q16@));
    let order = sr.lpc_order as int;
    &&& a == (DecoderState {
        sample_rate: DecoderSampleRateState {
            out_buf: a.sample_rate.out_buf,
            first_frame_after_reset: !decoded && sr.first_frame_after_reset,
            ..sr
        },
        loss_count: a.loss_count,
        cng_state: a.cng_state,
        ..b
    })
    &&& a.loss_count == losses
    &&& a.sample_rate.out_buf@ == history_with(sr.out_buf@, sr.ltp_mem_length as int, frame)
    &&& out.len() == frame.len()
    &&& if losses > 0 {
        let filter = noise_filter(m, order);
        &&& a.cng_state@ == cng_spent(m, filter, frame.len() as int)
        &&& forall|i: int|
            0 <= i < frame.len() ==> #[trigger] out[i] == noisy_sample(
                m,
                (PlcState {
                    rand_scale_q14: b.plc_state.rand_scale_q14 as i32,
                    prev_gain_q16: b.plc_state.prev_gain_q16,
                }),
                filter,
                frame,
                i,
            )
    } else {
        a.cng_state@ == cng_quiet(m, order) && out == frame
    }
}

/// Takes a frame that was decoded or concealed into the history, and lets
/// comfort noise learn from it or adds it.
pub fn decode_frame_enter(
    state: &mut DecoderState,
    control: &DecoderControl,
    frame: &mut [i16],
    decoded: bool,
)
    requires
        old(state).sample_rate.configured(),
        cng_ok(old(state).cng_state),
        forall|i: int| 0 <= i < 16 ==> 0 <= #[trigger] old(state).prev_nlsf_q15[i],
        old(state).loss_count >= 0,
        old(frame)@.len() == old(state).sample_rate.frame_length,
    ensures
        frame_entered(
            *old(state),
            decoded,
            *control,
            old(frame)@,
            *final(state),
            final(frame)@,
        ),
        cng_ok(final(state).cng_state),
        final(state).sample_rate.configured(),
{
    let ghost b = *state;
    if decoded {
        state.loss_count = 0;
        state.sample_rate.first_frame_after_reset = false;
    }
    proof {
        let sr = state.sample_rate;
        assert(sr.nb_subfr * sr.subfr_length <= 4 * sr.subfr_length) by (nonlinear_arith)
            requires
                sr.nb_subfr <= 4,
                sr.subfr_length >= 0,
        ;
    }
    refresh_output_buffer(state, frame);
    let sr: DecoderSampleRateState = state.sample_rate;
    let nlsf: [i16; 16] = state.prev_nlsf_q15;
    let exc: [i32; 320] = state.exc_q14;
    let inputs: ComfortNoiseInputs = ComfortNoiseInputs {
        fs_khz: sr.fs_khz,
        lpc_order: sr.lpc_order,
        nb_subfr: sr.nb_subfr,
        subfr_length: sr.subfr_length,
        prev_signal_type: sr.prev_signal_type,
        loss_count: state.loss_count,
        prev_nlsf_q15: &nlsf,
        exc_q14: &exc,
    };
    let plc: PlcState = PlcState {
        rand_scale_q14: state.plc_state.rand_scale_q14 as i32,
        prev_gain_q16: state.plc_state.prev_gain_q16,
    };
    let mut noise: CngState = state.cng_state;
    assert(inputs.wf());
    apply_cng(&mut noise, &plc, control, &inputs, frame);
    state.cng_state = noise;
}

/// Makes a frame the last one, and returns its samples.
pub fn decode_frame_end(state: &mut DecoderState, control: &DecoderControl) -> (r: usize)
    requires
        1 <= old(state).sample_rate.nb_subfr <= 4,
    ensures
        r == old(state).sample_rate.frame_length,
        *final(state) == (DecoderState {
            sample_rate: DecoderSampleRateState {
                lag_prev: control.pitch_l[old(state).sample_rate.nb_subfr - 1],
                ..old(state).sample_rate
            },
            ..*old(state)
        }),
{
    state.sample_rate.lag_prev = control.pitch_l[state.sample_rate.nb_subfr - 1];
    state.sample_rate.frame_length
}

/// The history holds the last 20 ms: after a frame entered it, the frame is at
/// its end, and what was there before lies one frame earlier.
pub proof fn law_history_ends_with_frame(out_buf: Seq<i16>, mem: int, frame: Seq<i16>)
    requires
        frame.len() <= mem <= out_buf.len(),
    ensures
        ({
            let after = history_with(out_buf, mem, frame);
            &&& after.len() == out_buf.len()
            &&& after.subrange(mem - frame.len(), mem) == frame
            &&& after.subrange(0, mem - frame.len()) == out_buf.subrange(frame.len() as int, mem)
        }),
{
    let after = history_with(out_buf, mem, frame);
    assert(after.subrange(mem - frame.len(), mem) =~= frame);
    assert(after.subrange(0, mem - frame.len()) =~= out_buf.subrange(frame.len() as int, mem));
}

} // verus!
