//! The trials by which a frame is made to fit its bits.
//!
//! Quantisation and coding are done outside; here stands when a trial is coded
//! and from which state, when a frame without pulses takes its place, which
//! trial is kept, and what is put back at the end.
use crate::fixed::{narrow8, wrap8};
use crate::range_encoder::{enc_tell, EncState, RangeEncoder};
use crate::silk::decode_indices::{ConditionalCoding, SideInfoIndices};
use crate::silk::encode_frame::{
    count_subframe_pulses, empty_from, gains_name, make_frame_empty, pulse_sum, pulse_sums,
    rate_loop_next, rate_loop_start, silk_gains_id, trial_bits, trial_gain, verdict, RateLoop,
    RateVerdict, TrialBits,
};
use crate::silk::encoder_state::{
    EncoderChannelState, EncoderShapeState, EncoderStateCommon, NoiseShapingQuantizerState,
};
use crate::silk::types::FrameSignalType;
use vstd::prelude::*;

verus! {

/// What comes next.
#[derive(Debug, Clone, Copy, PartialEq, Eq, Structural)]
pub enum TrialStage {
    /// A trial with the current gains.
    Try,
    /// The bits of a trial that was coded.
    Coded,
    /// The bits of a frame without pulses.
    Empty,
    /// The gains of the next trial.
    Gains,
    /// Nothing: the frame is coded.
    Done,
}

/// What is done outside.
#[derive(Debug, Clone, Copy, PartialEq, Eq)]
pub enum TrialAction {
    /// Nothing; the next step follows.
    Proceed,
    /// The frame is quantised and coded; `again` from the quantiser's state
    /// before the trials.
    Code { again: bool },
    /// The frame is coded without pulses.
    CodeEmpty,
    /// The gains (Q16) are quantised; where `keep` is set, the quantiser's state
    /// is kept before.
    Gains { gains_q16: [i32; 4], keep: bool },
    /// The frame is coded; where `restore` is set, the quantiser's state that was
    /// kept is put back.
    Done { restore: bool },
}

/// A trial that can be put back.
#[derive(Debug)]
pub struct KeptTrial {
    pub range_encoder: RangeEncoder,
    pub nsq_state: NoiseShapingQuantizerState,
    pub indices: SideInfoIndices,
    pub ec_prev_signal_type: FrameSignalType,
    pub ec_prev_lag_index: i16,
    pub last_gain_index: i8,
}

/// The trials of a frame.
#[derive(Debug)]
pub struct TrialRun {
    pub stage: TrialStage,
    pub search: RateLoop,
    pub coding: ConditionalCoding,
    /// Gains of the subframes before quantisation (Q16).
    pub gains_unq_q16: [i32; 4],
    /// Gain level before the frame.
    pub last_gain_index_prev: i8,
    /// Pulses of the subframes of the last trial.
    pub sums: [i32; 4],
    /// The coder before the trials.
    pub range_encoder: RangeEncoder,
    pub nsq_state: NoiseShapingQuantizerState,
    pub seed: i8,
    pub ec_prev_signal_type: FrameSignalType,
    pub ec_prev_lag_index: i16,
    pub kept: Option<KeptTrial>,
}

impl TrialRun {
    pub open spec fn wf(self) -> bool {
        &&& self.search.wf()
        &&& self.range_encoder.wf()
        &&& self.kept is Some ==> self.kept->0.range_encoder.wf()
    }

    /// The same run but for its stage, its search, its sums and what is kept.
    pub open spec fn goes_on(self, a: TrialRun) -> bool {
        a == (TrialRun {
            stage: a.stage,
            search: a.search,
            sums: a.sums,
            kept: a.kept,
            ..self
        })
    }
}

/// A channel as it was before the trials, for another one.
pub open spec fn channel_reset(run: TrialRun, b: EncoderChannelState) -> EncoderChannelState {
    EncoderChannelState {
        common: EncoderStateCommon {
            nsq_state: run.nsq_state,
            indices: SideInfoIndices { seed: run.seed, ..b.common.indices },
            ec_prev_signal_type: run.ec_prev_signal_type,
            ec_prev_lag_index: run.ec_prev_lag_index,
            ..b.common
        },
        ..b
    }
}

/// A channel with the trial that was kept.
pub open spec fn channel_restored(k: KeptTrial, b: EncoderChannelState) -> EncoderChannelState {
    EncoderChannelState {
        common: EncoderStateCommon {
            nsq_state: k.nsq_state,
            indices: k.indices,
            ec_prev_signal_type: k.ec_prev_signal_type,
            ec_prev_lag_index: k.ec_prev_lag_index,
            ..b.common
        },
        shape_state: EncoderShapeState { last_gain_index: k.last_gain_index as i32 },
        ..b
    }
}

/// `k` is the trial that channel `b` and the coder at `s` hold.
pub open spec fn holds_trial(k: KeptTrial, b: EncoderChannelState, s: EncState) -> bool {
    &&& k.range_encoder@ == s
    &&& k.nsq_state == b.common.nsq_state
    &&& k.indices == b.common.indices
    &&& k.ec_prev_signal_type == b.common.ec_prev_signal_type
    &&& k.ec_prev_lag_index == b.common.ec_prev_lag_index
    &&& k.last_gain_index == wrap8(b.shape_state.last_gain_index as int)
}

/// What follows a trial of `bits` bits.
pub open spec fn trial_judged(
    b: TrialRun,
    state: EncoderChannelState,
    s: EncState,
    bits: int,
    coded: bool,
    sums: [i32; 4],
    a: TrialRun,
    after: EncoderChannelState,
    t: EncState,
    act: TrialAction,
) -> bool {
    let nb = state.common.nb_subfr as int;
    &&& b.goes_on(a)
    &&& a.sums == sums
    &&& match verdict(b.search, bits, coded) {
        RateVerdict::Accept => {
            &&& a.stage == TrialStage::Done
            &&& a.search == b.search
            &&& a.kept == b.kept
            &&& after == state
            &&& t == s
            &&& act == TrialAction::Done { restore: false }
        },
        RateVerdict::Restore => {
            &&& a.stage == TrialStage::Done
            &&& a.search == b.search
            &&& a.kept is None
            &&& match b.kept {
                Some(k) => after == channel_restored(k, state) && t == k.range_encoder@,
                None => after == state && t == s,
            }
            &&& act == TrialAction::Done { restore: b.kept is Some }
        },
        RateVerdict::Again { keep } => {
            &&& a.stage == TrialStage::Gains
            &&& rate_loop_next(b.search, bits, nb, pulse_sums(sums), a.search)
            &&& if keep {
                a.kept is Some && holds_trial(a.kept->0, state, s)
            } else {
                a.kept == b.kept
            }
            &&& after == state
            &&& t == s
            &&& act is Gains
            &&& act->keep == keep
            &&& forall|i: int|
                0 <= i < nb ==> #[trigger] act->gains_q16[i] == trial_gain(
                    a.search,
                    b.gains_unq_q16[i] as int,
                    i,
                )
        },
    }
}

/// `a`, `after` and `t` are the run, the channel and the coder after a step;
/// `pulses` are those of the trial that was coded, and `level` is the gain level
/// after the gains that were quantised.
pub open spec fn trial_moved(
    b: TrialRun,
    state: EncoderChannelState,
    s: EncState,
    pulses: Seq<i8>,
    level: i8,
    a: TrialRun,
    after: EncoderChannelState,
    t: EncState,
    act: TrialAction,
) -> bool {
    let c = state.common;
    match b.stage {
        TrialStage::Try => match trial_bits(b.search) {
            TrialBits::Known(bits) => trial_judged(
                b,
                state,
                s,
                bits as int,
                false,
                b.sums,
                a,
                after,
                t,
                act,
            ),
            TrialBits::Code => {
                let again = b.search.iter > 0;
                &&& b.goes_on(a)
                &&& a.stage == TrialStage::Coded
                &&& a.search == b.search
                &&& a.sums == b.sums
                &&& a.kept == b.kept
                &&& act == TrialAction::Code { again }
                &&& if again {
                    after == channel_reset(b, state) && t == b.range_encoder@
                } else {
                    after == state && t == s
                }
            },
        },
        TrialStage::Coded => {
            let bits = enc_tell(s);
            if b.search.iter == 6 && !b.search.found_lower && bits > b.search.max_bits {
                &&& b.goes_on(a)
                &&& a.stage == TrialStage::Empty
                &&& a.search == b.search
                &&& a.kept == b.kept
                &&& act == TrialAction::CodeEmpty
                &&& t == b.range_encoder@
                &&& empty_from(
                    state,
                    b.last_gain_index_prev,
                    b.coding,
                    b.ec_prev_lag_index,
                    b.ec_prev_signal_type,
                    after,
                )
            } else {
                &&& trial_judged(b, state, s, bits, true, a.sums, a, after, t, act)
                &&& forall|i: int|
                    0 <= i < c.nb_subfr ==> #[trigger] a.sums[i] == pulse_sum(
                        pulses,
                        i * c.subfr_length,
                        c.subfr_length as int,
                    )
            }
        },
        TrialStage::Empty => trial_judged(
            b,
            state,
            s,
            enc_tell(s),
            true,
            b.sums,
            a,
            after,
            t,
            act,
        ),
        TrialStage::Gains => {
            &&& b.goes_on(a)
            &&& a.stage == TrialStage::Try
            &&& a.search == (RateLoop {
                gains_id: gains_name(
                    Seq::new(4, |i: int| c.indices.gains_indices[i] as int),
                    c.nb_subfr as int,
                ) as i32,
                ..b.search
            })
            &&& a.sums == b.sums
            &&& a.kept == b.kept
            &&& act == TrialAction::Proceed
            &&& t == s
            &&& after == (EncoderChannelState {
                shape_state: EncoderShapeState { last_gain_index: level as i32 },
                ..state
            })
        },
        TrialStage::Done => {
            &&& a == b
            &&& after == state
            &&& t == s
            &&& act == TrialAction::Done { restore: false }
        },
    }
}

/// The trials of a frame before the first one.
pub fn start_trials(
    state: &EncoderChannelState,
    range_encoder: &RangeEncoder,
    coding: ConditionalCoding,
    max_bits: i32,
    use_cbr: bool,
    lambda_q10: i32,
    gains_unq_q16: [i32; 4],
    last_gain_index_prev: i8,
) -> (r: TrialRun)
    requires
        range_encoder.wf(),
        state.common.nb_subfr <= 4,
    ensures
        r.wf(),
        r.stage == TrialStage::Try,
        r.coding == coding,
        r.gains_unq_q16 == gains_unq_q16,
        r.last_gain_index_prev == last_gain_index_prev,
        r.range_encoder@ == range_encoder@,
        r.range_encoder.capacity() == range_encoder.capacity(),
        r.nsq_state == state.common.nsq_state,
        r.seed == state.common.indices.seed,
        r.ec_prev_signal_type == state.common.ec_prev_signal_type,
        r.ec_prev_lag_index == state.common.ec_prev_lag_index,
        r.kept is None,
        rate_loop_start(
            r.search,
            max_bits as int,
            use_cbr,
            gains_name(
                Seq::new(4, |i: int| state.common.indices.gains_indices[i] as int),
                state.common.nb_subfr as int,
            ),
            lambda_q10 as int,
        ),
{
    let id: i32 = silk_gains_id(&state.common.indices.gains_indices, state.common.nb_subfr);
    TrialRun {
        stage: TrialStage::Try,
        search: RateLoop::start(max_bits, use_cbr, id, lambda_q10),
        coding,
        gains_unq_q16,
        last_gain_index_prev,
        sums: [0;4],
        range_encoder: range_encoder.clone(),
        nsq_state: state.common.nsq_state,
        seed: state.common.indices.seed,
        ec_prev_signal_type: state.common.ec_prev_signal_type,
        ec_prev_lag_index: state.common.ec_prev_lag_index,
        kept: None,
    }
}

fn keep_trial(state: &EncoderChannelState, range_encoder: &RangeEncoder) -> (r: KeptTrial)
    requires
        range_encoder.wf(),
    ensures
        holds_trial(r, *state, range_encoder@),
        r.range_encoder.wf(),
{
    KeptTrial {
        range_encoder: range_encoder.clone(),
        nsq_state: state.common.nsq_state,
        indices: state.common.indices,
        ec_prev_signal_type: state.common.ec_prev_signal_type,
        ec_prev_lag_index: state.common.ec_prev_lag_index,
        last_gain_index: narrow8(state.shape_state.last_gain_index),
    }
}

fn restore_channel(state: &mut EncoderChannelState, kept: &KeptTrial)
    ensures
        *final(state) == channel_restored(*kept, *old(state)),
{
    state.common = EncoderStateCommon {
        nsq_state: kept.nsq_state,
        indices: kept.indices,
        ec_prev_signal_type: kept.ec_prev_signal_type,
        ec_prev_lag_index: kept.ec_prev_lag_index,
        ..state.common
    };
    state.shape_state = EncoderShapeState { last_gain_index: kept.last_gain_index as i32 };
}

fn reset_channel(state: &mut EncoderChannelState, run: &TrialRun)
    ensures
        *final(state) == channel_reset(*run, *old(state)),
{
    let indices: SideInfoIndices = SideInfoIndices { seed: run.seed, ..state.common.indices };
    state.common = EncoderStateCommon {
        nsq_state: run.nsq_state,
        indices,
        ec_prev_signal_type: run.ec_prev_signal_type,
        ec_prev_lag_index: run.ec_prev_lag_index,
        ..state.common
    };
}

/// Judges a trial.
fn judge_trial(
    run: &mut TrialRun,
    state: &mut EncoderChannelState,
    range_encoder: &mut RangeEncoder,
    bits: i32,
    coded: bool,
    sums: [i32; 4],
) -> (r: TrialAction)
    requires
        old(run).wf(),
        old(range_encoder).wf(),
        old(state).common.nb_subfr <= 4,
    ensures
        final(run).wf(),
        final(range_encoder).wf(),
        trial_judged(
            *old(run),
            *old(state),
            old(range_encoder)@,
            bits as int,
            coded,
            sums,
            *final(run),
            *final(state),
            final(range_encoder)@,
            r,
        ),
{
    let nb: usize = state.common.nb_subfr;
    let mut search: RateLoop = run.search;
    run.sums = sums;
    match search.judge(bits, coded, nb, &sums) {
        RateVerdict::Accept => {
            run.stage = TrialStage::Done;
            TrialAction::Done { restore: false }
        },
        RateVerdict::Restore => {
            run.stage = TrialStage::Done;
            match run.kept.take() {
                Some(kept) => {
                    restore_channel(state, &kept);
                    *range_encoder = kept.range_encoder;
                    TrialAction::Done { restore: true }
                },
                None => TrialAction::Done { restore: false },
            }
        },
        RateVerdict::Again { keep } => {
            if keep {
                run.kept = Some(keep_trial(state, range_encoder));
            }
            run.search = search;
            run.stage = TrialStage::Gains;
            let gains_q16: [i32; 4] = search.trial_gains(&run.gains_unq_q16, nb);
            TrialAction::Gains { gains_q16, keep }
        },
    }
}

/// Takes a step; `pulses` are those of the trial that was coded, and `level` is
/// the gain level after the gains that were quantised.
pub fn trial_step(
    run: &mut TrialRun,
    state: &mut EncoderChannelState,
    range_encoder: &mut RangeEncoder,
    pulses: &[i8],
    level: i8,
) -> (r: TrialAction)
    requires
        old(run).wf(),
        old(range_encoder).wf(),
        1 <= old(state).common.nb_subfr <= 4,
        old(state).common.subfr_length <= 80,
        old(run).stage == TrialStage::Coded ==> old(state).common.nb_subfr * old(
            state,
        ).common.subfr_length <= pulses@.len(),
    ensures
        final(run).wf(),
        final(range_encoder).wf(),
        trial_moved(
            *old(run),
            *old(state),
            old(range_encoder)@,
            pulses@,
            level,
            *final(run),
            *final(state),
            final(range_encoder)@,
            r,
        ),
{
    match run.stage {
        TrialStage::Try => match run.search.known_bits() {
            TrialBits::Known(bits) => {
                let sums: [i32; 4] = run.sums;
                judge_trial(run, state, range_encoder, bits, false, sums)
            },
            TrialBits::Code => {
                let again: bool = run.search.iter > 0;
                if again {
                    reset_channel(state, run);
                    *range_encoder = run.range_encoder.clone();
                }
                run.stage = TrialStage::Coded;
                TrialAction::Code { again }
            },
        },
        TrialStage::Coded => {
            let bits: i32 = range_encoder.tell();
            if run.search.needs_empty_frame(bits) {
                *range_encoder = run.range_encoder.clone();
                make_frame_empty(
                    state,
                    run.last_gain_index_prev,
                    run.coding,
                    run.ec_prev_lag_index,
                    run.ec_prev_signal_type,
                );
                run.stage = TrialStage::Empty;
                return TrialAction::CodeEmpty;
            }
            let sums: [i32; 4] = count_subframe_pulses(
                pulses,
                state.common.subfr_length,
                state.common.nb_subfr,
            );
            judge_trial(run, state, range_encoder, bits, true, sums)
        },
        TrialStage::Empty => {
            let bits: i32 = range_encoder.tell();
            let sums: [i32; 4] = run.sums;
            judge_trial(run, state, range_encoder, bits, true, sums)
        },
        TrialStage::Gains => {
            state.shape_state = EncoderShapeState { last_gain_index: level as i32 };
            let id: i32 = silk_gains_id(
                &state.common.indices.gains_indices,
                state.common.nb_subfr,
            );
            let mut search: RateLoop = run.search;
            search.name_trial(id);
            run.search = search;
            run.stage = TrialStage::Try;
            TrialAction::Proceed
        },
        TrialStage::Done => TrialAction::Done { restore: false },
    }
}

/// Steps that are left at most.
pub open spec fn steps_left(run: TrialRun) -> int {
    4 * (6 - run.search.iter) + match run.stage {
        TrialStage::Gains => 4,
        TrialStage::Try => 3,
        TrialStage::Coded => 2,
        TrialStage::Empty => 1,
        TrialStage::Done => -4 * (6 - run.search.iter),
    }
}

/// The trials of a frame end: each step leaves fewer.
pub proof fn law_trials_end(
    b: TrialRun,
    state: EncoderChannelState,
    s: EncState,
    pulses: Seq<i8>,
    level: i8,
    a: TrialRun,
    after: EncoderChannelState,
    t: EncState,
    act: TrialAction,
)
    requires
        b.wf(),
        a.wf(),
        b.stage != TrialStage::Done,
        trial_moved(b, state, s, pulses, level, a, after, t, act),
    ensures
        0 <= steps_left(a) < steps_left(b) <= 28,
        a.stage == TrialStage::Done <==> act is Done,
{
}

} // verus!
