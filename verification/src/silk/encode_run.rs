//! The order of steps of one call that codes a packet or a part of it.
//!
//! Sample-rate conversion, stereo analysis, the measuring of speech activity and
//! the coding of frames are done outside, each when a step asks for it.

use crate::range_encoder::{enc_icdf_next, enc_patched, enc_tell, EncState, RangeEncoder};
use crate::silk::check_control_input::{is_api_rate, is_internal_rate, EncControl};
use crate::silk::control_codec::{
    control_encoder, histories_after, plan_fault, plan_holds, refused_after, settings_after,
    shaped, ControlPlan,
};
use crate::silk::control_snr::snr_of;
use crate::silk::enc_api::{
    announced, blocks_of, call_fault, call_reported, carry_mono_samples, channel_budget,
    channel_ready, coding_of, end_call, frame_target_rate, header_bits, header_icdf, lbrr_symbol,
    next_input, packet_flags, packet_pauses, prefill_ended, ready_channel, samples_to_buffer,
    smoothed_lbrr, target_rate, EncodeCall, Encoder, PacketState, PrefillMode, StereoConversionResult,
    StereoEncState,
};
use crate::silk::encode_call::{
    block_ended, call_started, encoder_rested, end_block, finish_packet, frame_job, input_step,
    mid_buffered, next_input_step, packet_complete, redundancy_sent, redundant_jobs,
    side_analysed, silk_encode_start, start_packet, take_input, take_stereo, with_input, written,
    FrameJob, InputStep, RedundantJob,
};
use crate::silk::encode_frame::{
    counted_activity, pause_after, silk_encode_do_vad, SPEECH_ACTIVITY_DTX_THRES_Q8,
};
use crate::silk::encoder_state::{
    khz_or_none, EncoderChannelState, EncoderStateCommon, INPUT_BUFFER_LENGTH, X_BUFFER_LENGTH,
};
use crate::silk::decode_indices::SideInfoIndices;
use crate::silk::types::{FrameSignalType, SilkError};
use vstd::arithmetic::power2::pow2;
use vstd::prelude::*;

verus! {

/// What comes next.
#[derive(Debug, Clone, Copy, PartialEq, Eq, Structural)]
pub enum EncodeStage {
    /// The start of the call.
    Start,
    /// The settings of a channel.
    Setup { channel: usize },
    /// The choice of samples that are converted.
    Input,
    /// The converted samples.
    Take,
    /// The start of a frame, and of its packet.
    Block,
    /// The filters, behind the redundant frames.
    Cutoff,
    /// The target rate.
    Rate,
    /// The result of the stereo analysis.
    Stereo,
    /// The speech activity of the side.
    SideActivity,
    /// The stereo predictors.
    Predictors,
    /// The request for the speech activity of the middle or only channel.
    Measure,
    /// That activity.
    MidActivity,
    /// The frame of a channel.
    Frame { channel: usize },
    /// The bytes of that frame.
    Coded { channel: usize },
    /// The end of a frame of all channels.
    BlockEnd,
    /// The end of a packet.
    Packet,
    /// The end of the call.
    End,
    /// Nothing.
    Done,
}

/// What was done outside since the last step.
#[derive(Debug)]
pub enum EncodeEvent {
    /// Nothing that is read here.
    Ready,
    /// The analysis history at the rate that a channel changes to.
    History { samples: Vec<i16> },
    /// The samples of an input step are converted.
    Converted { mid: Vec<i16>, side: Vec<i16> },
    /// Left and right became middle and side.
    Stereo { result: StereoConversionResult },
    /// The speech activity (Q8) was measured.
    Activity { measured: i32 },
    /// A frame was coded, and the packet has that many bytes.
    Coded { bytes: i32 },
}

/// What is done outside.
#[derive(Debug)]
pub enum EncodeAction {
    /// Nothing; the next step follows.
    Proceed,
    /// The history of a channel is converted to its new rate.
    ConvertHistory { channel: usize },
    /// The samples of the input step are converted.
    ConvertInput,
    /// Redundant frames of the last packet are coded.
    CodeRedundant { jobs: Vec<RedundantJob> },
    /// The high-pass filters of all channels are adapted.
    AdaptCutoff,
    /// Left and right become middle and side.
    ToMidAndSide { target_rate_bps: i32 },
    /// The speech activity of a channel is measured.
    Measure { channel: usize },
    /// The stereo predictors are coded, and, where the side is silent, whether
    /// the frame has no side.
    CodePredictors { indices: [[i8; 3]; 2], mid_only: Option<bool> },
    /// A frame of a channel is coded.
    CodeFrame { channel: usize, job: FrameJob },
    /// The call ends; the packet has that many bytes, none where it is not
    /// complete or not sent.
    Done { bytes: i32 },
    /// The call is refused.
    Fail { error: SilkError },
}

/// How far a call has come.
#[derive(Debug)]
pub struct EncodeRun {
    pub stage: EncodeStage,
    pub prefill: PrefillMode,
    /// The activity that the caller tells.
    pub activity: i32,
    pub call: EncodeCall,
    /// Input samples that are used up.
    pub offset: usize,
    /// Input samples of each channel that are left.
    pub remaining: i32,
    pub step: InputStep,
    /// Frames of the call before this one.
    pub block: i32,
    /// Frames of the packet before this one.
    pub frame: usize,
    /// The bits before redundancy, where the frame starts a packet.
    pub before: Option<i32>,
    /// Target rates of the channels.
    pub rates: [i32; 2],
    pub stereo: StereoConversionResult,
    /// The frame before had no side.
    pub only_middle: bool,
    /// Bytes of the packet.
    pub n_bytes: i32,
}

impl EncodeRun {
    /// A call before its first step.
    pub fn new(prefill: PrefillMode, activity: i32) -> (r: EncodeRun)
        ensures
            r.stage == EncodeStage::Start,
            r.prefill == prefill,
            r.activity == activity,
            r.offset == 0,
            r.block == 0,
            r.n_bytes == 0,
    {
        EncodeRun {
            stage: EncodeStage::Start,
            prefill,
            activity,
            call: EncodeCall {
                samples: 0,
                n_blocks_of_10ms: 0,
                tot_blocks: 1,
                transition: false,
                payload_size_ms: 0,
                complexity: 0,
            },
            offset: 0,
            remaining: 0,
            step: InputStep {
                n: 0,
                n_side: 0,
                taken: 0,
                mid: Vec::new(),
                side: None,
                follows: false,
                fades: false,
            },
            block: 0,
            frame: 0,
            before: None,
            rates: [0;2],
            stereo: StereoConversionResult {
                indices: [[0;3];2],
                mid_only_flag: false,
                mid_side_rates_bps: [0;2],
            },
            only_middle: false,
            n_bytes: 0,
        }
    }
}

// ---------------------------------------------------------------------
// Start of a call
// ---------------------------------------------------------------------

/// A call of `samples_len` samples was started or refused.
#[verifier::opaque]
pub open spec fn start_done(
    b: EncodeRun,
    e: Encoder,
    ctl: EncControl,
    samples_len: int,
    a: EncodeRun,
    f: Encoder,
    told: EncControl,
    act: EncodeAction,
) -> bool {
    &&& call_started(e, ctl, samples_len, b.prefill, f, told)
    &&& match call_fault(ctl, samples_len, b.prefill) {
        Some(error) => {
            &&& act == EncodeAction::Fail { error }
            &&& a == (EncodeRun { stage: EncodeStage::Done, ..b })
        },
        None => {
            let samples = samples_len / (ctl.n_channels_api as int);
            let blocks = blocks_of(samples, ctl.api_sample_rate as int);
            &&& act == EncodeAction::ConvertHistory { channel: 0 }
            &&& a == (EncodeRun {
                stage: EncodeStage::Setup { channel: 0 },
                call: EncodeCall {
                    samples: samples as i32,
                    n_blocks_of_10ms: blocks as i32,
                    tot_blocks: if blocks > 1 {
                        (blocks / 2) as i32
                    } else {
                        1
                    },
                    transition: ctl.payload_size_ms != e.mid.common.packet_size_ms
                        || e.packet.n_channels_internal != ctl.n_channels_internal,
                    payload_size_ms: ctl.payload_size_ms,
                    complexity: ctl.complexity,
                },
                remaining: samples as i32,
                ..b
            })
        },
    }
}

fn do_start(
    run: &mut EncodeRun,
    encoder: &mut Encoder,
    control: &mut EncControl,
    samples_len: usize,
) -> (r: EncodeAction)
    requires
        1 <= old(encoder).packet.n_channels_internal <= 2,
    ensures
        start_done(
            *old(run),
            *old(encoder),
            *old(control),
            samples_len as int,
            *final(run),
            *final(encoder),
            *final(control),
            r,
        ),
{
    proof {
        reveal(start_done);
    }
    match silk_encode_start(encoder, control, samples_len, run.prefill) {
        Ok(call) => {
            run.remaining = call.samples;
            run.call = call;
            run.stage = EncodeStage::Setup { channel: 0 };
            EncodeAction::ConvertHistory { channel: 0 }
        },
        Err(error) => {
            run.stage = EncodeStage::Done;
            EncodeAction::Fail { error }
        },
    }
}

/// Channel `n` was set up by the plan `p` with a converted history, or refused;
/// it had the settings `set` before it was made ready.
pub open spec fn set_up_by(
    p: ControlPlan,
    set: EncoderStateCommon,
    b: EncoderChannelState,
    ctl: EncControl,
    allowed: bool,
    n: i32,
    force: Option<i32>,
    history: Seq<i16>,
    transition: bool,
    a: EncoderChannelState,
    told: EncControl,
    fault: Option<SilkError>,
) -> bool {
    &&& plan_holds(b.common, b.lp_state, ctl, allowed, n, force, p)
    &&& told == p.control
    &&& fault == plan_fault(p, ctl, force, history.len() as int)
    &&& match fault {
        Some(e) => refused_after(b, p, history, e, a),
        None => {
            &&& settings_after(p, ctl, set)
            &&& histories_after(b, p, history, EncoderChannelState { common: set, ..a })
            &&& channel_ready(set, transition, a.common)
        },
    }
}

/// Channel `n` was set up with a converted history, or refused.
pub open spec fn set_up(
    b: EncoderChannelState,
    ctl: EncControl,
    allowed: bool,
    n: i32,
    force: Option<i32>,
    history: Seq<i16>,
    transition: bool,
    a: EncoderChannelState,
    told: EncControl,
    fault: Option<SilkError>,
) -> bool {
    exists|p: ControlPlan, set: EncoderStateCommon| #[trigger]
        set_up_by(p, set, b, ctl, allowed, n, force, history, transition, a, told, fault)
}

fn set_channel_up(
    channel: &mut EncoderChannelState,
    control: &mut EncControl,
    allowed: bool,
    n: i32,
    force: Option<i32>,
    history: &[i16],
    transition: bool,
) -> (r: Option<SilkError>)
    requires
        old(channel).wf(),
        shaped(old(channel).common),
        old(control).rates_ok(),
        0 <= old(control).packet_loss_percentage <= 100,
        -5 < old(control).payload_size_ms <= 0x7fff_fffa,
    ensures
        set_up(
            *old(channel),
            *old(control),
            allowed,
            n,
            force,
            history@,
            transition,
            *final(channel),
            *final(control),
            r,
        ),
{
    let ghost b = *channel;
    let ghost ctl = *control;
    let result = control_encoder(channel, control, allowed, n, force, history);
    let ghost c = *channel;
    let ghost told = *control;
    let ghost fault = match result {
        Ok(_) => None,
        Err(e) => Some(e),
    };
    let ghost p = choose|p: ControlPlan| #[trigger]
        plan_holds(b.common, b.lp_state, ctl, allowed, n, force, p) && told == p.control && fault
            == plan_fault(p, ctl, force, history@.len() as int) && match fault {
            Some(e) => refused_after(b, p, history@, e, c),
            None => settings_after(p, ctl, c.common) && histories_after(b, p, history@, c),
        };
    match result {
        Ok(_) => {
            ready_channel(channel, transition);
            assert(c == (EncoderChannelState { common: c.common, ..*channel }));
            assert(set_up_by(
                p,
                c.common,
                b,
                ctl,
                allowed,
                n,
                force,
                history@,
                transition,
                *channel,
                told,
                None,
            ));
            None
        },
        Err(e) => {
            assert(set_up_by(
                p,
                c.common,
                b,
                ctl,
                allowed,
                n,
                force,
                history@,
                transition,
                c,
                told,
                Some(e),
            ));
            Some(e)
        },
    }
}

/// The rate that a channel has to take: that of the first channel, for the
/// second.
pub open spec fn forced_rate(e: Encoder, channel: int) -> Option<i32> {
    if channel == 1 {
        Some(e.mid.common.fs_khz)
    } else {
        None
    }
}

/// Why a call is refused, if it is.
pub open spec fn fault_of(act: EncodeAction) -> Option<SilkError> {
    match act {
        EncodeAction::Fail { error } => Some(error),
        _ => None,
    }
}

/// A channel's settings were made.
#[verifier::opaque]
pub open spec fn setup_done(
    b: EncodeRun,
    channel: int,
    e: Encoder,
    ctl: EncControl,
    history: Seq<i16>,
    a: EncodeRun,
    f: Encoder,
    told: EncControl,
    act: EncodeAction,
) -> bool {
    &&& f.packet == e.packet
    &&& if channel == 0 {
        f.side == e.side
    } else {
        f.mid == e.mid
    }
    &&& set_up(
        if channel == 0 {
            e.mid
        } else {
            e.side
        },
        ctl,
        e.packet.allow_bandwidth_switch,
        channel as i32,
        forced_rate(e, channel),
        history,
        b.call.transition,
        if channel == 0 {
            f.mid
        } else {
            f.side
        },
        told,
        fault_of(act),
    )
    &&& if act is Fail {
        a == (EncodeRun { stage: EncodeStage::Done, ..b })
    } else if channel == 0 && ctl.n_channels_internal == 2 {
        &&& act == EncodeAction::ConvertHistory { channel: 1 }
        &&& a == (EncodeRun { stage: EncodeStage::Setup { channel: 1 }, ..b })
    } else {
        &&& act == EncodeAction::Proceed
        &&& a == (EncodeRun { stage: EncodeStage::Input, ..b })
    }
}

fn do_setup(
    run: &mut EncodeRun,
    channel: usize,
    encoder: &mut Encoder,
    control: &mut EncControl,
    history: &[i16],
) -> (r: EncodeAction)
    requires
        channel < 2,
        ({
            let c = if channel == 0 {
                old(encoder).mid
            } else {
                old(encoder).side
            };
            c.wf() && shaped(c.common)
        }),
        old(control).rates_ok(),
        0 <= old(control).packet_loss_percentage <= 100,
        -5 < old(control).payload_size_ms <= 0x7fff_fffa,
    ensures
        setup_done(
            *old(run),
            channel as int,
            *old(encoder),
            *old(control),
            history@,
            *final(run),
            *final(encoder),
            *final(control),
            r,
        ),
{
    proof {
        reveal(setup_done);
    }
    let stereo: bool = control.n_channels_internal == 2;
    let allowed: bool = encoder.packet.allow_bandwidth_switch;
    let fs_khz: i32 = encoder.mid.common.fs_khz;
    let fault: Option<SilkError> = if channel == 0 {
        set_channel_up(
            &mut encoder.mid,
            control,
            allowed,
            0,
            None,
            history,
            run.call.transition,
        )
    } else {
        set_channel_up(
            &mut encoder.side,
            control,
            allowed,
            1,
            Some(fs_khz),
            history,
            run.call.transition,
        )
    };
    match fault {
        Some(error) => {
            run.stage = EncodeStage::Done;
            EncodeAction::Fail { error }
        },
        None => {
            if channel == 0 && stereo {
                run.stage = EncodeStage::Setup { channel: 1 };
                EncodeAction::ConvertHistory { channel: 1 }
            } else {
                run.stage = EncodeStage::Input;
                EncodeAction::Proceed
            }
        },
    }
}

// ---------------------------------------------------------------------
// Input
// ---------------------------------------------------------------------

/// The converted samples of a step were taken.
pub open spec fn input_taken(
    b: Encoder,
    step: InputStep,
    mid: Seq<i16>,
    side: Seq<i16>,
    a: Encoder,
) -> bool {
    let at = b.side.common.input_buf_ix as int;
    let follower = EncoderChannelState { resampler_state: b.mid.resampler_state, ..b.side };
    let buf = written(b.side.input_buf@, at + 2, side);
    &&& a.packet == (PacketState { allow_bandwidth_switch: false, ..b.packet })
    &&& with_input(
        b.mid,
        mid_buffered(b, step, mid, side),
        b.mid.common.input_buf_ix + step.n,
        a.mid,
    )
    &&& if step.fades {
        with_input(b.side, buf, at, a.side)
    } else if step.side is None {
        a.side == b.side
    } else if step.follows {
        with_input(follower, buf, at + step.n_side, a.side)
    } else {
        with_input(b.side, buf, at + step.n_side, a.side)
    }
}

/// The converted samples can be taken.
pub open spec fn input_fits(e: Encoder, step: InputStep, mid: Seq<i16>, side: Seq<i16>) -> bool {
    let n = e.mid.common.frame_length;
    &&& mid.len() == step.n
    &&& step.side is Some ==> side.len() == step.n_side
    &&& e.mid.common.input_buf_ix + 2 + step.n <= e.mid.input_buf@.len() <= 0x1_0000
    &&& step.side is Some ==> e.side.common.input_buf_ix + 2 + step.n_side
        <= e.side.input_buf@.len() <= 0x1_0000
    &&& step.fades ==> {
        &&& step.side is Some
        &&& e.mid.common.input_buf_ix + 2 + n <= e.mid.input_buf@.len()
        &&& e.side.common.input_buf_ix + 2 + n <= e.side.input_buf@.len()
    }
}

/// Samples were taken: a frame starts where they complete one, else the call
/// ends.
#[verifier::opaque]
pub open spec fn take_done(
    b: EncodeRun,
    e: Encoder,
    ctl: EncControl,
    mid: Seq<i16>,
    side: Seq<i16>,
    a: EncodeRun,
    f: Encoder,
    act: EncodeAction,
) -> bool {
    &&& input_taken(e, b.step, mid, side, f)
    &&& act == EncodeAction::Proceed
    &&& a == (EncodeRun {
        stage: if f.mid.common.input_buf_ix < f.mid.common.frame_length {
            EncodeStage::End
        } else {
            EncodeStage::Block
        },
        offset: (b.offset + b.step.taken * ctl.n_channels_api) as usize,
        remaining: (b.remaining - b.step.taken) as i32,
        ..b
    })
}

fn do_take(
    run: &mut EncodeRun,
    encoder: &mut Encoder,
    control: &EncControl,
    mid: &[i16],
    side: &[i16],
) -> (r: EncodeAction)
    requires
        input_fits(*old(encoder), old(run).step, mid@, side@),
        1 <= control.n_channels_api <= 2,
        old(run).step.taken <= old(run).remaining,
        old(run).offset + old(run).step.taken * control.n_channels_api <= usize::MAX,
    ensures
        take_done(
            *old(run),
            *old(encoder),
            *control,
            mid@,
            side@,
            *final(run),
            *final(encoder),
            r,
        ),
{
    proof {
        reveal(take_done);
    }
    take_input(encoder, &run.step, mid, side);
    let taken: usize = run.step.taken;
    let channels: usize = control.n_channels_api as usize;
    proof {
        let api = control.n_channels_api as int;
        assert(taken <= taken * api) by (nonlinear_arith)
            requires
                0 <= taken,
                1 <= api,
        ;
    }
    let samples: usize = taken * channels;
    run.offset = run.offset + samples;
    run.remaining = run.remaining - taken as i32;
    run.stage =
    if encoder.mid.common.input_buf_ix < encoder.mid.common.frame_length {
        EncodeStage::End
    } else {
        EncodeStage::Block
    };
    EncodeAction::Proceed
}

// ---------------------------------------------------------------------
// Start of a frame
// ---------------------------------------------------------------------

/// The head of a packet was coded.
pub open spec fn head_coded(
    b: Encoder,
    s: EncState,
    stereo: bool,
    jobs: Seq<RedundantJob>,
    before: int,
    a: Encoder,
    t: EncState,
) -> bool {
    let frames = b.mid.common.n_frames_per_packet as int;
    let mid = b.mid.common.lbrr_flags@;
    let side = b.side.common.lbrr_flags@;
    let room = enc_icdf_next(
        s,
        header_icdf(
            frames,
            if stereo {
                2
            } else {
                1
            },
        ),
        8,
        0,
    );
    let first = announced(room, lbrr_symbol(mid, frames), frames);
    &&& jobs == redundant_jobs(mid, side, stereo, frames as nat)
    &&& before == enc_tell(room)
    &&& t == if stereo {
        announced(first, lbrr_symbol(side, frames), frames)
    } else {
        first
    }
    &&& a.packet == b.packet
    &&& redundancy_sent(b.mid, frames, a.mid)
    &&& if stereo {
        redundancy_sent(b.side, frames, a.side)
    } else {
        a.side == b.side
    }
}

/// A frame starts: the first one of a packet that is coded starts with the head
/// of the packet and its redundant frames.
#[verifier::opaque]
pub open spec fn block_begun(
    b: EncodeRun,
    e: Encoder,
    s: EncState,
    stereo: bool,
    a: EncodeRun,
    f: Encoder,
    t: EncState,
    act: EncodeAction,
) -> bool {
    let frame = e.mid.common.n_frames_encoded;
    &&& a == (EncodeRun { stage: EncodeStage::Cutoff, frame, before: a.before, ..b })
    &&& if frame == 0 && b.prefill == PrefillMode::Off {
        &&& a.before is Some
        &&& act is CodeRedundant
        &&& head_coded(e, s, stereo, act->jobs@, a.before->0 as int, f, t)
    } else {
        a.before is None && act == EncodeAction::Proceed && f == e && t == s
    }
}

fn do_block(
    run: &mut EncodeRun,
    encoder: &mut Encoder,
    range_encoder: &mut RangeEncoder,
    stereo: bool,
) -> (r: EncodeAction)
    requires
        1 <= old(encoder).mid.common.n_frames_per_packet <= 3,
        old(range_encoder).wf(),
        old(encoder).mid.common.n_frames_encoded == 0 && old(run).prefill == PrefillMode::Off
            ==> old(range_encoder).room(3),
    ensures
        final(range_encoder).wf(),
        final(range_encoder).capacity() == old(range_encoder).capacity(),
        block_begun(
            *old(run),
            *old(encoder),
            old(range_encoder)@,
            stereo,
            *final(run),
            *final(encoder),
            final(range_encoder)@,
            r,
        ),
{
    proof {
        reveal(block_begun);
    }
    run.frame = encoder.mid.common.n_frames_encoded;
    run.stage = EncodeStage::Cutoff;
    if run.frame == 0 && !run.prefill.is_active() {
        let (jobs, before) = start_packet(encoder, range_encoder, stereo);
        run.before = Some(before);
        EncodeAction::CodeRedundant { jobs }
    } else {
        run.before = None;
        EncodeAction::Proceed
    }
}

/// A channel took the measured activity of its frame.
#[verifier::opaque]
pub open spec fn activity_taken(
    e: EncoderChannelState,
    activity: int,
    measured: int,
    f: EncoderChannelState,
) -> bool {
    let b = e.common;
    let a = f.common;
    let counted = counted_activity(measured, activity);
    let speech = counted >= SPEECH_ACTIVITY_DTX_THRES_Q8;
    let (pause, n) = pause_after(b.in_dtx, b.no_speech_counter as int);
    &&& f == (EncoderChannelState { common: a, ..e })
    &&& a == (EncoderStateCommon {
        speech_activity_q8: a.speech_activity_q8,
        no_speech_counter: a.no_speech_counter,
        in_dtx: a.in_dtx,
        vad_flags: a.vad_flags,
        indices: a.indices,
        ..b
    })
    &&& a.speech_activity_q8 == counted
    &&& a.vad_flags@ == b.vad_flags@.update(b.n_frames_encoded as int, speech)
    &&& a.indices == (SideInfoIndices {
        signal_type: if speech {
            FrameSignalType::Unvoiced
        } else {
            FrameSignalType::Inactive
        },
        ..b.indices
    })
    &&& if speech {
        a.no_speech_counter == 0 && !a.in_dtx
    } else {
        a.no_speech_counter == n && a.in_dtx == pause
    }
}

/// The bits of redundancy of the packet, where the frame starts one.
pub open spec fn redundancy_bits(b: EncodeRun, s: EncState) -> int {
    match b.before {
        Some(before) => enc_tell(s) - before,
        None => 0,
    }
}

/// The target rate of a frame was set; stereo is analysed next, and mono is
/// carried over.
#[verifier::opaque]
pub open spec fn rate_set(
    b: EncodeRun,
    e: Encoder,
    ctl: EncControl,
    s: EncState,
    a: EncodeRun,
    f: Encoder,
    act: EncodeAction,
) -> bool {
    let filling = b.prefill != PrefillMode::Off;
    let redundant = if filling {
        e.packet.n_bits_used_lbrr as int
    } else {
        smoothed_lbrr(e.packet.n_bits_used_lbrr as int, redundancy_bits(b, s))
    };
    let target = target_rate(
        ctl,
        filling,
        redundant,
        e.packet.n_bits_exceeded as int,
        e.mid.common.n_frames_per_packet as int,
        b.frame as int,
        enc_tell(s),
    );
    &&& f.side == e.side
    &&& a.rates@ == seq![target as i32, 0i32]
    &&& f.packet == (PacketState {
        n_bits_used_lbrr: redundant as i32,
        stereo_state: f.packet.stereo_state,
        ..e.packet
    })
    &&& if ctl.n_channels_internal == 2 {
        &&& a == (EncodeRun { stage: EncodeStage::Stereo, rates: a.rates, ..b })
        &&& act == EncodeAction::ToMidAndSide { target_rate_bps: target as i32 }
        &&& f.mid == e.mid
        &&& f.packet.stereo_state == e.packet.stereo_state
    } else {
        let n = e.mid.common.frame_length as int;
        let was = e.packet.stereo_state;
        let is = f.packet.stereo_state;
        &&& a == (EncodeRun { stage: EncodeStage::Measure, rates: a.rates, ..b })
        &&& act == EncodeAction::Proceed
        &&& f.mid == (EncoderChannelState { input_buf: f.mid.input_buf, ..e.mid })
        &&& f.mid.input_buf@ == e.mid.input_buf@.update(0, was.s_mid[0]).update(1, was.s_mid[1])
        &&& is == (StereoEncState { s_mid: is.s_mid, ..was })
        &&& is.s_mid@ == seq![f.mid.input_buf@[n], f.mid.input_buf@[n + 1]]
    }
}

fn do_rate(
    run: &mut EncodeRun,
    encoder: &mut Encoder,
    control: &EncControl,
    range_encoder: &RangeEncoder,
) -> (r: EncodeAction)
    requires
        control.control_error() is None,
        1 <= old(encoder).mid.common.n_frames_per_packet <= 3,
        old(run).frame <= 3,
        old(run).before is Some ==> 0 <= old(run).before->0,
        0 <= old(encoder).packet.n_bits_used_lbrr,
        range_encoder.wf(),
        control.n_channels_internal != 2 ==> old(encoder).mid.common.frame_length + 2 <= old(
            encoder,
        ).mid.input_buf@.len() <= 0x1_0000,
    ensures
        rate_set(
            *old(run),
            *old(encoder),
            *control,
            range_encoder@,
            *final(run),
            *final(encoder),
            r,
        ),
{
    proof {
        reveal(rate_set);
    }
    let tell: i32 = range_encoder.tell();
    let lbrr_bits: i32 = match run.before {
        Some(before) => tell - before,
        None => 0,
    };
    let mut packet: PacketState = encoder.packet;
    let target: i32 = frame_target_rate(
        &mut packet,
        control,
        run.prefill.is_active(),
        lbrr_bits,
        encoder.mid.common.n_frames_per_packet as i32,
        run.frame as i32,
        tell,
    );
    run.rates = [target, 0];
    if control.n_channels_internal == 2 {
        encoder.packet = packet;
        run.stage = EncodeStage::Stereo;
        EncodeAction::ToMidAndSide { target_rate_bps: target }
    } else {
        let mut state: StereoEncState = packet.stereo_state;
        carry_mono_samples(&mut encoder.mid, &mut state);
        encoder.packet = PacketState { stereo_state: state, ..packet };
        run.stage = EncodeStage::Measure;
        EncodeAction::Proceed
    }
}

// ---------------------------------------------------------------------
// Stereo and speech activity
// ---------------------------------------------------------------------

/// The result of the stereo analysis was taken; the activity of the side is
/// measured next, if there is one.
#[verifier::opaque]
pub open spec fn stereo_taken(
    b: EncodeRun,
    e: Encoder,
    result: StereoConversionResult,
    a: EncodeRun,
    f: Encoder,
    act: EncodeAction,
) -> bool {
    let k = e.mid.common.n_frames_encoded as int;
    let was = e.packet.stereo_state;
    let is = f.packet.stereo_state;
    &&& a == (EncodeRun {
        stage: if result.mid_only_flag {
            EncodeStage::Predictors
        } else {
            EncodeStage::SideActivity
        },
        rates: result.mid_side_rates_bps,
        stereo: result,
        ..b
    })
    &&& act == if result.mid_only_flag {
        EncodeAction::Proceed
    } else {
        EncodeAction::Measure { channel: 1 }
    }
    &&& f.mid == e.mid
    &&& f.packet == (PacketState { stereo_state: is, ..e.packet })
    &&& is == (StereoEncState { mid_only_flags: is.mid_only_flags, pred_ix: is.pred_ix, ..was })
    &&& is.mid_only_flags@ == was.mid_only_flags@.update(k, result.mid_only_flag)
    &&& is.pred_ix@ == was.pred_ix@.update(k, result.indices)
    &&& side_analysed(
        e.side,
        k,
        result.mid_only_flag,
        e.packet.prev_decode_only_middle,
        f.side,
    )
}

fn do_stereo(run: &mut EncodeRun, encoder: &mut Encoder, result: &StereoConversionResult) -> (r:
    EncodeAction)
    requires
        old(encoder).mid.common.n_frames_encoded < 3,
    ensures
        stereo_taken(*old(run), *old(encoder), *result, *final(run), *final(encoder), r),
{
    proof {
        reveal(stereo_taken);
    }
    run.rates = result.mid_side_rates_bps;
    run.stereo = *result;
    if take_stereo(encoder, result) {
        run.stage = EncodeStage::SideActivity;
        EncodeAction::Measure { channel: 1 }
    } else {
        run.stage = EncodeStage::Predictors;
        EncodeAction::Proceed
    }
}

fn do_side_activity(run: &mut EncodeRun, encoder: &mut Encoder, measured: i32) -> (r: EncodeAction)
    requires
        old(encoder).side.common.n_frames_encoded < 3,
    ensures
        *final(run) == (EncodeRun { stage: EncodeStage::Predictors, ..*old(run) }),
        final(encoder).mid == old(encoder).mid,
        final(encoder).packet == old(encoder).packet,
        activity_taken(
            old(encoder).side,
            old(run).activity as int,
            measured as int,
            final(encoder).side,
        ),
        r == EncodeAction::Proceed,
{
    proof {
        reveal(activity_taken);
    }
    silk_encode_do_vad(&mut encoder.side, run.activity, measured);
    run.stage = EncodeStage::Predictors;
    EncodeAction::Proceed
}

fn do_mid_activity(run: &mut EncodeRun, encoder: &mut Encoder, measured: i32) -> (r: EncodeAction)
    requires
        old(encoder).mid.common.n_frames_encoded < 3,
    ensures
        *final(run) == (EncodeRun {
            stage: EncodeStage::Frame { channel: 0 },
            only_middle: old(encoder).packet.prev_decode_only_middle,
            ..*old(run)
        }),
        final(encoder).side == old(encoder).side,
        final(encoder).packet == old(encoder).packet,
        activity_taken(
            old(encoder).mid,
            old(run).activity as int,
            measured as int,
            final(encoder).mid,
        ),
        r == EncodeAction::Proceed,
{
    proof {
        reveal(activity_taken);
    }
    silk_encode_do_vad(&mut encoder.mid, run.activity, measured);
    run.only_middle = encoder.packet.prev_decode_only_middle;
    run.stage = EncodeStage::Frame { channel: 0 };
    EncodeAction::Proceed
}

/// What is coded of the stereo predictors of a frame: nothing where the call
/// fills the history.
pub open spec fn predictors_of(b: EncodeRun, e: Encoder) -> EncodeAction {
    if b.prefill == PrefillMode::Off {
        EncodeAction::CodePredictors {
            indices: b.stereo.indices,
            mid_only: if e.side.common.vad_flags[b.frame as int] {
                None
            } else {
                Some(b.stereo.mid_only_flag)
            },
        }
    } else {
        EncodeAction::Proceed
    }
}

fn do_predictors(run: &mut EncodeRun, encoder: &Encoder) -> (r: EncodeAction)
    requires
        old(run).frame < 3,
    ensures
        *final(run) == (EncodeRun { stage: EncodeStage::Measure, ..*old(run) }),
        r == predictors_of(*old(run), *encoder),
{
    run.stage = EncodeStage::Measure;
    if run.prefill.is_active() {
        return EncodeAction::Proceed;
    }
    let mid_only: Option<bool> = if encoder.side.common.vad_flags[run.frame] {
        None
    } else {
        Some(run.stereo.mid_only_flag)
    };
    EncodeAction::CodePredictors { indices: run.stereo.indices, mid_only }
}

// ---------------------------------------------------------------------
// Frames
// ---------------------------------------------------------------------

/// What follows the frame of a channel.
pub open spec fn after_frame(channel: int, stereo: bool) -> EncodeStage {
    if channel == 0 && stereo {
        EncodeStage::Frame { channel: 1 }
    } else {
        EncodeStage::BlockEnd
    }
}

/// What a frame of a channel is coded with; nothing where it has no rate.
pub open spec fn job_of(b: EncodeRun, channel: int, ctl: EncControl) -> Option<FrameJob> {
    let (max_bits, use_cbr) = channel_budget(
        ctl,
        b.call.tot_blocks as int,
        b.block as int,
        channel,
        b.rates[1] as int,
    );
    if b.rates[channel] <= 0 {
        None
    } else {
        Some(
            FrameJob {
                max_bits: max_bits as i32,
                use_cbr,
                coding: coding_of(b.frame as int, channel, b.only_middle),
            },
        )
    }
}

/// A channel has the quality of its rate.
pub open spec fn quality_set(b: EncoderChannelState, rate_bps: i32, a: EncoderChannelState) -> bool {
    if rate_bps <= 0 {
        a == b
    } else {
        &&& a == (EncoderChannelState {
            common: EncoderStateCommon {
                target_rate_bps: rate_bps,
                snr_db_q7: a.common.snr_db_q7,
                ..b.common
            },
            ..b
        })
        &&& a.common.snr_db_q7 == snr_of(
            b.common.fs_khz as int,
            b.common.nb_subfr as int,
            rate_bps as int,
        )
    }
}

/// The frame of a channel is coded next, or has no rate.
#[verifier::opaque]
pub open spec fn frame_set(
    b: EncodeRun,
    channel: int,
    e: Encoder,
    ctl: EncControl,
    a: EncodeRun,
    f: Encoder,
    act: EncodeAction,
) -> bool {
    &&& f.packet == e.packet
    &&& if channel == 0 {
        f.side == e.side && quality_set(e.mid, b.rates[0], f.mid)
    } else {
        f.mid == e.mid && quality_set(e.side, b.rates[1], f.side)
    }
    &&& match job_of(b, channel, ctl) {
        Some(job) => {
            &&& a == (EncodeRun { stage: EncodeStage::Coded { channel: channel as usize }, ..b })
            &&& act == EncodeAction::CodeFrame { channel: channel as usize, job }
        },
        None => {
            &&& a == (EncodeRun { stage: after_frame(channel, ctl.n_channels_internal == 2), ..b })
            &&& act == EncodeAction::Proceed
        },
    }
}

fn do_frame(run: &mut EncodeRun, channel: usize, encoder: &mut Encoder, control: &EncControl) -> (r:
    EncodeAction)
    requires
        channel < 2,
        1 <= old(run).call.tot_blocks <= 3,
        old(run).frame <= 3,
    ensures
        frame_set(
            *old(run),
            channel as int,
            *old(encoder),
            *control,
            *final(run),
            *final(encoder),
            r,
        ),
{
    proof {
        reveal(frame_set);
    }
    let tot_blocks: i32 = run.call.tot_blocks;
    let side_rate: i32 = run.rates[1];
    let frame: i32 = run.frame as i32;
    let job: Option<FrameJob> = if channel == 0 {
        let rate: i32 = run.rates[0];
        frame_job(
            &mut encoder.mid,
            control,
            tot_blocks,
            run.block,
            0,
            rate,
            side_rate,
            frame,
            run.only_middle,
        )
    } else {
        frame_job(
            &mut encoder.side,
            control,
            tot_blocks,
            run.block,
            1,
            side_rate,
            side_rate,
            frame,
            run.only_middle,
        )
    };
    match job {
        Some(job) => {
            run.stage = EncodeStage::Coded { channel };
            EncodeAction::CodeFrame { channel, job }
        },
        None => {
            run.stage =
            if channel == 0 && control.n_channels_internal == 2 {
                EncodeStage::Frame { channel: 1 }
            } else {
                EncodeStage::BlockEnd
            };
            EncodeAction::Proceed
        },
    }
}

// ---------------------------------------------------------------------
// Ends
// ---------------------------------------------------------------------

/// A packet was ended, if its last frame is coded; the call goes on while there
/// is input left.
#[verifier::opaque]
pub open spec fn packet_done(
    b: EncodeRun,
    e: Encoder,
    ctl: EncControl,
    s: EncState,
    a: EncodeRun,
    f: Encoder,
    t: EncState,
    act: EncodeAction,
) -> bool {
    &&& act == EncodeAction::Proceed
    &&& a == (EncodeRun {
        stage: if b.remaining == 0 {
            EncodeStage::End
        } else {
            EncodeStage::Input
        },
        block: if b.remaining == 0 {
            b.block
        } else {
            (b.block + 1) as i32
        },
        n_bytes: a.n_bytes,
        ..b
    })
    &&& if b.n_bytes > 0 && packet_complete(e) {
        let channels = ctl.n_channels_internal as int;
        let frames = e.mid.common.n_frames_per_packet as int;
        &&& a.n_bytes == if packet_pauses(e, channels) {
            0
        } else {
            b.n_bytes
        }
        &&& encoder_rested(e, ctl, a.n_bytes as int, f)
        &&& t == if b.prefill == PrefillMode::Off {
            enc_patched(
                s,
                packet_flags(e, frames, channels),
                header_bits(frames, channels) as nat,
            )
        } else {
            s
        }
    } else {
        a.n_bytes == b.n_bytes && f == e && t == s
    }
}

fn do_packet(
    run: &mut EncodeRun,
    encoder: &mut Encoder,
    control: &EncControl,
    range_encoder: &mut RangeEncoder,
) -> (r: EncodeAction)
    requires
        control.control_error() is None,
        1 <= old(encoder).mid.common.n_frames_per_packet <= 3,
        old(range_encoder).wf(),
        flags_fit(*old(run), *old(encoder), *control, old(range_encoder)@),
        old(run).block < i32::MAX,
    ensures
        final(range_encoder).wf(),
        final(range_encoder).capacity() == old(range_encoder).capacity(),
        packet_done(
            *old(run),
            *old(encoder),
            *control,
            old(range_encoder)@,
            *final(run),
            *final(encoder),
            final(range_encoder)@,
            r,
        ),
{
    proof {
        reveal(packet_done);
    }
    let n_bytes: i32 = finish_packet(encoder, control, range_encoder, run.prefill, run.n_bytes);
    run.n_bytes = n_bytes;
    if run.remaining == 0 {
        run.stage = EncodeStage::End;
    } else {
        run.block = run.block + 1;
        run.stage = EncodeStage::Input;
    }
    EncodeAction::Proceed
}

/// The flags of a packet that ends are in its interval.
pub open spec fn flags_fit(b: EncodeRun, e: Encoder, ctl: EncControl, s: EncState) -> bool {
    b.prefill == PrefillMode::Off && b.n_bytes > 0 && packet_complete(e) ==> s.low + s.rng <= pow2(
        (31 + 8 * s.n - header_bits(
            e.mid.common.n_frames_per_packet as int,
            ctl.n_channels_internal as int,
        )) as nat,
    )
}

/// A call was ended.
#[verifier::opaque]
pub open spec fn call_done(
    b: EncodeRun,
    e: Encoder,
    ctl: EncControl,
    a: EncodeRun,
    f: Encoder,
    told: EncControl,
    act: EncodeAction,
) -> bool {
    let filling = b.prefill != PrefillMode::Off;
    &&& a == (EncodeRun { stage: EncodeStage::Done, ..b })
    &&& act == EncodeAction::Done { bytes: b.n_bytes }
    &&& told == call_reported(e, ctl, b.call, filling)
    &&& f == (Encoder {
        packet: PacketState { n_prev_channels_internal: ctl.n_channels_internal, ..e.packet },
        mid: if filling {
            prefill_ended(e.mid)
        } else {
            e.mid
        },
        side: if filling && ctl.n_channels_internal >= 2 {
            prefill_ended(e.side)
        } else {
            e.side
        },
    })
}

fn do_end(run: &mut EncodeRun, encoder: &mut Encoder, control: &mut EncControl) -> (r: EncodeAction)
    requires
        old(encoder).mid.common.wf(),
    ensures
        call_done(
            *old(run),
            *old(encoder),
            *old(control),
            *final(run),
            *final(encoder),
            *final(control),
            r,
        ),
{
    proof {
        reveal(call_done);
    }
    end_call(encoder, control, &run.call, run.prefill);
    run.stage = EncodeStage::Done;
    EncodeAction::Done { bytes: run.n_bytes }
}

// ---------------------------------------------------------------------
// Steps
// ---------------------------------------------------------------------

/// The event is the one that a stage waits for.
pub open spec fn event_fits(stage: EncodeStage, event: EncodeEvent) -> bool {
    match stage {
        EncodeStage::Setup { .. } => event is History,
        EncodeStage::Take => event is Converted,
        EncodeStage::Stereo => event is Stereo,
        EncodeStage::SideActivity => event is Activity,
        EncodeStage::MidActivity => event is Activity,
        EncodeStage::Coded { .. } => event is Coded,
        _ => true,
    }
}

/// A channel has an internal rate, and takes input of a rate that is converted.
pub open spec fn takes_input(c: EncoderStateCommon) -> bool {
    &&& c.fs_khz == 8 || c.fs_khz == 12 || c.fs_khz == 16
    &&& 0 <= c.api_sample_rate_hz <= 48000
}

/// The step can be taken.
pub open spec fn step_ready(
    b: EncodeRun,
    e: Encoder,
    ctl: EncControl,
    samples_len: int,
    event: EncodeEvent,
) -> bool {
    &&& event_fits(b.stage, event)
    &&& match b.stage {
        EncodeStage::Start => 1 <= e.packet.n_channels_internal <= 2,
        EncodeStage::Setup { channel } => {
            let c = if channel == 0 {
                e.mid
            } else {
                e.side
            };
            &&& channel < 2
            &&& c.wf()
            &&& shaped(c.common)
            &&& ctl.rates_ok()
            &&& 0 <= ctl.packet_loss_percentage <= 100
            &&& -5 < ctl.payload_size_ms <= 0x7fff_fffa
        },
        EncodeStage::Input => {
            &&& 1 <= ctl.n_channels_internal <= ctl.n_channels_api <= 2
            &&& 0 <= b.call.n_blocks_of_10ms <= 6
            &&& takes_input(e.mid.common)
            &&& ctl.n_channels_internal == 2 ==> takes_input(e.side.common)
            &&& b.offset + ctl.n_channels_api * next_input(
                e.mid.common,
                b.call.n_blocks_of_10ms as int,
            ).1 <= samples_len
        },
        EncodeStage::Take => {
            &&& input_fits(e, b.step, event->mid@, event->side@)
            &&& 1 <= ctl.n_channels_api <= 2
            &&& b.step.taken <= b.remaining
            &&& b.offset + b.step.taken * ctl.n_channels_api <= usize::MAX
        },
        EncodeStage::Block => 1 <= e.mid.common.n_frames_per_packet <= 3,
        EncodeStage::Rate => {
            &&& ctl.control_error() is None
            &&& 1 <= e.mid.common.n_frames_per_packet <= 3
            &&& b.frame <= 3
            &&& b.before is Some ==> 0 <= b.before->0
            &&& 0 <= e.packet.n_bits_used_lbrr
            &&& ctl.n_channels_internal != 2 ==> e.mid.common.frame_length + 2
                <= e.mid.input_buf@.len() <= 0x1_0000
        },
        EncodeStage::Stereo => e.mid.common.n_frames_encoded < 3,
        EncodeStage::SideActivity => e.side.common.n_frames_encoded < 3,
        EncodeStage::Predictors => b.frame < 3,
        EncodeStage::MidActivity => e.mid.common.n_frames_encoded < 3,
        EncodeStage::Frame { channel } => {
            channel < 2 && 1 <= b.call.tot_blocks <= 3 && b.frame <= 3
        },
        EncodeStage::BlockEnd => {
            &&& e.mid.common.n_frames_encoded < 3
            &&& ctl.n_channels_internal == 2 ==> e.side.common.n_frames_encoded < 3
        },
        EncodeStage::Packet => {
            &&& ctl.control_error() is None
            &&& 1 <= e.mid.common.n_frames_per_packet <= 3
            &&& b.block < i32::MAX
        },
        EncodeStage::End => e.mid.common.wf(),
        _ => true,
    }
}

/// The range encoder has room for the head of a packet that starts, and for the
/// flags of one that ends.
pub open spec fn coder_ready(b: EncodeRun, e: Encoder, ctl: EncControl, coder: RangeEncoder) -> bool {
    &&& b.stage is Block && e.mid.common.n_frames_encoded == 0 && b.prefill == PrefillMode::Off
        ==> coder.room(3)
    &&& b.stage is Packet ==> flags_fit(b, e, ctl, coder@)
}

/// The run, the encoder, its control and the range encoder after a step.
pub open spec fn encode_moved(
    b: EncodeRun,
    e: Encoder,
    ctl: EncControl,
    samples: Seq<i16>,
    s: EncState,
    event: EncodeEvent,
    a: EncodeRun,
    f: Encoder,
    told: EncControl,
    t: EncState,
    act: EncodeAction,
) -> bool {
    let stereo = ctl.n_channels_internal == 2;
    &&& !(b.stage is Start || b.stage is Setup || b.stage is End) ==> told == ctl
    &&& !(b.stage is Block || b.stage is Packet) ==> t == s
    &&& match b.stage {
        EncodeStage::Start => start_done(b, e, ctl, samples.len() as int, a, f, told, act),
        EncodeStage::Setup { channel } => setup_done(
            b,
            channel as int,
            e,
            ctl,
            event->samples@,
            a,
            f,
            told,
            act,
        ),
        EncodeStage::Input => {
            &&& f == e
            &&& a == (EncodeRun { stage: EncodeStage::Take, step: a.step, ..b })
            &&& input_step(
                e,
                ctl,
                b.call.n_blocks_of_10ms as int,
                samples,
                b.offset as int,
                a.step,
            )
            &&& act == EncodeAction::ConvertInput
        },
        EncodeStage::Take => take_done(b, e, ctl, event->mid@, event->side@, a, f, act),
        EncodeStage::Block => block_begun(b, e, s, stereo, a, f, t, act),
        EncodeStage::Cutoff => {
            &&& f == e
            &&& a == (EncodeRun { stage: EncodeStage::Rate, ..b })
            &&& act == EncodeAction::AdaptCutoff
        },
        EncodeStage::Rate => rate_set(b, e, ctl, s, a, f, act),
        EncodeStage::Stereo => stereo_taken(b, e, event->result, a, f, act),
        EncodeStage::SideActivity => {
            &&& f == (Encoder { side: f.side, ..e })
            &&& activity_taken(e.side, b.activity as int, event->measured as int, f.side)
            &&& a == (EncodeRun { stage: EncodeStage::Predictors, ..b })
            &&& act == EncodeAction::Proceed
        },
        EncodeStage::Predictors => {
            &&& f == e
            &&& a == (EncodeRun { stage: EncodeStage::Measure, ..b })
            &&& act == predictors_of(b, e)
        },
        EncodeStage::Measure => {
            &&& f == e
            &&& a == (EncodeRun { stage: EncodeStage::MidActivity, ..b })
            &&& act == EncodeAction::Measure { channel: 0 }
        },
        EncodeStage::MidActivity => {
            &&& f == (Encoder { mid: f.mid, ..e })
            &&& activity_taken(e.mid, b.activity as int, event->measured as int, f.mid)
            &&& a == (EncodeRun {
                stage: EncodeStage::Frame { channel: 0 },
                only_middle: e.packet.prev_decode_only_middle,
                ..b
            })
            &&& act == EncodeAction::Proceed
        },
        EncodeStage::Frame { channel } => frame_set(b, channel as int, e, ctl, a, f, act),
        EncodeStage::Coded { channel } => {
            &&& f == e
            &&& a == (EncodeRun {
                stage: after_frame(channel as int, stereo),
                n_bytes: event->bytes,
                ..b
            })
            &&& act == EncodeAction::Proceed
        },
        EncodeStage::BlockEnd => {
            &&& block_ended(e, stereo, f)
            &&& a == (EncodeRun { stage: EncodeStage::Packet, ..b })
            &&& act == EncodeAction::Proceed
        },
        EncodeStage::Packet => packet_done(b, e, ctl, s, a, f, t, act),
        EncodeStage::End => call_done(b, e, ctl, a, f, told, act),
        EncodeStage::Done => f == e && a == b && act == EncodeAction::Proceed,
    }
}

fn do_input(run: &mut EncodeRun, encoder: &Encoder, control: &EncControl, samples_in: &[i16]) -> (r:
    EncodeAction)
    requires
        1 <= control.n_channels_internal <= control.n_channels_api <= 2,
        0 <= old(run).call.n_blocks_of_10ms <= 6,
        takes_input(encoder.mid.common),
        control.n_channels_internal == 2 ==> takes_input(encoder.side.common),
        old(run).offset + control.n_channels_api * next_input(
            encoder.mid.common,
            old(run).call.n_blocks_of_10ms as int,
        ).1 <= samples_in@.len(),
    ensures
        *final(run) == (EncodeRun {
            stage: EncodeStage::Take,
            step: final(run).step,
            ..*old(run)
        }),
        input_step(
            *encoder,
            *control,
            old(run).call.n_blocks_of_10ms as int,
            samples_in@,
            old(run).offset as int,
            final(run).step,
        ),
        r == EncodeAction::ConvertInput,
{
    run.step = next_input_step(
        encoder,
        control,
        run.call.n_blocks_of_10ms,
        samples_in,
        run.offset,
    );
    run.stage = EncodeStage::Take;
    EncodeAction::ConvertInput
}

fn is_khz_or_none(fs_khz: i32) -> (r: bool)
    ensures
        r == khz_or_none(fs_khz as int),
{
    fs_khz == 0 || fs_khz == 8 || fs_khz == 12 || fs_khz == 16
}

fn is_shaped(c: &EncoderStateCommon) -> (r: bool)
    requires
        c.wf(),
    ensures
        r == shaped(*c),
{
    if c.fs_khz == 0 {
        return true;
    }
    let khz: usize = c.fs_khz as usize;
    let order: usize = if c.fs_khz == 16 {
        16
    } else {
        10
    };
    let frame_length: usize = if c.nb_subfr == 2 {
        10 * khz
    } else {
        20 * khz
    };
    c.frame_length == frame_length && c.subfr_length == 5 * khz && c.ltp_mem_length == 20 * khz
        && c.predict_lpc_order == order
}

fn is_whole(c: &EncoderChannelState) -> (r: bool)
    ensures
        r == (c.wf() && shaped(c.common)),
{
    is_khz_or_none(c.common.fs_khz) && (c.common.nb_subfr == 2 || c.common.nb_subfr == 4)
        && is_khz_or_none(c.lp_state.saved_fs_khz) && c.x_buf.len() == X_BUFFER_LENGTH
        && c.input_buf.len() == INPUT_BUFFER_LENGTH && is_shaped(&c.common)
}

fn can_take_input(c: &EncoderStateCommon) -> (r: bool)
    ensures
        r == takes_input(*c),
{
    (c.fs_khz == 8 || c.fs_khz == 12 || c.fs_khz == 16) && c.api_sample_rate_hz >= 0
        && c.api_sample_rate_hz <= 48000
}

/// Whether a buffer has `n` samples behind its first `ix` and two more.
fn fits_behind(ix: usize, n: usize, len: usize) -> (r: bool)
    ensures
        r == (ix + 2 + n <= len),
{
    len >= 2 && ix <= len - 2 && n <= len - 2 - ix
}

fn can_fit(e: &Encoder, step: &InputStep, mid: &[i16], side: &[i16]) -> (r: bool)
    ensures
        r == input_fits(*e, *step, mid@, side@),
{
    let n: usize = e.mid.common.frame_length;
    let mid_ix: usize = e.mid.common.input_buf_ix;
    let side_ix: usize = e.side.common.input_buf_ix;
    let mid_len: usize = e.mid.input_buf.len();
    let side_len: usize = e.side.input_buf.len();
    if mid.len() != step.n || !fits_behind(mid_ix, step.n, mid_len) || mid_len > 0x1_0000 {
        return false;
    }
    if step.side.is_some() && (side.len() != step.n_side || !fits_behind(
        side_ix,
        step.n_side,
        side_len,
    ) || side_len > 0x1_0000) {
        return false;
    }
    !step.fades || (step.side.is_some() && fits_behind(mid_ix, n, mid_len) && fits_behind(
        side_ix,
        n,
        side_len,
    ))
}

fn can_read(run: &EncodeRun, encoder: &Encoder, control: &EncControl, samples_len: usize) -> (r:
    bool)
    requires
        1 <= control.n_channels_api <= 2,
        0 <= run.call.n_blocks_of_10ms <= 6,
        takes_input(encoder.mid.common),
    ensures
        r == (run.offset + control.n_channels_api * next_input(
            encoder.mid.common,
            run.call.n_blocks_of_10ms as int,
        ).1 <= samples_len),
{
    let (_, taken) = samples_to_buffer(&encoder.mid.common, run.call.n_blocks_of_10ms);
    if run.offset > samples_len {
        proof {
            assert(0 <= control.n_channels_api * taken) by (nonlinear_arith)
                requires
                    1 <= control.n_channels_api,
                    0 <= taken,
            ;
        }
        return false;
    }
    let left: usize = samples_len - run.offset;
    if control.n_channels_api == 2 {
        taken <= left / 2
    } else {
        taken <= left
    }
}

fn can_move_on(run: &EncodeRun, control: &EncControl) -> (r: bool)
    ensures
        r == {
            &&& 1 <= control.n_channels_api <= 2
            &&& run.step.taken <= run.remaining
            &&& run.offset + run.step.taken * control.n_channels_api <= usize::MAX
        },
{
    if control.n_channels_api < 1 || control.n_channels_api > 2 || run.remaining < 0 {
        return false;
    }
    let taken: usize = run.step.taken;
    if taken > run.remaining as usize {
        return false;
    }
    let left: usize = usize::MAX - run.offset;
    proof {
        let api = control.n_channels_api as int;
        assert(taken * api == if api == 2 {
            2 * taken
        } else {
            taken as int
        }) by (nonlinear_arith)
            requires
                1 <= api <= 2,
        ;
    }
    if control.n_channels_api == 2 {
        taken <= left / 2
    } else {
        taken <= left
    }
}

fn is_expected(stage: EncodeStage, event: &EncodeEvent) -> (r: bool)
    ensures
        r == event_fits(stage, *event),
{
    match stage {
        EncodeStage::Setup { .. } => matches!(event, EncodeEvent::History { .. }),
        EncodeStage::Take => matches!(event, EncodeEvent::Converted { .. }),
        EncodeStage::Stereo => matches!(event, EncodeEvent::Stereo { .. }),
        EncodeStage::SideActivity => matches!(event, EncodeEvent::Activity { .. }),
        EncodeStage::MidActivity => matches!(event, EncodeEvent::Activity { .. }),
        EncodeStage::Coded { .. } => matches!(event, EncodeEvent::Coded { .. }),
        _ => true,
    }
}

fn has_rates(control: &EncControl) -> (r: bool)
    ensures
        r == control.rates_ok(),
{
    is_api_rate(control.api_sample_rate) && is_internal_rate(control.desired_internal_sample_rate)
        && is_internal_rate(control.max_internal_sample_rate) && is_internal_rate(
        control.min_internal_sample_rate,
    ) && control.min_internal_sample_rate <= control.desired_internal_sample_rate
        && control.desired_internal_sample_rate <= control.max_internal_sample_rate
}

/// Whether the step can be taken, but for the room in the range encoder.
pub fn can_step(
    run: &EncodeRun,
    encoder: &Encoder,
    control: &EncControl,
    samples_len: usize,
    event: &EncodeEvent,
) -> (r: bool)
    ensures
        r == step_ready(*run, *encoder, *control, samples_len as int, *event),
{
    if !is_expected(run.stage, event) {
        return false;
    }
    let c: &EncoderStateCommon = &encoder.mid.common;
    let frames_ok: bool = c.n_frames_per_packet >= 1 && c.n_frames_per_packet <= 3;
    match run.stage {
        EncodeStage::Start => encoder.packet.n_channels_internal >= 1
            && encoder.packet.n_channels_internal <= 2,
        EncodeStage::Setup { channel } => channel < 2 && (if channel == 0 {
            is_whole(&encoder.mid)
        } else {
            is_whole(&encoder.side)
        }) && has_rates(control) && control.packet_loss_percentage >= 0
            && control.packet_loss_percentage <= 100 && control.payload_size_ms > -5
            && control.payload_size_ms <= 0x7fff_fffa,
        EncodeStage::Input => control.n_channels_internal >= 1 && control.n_channels_internal
            <= control.n_channels_api && control.n_channels_api <= 2 && run.call.n_blocks_of_10ms
            >= 0 && run.call.n_blocks_of_10ms <= 6 && can_take_input(&encoder.mid.common) && (
        control.n_channels_internal != 2 || can_take_input(&encoder.side.common)) && can_read(
            run,
            encoder,
            control,
            samples_len,
        ),
        EncodeStage::Take => match event {
            EncodeEvent::Converted { mid, side } => can_fit(
                encoder,
                &run.step,
                mid.as_slice(),
                side.as_slice(),
            ) && can_move_on(run, control),
            _ => false,
        },
        EncodeStage::Block => frames_ok,
        EncodeStage::Rate => control.check_control_input().is_ok() && frames_ok && run.frame <= 3
            && (match run.before {
            Some(before) => before >= 0,
            None => true,
        }) && encoder.packet.n_bits_used_lbrr >= 0 && (control.n_channels_internal == 2
            || (fits_behind(0, c.frame_length, encoder.mid.input_buf.len())
            && encoder.mid.input_buf.len() <= 0x1_0000)),
        EncodeStage::Stereo => c.n_frames_encoded < 3,
        EncodeStage::SideActivity => encoder.side.common.n_frames_encoded < 3,
        EncodeStage::Predictors => run.frame < 3,
        EncodeStage::MidActivity => c.n_frames_encoded < 3,
        EncodeStage::Frame { channel } => channel < 2 && run.call.tot_blocks >= 1
            && run.call.tot_blocks <= 3 && run.frame <= 3,
        EncodeStage::BlockEnd => c.n_frames_encoded < 3 && (control.n_channels_internal != 2
            || encoder.side.common.n_frames_encoded < 3),
        EncodeStage::Packet => control.check_control_input().is_ok() && frames_ok && run.block
            < i32::MAX,
        EncodeStage::End => is_khz_or_none(c.fs_khz) && (c.nb_subfr == 2 || c.nb_subfr == 4),
        _ => true,
    }
}

/// Takes a step of a call that codes `samples_in`.
pub fn encode_step(
    run: &mut EncodeRun,
    encoder: &mut Encoder,
    control: &mut EncControl,
    samples_in: &[i16],
    range_encoder: &mut RangeEncoder,
    event: &EncodeEvent,
) -> (r: EncodeAction)
    requires
        step_ready(
            *old(run),
            *old(encoder),
            *old(control),
            samples_in@.len() as int,
            *event,
        ),
        old(range_encoder).wf(),
        coder_ready(*old(run), *old(encoder), *old(control), *old(range_encoder)),
    ensures
        final(range_encoder).wf(),
        final(range_encoder).capacity() == old(range_encoder).capacity(),
        encode_moved(
            *old(run),
            *old(encoder),
            *old(control),
            samples_in@,
            old(range_encoder)@,
            *event,
            *final(run),
            *final(encoder),
            *final(control),
            final(range_encoder)@,
            r,
        ),
{
    let stereo: bool = control.n_channels_internal == 2;
    match (run.stage, event) {
        (EncodeStage::Start, _) => do_start(run, encoder, control, samples_in.len()),
        (EncodeStage::Setup { channel }, EncodeEvent::History { samples }) => do_setup(
            run,
            channel,
            encoder,
            control,
            samples.as_slice(),
        ),
        (EncodeStage::Input, _) => do_input(run, encoder, control, samples_in),
        (EncodeStage::Take, EncodeEvent::Converted { mid, side }) => do_take(
            run,
            encoder,
            control,
            mid.as_slice(),
            side.as_slice(),
        ),
        (EncodeStage::Block, _) => do_block(run, encoder, range_encoder, stereo),
        (EncodeStage::Cutoff, _) => {
            run.stage = EncodeStage::Rate;
            EncodeAction::AdaptCutoff
        },
        (EncodeStage::Rate, _) => do_rate(run, encoder, control, range_encoder),
        (EncodeStage::Stereo, EncodeEvent::Stereo { result }) => do_stereo(run, encoder, result),
        (EncodeStage::SideActivity, EncodeEvent::Activity { measured }) => do_side_activity(
            run,
            encoder,
            *measured,
        ),
        (EncodeStage::Predictors, _) => do_predictors(run, encoder),
        (EncodeStage::Measure, _) => {
            run.stage = EncodeStage::MidActivity;
            EncodeAction::Measure { channel: 0 }
        },
        (EncodeStage::MidActivity, EncodeEvent::Activity { measured }) => do_mid_activity(
            run,
            encoder,
            *measured,
        ),
        (EncodeStage::Frame { channel }, _) => do_frame(run, channel, encoder, control),
        (EncodeStage::Coded { channel }, EncodeEvent::Coded { bytes }) => {
            run.n_bytes = *bytes;
            run.stage =
            if channel == 0 && stereo {
                EncodeStage::Frame { channel: 1 }
            } else {
                EncodeStage::BlockEnd
            };
            EncodeAction::Proceed
        },
        (EncodeStage::BlockEnd, _) => {
            end_block(encoder, stereo);
            run.stage = EncodeStage::Packet;
            EncodeAction::Proceed
        },
        (EncodeStage::Packet, _) => do_packet(run, encoder, control, range_encoder),
        (EncodeStage::End, _) => do_end(run, encoder, control),
        _ => EncodeAction::Proceed,
    }
}

/// Steps that are left at most, if no further frame is coded.
pub open spec fn steps_left(stage: EncodeStage) -> int {
    match stage {
        EncodeStage::Start => 20,
        EncodeStage::Setup { channel } => if channel == 0 {
            19
        } else {
            18
        },
        EncodeStage::Input => 17,
        EncodeStage::Take => 16,
        EncodeStage::Block => 15,
        EncodeStage::Cutoff => 14,
        EncodeStage::Rate => 13,
        EncodeStage::Stereo => 12,
        EncodeStage::SideActivity => 11,
        EncodeStage::Predictors => 10,
        EncodeStage::Measure => 9,
        EncodeStage::MidActivity => 8,
        EncodeStage::Frame { channel } => if channel == 0 {
            7
        } else {
            5
        },
        EncodeStage::Coded { channel } => if channel == 0 {
            6
        } else {
            4
        },
        EncodeStage::BlockEnd => 3,
        EncodeStage::Packet => 2,
        EncodeStage::End => 1,
        EncodeStage::Done => 0,
    }
}

/// A call goes towards its end with each step; only where a frame of all channels
/// is coded and input is left does it go back for more input. The last step says
/// that it is done or refused.
pub proof fn law_coding_goes_on(
    b: EncodeRun,
    e: Encoder,
    ctl: EncControl,
    samples: Seq<i16>,
    s: EncState,
    event: EncodeEvent,
    a: EncodeRun,
    f: Encoder,
    told: EncControl,
    t: EncState,
    act: EncodeAction,
)
    requires
        b.stage != EncodeStage::Done,
        step_ready(b, e, ctl, samples.len() as int, event),
        encode_moved(b, e, ctl, samples, s, event, a, f, told, t, act),
    ensures
        b.stage == EncodeStage::Packet && b.remaining != 0 ==> a.stage == EncodeStage::Input,
        !(b.stage == EncodeStage::Packet && b.remaining != 0) ==> 0 <= steps_left(a.stage)
            < steps_left(b.stage) <= 20,
        a.stage == EncodeStage::Done <==> act is Done || act is Fail,
{
    reveal(start_done);
    reveal(setup_done);
    reveal(take_done);
    reveal(block_begun);
    reveal(rate_set);
    reveal(stereo_taken);
    reveal(frame_set);
    reveal(packet_done);
    reveal(call_done);
}

} // verus!
