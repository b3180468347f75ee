//! The order of steps of one call that decodes a frame.
//!
//! Loss concealment, the conversion of middle and side to left and right, and
//! sample-rate conversion are done outside, each when a step asks for it.

use crate::range::{dec_inside, DecState, RangeDecoder};
use crate::silk::dec_api::{
    carry_mono_samples, channel_coding, configure_fault, configured_from, finished_from,
    opened_from, output_room, output_samples, DecControl, Decoder, StereoDecState,
};
use crate::silk::decode_call::{
    channel_steady, count_frame, decode_channel, output_of, payload_taken, silk_decode_end,
    silk_decode_start, started, FrameStart, StartSteps,
};
use crate::silk::decode_frame::{
    channel_ok, decode_frame_end, decode_frame_enter, frame_entered, DecodeFlag, DecodedPayload,
    PayloadSteps,
};
use crate::silk::decoder_checks::{can_decode, can_enter, enters_history, is_steady};
use crate::silk::decoder_control::DecoderControl;
use crate::silk::decoder_set_fs::DecoderSampleRateState;
use crate::silk::decoder_state::DecoderState;
use crate::silk::types::SilkError;
use vstd::prelude::*;

verus! {

/// What comes next.
#[derive(Debug, Clone, Copy, PartialEq, Eq, Structural)]
pub enum DecodeStage {
    /// The start of the frame.
    Start,
    /// The payload of a channel.
    Channel { channel: usize },
    /// A channel's frame, which was concealed or made known to the concealment.
    Enter { channel: usize },
    /// A channel's frame, which was joined to the one before.
    End { channel: usize },
    /// Both channels.
    Join,
    /// The room for the output.
    Room,
    /// The converted samples of the first channel.
    First,
    /// The converted samples of the second channel.
    Second,
    /// The output.
    Finish,
    /// Nothing.
    Done,
}

/// What is done outside.
#[derive(Debug, Clone, Copy, PartialEq, Eq, Structural)]
pub enum DecodeAction {
    /// Nothing; the next step follows.
    Proceed,
    /// A channel's frame is concealed if it is lost, or made known to the
    /// concealment.
    Conceal { channel: usize, lost: bool },
    /// A channel's frame is joined to the one before.
    Glue { channel: usize },
    /// Middle and side become left and right.
    ToLeftAndRight,
    /// The `n` samples behind the first one of the first or second channel are
    /// converted to `n_out` samples by the conversion of `channel`.
    Convert { channel: usize, second: bool, n: usize, n_out: usize },
    /// The frame is decoded, and has that many samples.
    Done { samples: usize },
    /// The call is refused.
    Fail { error: SilkError },
}

/// How far a call has come.
pub struct DecodeRun {
    pub stage: DecodeStage,
    pub lost_flag: DecodeFlag,
    pub new_packet: bool,
    pub start: FrameStart,
    /// The frame of the current channel.
    pub frame: Vec<i16>,
    /// The parameters of that frame.
    pub control: DecoderControl,
    /// That frame was in the packet.
    pub decoded: bool,
    /// Samples of the middle or left, behind two of the frame before.
    pub first: Vec<i16>,
    /// The same of the side or right.
    pub second: Vec<i16>,
    /// Samples of a frame.
    pub n: usize,
    /// Samples of a frame at the output rate.
    pub n_out: usize,
    /// Converted samples.
    pub out_first: Vec<i16>,
    pub out_second: Vec<i16>,
    pub steps: Ghost<StartSteps>,
    pub payload: Ghost<PayloadSteps>,
}

impl DecodeRun {
    /// A call before its first step.
    pub fn new(lost_flag: DecodeFlag, new_packet: bool) -> (r: DecodeRun)
        ensures
            r.stage == DecodeStage::Start,
            r.lost_flag == lost_flag,
            r.new_packet == new_packet,
    {
        DecodeRun {
            stage: DecodeStage::Start,
            lost_flag,
            new_packet,
            start: FrameStart {
                pred_q13: [0;2],
                only_middle: false,
                side: false,
                to_mono: false,
            },
            frame: Vec::new(),
            control: DecoderControl::default(),
            decoded: false,
            first: Vec::new(),
            second: Vec::new(),
            n: 0,
            n_out: 0,
            out_first: Vec::new(),
            out_second: Vec::new(),
            steps: Ghost(arbitrary()),
            payload: Ghost(arbitrary()),
        }
    }
}

/// The output has a second channel of its own: the right one, or mono that fades
/// out of stereo.
pub open spec fn converts_second(ctl: DecControl, f: FrameStart) -> bool {
    ctl.n_channels_api == 2 && (ctl.n_channels_internal == 2 || f.to_mono)
}

/// The step can be taken.
pub open spec fn step_ready(b: DecodeRun, d: Decoder, ctl: DecControl, room: int) -> bool {
    &&& 1 <= ctl.n_channels_internal <= 2
    &&& 1 <= ctl.n_channels_api <= 2
    &&& match b.stage {
        DecodeStage::Start => channel_steady(d.channel_states[0]) && channel_steady(
            d.channel_states[1],
        ),
        DecodeStage::Channel { channel } => {
            &&& channel < 2
            &&& channel == 0 || b.start.side ==> channel_ok(d.channel_states[channel as int])
            &&& 0 <= d.channel_states[0].n_frames_decoded
            &&& 0 <= d.channel_states[channel as int].n_frames_decoded < 3
            &&& d.channel_states[channel as int].sample_rate.frame_length <= 320
        },
        DecodeStage::Enter { channel } => {
            let s = d.channel_states[channel as int];
            &&& channel < 2
            &&& enters_history(s)
            &&& b.frame@.len() == s.sample_rate.frame_length
        },
        DecodeStage::End { channel } => {
            &&& channel < 2
            &&& 1 <= d.channel_states[channel as int].sample_rate.nb_subfr <= 4
            &&& d.channel_states[channel as int].n_frames_decoded < i32::MAX
        },
        DecodeStage::Join => b.n <= 320 && b.n + 2 <= b.first@.len(),
        DecodeStage::Room => {
            &&& b.n <= 320
            &&& 8 <= d.channel_states[0].sample_rate.fs_khz <= 16
            &&& 8000 <= ctl.api_sample_rate <= 48000
        },
        DecodeStage::Finish => {
            let sr = d.channel_states[0].sample_rate;
            &&& b.out_first@.len() * ctl.n_channels_api <= room
            &&& converts_second(ctl, b.start) ==> b.out_second@.len() == b.out_first@.len()
            &&& sr.fs_khz == 8 || sr.fs_khz == 12 || sr.fs_khz == 16
            &&& 0 <= sr.lag_prev <= 0x1_0000
        },
        _ => true,
    }
}

/// Whether the step can be taken, with that much room for the output.
pub fn can_step(run: &DecodeRun, decoder: &Decoder, control: &DecControl, room: usize) -> (r: bool)
    ensures
        r == step_ready(*run, *decoder, *control, room as int),
{
    if control.n_channels_internal < 1 || control.n_channels_internal > 2 {
        return false;
    }
    if control.n_channels_api < 1 || control.n_channels_api > 2 {
        return false;
    }
    let first: &DecoderState = &decoder.channel_states[0];
    let second: &DecoderState = &decoder.channel_states[1];
    match run.stage {
        DecodeStage::Start => is_steady(first) && is_steady(second),
        DecodeStage::Channel { channel } => {
            if channel >= 2 || first.n_frames_decoded < 0 {
                return false;
            }
            let s: &DecoderState = &decoder.channel_states[channel];
            (!(channel == 0 || run.start.side) || can_decode(s)) && s.n_frames_decoded >= 0
                && s.n_frames_decoded < 3 && s.sample_rate.frame_length <= 320
        },
        DecodeStage::Enter { channel } => {
            if channel >= 2 {
                return false;
            }
            let s: &DecoderState = &decoder.channel_states[channel];
            can_enter(s) && run.frame.len() == s.sample_rate.frame_length
        },
        DecodeStage::End { channel } => {
            if channel >= 2 {
                return false;
            }
            let s: &DecoderState = &decoder.channel_states[channel];
            s.sample_rate.nb_subfr >= 1 && s.sample_rate.nb_subfr <= 4 && s.n_frames_decoded
                < i32::MAX
        },
        DecodeStage::Join => run.n <= 320 && run.n + 2 <= run.first.len(),
        DecodeStage::Room => run.n <= 320 && first.sample_rate.fs_khz >= 8
            && first.sample_rate.fs_khz <= 16 && control.api_sample_rate >= 8000
            && control.api_sample_rate <= 48000,
        DecodeStage::Finish => {
            let sr: &DecoderSampleRateState = &first.sample_rate;
            let n: usize = run.out_first.len();
            let fits: bool = if control.n_channels_api == 2 {
                n <= room / 2
            } else {
                n <= room
            };
            let second_converted: bool = control.n_channels_api == 2 && (
            control.n_channels_internal == 2 || run.start.to_mono);
            fits && (!second_converted || run.out_second.len() == n) && (sr.fs_khz == 8
                || sr.fs_khz == 12 || sr.fs_khz == 16) && sr.lag_prev >= 0 && sr.lag_prev
                <= 0x1_0000
        },
        _ => true,
    }
}

/// The start of a frame was taken.
#[verifier::opaque]
pub open spec fn start_taken(
    b: DecodeRun,
    d: Decoder,
    ctl: DecControl,
    s: DecState,
    a: DecodeRun,
    e: Decoder,
    t: DecState,
    act: DecodeAction,
) -> bool {
    let w = a.steps@;
    &&& opened_from(d, ctl, b.new_packet, w.opened, w.to_mono)
    &&& match configure_fault(w.opened, ctl) {
        Some(error) => {
            &&& act == DecodeAction::Fail { error }
            &&& a == (DecodeRun { stage: DecodeStage::Done, steps: a.steps, ..b })
            &&& configured_from(w.opened, ctl, e)
            &&& t == s
        },
        None => {
            &&& act == DecodeAction::Proceed
            &&& a == (DecodeRun {
                stage: DecodeStage::Channel { channel: 0 },
                start: a.start,
                steps: a.steps,
                ..b
            })
            &&& started(d, ctl, b.lost_flag, s, a.start, w, e, t)
        },
    }
}

/// Silence of `n` samples.
pub open spec fn silence(n: int) -> Seq<i16> {
    Seq::new(n as nat, |i: int| 0i16)
}

/// A channel was decoded.
#[verifier::opaque]
pub open spec fn channel_taken(
    b: DecodeRun,
    channel: int,
    d: Decoder,
    s: DecState,
    a: DecodeRun,
    e: Decoder,
    t: DecState,
    act: DecodeAction,
) -> bool {
    let before = d.channel_states[channel];
    let after = e.channel_states[channel];
    let length = before.sample_rate.frame_length as int;
    &&& e == (Decoder { channel_states: e.channel_states, ..d })
    &&& e.channel_states[1 - channel] == d.channel_states[1 - channel]
    &&& if channel == 0 || b.start.side {
        &&& a == (DecodeRun {
            stage: DecodeStage::Enter { channel: channel as usize },
            frame: a.frame,
            control: a.control,
            decoded: a.decoded,
            payload: a.payload,
            ..b
        })
        &&& payload_taken(
            before,
            s,
            b.lost_flag,
            channel_coding(
                before.lbrr_flags@,
                d.channel_states[0].n_frames_decoded - channel,
                channel,
                d.prev_decode_only_middle,
                b.lost_flag,
            ),
            silence(length),
            (DecodedPayload { decoded: a.decoded, control: a.control, steps: a.payload }),
            after,
            t,
            a.frame@,
        )
        &&& act == DecodeAction::Conceal { channel: channel as usize, lost: !a.decoded }
    } else {
        &&& a == (DecodeRun { stage: DecodeStage::Join, second: a.second, ..b })
        &&& a.second@ == silence(length + 2)
        &&& after == (DecoderState {
            n_frames_decoded: (before.n_frames_decoded + 1) as i32,
            ..before
        })
        &&& t == s
        &&& act == DecodeAction::Proceed
    }
}

/// A channel's frame entered the history.
#[verifier::opaque]
pub open spec fn frame_taken(
    b: DecodeRun,
    channel: int,
    d: Decoder,
    a: DecodeRun,
    e: Decoder,
    act: DecodeAction,
) -> bool {
    &&& e == (Decoder { channel_states: e.channel_states, ..d })
    &&& e.channel_states[1 - channel] == d.channel_states[1 - channel]
    &&& a == (DecodeRun {
        stage: DecodeStage::End { channel: channel as usize },
        frame: a.frame,
        ..b
    })
    &&& frame_entered(
        d.channel_states[channel],
        b.decoded,
        b.control,
        b.frame@,
        e.channel_states[channel],
        a.frame@,
    )
    &&& act == DecodeAction::Glue { channel: channel as usize }
}

/// A channel's frame became its last one, and is counted.
#[verifier::opaque]
pub open spec fn frame_counted(
    b: DecodeRun,
    channel: int,
    d: Decoder,
    internal: int,
    a: DecodeRun,
    e: Decoder,
    act: DecodeAction,
) -> bool {
    let before = d.channel_states[channel];
    let sr = before.sample_rate;
    &&& e == (Decoder { channel_states: e.channel_states, ..d })
    &&& e.channel_states[1 - channel] == d.channel_states[1 - channel]
    &&& e.channel_states[channel] == (DecoderState {
        sample_rate: DecoderSampleRateState {
            lag_prev: b.control.pitch_l[sr.nb_subfr - 1],
            ..sr
        },
        n_frames_decoded: (before.n_frames_decoded + 1) as i32,
        ..before
    })
    &&& a == (DecodeRun {
        stage: if channel == 0 && internal == 2 {
            DecodeStage::Channel { channel: 1 }
        } else {
            DecodeStage::Join
        },
        first: a.first,
        second: a.second,
        n: sr.frame_length,
        ..b
    })
    &&& if channel == 0 {
        a.first@ == seq![0i16, 0i16] + b.frame@ && a.second == b.second
    } else {
        a.second@ == seq![0i16, 0i16] + b.frame@ && a.first == b.first
    }
    &&& act == DecodeAction::Proceed
}

/// Both channels are there.
#[verifier::opaque]
pub open spec fn channels_joined(
    b: DecodeRun,
    d: Decoder,
    ctl: DecControl,
    a: DecodeRun,
    e: Decoder,
    act: DecodeAction,
) -> bool {
    if ctl.n_channels_api == 2 && ctl.n_channels_internal == 2 {
        &&& e == d
        &&& a == (DecodeRun { stage: DecodeStage::Room, ..b })
        &&& act == DecodeAction::ToLeftAndRight
    } else {
        &&& e == (Decoder {
            stereo_state: StereoDecState { s_mid: e.stereo_state.s_mid, ..d.stereo_state },
            ..d
        })
        &&& a == (DecodeRun { stage: DecodeStage::Room, first: a.first, ..b })
        &&& a.first@ == b.first@.update(0, d.stereo_state.s_mid[0]).update(
            1,
            d.stereo_state.s_mid[1],
        )
        &&& e.stereo_state.s_mid@ == seq![a.first@[b.n as int], a.first@[b.n + 1]]
        &&& act == DecodeAction::Proceed
    }
}

/// There is room for the output, or not.
#[verifier::opaque]
pub open spec fn room_taken(
    b: DecodeRun,
    d: Decoder,
    ctl: DecControl,
    room: int,
    a: DecodeRun,
    act: DecodeAction,
) -> bool {
    let n_out = output_samples(
        b.n as int,
        ctl.api_sample_rate as int,
        d.channel_states[0].sample_rate.fs_khz as int,
    );
    if room < n_out * ctl.n_channels_api {
        &&& a == (DecodeRun { stage: DecodeStage::Done, ..b })
        &&& act == DecodeAction::Fail { error: SilkError::DecPayloadTooLarge }
    } else {
        &&& a == (DecodeRun { stage: DecodeStage::First, n_out: n_out as usize, ..b })
        &&& act == DecodeAction::Convert {
            channel: 0,
            second: false,
            n: b.n,
            n_out: n_out as usize,
        }
    }
}

/// The frame was put out.
#[verifier::opaque]
pub open spec fn output_taken(
    b: DecodeRun,
    d: Decoder,
    ctl: DecControl,
    out: Seq<i16>,
    e: Decoder,
    told: DecControl,
    samples: Seq<i16>,
) -> bool {
    &&& finished_from(d, ctl, b.lost_flag, b.start.only_middle, e, told)
    &&& samples == output_of(
        out,
        b.out_first@,
        b.out_second@,
        ctl.n_channels_api as int,
        ctl.n_channels_internal as int,
        b.start.to_mono,
    )
}

/// The run, the decoder, its control, the range decoder and the output after a
/// step; `converted` are the samples that were converted.
pub open spec fn decode_moved(
    b: DecodeRun,
    d: Decoder,
    ctl: DecControl,
    s: DecState,
    out: Seq<i16>,
    converted: Seq<i16>,
    a: DecodeRun,
    e: Decoder,
    told: DecControl,
    t: DecState,
    samples: Seq<i16>,
    act: DecodeAction,
) -> bool {
    &&& b.stage != DecodeStage::Finish ==> told == ctl && samples == out
    &&& !(b.stage is Start || b.stage is Channel) ==> t == s
    &&& match b.stage {
        DecodeStage::Start => start_taken(b, d, ctl, s, a, e, t, act),
        DecodeStage::Channel { channel } => channel_taken(b, channel as int, d, s, a, e, t, act),
        DecodeStage::Enter { channel } => frame_taken(b, channel as int, d, a, e, act),
        DecodeStage::End { channel } => frame_counted(
            b,
            channel as int,
            d,
            ctl.n_channels_internal as int,
            a,
            e,
            act,
        ),
        DecodeStage::Join => channels_joined(b, d, ctl, a, e, act),
        DecodeStage::Room => e == d && room_taken(b, d, ctl, out.len() as int, a, act),
        DecodeStage::First => {
            let more = converts_second(ctl, b.start);
            &&& e == d
            &&& a == (DecodeRun {
                stage: if more {
                    DecodeStage::Second
                } else {
                    DecodeStage::Finish
                },
                out_first: a.out_first,
                ..b
            })
            &&& a.out_first@ == converted
            &&& act == if more {
                DecodeAction::Convert {
                    channel: 1,
                    second: ctl.n_channels_internal == 2,
                    n: b.n,
                    n_out: b.n_out,
                }
            } else {
                DecodeAction::Proceed
            }
        },
        DecodeStage::Second => {
            &&& e == d
            &&& a == (DecodeRun {
                stage: DecodeStage::Finish,
                out_second: a.out_second,
                ..b
            })
            &&& a.out_second@ == converted
            &&& act == DecodeAction::Proceed
        },
        DecodeStage::Finish => {
            &&& a == (DecodeRun { stage: DecodeStage::Done, ..b })
            &&& output_taken(b, d, ctl, out, e, told, samples)
            &&& act == DecodeAction::Done { samples: b.out_first@.len() as usize }
        },
        DecodeStage::Done => e == d && a == b && act == DecodeAction::Proceed,
    }
}

fn copy_samples(samples: &[i16]) -> (r: Vec<i16>)
    ensures
        r@ == samples@,
{
    let n: usize = samples.len();
    let mut r: Vec<i16> = Vec::new();
    for i in 0..n
        invariant
            n == samples@.len(),
            r@ == samples@.take(i as int),
    {
        r.push(samples[i]);
        assert(r@ =~= samples@.take(i + 1));
    }
    assert(r@ =~= samples@);
    r
}

/// The samples of a frame behind two that are still silent.
fn behind_two(frame: &Vec<i16>) -> (r: Vec<i16>)
    ensures
        r@ == seq![0i16, 0i16] + frame@,
{
    let n: usize = frame.len();
    let mut r: Vec<i16> = Vec::new();
    r.push(0);
    r.push(0);
    assert(r@ =~= seq![0i16, 0i16] + frame@.take(0));
    for i in 0..n
        invariant
            n == frame@.len(),
            r@ == seq![0i16, 0i16] + frame@.take(i as int),
    {
        r.push(frame[i]);
        assert(r@ =~= seq![0i16, 0i16] + frame@.take(i + 1));
    }
    assert(frame@.take(n as int) =~= frame@);
    r
}

fn take_start(
    run: &mut DecodeRun,
    decoder: &mut Decoder,
    control: &DecControl,
    range_decoder: &mut RangeDecoder,
) -> (r: DecodeAction)
    requires
        1 <= control.n_channels_internal <= 2,
        channel_steady(old(decoder).channel_states[0]),
        channel_steady(old(decoder).channel_states[1]),
        old(range_decoder).wf(),
        dec_inside(old(range_decoder)@),
    ensures
        final(range_decoder).wf(),
        dec_inside(final(range_decoder)@),
        start_taken(
            *old(run),
            *old(decoder),
            *control,
            old(range_decoder)@,
            *final(run),
            *final(decoder),
            final(range_decoder)@,
            r,
        ),
{
    proof {
        reveal(start_taken);
    }
    let (result, steps) = silk_decode_start(
        decoder,
        control,
        run.lost_flag,
        run.new_packet,
        range_decoder,
    );
    run.steps = steps;
    match result {
        Ok(start) => {
            run.start = start;
            run.stage = DecodeStage::Channel { channel: 0 };
            DecodeAction::Proceed
        },
        Err(error) => {
            run.stage = DecodeStage::Done;
            DecodeAction::Fail { error }
        },
    }
}

fn take_channel(
    run: &mut DecodeRun,
    channel: usize,
    decoder: &mut Decoder,
    range_decoder: &mut RangeDecoder,
) -> (r: DecodeAction)
    requires
        channel < 2,
        channel == 0 || old(run).start.side ==> channel_ok(
            old(decoder).channel_states[channel as int],
        ),
        0 <= old(decoder).channel_states[0].n_frames_decoded,
        0 <= old(decoder).channel_states[channel as int].n_frames_decoded < 3,
        old(decoder).channel_states[channel as int].sample_rate.frame_length <= 320,
        old(range_decoder).wf(),
        dec_inside(old(range_decoder)@),
    ensures
        final(range_decoder).wf(),
        dec_inside(final(range_decoder)@),
        channel_taken(
            *old(run),
            channel as int,
            *old(decoder),
            old(range_decoder)@,
            *final(run),
            *final(decoder),
            final(range_decoder)@,
            r,
        ),
{
    proof {
        reveal(channel_taken);
    }
    let length: usize = decoder.channel_states[channel].sample_rate.frame_length;
    let mut frame: Vec<i16> = vec![0i16;length];
    assert(frame@ =~= silence(length as int));
    match decode_channel(
        decoder,
        channel,
        run.start.side,
        run.lost_flag,
        range_decoder,
        frame.as_mut_slice(),
    ) {
        Some(payload) => {
            let lost: bool = !payload.decoded;
            run.frame = frame;
            run.control = payload.control;
            run.decoded = payload.decoded;
            run.payload = payload.steps;
            run.stage = DecodeStage::Enter { channel };
            DecodeAction::Conceal { channel, lost }
        },
        None => {
            let rest: Vec<i16> = vec![0i16;length + 2];
            assert(rest@ =~= silence(length + 2));
            run.second = rest;
            run.stage = DecodeStage::Join;
            DecodeAction::Proceed
        },
    }
}

fn take_frame(run: &mut DecodeRun, channel: usize, decoder: &mut Decoder) -> (r: DecodeAction)
    requires
        channel < 2,
        ({
            let s = old(decoder).channel_states[channel as int];
            &&& enters_history(s)
            &&& old(run).frame@.len() == s.sample_rate.frame_length
        }),
    ensures
        frame_taken(
            *old(run),
            channel as int,
            *old(decoder),
            *final(run),
            *final(decoder),
            r,
        ),
{
    proof {
        reveal(frame_taken);
    }
    let mut state: DecoderState = decoder.channel_states[channel];
    let mut frame: Vec<i16> = copy_samples(run.frame.as_slice());
    decode_frame_enter(&mut state, &run.control, frame.as_mut_slice(), run.decoded);
    decoder.channel_states[channel] = state;
    run.frame = frame;
    run.stage = DecodeStage::End { channel };
    DecodeAction::Glue { channel }
}

fn take_end(run: &mut DecodeRun, channel: usize, decoder: &mut Decoder, stereo: bool) -> (r:
    DecodeAction)
    requires
        channel < 2,
        1 <= old(decoder).channel_states[channel as int].sample_rate.nb_subfr <= 4,
        old(decoder).channel_states[channel as int].n_frames_decoded < i32::MAX,
    ensures
        frame_counted(
            *old(run),
            channel as int,
            *old(decoder),
            if stereo {
                2
            } else {
                1
            },
            *final(run),
            *final(decoder),
            r,
        ),
{
    proof {
        reveal(frame_counted);
    }
    let mut state: DecoderState = decoder.channel_states[channel];
    let n: usize = decode_frame_end(&mut state, &run.control);
    decoder.channel_states[channel] = state;
    count_frame(decoder, channel);
    let samples: Vec<i16> = behind_two(&run.frame);
    run.n = n;
    if channel == 0 {
        run.first = samples;
    } else {
        run.second = samples;
    }
    run.stage =
    if channel == 0 && stereo {
        DecodeStage::Channel { channel: 1 }
    } else {
        DecodeStage::Join
    };
    DecodeAction::Proceed
}

fn take_join(run: &mut DecodeRun, decoder: &mut Decoder, control: &DecControl) -> (r: DecodeAction)
    requires
        old(run).n <= 320,
        old(run).n + 2 <= old(run).first@.len(),
    ensures
        channels_joined(*old(run), *old(decoder), *control, *final(run), *final(decoder), r),
{
    proof {
        reveal(channels_joined);
    }
    run.stage = DecodeStage::Room;
    if control.n_channels_api == 2 && control.n_channels_internal == 2 {
        return DecodeAction::ToLeftAndRight;
    }
    let mut first: Vec<i16> = copy_samples(run.first.as_slice());
    let mut stereo_state: StereoDecState = decoder.stereo_state;
    carry_mono_samples(&mut stereo_state, first.as_mut_slice(), run.n);
    decoder.stereo_state = stereo_state;
    run.first = first;
    DecodeAction::Proceed
}

fn take_room(run: &mut DecodeRun, decoder: &Decoder, control: &DecControl, room: usize) -> (r:
    DecodeAction)
    requires
        1 <= control.n_channels_api <= 2,
        old(run).n <= 320,
        8 <= decoder.channel_states[0].sample_rate.fs_khz <= 16,
        8000 <= control.api_sample_rate <= 48000,
    ensures
        room_taken(*old(run), *decoder, *control, room as int, *final(run), r),
{
    proof {
        reveal(room_taken);
    }
    match output_room(run.n, control, decoder.channel_states[0].sample_rate.fs_khz, room) {
        Ok(n_out) => {
            run.n_out = n_out;
            run.stage = DecodeStage::First;
            DecodeAction::Convert { channel: 0, second: false, n: run.n, n_out }
        },
        Err(error) => {
            run.stage = DecodeStage::Done;
            DecodeAction::Fail { error }
        },
    }
}

fn take_output(
    run: &mut DecodeRun,
    decoder: &mut Decoder,
    control: &mut DecControl,
    samples_out: &mut [i16],
) -> (r: DecodeAction)
    requires
        1 <= old(control).n_channels_internal <= 2,
        1 <= old(control).n_channels_api <= 2,
        ({
            let sr = old(decoder).channel_states[0].sample_rate;
            &&& old(run).out_first@.len() * old(control).n_channels_api <= old(samples_out)@.len()
            &&& converts_second(*old(control), old(run).start) ==> old(run).out_second@.len()
                == old(run).out_first@.len()
            &&& sr.fs_khz == 8 || sr.fs_khz == 12 || sr.fs_khz == 16
            &&& 0 <= sr.lag_prev <= 0x1_0000
        }),
    ensures
        *final(run) == (DecodeRun { stage: DecodeStage::Done, ..*old(run) }),
        output_taken(
            *old(run),
            *old(decoder),
            *old(control),
            old(samples_out)@,
            *final(decoder),
            *final(control),
            final(samples_out)@,
        ),
        r == (DecodeAction::Done { samples: old(run).out_first@.len() as usize }),
{
    proof {
        reveal(output_taken);
    }
    let samples: usize = silk_decode_end(
        decoder,
        control,
        run.lost_flag,
        &run.start,
        samples_out,
        run.out_first.as_slice(),
        run.out_second.as_slice(),
    );
    run.stage = DecodeStage::Done;
    DecodeAction::Done { samples }
}

/// Takes a step of a call that decodes a frame into `samples_out`; `converted`
/// are the samples that were converted, where the last step asked for that.
pub fn decode_step(
    run: &mut DecodeRun,
    decoder: &mut Decoder,
    control: &mut DecControl,
    range_decoder: &mut RangeDecoder,
    samples_out: &mut [i16],
    converted: &[i16],
) -> (r: DecodeAction)
    requires
        step_ready(*old(run), *old(decoder), *old(control), old(samples_out)@.len() as int),
        old(range_decoder).wf(),
        dec_inside(old(range_decoder)@),
    ensures
        final(range_decoder).wf(),
        dec_inside(final(range_decoder)@),
        decode_moved(
            *old(run),
            *old(decoder),
            *old(control),
            old(range_decoder)@,
            old(samples_out)@,
            converted@,
            *final(run),
            *final(decoder),
            *final(control),
            final(range_decoder)@,
            final(samples_out)@,
            r,
        ),
{
    match run.stage {
        DecodeStage::Start => take_start(run, decoder, control, range_decoder),
        DecodeStage::Channel { channel } => take_channel(run, channel, decoder, range_decoder),
        DecodeStage::Enter { channel } => take_frame(run, channel, decoder),
        DecodeStage::End { channel } => take_end(
            run,
            channel,
            decoder,
            control.n_channels_internal == 2,
        ),
        DecodeStage::Join => take_join(run, decoder, control),
        DecodeStage::Room => take_room(run, decoder, control, samples_out.len()),
        DecodeStage::First => {
            run.out_first = copy_samples(converted);
            if control.n_channels_api == 2 && (control.n_channels_internal == 2
                || run.start.to_mono) {
                run.stage = DecodeStage::Second;
                DecodeAction::Convert {
                    channel: 1,
                    second: control.n_channels_internal == 2,
                    n: run.n,
                    n_out: run.n_out,
                }
            } else {
                run.stage = DecodeStage::Finish;
                DecodeAction::Proceed
            }
        },
        DecodeStage::Second => {
            run.out_second = copy_samples(converted);
            run.stage = DecodeStage::Finish;
            DecodeAction::Proceed
        },
        DecodeStage::Finish => take_output(run, decoder, control, samples_out),
        DecodeStage::Done => DecodeAction::Proceed,
    }
}

/// Steps that are left at most.
pub open spec fn steps_left(stage: DecodeStage) -> int {
    match stage {
        DecodeStage::Start => 12,
        DecodeStage::Channel { channel } => if channel == 0 {
            11
        } else {
            8
        },
        DecodeStage::Enter { channel } => if channel == 0 {
            10
        } else {
            7
        },
        DecodeStage::End { channel } => if channel == 0 {
            9
        } else {
            6
        },
        DecodeStage::Join => 5,
        DecodeStage::Room => 4,
        DecodeStage::First => 3,
        DecodeStage::Second => 2,
        DecodeStage::Finish => 1,
        DecodeStage::Done => 0,
    }
}

/// A call that decodes a frame ends after at most twelve steps: each step leaves
/// fewer, and the last one says that it is done or refused.
pub proof fn law_decoding_ends(
    b: DecodeRun,
    d: Decoder,
    ctl: DecControl,
    s: DecState,
    out: Seq<i16>,
    converted: Seq<i16>,
    a: DecodeRun,
    e: Decoder,
    told: DecControl,
    t: DecState,
    samples: Seq<i16>,
    act: DecodeAction,
)
    requires
        b.stage != DecodeStage::Done,
        step_ready(b, d, ctl, out.len() as int),
        decode_moved(b, d, ctl, s, out, converted, a, e, told, t, samples, act),
    ensures
        0 <= steps_left(a.stage) < steps_left(b.stage) <= 12,
        a.stage == DecodeStage::Done <==> act is Done || act is Fail,
{
    reveal(start_taken);
    reveal(channel_taken);
    reveal(frame_taken);
    reveal(frame_counted);
    reveal(channels_joined);
    reveal(room_taken);
}

} // verus!
