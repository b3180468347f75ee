//! The steps of one call that decodes a frame.
//!
//! A frame starts with all that is read and set before its channels. Then each
//! channel is decoded; loss concealment, the conversion of middle and side to
//! left and right, and sample-rate conversion are done outside. At last the
//! converted samples are put in their places.

use crate::range::{dec_inside, DecState, RangeDecoder};
use crate::silk::dec_api::{
    channel_coding, channel_configured, conditional_coding_for_channel, configure_fault,
    configured_from, conversion_of, decode_configure, decode_finish, decode_open,
    decode_stereo_part, decode_vad_and_lbrr, double_left, doubled, finished_from, format_of,
    has_side, head_from, internal_khz_of, opened_from, place_channel, placed, restart_side,
    side_again, side_decoded, starts_stereo, stereo_part_from, with_conversion, with_format,
    DecControl, Decoder, HeadSteps,
};
use crate::silk::decode_frame::{
    channel_ok, no_control, payload_decoded, silk_decode_frame, DecodeFlag, DecodedPayload,
};
use crate::silk::decode_indices::ConditionalCoding;
use crate::silk::decoder_state::{DecoderState, PacketLossConcealmentState};
use crate::silk::resampler::Resampler;
use crate::silk::types::SilkError;
use vstd::prelude::*;

verus! {

/// A channel whose rates are not set yet, or agree with all that follows from
/// them.
pub open spec fn channel_steady(s: DecoderState) -> bool {
    &&& s.sample_rate.fs_khz == 0 || s.sample_rate.keeps_rates()
    &&& 0 <= s.n_frames_decoded
}

/// The decoder between the steps of a frame's start.
pub struct StartSteps {
    pub opened: Decoder,
    /// Stereo becomes mono at the same rate.
    pub to_mono: bool,
    pub configured: Decoder,
    pub head: HeadSteps,
    pub headed: Decoder,
    /// The range decoder behind the head of the packet.
    pub behind_head: DecState,
    /// Whether the last frame that was read had no side.
    pub middle: bool,
    pub restarted: Decoder,
}

/// What the channels of a frame are decoded with.
#[derive(Debug)]
pub struct FrameStart {
    /// Stereo predictors (Q13).
    pub pred_q13: [i32; 2],
    /// The frame has no side.
    pub only_middle: bool,
    /// A side is decoded.
    pub side: bool,
    /// Stereo becomes mono at the same rate.
    pub to_mono: bool,
}

/// The packet's head is next.
pub open spec fn head_is_next(d: Decoder, lost_flag: DecodeFlag) -> bool {
    lost_flag != DecodeFlag::PacketLoss && d.channel_states[0].n_frames_decoded == 0
}

/// `f` is the start of a frame that the decoder `b` has at `s`; it leaves the
/// decoder `a` behind, with the range decoder at `end`. `w` are the decoders
/// between the steps.
pub open spec fn started(
    b: Decoder,
    control: DecControl,
    lost_flag: DecodeFlag,
    s: DecState,
    f: FrameStart,
    w: StartSteps,
    a: Decoder,
    end: DecState,
) -> bool {
    let stereo = control.n_channels_internal == 2;
    let before = b.prev_decode_only_middle;
    &&& f.to_mono == w.to_mono
    &&& configured_from(w.opened, control, w.configured)
    &&& if head_is_next(w.configured, lost_flag) {
        head_from(
            w.configured,
            stereo,
            lost_flag,
            s,
            before,
            w.head,
            w.headed,
            w.behind_head,
            w.middle,
        )
    } else {
        w.headed == w.configured && w.behind_head == s && w.middle == before
    }
    &&& stereo_part_from(
        w.headed,
        stereo,
        lost_flag,
        w.behind_head,
        w.middle,
        f.pred_q13,
        f.only_middle,
        end,
    )
    &&& side_again(w.headed, stereo, f.only_middle, w.restarted)
    &&& f.side == side_decoded(
        w.restarted,
        control.n_channels_internal as int,
        lost_flag,
        f.only_middle,
    )
    &&& with_deep_plc(w.restarted, control.enable_deep_plc, a)
}

/// `a` is the decoder `b` told whether losses are concealed by a network.
pub open spec fn with_deep_plc(b: Decoder, on: bool, a: Decoder) -> bool {
    let first = b.channel_states[0];
    &&& a == (Decoder { channel_states: a.channel_states, ..b })
    &&& a.channel_states[1] == b.channel_states[1]
    &&& a.channel_states[0] == (DecoderState {
        plc_state: PacketLossConcealmentState {
            enable_deep_plc: on,
            ..first.plc_state
        },
        ..first
    })
}

/// What is known of a channel that is configured for its frame.
proof fn lemma_channel_configured(
    b: DecoderState,
    format: Option<(int, int)>,
    fs_khz: i32,
    api_hz: i32,
    a: DecoderState,
)
    requires
        channel_configured(b, format, fs_khz, api_hz, a),
        channel_steady(b),
        fs_khz != 0,
        format is Some ==> 1 <= (format->0).0 <= 3,
    ensures
        a.sample_rate.configured(),
        a.n_frames_decoded == b.n_frames_decoded,
        format is Some ==> a.n_frames_per_packet == (format->0).0,
{
    reveal(channel_configured);
    reveal(with_format);
}

/// The same of one whose conversion is another one.
proof fn lemma_channel_converted(
    b: DecoderState,
    format: Option<(int, int)>,
    fs_khz: i32,
    api_hz: i32,
    a: DecoderState,
    conversion: Resampler,
)
    requires
        channel_configured(b, format, fs_khz, api_hz, with_conversion(a, conversion)),
        channel_steady(b),
        fs_khz != 0,
        format is Some ==> 1 <= (format->0).0 <= 3,
    ensures
        a.sample_rate.configured(),
        a.n_frames_decoded == b.n_frames_decoded,
        format is Some ==> a.n_frames_per_packet == (format->0).0,
{
    reveal(channel_configured);
    reveal(with_format);
    reveal(with_conversion);
}

/// A decoder that is configured for its frame has configured channels, and where
/// the frame is its packet's first one, they know the packet's frames.
proof fn lemma_configured(b: Decoder, control: DecControl, a: Decoder)
    requires
        configured_from(b, control, a),
        configure_fault(b, control) is None,
        1 <= control.n_channels_internal <= 2,
        channel_steady(b.channel_states[0]),
        channel_steady(b.channel_states[1]),
    ensures
        a.channel_states[0].sample_rate.configured(),
        a.channel_states[0].n_frames_decoded == b.channel_states[0].n_frames_decoded,
        a.prev_decode_only_middle == b.prev_decode_only_middle,
        control.n_channels_internal == 2 ==> a.channel_states[1].sample_rate.configured(),
        b.channel_states[0].n_frames_decoded == 0 ==> {
            &&& 1 <= a.channel_states[0].n_frames_per_packet <= 3
            &&& control.n_channels_internal == 2 ==> 1
                <= a.channel_states[1].n_frames_per_packet <= 3
        },
{
    let format = format_of(b, control);
    let khz = internal_khz_of(control.internal_sample_rate as int)->0 as i32;
    let api = control.api_sample_rate;
    lemma_channel_configured(b.channel_states[0], format, khz, api, a.channel_states[0]);
    if control.n_channels_internal == 2 {
        if starts_stereo(b, control) {
            lemma_channel_converted(
                b.channel_states[1],
                format,
                khz,
                api,
                a.channel_states[1],
                conversion_of(b.channel_states[1], khz, api),
            );
        } else {
            lemma_channel_configured(b.channel_states[1], format, khz, api, a.channel_states[1]);
        }
    }
}

/// Reading the head of a packet does not count its frames.
proof fn lemma_headed(
    b: Decoder,
    stereo: bool,
    lost_flag: DecodeFlag,
    s: DecState,
    only_middle: bool,
    h: HeadSteps,
    a: Decoder,
    end: DecState,
    middle: bool,
)
    requires
        head_from(b, stereo, lost_flag, s, only_middle, h, a, end, middle),
    ensures
        a.channel_states[0].n_frames_decoded == b.channel_states[0].n_frames_decoded,
{
}

/// Starts a frame: opens and configures the channels, reads the head of a
/// packet and the stereo part of the frame, and decides which channels are
/// decoded.
pub fn silk_decode_start(
    decoder: &mut Decoder,
    control: &DecControl,
    lost_flag: DecodeFlag,
    new_packet: bool,
    range_decoder: &mut RangeDecoder,
) -> (r: (Result<FrameStart, SilkError>, Ghost<StartSteps>))
    requires
        1 <= control.n_channels_internal <= 2,
        channel_steady(old(decoder).channel_states[0]),
        channel_steady(old(decoder).channel_states[1]),
        old(range_decoder).wf(),
        dec_inside(old(range_decoder)@),
    ensures
        final(range_decoder).wf(),
        dec_inside(final(range_decoder)@),
        opened_from(*old(decoder), *control, new_packet, r.1@.opened, r.1@.to_mono),
        match configure_fault(r.1@.opened, *control) {
            Some(e) => {
                &&& r.0 is Err && r.0->Err_0 == e
                &&& configured_from(r.1@.opened, *control, *final(decoder))
                &&& final(range_decoder)@ == old(range_decoder)@
            },
            None => {
                &&& r.0 is Ok
                &&& started(
                    *old(decoder),
                    *control,
                    lost_flag,
                    old(range_decoder)@,
                    r.0->Ok_0,
                    r.1@,
                    *final(decoder),
                    final(range_decoder)@,
                )
            },
        },
{
    let before: bool = decoder.prev_decode_only_middle;
    let to_mono: bool = decode_open(decoder, control, new_packet);
    let ghost opened = *decoder;
    match decode_configure(decoder, control) {
        Ok(_) => {},
        Err(e) => {
            let ghost w = StartSteps { opened, to_mono, ..arbitrary() };
            return (Err(e), Ghost(w));
        },
    }
    let ghost configured = *decoder;
    proof {
        lemma_configured(opened, *control, configured);
    }
    let mut middle: bool = before;
    let mut head: Ghost<HeadSteps> = Ghost(arbitrary());
    let lost: bool = matches!(lost_flag, DecodeFlag::PacketLoss);
    if !lost && decoder.channel_states[0].n_frames_decoded == 0 {
        let ghost s = range_decoder@;
        let (m, h) = decode_vad_and_lbrr(decoder, control, lost_flag, range_decoder, before);
        proof {
            lemma_headed(
                configured,
                control.n_channels_internal == 2,
                lost_flag,
                s,
                before,
                h@,
                *decoder,
                range_decoder@,
                m,
            );
        }
        middle = m;
        head = h;
    }
    let ghost headed = *decoder;
    let ghost behind_head = range_decoder@;
    let (pred_q13, only_middle) = decode_stereo_part(
        decoder,
        control,
        lost_flag,
        range_decoder,
        middle,
    );
    restart_side(decoder, control, only_middle);
    let ghost restarted = *decoder;
    let side: bool = has_side(decoder, control, lost_flag, only_middle);
    set_deep_plc(decoder, control.enable_deep_plc);
    let ghost w = StartSteps {
        opened,
        to_mono,
        configured,
        head: head@,
        headed,
        behind_head,
        middle,
        restarted,
    };
    (Ok(FrameStart { pred_q13, only_middle, side, to_mono }), Ghost(w))
}

fn set_deep_plc(decoder: &mut Decoder, on: bool)
    ensures
        with_deep_plc(*old(decoder), on, *final(decoder)),
{
    let mut first: DecoderState = decoder.channel_states[0];
    first.plc_state.enable_deep_plc = on;
    let second: DecoderState = decoder.channel_states[1];
    decoder.channel_states = [first, second];
}

// ---------------------------------------------------------------------
// Channels
// ---------------------------------------------------------------------

/// `p` is the payload that channel `b` takes from `s`; it leaves the channel `a`
/// and the samples `out` behind, with the range decoder at `end`.
pub open spec fn payload_taken(
    b: DecoderState,
    s: DecState,
    lost_flag: DecodeFlag,
    coding: ConditionalCoding,
    frame: Seq<i16>,
    p: DecodedPayload,
    a: DecoderState,
    end: DecState,
    out: Seq<i16>,
) -> bool {
    &&& p.decoded == lost_flag.has_payload(b.lbrr_flags[b.n_frames_decoded as int] != 0)
    &&& if p.decoded {
        payload_decoded(b, s, lost_flag, coding, frame, p.steps@, a, end, p.control, out)
    } else {
        a == b && end == s && out == frame && no_control(p.control)
    }
}

/// Decodes channel `channel` of a frame into `frame`. A side that the frame does
/// not have is silent, and counts as decoded.
pub fn decode_channel(
    decoder: &mut Decoder,
    channel: usize,
    side: bool,
    lost_flag: DecodeFlag,
    range_decoder: &mut RangeDecoder,
    frame: &mut [i16],
) -> (r: Option<DecodedPayload>)
    requires
        channel < 2,
        channel == 0 || side ==> channel_ok(old(decoder).channel_states[channel as int]),
        0 <= old(decoder).channel_states[0].n_frames_decoded,
        0 <= old(decoder).channel_states[channel as int].n_frames_decoded < 3,
        old(frame)@.len() >= old(decoder).channel_states[channel as int].sample_rate.frame_length,
        old(range_decoder).wf(),
        dec_inside(old(range_decoder)@),
    ensures
        final(range_decoder).wf(),
        dec_inside(final(range_decoder)@),
        *final(decoder) == (Decoder {
            channel_states: final(decoder).channel_states,
            ..*old(decoder)
        }),
        final(decoder).channel_states[1 - channel] == old(decoder).channel_states[1 - channel],
        ({
            let b = old(decoder).channel_states[channel as int];
            let a = final(decoder).channel_states[channel as int];
            if channel == 0 || side {
                &&& r is Some
                &&& payload_taken(
                    b,
                    old(range_decoder)@,
                    lost_flag,
                    channel_coding(
                        b.lbrr_flags@,
                        old(decoder).channel_states[0].n_frames_decoded - channel,
                        channel as int,
                        old(decoder).prev_decode_only_middle,
                        lost_flag,
                    ),
                    old(frame)@,
                    r->0,
                    a,
                    final(range_decoder)@,
                    final(frame)@,
                )
                &&& a.n_frames_decoded == b.n_frames_decoded
            } else {
                &&& r is None
                &&& a == (DecoderState { n_frames_decoded: (b.n_frames_decoded + 1) as i32, ..b })
                &&& final(range_decoder)@ == old(range_decoder)@
                &&& final(frame)@.len() == old(frame)@.len()
                &&& forall|i: int| 0 <= i < old(frame)@.len() ==> #[trigger] final(frame)@[i] == 0
            }
        }),
{
    let coded: bool = channel == 0 || side;
    if !coded {
        count_frame(decoder, channel);
        silence(frame);
        return None;
    }
    let coding: ConditionalCoding = conditional_coding_for_channel(
        &decoder.channel_states[channel],
        decoder.channel_states[0].n_frames_decoded - channel as i32,
        channel,
        decoder.prev_decode_only_middle,
        lost_flag,
    );
    let mut state: DecoderState = decoder.channel_states[channel];
    let payload: DecodedPayload = silk_decode_frame(
        &mut state,
        range_decoder,
        frame,
        lost_flag,
        coding,
    );
    decoder.channel_states[channel] = state;
    Some(payload)
}

fn silence(frame: &mut [i16])
    ensures
        final(frame)@.len() == old(frame)@.len(),
        forall|i: int| 0 <= i < old(frame)@.len() ==> #[trigger] final(frame)@[i] == 0,
{
    let n: usize = frame.len();
    for k in 0..n
        invariant
            n == frame@.len(),
            n == old(frame)@.len(),
            forall|i: int| 0 <= i < k ==> #[trigger] frame@[i] == 0,
    {
        frame[k] = 0;
    }
}

/// Counts a frame of a channel.
pub fn count_frame(decoder: &mut Decoder, channel: usize)
    requires
        channel < 2,
        old(decoder).channel_states[channel as int].n_frames_decoded < i32::MAX,
    ensures
        ({
            let b = old(decoder).channel_states[channel as int];
            &&& *final(decoder) == (Decoder {
                channel_states: final(decoder).channel_states,
                ..*old(decoder)
            })
            &&& final(decoder).channel_states[1 - channel] == old(decoder).channel_states[1
                - channel]
            &&& final(decoder).channel_states[channel as int] == (DecoderState {
                n_frames_decoded: (b.n_frames_decoded + 1) as i32,
                ..b
            })
        }),
{
    let mut state: DecoderState = decoder.channel_states[channel];
    state.n_frames_decoded = state.n_frames_decoded + 1;
    decoder.channel_states[channel] = state;
}

// ---------------------------------------------------------------------
// Output
// ---------------------------------------------------------------------

/// The output of a frame whose channels were converted: mono goes to both sides
/// of stereo, where the right one is converted on its own as long as it fades
/// out of stereo.
pub open spec fn output_of(
    out: Seq<i16>,
    first: Seq<i16>,
    second: Seq<i16>,
    api: int,
    internal: int,
    to_mono: bool,
) -> Seq<i16> {
    let left = placed(out, first, 0, api);
    if api == 1 {
        left
    } else if internal == 2 || to_mono {
        placed(left, second, 1, 2)
    } else {
        doubled(left, first.len() as int)
    }
}

/// Puts the converted samples of a frame in their places, and ends the frame.
/// `second` is the converted right side or side fading out of stereo; it is not
/// read where there is none.
pub fn silk_decode_end(
    decoder: &mut Decoder,
    control: &mut DecControl,
    lost_flag: DecodeFlag,
    start: &FrameStart,
    samples_out: &mut [i16],
    first: &[i16],
    second: &[i16],
) -> (r: usize)
    requires
        1 <= old(control).n_channels_internal <= 2,
        1 <= old(control).n_channels_api <= 2,
        first@.len() * old(control).n_channels_api <= old(samples_out)@.len(),
        old(control).n_channels_api == 2 && (old(control).n_channels_internal == 2
            || start.to_mono) ==> second@.len() == first@.len(),
        ({
            let sr = old(decoder).channel_states[0].sample_rate;
            (sr.fs_khz == 8 || sr.fs_khz == 12 || sr.fs_khz == 16) && 0 <= sr.lag_prev <= 0x1_0000
        }),
    ensures
        r == first@.len(),
        final(samples_out)@ == output_of(
            old(samples_out)@,
            first@,
            second@,
            old(control).n_channels_api as int,
            old(control).n_channels_internal as int,
            start.to_mono,
        ),
        finished_from(
            *old(decoder),
            *old(control),
            lost_flag,
            start.only_middle,
            *final(decoder),
            *final(control),
        ),
{
    let api: usize = control.n_channels_api as usize;
    place_channel(samples_out, first, 0, api);
    if api == 2 {
        if control.n_channels_internal == 2 || start.to_mono {
            place_channel(samples_out, second, 1, 2);
        } else {
            double_left(samples_out, first.len());
        }
    }
    decode_finish(decoder, control, lost_flag, start.only_middle);
    first.len()
}

/// Each side of stereo output is the channel that was converted for it.
pub proof fn law_output_holds_its_channels(
    out: Seq<i16>,
    first: Seq<i16>,
    second: Seq<i16>,
    internal: int,
    to_mono: bool,
    k: int,
)
    requires
        0 <= k < first.len(),
        first.len() * 2 <= out.len(),
        second.len() == first.len(),
    ensures
        ({
            let o = output_of(out, first, second, 2, internal, to_mono);
            &&& o.len() == out.len()
            &&& o[2 * k] == first[k]
            &&& o[2 * k + 1] == if internal == 2 || to_mono {
                second[k]
            } else {
                first[k]
            }
        }),
{
}

} // verus!
