//! Decisions in the decoding of a packet.
//!
//! Frames are decoded one by one; loss concealment, the conversion of middle
//! and side to left and right, and sample-rate conversion are done outside.
//! Here stands what is decided between them: how the channels start, what the
//! packet's flags say, which channels a frame has, and what is reported.
use crate::fixed::{lemma_mul_wb, smulwb};
use crate::range::{
    dec_inside, dec_logp_bit, dec_logp_next, DecState, RangeDecoder,
};
use crate::silk::code_signs::signs_read;
use crate::silk::decode_frame::{decode_side_information, side_model, DecodeFlag};
use crate::silk::decode_indices::{
    indices_read, nxt, read, sym, ConditionalCoding, IndexModel, Indices, SideInfoIndices,
};
use crate::silk::decode_pulses::{pulse_frame, silk_decode_pulses};
use crate::silk::decoder_set_fs::{rates_set, DecoderSampleRateState};
use crate::silk::decoder_state::DecoderState;
use crate::silk::resampler::Resampler;
use crate::silk::tables_other::{
    SILK_LBRR_FLAGS_2_ICDF, SILK_LBRR_FLAGS_3_ICDF, SILK_UNIFORM3_ICDF, SILK_UNIFORM5_ICDF,
};
use crate::silk::types::{FrameSignalType, SilkError};
use vstd::prelude::*;

verus! {

/// State of the conversion of middle and side to left and right.
#[derive(Debug, Clone, Copy)]
pub struct StereoDecState {
    /// Predictors of the last frame (Q13).
    pub pred_prev_q13: [i16; 2],
    /// Last two samples of the middle.
    pub s_mid: [i16; 2],
    /// Last two samples of the side.
    pub s_side: [i16; 2],
}

impl StereoDecState {
    pub open spec fn fresh(self) -> bool {
        &&& self.pred_prev_q13@ == seq![0i16, 0i16]
        &&& self.s_mid@ == seq![0i16, 0i16]
        &&& self.s_side@ == seq![0i16, 0i16]
    }
}

impl Default for StereoDecState {
    fn default() -> (r: StereoDecState)
        ensures
            r.fresh(),
    {
        let r: StereoDecState = StereoDecState {
            pred_prev_q13: [0;2],
            s_mid: [0;2],
            s_side: [0;2],
        };
        assert(r.pred_prev_q13@ =~= seq![0i16, 0i16]);
        assert(r.s_mid@ =~= seq![0i16, 0i16]);
        assert(r.s_side@ =~= seq![0i16, 0i16]);
        r
    }
}

/// A decoder: its channels, and what belongs to both.
#[derive(Debug, Clone, Copy)]
pub struct Decoder {
    pub channel_states: [DecoderState; 2],
    pub stereo_state: StereoDecState,
    pub n_channels_api: i32,
    pub n_channels_internal: i32,
    /// The last frame had no side.
    pub prev_decode_only_middle: bool,
}

impl Default for Decoder {
    fn default() -> (r: Decoder)
        ensures
            r.channel_states[0].is_initial(),
            r.channel_states[1].is_initial(),
            r.stereo_state.fresh(),
            r.n_channels_api == 1,
            r.n_channels_internal == 1,
            !r.prev_decode_only_middle,
    {
        Decoder {
            channel_states: [DecoderState::default(), DecoderState::default()],
            stereo_state: StereoDecState::default(),
            n_channels_api: 1,
            n_channels_internal: 1,
            prev_decode_only_middle: false,
        }
    }
}

impl Decoder {
    /// The state of a channel.
    pub fn channel_state(&self, index: usize) -> (r: &DecoderState)
        requires
            index < 2,
        ensures
            *r == self.channel_states[index as int],
    {
        &self.channel_states[index]
    }

    /// The state of a channel, for changing it.
    pub fn channel_state_mut(&mut self, index: usize) -> (r: &mut DecoderState)
        requires
            index < 2,
        ensures
            *r == old(self).channel_states[index as int],
            final(self).channel_states@ == old(self).channel_states@.update(
                index as int,
                *final(r),
            ),
            *final(self) == (Decoder {
                channel_states: final(self).channel_states,
                ..*old(self)
            }),
    {
        &mut self.channel_states[index]
    }
}

/// What a decoder is asked for, and what it reports back.
#[derive(Debug, Clone, Copy, PartialEq, Eq, Structural)]
pub struct DecControl {
    /// Channels of the output.
    pub n_channels_api: i32,
    /// Channels that are coded.
    pub n_channels_internal: i32,
    /// Output sample rate in Hz.
    pub api_sample_rate: i32,
    /// Internal sample rate in Hz.
    pub internal_sample_rate: i32,
    /// Milliseconds of the packet; 0 for a lost one.
    pub payload_size_ms: i32,
    /// Reported: pitch lag of the last frame at 48 kHz; 0 where it had none.
    pub prev_pitch_lag: i32,
    pub enable_deep_plc: bool,
}

impl Default for DecControl {
    /// Wide-band mono in 20 ms packets.
    fn default() -> (r: DecControl)
        ensures
            r == (DecControl {
                n_channels_api: 1,
                n_channels_internal: 1,
                api_sample_rate: 16000,
                internal_sample_rate: 16000,
                payload_size_ms: 20,
                prev_pitch_lag: 0,
                enable_deep_plc: false,
            }),
    {
        DecControl {
            n_channels_api: 1,
            n_channels_internal: 1,
            api_sample_rate: 16000,
            internal_sample_rate: 16000,
            payload_size_ms: 20,
            prev_pitch_lag: 0,
            enable_deep_plc: false,
        }
    }
}

/// Forgets all that was decoded.
pub fn reset_decoder(decoder: &mut Decoder) -> (r: Result<(), SilkError>)
    ensures
        r == Ok::<(), SilkError>(()),
        final(decoder).channel_states[0].is_initial(),
        final(decoder).channel_states[1].is_initial(),
        final(decoder).stereo_state.fresh(),
        !final(decoder).prev_decode_only_middle,
        final(decoder).n_channels_api == old(decoder).n_channels_api,
        final(decoder).n_channels_internal == old(decoder).n_channels_internal,
{
    decoder.channel_states = [DecoderState::default(), DecoderState::default()];
    decoder.stereo_state = StereoDecState::default();
    decoder.prev_decode_only_middle = false;
    Ok(())
}

/// Sets a decoder up for mono.
pub fn init_decoder(decoder: &mut Decoder) -> (r: Result<(), SilkError>)
    ensures
        r == Ok::<(), SilkError>(()),
        final(decoder).channel_states[0].is_initial(),
        final(decoder).channel_states[1].is_initial(),
        final(decoder).stereo_state.fresh(),
        final(decoder).n_channels_api == 1,
        final(decoder).n_channels_internal == 1,
        !final(decoder).prev_decode_only_middle,
{
    *decoder = Decoder::default();
    Ok(())
}

// ---------------------------------------------------------------------
// Packet format
// ---------------------------------------------------------------------

/// Frames of a packet, and subframes of a frame.
pub open spec fn packet_frames(payload_ms: int) -> Option<(int, int)> {
    if payload_ms == 0 || payload_ms == 10 {
        Some((1, 2))
    } else if payload_ms == 20 {
        Some((1, 4))
    } else if payload_ms == 40 {
        Some((2, 4))
    } else if payload_ms == 60 {
        Some((3, 4))
    } else {
        None
    }
}

/// Frames of a packet, and subframes of a frame; none where no packet has that
/// duration.
pub fn frames_per_packet(payload_ms: i32) -> (r: Option<(i32, usize)>)
    ensures
        match packet_frames(payload_ms as int) {
            Some((frames, subframes)) => r == Some((frames as i32, subframes as usize)),
            None => r is None,
        },
{
    if payload_ms == 0 || payload_ms == 10 {
        Some((1, 2))
    } else if payload_ms == 20 {
        Some((1, 4))
    } else if payload_ms == 40 {
        Some((2, 4))
    } else if payload_ms == 60 {
        Some((3, 4))
    } else {
        None
    }
}

/// Internal rate in kHz of a rate in Hz.
pub open spec fn internal_khz_of(fs_hz: int) -> Option<int> {
    let khz = fs_hz / 1024 + 1;
    if fs_hz > 0 && (khz == 8 || khz == 12 || khz == 16) {
        Some(khz)
    } else {
        None
    }
}

/// Internal rate in kHz of a rate in Hz; none where it is no internal rate.
pub fn to_internal_fs_khz(fs_hz: i32) -> (r: Option<i32>)
    ensures
        match internal_khz_of(fs_hz as int) {
            Some(khz) => r == Some(khz as i32),
            None => r is None,
        },
{
    if fs_hz <= 0 {
        return None;
    }
    let khz: i32 = fs_hz / 1024 + 1;
    if khz == 8 || khz == 12 || khz == 16 {
        Some(khz)
    } else {
        None
    }
}

/// How frame `frame_index` of a channel relates to the one before.
pub open spec fn channel_coding(
    lbrr_flags: Seq<i32>,
    frame_index: int,
    channel_idx: int,
    prev_only_middle: bool,
    lost_flag: DecodeFlag,
) -> ConditionalCoding {
    if frame_index <= 0 {
        ConditionalCoding::Independent
    } else if lost_flag == DecodeFlag::Lbrr {
        if frame_index - 1 < 3 && lbrr_flags[frame_index - 1] != 0 {
            ConditionalCoding::Conditional
        } else {
            ConditionalCoding::Independent
        }
    } else if channel_idx > 0 && prev_only_middle {
        ConditionalCoding::IndependentNoLtpScaling
    } else {
        ConditionalCoding::Conditional
    }
}

/// How frame `frame_index` of a channel relates to the one before: the first
/// frame of a packet stands alone, and so does a side frame after one without a
/// side.
pub fn conditional_coding_for_channel(
    state: &DecoderState,
    frame_index: i32,
    channel_idx: usize,
    prev_decode_only_middle: bool,
    lost_flag: DecodeFlag,
) -> (r: ConditionalCoding)
    ensures
        r == channel_coding(
            state.lbrr_flags@,
            frame_index as int,
            channel_idx as int,
            prev_decode_only_middle,
            lost_flag,
        ),
{
    if frame_index <= 0 {
        return ConditionalCoding::Independent;
    }
    match lost_flag {
        DecodeFlag::Lbrr => {
            let at: usize = (frame_index - 1) as usize;
            if at < 3 && state.lbrr_flags[at] != 0 {
                ConditionalCoding::Conditional
            } else {
                ConditionalCoding::Independent
            }
        },
        _ => {
            if channel_idx > 0 && prev_decode_only_middle {
                ConditionalCoding::IndependentNoLtpScaling
            } else {
                ConditionalCoding::Conditional
            }
        },
    }
}

// ---------------------------------------------------------------------
// Stereo predictors
// ---------------------------------------------------------------------

/// Coarse parts of both stereo predictors.
pub const SILK_STEREO_PRED_JOINT_ICDF: [u8; 25] = [
    249, 247, 246, 245, 244, 234, 210, 202, 201, 200, 197, 174, 82, 59, 56, 55, 54, 46, 22, 12, 11,
    10, 9, 7, 0,
];

/// Whether a frame has no side.
pub const SILK_STEREO_ONLY_CODE_MID_ICDF: [u8; 2] = [64, 0];

/// Ends of the ranges of a stereo predictor (Q13).
pub const SILK_STEREO_PRED_QUANT_Q13: [i16; 16] = [
    -13732, -10050, -8266, -7526, -6500, -5000, -2950, -820, 820, 2950, 5000, 6500, 7526, 8266,
    10050, 13732,
];

/// A tenth (Q16).
pub const STEREO_HALF_STEP_Q16: i32 = 6554;

/// A stereo predictor (Q13): the middle of one of five steps of a range.
pub open spec fn stereo_level(range: int, step: int) -> int {
    let low = SILK_STEREO_PRED_QUANT_Q13[range] as int;
    let high = SILK_STEREO_PRED_QUANT_Q13[range + 1] as int;
    low + ((high - low) * STEREO_HALF_STEP_Q16) / 0x1_0000 * (2 * step + 1)
}

/// The decoder once both stereo predictors are read.
pub open spec fn stereo_pred_next(s: DecState) -> DecState {
    let s1 = nxt(s, SILK_STEREO_PRED_JOINT_ICDF@);
    let s2 = nxt(s1, SILK_UNIFORM3_ICDF@);
    let s3 = nxt(s2, SILK_UNIFORM5_ICDF@);
    let s4 = nxt(s3, SILK_UNIFORM3_ICDF@);
    nxt(s4, SILK_UNIFORM5_ICDF@)
}

/// The stereo predictors that a decoder is about to read (Q13): the first less
/// the second, and the second.
pub open spec fn stereo_pred_read(s: DecState) -> (int, int) {
    let joint = sym(s, SILK_STEREO_PRED_JOINT_ICDF@);
    let s1 = nxt(s, SILK_STEREO_PRED_JOINT_ICDF@);
    let s2 = nxt(s1, SILK_UNIFORM3_ICDF@);
    let s3 = nxt(s2, SILK_UNIFORM5_ICDF@);
    let s4 = nxt(s3, SILK_UNIFORM3_ICDF@);
    let first = stereo_level(
        sym(s1, SILK_UNIFORM3_ICDF@) + 3 * (joint / 5),
        sym(s2, SILK_UNIFORM5_ICDF@),
    );
    let second = stereo_level(
        sym(s3, SILK_UNIFORM3_ICDF@) + 3 * (joint % 5),
        sym(s4, SILK_UNIFORM5_ICDF@),
    );
    (first - second, second)
}

fn level_of(range: usize, step: usize) -> (r: i32)
    requires
        range < 15,
        step < 5,
    ensures
        r == stereo_level(range as int, step as int),
        -20000 <= r <= 20000,
{
    let low: i32 = SILK_STEREO_PRED_QUANT_Q13[range] as i32;
    let high: i32 = SILK_STEREO_PRED_QUANT_Q13[range + 1] as i32;
    proof {
        lemma_mul_wb(high - low, STEREO_HALF_STEP_Q16 as int);
        assert(0 <= high - low <= 3682);
        assert(0 <= ((high - low) * STEREO_HALF_STEP_Q16) / 0x1_0000 <= 400);
    }
    let half: i32 = smulwb(high - low, STEREO_HALF_STEP_Q16);
    let n: i32 = 2 * step as i32 + 1;
    assert(0 <= half * n <= 3600) by (nonlinear_arith)
        requires
            0 <= half <= 400,
            1 <= n <= 9,
    ;
    low + half * n
}

/// Reads the stereo predictors (Q13).
pub fn stereo_decode_pred(range_decoder: &mut RangeDecoder) -> (r: [i32; 2])
    requires
        old(range_decoder).wf(),
        dec_inside(old(range_decoder)@),
    ensures
        final(range_decoder).wf(),
        dec_inside(final(range_decoder)@),
        final(range_decoder)@ == stereo_pred_next(old(range_decoder)@),
        (r[0] as int, r[1] as int) == stereo_pred_read(old(range_decoder)@),
{
    let joint: usize = read(range_decoder, &SILK_STEREO_PRED_JOINT_ICDF);
    let fine0: usize = read(range_decoder, &SILK_UNIFORM3_ICDF);
    let step0: usize = read(range_decoder, &SILK_UNIFORM5_ICDF);
    let fine1: usize = read(range_decoder, &SILK_UNIFORM3_ICDF);
    let step1: usize = read(range_decoder, &SILK_UNIFORM5_ICDF);
    let first: i32 = level_of(fine0 + 3 * (joint / 5), step0);
    let second: i32 = level_of(fine1 + 3 * (joint % 5), step1);
    [first - second, second]
}

/// Reads whether a frame has no side.
pub fn stereo_decode_mid_only(range_decoder: &mut RangeDecoder) -> (r: bool)
    requires
        old(range_decoder).wf(),
        dec_inside(old(range_decoder)@),
    ensures
        final(range_decoder).wf(),
        dec_inside(final(range_decoder)@),
        r == (sym(old(range_decoder)@, SILK_STEREO_ONLY_CODE_MID_ICDF@) != 0),
        final(range_decoder)@ == nxt(old(range_decoder)@, SILK_STEREO_ONLY_CODE_MID_ICDF@),
{
    read(range_decoder, &SILK_STEREO_ONLY_CODE_MID_ICDF) != 0
}

// ---------------------------------------------------------------------
// Start of a frame
// ---------------------------------------------------------------------

/// Channel `ch` before a frame: a new packet starts from its first frame.
pub open spec fn channel_opened(b: DecoderState, new_packet: bool, init: bool, a: DecoderState) -> bool {
    if init {
        a.is_initial()
    } else {
        a == (DecoderState {
            n_frames_decoded: if new_packet {
                0
            } else {
                b.n_frames_decoded
            },
            ..b
        })
    }
}

/// There are more coded channels than before.
pub open spec fn adds_channel(d: Decoder, channels: int) -> bool {
    channels > if d.n_channels_internal >= 0 {
        d.n_channels_internal as int
    } else {
        1
    }
}

/// The decoder `b` opened for a frame is `a`; `to_mono` is whether stereo becomes
/// mono at the same rate.
pub open spec fn opened_from(
    b: Decoder,
    control: DecControl,
    new_packet: bool,
    a: Decoder,
    to_mono: bool,
) -> bool {
    let n = control.n_channels_internal as int;
    let init = adds_channel(b, n);
    &&& a == (Decoder { channel_states: a.channel_states, ..b })
    &&& channel_opened(b.channel_states[0], new_packet, init, a.channel_states[0])
    &&& if n == 2 {
        channel_opened(b.channel_states[1], new_packet, init, a.channel_states[1])
    } else {
        a.channel_states[1] == b.channel_states[1]
    }
    &&& to_mono == (n == 1 && b.n_channels_internal == 2 && control.internal_sample_rate
        == a.channel_states[0].sample_rate.fs_khz * 1000)
}

/// Opens the channels for a frame, all anew where there are more of them than
/// before. Returns whether stereo becomes mono at the same rate.
pub fn decode_open(decoder: &mut Decoder, control: &DecControl, new_packet: bool) -> (r: bool)
    requires
        1 <= control.n_channels_internal <= 2,
        0 <= old(decoder).channel_states[0].sample_rate.fs_khz <= 48,
    ensures
        opened_from(*old(decoder), *control, new_packet, *final(decoder), r),
{
    let stereo: bool = control.n_channels_internal == 2;
    let before: i32 = if decoder.n_channels_internal >= 0 {
        decoder.n_channels_internal
    } else {
        1
    };
    let init: bool = control.n_channels_internal > before;
    let mut first: DecoderState = decoder.channel_states[0];
    let mut second: DecoderState = decoder.channel_states[1];
    if init {
        first = DecoderState::default();
        if stereo {
            second = DecoderState::default();
        }
    } else if new_packet {
        first.n_frames_decoded = 0;
        if stereo {
            second.n_frames_decoded = 0;
        }
    }
    decoder.channel_states = [first, second];
    control.n_channels_internal == 1 && decoder.n_channels_internal == 2
        && control.internal_sample_rate == first.sample_rate.fs_khz * 1000
}

/// A channel with the format of its packet.
#[verifier::opaque]
pub open spec fn with_format(b: DecoderState, format: Option<(int, int)>) -> DecoderState {
    match format {
        Some((frames, subframes)) => DecoderState {
            n_frames_per_packet: frames as i32,
            sample_rate: DecoderSampleRateState {
                nb_subfr: subframes as usize,
                ..b.sample_rate
            },
            ..b
        },
        None => b,
    }
}

/// `a` is channel `b` with the format of its packet and its rates.
#[verifier::opaque]
pub open spec fn channel_configured(
    b: DecoderState,
    format: Option<(int, int)>,
    fs_khz: i32,
    api_hz: i32,
    a: DecoderState,
) -> bool {
    let f = with_format(b, format);
    &&& rates_set(f.sample_rate, fs_khz, api_hz, a.sample_rate)
    &&& a == (DecoderState { sample_rate: a.sample_rate, ..f })
}

/// The rates of a channel are refused.
#[verifier::opaque]
pub open spec fn rates_refused(b: DecoderState, format: Option<(int, int)>, fs_khz: int, api_hz: int) -> bool {
    with_format(b, format).sample_rate.rate_error(fs_khz, api_hz) is Some
}

/// The conversion of a channel once its rates are set.
pub open spec fn conversion_of(b: DecoderState, fs_khz: i32, api_hz: i32) -> Resampler {
    if b.sample_rate.fs_khz != fs_khz || b.sample_rate.fs_api_hz != api_hz {
        Resampler { fs_in_hz: (fs_khz * 1000) as i32, fs_out_hz: api_hz }
    } else {
        b.sample_rate.resampler_state
    }
}

/// A channel with another conversion.
#[verifier::opaque]
pub open spec fn with_conversion(b: DecoderState, conversion: Resampler) -> DecoderState {
    DecoderState {
        sample_rate: DecoderSampleRateState { resampler_state: conversion, ..b.sample_rate },
        ..b
    }
}

fn configure_channel(state: &mut DecoderState, fs_khz: i32, api_hz: i32) -> (r: Result<
    (),
    SilkError,
>)
    ensures
        if rates_refused(*old(state), None, fs_khz as int, api_hz as int) {
            r == Err::<(), SilkError>(SilkError::DecInvalidSamplingFrequency) && *final(state)
                == *old(state)
        } else {
            r == Ok::<(), SilkError>(()) && channel_configured(
                *old(state),
                None,
                fs_khz,
                api_hz,
                *final(state),
            )
        },
{
    proof {
        reveal(rates_refused);
        reveal(channel_configured);
        reveal(with_format);
    }
    let mut rates: DecoderSampleRateState = state.sample_rate;
    match rates.set_sample_rates(fs_khz, api_hz) {
        Ok(_) => {
            state.sample_rate = rates;
            Ok(())
        },
        Err(_) => Err(SilkError::DecInvalidSamplingFrequency),
    }
}

fn format_channel(state: DecoderState, format: Option<(i32, usize)>) -> (r: DecoderState)
    ensures
        r == with_format(
            state,
            match format {
                Some((frames, subframes)) => Some((frames as int, subframes as int)),
                None => None,
            },
        ),
{
    proof {
        reveal(with_format);
    }
    let mut r: DecoderState = state;
    if let Some((frames, subframes)) = format {
        r.n_frames_per_packet = frames;
        r.sample_rate.nb_subfr = subframes;
    }
    r
}

/// To set rates is to do so in the format that was set before.
proof fn lemma_format_first(
    b: DecoderState,
    format: Option<(int, int)>,
    fs_khz: i32,
    api_hz: i32,
    a: DecoderState,
)
    ensures
        rates_refused(with_format(b, format), None, fs_khz as int, api_hz as int) == rates_refused(
            b,
            format,
            fs_khz as int,
            api_hz as int,
        ),
        channel_configured(with_format(b, format), None, fs_khz, api_hz, a) == channel_configured(
            b,
            format,
            fs_khz,
            api_hz,
            a,
        ),
{
    reveal(rates_refused);
    reveal(channel_configured);
    reveal(with_format);
}

/// A channel whose conversion was replaced, with its own one put back.
fn replace_conversion(
    state: DecoderState,
    conversion: Resampler,
    Ghost(b): Ghost<DecoderState>,
    Ghost(format): Ghost<Option<(int, int)>>,
    fs_khz: i32,
    api_hz: i32,
) -> (r: DecoderState)
    requires
        channel_configured(b, format, fs_khz, api_hz, state),
    ensures
        r.sample_rate.resampler_state == conversion,
        with_conversion(r, conversion_of(b, fs_khz, api_hz)) == state,
{
    proof {
        reveal(channel_configured);
        reveal(with_conversion);
        reveal(with_format);
    }
    let mut r: DecoderState = state;
    r.sample_rate.resampler_state = conversion;
    r
}

/// The format of a packet where its first frame is next.
pub open spec fn format_of(d: Decoder, control: DecControl) -> Option<(int, int)> {
    if d.channel_states[0].n_frames_decoded == 0 {
        packet_frames(control.payload_size_ms as int)
    } else {
        None
    }
}

/// Why the channels cannot be configured.
pub open spec fn configure_fault(d: Decoder, control: DecControl) -> Option<SilkError> {
    let n = control.n_channels_internal as int;
    let format = format_of(d, control);
    let khz = internal_khz_of(control.internal_sample_rate as int);
    let api = control.api_sample_rate as int;
    if d.channel_states[0].n_frames_decoded == 0 && format is None {
        Some(SilkError::DecInvalidFrameSize)
    } else if khz is None || rates_refused(d.channel_states[0], format, khz->0, api) || (n == 2
        && rates_refused(d.channel_states[1], format, khz->0, api)) || !(8000 <= api <= 48000) {
        Some(SilkError::DecInvalidSamplingFrequency)
    } else {
        None
    }
}

/// Stereo output starts from stereo packets.
pub open spec fn starts_stereo(d: Decoder, control: DecControl) -> bool {
    control.n_channels_api == 2 && control.n_channels_internal == 2 && (d.n_channels_api == 1
        || d.n_channels_internal == 1)
}

/// `a` is the decoder `b` configured for a frame. Where that cannot be, the
/// channels are configured up to the one that refuses its rates.
pub open spec fn configured_from(b: Decoder, control: DecControl, a: Decoder) -> bool {
    let n = control.n_channels_internal as int;
    let format = format_of(b, control);
    let khz = internal_khz_of(control.internal_sample_rate as int);
    let rate = khz->0 as i32;
    let api = control.api_sample_rate;
    let starts = starts_stereo(b, control);
    let first = b.channel_states[0];
    let second = b.channel_states[1];
    if first.n_frames_decoded == 0 && format is None {
        a == b
    } else if khz is None || rates_refused(first, format, khz->0, api as int) {
        &&& a == (Decoder { channel_states: a.channel_states, ..b })
        &&& a.channel_states[0] == with_format(first, format)
        &&& a.channel_states[1] == if n == 2 {
            with_format(second, format)
        } else {
            second
        }
    } else if n == 2 && rates_refused(second, format, khz->0, api as int) {
        &&& a == (Decoder { channel_states: a.channel_states, ..b })
        &&& channel_configured(first, format, rate, api, a.channel_states[0])
        &&& a.channel_states[1] == with_format(second, format)
    } else {
        &&& channel_configured(first, format, rate, api, a.channel_states[0])
        &&& if n == 2 {
            if starts {
                &&& a.channel_states[1].sample_rate.resampler_state
                    == a.channel_states[0].sample_rate.resampler_state
                &&& channel_configured(
                    second,
                    format,
                    rate,
                    api,
                    with_conversion(a.channel_states[1], conversion_of(second, rate, api)),
                )
            } else {
                channel_configured(second, format, rate, api, a.channel_states[1])
            }
        } else {
            a.channel_states[1] == second
        }
        &&& a.stereo_state.s_mid == b.stereo_state.s_mid
        &&& if starts {
            a.stereo_state.pred_prev_q13@ == seq![0i16, 0i16] && a.stereo_state.s_side@
                == seq![0i16, 0i16]
        } else {
            a.stereo_state == b.stereo_state
        }
        &&& a.n_channels_api == control.n_channels_api
        &&& a.n_channels_internal == control.n_channels_internal
        &&& a.prev_decode_only_middle == b.prev_decode_only_middle
    }
}

/// Configures the channels for a frame: the format of their packet, and their
/// rates.
pub fn decode_configure(decoder: &mut Decoder, control: &DecControl) -> (r: Result<(), SilkError>)
    requires
        1 <= control.n_channels_internal <= 2,
    ensures
        r == (match configure_fault(*old(decoder), *control) {
            Some(e) => Err::<(), SilkError>(e),
            None => Ok(()),
        }),
        configured_from(*old(decoder), *control, *final(decoder)),
{
    let format: Option<(i32, usize)> = if decoder.channel_states[0].n_frames_decoded == 0 {
        match frames_per_packet(control.payload_size_ms) {
            Some(found) => Some(found),
            None => return Err(SilkError::DecInvalidFrameSize),
        }
    } else {
        None
    };
    let api: i32 = control.api_sample_rate;
    let stereo: bool = control.n_channels_internal == 2;
    let mut first: DecoderState = format_channel(decoder.channel_states[0], format);
    let mut second: DecoderState = if stereo {
        format_channel(decoder.channel_states[1], format)
    } else {
        decoder.channel_states[1]
    };
    let khz: i32 = match to_internal_fs_khz(control.internal_sample_rate) {
        Some(khz) => khz,
        None => {
            decoder.channel_states = [first, second];
            return Err(SilkError::DecInvalidSamplingFrequency);
        },
    };
    let ghost shape = format_of(*old(decoder), *control);
    match configure_channel(&mut first, khz, api) {
        Ok(_) => {},
        Err(e) => {
            proof {
                lemma_format_first(old(decoder).channel_states[0], shape, khz, api, first);
            }
            decoder.channel_states = [first, second];
            return Err(e);
        },
    }
    proof {
        lemma_format_first(old(decoder).channel_states[0], shape, khz, api, first);
    }
    if stereo {
        match configure_channel(&mut second, khz, api) {
            Ok(_) => {},
            Err(e) => {
                proof {
                    lemma_format_first(old(decoder).channel_states[1], shape, khz, api, second);
                }
                decoder.channel_states = [first, second];
                return Err(e);
            },
        }
        proof {
            lemma_format_first(old(decoder).channel_states[1], shape, khz, api, second);
        }
    }
    if control.n_channels_api == 2 && stereo && (decoder.n_channels_api == 1
        || decoder.n_channels_internal == 1) {
        let rest: [i16; 2] = [0;2];
        assert(rest@ =~= seq![0i16, 0i16]);
        decoder.stereo_state.pred_prev_q13 = rest;
        decoder.stereo_state.s_side = rest;
        second = replace_conversion(
            second,
            first.sample_rate.resampler_state,
            Ghost(old(decoder).channel_states[1]),
            Ghost(shape),
            khz,
            api,
        );
    }
    decoder.channel_states = [first, second];
    decoder.n_channels_api = control.n_channels_api;
    decoder.n_channels_internal = control.n_channels_internal;
    if api < 8000 || api > 48000 {
        return Err(SilkError::DecInvalidSamplingFrequency);
    }
    Ok(())
}

// ---------------------------------------------------------------------
// Flags of a packet
// ---------------------------------------------------------------------

/// The decoder once `k` flags are read.
pub open spec fn flags_next(s: DecState, k: nat) -> DecState
    decreases k,
{
    if k == 0 {
        s
    } else {
        dec_logp_next(flags_next(s, (k - 1) as nat), 1)
    }
}

/// Flag `k` that a decoder is about to read.
pub open spec fn flag_read(s: DecState, k: nat) -> int {
    dec_logp_bit(flags_next(s, k), 1)
}

/// A channel with the flags in front of its packet: one of each frame, and one
/// of its redundancy.
pub open spec fn flags_set(b: DecoderState, s: DecState, a: DecoderState) -> bool {
    let n = b.n_frames_per_packet as int;
    &&& a == (DecoderState { vad_flags: a.vad_flags, lbrr_flag: a.lbrr_flag, ..b })
    &&& forall|i: int|
        0 <= i < 3 ==> #[trigger] a.vad_flags[i] == if i < n {
            flag_read(s, i as nat)
        } else {
            b.vad_flags[i] as int
        }
    &&& a.lbrr_flag == flag_read(s, n as nat)
}

fn read_flag(decoder: &mut RangeDecoder) -> (r: i32)
    requires
        old(decoder).wf(),
        dec_inside(old(decoder)@),
    ensures
        final(decoder).wf(),
        dec_inside(final(decoder)@),
        r == dec_logp_bit(old(decoder)@, 1),
        final(decoder)@ == dec_logp_next(old(decoder)@, 1),
{
    decoder.decode_symbol_logp(1) as i32
}

fn read_flags(state: &mut DecoderState, decoder: &mut RangeDecoder)
    requires
        old(decoder).wf(),
        dec_inside(old(decoder)@),
        1 <= old(state).n_frames_per_packet <= 3,
    ensures
        final(decoder).wf(),
        dec_inside(final(decoder)@),
        final(decoder)@ == flags_next(
            old(decoder)@,
            (old(state).n_frames_per_packet + 1) as nat,
        ),
        flags_set(*old(state), old(decoder)@, *final(state)),
{
    let n: usize = state.n_frames_per_packet as usize;
    let ghost s = decoder@;
    let ghost b = *state;
    let mut vad_flags: [i32; 3] = state.vad_flags;
    let mut i: usize = 0;
    while i < n
        invariant
            n <= 3,
            i <= n,
            decoder.wf(),
            dec_inside(decoder@),
            decoder@ == flags_next(s, i as nat),
            forall|j: int|
                0 <= j < 3 ==> #[trigger] vad_flags[j] == if j < i {
                    flag_read(s, j as nat)
                } else {
                    b.vad_flags[j] as int
                },
        decreases n - i,
    {
        vad_flags[i] = read_flag(decoder);
        i = i + 1;
    }
    state.vad_flags = vad_flags;
    state.lbrr_flag = read_flag(decoder);
}

/// Which frames a decoder is about to read as redundant, as a number with a
/// bit for each.
pub open spec fn lbrr_symbol_read(s: DecState, frames: int) -> int {
    if frames == 1 {
        1
    } else if frames == 2 {
        sym(s, SILK_LBRR_FLAGS_2_ICDF@) + 1
    } else {
        sym(s, SILK_LBRR_FLAGS_3_ICDF@) + 1
    }
}

pub open spec fn lbrr_symbol_next(s: DecState, frames: int) -> DecState {
    if frames == 1 {
        s
    } else if frames == 2 {
        nxt(s, SILK_LBRR_FLAGS_2_ICDF@)
    } else {
        nxt(s, SILK_LBRR_FLAGS_3_ICDF@)
    }
}

/// Bit `i` of a symbol of three bits.
pub open spec fn symbol_bit(symbol: int, i: int) -> int {
    if i == 0 {
        symbol % 2
    } else if i == 1 {
        symbol / 2 % 2
    } else {
        symbol / 4 % 2
    }
}

/// A channel that knows which of its frames are sent again.
pub open spec fn lbrr_set(b: DecoderState, s: DecState, a: DecoderState) -> bool {
    let n = b.n_frames_per_packet as int;
    &&& a == (DecoderState { lbrr_flags: a.lbrr_flags, ..b })
    &&& forall|i: int|
        0 <= i < 3 ==> #[trigger] a.lbrr_flags[i] == if b.lbrr_flag != 0 && i < n {
            symbol_bit(lbrr_symbol_read(s, n), i)
        } else {
            0
        }
}

/// The decoder once a channel's redundant frames are announced.
pub open spec fn lbrr_next(b: DecoderState, s: DecState) -> DecState {
    if b.lbrr_flag != 0 {
        lbrr_symbol_next(s, b.n_frames_per_packet as int)
    } else {
        s
    }
}

fn read_lbrr_flags(state: &mut DecoderState, decoder: &mut RangeDecoder)
    requires
        old(decoder).wf(),
        dec_inside(old(decoder)@),
        1 <= old(state).n_frames_per_packet <= 3,
    ensures
        final(decoder).wf(),
        dec_inside(final(decoder)@),
        lbrr_set(*old(state), old(decoder)@, *final(state)),
        final(decoder)@ == lbrr_next(*old(state), old(decoder)@),
{
    let mut flags: [i32; 3] = [0;3];
    let n: i32 = state.n_frames_per_packet;
    if state.lbrr_flag != 0 {
        let symbol: usize = if n == 1 {
            1
        } else if n == 2 {
            read(decoder, &SILK_LBRR_FLAGS_2_ICDF) + 1
        } else {
            read(decoder, &SILK_LBRR_FLAGS_3_ICDF) + 1
        };
        flags[0] = (symbol % 2) as i32;
        if n > 1 {
            flags[1] = (symbol / 2 % 2) as i32;
        }
        if n > 2 {
            flags[2] = (symbol / 4 % 2) as i32;
        }
    }
    state.lbrr_flags = flags;
}

// ---------------------------------------------------------------------
// Redundant frames that are not wanted
// ---------------------------------------------------------------------

/// What reading over redundant frames leaves behind.
pub struct SkipState {
    pub s: DecState,
    /// Indices, signal type and lag of the last frame of each channel.
    pub indices: Seq<Indices>,
    pub signal: Seq<FrameSignalType>,
    pub lag: Seq<int>,
    pub only_middle: bool,
}

/// The model of a redundant frame of channel `ch`.
pub open spec fn skip_model(c: Seq<DecoderState>, k: SkipState, ch: int, frame: int) -> IndexModel {
    IndexModel {
        active: true,
        prev_voiced: k.signal[ch] == FrameSignalType::Voiced,
        prev_lag: k.lag[ch],
        ..side_model(c[ch], frame, true, skip_coding(c[ch], frame))
    }
}

/// How a redundant frame relates to the one before.
pub open spec fn skip_coding(c: DecoderState, frame: int) -> ConditionalCoding {
    if frame > 0 && c.lbrr_flags[frame - 1] != 0 {
        ConditionalCoding::Conditional
    } else {
        ConditionalCoding::Independent
    }
}

/// The decoder behind the stereo part of a redundant frame, and whether the
/// frame has no side.
pub open spec fn skip_stereo(c: Seq<DecoderState>, stereo: bool, k: SkipState, ch: int, frame: int) -> (
    DecState,
    bool,
) {
    if stereo && ch == 0 {
        let s1 = stereo_pred_next(k.s);
        if c[1].lbrr_flags[frame] == 0 {
            (
                nxt(s1, SILK_STEREO_ONLY_CODE_MID_ICDF@),
                sym(s1, SILK_STEREO_ONLY_CODE_MID_ICDF@) != 0,
            )
        } else {
            (s1, k.only_middle)
        }
    } else {
        (k.s, k.only_middle)
    }
}

/// The decoder behind the pulses of a frame.
pub open spec fn pulses_next(s: DecState, i: Indices, n: int) -> DecState {
    let f = pulse_frame(s, i.signal.number(), i.offset.number(), n);
    signs_read(f.before_signs, f.signs, f.magnitudes, n as nat)
}

/// After frame `frame` of channel `ch` was read over, if it is sent again.
pub open spec fn skip_one(c: Seq<DecoderState>, stereo: bool, k: SkipState, ch: int, frame: int) -> SkipState {
    if c[ch].lbrr_flags[frame] == 0 {
        k
    } else {
        let (s1, only_middle) = skip_stereo(c, stereo, k, ch, frame);
        let out = indices_read(s1, skip_model(c, k, ch, frame));
        SkipState {
            s: pulses_next(out.next, out.indices, c[ch].sample_rate.frame_length as int),
            indices: k.indices.update(ch, out.indices),
            signal: k.signal.update(ch, out.indices.signal),
            lag: k.lag.update(ch, out.prev_lag),
            only_middle,
        }
    }
}

/// After the first `frames` frames of all channels were read over.
pub open spec fn skip_frames(c: Seq<DecoderState>, stereo: bool, k: SkipState, frames: nat) -> SkipState
    decreases frames,
{
    if frames == 0 {
        k
    } else {
        let before = skip_frames(c, stereo, k, (frames - 1) as nat);
        let first = skip_one(c, stereo, before, 0, frames - 1);
        if stereo {
            skip_one(c, stereo, first, 1, frames - 1)
        } else {
            first
        }
    }
}

/// Where reading over starts.
pub open spec fn skip_start(c: Seq<DecoderState>, s: DecState, only_middle: bool) -> SkipState {
    SkipState {
        s,
        indices: Seq::new(2, |i: int| c[i].indices@),
        signal: Seq::new(2, |i: int| c[i].ec_prev_signal_type),
        lag: Seq::new(2, |i: int| c[i].ec_prev_lag_index as int),
        only_middle,
    }
}

/// A channel after redundant frames were read over.
pub open spec fn skipped(b: DecoderState, k: SkipState, ch: int, a: DecoderState) -> bool {
    &&& a == (DecoderState {
        indices: a.indices,
        ec_prev_signal_type: k.signal[ch],
        ec_prev_lag_index: a.ec_prev_lag_index,
        ..b
    })
    &&& a.indices@ == k.indices[ch]
    &&& a.ec_prev_lag_index == k.lag[ch]
}

/// Reads over frame `frame` of a channel, which is sent again.
fn skip_frame(
    state: &mut DecoderState,
    decoder: &mut RangeDecoder,
    frame: usize,
    Ghost(model): Ghost<IndexModel>,
)
    requires
        old(decoder).wf(),
        dec_inside(old(decoder)@),
        frame < 3,
        old(state).sample_rate.configured(),
        model == side_model(
            *old(state),
            frame as int,
            true,
            skip_coding(*old(state), frame as int),
        ),
    ensures
        final(decoder).wf(),
        dec_inside(final(decoder)@),
        ({
            let out = indices_read(old(decoder)@, model);
            &&& final(decoder)@ == pulses_next(
                out.next,
                out.indices,
                old(state).sample_rate.frame_length as int,
            )
            &&& *final(state) == (DecoderState {
                indices: final(state).indices,
                ec_prev_signal_type: out.indices.signal,
                ec_prev_lag_index: final(state).ec_prev_lag_index,
                ..*old(state)
            })
            &&& final(state).indices@ == out.indices
            &&& final(state).ec_prev_lag_index == out.prev_lag
        }),
{
    let coding: ConditionalCoding = if frame > 0 && state.lbrr_flags[frame - 1] != 0 {
        ConditionalCoding::Conditional
    } else {
        ConditionalCoding::Independent
    };
    let n: usize = state.sample_rate.frame_length;
    proof {
        crate::silk::decode_frame::lemma_frame_length(state.sample_rate);
    }
    let indices: SideInfoIndices = decode_side_information(state, decoder, frame, true, coding);
    let mut pulses: Vec<i16> = vec![0i16;(n + 15) / 16 * 16];
    silk_decode_pulses(
        decoder,
        pulses.as_mut_slice(),
        indices.signal_type.to_i32(),
        indices.quant_offset_type.to_i32(),
        n,
    );
}

/// The flags of a packet are read: those of the first channel, those of the
/// second, and which frames of each are sent again.
pub open spec fn header_read(
    b: Seq<DecoderState>,
    stereo: bool,
    s: DecState,
    f: Seq<DecoderState>,
    a: Seq<DecoderState>,
    end: DecState,
) -> bool {
    let s1 = flags_next(s, (b[0].n_frames_per_packet + 1) as nat);
    let s2 = if stereo {
        flags_next(s1, (b[1].n_frames_per_packet + 1) as nat)
    } else {
        s1
    };
    let s3 = lbrr_next(f[0], s2);
    &&& f.len() == 2 && a.len() == 2
    &&& flags_set(b[0], s, f[0])
    &&& lbrr_set(f[0], s2, a[0])
    &&& if stereo {
        flags_set(b[1], s1, f[1]) && lbrr_set(f[1], s3, a[1])
    } else {
        f[1] == b[1] && a[1] == b[1]
    }
    &&& end == if stereo {
        lbrr_next(f[1], s3)
    } else {
        s3
    }
}

/// What reading the head of a packet leaves behind.
pub struct HeadSteps {
    /// The channels with their flags.
    pub flagged: Seq<DecoderState>,
    /// The channels with their redundancy flags.
    pub announced: Seq<DecoderState>,
    /// The decoder behind them.
    pub s: DecState,
}

/// `a` is the decoder `b` behind the head of a packet, where the range decoder
/// is at `end`, and `middle` is whether the last frame read had no side.
pub open spec fn head_from(
    b: Decoder,
    stereo: bool,
    lost_flag: DecodeFlag,
    s: DecState,
    only_middle: bool,
    h: HeadSteps,
    a: Decoder,
    end: DecState,
    middle: bool,
) -> bool {
    let k = skip_frames(
        h.announced,
        stereo,
        skip_start(h.announced, h.s, only_middle),
        b.channel_states[0].n_frames_per_packet as nat,
    );
    &&& a == (Decoder { channel_states: a.channel_states, ..b })
    &&& header_read(b.channel_states@, stereo, s, h.flagged, h.announced, h.s)
    &&& if lost_flag == DecodeFlag::Normal {
        &&& end == k.s
        &&& middle == k.only_middle
        &&& skipped(h.announced[0], k, 0, a.channel_states[0])
        &&& skipped(h.announced[1], k, 1, a.channel_states[1])
    } else {
        &&& end == h.s
        &&& middle == only_middle
        &&& a.channel_states[0] == h.announced[0]
        &&& a.channel_states[1] == h.announced[1]
    }
}

/// Reads the flags in front of a packet, and reads over redundant frames where
/// the frames themselves are wanted. `only_middle` is whether the last frame
/// had no side; what the last redundant frame says of that is returned.
pub fn decode_vad_and_lbrr(
    decoder: &mut Decoder,
    control: &DecControl,
    lost_flag: DecodeFlag,
    range_decoder: &mut RangeDecoder,
    only_middle: bool,
) -> (r: (bool, Ghost<HeadSteps>))
    requires
        old(range_decoder).wf(),
        dec_inside(old(range_decoder)@),
        1 <= control.n_channels_internal <= 2,
        1 <= old(decoder).channel_states[0].n_frames_per_packet <= 3,
        control.n_channels_internal == 2 ==> 1 <= old(
            decoder,
        ).channel_states[1].n_frames_per_packet <= 3,
        old(decoder).channel_states[0].sample_rate.configured(),
        control.n_channels_internal == 2 ==> old(
            decoder,
        ).channel_states[1].sample_rate.configured(),
    ensures
        final(range_decoder).wf(),
        dec_inside(final(range_decoder)@),
        head_from(
            *old(decoder),
            control.n_channels_internal == 2,
            lost_flag,
            old(range_decoder)@,
            only_middle,
            r.1@,
            *final(decoder),
            final(range_decoder)@,
            r.0,
        ),
{
    let stereo: bool = control.n_channels_internal == 2;
    let mut first: DecoderState = decoder.channel_states[0];
    let mut second: DecoderState = decoder.channel_states[1];
    let frames: usize = first.n_frames_per_packet as usize;
    read_flags(&mut first, range_decoder);
    if stereo {
        read_flags(&mut second, range_decoder);
    }
    let ghost flagged = seq![first, second];
    read_lbrr_flags(&mut first, range_decoder);
    if stereo {
        read_lbrr_flags(&mut second, range_decoder);
    }
    let ghost announced = seq![first, second];
    let ghost steps = HeadSteps { flagged, announced, s: range_decoder@ };
    assert(header_read(
        old(decoder).channel_states@,
        stereo,
        old(range_decoder)@,
        flagged,
        announced,
        range_decoder@,
    ));
    let mut middle: bool = only_middle;
    if let DecodeFlag::Normal = lost_flag {
        middle = skip_redundancy(
            &mut first,
            &mut second,
            range_decoder,
            stereo,
            frames,
            only_middle,
            Ghost(announced),
        );
    }
    decoder.channel_states = [first, second];
    (middle, Ghost(steps))
}

/// Reads over all redundant frames of a packet.
fn skip_redundancy(
    first: &mut DecoderState,
    second: &mut DecoderState,
    range_decoder: &mut RangeDecoder,
    stereo: bool,
    frames: usize,
    only_middle: bool,
    Ghost(c): Ghost<Seq<DecoderState>>,
) -> (r: bool)
    requires
        old(range_decoder).wf(),
        dec_inside(old(range_decoder)@),
        c == seq![*old(first), *old(second)],
        1 <= frames <= 3,
        old(first).sample_rate.configured(),
        stereo ==> old(second).sample_rate.configured(),
    ensures
        final(range_decoder).wf(),
        dec_inside(final(range_decoder)@),
        ({
            let k = skip_frames(
                c,
                stereo,
                skip_start(c, old(range_decoder)@, only_middle),
                frames as nat,
            );
            &&& final(range_decoder)@ == k.s
            &&& r == k.only_middle
            &&& skipped(c[0], k, 0, *final(first))
            &&& skipped(c[1], k, 1, *final(second))
        }),
{
    let ghost start = skip_start(c, range_decoder@, only_middle);
    let mut middle: bool = only_middle;
    let mut frame: usize = 0;
    while frame < frames
        invariant
            range_decoder.wf(),
            dec_inside(range_decoder@),
            frame <= frames,
            frames <= 3,
            c.len() == 2,
            c[0].sample_rate.configured(),
            stereo ==> c[1].sample_rate.configured(),
            skip_kept(c, skip_frames(c, stereo, start, frame as nat), range_decoder@, middle),
            skipped(c[0], skip_frames(c, stereo, start, frame as nat), 0, *first),
            skipped(c[1], skip_frames(c, stereo, start, frame as nat), 1, *second),
        decreases frames - frame,
    {
        let ghost k = skip_frames(c, stereo, start, frame as nat);
        let side_again: bool = second.lbrr_flags[frame] != 0;
        skip_channel(
            first,
            range_decoder,
            &mut middle,
            stereo,
            side_again,
            0,
            frame,
            Ghost(c),
            Ghost(k),
        );
        let ghost k1 = skip_one(c, stereo, k, 0, frame as int);
        if stereo {
            skip_channel(
                second,
                range_decoder,
                &mut middle,
                stereo,
                side_again,
                1,
                frame,
                Ghost(c),
                Ghost(k1),
            );
        }
        frame = frame + 1;
    }
    middle
}

/// The decoder and the answer on the middle are where reading over has come.
spec fn skip_kept(c: Seq<DecoderState>, k: SkipState, s: DecState, middle: bool) -> bool {
    &&& k.s == s
    &&& k.only_middle == middle
    &&& k.indices.len() == 2
    &&& k.signal.len() == 2
    &&& k.lag.len() == 2
}

/// Reads over frame `frame` of channel `ch`, if it is sent again.
fn skip_channel(
    state: &mut DecoderState,
    range_decoder: &mut RangeDecoder,
    middle: &mut bool,
    stereo: bool,
    side_again: bool,
    ch: usize,
    frame: usize,
    Ghost(c): Ghost<Seq<DecoderState>>,
    Ghost(k): Ghost<SkipState>,
)
    requires
        old(range_decoder).wf(),
        dec_inside(old(range_decoder)@),
        c.len() == 2,
        ch < 2,
        frame < 3,
        c[ch as int].sample_rate.configured(),
        side_again == (c[1].lbrr_flags[frame as int] != 0),
        skip_kept(c, k, old(range_decoder)@, *old(middle)),
        skipped(c[ch as int], k, ch as int, *old(state)),
    ensures
        final(range_decoder).wf(),
        dec_inside(final(range_decoder)@),
        ({
            let after = skip_one(c, stereo, k, ch as int, frame as int);
            &&& skip_kept(c, after, final(range_decoder)@, *final(middle))
            &&& skipped(c[ch as int], after, ch as int, *final(state))
            &&& forall|o: int|
                0 <= o < 2 && o != ch ==> #[trigger] after.indices[o] == k.indices[o]
                    && after.signal[o] == k.signal[o] && after.lag[o] == k.lag[o]
        }),
{
    if state.lbrr_flags[frame] == 0 {
        return;
    }
    if stereo && ch == 0 {
        let _ = stereo_decode_pred(range_decoder);
        if !side_again {
            *middle = stereo_decode_mid_only(range_decoder);
        }
    }
    let ghost m = side_model(*state, frame as int, true, skip_coding(*state, frame as int));
    assert(m == skip_model(c, k, ch as int, frame as int));
    skip_frame(state, range_decoder, frame, Ghost(m));
}

// ---------------------------------------------------------------------
// Channels of a frame
// ---------------------------------------------------------------------

/// The stereo part of the frame is in the packet.
pub open spec fn has_stereo_part(d: Decoder, lost_flag: DecodeFlag) -> bool {
    let at = d.channel_states[0].n_frames_decoded as int;
    match lost_flag {
        DecodeFlag::Normal => true,
        DecodeFlag::Lbrr => 0 <= at < 3 && d.channel_states[0].lbrr_flags[at] == 1,
        DecodeFlag::PacketLoss => false,
    }
}

/// The packet says whether the frame has a side: it is not plain from the
/// side's own flags.
pub open spec fn asks_for_side(d: Decoder, lost_flag: DecodeFlag) -> bool {
    let at = d.channel_states[0].n_frames_decoded as int;
    match lost_flag {
        DecodeFlag::Normal => !(0 <= at < 3) || d.channel_states[1].vad_flags[at] == 0,
        DecodeFlag::Lbrr => !(0 <= at < 3) || d.channel_states[1].lbrr_flags[at] == 0,
        DecodeFlag::PacketLoss => false,
    }
}

/// The stereo predictors of a frame (Q13) and whether it has no side are
/// `pred` and `middle`, and the range decoder is at `end` behind them.
pub open spec fn stereo_part_from(
    d: Decoder,
    stereo: bool,
    lost_flag: DecodeFlag,
    s: DecState,
    only_middle: bool,
    pred: [i32; 2],
    middle: bool,
    end: DecState,
) -> bool {
    let s1 = stereo_pred_next(s);
    if !stereo {
        end == s && !middle && pred[0] == 0 && pred[1] == 0
    } else if has_stereo_part(d, lost_flag) {
        &&& (pred[0] as int, pred[1] as int) == stereo_pred_read(s)
        &&& if asks_for_side(d, lost_flag) {
            middle == (sym(s1, SILK_STEREO_ONLY_CODE_MID_ICDF@) != 0) && end == nxt(
                s1,
                SILK_STEREO_ONLY_CODE_MID_ICDF@,
            )
        } else {
            !middle && end == s1
        }
    } else {
        &&& end == s
        &&& middle == only_middle
        &&& pred[0] == d.stereo_state.pred_prev_q13[0]
        &&& pred[1] == d.stereo_state.pred_prev_q13[1]
    }
}

/// The stereo predictors of a frame (Q13), and whether it has no side.
pub fn decode_stereo_part(
    decoder: &Decoder,
    control: &DecControl,
    lost_flag: DecodeFlag,
    range_decoder: &mut RangeDecoder,
    only_middle: bool,
) -> (r: ([i32; 2], bool))
    requires
        old(range_decoder).wf(),
        dec_inside(old(range_decoder)@),
        0 <= decoder.channel_states[0].n_frames_decoded,
    ensures
        final(range_decoder).wf(),
        dec_inside(final(range_decoder)@),
        stereo_part_from(
            *decoder,
            control.n_channels_internal == 2,
            lost_flag,
            old(range_decoder)@,
            only_middle,
            r.0,
            r.1,
            final(range_decoder)@,
        ),
{
    if control.n_channels_internal != 2 {
        return ([0, 0], false);
    }
    let at: usize = decoder.channel_states[0].n_frames_decoded as usize;
    let there: bool = match lost_flag {
        DecodeFlag::Normal => true,
        DecodeFlag::Lbrr => at < 3 && decoder.channel_states[0].lbrr_flags[at] == 1,
        DecodeFlag::PacketLoss => false,
    };
    if !there {
        return (
            [
                decoder.stereo_state.pred_prev_q13[0] as i32,
                decoder.stereo_state.pred_prev_q13[1] as i32,
            ],
            only_middle,
        );
    }
    let pred: [i32; 2] = stereo_decode_pred(range_decoder);
    let asks: bool = match lost_flag {
        DecodeFlag::Normal => at >= 3 || decoder.channel_states[1].vad_flags[at] == 0,
        DecodeFlag::Lbrr => at >= 3 || decoder.channel_states[1].lbrr_flags[at] == 0,
        DecodeFlag::PacketLoss => false,
    };
    if asks {
        let middle: bool = stereo_decode_mid_only(range_decoder);
        (pred, middle)
    } else {
        (pred, false)
    }
}

/// A side that was left out starts anew.
pub open spec fn side_restarted(b: DecoderSampleRateState, a: DecoderSampleRateState) -> bool {
    &&& a == (DecoderSampleRateState {
        out_buf: a.out_buf,
        s_lpc_q14_buf: a.s_lpc_q14_buf,
        lag_prev: 100,
        last_gain_index: 10,
        prev_signal_type: FrameSignalType::Inactive,
        first_frame_after_reset: true,
        ..b
    })
    &&& forall|i: int| 0 <= i < 480 ==> #[trigger] a.out_buf[i] == 0
    &&& forall|i: int| 0 <= i < 16 ==> #[trigger] a.s_lpc_q14_buf[i] == 0
}

/// `a` is the decoder `b` whose side is there again, if it was left out.
pub open spec fn side_again(b: Decoder, stereo: bool, only_middle: bool, a: Decoder) -> bool {
    let side = a.channel_states[1];
    &&& a == (Decoder { channel_states: a.channel_states, ..b })
    &&& a.channel_states[0] == b.channel_states[0]
    &&& if stereo && !only_middle && b.prev_decode_only_middle {
        side == (DecoderState { sample_rate: side.sample_rate, ..b.channel_states[1] })
            && side_restarted(b.channel_states[1].sample_rate, side.sample_rate)
    } else {
        side == b.channel_states[1]
    }
}

/// Restarts the side where it was left out and is there again.
pub fn restart_side(decoder: &mut Decoder, control: &DecControl, only_middle: bool)
    ensures
        side_again(
            *old(decoder),
            control.n_channels_internal == 2,
            only_middle,
            *final(decoder),
        ),
{
    if control.n_channels_internal == 2 && !only_middle && decoder.prev_decode_only_middle {
        let first: DecoderState = decoder.channel_states[0];
        let mut side: DecoderState = decoder.channel_states[1];
        side.sample_rate.out_buf = [0;480];
        side.sample_rate.s_lpc_q14_buf = [0;16];
        side.sample_rate.lag_prev = 100;
        side.sample_rate.last_gain_index = 10;
        side.sample_rate.prev_signal_type = FrameSignalType::Inactive;
        side.sample_rate.first_frame_after_reset = true;
        decoder.channel_states = [first, side];
    }
}

/// Whether a side is decoded for the frame.
pub open spec fn side_decoded(d: Decoder, channels: int, lost_flag: DecodeFlag, only_middle: bool) -> bool {
    let at = d.channel_states[1].n_frames_decoded as int;
    match lost_flag {
        DecodeFlag::Normal => !only_middle,
        DecodeFlag::PacketLoss => !d.prev_decode_only_middle,
        DecodeFlag::Lbrr => !d.prev_decode_only_middle || (channels == 2 && 0 <= at < 3
            && d.channel_states[1].lbrr_flags[at] == 1),
    }
}

/// Whether a side is decoded for the frame.
pub fn has_side(decoder: &Decoder, control: &DecControl, lost_flag: DecodeFlag, only_middle: bool) -> (r:
    bool)
    ensures
        r == side_decoded(
            *decoder,
            control.n_channels_internal as int,
            lost_flag,
            only_middle,
        ),
{
    match lost_flag {
        DecodeFlag::Normal => !only_middle,
        DecodeFlag::PacketLoss => !decoder.prev_decode_only_middle,
        DecodeFlag::Lbrr => {
            let at: i32 = decoder.channel_states[1].n_frames_decoded;
            !decoder.prev_decode_only_middle || (control.n_channels_internal == 2 && at >= 0 && at
                < 3 && decoder.channel_states[1].lbrr_flags[at as usize] == 1)
        },
    }
}

// ---------------------------------------------------------------------
// Output
// ---------------------------------------------------------------------

/// Samples at the output rate that `samples` samples become.
pub open spec fn output_samples(samples: int, api_hz: int, fs_khz: int) -> int {
    samples * api_hz / (fs_khz * 1000)
}

/// Samples of each channel at the output rate; an error where `out_len` samples
/// do not hold them.
pub fn output_room(samples: usize, control: &DecControl, fs_khz: i32, out_len: usize) -> (r: Result<
    usize,
    SilkError,
>)
    requires
        samples <= 320,
        8 <= fs_khz <= 16,
        8000 <= control.api_sample_rate <= 48000,
        1 <= control.n_channels_api <= 2,
    ensures
        ({
            let n = output_samples(
                samples as int,
                control.api_sample_rate as int,
                fs_khz as int,
            );
            r == (if out_len < n * control.n_channels_api {
                Err::<usize, SilkError>(SilkError::DecPayloadTooLarge)
            } else {
                Ok(n as usize)
            })
        }),
{
    proof {
        assert(0 <= samples * control.api_sample_rate <= 320 * 48000) by (nonlinear_arith)
            requires
                0 <= samples <= 320,
                0 <= control.api_sample_rate <= 48000,
        ;
        vstd::arithmetic::div_mod::lemma_div_is_ordered_by_denominator(
            samples * control.api_sample_rate,
            1,
            fs_khz * 1000,
        );
        vstd::arithmetic::div_mod::lemma_div_pos_is_pos(
            samples * control.api_sample_rate,
            fs_khz * 1000,
        );
    }
    let n: usize = (samples as i64 * control.api_sample_rate as i64 / (fs_khz as i64 * 1000)) as usize;
    let needed: usize = if control.n_channels_api == 2 {
        2 * n
    } else {
        n
    };
    assert(needed == n * control.n_channels_api) by (nonlinear_arith)
        requires
            control.n_channels_api == 1 && needed == n || control.n_channels_api == 2 && needed == 2
                * n,
    ;
    if out_len < needed {
        Err(SilkError::DecPayloadTooLarge)
    } else {
        Ok(n)
    }
}

/// Puts the last two samples of the middle in front of a mono frame, and keeps
/// those of the frame, which has `n` samples behind them.
pub fn carry_mono_samples(stereo_state: &mut StereoDecState, buffer: &mut [i16], n: usize)
    requires
        n <= 320,
        n + 2 <= old(buffer)@.len(),
    ensures
        ({
            let b = old(buffer)@;
            let a = final(buffer)@;
            &&& a == b.update(0, old(stereo_state).s_mid[0]).update(1, old(stereo_state).s_mid[1])
            &&& *final(stereo_state) == (StereoDecState {
                s_mid: final(stereo_state).s_mid,
                ..*old(stereo_state)
            })
            &&& final(stereo_state).s_mid@ == seq![a[n as int], a[n + 1]]
        }),
{
    buffer[0] = stereo_state.s_mid[0];
    buffer[1] = stereo_state.s_mid[1];
    let kept: [i16; 2] = [buffer[n], buffer[n + 1]];
    assert(kept@ =~= seq![buffer@[n as int], buffer@[n + 1]]);
    stereo_state.s_mid = kept;
}

/// The output with the samples of a channel in their places.
pub open spec fn placed(out: Seq<i16>, samples: Seq<i16>, channel: int, channels: int) -> Seq<i16> {
    Seq::new(
        out.len(),
        |i: int|
            if i % channels == channel && i / channels < samples.len() {
                samples[i / channels]
            } else {
                out[i]
            },
    )
}

/// Puts the samples of a channel in their places in the output of `channels`
/// interleaved channels.
pub fn place_channel(samples_out: &mut [i16], samples: &[i16], channel: usize, channels: usize)
    requires
        channel < channels <= 2,
        samples@.len() * channels <= old(samples_out)@.len(),
    ensures
        final(samples_out)@ == placed(
            old(samples_out)@,
            samples@,
            channel as int,
            channels as int,
        ),
{
    let ghost before = samples_out@;
    let n: usize = samples.len();
    let room: usize = samples_out.len();
    let mut k: usize = 0;
    while k < n
        invariant
            n == samples@.len(),
            room == samples_out@.len(),
            channel < channels <= 2,
            n * channels <= room,
            k <= n,
            before.len() == room,
            samples_out@ == placed(before, samples@.take(k as int), channel as int, channels as int),
        decreases n - k,
    {
        let at: usize = if channels == 2 {
            2 * k + channel
        } else {
            k
        };
        samples_out[at] = samples[k];
        proof {
            if channels == 1 {
                assert(forall|i: int| 0 <= i ==> #[trigger] (i % 1) == 0 && i / 1 == i);
            }
            assert(samples_out@ =~= placed(
                before,
                samples@.take(k + 1),
                channel as int,
                channels as int,
            ));
        }
        k = k + 1;
    }
    assert(samples@.take(n as int) =~= samples@);
    assert(samples_out@ =~= placed(before, samples@, channel as int, channels as int));
}

/// The output of two interleaved channels with the first `n` samples of the left
/// one in both.
pub open spec fn doubled(out: Seq<i16>, n: int) -> Seq<i16> {
    Seq::new(
        out.len(),
        |i: int|
            if i % 2 == 1 && i / 2 < n {
                out[i - 1]
            } else {
                out[i]
            },
    )
}

/// Copies the first `n` samples of the left of two interleaved channels to the
/// right one.
pub fn double_left(samples_out: &mut [i16], n: usize)
    requires
        2 * n <= old(samples_out)@.len(),
    ensures
        final(samples_out)@ == doubled(old(samples_out)@, n as int),
{
    let ghost before = samples_out@;
    let room: usize = samples_out.len();
    let mut k: usize = 0;
    while k < n
        invariant
            k <= n,
            2 * n <= room,
            room == samples_out@.len(),
            room == before.len(),
            samples_out@ == doubled(before, k as int),
        decreases n - k,
    {
        samples_out[2 * k + 1] = samples_out[2 * k];
        assert(samples_out@ =~= doubled(before, k + 1));
        k = k + 1;
    }
}

/// The pitch lag of the last frame at 48 kHz; 0 where it had none.
pub open spec fn reported_lag(sr: DecoderSampleRateState) -> int {
    if sr.prev_signal_type == FrameSignalType::Voiced {
        sr.lag_prev * if sr.fs_khz == 8 {
            6
        } else if sr.fs_khz == 12 {
            4
        } else {
            3int
        }
    } else {
        0
    }
}

/// A channel after a loss: its gains start anew.
pub open spec fn gain_restarted(b: DecoderState) -> DecoderState {
    DecoderState {
        sample_rate: DecoderSampleRateState { last_gain_index: 10, ..b.sample_rate },
        ..b
    }
}

/// `a` and `told` are the decoder `b` and its control at the end of a frame.
pub open spec fn finished_from(
    b: Decoder,
    control: DecControl,
    lost_flag: DecodeFlag,
    only_middle: bool,
    a: Decoder,
    told: DecControl,
) -> bool {
    let lost = lost_flag == DecodeFlag::PacketLoss;
    &&& told == (DecControl {
        prev_pitch_lag: reported_lag(b.channel_states[0].sample_rate) as i32,
        ..control
    })
    &&& a == (Decoder {
        channel_states: a.channel_states,
        prev_decode_only_middle: if lost {
            b.prev_decode_only_middle
        } else {
            only_middle
        },
        ..b
    })
    &&& a.channel_states[0] == if lost {
        gain_restarted(b.channel_states[0])
    } else {
        b.channel_states[0]
    }
    &&& a.channel_states[1] == if lost && control.n_channels_internal == 2 {
        gain_restarted(b.channel_states[1])
    } else {
        b.channel_states[1]
    }
}

/// Ends a frame: reports its pitch lag, and keeps whether it had a side, or
/// lets the gains start anew after a loss.
pub fn decode_finish(
    decoder: &mut Decoder,
    control: &mut DecControl,
    lost_flag: DecodeFlag,
    only_middle: bool,
)
    requires
        1 <= old(control).n_channels_internal <= 2,
        ({
            let sr = old(decoder).channel_states[0].sample_rate;
            (sr.fs_khz == 8 || sr.fs_khz == 12 || sr.fs_khz == 16) && 0 <= sr.lag_prev <= 0x1_0000
        }),
    ensures
        finished_from(
            *old(decoder),
            *old(control),
            lost_flag,
            only_middle,
            *final(decoder),
            *final(control),
        ),
{
    let lag: i32 = report_lag(&decoder.channel_states[0].sample_rate);
    control.prev_pitch_lag = lag;
    match lost_flag {
        DecodeFlag::PacketLoss => {
            let first: DecoderState = restart_gain(decoder.channel_states[0]);
            let second: DecoderState = if control.n_channels_internal == 2 {
                restart_gain(decoder.channel_states[1])
            } else {
                decoder.channel_states[1]
            };
            decoder.channel_states = [first, second];
        },
        _ => {
            decoder.prev_decode_only_middle = only_middle;
        },
    }
}

fn restart_gain(b: DecoderState) -> (r: DecoderState)
    ensures
        r == gain_restarted(b),
{
    let mut r: DecoderState = b;
    r.sample_rate.last_gain_index = 10;
    r
}

fn report_lag(sr: &DecoderSampleRateState) -> (r: i32)
    requires
        sr.fs_khz == 8 || sr.fs_khz == 12 || sr.fs_khz == 16,
        0 <= sr.lag_prev <= 0x1_0000,
    ensures
        r == reported_lag(*sr),
{
    match sr.prev_signal_type {
        FrameSignalType::Voiced => {
            if sr.fs_khz == 8 {
                sr.lag_prev * 6
            } else if sr.fs_khz == 12 {
                sr.lag_prev * 4
            } else {
                sr.lag_prev * 3
            }
        },
        _ => 0,
    }
}

} // verus!
