//! Decisions in the coding of a packet.
//!
//! Sample-rate conversion, stereo analysis and the coding of frames are done
//! outside; here stands what is decided between them: whether a call is in
//! order, how a channel starts, how many bits a frame may take, what the packet
//! starts with, and what is reported.
use crate::fixed::{
    clamped, div_trunc, lemma_wrap32_range, quotient, sat16, shr32, wadd, wmul, wrap32, wsub,
};
use crate::range::{icdf_ok, ints_of_u8};
use crate::range_encoder::{enc_icdf_next, enc_patched, EncState, RangeEncoder};
use crate::range_laws::{enc_items, items_ok, law_reservation_holds, CodedItem};
use crate::silk::check_control_input::EncControl;
use crate::silk::decode_indices::ConditionalCoding;
use crate::silk::encoder_state::{
    common_fresh, no_flags, EncoderChannelState, EncoderShapeState, EncoderStateCommon,
    INPUT_BUFFER_LENGTH, LpState, NoiseShapingQuantizerState, X_BUFFER_LENGTH,
};
use crate::silk::tables_other::{
    SILK_LBRR_FLAGS_2_ICDF, SILK_LBRR_FLAGS_3_ICDF, SILK_QUANTIZATION_OFFSETS_Q10,
};
use crate::silk::types::{FrameQuantizationOffsetType, FrameSignalType, SilkError};
use vstd::arithmetic::power2::{lemma2_to64, pow2};
use vstd::prelude::*;

verus! {

/// Whether a call fills the history instead of coding a packet.
#[derive(Debug, Clone, Copy, PartialEq, Eq, Structural)]
pub enum PrefillMode {
    /// A packet is coded.
    Off,
    /// The history is filled.
    Prefill,
    /// The history is filled, and the low-pass filter is kept.
    PrefillWithState,
}

impl PrefillMode {
    pub fn is_active(self) -> (r: bool)
        ensures
            r == (self != PrefillMode::Off),
    {
        !matches!(self, PrefillMode::Off)
    }

    pub fn keep_low_pass_state(self) -> (r: bool)
        ensures
            r == (self == PrefillMode::PrefillWithState),
    {
        matches!(self, PrefillMode::PrefillWithState)
    }
}

/// State of the stereo analysis.
#[derive(Debug, Clone, Copy)]
pub struct StereoEncState {
    /// Last two samples of the middle.
    pub s_mid: [i16; 2],
    /// Smoothed width (Q14).
    pub smth_width_q14: i16,
    /// Frames of the packet without a side.
    pub mid_only_flags: [bool; 3],
    /// Predictor indices of the frames of the packet.
    pub pred_ix: [[[i8; 3]; 2]; 3],
}

/// What the stereo analysis gives for a frame.
#[derive(Debug, Clone, Copy)]
pub struct StereoConversionResult {
    pub indices: [[i8; 3]; 2],
    pub mid_only_flag: bool,
    /// Target rates of the middle and the side.
    pub mid_side_rates_bps: [i32; 2],
}

impl StereoEncState {
    /// Nothing was coded yet.
    pub open spec fn fresh(self) -> bool {
        &&& self.smth_width_q14 == 0
        &&& self.s_mid@ == seq![0i16, 0i16]
        &&& self.mid_only_flags@ == no_flags()
        &&& forall|f: int, i: int, k: int|
            0 <= f < 3 && 0 <= i < 2 && 0 <= k < 3 ==> #[trigger] self.pred_ix[f][i][k] == 0
    }
}

impl Default for StereoEncState {
    fn default() -> (r: StereoEncState)
        ensures
            r.fresh(),
    {
        let r: StereoEncState = StereoEncState {
            s_mid: [0;2],
            smth_width_q14: 0,
            mid_only_flags: [false;3],
            pred_ix: [[[0;3];2];3],
        };
        assert(r.s_mid@ =~= seq![0i16, 0i16]);
        assert(r.mid_only_flags@ =~= no_flags());
        r
    }
}

/// What an encoder keeps from packet to packet, beside its channels.
#[derive(Debug, Clone, Copy)]
pub struct PacketState {
    pub n_channels_api: i32,
    pub n_channels_internal: i32,
    /// Coded channels of the last packet.
    pub n_prev_channels_internal: i32,
    pub allow_bandwidth_switch: bool,
    pub time_since_switch_allowed_ms: i32,
    /// Smoothed bits of redundant frames.
    pub n_bits_used_lbrr: i32,
    /// Bits above the target that are yet to be saved.
    pub n_bits_exceeded: i32,
    /// The last frame had no side.
    pub prev_decode_only_middle: bool,
    pub stereo_state: StereoEncState,
}

/// An encoder: the middle or only channel, the side channel, and what belongs
/// to both.
#[derive(Debug)]
pub struct Encoder {
    pub mid: EncoderChannelState,
    pub side: EncoderChannelState,
    pub packet: PacketState,
}

impl Default for PacketState {
    fn default() -> (r: PacketState)
        ensures
            r.fresh(),
    {
        PacketState {
            n_channels_api: 1,
            n_channels_internal: 1,
            n_prev_channels_internal: 0,
            allow_bandwidth_switch: false,
            time_since_switch_allowed_ms: 0,
            n_bits_used_lbrr: 0,
            n_bits_exceeded: 0,
            prev_decode_only_middle: false,
            stereo_state: StereoEncState::default(),
        }
    }
}

impl PacketState {
    /// Nothing was coded yet.
    pub open spec fn fresh(self) -> bool {
        &&& self.n_channels_api == 1
        &&& self.n_channels_internal == 1
        &&& self.n_prev_channels_internal == 0
        &&& !self.allow_bandwidth_switch
        &&& self.time_since_switch_allowed_ms == 0
        &&& self.n_bits_used_lbrr == 0
        &&& self.n_bits_exceeded == 0
        &&& !self.prev_decode_only_middle
        &&& self.stereo_state.fresh()
    }
}

/// A channel as it is set up: without a rate, and with no frame before it.
#[verifier::opaque]
pub open spec fn channel_fresh(c: EncoderChannelState, arch: int) -> bool {
    &&& c.wf()
    &&& common_fresh(c.common, 0, arch)
    &&& c.lp_state.at_rest()
    &&& c.rest_fresh()
}

/// A channel as it is set up.
pub fn init_channel(arch: i32) -> (r: EncoderChannelState)
    ensures
        channel_fresh(r, arch as int),
{
    proof {
        reveal(channel_fresh);
    }
    let mut channel: EncoderChannelState = EncoderChannelState::default();
    channel.common.arch = arch;
    channel.common.fs_khz = 0;
    channel.common.n_frames_encoded = 0;
    channel
}

/// Quantisation offset (Q10) of a frame.
pub open spec fn offset_of(signal: FrameSignalType, offset: FrameQuantizationOffsetType) -> int {
    SILK_QUANTIZATION_OFFSETS_Q10[signal.number() / 2][offset.number()] as int
}

/// Quantisation offset (Q10) of a frame.
pub fn quantization_offset_q10(signal: FrameSignalType, offset: FrameQuantizationOffsetType) -> (r: i32)
    ensures
        r == offset_of(signal, offset),
{
    let row: usize = match signal {
        FrameSignalType::Voiced => 1,
        _ => 0,
    };
    let col: usize = match offset {
        FrameQuantizationOffsetType::Low => 0,
        FrameQuantizationOffsetType::High => 1,
    };
    let pair: [i16; 2] = SILK_QUANTIZATION_OFFSETS_Q10[row];
    pair[col] as i32
}

pub open spec fn flag(v: bool) -> i32 {
    if v {
        1
    } else {
        0
    }
}

fn flag_value(v: bool) -> (r: i32)
    ensures
        r == flag(v),
{
    if v {
        1
    } else {
        0
    }
}

/// What an encoder reports of itself.
pub open spec fn reported(c: EncoderStateCommon, lp: LpState, p: PacketState, s: EncControl) -> EncControl {
    EncControl {
        n_channels_api: p.n_channels_api,
        n_channels_internal: p.n_channels_internal,
        api_sample_rate: c.api_sample_rate_hz,
        max_internal_sample_rate: c.max_internal_sample_rate_hz,
        min_internal_sample_rate: c.min_internal_sample_rate_hz,
        desired_internal_sample_rate: c.desired_internal_sample_rate_hz,
        payload_size_ms: c.packet_size_ms,
        bit_rate: c.target_rate_bps,
        packet_loss_percentage: c.packet_loss_perc,
        complexity: c.effort.complexity,
        use_in_band_fec: flag(c.use_in_band_fec),
        use_dtx: flag(c.use_dtx),
        use_cbr: flag(c.use_cbr),
        internal_sample_rate: (c.fs_khz * 1000) as i32,
        allow_bandwidth_switch: c.allow_bandwidth_switch,
        in_wb_mode_without_variable_lp: c.fs_khz == 16 && lp.mode == 0,
        stereo_width_q14: p.stereo_state.smth_width_q14 as i32,
        signal_type: c.indices.signal_type,
        offset: offset_of(c.indices.signal_type, c.indices.quant_offset_type) as i32,
        ..s
    }
}

/// Reports the state of an encoder.
pub fn query_encoder(encoder: &Encoder, status: &mut EncControl)
    requires
        encoder.mid.common.wf(),
    ensures
        *final(status) == reported(
            encoder.mid.common,
            encoder.mid.lp_state,
            encoder.packet,
            *old(status),
        ),
{
    let c: EncoderStateCommon = encoder.mid.common;
    *status =
    EncControl {
        n_channels_api: encoder.packet.n_channels_api,
        n_channels_internal: encoder.packet.n_channels_internal,
        api_sample_rate: c.api_sample_rate_hz,
        max_internal_sample_rate: c.max_internal_sample_rate_hz,
        min_internal_sample_rate: c.min_internal_sample_rate_hz,
        desired_internal_sample_rate: c.desired_internal_sample_rate_hz,
        payload_size_ms: c.packet_size_ms,
        bit_rate: c.target_rate_bps,
        packet_loss_percentage: c.packet_loss_perc,
        complexity: c.effort.complexity,
        use_in_band_fec: flag_value(c.use_in_band_fec),
        use_dtx: flag_value(c.use_dtx),
        use_cbr: flag_value(c.use_cbr),
        internal_sample_rate: c.fs_khz * 1000,
        allow_bandwidth_switch: c.allow_bandwidth_switch,
        in_wb_mode_without_variable_lp: c.fs_khz == 16 && encoder.mid.lp_state.mode == 0,
        stereo_width_q14: encoder.packet.stereo_state.smth_width_q14 as i32,
        signal_type: c.indices.signal_type,
        offset: quantization_offset_q10(c.indices.signal_type, c.indices.quant_offset_type),
        ..*status
    };
}

/// Sets an encoder up, and reports its state.
pub fn silk_init_encoder(encoder: &mut Encoder, arch: i32, status: &mut EncControl) -> (r: Result<
    (),
    SilkError,
>)
    ensures
        r == Ok::<(), SilkError>(()),
        channel_fresh(final(encoder).mid, arch as int),
        channel_fresh(final(encoder).side, arch as int),
        final(encoder).packet.fresh(),
        *final(status) == reported(
            final(encoder).mid.common,
            final(encoder).mid.lp_state,
            final(encoder).packet,
            *old(status),
        ),
{
    proof {
        reveal(channel_fresh);
    }
    *encoder =
    Encoder { mid: init_channel(arch), side: init_channel(arch), packet: PacketState::default() };
    query_encoder(encoder, status);
    Ok(())
}

// ---------------------------------------------------------------------
// Start of a call
// ---------------------------------------------------------------------

/// What a call is about to do.
#[derive(Debug, Clone, Copy, PartialEq, Eq, Structural)]
pub struct EncodeCall {
    /// Samples of each channel of the input.
    pub samples: i32,
    /// Blocks of 10 ms in the input.
    pub n_blocks_of_10ms: i32,
    /// Frames that the input makes.
    pub tot_blocks: i32,
    /// The packet duration or the number of channels has changed.
    pub transition: bool,
    /// Settings that are put back when the call ends.
    pub payload_size_ms: i32,
    pub complexity: i32,
}

pub open spec fn blocks_of(samples: int, rate: int) -> int {
    100 * samples / rate
}

/// Why a call is refused.
pub open spec fn call_fault(ctl: EncControl, samples_len: int, prefill: PrefillMode) -> Option<
    SilkError,
> {
    let samples = samples_len / (ctl.n_channels_api as int);
    let rate = ctl.api_sample_rate as int;
    if ctl.control_error() is Some {
        ctl.control_error()
    } else if samples_len % (ctl.n_channels_api as int) != 0 || samples > i32::MAX {
        Some(SilkError::EncInputInvalidNoOfSamples)
    } else if prefill != PrefillMode::Off {
        if blocks_of(samples, rate) != 1 {
            Some(SilkError::EncInputInvalidNoOfSamples)
        } else {
            None
        }
    } else if 100 * samples % rate != 0 || 1000 * samples > ctl.payload_size_ms * rate {
        Some(SilkError::EncInputInvalidNoOfSamples)
    } else {
        None
    }
}

/// Checks a call of `samples_len` interleaved samples.
pub fn silk_encode_check(
    control: &EncControl,
    packet: &PacketState,
    packet_size_ms: i32,
    samples_len: usize,
    prefill: PrefillMode,
) -> (r: Result<EncodeCall, SilkError>)
    ensures
        match r {
            Err(e) => call_fault(*control, samples_len as int, prefill) == Some(e),
            Ok(call) => {
                let samples = samples_len as int / (control.n_channels_api as int);
                let blocks = blocks_of(samples, control.api_sample_rate as int);
                &&& call_fault(*control, samples_len as int, prefill) is None
                &&& call.samples == samples
                &&& call.n_blocks_of_10ms == blocks
                &&& call.tot_blocks == if blocks > 1 {
                    blocks / 2
                } else {
                    1
                }
                &&& call.transition == (control.payload_size_ms != packet_size_ms
                    || packet.n_channels_internal != control.n_channels_internal)
                &&& call.payload_size_ms == control.payload_size_ms
                &&& call.complexity == control.complexity
                &&& 0 <= call.n_blocks_of_10ms <= 6
                &&& 1 <= call.tot_blocks <= 3
            },
        },
{
    match control.check_control_input() {
        Ok(_) => {},
        Err(e) => return Err(e),
    }
    let channels: usize = control.n_channels_api as usize;
    if samples_len % channels != 0 {
        return Err(SilkError::EncInputInvalidNoOfSamples);
    }
    let each: usize = samples_len / channels;
    if each > 0x7fff_ffff {
        return Err(SilkError::EncInputInvalidNoOfSamples);
    }
    let samples: i64 = each as i64;
    let rate: i64 = control.api_sample_rate as i64;
    let blocks: i64 = 100 * samples / rate;
    proof {
        vstd::arithmetic::div_mod::lemma_fundamental_div_mod(100 * samples as int, rate as int);
        vstd::arithmetic::div_mod::lemma_mod_bound(100 * samples as int, rate as int);
        vstd::arithmetic::div_mod::lemma_div_pos_is_pos(100 * samples as int, rate as int);
        assert(control.payload_size_ms * rate <= 60 * rate) by (nonlinear_arith)
            requires
                control.payload_size_ms <= 60,
                rate > 0,
        ;
        if 1000 * samples <= control.payload_size_ms * rate {
            assert(blocks <= 6) by (nonlinear_arith)
                requires
                    1000 * samples <= 60 * rate,
                    100 * samples == rate * blocks + (100 * samples as int) % (rate as int),
                    0 <= (100 * samples as int) % (rate as int),
                    rate > 0,
            ;
        }
    }
    if prefill.is_active() {
        if blocks != 1 {
            return Err(SilkError::EncInputInvalidNoOfSamples);
        }
    } else {
        if 100 * samples % rate != 0 || 1000 * samples > control.payload_size_ms as i64 * rate {
            return Err(SilkError::EncInputInvalidNoOfSamples);
        }
    }
    Ok(
        EncodeCall {
            samples: samples as i32,
            n_blocks_of_10ms: blocks as i32,
            tot_blocks: if blocks > 1 {
                (blocks / 2) as i32
            } else {
                1
            },
            transition: control.payload_size_ms != packet_size_ms || packet.n_channels_internal
                != control.n_channels_internal,
            payload_size_ms: control.payload_size_ms,
            complexity: control.complexity,
        },
    )
}

/// A call whose samples are accepted codes whole blocks of 10 ms, no more than
/// its packet holds.
pub proof fn law_accepted_input_fits(ctl: EncControl, samples_len: int)
    requires
        samples_len >= 0,
        call_fault(ctl, samples_len, PrefillMode::Off) is None,
    ensures
        ({
            let samples = samples_len / (ctl.n_channels_api as int);
            let blocks = blocks_of(samples, ctl.api_sample_rate as int);
            &&& 100 * samples == blocks * ctl.api_sample_rate
            &&& 10 * blocks <= ctl.payload_size_ms
        }),
{
    let samples = samples_len / (ctl.n_channels_api as int);
    let rate = ctl.api_sample_rate as int;
    let blocks = blocks_of(samples, rate);
    vstd::arithmetic::div_mod::lemma_fundamental_div_mod(100 * samples, rate);
    assert(rate * blocks == blocks * rate) by (nonlinear_arith);
    assert(10 * blocks <= ctl.payload_size_ms) by (nonlinear_arith)
        requires
            100 * samples == blocks * rate,
            1000 * samples <= ctl.payload_size_ms * rate,
            rate > 0,
    ;
}

/// A channel at the start of a call.
#[verifier::opaque]
pub open spec fn channel_started(
    b: EncoderChannelState,
    reduced_dependency: bool,
    a: EncoderChannelState,
) -> bool {
    a == (EncoderChannelState {
        common: EncoderStateCommon {
            first_frame_after_reset: reduced_dependency || b.common.first_frame_after_reset,
            n_frames_encoded: 0,
            ..b.common
        },
        ..b
    })
}

/// Starts a call on a channel: no frame of the packet is coded yet, and the
/// first one stands alone where that is asked for.
pub fn start_channel(channel: &mut EncoderChannelState, reduced_dependency: bool)
    ensures
        channel_started(*old(channel), reduced_dependency, *final(channel)),
{
    proof {
        reveal(channel_started);
    }
    let common: EncoderStateCommon = EncoderStateCommon {
        first_frame_after_reset: reduced_dependency || channel.common.first_frame_after_reset,
        n_frames_encoded: 0,
        ..channel.common
    };
    channel.common = common;
}

/// A channel that is about to fill its history; `keep` is the filter that it
/// keeps.
#[verifier::opaque]
pub open spec fn channel_prefilling(keep: Option<LpState>, arch: int, a: EncoderChannelState) -> bool {
    &&& a.common.wf()
    &&& a.common.prefill_flag
    &&& common_fresh((EncoderStateCommon { prefill_flag: false, ..a.common }), 0, arch)
    &&& match keep {
        Some(lp) => a.lp_state == lp,
        None => a.lp_state.at_rest(),
    }
    &&& a.rest_fresh()
    &&& a.x_buf@.len() == X_BUFFER_LENGTH
    &&& a.input_buf@.len() == INPUT_BUFFER_LENGTH
}

/// Sets a channel up to fill its history.
pub fn prefill_channel(channel: &mut EncoderChannelState, keep: Option<LpState>)
    ensures
        channel_prefilling(keep, old(channel).common.arch as int, *final(channel)),
{
    proof {
        reveal(channel_fresh);
        reveal(channel_prefilling);
    }
    let mut a: EncoderChannelState = init_channel(channel.common.arch);
    a.common.controlled_since_last_payload = false;
    a.common.prefill_flag = true;
    if let Some(lp) = keep {
        a.lp_state = lp;
    }
    *channel = a;
}

/// A channel that is set up for its packet: redundancy of another kind of
/// packet is dropped, and transmission may pause where that is asked for.
pub open spec fn channel_ready(b: EncoderStateCommon, transition: bool, a: EncoderStateCommon) -> bool {
    &&& a == (EncoderStateCommon { lbrr_flags: a.lbrr_flags, in_dtx: b.use_dtx, ..b })
    &&& a.lbrr_flags@ == if b.first_frame_after_reset || transition {
        no_flags()
    } else {
        b.lbrr_flags@
    }
}

/// Completes the set-up of a channel for its packet.
pub fn ready_channel(channel: &mut EncoderChannelState, transition: bool)
    ensures
        channel_ready(old(channel).common, transition, final(channel).common),
        *final(channel) == (EncoderChannelState {
            common: final(channel).common,
            ..*old(channel)
        }),
{
    let lbrr_flags: [bool; 3] = if channel.common.first_frame_after_reset || transition {
        [false;3]
    } else {
        channel.common.lbrr_flags
    };
    assert(channel.common.first_frame_after_reset || transition ==> lbrr_flags@ =~= no_flags());
    let common: EncoderStateCommon = EncoderStateCommon {
        lbrr_flags,
        in_dtx: channel.common.use_dtx,
        ..channel.common
    };
    channel.common = common;
}

// ---------------------------------------------------------------------
// Input
// ---------------------------------------------------------------------

/// Samples that are buffered next at the internal rate, and the input samples
/// that they are made of.
pub open spec fn next_input(c: EncoderStateCommon, n_blocks_of_10ms: int) -> (int, int) {
    let missing = if c.input_buf_ix < c.frame_length {
        c.frame_length - c.input_buf_ix
    } else {
        0
    };
    let most = 10 * n_blocks_of_10ms * c.fs_khz;
    let n = if missing < most {
        missing as int
    } else {
        most
    };
    (n, n * c.api_sample_rate_hz / (c.fs_khz * 1000))
}

/// Samples that are buffered next at the internal rate, and the input samples
/// that they are made of.
pub fn samples_to_buffer(common: &EncoderStateCommon, n_blocks_of_10ms: i32) -> (r: (usize, usize))
    requires
        common.fs_khz == 8 || common.fs_khz == 12 || common.fs_khz == 16,
        0 <= common.api_sample_rate_hz <= 48000,
        0 <= n_blocks_of_10ms <= 6,
    ensures
        (r.0 as int, r.1 as int) == next_input(*common, n_blocks_of_10ms as int),
{
    let missing: usize = if common.input_buf_ix < common.frame_length {
        common.frame_length - common.input_buf_ix
    } else {
        0
    };
    let most: usize = (10 * n_blocks_of_10ms * common.fs_khz) as usize;
    let n: usize = if missing < most {
        missing
    } else {
        most
    };
    proof {
        assert(10 * n_blocks_of_10ms * common.fs_khz <= 960) by (nonlinear_arith)
            requires
                0 <= n_blocks_of_10ms <= 6,
                0 <= common.fs_khz <= 16,
        ;
        assert(0 <= n * common.api_sample_rate_hz <= 960 * 48000) by (nonlinear_arith)
            requires
                0 <= n <= 960,
                0 <= common.api_sample_rate_hz <= 48000,
        ;
    }
    (n, n * common.api_sample_rate_hz as usize / (common.fs_khz * 1000) as usize)
}

/// Middle of two samples, rounded up.
pub open spec fn middle_of(left: int, right: int) -> int {
    (left + right + 1) / 2
}

/// The middle of interleaved stereo samples.
pub fn mix_to_mono(samples_in: &[i16], offset: usize, n: usize) -> (r: Vec<i16>)
    requires
        n <= 0x1_0000,
        offset + 2 * n <= samples_in@.len(),
    ensures
        r@.len() == n,
        forall|i: int|
            0 <= i < n ==> #[trigger] r@[i] == middle_of(
                samples_in@[offset + 2 * i] as int,
                samples_in@[offset + 2 * i + 1] as int,
            ),
{
    let total: usize = samples_in.len();
    let mut r: Vec<i16> = Vec::new();
    for i in 0..n
        invariant
            n <= 0x1_0000,
            total == samples_in@.len(),
            offset + 2 * n <= total,
            r@.len() == i,
            forall|j: int|
                0 <= j < i ==> #[trigger] r@[j] == middle_of(
                    samples_in@[offset + 2 * j] as int,
                    samples_in@[offset + 2 * j + 1] as int,
                ),
    {
        let sum: i32 = samples_in[offset + 2 * i] as i32 + samples_in[offset + 2 * i + 1] as i32;
        proof {
            lemma2_to64();
        }
        r.push(sat16(shr32(sum + 1, 1)));
    }
    r
}

/// One side of interleaved stereo samples.
pub fn take_side(samples_in: &[i16], offset: usize, n: usize, side: usize) -> (r: Vec<i16>)
    requires
        n <= 0x1_0000,
        side < 2,
        offset + 2 * n <= samples_in@.len(),
    ensures
        r@.len() == n,
        forall|i: int| 0 <= i < n ==> #[trigger] r@[i] == samples_in@[offset + 2 * i + side],
{
    let total: usize = samples_in.len();
    let mut r: Vec<i16> = Vec::new();
    for i in 0..n
        invariant
            n <= 0x1_0000,
            side < 2,
            total == samples_in@.len(),
            offset + 2 * n <= total,
            r@.len() == i,
            forall|j: int| 0 <= j < i ==> #[trigger] r@[j] == samples_in@[offset + 2 * j + side],
    {
        r.push(samples_in[offset + 2 * i + side]);
    }
    r
}

// ---------------------------------------------------------------------
// Head of a packet
// ---------------------------------------------------------------------

/// Flags in front of a packet: for each channel one of each frame and one of
/// its redundancy.
pub open spec fn header_bits(frames: int, channels: int) -> int {
    (frames + 1) * channels
}

/// Model of the room for the flags: a symbol that leaves them zero.
pub open spec fn header_icdf(frames: int, channels: int) -> Seq<int> {
    seq![256 - pow2((8 - header_bits(frames, channels)) as nat) as int, 0int]
}

/// Which frames are sent again, as a number with a bit for each.
pub open spec fn lbrr_symbol(flags: Seq<bool>, frames: int) -> int {
    (if frames > 0 && flags[0] {
        1int
    } else {
        0
    }) + (if frames > 1 && flags[1] {
        2int
    } else {
        0
    }) + (if frames > 2 && flags[2] {
        4int
    } else {
        0
    })
}

/// Which frames are sent again, as a number with a bit for each.
pub fn lbrr_symbol_of(flags: &[bool; 3], frames: usize) -> (r: usize)
    requires
        frames <= 3,
    ensures
        r == lbrr_symbol(flags@, frames as int),
        r < 8,
        frames <= 2 ==> r < 4,
        frames <= 1 ==> r < 2,
{
    let mut symbol: usize = 0;
    if frames > 0 && flags[0] {
        symbol = symbol + 1;
    }
    if frames > 1 && flags[1] {
        symbol = symbol + 2;
    }
    if frames > 2 && flags[2] {
        symbol = symbol + 4;
    }
    symbol
}

pub open spec fn lbrr_flags_icdf(frames: int) -> Seq<int> {
    if frames == 2 {
        ints_of_u8(SILK_LBRR_FLAGS_2_ICDF@)
    } else {
        ints_of_u8(SILK_LBRR_FLAGS_3_ICDF@)
    }
}

/// The stream after the redundancy of a channel was announced.
pub open spec fn announced(s: EncState, symbol: int, frames: int) -> EncState {
    if symbol > 0 && frames > 1 {
        enc_icdf_next(s, lbrr_flags_icdf(frames), 8, symbol - 1)
    } else {
        s
    }
}

/// Leaves room for the flags in front of a packet.
pub fn encode_header_room(range_encoder: &mut RangeEncoder, frames: usize, channels: usize)
    requires
        old(range_encoder).wf(),
        old(range_encoder).room(1),
        1 <= frames <= 3,
        1 <= channels <= 2,
    ensures
        final(range_encoder).wf(),
        final(range_encoder)@ == enc_icdf_next(
            old(range_encoder)@,
            header_icdf(frames as int, channels as int),
            8,
            0,
        ),
        final(range_encoder)@.n <= old(range_encoder)@.n + 3,
        final(range_encoder).capacity() == old(range_encoder).capacity(),
{
    proof {
        lemma2_to64();
    }
    let bits: usize = (frames + 1) * channels;
    let first: u8 = if bits == 2 {
        192
    } else if bits == 3 {
        224
    } else if bits == 4 {
        240
    } else if bits == 6 {
        252
    } else {
        255
    };
    let icdf: [u8; 2] = [first, 0];
    proof {
        let h = header_bits(frames as int, channels as int);
        assert(h == bits) by (nonlinear_arith)
            requires
                h == (frames + 1) * channels,
                bits == (frames + 1) * channels,
        ;
        assert(h == 2 || h == 3 || h == 4 || h == 6 || h == 8);
        assert(ints_of_u8(icdf@) =~= header_icdf(frames as int, channels as int));
        lemma_header_icdf_ok(ints_of_u8(icdf@));
    }
    range_encoder.encode_icdf(0, &icdf, 8);
}

proof fn lemma_header_icdf_ok(icdf: Seq<int>)
    requires
        icdf.len() == 2,
        0 < icdf[0] < 256,
        icdf[1] == 0,
    ensures
        icdf_ok(icdf, 8),
{
    lemma2_to64();
}

/// Whatever is coded behind the room for the flags, the flags can be filled in
/// afterwards.
pub proof fn law_flags_can_be_filled(frames: int, channels: int, rest: Seq<CodedItem>)
    requires
        1 <= frames <= 3,
        1 <= channels <= 2,
        items_ok(rest),
    ensures
        ({
            let room = CodedItem::Icdf {
                table: header_icdf(frames, channels),
                ftb: 8,
                symbol: 0,
            };
            let s = enc_items(seq![room] + rest);
            s.low + s.rng <= pow2((31 + 8 * s.n - header_bits(frames, channels)) as nat)
        }),
{
    let h = header_bits(frames, channels);
    assert(2 <= h <= 8) by (nonlinear_arith)
        requires
            h == (frames + 1) * channels,
            1 <= frames <= 3,
            1 <= channels <= 2,
    ;
    law_reservation_holds(h as nat, rest);
}

/// Announces which frames of a channel are sent again.
pub fn encode_lbrr_symbol(range_encoder: &mut RangeEncoder, symbol: usize, frames: usize)
    requires
        old(range_encoder).wf(),
        old(range_encoder).room(1),
        1 <= frames <= 3,
        frames == 2 ==> symbol < 4,
        symbol < 8,
    ensures
        final(range_encoder).wf(),
        final(range_encoder)@ == announced(old(range_encoder)@, symbol as int, frames as int),
        final(range_encoder)@.n <= old(range_encoder)@.n + 3,
        final(range_encoder).capacity() == old(range_encoder).capacity(),
{
    proof {
        lemma2_to64();
    }
    if symbol > 0 && frames > 1 {
        if frames == 2 {
            proof {
                lemma_lbrr_tables();
            }
            range_encoder.encode_icdf(symbol - 1, &SILK_LBRR_FLAGS_2_ICDF, 8);
        } else {
            proof {
                lemma_lbrr_tables();
            }
            range_encoder.encode_icdf(symbol - 1, &SILK_LBRR_FLAGS_3_ICDF, 8);
        }
    }
}

proof fn lemma_lbrr_tables()
    ensures
        icdf_ok(ints_of_u8(SILK_LBRR_FLAGS_2_ICDF@), 8),
        icdf_ok(ints_of_u8(SILK_LBRR_FLAGS_3_ICDF@), 8),
        SILK_LBRR_FLAGS_2_ICDF@.len() == 3,
        SILK_LBRR_FLAGS_3_ICDF@.len() == 7,
        forall|i: int|
            0 < i < 3 ==> SILK_LBRR_FLAGS_2_ICDF@[i - 1] > #[trigger] SILK_LBRR_FLAGS_2_ICDF@[i],
        forall|i: int|
            0 < i < 7 ==> SILK_LBRR_FLAGS_3_ICDF@[i - 1] > #[trigger] SILK_LBRR_FLAGS_3_ICDF@[i],
        pow2(8) == 256,
{
    lemma2_to64();
    crate::silk::shell_coder::lemma_u8_table(SILK_LBRR_FLAGS_2_ICDF@);
    crate::silk::shell_coder::lemma_u8_table(SILK_LBRR_FLAGS_3_ICDF@);
}

/// How a redundant frame relates to the one before.
pub fn lbrr_coding(flags: &[bool; 3], i: usize) -> (r: ConditionalCoding)
    requires
        i < 3,
    ensures
        r == (if i > 0 && flags[i - 1] {
            ConditionalCoding::Conditional
        } else {
            ConditionalCoding::Independent
        }),
{
    if i > 0 && flags[i - 1] {
        ConditionalCoding::Conditional
    } else {
        ConditionalCoding::Independent
    }
}

// ---------------------------------------------------------------------
// Bits
// ---------------------------------------------------------------------

/// Milliseconds over which a surplus of bits is saved again.
pub const BITRESERVOIR_DECAY_TIME_MS: i32 = 500;

/// Smoothed bits of redundancy, after `bits` of them.
pub open spec fn smoothed_lbrr(before: int, bits: int) -> int {
    if bits < 10 {
        0
    } else if before < 10 {
        bits
    } else {
        (before + bits) / 2
    }
}

/// Bits of a frame.
pub open spec fn frame_bits(ctl: EncControl, redundant: int, frames: int) -> int {
    div_trunc(wrap32(ctl.bit_rate * ctl.payload_size_ms / 1000 - redundant), frames)
}

/// The target bitrate of a frame: its share of the packet, less what earlier
/// packets and the earlier frames of this one took too much.
pub open spec fn target_rate(
    ctl: EncControl,
    prefill: bool,
    redundant: int,
    exceeded: int,
    frames: int,
    coded: int,
    tell: int,
) -> int {
    let bits = frame_bits(
        ctl,
        if prefill {
            0
        } else {
            redundant
        },
        frames,
    );
    let share = wrap32(
        bits * if ctl.payload_size_ms == 10 {
            100int
        } else {
            50int
        },
    );
    let saved = wrap32(
        share - div_trunc(wrap32(exceeded * 1000), BITRESERVOIR_DECAY_TIME_MS as int),
    );
    let balanced = if !prefill && coded > 0 {
        let balance = wrap32(wrap32(tell - redundant) - wrap32(bits * coded));
        wrap32(saved - div_trunc(wrap32(balance * 1000), BITRESERVOIR_DECAY_TIME_MS as int))
    } else {
        saved
    };
    if ctl.bit_rate < 5000 {
        clamped(balanced, ctl.bit_rate as int, 5000)
    } else {
        clamped(balanced, 5000, ctl.bit_rate as int)
    }
}

/// The target bitrate of a frame. `lbrr_bits` are the bits of redundancy of the
/// packet, `coded` the frames of the packet before this one, and `tell` the bits
/// that they took.
pub fn frame_target_rate(
    packet: &mut PacketState,
    control: &EncControl,
    prefill: bool,
    lbrr_bits: i32,
    frames: i32,
    coded: i32,
    tell: i32,
) -> (r: i32)
    requires
        control.control_error() is None,
        1 <= frames <= 3,
        0 <= coded <= 3,
        0 <= old(packet).n_bits_used_lbrr,
    ensures
        ({
            let redundant = if prefill {
                old(packet).n_bits_used_lbrr as int
            } else {
                smoothed_lbrr(old(packet).n_bits_used_lbrr as int, lbrr_bits as int)
            };
            &&& *final(packet) == (PacketState {
                n_bits_used_lbrr: redundant as i32,
                ..*old(packet)
            })
            &&& 0 <= redundant <= i32::MAX
            &&& r == target_rate(
                *control,
                prefill,
                redundant,
                old(packet).n_bits_exceeded as int,
                frames as int,
                coded as int,
                tell as int,
            )
            &&& 5000 <= r <= control.bit_rate
        }),
{
    if !prefill {
        if lbrr_bits < 10 {
            packet.n_bits_used_lbrr = 0;
        } else if packet.n_bits_used_lbrr < 10 {
            packet.n_bits_used_lbrr = lbrr_bits;
        } else {
            packet.n_bits_used_lbrr =
            ((packet.n_bits_used_lbrr as i64 + lbrr_bits as i64) / 2) as i32;
        }
    }
    let redundant: i32 = if prefill {
        0
    } else {
        packet.n_bits_used_lbrr
    };
    proof {
        assert(0 <= control.bit_rate * control.payload_size_ms <= 80000 * 60) by (nonlinear_arith)
            requires
                0 <= control.bit_rate <= 80000,
                0 <= control.payload_size_ms <= 60,
        ;
    }
    let bits: i32 = quotient(
        wsub(control.bit_rate * control.payload_size_ms / 1000, redundant),
        frames,
    );
    let mut rate: i32 = wmul(
        bits,
        if control.payload_size_ms == 10 {
            100
        } else {
            50
        },
    );
    rate = wsub(rate, quotient(wmul(packet.n_bits_exceeded, 1000), BITRESERVOIR_DECAY_TIME_MS));
    if !prefill && coded > 0 {
        let balance: i32 = wsub(wsub(tell, packet.n_bits_used_lbrr), wmul(bits, coded));
        rate = wsub(rate, quotient(wmul(balance, 1000), BITRESERVOIR_DECAY_TIME_MS));
    }
    if rate < 5000 {
        5000
    } else if rate > control.bit_rate {
        control.bit_rate
    } else {
        rate
    }
}

/// A packet that starts without redundancy and without a surplus is coded at the
/// bitrate that was asked for: the target lies within one bit per frame of it,
/// and is that bitrate where the packet has a whole number of bits per frame.
pub proof fn law_target_is_the_bit_rate(ctl: EncControl, prefill: bool, frames: int, tell: int)
    requires
        ctl.control_error() is None,
        frames == 1 && ctl.payload_size_ms == 10 || 20 * frames == ctl.payload_size_ms,
    ensures
        ({
            let rate = target_rate(ctl, prefill, 0, 0, frames, 0, tell);
            let frame_ms = if ctl.payload_size_ms == 10 {
                10int
            } else {
                20int
            };
            &&& rate <= ctl.bit_rate
            &&& rate * frame_ms > ctl.bit_rate * frame_ms - 1000
            &&& (ctl.bit_rate * frame_ms) % 1000 == 0 ==> rate == ctl.bit_rate
        }),
{
    let ms = ctl.payload_size_ms as int;
    let rate = ctl.bit_rate as int;
    let bits = frame_bits(ctl, 0, frames);
    lemma_frame_bits(ctl, 0, frames);
    lemma_wrap32_range(0);
    lemma_wrap32_range(bits * 100);
    lemma_wrap32_range(bits * 50);
}

/// A surplus of earlier packets is paid back over half a second: each bit lowers
/// the target by two bits per second, down to the smallest target.
pub proof fn law_surplus_lowers_target(
    ctl: EncControl,
    prefill: bool,
    redundant: int,
    exceeded: int,
    frames: int,
    tell: int,
)
    requires
        ctl.control_error() is None,
        0 <= redundant <= 100000,
        0 <= exceeded <= 10000,
        frames == 1 && ctl.payload_size_ms == 10 || 20 * frames == ctl.payload_size_ms,
    ensures
        ({
            let free = target_rate(ctl, prefill, redundant, 0, frames, 0, tell);
            let rate = target_rate(ctl, prefill, redundant, exceeded, frames, 0, tell);
            rate == if free - 2 * exceeded < 5000 {
                5000
            } else {
                free - 2 * exceeded
            }
        }),
{
    let ms = ctl.payload_size_ms as int;
    let rate = ctl.bit_rate as int;
    let red = if prefill {
        0
    } else {
        redundant
    };
    let bits = frame_bits(ctl, red, frames);
    lemma_frame_bits(ctl, red, frames);
    lemma_wrap32_range(bits * 50);
    lemma_wrap32_range(bits * 100);
    lemma_wrap32_range(0);
    lemma_wrap32_range(exceeded * 1000);
    assert(div_trunc(exceeded * 1000, 500) == 2 * exceeded);
    let share = bits * if ms == 10 {
        100int
    } else {
        50int
    };
    lemma_wrap32_range(share - 0);
    lemma_wrap32_range(share - 2 * exceeded);
}

/// Redundancy takes its bits from the frame: in a packet of one frame each bit
/// lowers the target by as many bits per second as there are packets in one, down
/// to the smallest target. While the history is filled, redundancy counts for
/// nothing.
pub proof fn law_redundancy_lowers_target(ctl: EncControl, redundant: int, tell: int)
    requires
        ctl.control_error() is None,
        ctl.payload_size_ms == 10 || ctl.payload_size_ms == 20,
        0 <= redundant <= 100000,
    ensures
        ({
            let free = target_rate(ctl, false, 0, 0, 1, 0, tell);
            let rate = target_rate(ctl, false, redundant, 0, 1, 0, tell);
            let lost = if ctl.payload_size_ms == 10 {
                100 * redundant
            } else {
                50 * redundant
            };
            &&& rate == if free - lost < 5000 {
                5000
            } else {
                free - lost
            }
            &&& target_rate(ctl, true, redundant, 0, 1, 0, tell) == free
        }),
{
    lemma_frame_bits(ctl, redundant, 1);
    lemma_frame_bits(ctl, 0, 1);
    let bits = frame_bits(ctl, redundant, 1);
    let all = frame_bits(ctl, 0, 1);
    assert(bits == all - redundant);
    lemma_wrap32_range(0);
    lemma_wrap32_range(bits * 100);
    lemma_wrap32_range(bits * 50);
    lemma_wrap32_range(all * 100);
    lemma_wrap32_range(all * 50);
}

/// What the earlier frames of a packet took too much, the next ones save: each
/// bit more lowers the target by two bits per second between its limits, and
/// never raises it.
pub proof fn law_earlier_frames_lower_target(
    ctl: EncControl,
    redundant: int,
    exceeded: int,
    frames: int,
    coded: int,
    tell: int,
    more: int,
)
    requires
        ctl.control_error() is None,
        0 <= redundant <= 100000,
        0 <= exceeded <= 10000,
        1 <= coded < frames <= 3,
        0 <= tell <= more <= 100000,
    ensures
        ({
            let rate = target_rate(ctl, false, redundant, exceeded, frames, coded, tell);
            let lower = target_rate(ctl, false, redundant, exceeded, frames, coded, more);
            &&& lower <= rate
            &&& 5000 < lower && rate < ctl.bit_rate ==> rate - lower == 2 * (more - tell)
        }),
{
    lemma_balanced_rate(ctl, redundant, exceeded, frames, coded, tell);
    lemma_balanced_rate(ctl, redundant, exceeded, frames, coded, more);
}

/// Where the earlier frames of a packet took the bits that were theirs, the
/// target of the next is what that of the first was.
pub proof fn law_even_frames_keep_target(
    ctl: EncControl,
    redundant: int,
    exceeded: int,
    frames: int,
    coded: int,
    tell: int,
)
    requires
        ctl.control_error() is None,
        0 <= redundant <= ctl.bit_rate * ctl.payload_size_ms / 1000,
        0 <= exceeded <= 10000,
        1 <= coded < frames <= 3,
        tell == redundant + coded * ((ctl.bit_rate * ctl.payload_size_ms / 1000 - redundant)
            / frames),
    ensures
        target_rate(ctl, false, redundant, exceeded, frames, coded, tell) == target_rate(
            ctl,
            false,
            redundant,
            exceeded,
            frames,
            0,
            0,
        ),
{
    lemma_frame_bits(ctl, 0, frames);
    lemma_frame_bits(ctl, redundant, frames);
    let bits = frame_bits(ctl, redundant, frames);
    assert(bits == (ctl.bit_rate * ctl.payload_size_ms / 1000 - redundant) / frames);
    assert(coded == 1 || coded == 2);
    assert(coded * bits == bits * coded) by (nonlinear_arith);
    assert(coded == 1 ==> bits * coded == bits);
    assert(coded == 2 ==> bits * coded == 2 * bits) by (nonlinear_arith);
    lemma_balanced_rate(ctl, redundant, exceeded, frames, coded, tell);
    lemma_wrap32_range(exceeded * 1000);
    let share = bits * if ctl.payload_size_ms == 10 {
        100int
    } else {
        50int
    };
    lemma_wrap32_range(share);
    lemma_wrap32_range(share - 2 * exceeded);
}

/// The target of a later frame without reductions.
proof fn lemma_balanced_rate(
    ctl: EncControl,
    redundant: int,
    exceeded: int,
    frames: int,
    coded: int,
    tell: int,
)
    requires
        ctl.control_error() is None,
        0 <= redundant <= 100000,
        0 <= exceeded <= 10000,
        1 <= coded < frames <= 3,
        0 <= tell <= 100000,
    ensures
        ({
            let bits = frame_bits(ctl, redundant, frames);
            let share = bits * if ctl.payload_size_ms == 10 {
                100int
            } else {
                50int
            };
            target_rate(ctl, false, redundant, exceeded, frames, coded, tell) == clamped(
                share - 2 * exceeded - 2 * (tell - redundant - bits * coded),
                5000,
                ctl.bit_rate as int,
            )
        }),
{
    lemma_frame_bits(ctl, redundant, frames);
    let bits = frame_bits(ctl, redundant, frames);
    let share = bits * if ctl.payload_size_ms == 10 {
        100int
    } else {
        50int
    };
    assert(coded == 1 || coded == 2);
    assert(coded == 1 ==> bits * coded == bits);
    assert(coded == 2 ==> bits * coded == 2 * bits) by (nonlinear_arith);
    let balance = tell - redundant - bits * coded;
    lemma_wrap32_range(share);
    lemma_wrap32_range(exceeded * 1000);
    lemma_wrap32_range(share - 2 * exceeded);
    lemma_wrap32_range(tell - redundant);
    lemma_wrap32_range(bits * coded);
    lemma_wrap32_range(balance);
    lemma_wrap32_range(balance * 1000);
    assert(div_trunc(balance * 1000, 500) == 2 * balance);
    lemma_wrap32_range(share - 2 * exceeded - 2 * balance);
}

/// The smoothed redundancy is none where a packet holds next to none, and else
/// lies between what it was and what the packet holds, which it keeps where
/// packets hold the same.
pub proof fn law_redundancy_is_smoothed(before: int, bits: int)
    ensures
        bits < 10 ==> smoothed_lbrr(before, bits) == 0,
        bits >= 10 && before < 10 ==> smoothed_lbrr(before, bits) == bits,
        10 <= bits <= before ==> bits <= smoothed_lbrr(before, bits) <= before,
        10 <= before <= bits ==> before <= smoothed_lbrr(before, bits) <= bits,
        bits >= 10 && before - bits >= 2 ==> smoothed_lbrr(before, bits) < before,
        before >= 10 && bits - before >= 2 ==> smoothed_lbrr(before, bits) > before,
{
}

/// The bits of a frame, and that no frame gets more than its time's worth.
proof fn lemma_frame_bits(ctl: EncControl, redundant: int, frames: int)
    requires
        ctl.control_error() is None,
        0 <= redundant <= 100000,
        1 <= frames <= 3,
    ensures
        -100000 <= frame_bits(ctl, redundant, frames) <= 4800,
        ctl.bit_rate * ctl.payload_size_ms / 1000 <= 4800,
        frame_bits(ctl, redundant, frames) == div_trunc(
            ctl.bit_rate * ctl.payload_size_ms / 1000 - redundant,
            frames,
        ),
        frames == 1 && ctl.payload_size_ms == 10 ==> frame_bits(ctl, redundant, frames) * 100
            <= ctl.bit_rate,
        20 * frames == ctl.payload_size_ms ==> frame_bits(ctl, redundant, frames) * 50
            <= ctl.bit_rate,
        frames == 1 && ctl.payload_size_ms == 10 ==> frame_bits(ctl, 0, frames)
            == ctl.bit_rate / 100,
        20 * frames == ctl.payload_size_ms ==> frame_bits(ctl, 0, frames) == ctl.bit_rate / 50,
{
    let ms = ctl.payload_size_ms as int;
    let rate = ctl.bit_rate as int;
    assert(rate * ms == if ms == 10 {
        rate * 10
    } else if ms == 20 {
        rate * 20
    } else if ms == 40 {
        rate * 40
    } else {
        rate * 60
    }) by (nonlinear_arith)
        requires
            ms == 10 || ms == 20 || ms == 40 || ms == 60,
    ;
    assert(0 <= rate * ms <= 4800000);
    lemma_wrap32_range(rate * ms / 1000 - redundant);
    lemma_wrap32_range(rate * ms / 1000);
    if frames == 1 {
    } else if frames == 2 {
    } else {
        assert(frames == 3);
    }
}

/// Most bits of a frame of channel `n`, and whether it has to use them all: the
/// first of several frames takes less than its share of the packet's bits, and
/// the middle leaves room for a side.
pub open spec fn channel_budget(
    ctl: EncControl,
    tot_blocks: int,
    block: int,
    n: int,
    side_rate: int,
) -> (int, bool) {
    let most = ctl.max_bits as int;
    let part = if tot_blocks == 2 && block == 0 {
        div_trunc(wrap32(most * 3), 5)
    } else if tot_blocks == 3 && block == 0 {
        div_trunc(wrap32(most * 2), 5)
    } else if tot_blocks == 3 && block == 1 {
        div_trunc(wrap32(most * 3), 4)
    } else {
        most
    };
    let full = ctl.use_cbr != 0 && block == tot_blocks - 1;
    if n == 0 && ctl.n_channels_internal == 2 && side_rate > 0 {
        (wrap32(part - div_trunc(most, 2 * tot_blocks)), false)
    } else {
        (part, full)
    }
}

/// Most bits of a frame of channel `n`, and whether it has to use them all.
pub fn bits_for_channel(
    control: &EncControl,
    tot_blocks: i32,
    block: i32,
    n: i32,
    side_rate_bps: i32,
) -> (r: (i32, bool))
    requires
        1 <= tot_blocks <= 3,
    ensures
        (r.0 as int, r.1) == channel_budget(
            *control,
            tot_blocks as int,
            block as int,
            n as int,
            side_rate_bps as int,
        ),
{
    let most: i32 = control.max_bits;
    let part: i32 = if tot_blocks == 2 && block == 0 {
        quotient(wmul(most, 3), 5)
    } else if tot_blocks == 3 && block == 0 {
        quotient(wmul(most, 2), 5)
    } else if tot_blocks == 3 && block == 1 {
        quotient(wmul(most, 3), 4)
    } else {
        most
    };
    if n == 0 && control.n_channels_internal == 2 && side_rate_bps > 0 {
        (wsub(part, quotient(most, 2 * tot_blocks)), false)
    } else {
        (part, control.use_cbr != 0 && block == tot_blocks - 1)
    }
}

/// How a frame of channel `n` relates to the one before: the first frame of a
/// packet stands alone, and so does a side frame after one without a side.
pub open spec fn coding_of(frames_encoded: int, n: int, only_middle_before: bool) -> ConditionalCoding {
    if frames_encoded <= n {
        ConditionalCoding::Independent
    } else if n > 0 && only_middle_before {
        ConditionalCoding::IndependentNoLtpScaling
    } else {
        ConditionalCoding::Conditional
    }
}

/// How a frame of channel `n` relates to the one before. `frames_encoded` are
/// the frames of the first channel before this block.
pub fn coding_for_channel(frames_encoded: i32, n: i32, only_middle_before: bool) -> (r:
    ConditionalCoding)
    ensures
        r == coding_of(frames_encoded as int, n as int, only_middle_before),
{
    if frames_encoded <= n {
        ConditionalCoding::Independent
    } else if n > 0 && only_middle_before {
        ConditionalCoding::IndependentNoLtpScaling
    } else {
        ConditionalCoding::Conditional
    }
}

// ---------------------------------------------------------------------
// Frames
// ---------------------------------------------------------------------

/// Takes what the stereo analysis gave for frame `frame_idx`.
pub fn store_stereo_result(
    state: &mut StereoEncState,
    frame_idx: usize,
    result: &StereoConversionResult,
)
    ensures
        ({
            let at = if frame_idx < 2 {
                frame_idx as int
            } else {
                2
            };
            &&& final(state).s_mid == old(state).s_mid
            &&& final(state).smth_width_q14 == old(state).smth_width_q14
            &&& final(state).mid_only_flags@ == old(state).mid_only_flags@.update(
                at,
                result.mid_only_flag,
            )
            &&& final(state).pred_ix@ == old(state).pred_ix@.update(at, result.indices)
        }),
{
    let at: usize = if frame_idx < 2 {
        frame_idx
    } else {
        2
    };
    state.mid_only_flags[at] = result.mid_only_flag;
    state.pred_ix[at] = result.indices;
}

/// A side channel that was left out starts anew.
pub open spec fn side_reset(b: EncoderChannelState, a: EncoderChannelState) -> bool {
    &&& a == (EncoderChannelState {
        common: a.common,
        lp_state: a.lp_state,
        shape_state: EncoderShapeState { last_gain_index: 10 },
        ..b
    })
    &&& a.lp_state == (LpState { in_lp_state: a.lp_state.in_lp_state, ..b.lp_state })
    &&& a.lp_state.in_lp_state@ == seq![0i32, 0i32]
    &&& a.common == (EncoderStateCommon {
        nsq_state: NoiseShapingQuantizerState { lag_prev: 100, prev_gain_q16: 65536 },
        prev_nlsf_q15: a.common.prev_nlsf_q15,
        prev_lag: 100,
        prev_signal_type: FrameSignalType::Inactive,
        first_frame_after_reset: true,
        ..b.common
    })
    &&& a.common.prev_nlsf_q15@ == Seq::new(16, |i: int| 0i16)
}

/// Resets a side channel that was left out.
pub fn reset_side_channel(channel: &mut EncoderChannelState)
    ensures
        side_reset(*old(channel), *final(channel)),
{
    let zeros: [i16; 16] = [0;16];
    let rest: [i32; 2] = [0;2];
    assert(zeros@ =~= Seq::new(16, |i: int| 0i16));
    assert(rest@ =~= seq![0i32, 0i32]);
    let common: EncoderStateCommon = EncoderStateCommon {
        nsq_state: NoiseShapingQuantizerState { lag_prev: 100, prev_gain_q16: 65536 },
        prev_nlsf_q15: zeros,
        prev_lag: 100,
        prev_signal_type: FrameSignalType::Inactive,
        first_frame_after_reset: true,
        ..channel.common
    };
    channel.common = common;
    channel.lp_state.in_lp_state = rest;
    channel.shape_state = EncoderShapeState { last_gain_index: 10 };
}

/// Puts the last two samples of the middle in front of a mono frame, and keeps
/// those of the frame.
pub fn carry_mono_samples(channel: &mut EncoderChannelState, state: &mut StereoEncState)
    requires
        old(channel).common.frame_length + 2 <= old(channel).input_buf@.len(),
        old(channel).common.frame_length <= 0x1_0000,
    ensures
        ({
            let n = old(channel).common.frame_length as int;
            let b = old(channel).input_buf@;
            let a = final(channel).input_buf@;
            &&& *final(channel) == (EncoderChannelState {
                input_buf: final(channel).input_buf,
                ..*old(channel)
            })
            &&& a == b.update(0, old(state).s_mid[0]).update(1, old(state).s_mid[1])
            &&& *final(state) == (StereoEncState { s_mid: final(state).s_mid, ..*old(state) })
            &&& final(state).s_mid@ == seq![a[n], a[n + 1]]
        }),
{
    let n: usize = channel.common.frame_length;
    let first: i16 = state.s_mid[0];
    let second: i16 = state.s_mid[1];
    channel.input_buf[0] = first;
    channel.input_buf[1] = second;
    let kept: [i16; 2] = [channel.input_buf[n], channel.input_buf[n + 1]];
    assert(kept@ =~= seq![channel.input_buf@[n as int], channel.input_buf@[n + 1]]);
    state.s_mid = kept;
}

/// A channel after its frame is coded or left out.
pub fn frame_done(channel: &mut EncoderChannelState)
    requires
        old(channel).common.n_frames_encoded < 3,
    ensures
        *final(channel) == (EncoderChannelState {
            common: EncoderStateCommon {
                controlled_since_last_payload: false,
                input_buf_ix: 0,
                n_frames_encoded: (old(channel).common.n_frames_encoded + 1) as usize,
                ..old(channel).common
            },
            ..*old(channel)
        }),
{
    let common: EncoderStateCommon = EncoderStateCommon {
        controlled_since_last_payload: false,
        input_buf_ix: 0,
        n_frames_encoded: channel.common.n_frames_encoded + 1,
        ..channel.common
    };
    channel.common = common;
}

// ---------------------------------------------------------------------
// End of a packet
// ---------------------------------------------------------------------

pub open spec fn bit(v: bool) -> int {
    if v {
        1
    } else {
        0
    }
}

/// The flags of a channel as a number: those of its frames, then that of its
/// redundancy.
pub open spec fn channel_flags(vad: Seq<bool>, lbrr: bool, frames: int) -> int {
    2 * frame_flags(vad, frames) + bit(lbrr)
}

/// The flags of the first `k` frames as a number.
pub open spec fn frame_flags(vad: Seq<bool>, k: int) -> int
    decreases k,
{
    if k <= 0 {
        0
    } else {
        2 * frame_flags(vad, k - 1) + bit(vad[k - 1])
    }
}

fn add_channel_flags(flags: u32, vad: &[bool; 3], lbrr: bool, frames: usize) -> (r: u32)
    requires
        frames <= 3,
        flags < 16,
    ensures
        r == flags * (if frames == 0 {
            2int
        } else if frames == 1 {
            4
        } else if frames == 2 {
            8
        } else {
            16
        }) + channel_flags(vad@, lbrr, frames as int),
        frames == 1 ==> channel_flags(vad@, lbrr, 1) < 4,
        frames == 2 ==> channel_flags(vad@, lbrr, 2) < 8,
        frames == 3 ==> channel_flags(vad@, lbrr, 3) < 16,
{
    reveal_with_fuel(frame_flags, 4);
    let mut r: u32 = flags;
    if frames > 0 {
        r = 2 * r + if vad[0] {
            1
        } else {
            0
        };
    }
    if frames > 1 {
        r = 2 * r + if vad[1] {
            1
        } else {
            0
        };
    }
    if frames > 2 {
        r = 2 * r + if vad[2] {
            1
        } else {
            0
        };
    }
    2 * r + if lbrr {
        1
    } else {
        0
    }
}

/// The flags of a packet as a number.
pub open spec fn packet_flags(e: Encoder, frames: int, channels: int) -> int {
    let mid = channel_flags(e.mid.common.vad_flags@, e.mid.common.lbrr_flag, frames);
    if channels == 2 {
        mid * pow2((frames + 1) as nat) + channel_flags(
            e.side.common.vad_flags@,
            e.side.common.lbrr_flag,
            frames,
        )
    } else {
        mid
    }
}

/// The flags of a packet, for the room in front of it.
pub fn header_flags(encoder: &Encoder, frames: usize, channels: usize) -> (r: u32)
    requires
        1 <= frames <= 3,
        1 <= channels <= 2,
    ensures
        r == packet_flags(*encoder, frames as int, channels as int),
        r < pow2(header_bits(frames as int, channels as int) as nat),
{
    proof {
        lemma2_to64();
    }
    let mid: u32 = add_channel_flags(
        0,
        &encoder.mid.common.vad_flags,
        encoder.mid.common.lbrr_flag,
        frames,
    );
    if channels == 2 {
        add_channel_flags(mid, &encoder.side.common.vad_flags, encoder.side.common.lbrr_flag, frames)
    } else {
        mid
    }
}

/// Fills the flags into the room in front of a packet.
pub fn fill_header(
    range_encoder: &mut RangeEncoder,
    encoder: &Encoder,
    frames: usize,
    channels: usize,
)
    requires
        old(range_encoder).wf(),
        1 <= frames <= 3,
        1 <= channels <= 2,
        old(range_encoder)@.low + old(range_encoder)@.rng <= pow2(
            (31 + 8 * old(range_encoder)@.n - header_bits(
                frames as int,
                channels as int,
            )) as nat,
        ),
    ensures
        final(range_encoder).wf(),
        final(range_encoder)@ == enc_patched(
            old(range_encoder)@,
            packet_flags(*encoder, frames as int, channels as int),
            header_bits(frames as int, channels as int) as nat,
        ),
        final(range_encoder).capacity() == old(range_encoder).capacity(),
{
    let flags: u32 = header_flags(encoder, frames, channels);
    let bits: u32 = if channels == 2 {
        2 * (frames as u32 + 1)
    } else {
        frames as u32 + 1
    };
    proof {
        let h = header_bits(frames as int, channels as int);
        assert(bits == h) by (nonlinear_arith)
            requires
                h == (frames + 1) * channels,
                channels == 1 && bits == frames + 1 || channels == 2 && bits == 2 * (frames + 1),
        ;
    }
    range_encoder.patch_initial_bits(flags, bits);
}

/// Whether a channel or both of two pause.
pub open spec fn packet_pauses(e: Encoder, channels: int) -> bool {
    e.mid.common.in_dtx && (channels == 1 || e.side.common.in_dtx)
}

/// Speech activity (Q8) below which the bandwidth may change: the longer it was
/// not allowed, the higher.
pub open spec fn switch_threshold(waited_ms: int) -> int {
    wrap32(13 + wrap32((3188 * waited_ms + 0x8000) / 0x1_0000))
}

/// What is kept for the next packet, after one of `bytes` bytes.
pub open spec fn packet_ended(b: PacketState, ctl: EncControl, bytes: int, activity: int) -> PacketState {
    let allowed = activity < switch_threshold(b.time_since_switch_allowed_ms as int);
    PacketState {
        n_bits_exceeded: clamped(
            wrap32(
                wrap32(b.n_bits_exceeded + wrap32(bytes * 8)) - ctl.bit_rate * ctl.payload_size_ms
                    / 1000,
            ),
            0,
            10000,
        ) as i32,
        allow_bandwidth_switch: allowed,
        time_since_switch_allowed_ms: if allowed {
            0
        } else {
            wrap32(b.time_since_switch_allowed_ms + ctl.payload_size_ms) as i32
        },
        ..b
    }
}

/// Ends a packet of `n_bytes` bytes, and returns how many are sent: none where
/// transmission pauses.
pub fn end_packet(encoder: &mut Encoder, control: &EncControl, n_bytes: i32) -> (r: i32)
    requires
        control.control_error() is None,
    ensures
        ({
            let channels = control.n_channels_internal as int;
            let sent = if packet_pauses(*old(encoder), channels) {
                0
            } else {
                n_bytes as int
            };
            let kept = packet_ended(
                old(encoder).packet,
                *control,
                sent,
                old(encoder).mid.common.speech_activity_q8 as int,
            );
            &&& r == sent
            &&& *final(encoder) == (Encoder {
                mid: EncoderChannelState {
                    common: EncoderStateCommon {
                        allow_bandwidth_switch: kept.allow_bandwidth_switch,
                        ..old(encoder).mid.common
                    },
                    ..old(encoder).mid
                },
                side: if channels == 2 {
                    EncoderChannelState {
                        common: EncoderStateCommon {
                            allow_bandwidth_switch: kept.allow_bandwidth_switch,
                            ..old(encoder).side.common
                        },
                        ..old(encoder).side
                    }
                } else {
                    old(encoder).side
                },
                packet: kept,
            })
        }),
{
    let stereo: bool = control.n_channels_internal == 2;
    let sent: i32 = if encoder.mid.common.in_dtx && (!stereo || encoder.side.common.in_dtx) {
        0
    } else {
        n_bytes
    };
    let packet: PacketState = next_packet_state(
        &encoder.packet,
        control,
        sent,
        encoder.mid.common.speech_activity_q8,
    );
    allow_switch(&mut encoder.mid, packet.allow_bandwidth_switch);
    if stereo {
        allow_switch(&mut encoder.side, packet.allow_bandwidth_switch);
    }
    encoder.packet = packet;
    sent
}

fn allow_switch(channel: &mut EncoderChannelState, allowed: bool)
    ensures
        *final(channel) == (EncoderChannelState {
            common: EncoderStateCommon { allow_bandwidth_switch: allowed, ..old(channel).common },
            ..*old(channel)
        }),
{
    channel.common.allow_bandwidth_switch = allowed;
}

fn next_packet_state(b: &PacketState, control: &EncControl, sent: i32, activity: i32) -> (r:
    PacketState)
    requires
        control.control_error() is None,
    ensures
        r == packet_ended(*b, *control, sent as int, activity as int),
{
    proof {
        lemma2_to64();
        assert(0 <= control.bit_rate * control.payload_size_ms <= 80000 * 60) by (nonlinear_arith)
            requires
                0 <= control.bit_rate <= 80000,
                0 <= control.payload_size_ms <= 60,
        ;
    }
    let surplus: i32 = wsub(
        wadd(b.n_bits_exceeded, wmul(sent, 8)),
        control.bit_rate * control.payload_size_ms / 1000,
    );
    let waited: i32 = b.time_since_switch_allowed_ms;
    let growth: i64 = crate::fixed::shr64(3188 * waited as i64 + 0x8000, 16);
    let threshold: i32 = wadd(13, crate::fixed::narrow32(growth));
    let allowed: bool = activity < threshold;
    PacketState {
        n_bits_exceeded: if surplus < 0 {
            0
        } else if surplus > 10000 {
            10000
        } else {
            surplus
        },
        allow_bandwidth_switch: allowed,
        time_since_switch_allowed_ms: if allowed {
            0
        } else {
            wadd(waited, control.payload_size_ms)
        },
        ..*b
    }
}

/// The surplus of bits stays between 0 and 10000, whatever the packets take.
pub proof fn law_surplus_is_bounded(b: PacketState, ctl: EncControl, bytes: int, activity: int)
    ensures
        0 <= packet_ended(b, ctl, bytes, activity).n_bits_exceeded <= 10000,
{
}

/// The control at the end of a call: what it reports, and the settings that a
/// call that filled the history had changed.
pub open spec fn call_reported(e: Encoder, ctl: EncControl, call: EncodeCall, prefill: bool) -> EncControl {
    let c = e.mid.common;
    EncControl {
        allow_bandwidth_switch: e.packet.allow_bandwidth_switch,
        in_wb_mode_without_variable_lp: c.fs_khz == 16 && e.mid.lp_state.mode == 0,
        internal_sample_rate: (c.fs_khz * 1000) as i32,
        stereo_width_q14: if ctl.to_mono {
            0
        } else {
            e.packet.stereo_state.smth_width_q14 as i32
        },
        payload_size_ms: if prefill {
            call.payload_size_ms
        } else {
            ctl.payload_size_ms
        },
        complexity: if prefill {
            call.complexity
        } else {
            ctl.complexity
        },
        signal_type: c.indices.signal_type,
        offset: offset_of(c.indices.signal_type, c.indices.quant_offset_type) as i32,
        ..ctl
    }
}

/// Ends a call: reports, and ends the filling of the history.
pub fn end_call(encoder: &mut Encoder, control: &mut EncControl, call: &EncodeCall, prefill: PrefillMode)
    requires
        old(encoder).mid.common.wf(),
    ensures
        *final(control) == call_reported(
            *old(encoder),
            *old(control),
            *call,
            prefill != PrefillMode::Off,
        ),
        final(encoder).packet == (PacketState {
            n_prev_channels_internal: old(control).n_channels_internal,
            ..old(encoder).packet
        }),
        final(encoder).mid == if prefill == PrefillMode::Off {
            old(encoder).mid
        } else {
            prefill_ended(old(encoder).mid)
        },
        final(encoder).side == if prefill == PrefillMode::Off || old(control).n_channels_internal
            < 2 {
            old(encoder).side
        } else {
            prefill_ended(old(encoder).side)
        },
{
    let active: bool = prefill.is_active();
    let stereo: bool = control.n_channels_internal >= 2;
    let channels: i32 = control.n_channels_internal;
    let report: EncControl = report_call(encoder, control, call, active);
    *control = report;
    encoder.packet.n_prev_channels_internal = channels;
    if active {
        end_prefill(&mut encoder.mid);
        if stereo {
            end_prefill(&mut encoder.side);
        }
    }
}

fn report_call(encoder: &Encoder, control: &EncControl, call: &EncodeCall, active: bool) -> (r:
    EncControl)
    requires
        encoder.mid.common.wf(),
    ensures
        r == call_reported(*encoder, *control, *call, active),
{
    let c: EncoderStateCommon = encoder.mid.common;
    EncControl {
        allow_bandwidth_switch: encoder.packet.allow_bandwidth_switch,
        in_wb_mode_without_variable_lp: c.fs_khz == 16 && encoder.mid.lp_state.mode == 0,
        internal_sample_rate: c.fs_khz * 1000,
        stereo_width_q14: if control.to_mono {
            0
        } else {
            encoder.packet.stereo_state.smth_width_q14 as i32
        },
        payload_size_ms: if active {
            call.payload_size_ms
        } else {
            control.payload_size_ms
        },
        complexity: if active {
            call.complexity
        } else {
            control.complexity
        },
        signal_type: c.indices.signal_type,
        offset: quantization_offset_q10(c.indices.signal_type, c.indices.quant_offset_type),
        ..*control
    }
}

/// A channel after it filled its history.
pub open spec fn prefill_ended(b: EncoderChannelState) -> EncoderChannelState {
    EncoderChannelState {
        common: EncoderStateCommon {
            controlled_since_last_payload: false,
            prefill_flag: false,
            ..b.common
        },
        ..b
    }
}

fn end_prefill(channel: &mut EncoderChannelState)
    ensures
        *final(channel) == prefill_ended(*old(channel)),
{
    channel.common.controlled_since_last_payload = false;
    channel.common.prefill_flag = false;
}

} // verus!
