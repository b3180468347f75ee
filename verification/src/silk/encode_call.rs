//! The steps of one call that codes a packet or a part of it.
//!
//! Sample-rate conversion, stereo analysis, speech activity and the coding of
//! frames are done outside. Here stands how a call starts, which samples are
//! converted for which channel, which redundant frames a packet starts with,
//! and what each channel's frame is coded with.
use crate::range_encoder::{enc_icdf_next, enc_patched, enc_tell, RangeEncoder};
use crate::silk::check_control_input::EncControl;
use crate::silk::control_snr::{control_snr, snr_of};
use crate::silk::decode_indices::ConditionalCoding;
use crate::silk::enc_api::{
    announced, bits_for_channel, blocks_of, call_fault, channel_budget, channel_fresh,
    channel_prefilling, channel_started, coding_for_channel, coding_of, encode_header_room,
    encode_lbrr_symbol, end_packet, fill_header, frame_done, header_bits, header_icdf,
    init_channel, lbrr_coding, lbrr_symbol, lbrr_symbol_of, middle_of, mix_to_mono, next_input,
    packet_ended, packet_flags, packet_pauses, prefill_channel, reset_side_channel,
    samples_to_buffer, side_reset, silk_encode_check, start_channel, store_stereo_result,
    take_side, EncodeCall, Encoder, PacketState, PrefillMode, StereoConversionResult,
    StereoEncState,
};
use crate::silk::encoder_state::{no_flags, EncoderChannelState, EncoderStateCommon, LpState};
use crate::silk::resampler::Resampler;
use crate::silk::types::SilkError;
use vstd::arithmetic::power2::pow2;
use vstd::prelude::*;

verus! {

// ---------------------------------------------------------------------
// Start of a call
// ---------------------------------------------------------------------

/// Why a call is refused before its channels are set up.
pub open spec fn early_fault(ctl: EncControl, samples_len: int) -> Option<SilkError> {
    let channels = ctl.n_channels_api as int;
    if ctl.control_error() is Some {
        ctl.control_error()
    } else if samples_len % channels != 0 || samples_len / channels > i32::MAX {
        Some(SilkError::EncInputInvalidNoOfSamples)
    } else {
        None
    }
}

/// The low-pass filter that the channels keep when they fill their history.
pub open spec fn kept_filter(mid: EncoderChannelState, prefill: PrefillMode) -> Option<LpState> {
    if prefill == PrefillMode::PrefillWithState {
        Some(LpState { saved_fs_khz: mid.common.fs_khz, ..mid.lp_state })
    } else {
        None
    }
}

/// The side channel is added by a call.
pub open spec fn adds_side(b: PacketState, ctl: EncControl) -> bool {
    ctl.n_channels_internal > b.n_channels_internal
}

/// What belongs to both channels once a call has its channels.
pub open spec fn packet_opened(b: PacketState, ctl: EncControl, a: PacketState) -> bool {
    let adds = adds_side(b, ctl);
    &&& a == (PacketState {
        n_channels_api: ctl.n_channels_api,
        n_channels_internal: ctl.n_channels_internal,
        prev_decode_only_middle: !adds && b.prev_decode_only_middle,
        stereo_state: a.stereo_state,
        ..b
    })
    &&& if adds {
        a.stereo_state.fresh()
    } else {
        a.stereo_state == b.stereo_state
    }
}

/// `a` and `told` are the encoder `b` and its control after the start of a call.
/// What a refused call had changed before stays changed.
pub open spec fn call_started(
    b: Encoder,
    ctl: EncControl,
    samples_len: int,
    prefill: PrefillMode,
    a: Encoder,
    told: EncControl,
) -> bool {
    let again = ctl.reduced_dependency;
    let stereo = ctl.n_channels_internal == 2;
    if early_fault(ctl, samples_len) is Some {
        &&& channel_started(b.mid, again, a.mid)
        &&& channel_started(b.side, again, a.side)
        &&& a.packet == b.packet
        &&& told == if ctl.control_error() is Some {
            ctl
        } else {
            EncControl { switch_ready: false, ..ctl }
        }
    } else if call_fault(ctl, samples_len, prefill) is Some || prefill == PrefillMode::Off {
        &&& channel_started(b.mid, again, a.mid)
        &&& if adds_side(b.packet, ctl) {
            channel_fresh(a.side, b.mid.common.arch as int)
        } else {
            channel_started(b.side, again, a.side)
        }
        &&& packet_opened(b.packet, ctl, a.packet)
        &&& told == (EncControl { switch_ready: false, ..ctl })
    } else {
        let keep = kept_filter(b.mid, prefill);
        &&& channel_prefilling(keep, b.mid.common.arch as int, a.mid)
        &&& if stereo {
            channel_prefilling(
                keep,
                if adds_side(b.packet, ctl) {
                    b.mid.common.arch as int
                } else {
                    b.side.common.arch as int
                },
                a.side,
            )
        } else {
            channel_started(b.side, again, a.side)
        }
        &&& packet_opened(b.packet, ctl, a.packet)
        &&& told == (EncControl {
            switch_ready: false,
            payload_size_ms: 10,
            complexity: 0,
            ..ctl
        })
    }
}

/// Starts a call of `samples_len` interleaved samples: checks it, sets up the
/// channels that it adds, or all of them where it fills their history.
pub fn silk_encode_start(
    encoder: &mut Encoder,
    control: &mut EncControl,
    samples_len: usize,
    prefill: PrefillMode,
) -> (r: Result<EncodeCall, SilkError>)
    requires
        1 <= old(encoder).packet.n_channels_internal <= 2,
    ensures
        call_started(
            *old(encoder),
            *old(control),
            samples_len as int,
            prefill,
            *final(encoder),
            *final(control),
        ),
        match r {
            Err(e) => call_fault(*old(control), samples_len as int, prefill) == Some(e),
            Ok(call) => {
                let samples = samples_len as int / (old(control).n_channels_api as int);
                let blocks = blocks_of(samples, old(control).api_sample_rate as int);
                &&& call_fault(*old(control), samples_len as int, prefill) is None
                &&& call == (EncodeCall {
                    samples: samples as i32,
                    n_blocks_of_10ms: blocks as i32,
                    tot_blocks: if blocks > 1 {
                        (blocks / 2) as i32
                    } else {
                        1
                    },
                    transition: old(control).payload_size_ms != old(
                        encoder,
                    ).mid.common.packet_size_ms || old(encoder).packet.n_channels_internal != old(
                        control,
                    ).n_channels_internal,
                    payload_size_ms: old(control).payload_size_ms,
                    complexity: old(control).complexity,
                })
                &&& 0 <= blocks <= 6
                &&& 0 <= samples <= i32::MAX
            },
        },
{
    let was: EncControl = *control;
    let arch: i32 = encoder.mid.common.arch;
    let keep: Option<LpState> = keep_filter(&encoder.mid, prefill);
    let checked: Result<EncodeCall, SilkError> = silk_encode_check(
        control,
        &encoder.packet,
        encoder.mid.common.packet_size_ms,
        samples_len,
        prefill,
    );
    if was.check_control_input().is_err() {
        start_channel(&mut encoder.mid, was.reduced_dependency);
        start_channel(&mut encoder.side, was.reduced_dependency);
        return checked;
    }
    *control = EncControl { switch_ready: false, ..was };
    let channels: usize = was.n_channels_api as usize;
    if samples_len % channels != 0 || samples_len / channels > 0x7fff_ffff {
        start_channel(&mut encoder.mid, was.reduced_dependency);
        start_channel(&mut encoder.side, was.reduced_dependency);
        return checked;
    }
    let adds: bool = was.n_channels_internal > encoder.packet.n_channels_internal;
    encoder.packet = open_packet(&encoder.packet, &was);
    if checked.is_ok() && prefill.is_active() {
        prefill_channel(&mut encoder.mid, keep);
        if was.n_channels_internal == 2 {
            if adds {
                encoder.side = init_channel(arch);
                assert(encoder.side.common.arch == arch) by {
                    reveal(channel_fresh);
                }
            }
            prefill_channel(&mut encoder.side, keep);
        } else {
            start_channel(&mut encoder.side, was.reduced_dependency);
        }
        *control = EncControl { switch_ready: false, payload_size_ms: 10, complexity: 0, ..was };
    } else {
        start_channel(&mut encoder.mid, was.reduced_dependency);
        if adds {
            encoder.side = init_channel(arch);
        } else {
            start_channel(&mut encoder.side, was.reduced_dependency);
        }
    }
    checked
}

fn open_packet(b: &PacketState, control: &EncControl) -> (r: PacketState)
    ensures
        packet_opened(*b, *control, r),
{
    if control.n_channels_internal > b.n_channels_internal {
        PacketState {
            n_channels_api: control.n_channels_api,
            n_channels_internal: control.n_channels_internal,
            prev_decode_only_middle: false,
            stereo_state: StereoEncState::default(),
            ..*b
        }
    } else {
        PacketState {
            n_channels_api: control.n_channels_api,
            n_channels_internal: control.n_channels_internal,
            ..*b
        }
    }
}

fn keep_filter(mid: &EncoderChannelState, prefill: PrefillMode) -> (r: Option<LpState>)
    ensures
        r == kept_filter(*mid, prefill),
{
    if prefill.keep_low_pass_state() {
        Some(LpState { saved_fs_khz: mid.common.fs_khz, ..mid.lp_state })
    } else {
        None
    }
}

// ---------------------------------------------------------------------
// Input
// ---------------------------------------------------------------------

/// What is converted next.
#[derive(Debug)]
pub struct InputStep {
    /// Samples of the middle or only channel at the internal rate.
    pub n: usize,
    /// Samples of the side at the internal rate.
    pub n_side: usize,
    /// Samples of each input channel that are read.
    pub taken: usize,
    /// What the conversion of the middle or only channel takes.
    pub mid: Vec<i16>,
    /// What the conversion of the side takes, if there is one.
    pub side: Option<Vec<i16>>,
    /// The conversion of the side starts from that of the middle.
    pub follows: bool,
    /// Mono fades out of stereo: it is converted for both channels.
    pub fades: bool,
}

/// Samples that the side buffers next, or as many as the middle where it lacks
/// none.
pub open spec fn side_input(e: Encoder, n_blocks_of_10ms: int) -> int {
    let n = next_input(e.side.common, n_blocks_of_10ms).0;
    if n == 0 {
        next_input(e.mid.common, n_blocks_of_10ms).0
    } else {
        n
    }
}

/// What is converted next of `samples`, where `offset` of them are used up.
pub open spec fn input_step(
    e: Encoder,
    ctl: EncControl,
    blocks: int,
    samples: Seq<i16>,
    offset: int,
    r: InputStep,
) -> bool {
    let (n, taken) = next_input(e.mid.common, blocks);
    let first = e.mid.common.n_frames_encoded == 0;
    &&& r.n == n
    &&& r.taken == taken
    &&& r.mid@.len() == taken
    &&& if ctl.n_channels_api == 2 && ctl.n_channels_internal == 2 {
        &&& r.n_side == side_input(e, blocks)
        &&& forall|i: int| 0 <= i < taken ==> #[trigger] r.mid@[i] == samples[offset + 2 * i]
        &&& r.side is Some && r.side->0@.len() == taken
        &&& forall|i: int|
            0 <= i < taken ==> #[trigger] (r.side->0)@[i] == samples[offset + 2 * i + 1]
        &&& r.follows == (e.packet.n_prev_channels_internal == 1 && first)
        &&& !r.fades
    } else if ctl.n_channels_api == 2 {
        &&& r.n_side == n
        &&& forall|i: int|
            0 <= i < taken ==> #[trigger] r.mid@[i] == middle_of(
                samples[offset + 2 * i] as int,
                samples[offset + 2 * i + 1] as int,
            )
        &&& r.fades == (e.packet.n_prev_channels_internal == 2 && first)
        &&& if r.fades {
            r.side is Some && r.side->0@ == r.mid@
        } else {
            r.side is None
        }
        &&& !r.follows
    } else {
        &&& r.n_side == 0
        &&& forall|i: int| 0 <= i < taken ==> #[trigger] r.mid@[i] == samples[offset + i]
        &&& r.side is None
        &&& !r.follows
        &&& !r.fades
    }
}

fn take_samples(samples: &[i16], offset: usize, n: usize) -> (r: Vec<i16>)
    requires
        offset + n <= samples@.len(),
    ensures
        r@ == samples@.subrange(offset as int, offset + n),
{
    let total: usize = samples.len();
    let mut r: Vec<i16> = Vec::new();
    for i in 0..n
        invariant
            total == samples@.len(),
            offset + n <= total,
            r@ == samples@.subrange(offset as int, offset + i),
    {
        r.push(samples[offset + i]);
        assert(r@ =~= samples@.subrange(offset as int, offset + i + 1));
    }
    r
}

/// What is converted next of `samples_in`, where `offset` of them are used up.
pub fn next_input_step(
    encoder: &Encoder,
    control: &EncControl,
    n_blocks_of_10ms: i32,
    samples_in: &[i16],
    offset: usize,
) -> (r: InputStep)
    requires
        1 <= control.n_channels_api <= 2,
        1 <= control.n_channels_internal <= control.n_channels_api,
        0 <= n_blocks_of_10ms <= 6,
        ({
            let c = encoder.mid.common;
            (c.fs_khz == 8 || c.fs_khz == 12 || c.fs_khz == 16) && 0 <= c.api_sample_rate_hz
                <= 48000
        }),
        control.n_channels_internal == 2 ==> {
            let c = encoder.side.common;
            (c.fs_khz == 8 || c.fs_khz == 12 || c.fs_khz == 16) && 0 <= c.api_sample_rate_hz
                <= 48000
        },
        offset + control.n_channels_api * next_input(
            encoder.mid.common,
            n_blocks_of_10ms as int,
        ).1 <= samples_in@.len(),
    ensures
        input_step(
            *encoder,
            *control,
            n_blocks_of_10ms as int,
            samples_in@,
            offset as int,
            r,
        ),
{
    let (n, taken) = samples_to_buffer(&encoder.mid.common, n_blocks_of_10ms);
    let first: bool = encoder.mid.common.n_frames_encoded == 0;
    proof {
        let c = encoder.mid.common;
        assert(10 * n_blocks_of_10ms * c.fs_khz <= 960) by (nonlinear_arith)
            requires
                0 <= n_blocks_of_10ms <= 6,
                0 <= c.fs_khz <= 16,
        ;
        let whole = n * c.api_sample_rate_hz;
        assert(0 <= whole <= 960 * 48000) by (nonlinear_arith)
            requires
                whole == n * c.api_sample_rate_hz,
                0 <= n <= 960,
                0 <= c.api_sample_rate_hz <= 48000,
        ;
        vstd::arithmetic::div_mod::lemma_div_is_ordered(whole, 46_080_000, c.fs_khz * 1000);
        vstd::arithmetic::div_mod::lemma_div_is_ordered_by_denominator(
            46_080_000,
            8000,
            c.fs_khz * 1000,
        );
        assert(taken <= 5760);
    }
    if control.n_channels_api == 2 && control.n_channels_internal == 2 {
        let mid: Vec<i16> = take_side(samples_in, offset, taken, 0);
        let side: Vec<i16> = take_side(samples_in, offset, taken, 1);
        let (missing, _) = samples_to_buffer(&encoder.side.common, n_blocks_of_10ms);
        let n_side: usize = if missing == 0 {
            n
        } else {
            missing
        };
        InputStep {
            n,
            n_side,
            taken,
            mid,
            side: Some(side),
            follows: encoder.packet.n_prev_channels_internal == 1 && first,
            fades: false,
        }
    } else if control.n_channels_api == 2 {
        let mid: Vec<i16> = mix_to_mono(samples_in, offset, taken);
        let fades: bool = encoder.packet.n_prev_channels_internal == 2 && first;
        let side: Option<Vec<i16>> = if fades {
            let copy: Vec<i16> = take_samples(mid.as_slice(), 0, taken);
            assert(copy@ =~= mid@);
            Some(copy)
        } else {
            None
        };
        InputStep { n, n_side: n, taken, mid, side, follows: false, fades }
    } else {
        let mid: Vec<i16> = take_samples(samples_in, offset, taken);
        assert forall|i: int| 0 <= i < taken implies #[trigger] mid@[i] == samples_in@[offset
            + i] by {}
        InputStep { n, n_side: 0, taken, mid, side: None, follows: false, fades: false }
    }
}

/// A buffer with samples written from `at` on.
pub open spec fn written(buf: Seq<i16>, at: int, samples: Seq<i16>) -> Seq<i16> {
    Seq::new(
        buf.len(),
        |i: int|
            if at <= i < at + samples.len() {
                samples[i - at]
            } else {
                buf[i]
            },
    )
}

fn write_samples(buf: &mut Vec<i16>, at: usize, samples: &[i16])
    requires
        at + samples@.len() <= old(buf)@.len(),
    ensures
        final(buf)@ == written(old(buf)@, at as int, samples@),
{
    let ghost before = buf@;
    let n: usize = samples.len();
    let room: usize = buf.len();
    let mut k: usize = 0;
    while k < n
        invariant
            n == samples@.len(),
            room == buf@.len(),
            room == before.len(),
            at + n <= room,
            k <= n,
            buf@ == written(before, at as int, samples@.take(k as int)),
        decreases n - k,
    {
        buf[at + k] = samples[k];
        assert(buf@ =~= written(before, at as int, samples@.take(k + 1)));
        k = k + 1;
    }
    assert(samples@.take(n as int) =~= samples@);
}

/// A buffer whose `n` samples from `at` on are the middle of its own and those
/// of `other` from `from` on, rounded down.
pub open spec fn faded(buf: Seq<i16>, at: int, other: Seq<i16>, from: int, n: int) -> Seq<i16> {
    Seq::new(
        buf.len(),
        |i: int|
            if at <= i < at + n {
                ((buf[i] + other[from + i - at]) / 2) as i16
            } else {
                buf[i]
            },
    )
}

fn fade(buf: &mut Vec<i16>, at: usize, other: &Vec<i16>, from: usize, n: usize)
    requires
        at + n <= old(buf)@.len(),
        from + n <= other@.len(),
    ensures
        final(buf)@ == faded(old(buf)@, at as int, other@, from as int, n as int),
{
    let ghost before = buf@;
    let room: usize = buf.len();
    let there: usize = other.len();
    let mut k: usize = 0;
    assert(buf@ =~= faded(before, at as int, other@, from as int, 0));
    while k < n
        invariant
            room == buf@.len(),
            room == before.len(),
            there == other@.len(),
            at + n <= room,
            from + n <= there,
            k <= n,
            buf@ == faded(before, at as int, other@, from as int, k as int),
        decreases n - k,
    {
        let sum: i32 = buf[at + k] as i32 + other[from + k] as i32;
        let half: i32 = if sum < 0 {
            (sum - 1) / 2
        } else {
            sum / 2
        };
        assert(half == (before[at + k] + other@[from + k]) / 2);
        buf[at + k] = half as i16;
        assert(buf@ =~= faded(before, at as int, other@, from as int, k + 1));
        k = k + 1;
    }
}

/// The buffer and the fill of the first channel after a step was converted.
pub open spec fn mid_buffered(b: Encoder, step: InputStep, mid: Seq<i16>, side: Seq<i16>) -> Seq<i16> {
    let at = b.mid.common.input_buf_ix as int;
    let own = written(b.mid.input_buf@, at + 2, mid);
    let from = b.side.common.input_buf_ix as int;
    if step.fades {
        faded(
            own,
            at + 2,
            written(b.side.input_buf@, from + 2, side),
            from + 2,
            b.mid.common.frame_length as int,
        )
    } else {
        own
    }
}

/// A channel with other input, of which `ix` samples are there.
#[verifier::opaque]
pub open spec fn with_input(b: EncoderChannelState, buf: Seq<i16>, ix: int, a: EncoderChannelState) -> bool {
    &&& a == (EncoderChannelState {
        common: EncoderStateCommon { input_buf_ix: ix as usize, ..b.common },
        input_buf: a.input_buf,
        ..b
    })
    &&& a.input_buf@ == buf
}

/// Takes the converted samples of a step.
pub fn take_input(encoder: &mut Encoder, step: &InputStep, mid: &[i16], side: &[i16])
    requires
        mid@.len() == step.n,
        step.side is Some ==> side@.len() == step.n_side,
        old(encoder).mid.common.input_buf_ix + 2 + step.n <= old(encoder).mid.input_buf@.len(),
        old(encoder).mid.input_buf@.len() <= 0x1_0000,
        step.side is Some ==> old(encoder).side.common.input_buf_ix + 2 + step.n_side <= old(
            encoder,
        ).side.input_buf@.len() <= 0x1_0000,
        step.fades ==> step.side is Some && {
            let n = old(encoder).mid.common.frame_length;
            &&& old(encoder).mid.common.input_buf_ix + 2 + n <= old(encoder).mid.input_buf@.len()
            &&& old(encoder).side.common.input_buf_ix + 2 + n <= old(encoder).side.input_buf@.len()
        },
    ensures
        final(encoder).packet == (PacketState {
            allow_bandwidth_switch: false,
            ..old(encoder).packet
        }),
        with_input(
            old(encoder).mid,
            mid_buffered(*old(encoder), *step, mid@, side@),
            old(encoder).mid.common.input_buf_ix + step.n,
            final(encoder).mid,
        ),
        ({
            let b = old(encoder).side;
            let at = b.common.input_buf_ix as int;
            let follower = EncoderChannelState {
                resampler_state: old(encoder).mid.resampler_state,
                ..b
            };
            let buf = written(b.input_buf@, at + 2, side@);
            if step.fades {
                with_input(b, buf, at, final(encoder).side)
            } else if step.side is None {
                final(encoder).side == b
            } else if step.follows {
                with_input(follower, buf, at + step.n_side, final(encoder).side)
            } else {
                with_input(b, buf, at + step.n_side, final(encoder).side)
            }
        }),
{
    if step.fades {
        fade_input(&mut encoder.mid, &mut encoder.side, step, mid, side);
    } else if step.side.is_some() {
        let at: usize = encoder.mid.common.input_buf_ix;
        let from: usize = encoder.side.common.input_buf_ix;
        if step.follows {
            follow(&mut encoder.side, encoder.mid.resampler_state);
        }
        put_input(&mut encoder.mid, mid, at + step.n);
        put_input(&mut encoder.side, side, from + step.n_side);
    } else {
        let at: usize = encoder.mid.common.input_buf_ix;
        put_input(&mut encoder.mid, mid, at + step.n);
    }
    encoder.packet = PacketState { allow_bandwidth_switch: false, ..encoder.packet };
}

/// Takes mono that fades out of stereo.
fn fade_input(
    first: &mut EncoderChannelState,
    second: &mut EncoderChannelState,
    step: &InputStep,
    mid: &[i16],
    side: &[i16],
)
    requires
        mid@.len() == step.n,
        side@.len() == step.n_side,
        ({
            let n = old(first).common.frame_length;
            let at = old(first).common.input_buf_ix;
            let from = old(second).common.input_buf_ix;
            &&& at + 2 + step.n <= old(first).input_buf@.len() <= 0x1_0000
            &&& at + 2 + n <= old(first).input_buf@.len()
            &&& from + 2 + step.n_side <= old(second).input_buf@.len() <= 0x1_0000
            &&& from + 2 + n <= old(second).input_buf@.len()
        }),
    ensures
        ({
            let at = old(first).common.input_buf_ix as int;
            let from = old(second).common.input_buf_ix as int;
            let other = written(old(second).input_buf@, from + 2, side@);
            &&& with_input(
                *old(first),
                faded(
                    written(old(first).input_buf@, at + 2, mid@),
                    at + 2,
                    other,
                    from + 2,
                    old(first).common.frame_length as int,
                ),
                at + step.n,
                *final(first),
            )
            &&& with_input(*old(second), other, from, *final(second))
        }),
{
    let at: usize = first.common.input_buf_ix;
    let from: usize = second.common.input_buf_ix;
    put_input(first, mid, at + step.n);
    put_input(second, side, from);
    proof {
        reveal(with_input);
    }
    fade_channel(first, at, &second.input_buf, from);
}

fn follow(channel: &mut EncoderChannelState, conversion: Resampler)
    ensures
        *final(channel) == (EncoderChannelState { resampler_state: conversion, ..*old(channel) }),
{
    channel.resampler_state = conversion;
}

fn put_input(channel: &mut EncoderChannelState, samples: &[i16], ix: usize)
    requires
        old(channel).common.input_buf_ix + 2 + samples@.len() <= old(channel).input_buf@.len()
            <= 0x1_0000,
    ensures
        with_input(
            *old(channel),
            written(old(channel).input_buf@, old(channel).common.input_buf_ix + 2, samples@),
            ix as int,
            *final(channel),
        ),
{
    proof {
        reveal(with_input);
    }
    let at: usize = channel.common.input_buf_ix + 2;
    write_samples(&mut channel.input_buf, at, samples);
    channel.common.input_buf_ix = ix;
}

fn fade_channel(channel: &mut EncoderChannelState, at: usize, other: &Vec<i16>, from: usize)
    requires
        at + 2 + old(channel).common.frame_length <= old(channel).input_buf@.len() <= 0x1_0000,
        from + 2 + old(channel).common.frame_length <= other@.len() <= 0x1_0000,
    ensures
        with_input(
            *old(channel),
            faded(
                old(channel).input_buf@,
                at + 2,
                other@,
                from + 2,
                old(channel).common.frame_length as int,
            ),
            old(channel).common.input_buf_ix as int,
            *final(channel),
        ),
{
    proof {
        reveal(with_input);
    }
    let n: usize = channel.common.frame_length;
    fade(&mut channel.input_buf, at + 2, other, from + 2, n);
}

// ---------------------------------------------------------------------
// Redundant frames
// ---------------------------------------------------------------------

/// A redundant frame that is coded at the start of a packet.
#[derive(Debug, Clone, Copy, PartialEq, Eq, Structural)]
pub struct RedundantJob {
    pub frame: usize,
    pub channel: usize,
    pub coding: ConditionalCoding,
}

/// The redundant frame `frame` of a channel.
pub open spec fn redundant_job(flags: Seq<bool>, frame: int, channel: int) -> RedundantJob {
    RedundantJob {
        frame: frame as usize,
        channel: channel as usize,
        coding: if frame > 0 && flags[frame - 1] {
            ConditionalCoding::Conditional
        } else {
            ConditionalCoding::Independent
        },
    }
}

/// The redundant frames of both channels up to frame `k`, frame by frame.
pub open spec fn redundant_jobs(
    mid: Seq<bool>,
    side: Seq<bool>,
    stereo: bool,
    k: nat,
) -> Seq<RedundantJob>
    decreases k,
{
    if k == 0 {
        seq![]
    } else {
        let f = k - 1;
        let before = redundant_jobs(mid, side, stereo, f as nat);
        let with_mid = if mid[f] {
            before.push(redundant_job(mid, f, 0))
        } else {
            before
        };
        if stereo && side[f] {
            with_mid.push(redundant_job(side, f, 1))
        } else {
            with_mid
        }
    }
}

/// A channel that has announced its redundant frames, and has none left.
pub open spec fn redundancy_sent(b: EncoderChannelState, frames: int, a: EncoderChannelState) -> bool {
    &&& a == (EncoderChannelState {
        common: EncoderStateCommon {
            lbrr_flag: lbrr_symbol(b.common.lbrr_flags@, frames) > 0,
            lbrr_flags: a.common.lbrr_flags,
            ..b.common
        },
        ..b
    })
    &&& a.common.lbrr_flags@ == no_flags()
}

fn send_redundancy(channel: &mut EncoderChannelState, symbol: usize, frames: usize)
    requires
        frames <= 3,
        symbol == lbrr_symbol(old(channel).common.lbrr_flags@, frames as int),
    ensures
        redundancy_sent(*old(channel), frames as int, *final(channel)),
{
    let none: [bool; 3] = [false;3];
    assert(none@ =~= no_flags());
    channel.common = EncoderStateCommon {
        lbrr_flag: symbol > 0,
        lbrr_flags: none,
        ..channel.common
    };
}

fn list_redundant(mid: &[bool; 3], side: &[bool; 3], stereo: bool, frames: usize) -> (r: Vec<
    RedundantJob,
>)
    requires
        frames <= 3,
    ensures
        r@ == redundant_jobs(mid@, side@, stereo, frames as nat),
{
    let mut jobs: Vec<RedundantJob> = Vec::new();
    let mut f: usize = 0;
    while f < frames
        invariant
            f <= frames <= 3,
            jobs@ == redundant_jobs(mid@, side@, stereo, f as nat),
        decreases frames - f,
    {
        if mid[f] {
            jobs.push(RedundantJob { frame: f, channel: 0, coding: lbrr_coding(mid, f) });
        }
        if stereo && side[f] {
            jobs.push(RedundantJob { frame: f, channel: 1, coding: lbrr_coding(side, f) });
        }
        assert(jobs@ =~= redundant_jobs(mid@, side@, stereo, (f + 1) as nat));
        f = f + 1;
    }
    jobs
}

/// Starts a packet: leaves room for its flags and announces its redundant
/// frames. Returns those that are coded next, and the bits before redundancy;
/// the channels have no redundancy left.
pub fn start_packet(encoder: &mut Encoder, range_encoder: &mut RangeEncoder, stereo: bool) -> (r: (
    Vec<RedundantJob>,
    i32,
))
    requires
        1 <= old(encoder).mid.common.n_frames_per_packet <= 3,
        old(range_encoder).wf(),
        old(range_encoder).room(3),
    ensures
        ({
            let b = *old(encoder);
            let frames = b.mid.common.n_frames_per_packet as int;
            let mid = b.mid.common.lbrr_flags@;
            let side = b.side.common.lbrr_flags@;
            let room = enc_icdf_next(
                old(range_encoder)@,
                header_icdf(
                    frames,
                    if stereo {
                        2
                    } else {
                        1
                    },
                ),
                8,
                0,
            );
            let first = announced(room, lbrr_symbol(mid, frames), frames);
            &&& r.0@ == redundant_jobs(mid, side, stereo, frames as nat)
            &&& r.1 == enc_tell(room)
            &&& final(range_encoder).wf()
            &&& final(range_encoder)@ == if stereo {
                announced(first, lbrr_symbol(side, frames), frames)
            } else {
                first
            }
            &&& final(range_encoder).capacity() == old(range_encoder).capacity()
            &&& final(encoder).packet == b.packet
            &&& redundancy_sent(b.mid, frames, final(encoder).mid)
            &&& if stereo {
                redundancy_sent(b.side, frames, final(encoder).side)
            } else {
                final(encoder).side == b.side
            }
        }),
{
    let frames: usize = encoder.mid.common.n_frames_per_packet;
    encode_header_room(
        range_encoder,
        frames,
        if stereo {
            2
        } else {
            1
        },
    );
    let before: i32 = range_encoder.tell();
    let mid: [bool; 3] = encoder.mid.common.lbrr_flags;
    let side: [bool; 3] = encoder.side.common.lbrr_flags;
    let jobs: Vec<RedundantJob> = list_redundant(&mid, &side, stereo, frames);
    let first: usize = lbrr_symbol_of(&mid, frames);
    encode_lbrr_symbol(range_encoder, first, frames);
    send_redundancy(&mut encoder.mid, first, frames);
    if stereo {
        let second: usize = lbrr_symbol_of(&side, frames);
        encode_lbrr_symbol(range_encoder, second, frames);
        send_redundancy(&mut encoder.side, second, frames);
    }
    (jobs, before)
}

// ---------------------------------------------------------------------
// Frames
// ---------------------------------------------------------------------

/// The side after the stereo analysis of a frame: it starts anew where it was
/// left out before, and has no speech where it is left out now.
pub open spec fn side_analysed(
    b: EncoderChannelState,
    frame: int,
    mid_only: bool,
    mid_only_before: bool,
    a: EncoderChannelState,
) -> bool {
    if mid_only {
        &&& a == (EncoderChannelState {
            common: EncoderStateCommon { vad_flags: a.common.vad_flags, ..b.common },
            ..b
        })
        &&& a.common.vad_flags@ == b.common.vad_flags@.update(frame, false)
    } else if mid_only_before {
        side_reset(b, a)
    } else {
        a == b
    }
}

/// Takes what the stereo analysis gave for the frame, and returns whether a side
/// is coded, whose speech activity is measured next.
pub fn take_stereo(encoder: &mut Encoder, result: &StereoConversionResult) -> (r: bool)
    requires
        old(encoder).mid.common.n_frames_encoded < 3,
    ensures
        ({
            let b = *old(encoder);
            let a = *final(encoder);
            let f = b.mid.common.n_frames_encoded as int;
            &&& r == !result.mid_only_flag
            &&& a.mid == b.mid
            &&& a.packet == (PacketState { stereo_state: a.packet.stereo_state, ..b.packet })
            &&& a.packet.stereo_state == (StereoEncState {
                mid_only_flags: a.packet.stereo_state.mid_only_flags,
                pred_ix: a.packet.stereo_state.pred_ix,
                ..b.packet.stereo_state
            })
            &&& a.packet.stereo_state.mid_only_flags@
                == b.packet.stereo_state.mid_only_flags@.update(f, result.mid_only_flag)
            &&& a.packet.stereo_state.pred_ix@ == b.packet.stereo_state.pred_ix@.update(
                f,
                result.indices,
            )
            &&& side_analysed(
                b.side,
                f,
                result.mid_only_flag,
                b.packet.prev_decode_only_middle,
                a.side,
            )
        }),
{
    let f: usize = encoder.mid.common.n_frames_encoded;
    let mut stereo_state: StereoEncState = encoder.packet.stereo_state;
    store_stereo_result(&mut stereo_state, f, result);
    let before: bool = encoder.packet.prev_decode_only_middle;
    encoder.packet = PacketState { stereo_state, ..encoder.packet };
    if result.mid_only_flag {
        leave_side_out(&mut encoder.side, f);
    } else if before {
        reset_side_channel(&mut encoder.side);
    }
    !result.mid_only_flag
}

fn leave_side_out(side: &mut EncoderChannelState, frame: usize)
    requires
        frame < 3,
    ensures
        side_analysed(*old(side), frame as int, true, false, *final(side)),
{
    let mut vad_flags: [bool; 3] = side.common.vad_flags;
    vad_flags[frame] = false;
    side.common = EncoderStateCommon { vad_flags, ..side.common };
}

/// What a frame of a channel is coded with.
#[derive(Debug, Clone, Copy, PartialEq, Eq, Structural)]
pub struct FrameJob {
    pub max_bits: i32,
    pub use_cbr: bool,
    pub coding: ConditionalCoding,
}

/// Sets the quality of channel `n` for a frame of the rate `rate_bps`, and tells
/// what the frame is coded with; none where the channel has no rate.
/// `frames_encoded` are the frames of the first channel before this block.
pub fn frame_job(
    channel: &mut EncoderChannelState,
    control: &EncControl,
    tot_blocks: i32,
    block: i32,
    n: i32,
    rate_bps: i32,
    side_rate_bps: i32,
    frames_encoded: i32,
    only_middle_before: bool,
) -> (r: Option<FrameJob>)
    requires
        1 <= tot_blocks <= 3,
    ensures
        ({
            let b = *old(channel);
            let a = *final(channel);
            let (max_bits, use_cbr) = channel_budget(
                *control,
                tot_blocks as int,
                block as int,
                n as int,
                side_rate_bps as int,
            );
            if rate_bps <= 0 {
                r is None && a == b
            } else {
                &&& r == Some(
                    FrameJob {
                        max_bits: max_bits as i32,
                        use_cbr,
                        coding: coding_of(frames_encoded as int, n as int, only_middle_before),
                    },
                )
                &&& a == (EncoderChannelState {
                    common: EncoderStateCommon {
                        target_rate_bps: rate_bps,
                        snr_db_q7: a.common.snr_db_q7,
                        ..b.common
                    },
                    ..b
                })
                &&& a.common.snr_db_q7 == snr_of(
                    b.common.fs_khz as int,
                    b.common.nb_subfr as int,
                    rate_bps as int,
                )
            }
        }),
{
    if rate_bps <= 0 {
        return None;
    }
    let (max_bits, use_cbr) = bits_for_channel(control, tot_blocks, block, n, side_rate_bps);
    let set = control_snr(channel, rate_bps);
    assert(set is Ok);
    Some(FrameJob { max_bits, use_cbr, coding: coding_for_channel(frames_encoded, n, only_middle_before) })
}

/// `a` is the encoder `b` after a frame of all its channels.
pub open spec fn block_ended(b: Encoder, stereo: bool, a: Encoder) -> bool {
    let f = b.mid.common.n_frames_encoded as int;
    &&& a.mid == one_frame_more(b.mid)
    &&& a.side == if stereo {
        one_frame_more(b.side)
    } else {
        b.side
    }
    &&& a.packet == (PacketState {
        prev_decode_only_middle: b.packet.stereo_state.mid_only_flags[f],
        ..b.packet
    })
}

/// A channel after its frame is coded or left out.
#[verifier::opaque]
pub open spec fn one_frame_more(b: EncoderChannelState) -> EncoderChannelState {
    EncoderChannelState {
        common: EncoderStateCommon {
            controlled_since_last_payload: false,
            input_buf_ix: 0,
            n_frames_encoded: (b.common.n_frames_encoded + 1) as usize,
            ..b.common
        },
        ..b
    }
}

fn count_frame(channel: &mut EncoderChannelState)
    requires
        old(channel).common.n_frames_encoded < 3,
    ensures
        *final(channel) == one_frame_more(*old(channel)),
{
    proof {
        reveal(one_frame_more);
    }
    frame_done(channel);
}

/// Ends a frame of all channels.
pub fn end_block(encoder: &mut Encoder, stereo: bool)
    requires
        old(encoder).mid.common.n_frames_encoded < 3,
        stereo ==> old(encoder).side.common.n_frames_encoded < 3,
    ensures
        block_ended(*old(encoder), stereo, *final(encoder)),
{
    let f: usize = encoder.mid.common.n_frames_encoded;
    let only_middle: bool = encoder.packet.stereo_state.mid_only_flags[f];
    count_frame(&mut encoder.mid);
    if stereo {
        count_frame(&mut encoder.side);
    }
    encoder.packet = PacketState { prev_decode_only_middle: only_middle, ..encoder.packet };
}

/// Ends a packet, if its last frame is coded: fills its flags in, and returns
/// the bytes that are sent.
pub fn finish_packet(
    encoder: &mut Encoder,
    control: &EncControl,
    range_encoder: &mut RangeEncoder,
    prefill: PrefillMode,
    n_bytes: i32,
) -> (r: i32)
    requires
        control.control_error() is None,
        1 <= old(encoder).mid.common.n_frames_per_packet <= 3,
        old(range_encoder).wf(),
        prefill == PrefillMode::Off && n_bytes > 0 && packet_complete(*old(encoder)) ==> old(
            range_encoder,
        )@.low + old(range_encoder)@.rng <= pow2(
            (31 + 8 * old(range_encoder)@.n - header_bits(
                old(encoder).mid.common.n_frames_per_packet as int,
                control.n_channels_internal as int,
            )) as nat,
        ),
    ensures
        final(range_encoder).wf(),
        if n_bytes > 0 && packet_complete(*old(encoder)) {
            let b = *old(encoder);
            let channels = control.n_channels_internal as int;
            let frames = b.mid.common.n_frames_per_packet as int;
            &&& r == if packet_pauses(b, channels) {
                0
            } else {
                n_bytes as int
            }
            &&& encoder_rested(b, *control, r as int, *final(encoder))
            &&& final(range_encoder)@ == if prefill == PrefillMode::Off {
                enc_patched(
                    old(range_encoder)@,
                    packet_flags(b, frames, channels),
                    header_bits(frames, channels) as nat,
                )
            } else {
                old(range_encoder)@
            }
        } else {
            &&& r == n_bytes
            &&& *final(encoder) == *old(encoder)
            &&& final(range_encoder)@ == old(range_encoder)@
        },
        final(range_encoder).capacity() == old(range_encoder).capacity(),
{
    if n_bytes <= 0 || encoder.mid.common.n_frames_encoded
        != encoder.mid.common.n_frames_per_packet {
        return n_bytes;
    }
    if !prefill.is_active() {
        let frames: usize = encoder.mid.common.n_frames_per_packet;
        fill_header(range_encoder, encoder, frames, control.n_channels_internal as usize);
    }
    rest_encoder(encoder, control, n_bytes)
}

fn rest_encoder(encoder: &mut Encoder, control: &EncControl, n_bytes: i32) -> (r: i32)
    requires
        control.control_error() is None,
    ensures
        r == if packet_pauses(*old(encoder), control.n_channels_internal as int) {
            0
        } else {
            n_bytes as int
        },
        encoder_rested(*old(encoder), *control, r as int, *final(encoder)),
{
    proof {
        reveal(encoder_rested);
    }
    end_packet(encoder, control, n_bytes)
}

/// All frames of a packet are coded.
pub open spec fn packet_complete(e: Encoder) -> bool {
    e.mid.common.n_frames_encoded == e.mid.common.n_frames_per_packet
}

/// `a` is the encoder `b` after a packet of which `sent` bytes are sent.
#[verifier::opaque]
pub open spec fn encoder_rested(b: Encoder, ctl: EncControl, sent: int, a: Encoder) -> bool {
    let kept = packet_ended(b.packet, ctl, sent, b.mid.common.speech_activity_q8 as int);
    a == (Encoder {
        mid: with_switch(b.mid, kept.allow_bandwidth_switch),
        side: if ctl.n_channels_internal == 2 {
            with_switch(b.side, kept.allow_bandwidth_switch)
        } else {
            b.side
        },
        packet: kept,
    })
}

/// A channel that is told whether its bandwidth may change.
pub open spec fn with_switch(b: EncoderChannelState, allowed: bool) -> EncoderChannelState {
    EncoderChannelState {
        common: EncoderStateCommon { allow_bandwidth_switch: allowed, ..b.common },
        ..b
    }
}

} // verus!
