//! Settings of an encoder channel before a packet is coded.
//!
//! Sample-rate conversion is done outside: the channel says whether its history
//! has to be converted, and is given the converted samples.
use crate::silk::check_control_input::{api_rate_ok, EncControl};
use crate::silk::control_audio_bandwidth::{
    bandwidth_step, decide_bandwidth, law_bandwidth_moves_by_steps, lp_after,
};
use crate::silk::encoder_state::{
    khz_or_none, EncoderChannelState, EncoderShapeState, EncoderStateCommon, LpState,
    NoiseShapingQuantizerState, SearchEffort,
};
use crate::silk::resampler::{resampler_error, Resampler};
use crate::silk::types::{FrameSignalType, SilkError};
use vstd::prelude::*;

verus! {

// ---------------------------------------------------------------------
// Settings
// ---------------------------------------------------------------------

/// The channel with what the control asks for.
pub open spec fn with_settings(
    c: EncoderStateCommon,
    ctl: EncControl,
    allow_bw_switch: bool,
    channel_nb: i32,
) -> EncoderStateCommon {
    EncoderStateCommon {
        use_dtx: ctl.use_dtx != 0,
        use_cbr: ctl.use_cbr != 0,
        api_sample_rate_hz: ctl.api_sample_rate,
        max_internal_sample_rate_hz: ctl.max_internal_sample_rate,
        min_internal_sample_rate_hz: ctl.min_internal_sample_rate,
        desired_internal_sample_rate_hz: ctl.desired_internal_sample_rate,
        use_in_band_fec: ctl.use_in_band_fec != 0,
        n_channels_api: ctl.n_channels_api,
        n_channels_internal: ctl.n_channels_internal,
        allow_bandwidth_switch: allow_bw_switch,
        channel_nb,
        ..c
    }
}

/// What has to be done to the conversion of the input.
#[derive(Debug, Clone, Copy, PartialEq, Eq, Structural)]
pub enum ResampleStep {
    /// Nothing: no rate has changed.
    Keep,
    /// It is set up for the first time.
    Fresh,
    /// It is set up anew, and the history is converted to the new rate.
    Convert,
}

pub open spec fn resample_step(c: EncoderStateCommon, fs_khz: int) -> ResampleStep {
    if c.fs_khz == fs_khz && c.prev_api_sample_rate_hz == c.api_sample_rate_hz {
        ResampleStep::Keep
    } else if c.fs_khz == 0 {
        ResampleStep::Fresh
    } else {
        ResampleStep::Convert
    }
}

/// Milliseconds of history that are converted.
pub open spec fn history_ms(c: EncoderStateCommon) -> int {
    10 * c.nb_subfr + 5
}

/// What the settings lead to before the rates are changed.
#[derive(Debug, Clone, Copy)]
pub struct ControlPlan {
    pub common: EncoderStateCommon,
    pub lp_state: LpState,
    pub control: EncControl,
    /// Whether the rest of the settings is left as it is.
    pub settled: bool,
    /// Internal rate in kHz.
    pub fs_khz: i32,
    pub resample: ResampleStep,
}

/// The channel was set up since the last packet.
pub open spec fn is_settled(c: EncoderStateCommon) -> bool {
    c.controlled_since_last_payload && !c.prefill_flag
}

/// The rate that the side channel is bound to is a rate.
pub open spec fn forced_rate_ok(force: Option<i32>) -> bool {
    match force {
        Some(khz) => khz_or_none(khz as int),
        None => true,
    }
}

/// `p` is what the settings lead to.
pub open spec fn plan_holds(
    c: EncoderStateCommon,
    lp: LpState,
    ctl: EncControl,
    allow_bw_switch: bool,
    channel_nb: i32,
    force: Option<i32>,
    p: ControlPlan,
) -> bool {
    let set = with_settings(c, ctl, allow_bw_switch, channel_nb);
    &&& p.common == set
    &&& p.settled == is_settled(set)
    &&& if is_settled(set) {
        &&& p.lp_state == lp
        &&& p.control == ctl
        &&& p.fs_khz == set.fs_khz
        &&& p.resample == if set.api_sample_rate_hz != set.prev_api_sample_rate_hz && set.fs_khz
            > 0 {
            ResampleStep::Convert
        } else {
            ResampleStep::Keep
        }
    } else {
        let s = bandwidth_step(set, lp, ctl);
        &&& lp_after(lp, s, p.lp_state)
        &&& p.control == (EncControl {
            switch_ready: s.switch_ready,
            max_bits: p.control.max_bits,
            ..ctl
        })
        &&& p.control.max_bits == s.max_bits
        &&& p.fs_khz == match force {
            Some(khz) if khz != 0 => khz as int,
            _ => s.fs_khz,
        }
        &&& p.resample == resample_step(set, p.fs_khz as int)
    }
}

/// What the settings lead to; an error where the forced rate is no rate. The
/// filter and the control are in the plan in either case.
pub fn plan_control(
    common: &EncoderStateCommon,
    lp_state: &LpState,
    enc_control: &EncControl,
    allow_bw_switch: bool,
    channel_nb: i32,
    force_fs_khz: Option<i32>,
) -> (r: ControlPlan)
    requires
        common.wf(),
        khz_or_none(lp_state.saved_fs_khz as int),
        enc_control.rates_ok(),
        -5 < enc_control.payload_size_ms <= 0x7fff_fffa,
    ensures
        plan_holds(
            *common,
            *lp_state,
            *enc_control,
            allow_bw_switch,
            channel_nb,
            force_fs_khz,
            r,
        ),
{
    let set: EncoderStateCommon = EncoderStateCommon {
        use_dtx: enc_control.use_dtx != 0,
        use_cbr: enc_control.use_cbr != 0,
        api_sample_rate_hz: enc_control.api_sample_rate,
        max_internal_sample_rate_hz: enc_control.max_internal_sample_rate,
        min_internal_sample_rate_hz: enc_control.min_internal_sample_rate,
        desired_internal_sample_rate_hz: enc_control.desired_internal_sample_rate,
        use_in_band_fec: enc_control.use_in_band_fec != 0,
        n_channels_api: enc_control.n_channels_api,
        n_channels_internal: enc_control.n_channels_internal,
        allow_bandwidth_switch: allow_bw_switch,
        channel_nb,
        ..*common
    };
    let mut lp: LpState = *lp_state;
    let mut control: EncControl = *enc_control;
    if set.controlled_since_last_payload && !set.prefill_flag {
        let changed: bool = set.api_sample_rate_hz != set.prev_api_sample_rate_hz && set.fs_khz > 0;
        return ControlPlan {
            common: set,
            lp_state: lp,
            control,
            settled: true,
            fs_khz: set.fs_khz,
            resample: if changed {
                ResampleStep::Convert
            } else {
                ResampleStep::Keep
            },
        };
    }
    let decided: i32 = decide_bandwidth(&set, &mut lp, &mut control);
    let fs_khz: i32 = match force_fs_khz {
        Some(khz) => if khz != 0 {
            khz
        } else {
            decided
        },
        None => decided,
    };
    let resample: ResampleStep = if set.fs_khz == fs_khz && set.prev_api_sample_rate_hz
        == set.api_sample_rate_hz {
        ResampleStep::Keep
    } else if set.fs_khz == 0 {
        ResampleStep::Fresh
    } else {
        ResampleStep::Convert
    };
    ControlPlan { common: set, lp_state: lp, control, settled: false, fs_khz, resample }
}

// ---------------------------------------------------------------------
// Rates and lengths
// ---------------------------------------------------------------------

/// The lengths that follow from the packet duration: frames, subframes,
/// samples of a frame and of the pitch analysis window.
pub open spec fn packet_shape(packet_size_ms: int, fs_khz: int) -> Option<(int, int, int, int)> {
    if packet_size_ms == 10 {
        Some((1, 2, 10 * fs_khz, 14 * fs_khz))
    } else if packet_size_ms == 20 || packet_size_ms == 40 || packet_size_ms == 60 {
        Some((packet_size_ms / 20, 4, 20 * fs_khz, 24 * fs_khz))
    } else {
        None
    }
}

/// The channel with a packet duration.
pub open spec fn with_packet_size(c: EncoderStateCommon, ms: i32, fs_khz: int) -> EncoderStateCommon {
    if c.packet_size_ms == ms {
        c
    } else {
        let (frames, subframes, samples, window) = packet_shape(ms as int, fs_khz)->0;
        EncoderStateCommon {
            n_frames_per_packet: frames as usize,
            nb_subfr: subframes as usize,
            frame_length: samples as usize,
            pitch_lpc_win_length: window as usize,
            packet_size_ms: ms,
            target_rate_bps: 0,
            ..c
        }
    }
}

/// Channel `c` at another internal rate: its history is reset, and its lengths
/// follow from the rate.
pub open spec fn at_rate(c: EncoderStateCommon, fs_khz: i32, nlsf: [i16; 16]) -> EncoderStateCommon {
    EncoderStateCommon {
        nsq_state: NoiseShapingQuantizerState { lag_prev: 100, prev_gain_q16: 65536 },
        prev_nlsf_q15: nlsf,
        input_buf_ix: 0,
        n_frames_encoded: 0,
        target_rate_bps: 0,
        prev_lag: 100,
        first_frame_after_reset: true,
        prev_signal_type: FrameSignalType::Inactive,
        fs_khz,
        predict_lpc_order: if fs_khz == 16 {
            16
        } else {
            10
        },
        subfr_length: (5 * fs_khz) as usize,
        frame_length: (if c.nb_subfr == 4 {
            20 * fs_khz
        } else {
            10 * fs_khz
        }) as usize,
        ltp_mem_length: (20 * fs_khz) as usize,
        la_pitch: (2 * fs_khz) as i32,
        max_pitch_lag: (18 * fs_khz) as i32,
        pitch_lpc_win_length: (if c.nb_subfr == 4 {
            24 * fs_khz
        } else {
            14 * fs_khz
        }) as usize,
        ..c
    }
}

/// The channel after its rate and its packet duration are set; `nlsf` are the
/// frequencies of a channel whose rate has changed.
pub open spec fn fs_set(
    c: EncoderStateCommon,
    fs_khz: i32,
    packet_size_ms: i32,
    nlsf: [i16; 16],
) -> EncoderStateCommon {
    let p = with_packet_size(c, packet_size_ms, fs_khz as int);
    if p.fs_khz == fs_khz {
        p
    } else {
        at_rate(p, fs_khz, nlsf)
    }
}

/// Channel `f` with the effort and the redundancy that the control asks for.
pub open spec fn tuned(f: EncoderStateCommon, ctl: EncControl) -> EncoderStateCommon {
    EncoderStateCommon {
        effort: effort_of(ctl.complexity as int, f.fs_khz as int, f.predict_lpc_order as int),
        packet_loss_perc: ctl.packet_loss_percentage,
        lbrr_enabled: ctl.lbrr_coded != 0,
        lbrr_gain_increases: redundancy_gain(
            f.lbrr_enabled,
            ctl.lbrr_coded != 0,
            ctl.packet_loss_percentage as int,
            f.lbrr_gain_increases as int,
        ) as i32,
        controlled_since_last_payload: true,
        ..f
    }
}

/// `a` is channel `c` after its rate, its packet duration, its effort and its
/// redundancy are set.
#[verifier::opaque]
pub open spec fn configured(
    c: EncoderStateCommon,
    fs_khz: i32,
    ctl: EncControl,
    a: EncoderStateCommon,
) -> bool {
    &&& a == tuned(fs_set(c, fs_khz, ctl.payload_size_ms, a.prev_nlsf_q15), ctl)
    &&& c.fs_khz != fs_khz ==> a.prev_nlsf_q15@ == Seq::new(16, |i: int| 0i16)
}

fn setup_packet_size(common: &mut EncoderStateCommon, fs_khz: i32, packet_size_ms: i32) -> (r: Result<
    (),
    SilkError,
>)
    requires
        fs_khz == 8 || fs_khz == 12 || fs_khz == 16,
    ensures
        if old(common).packet_size_ms != packet_size_ms && packet_shape(
            packet_size_ms as int,
            fs_khz as int,
        ) is None {
            r == Err::<(), SilkError>(SilkError::EncPacketSizeNotSupported) && *final(common)
                == *old(common)
        } else {
            r == Ok::<(), SilkError>(()) && *final(common) == with_packet_size(
                *old(common),
                packet_size_ms,
                fs_khz as int,
            )
        },
{
    if packet_size_ms == common.packet_size_ms {
        return Ok(());
    }
    let short: bool = packet_size_ms == 10;
    if !short && packet_size_ms != 20 && packet_size_ms != 40 && packet_size_ms != 60 {
        return Err(SilkError::EncPacketSizeNotSupported);
    }
    let n_frames_per_packet: usize = if short {
        1
    } else {
        (packet_size_ms / 20) as usize
    };
    let (nb_subfr, frame_length, pitch_lpc_win_length): (usize, usize, usize) = if short {
        (2, (10 * fs_khz) as usize, (14 * fs_khz) as usize)
    } else {
        (4, (20 * fs_khz) as usize, (24 * fs_khz) as usize)
    };
    *common =
    EncoderStateCommon {
        n_frames_per_packet,
        nb_subfr,
        frame_length,
        pitch_lpc_win_length,
        packet_size_ms,
        target_rate_bps: 0,
        ..*common
    };
    Ok(())
}

#[verifier::rlimit(50)]
fn setup_rate(common: &mut EncoderStateCommon, fs_khz: i32)
    requires
        fs_khz == 8 || fs_khz == 12 || fs_khz == 16,
        old(common).nb_subfr == 2 || old(common).nb_subfr == 4,
    ensures
        *final(common) == at_rate(*old(common), fs_khz, final(common).prev_nlsf_q15),
        final(common).prev_nlsf_q15@ == Seq::new(16, |i: int| 0i16),
{
    let zeros: [i16; 16] = [0;16];
    assert(zeros@ =~= Seq::new(16, |i: int| 0i16));
    let long: bool = common.nb_subfr == 4;
    let predict_lpc_order: usize = if fs_khz == 16 {
        16
    } else {
        10
    };
    let frame_length: usize = if long {
        (20 * fs_khz) as usize
    } else {
        (10 * fs_khz) as usize
    };
    let pitch_lpc_win_length: usize = if long {
        (24 * fs_khz) as usize
    } else {
        (14 * fs_khz) as usize
    };
    *common =
    EncoderStateCommon {
        nsq_state: NoiseShapingQuantizerState { lag_prev: 100, prev_gain_q16: 65536 },
        prev_nlsf_q15: zeros,
        input_buf_ix: 0,
        n_frames_encoded: 0,
        target_rate_bps: 0,
        prev_lag: 100,
        first_frame_after_reset: true,
        prev_signal_type: FrameSignalType::Inactive,
        fs_khz,
        predict_lpc_order,
        subfr_length: (5 * fs_khz) as usize,
        frame_length,
        ltp_mem_length: (20 * fs_khz) as usize,
        la_pitch: 2 * fs_khz,
        max_pitch_lag: 18 * fs_khz,
        pitch_lpc_win_length,
        ..*common
    };
}

// ---------------------------------------------------------------------
// Effort
// ---------------------------------------------------------------------

/// The effort of a complexity from 0 to 10 at an internal rate.
pub open spec fn effort_of(complexity: int, fs_khz: int, lpc_order: int) -> SearchEffort {
    // pitch search, threshold (Q16), orders, look-ahead in ms, delayed
    // decisions, interpolation, survivors and whether the shaping is warped
    let (pitch, threshold, order, shaping, la, states, interpolate, survivors) = if complexity
        < 1 {
        (0int, 52429int, 6int, 12int, 3int, 1int, false, 2int)
    } else if complexity < 2 {
        (1, 49807, 8, 14, 5, 1, false, 3)
    } else if complexity < 3 {
        (0, 52429, 6, 12, 3, 2, false, 2)
    } else if complexity < 4 {
        (1, 49807, 8, 14, 5, 2, false, 4)
    } else if complexity < 6 {
        (1, 48497, 10, 16, 5, 2, true, 6)
    } else if complexity < 8 {
        (1, 47186, 12, 20, 5, 3, true, 8)
    } else {
        (2, 45875, 16, 24, 5, 4, true, 16)
    };
    SearchEffort {
        complexity: complexity as i32,
        pitch_estimation_complexity: pitch as i32,
        pitch_estimation_threshold_q16: threshold as i32,
        pitch_estimation_lpc_order: (if order > lpc_order {
            lpc_order
        } else {
            order
        }) as i32,
        shaping_lpc_order: shaping as i32,
        la_shape: (la * fs_khz) as i32,
        shape_win_length: (5 * fs_khz + 2 * la * fs_khz) as i32,
        n_states_delayed_decision: states as i32,
        use_interpolated_nlsfs: interpolate,
        nlsf_msvq_survivors: survivors as i32,
        warping_q16: (if interpolate {
            983 * fs_khz
        } else {
            0
        }) as i32,
    }
}

fn effort_for(complexity: i32, fs_khz: i32, lpc_order: usize) -> (r: SearchEffort)
    requires
        khz_or_none(fs_khz as int),
        lpc_order <= 16,
    ensures
        r == effort_of(complexity as int, fs_khz as int, lpc_order as int),
{
    let (pitch, threshold, order, shaping, la, states, interpolate, survivors): (
        i32,
        i32,
        i32,
        i32,
        i32,
        i32,
        bool,
        i32,
    ) = if complexity < 1 {
        (0, 52429, 6, 12, 3, 1, false, 2)
    } else if complexity < 2 {
        (1, 49807, 8, 14, 5, 1, false, 3)
    } else if complexity < 3 {
        (0, 52429, 6, 12, 3, 2, false, 2)
    } else if complexity < 4 {
        (1, 49807, 8, 14, 5, 2, false, 4)
    } else if complexity < 6 {
        (1, 48497, 10, 16, 5, 2, true, 6)
    } else if complexity < 8 {
        (1, 47186, 12, 20, 5, 3, true, 8)
    } else {
        (2, 45875, 16, 24, 5, 4, true, 16)
    };
    let own: i32 = lpc_order as i32;
    assert(la == 3 || la == 5);
    SearchEffort {
        complexity,
        pitch_estimation_complexity: pitch,
        pitch_estimation_threshold_q16: threshold,
        pitch_estimation_lpc_order: if order > own {
            own
        } else {
            order
        },
        shaping_lpc_order: shaping,
        la_shape: la * fs_khz,
        shape_win_length: 5 * fs_khz + 2 * la * fs_khz,
        n_states_delayed_decision: states,
        use_interpolated_nlsfs: interpolate,
        nlsf_msvq_survivors: survivors,
        warping_q16: if interpolate {
            983 * fs_khz
        } else {
            0
        },
    }
}

/// Whatever the complexity, the effort stays inside the limits of the
/// algorithms that it is for.
pub proof fn law_effort_inside_limits(complexity: int, fs_khz: int, lpc_order: int)
    requires
        0 <= complexity <= 10,
        fs_khz == 8 || fs_khz == 12 || fs_khz == 16,
        lpc_order == 10 || lpc_order == 16,
    ensures
        ({
            let e = effort_of(complexity, fs_khz, lpc_order);
            &&& 6 <= e.pitch_estimation_lpc_order <= lpc_order
            &&& 12 <= e.shaping_lpc_order <= 24
            &&& 1 <= e.n_states_delayed_decision <= 4
            &&& 0 <= e.warping_q16 <= 32767
            &&& 0 < e.la_shape <= 80
            &&& 0 < e.shape_win_length <= 240
        }),
{
}

// ---------------------------------------------------------------------
// Redundancy
// ---------------------------------------------------------------------

/// How many levels the gain of redundant frames is raised: 7 at first, then
/// fewer the more packets are lost, but 3 at least.
pub open spec fn redundancy_gain(before: bool, enabled: bool, loss: int, gain: int) -> int {
    if !enabled {
        gain
    } else if !before {
        7
    } else if 7 - (loss * 13107) / 65536 > 3 {
        7 - (loss * 13107) / 65536
    } else {
        3
    }
}

/// Gain increase of redundant frames.
fn redundancy_increase(before: bool, enabled: bool, loss: i32, gain: i32) -> (r: i32)
    requires
        0 <= loss <= 100,
    ensures
        r == redundancy_gain(before, enabled, loss as int, gain as int),
{
    if !enabled {
        return gain;
    }
    if !before {
        return 7;
    }
    let reduction: i32 = loss * 13107 / 65536;
    if 7 - reduction > 3 {
        7 - reduction
    } else {
        3
    }
}

// ---------------------------------------------------------------------
// All of it
// ---------------------------------------------------------------------

/// Why a plan cannot be carried out.
pub open spec fn plan_fault(
    p: ControlPlan,
    ctl: EncControl,
    force: Option<i32>,
    history: int,
) -> Option<SilkError> {
    if !p.settled && !forced_rate_ok(force) {
        Some(SilkError::EncFsNotSupported)
    } else if p.resample != ResampleStep::Keep && resampler_error(
        p.common.api_sample_rate_hz as int,
        p.fs_khz * 1000,
        true,
    ) is Some {
        Some(SilkError::EncInternalError)
    } else if p.resample == ResampleStep::Convert && history != history_ms(p.common) * p.fs_khz {
        Some(SilkError::EncInternalError)
    } else if !p.settled && p.common.packet_size_ms != ctl.payload_size_ms && packet_shape(
        ctl.payload_size_ms as int,
        p.fs_khz as int,
    ) is None {
        Some(SilkError::EncPacketSizeNotSupported)
    } else {
        None
    }
}

/// `samples` with `front` at their start.
pub open spec fn with_front(samples: Seq<i16>, front: Seq<i16>) -> Seq<i16> {
    Seq::new(
        samples.len(),
        |i: int|
            if i < front.len() {
                front[i]
            } else {
                samples[i]
            },
    )
}

/// The settings of the channel after a plan is carried out.
pub open spec fn settings_after(
    p: ControlPlan,
    ctl: EncControl,
    a: EncoderStateCommon,
) -> bool {
    let known = EncoderStateCommon {
        prev_api_sample_rate_hz: if p.resample == ResampleStep::Keep {
            p.common.prev_api_sample_rate_hz
        } else {
            p.common.api_sample_rate_hz
        },
        ..p.common
    };
    if p.settled {
        a == known
    } else {
        configured(known, p.fs_khz, ctl, a)
    }
}

/// The channel after settings that are refused: the plan is taken, and a packet
/// duration is refused only after the rates are set up.
pub open spec fn refused_after(
    before: EncoderChannelState,
    p: ControlPlan,
    history: Seq<i16>,
    e: SilkError,
    after: EncoderChannelState,
) -> bool {
    let late = e == SilkError::EncPacketSizeNotSupported;
    let converted = late && p.resample != ResampleStep::Keep;
    &&& after == (EncoderChannelState {
        common: EncoderStateCommon {
            prev_api_sample_rate_hz: if converted {
                p.common.api_sample_rate_hz
            } else {
                p.common.prev_api_sample_rate_hz
            },
            ..p.common
        },
        lp_state: p.lp_state,
        x_buf: after.x_buf,
        resampler_state: if converted {
            Resampler {
                fs_in_hz: p.common.api_sample_rate_hz,
                fs_out_hz: (p.fs_khz * 1000) as i32,
            }
        } else {
            before.resampler_state
        },
        ..before
    })
    &&& after.x_buf@ == if late && p.resample == ResampleStep::Convert {
        with_front(before.x_buf@, history)
    } else {
        before.x_buf@
    }
}

/// The rest of the channel after a plan is carried out: the histories start
/// anew when the internal rate changes.
pub open spec fn histories_after(
    before: EncoderChannelState,
    p: ControlPlan,
    history: Seq<i16>,
    after: EncoderChannelState,
) -> bool {
    let changed = !p.settled && p.common.fs_khz != p.fs_khz;
    &&& after.x_buf@ == if p.resample == ResampleStep::Convert {
        with_front(before.x_buf@, history)
    } else {
        before.x_buf@
    }
    &&& after.input_buf == before.input_buf
    &&& after.resampler_state == if p.resample == ResampleStep::Keep {
        before.resampler_state
    } else {
        Resampler {
            fs_in_hz: p.common.api_sample_rate_hz,
            fs_out_hz: (p.fs_khz * 1000) as i32,
        }
    }
    &&& if changed {
        after.lp_state.at_rest() && after.shape_state == (EncoderShapeState { last_gain_index: 10 })
    } else {
        after.lp_state == p.lp_state && after.shape_state == before.shape_state
    }
}

/// The lengths fit each other once there is a rate.
pub open spec fn shaped(c: EncoderStateCommon) -> bool {
    c.fs_khz != 0 ==> {
        &&& c.frame_length == 5 * c.fs_khz * c.nb_subfr
        &&& c.subfr_length == 5 * c.fs_khz
        &&& c.ltp_mem_length == 20 * c.fs_khz
        &&& c.predict_lpc_order == if c.fs_khz == 16 {
            16int
        } else {
            10
        }
    }
}

/// Sets the rate, the packet duration, the effort and the redundancy.
#[verifier::rlimit(60)]
fn configure(common: &mut EncoderStateCommon, fs_khz: i32, ctl: &EncControl) -> (r: Result<
    (),
    SilkError,
>)
    requires
        fs_khz == 8 || fs_khz == 12 || fs_khz == 16,
        old(common).wf(),
        shaped(*old(common)),
        0 <= ctl.packet_loss_percentage <= 100,
    ensures
        final(common).wf(),
        shaped(*final(common)),
        if old(common).packet_size_ms != ctl.payload_size_ms && packet_shape(
            ctl.payload_size_ms as int,
            fs_khz as int,
        ) is None {
            r == Err::<(), SilkError>(SilkError::EncPacketSizeNotSupported) && *final(common)
                == *old(common)
        } else {
            r == Ok::<(), SilkError>(()) && configured(*old(common), fs_khz, *ctl, *final(common))
        },
{
    proof {
        reveal(configured);
    }
    match setup_packet_size(common, fs_khz, ctl.payload_size_ms) {
        Ok(_) => {},
        Err(e) => return Err(e),
    }
    if common.fs_khz != fs_khz {
        setup_rate(common, fs_khz);
    }
    let ghost f = *common;
    assert(f.fs_khz == fs_khz);
    assert(f == fs_set(*old(common), fs_khz, ctl.payload_size_ms, f.prev_nlsf_q15));
    let effort: SearchEffort = effort_for(ctl.complexity, fs_khz, common.predict_lpc_order);
    let lbrr_enabled: bool = ctl.lbrr_coded != 0;
    let lbrr_gain_increases: i32 = redundancy_increase(
        common.lbrr_enabled,
        lbrr_enabled,
        ctl.packet_loss_percentage,
        common.lbrr_gain_increases,
    );
    *common =
    EncoderStateCommon {
        effort,
        packet_loss_perc: ctl.packet_loss_percentage,
        lbrr_enabled,
        lbrr_gain_increases,
        controlled_since_last_payload: true,
        ..*common
    };
    assert(*common == tuned(f, *ctl));
    Ok(())
}

fn setup_resamplers(encoder: &mut EncoderChannelState, plan: &ControlPlan, history: &[i16]) -> (r:
    Result<(), SilkError>)
    requires
        old(encoder).wf(),
        plan.common.wf(),
        khz_or_none(plan.fs_khz as int),
        api_rate_ok(plan.common.api_sample_rate_hz as int),
    ensures
        final(encoder).common == old(encoder).common,
        final(encoder).lp_state == old(encoder).lp_state,
        final(encoder).shape_state == old(encoder).shape_state,
        final(encoder).input_buf == old(encoder).input_buf,
        final(encoder).x_buf@.len() == old(encoder).x_buf@.len(),
        ({
            let rates = resampler_error(
                plan.common.api_sample_rate_hz as int,
                plan.fs_khz * 1000,
                true,
            ) is Some;
            let short = plan.resample == ResampleStep::Convert && history@.len() != history_ms(
                plan.common,
            ) * plan.fs_khz;
            if plan.resample != ResampleStep::Keep && (rates || short) {
                r == Err::<(), SilkError>(SilkError::EncInternalError) && *final(encoder) == *old(
                    encoder,
                )
            } else {
                &&& r == Ok::<(), SilkError>(())
                &&& final(encoder).x_buf@ == if plan.resample == ResampleStep::Convert {
                    with_front(old(encoder).x_buf@, history@)
                } else {
                    old(encoder).x_buf@
                }
                &&& final(encoder).resampler_state == if plan.resample == ResampleStep::Keep {
                    old(encoder).resampler_state
                } else {
                    Resampler {
                        fs_in_hz: plan.common.api_sample_rate_hz,
                        fs_out_hz: (plan.fs_khz * 1000) as i32,
                    }
                }
            }
        }),
{
    match plan.resample {
        ResampleStep::Keep => {
            return Ok(());
        },
        _ => {},
    }
    let mut converter: Resampler = encoder.resampler_state;
    match converter.silk_resampler_init(plan.common.api_sample_rate_hz, plan.fs_khz * 1000, true) {
        Ok(_) => {},
        Err(_) => return Err(SilkError::EncInternalError),
    }
    if let ResampleStep::Convert = plan.resample {
        proof {
            assert((10 * plan.common.nb_subfr + 5) * plan.fs_khz <= 720) by (nonlinear_arith)
                requires
                    plan.common.nb_subfr <= 4,
                    0 <= plan.fs_khz <= 16,
            ;
        }
        let n: usize = (10 * plan.common.nb_subfr + 5) * plan.fs_khz as usize;
        if history.len() != n {
            return Err(SilkError::EncInternalError);
        }
        let ghost before = encoder.x_buf@;
        for i in 0..n
            invariant
                n <= 720,
                history@.len() == n,
                before.len() == 720,
                encoder.x_buf@.len() == 720,
                encoder.common == old(encoder).common,
                encoder.lp_state == old(encoder).lp_state,
                encoder.shape_state == old(encoder).shape_state,
                encoder.input_buf == old(encoder).input_buf,
                forall|j: int|
                    0 <= j < 720 ==> #[trigger] encoder.x_buf@[j] == if j < i {
                        history@[j]
                    } else {
                        before[j]
                    },
        {
            encoder.x_buf[i] = history[i];
        }
        assert(encoder.x_buf@ =~= with_front(before, history@));
    }
    encoder.resampler_state = converter;
    Ok(())
}

/// Carries out a plan.
#[verifier::rlimit(80)]
fn carry_out(
    encoder: &mut EncoderChannelState,
    plan: &ControlPlan,
    asked: &EncControl,
    force_fs_khz: Option<i32>,
    history: &[i16],
) -> (r: Result<(), SilkError>)
    requires
        old(encoder).wf(),
        plan.common.wf(),
        shaped(plan.common),
        khz_or_none(plan.lp_state.saved_fs_khz as int),
        api_rate_ok(plan.common.api_sample_rate_hz as int),
        plan.settled || forced_rate_ok(force_fs_khz) ==> khz_or_none(plan.fs_khz as int),
        !plan.settled && forced_rate_ok(force_fs_khz) ==> plan.fs_khz != 0,
        0 <= asked.packet_loss_percentage <= 100,
    ensures
        final(encoder).wf(),
        shaped(final(encoder).common),
        match plan_fault(*plan, *asked, force_fs_khz, history@.len() as int) {
            Some(e) => r == Err::<(), SilkError>(e) && refused_after(
                *old(encoder),
                *plan,
                history@,
                e,
                *final(encoder),
            ),
            None => r == Ok::<(), SilkError>(()) && settings_after(
                *plan,
                *asked,
                final(encoder).common,
            ) && histories_after(*old(encoder), *plan, history@, *final(encoder)),
        },
{
    encoder.lp_state = plan.lp_state;
    encoder.common = plan.common;
    if !plan.settled {
        if let Some(khz) = force_fs_khz {
            if khz != 0 && khz != 8 && khz != 12 && khz != 16 {
                return Err(SilkError::EncFsNotSupported);
            }
        }
    }
    match setup_resamplers(encoder, plan, history) {
        Ok(_) => {},
        Err(e) => return Err(e),
    }
    let prev_api_sample_rate_hz: i32 = match plan.resample {
        ResampleStep::Keep => plan.common.prev_api_sample_rate_hz,
        _ => plan.common.api_sample_rate_hz,
    };
    let mut common: EncoderStateCommon = EncoderStateCommon {
        prev_api_sample_rate_hz,
        ..plan.common
    };
    if plan.settled {
        encoder.common = common;
        return Ok(());
    }
    let changed: bool = common.fs_khz != plan.fs_khz;
    let result: Result<(), SilkError> = configure(&mut common, plan.fs_khz, asked);
    encoder.common = common;
    match result {
        Ok(_) => {},
        Err(e) => return Err(e),
    }
    if changed {
        encoder.lp_state = LpState::default();
        encoder.shape_state = EncoderShapeState { last_gain_index: 10 };
    }
    Ok(())
}

/// Sets a channel up for a packet. `history` is the first part of the analysis
/// history at the new internal rate; it is read where the plan of the settings
/// says that the history is converted.
pub fn control_encoder(
    encoder: &mut EncoderChannelState,
    enc_control: &mut EncControl,
    allow_bw_switch: bool,
    channel_nb: i32,
    force_fs_khz: Option<i32>,
    history: &[i16],
) -> (r: Result<(), SilkError>)
    requires
        old(encoder).wf(),
        shaped(old(encoder).common),
        old(enc_control).rates_ok(),
        0 <= old(enc_control).packet_loss_percentage <= 100,
        -5 < old(enc_control).payload_size_ms <= 0x7fff_fffa,
    ensures
        exists|p: ControlPlan| #[trigger]
            plan_holds(
                old(encoder).common,
                old(encoder).lp_state,
                *old(enc_control),
                allow_bw_switch,
                channel_nb,
                force_fs_khz,
                p,
            ) && *final(enc_control) == p.control && match plan_fault(
                p,
                *old(enc_control),
                force_fs_khz,
                history@.len() as int,
            ) {
                Some(e) => r == Err::<(), SilkError>(e) && refused_after(
                    *old(encoder),
                    p,
                    history@,
                    e,
                    *final(encoder),
                ),
                None => r == Ok::<(), SilkError>(()) && settings_after(
                    p,
                    *old(enc_control),
                    final(encoder).common,
                ) && histories_after(*old(encoder), p, history@, *final(encoder)),
            },
        final(encoder).wf(),
        shaped(final(encoder).common),
{
    let plan: ControlPlan = plan_control(
        &encoder.common,
        &encoder.lp_state,
        enc_control,
        allow_bw_switch,
        channel_nb,
        force_fs_khz,
    );
    proof {
        law_bandwidth_moves_by_steps(plan.common, encoder.lp_state, *enc_control);
    }
    let asked: EncControl = *enc_control;
    *enc_control = plan.control;
    carry_out(encoder, &plan, &asked, force_fs_khz, history)
}

} // verus!
