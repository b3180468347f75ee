//! Control state of a single-stream encoder: its settings, and what it reports
//! of the frame that it coded last.
use crate::opus_decoder::{is_stream_rate, stream_rate};
use crate::silk::types::SilkError;
use vstd::prelude::*;

verus! {

/// Value of a setting that is left to the encoder.
pub const OPUS_AUTO: i32 = -1000;

/// Bitrate setting that asks for the highest bitrate.
pub const OPUS_BITRATE_MAX: i32 = -1;

/// Frame duration setting that takes the duration of each call.
pub const OPUS_FRAMESIZE_ARG: i32 = 5000;

pub const OPUS_APPLICATION_VOIP: i32 = 2048;

pub const OPUS_APPLICATION_AUDIO: i32 = 2049;

pub const OPUS_APPLICATION_RESTRICTED_LOWDELAY: i32 = 2051;

/// Why an encoder could not be set up.
#[derive(Debug, Clone, Copy, PartialEq, Eq, Structural)]
pub enum OpusEncoderInitError {
    BadArgument,
    SilkInit(SilkError),
}

impl OpusEncoderInitError {
    pub open spec fn number(self) -> int {
        match self {
            OpusEncoderInitError::BadArgument => -1,
            OpusEncoderInitError::SilkInit(_) => -3,
        }
    }

    /// The number of the error.
    pub fn code(&self) -> (r: i32)
        ensures
            r == self.number(),
    {
        match self {
            OpusEncoderInitError::BadArgument => -1,
            OpusEncoderInitError::SilkInit(_) => -3,
        }
    }
}

/// Why an encoder refused a control request.
#[derive(Debug, Clone, Copy, PartialEq, Eq, Structural)]
pub enum OpusEncoderCtlError {
    BadArgument,
    Unimplemented,
    Silk(SilkError),
}

impl OpusEncoderCtlError {
    pub open spec fn number(self) -> int {
        match self {
            OpusEncoderCtlError::BadArgument => -1,
            OpusEncoderCtlError::Unimplemented => -5,
            OpusEncoderCtlError::Silk(_) => -3,
        }
    }

    /// The number of the error.
    pub fn code(&self) -> (r: i32)
        ensures
            r == self.number(),
    {
        match self {
            OpusEncoderCtlError::BadArgument => -1,
            OpusEncoderCtlError::Unimplemented => -5,
            OpusEncoderCtlError::Silk(_) => -3,
        }
    }
}

/// Why a frame could not be coded.
#[derive(Debug, Clone, Copy, PartialEq, Eq, Structural)]
pub enum OpusEncodeError {
    BadArgument,
    BufferTooSmall,
    InternalError,
    Unimplemented,
    Silk(SilkError),
}

impl OpusEncodeError {
    pub open spec fn number(self) -> int {
        match self {
            OpusEncodeError::BadArgument => -1,
            OpusEncodeError::BufferTooSmall => -2,
            OpusEncodeError::InternalError => -3,
            OpusEncodeError::Unimplemented => -5,
            OpusEncodeError::Silk(_) => -3,
        }
    }

    /// The number of the error.
    pub fn code(&self) -> (r: i32)
        ensures
            r == self.number(),
    {
        match self {
            OpusEncodeError::BadArgument => -1,
            OpusEncodeError::BufferTooSmall => -2,
            OpusEncodeError::InternalError => -3,
            OpusEncodeError::Unimplemented => -5,
            OpusEncodeError::Silk(_) => -3,
        }
    }
}

/// The control state of an encoder.
#[derive(Debug, Clone, Copy, PartialEq, Eq, Structural)]
pub struct OpusEncoder {
    /// Input rate in Hz.
    pub fs: i32,
    /// Input channels, 1 or 2.
    pub channels: i32,
    pub application: i32,
    /// Whether no frame has been coded yet.
    pub first: bool,
    /// Bitrate asked for, `OPUS_AUTO` or `OPUS_BITRATE_MAX`.
    pub user_bitrate_bps: i32,
    pub force_channels: i32,
    pub max_bandwidth: i32,
    pub user_bandwidth: i32,
    /// Bandwidth of the last frame.
    pub bandwidth: i32,
    pub use_vbr: bool,
    pub vbr_constraint: bool,
    pub complexity: i32,
    pub signal_type: i32,
    pub voice_ratio: i32,
    pub packet_loss_perc: i32,
    pub inband_fec: bool,
    pub use_dtx: bool,
    pub in_dtx: bool,
    pub lsb_depth: i32,
    pub prediction_disabled: bool,
    pub phase_inversion_disabled: bool,
    pub dred_duration: i32,
    pub user_forced_mode: i32,
    /// Samples of the last frame, 0 before the first one.
    pub prev_framesize: i32,
    /// Final range of the last frame.
    pub range_final: u32,
}

/// What an encoder reports of the frame that it coded last.
#[derive(Debug, Clone, Copy, PartialEq, Eq, Structural)]
pub struct EncoderReport {
    /// Whether no frame has been coded yet.
    pub first: bool,
    /// Bandwidth of the frame.
    pub bandwidth: i32,
    /// Whether transmission pauses.
    pub in_dtx: bool,
    /// Samples of the frame, 0 before the first one.
    pub prev_framesize: u16,
    /// Final range of the frame.
    pub range_final: u32,
}

pub open spec fn is_application(a: int) -> bool {
    a == OPUS_APPLICATION_VOIP || a == OPUS_APPLICATION_AUDIO || a
        == OPUS_APPLICATION_RESTRICTED_LOWDELAY
}

fn known_application(a: i32) -> (r: bool)
    ensures
        r == is_application(a as int),
{
    a == OPUS_APPLICATION_VOIP || a == OPUS_APPLICATION_AUDIO || a
        == OPUS_APPLICATION_RESTRICTED_LOWDELAY
}

impl OpusEncoder {
    /// An encoder as it is set up.
    pub open spec fn fresh(fs: i32, channels: i32, application: i32) -> OpusEncoder {
        OpusEncoder {
            fs,
            channels,
            application,
            first: true,
            user_bitrate_bps: OPUS_AUTO,
            force_channels: OPUS_AUTO,
            max_bandwidth: 1105,
            user_bandwidth: OPUS_AUTO,
            bandwidth: 1105,
            use_vbr: true,
            vbr_constraint: true,
            complexity: 9,
            signal_type: OPUS_AUTO,
            voice_ratio: -1i32,
            packet_loss_perc: 0,
            inband_fec: false,
            use_dtx: false,
            in_dtx: false,
            lsb_depth: 24,
            prediction_disabled: false,
            phase_inversion_disabled: false,
            dred_duration: 0,
            user_forced_mode: OPUS_AUTO,
            prev_framesize: 0,
            range_final: 0,
        }
    }

    /// The rate and the channels are ones that a stream can have.
    pub open spec fn wf(self) -> bool {
        &&& is_stream_rate(self.fs as int)
        &&& 1 <= self.channels <= 2
        &&& 0 <= self.prev_framesize
    }

    /// An encoder that reports `report`.
    pub open spec fn reporting(self, report: EncoderReport) -> OpusEncoder {
        OpusEncoder {
            first: report.first,
            bandwidth: report.bandwidth,
            in_dtx: report.in_dtx,
            prev_framesize: report.prev_framesize as i32,
            range_final: report.range_final,
            ..self
        }
    }

    /// Takes what the encoder reports after a frame.
    pub fn take_report(&mut self, report: &EncoderReport)
        ensures
            *final(self) == old(self).reporting(*report),
    {
        *self = OpusEncoder {
            first: report.first,
            bandwidth: report.bandwidth,
            in_dtx: report.in_dtx,
            prev_framesize: report.prev_framesize as i32,
            range_final: report.range_final,
            ..*self
        };
    }

    /// The bitrate that the encoder works at: the one that was asked for, else
    /// one that follows from the rate, the channels and the last frame.
    pub open spec fn bitrate(self) -> int {
        let frame = if self.prev_framesize == 0 {
            self.fs as int / 400
        } else {
            self.prev_framesize as int
        };
        if self.user_bitrate_bps == OPUS_AUTO {
            60 * self.fs / frame + self.fs * self.channels
        } else if self.user_bitrate_bps == OPUS_BITRATE_MAX {
            1276 * 8 * self.fs / frame
        } else {
            self.user_bitrate_bps as int
        }
    }

    /// Delay of the encoder in samples.
    pub open spec fn lookahead(self) -> int {
        if self.application == OPUS_APPLICATION_RESTRICTED_LOWDELAY {
            self.fs as int / 400
        } else {
            self.fs as int / 400 + self.fs as int / 250
        }
    }

    /// The bitrate that the encoder works at.
    pub fn get_bitrate(&self) -> (r: i32)
        requires
            self.wf(),
        ensures
            r == self.bitrate(),
    {
        let frame: i32 = if self.prev_framesize == 0 {
            self.fs / 400
        } else {
            self.prev_framesize
        };
        proof {
            let fs = self.fs as int;
            let f = frame as int;
            vstd::arithmetic::div_mod::lemma_div_is_ordered_by_denominator(60 * fs, 1, f);
            vstd::arithmetic::div_mod::lemma_div_is_ordered_by_denominator(10208 * fs, 1, f);
            vstd::arithmetic::div_mod::lemma_div_pos_is_pos(60 * fs, f);
            vstd::arithmetic::div_mod::lemma_div_pos_is_pos(10208 * fs, f);
            assert(fs * self.channels <= 96000) by (nonlinear_arith)
                requires
                    0 <= fs <= 48000,
                    1 <= self.channels <= 2,
            ;
            assert(0 <= fs * self.channels) by (nonlinear_arith)
                requires
                    0 <= fs,
                    1 <= self.channels,
            ;
        }
        if self.user_bitrate_bps == OPUS_AUTO {
            60 * self.fs / frame + self.fs * self.channels
        } else if self.user_bitrate_bps == OPUS_BITRATE_MAX {
            1276 * 8 * self.fs / frame
        } else {
            self.user_bitrate_bps
        }
    }

    /// Delay of the encoder in samples.
    pub fn get_lookahead(&self) -> (r: i32)
        requires
            self.wf(),
        ensures
            r == self.lookahead(),
    {
        if self.application == OPUS_APPLICATION_RESTRICTED_LOWDELAY {
            self.fs / 400
        } else {
            self.fs / 400 + self.fs / 250
        }
    }
}

/// Sets up an encoder.
pub fn opus_encoder_create(fs: i32, channels: i32, application: i32) -> (r: Result<
    OpusEncoder,
    OpusEncoderInitError,
>)
    ensures
        r == (if is_stream_rate(fs as int) && 1 <= channels <= 2 && is_application(
            application as int,
        ) {
            Ok::<OpusEncoder, OpusEncoderInitError>(OpusEncoder::fresh(fs, channels, application))
        } else {
            Err(OpusEncoderInitError::BadArgument)
        }),
{
    if !stream_rate(fs) || channels < 1 || channels > 2 || !known_application(application) {
        return Err(OpusEncoderInitError::BadArgument);
    }
    Ok(
        OpusEncoder {
            fs,
            channels,
            application,
            first: true,
            user_bitrate_bps: OPUS_AUTO,
            force_channels: OPUS_AUTO,
            max_bandwidth: 1105,
            user_bandwidth: OPUS_AUTO,
            bandwidth: 1105,
            use_vbr: true,
            vbr_constraint: true,
            complexity: 9,
            signal_type: OPUS_AUTO,
            voice_ratio: -1i32,
            packet_loss_perc: 0,
            inband_fec: false,
            use_dtx: false,
            in_dtx: false,
            lsb_depth: 24,
            prediction_disabled: false,
            phase_inversion_disabled: false,
            dred_duration: 0,
            user_forced_mode: OPUS_AUTO,
            prev_framesize: 0,
            range_final: 0,
        },
    )
}

/// A request that changes an encoder.
#[derive(Debug, Clone, Copy, PartialEq, Eq, Structural)]
pub enum EncoderSetting {
    Application(i32),
    Bitrate(i32),
    ForceChannels(i32),
    MaxBandwidth(i32),
    Bandwidth(i32),
    Vbr(bool),
    VbrConstraint(bool),
    Complexity(i32),
    Signal(i32),
    PacketLossPerc(i32),
    InbandFec(bool),
    Dtx(bool),
    LsbDepth(i32),
    PredictionDisabled(bool),
    PhaseInversionDisabled(bool),
    DredDuration(i32),
    DnnBlob,
    ForceMode(i32),
    Reset,
}

/// Whether an encoder takes a setting.
pub open spec fn encoder_takes(e: OpusEncoder, s: EncoderSetting) -> bool {
    match s {
        EncoderSetting::Application(v) => is_application(v as int) && (e.first || e.application
            == v),
        EncoderSetting::Bitrate(v) => v > 0 || v == OPUS_AUTO || v == OPUS_BITRATE_MAX,
        EncoderSetting::ForceChannels(v) => 1 <= v <= e.channels || v == OPUS_AUTO,
        EncoderSetting::MaxBandwidth(v) => 1101 <= v <= 1105,
        EncoderSetting::Bandwidth(v) => 1101 <= v <= 1105 || v == OPUS_AUTO,
        EncoderSetting::Complexity(v) => 0 <= v <= 10,
        EncoderSetting::Signal(v) => v == 3001 || v == 3002 || v == OPUS_AUTO,
        EncoderSetting::PacketLossPerc(v) => 0 <= v <= 100,
        EncoderSetting::LsbDepth(v) => 8 <= v <= 24,
        EncoderSetting::DredDuration(v) => 0 <= v <= 104,
        EncoderSetting::DnnBlob => false,
        EncoderSetting::ForceMode(v) => 1000 <= v <= 1002 || v == OPUS_AUTO,
        _ => true,
    }
}

/// What an encoder becomes by a setting that it takes.
pub open spec fn encoder_with(e: OpusEncoder, s: EncoderSetting) -> OpusEncoder {
    match s {
        EncoderSetting::Application(v) => OpusEncoder { application: v, ..e },
        EncoderSetting::Bitrate(v) => OpusEncoder {
            user_bitrate_bps: if v == OPUS_AUTO || v == OPUS_BITRATE_MAX {
                v
            } else if v <= 500 {
                500
            } else if v > 300000 * e.channels {
                (300000 * e.channels) as i32
            } else {
                v
            },
            ..e
        },
        EncoderSetting::ForceChannels(v) => OpusEncoder { force_channels: v, ..e },
        EncoderSetting::MaxBandwidth(v) => OpusEncoder { max_bandwidth: v, ..e },
        EncoderSetting::Bandwidth(v) => OpusEncoder { user_bandwidth: v, ..e },
        EncoderSetting::Vbr(v) => OpusEncoder { use_vbr: v, ..e },
        EncoderSetting::VbrConstraint(v) => OpusEncoder { vbr_constraint: v, ..e },
        EncoderSetting::Complexity(v) => OpusEncoder { complexity: v, ..e },
        EncoderSetting::Signal(v) => OpusEncoder { signal_type: v, ..e },
        EncoderSetting::PacketLossPerc(v) => OpusEncoder { packet_loss_perc: v, ..e },
        EncoderSetting::InbandFec(v) => OpusEncoder { inband_fec: v, ..e },
        EncoderSetting::Dtx(v) => OpusEncoder { use_dtx: v, ..e },
        EncoderSetting::LsbDepth(v) => OpusEncoder { lsb_depth: v, ..e },
        EncoderSetting::PredictionDisabled(v) => OpusEncoder { prediction_disabled: v, ..e },
        EncoderSetting::PhaseInversionDisabled(v) => OpusEncoder {
            phase_inversion_disabled: v,
            ..e
        },
        EncoderSetting::DredDuration(v) => OpusEncoder { dred_duration: v, ..e },
        EncoderSetting::DnnBlob => e,
        EncoderSetting::ForceMode(v) => OpusEncoder { user_forced_mode: v, ..e },
        EncoderSetting::Reset => OpusEncoder {
            first: true,
            bandwidth: 1105,
            in_dtx: false,
            prev_framesize: 0,
            range_final: 0,
            ..e
        },
    }
}

/// Why an encoder refuses a setting.
pub open spec fn encoder_refusal(s: EncoderSetting) -> OpusEncoderCtlError {
    match s {
        EncoderSetting::DnnBlob => OpusEncoderCtlError::Unimplemented,
        _ => OpusEncoderCtlError::BadArgument,
    }
}

/// Whether an encoder takes a setting.
fn takes_setting(encoder: &OpusEncoder, setting: EncoderSetting) -> (r: bool)
    ensures
        r == encoder_takes(*encoder, setting),
{
    match setting {
        EncoderSetting::Application(v) => known_application(v) && (encoder.first
            || encoder.application == v),
        EncoderSetting::Bitrate(v) => v > 0 || v == OPUS_AUTO || v == OPUS_BITRATE_MAX,
        EncoderSetting::ForceChannels(v) => (1 <= v && v <= encoder.channels) || v == OPUS_AUTO,
        EncoderSetting::MaxBandwidth(v) => 1101 <= v && v <= 1105,
        EncoderSetting::Bandwidth(v) => (1101 <= v && v <= 1105) || v == OPUS_AUTO,
        EncoderSetting::Complexity(v) => 0 <= v && v <= 10,
        EncoderSetting::Signal(v) => v == 3001 || v == 3002 || v == OPUS_AUTO,
        EncoderSetting::PacketLossPerc(v) => 0 <= v && v <= 100,
        EncoderSetting::LsbDepth(v) => 8 <= v && v <= 24,
        EncoderSetting::DredDuration(v) => 0 <= v && v <= 104,
        EncoderSetting::DnnBlob => false,
        EncoderSetting::ForceMode(v) => (1000 <= v && v <= 1002) || v == OPUS_AUTO,
        _ => true,
    }
}

/// A bitrate inside the limits of an encoder.
fn limited_bitrate(channels: i32, v: i32) -> (r: i32)
    requires
        1 <= channels <= 2,
    ensures
        r == (if v == OPUS_AUTO || v == OPUS_BITRATE_MAX {
            v as int
        } else if v <= 500 {
            500
        } else if v > 300000 * channels {
            300000 * channels
        } else {
            v as int
        }),
{
    if v == OPUS_AUTO || v == OPUS_BITRATE_MAX {
        v
    } else if v <= 500 {
        500
    } else if v > 300000 * channels {
        300000 * channels
    } else {
        v
    }
}

/// The encoder with a setting that it takes.
#[verifier::rlimit(60)]
fn with_setting(e: OpusEncoder, setting: EncoderSetting) -> (r: OpusEncoder)
    requires
        e.wf(),
    ensures
        r == encoder_with(e, setting),
        r.wf(),
{
    match setting {
        EncoderSetting::Application(v) => OpusEncoder { application: v, ..e },
        EncoderSetting::Bitrate(v) => OpusEncoder {
            user_bitrate_bps: limited_bitrate(e.channels, v),
            ..e
        },
        EncoderSetting::ForceChannels(v) => OpusEncoder { force_channels: v, ..e },
        EncoderSetting::MaxBandwidth(v) => OpusEncoder { max_bandwidth: v, ..e },
        EncoderSetting::Bandwidth(v) => OpusEncoder { user_bandwidth: v, ..e },
        EncoderSetting::Vbr(v) => OpusEncoder { use_vbr: v, ..e },
        EncoderSetting::VbrConstraint(v) => OpusEncoder { vbr_constraint: v, ..e },
        EncoderSetting::Complexity(v) => OpusEncoder { complexity: v, ..e },
        EncoderSetting::Signal(v) => OpusEncoder { signal_type: v, ..e },
        EncoderSetting::PacketLossPerc(v) => OpusEncoder { packet_loss_perc: v, ..e },
        EncoderSetting::InbandFec(v) => OpusEncoder { inband_fec: v, ..e },
        EncoderSetting::Dtx(v) => OpusEncoder { use_dtx: v, ..e },
        EncoderSetting::LsbDepth(v) => OpusEncoder { lsb_depth: v, ..e },
        EncoderSetting::PredictionDisabled(v) => OpusEncoder { prediction_disabled: v, ..e },
        EncoderSetting::PhaseInversionDisabled(v) => OpusEncoder {
            phase_inversion_disabled: v,
            ..e
        },
        EncoderSetting::DredDuration(v) => OpusEncoder { dred_duration: v, ..e },
        EncoderSetting::DnnBlob => e,
        EncoderSetting::ForceMode(v) => OpusEncoder { user_forced_mode: v, ..e },
        EncoderSetting::Reset => OpusEncoder {
            first: true,
            bandwidth: 1105,
            in_dtx: false,
            prev_framesize: 0,
            range_final: 0,
            ..e
        },
    }
}

/// Changes an encoder; a refused request leaves it as it was.
pub fn opus_encoder_set(encoder: &mut OpusEncoder, setting: EncoderSetting) -> (r: Result<
    (),
    OpusEncoderCtlError,
>)
    requires
        old(encoder).wf(),
    ensures
        final(encoder).wf(),
        encoder_takes(*old(encoder), setting) ==> r == Ok::<(), OpusEncoderCtlError>(()) && *final(
            encoder) == encoder_with(*old(encoder), setting),
        !encoder_takes(*old(encoder), setting) ==> r == Err::<(), OpusEncoderCtlError>(
            encoder_refusal(setting),
        ) && *final(encoder) == *old(encoder),
{
    if takes_setting(encoder, setting) {
        *encoder = with_setting(*encoder, setting);
        Ok(())
    } else {
        match setting {
            EncoderSetting::DnnBlob => Err(OpusEncoderCtlError::Unimplemented),
            _ => Err(OpusEncoderCtlError::BadArgument),
        }
    }
}

} // verus!
