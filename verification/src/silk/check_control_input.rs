//! Encoder control parameters and their validity.

use crate::silk::types::{FrameSignalType, SilkError};
use vstd::prelude::*;

verus! {

/// Most channels.
pub const ENCODER_NUM_CHANNELS: i32 = 2;

/// Bounds of the target bit rate.
pub const MIN_TARGET_RATE_BPS: i32 = 5000;

pub const MAX_TARGET_RATE_BPS: i32 = 80000;

/// What the encoder is asked for, and what it reports back.
#[derive(Debug, Clone, Copy, PartialEq, Eq, Structural)]
pub struct EncControl {
    /// Channels of the input.
    pub n_channels_api: i32,
    /// Channels that are coded.
    pub n_channels_internal: i32,
    /// Input sample rate in Hz.
    pub api_sample_rate: i32,
    /// Bounds of the internal sample rate, and the rate asked for, in Hz.
    pub max_internal_sample_rate: i32,
    pub min_internal_sample_rate: i32,
    pub desired_internal_sample_rate: i32,
    /// Milliseconds of a packet.
    pub payload_size_ms: i32,
    /// Bits per second.
    pub bit_rate: i32,
    /// Packet loss in percent.
    pub packet_loss_percentage: i32,
    /// 0 to 10.
    pub complexity: i32,
    pub use_in_band_fec: i32,
    pub use_dred: i32,
    /// Send redundancy with this packet.
    pub lbrr_coded: i32,
    pub use_dtx: i32,
    pub use_cbr: i32,
    /// Most bits of the frame.
    pub max_bits: i32,
    /// Mix down to mono smoothly.
    pub to_mono: bool,
    /// The caller allows a change of bandwidth.
    pub opus_can_switch: bool,
    /// Make frames as independent as possible.
    pub reduced_dependency: bool,
    /// Reported: internal sample rate in Hz.
    pub internal_sample_rate: i32,
    /// Reported: little enough speech to change the bandwidth.
    pub allow_bandwidth_switch: bool,
    /// Reported: wide band without a transition filter.
    pub in_wb_mode_without_variable_lp: bool,
    /// Reported: stereo width (Q14).
    pub stereo_width_q14: i32,
    /// Reported: ready to change the bandwidth.
    pub switch_ready: bool,
    /// Reported: type of the last frame.
    pub signal_type: FrameSignalType,
    /// Reported: quantisation offset (Q10) of the last frame.
    pub offset: i32,
}

impl Default for EncControl {
    /// Wide-band mono at 32 kbit/s in 20 ms packets.
    fn default() -> (r: EncControl)
        ensures
            r == (EncControl {
                n_channels_api: 1,
                n_channels_internal: 1,
                api_sample_rate: 16000,
                max_internal_sample_rate: 16000,
                min_internal_sample_rate: 16000,
                desired_internal_sample_rate: 16000,
                payload_size_ms: 20,
                bit_rate: 32000,
                packet_loss_percentage: 0,
                complexity: 10,
                use_in_band_fec: 0,
                use_dred: 0,
                lbrr_coded: 0,
                use_dtx: 0,
                use_cbr: 0,
                max_bits: 0,
                to_mono: false,
                opus_can_switch: false,
                reduced_dependency: false,
                internal_sample_rate: 16000,
                allow_bandwidth_switch: false,
                in_wb_mode_without_variable_lp: false,
                stereo_width_q14: 0,
                switch_ready: false,
                signal_type: FrameSignalType::Inactive,
                offset: 0,
            }),
            r.control_error() is None,
    {
        EncControl {
            n_channels_api: 1,
            n_channels_internal: 1,
            api_sample_rate: 16000,
            max_internal_sample_rate: 16000,
            min_internal_sample_rate: 16000,
            desired_internal_sample_rate: 16000,
            payload_size_ms: 20,
            bit_rate: 32000,
            packet_loss_percentage: 0,
            complexity: 10,
            use_in_band_fec: 0,
            use_dred: 0,
            lbrr_coded: 0,
            use_dtx: 0,
            use_cbr: 0,
            max_bits: 0,
            to_mono: false,
            opus_can_switch: false,
            reduced_dependency: false,
            internal_sample_rate: 16000,
            allow_bandwidth_switch: false,
            in_wb_mode_without_variable_lp: false,
            stereo_width_q14: 0,
            switch_ready: false,
            signal_type: FrameSignalType::Inactive,
            offset: 0,
        }
    }
}

/// Sample rates of the input.
pub open spec fn api_rate_ok(hz: int) -> bool {
    hz == 8000 || hz == 12000 || hz == 16000 || hz == 24000 || hz == 32000 || hz == 44100 || hz
        == 48000
}

/// Internal sample rates.
pub open spec fn internal_rate_ok(hz: int) -> bool {
    hz == 8000 || hz == 12000 || hz == 16000
}

pub open spec fn flag_ok(v: int) -> bool {
    v == 0 || v == 1
}

pub fn is_api_rate(hz: i32) -> (r: bool)
    ensures
        r == api_rate_ok(hz as int),
{
    hz == 8000 || hz == 12000 || hz == 16000 || hz == 24000 || hz == 32000 || hz == 44100 || hz
        == 48000
}

pub fn is_internal_rate(hz: i32) -> (r: bool)
    ensures
        r == internal_rate_ok(hz as int),
{
    hz == 8000 || hz == 12000 || hz == 16000
}

impl EncControl {
    pub open spec fn rates_ok(&self) -> bool {
        &&& api_rate_ok(self.api_sample_rate as int)
        &&& internal_rate_ok(self.desired_internal_sample_rate as int)
        &&& internal_rate_ok(self.max_internal_sample_rate as int)
        &&& internal_rate_ok(self.min_internal_sample_rate as int)
        &&& self.min_internal_sample_rate <= self.desired_internal_sample_rate
            <= self.max_internal_sample_rate
    }

    pub open spec fn channels_ok(&self) -> bool {
        1 <= self.n_channels_internal <= self.n_channels_api <= ENCODER_NUM_CHANNELS
    }

    /// The first parameter that is out of its range, in a fixed order.
    pub open spec fn control_error(&self) -> Option<SilkError> {
        if !self.rates_ok() {
            Some(SilkError::EncFsNotSupported)
        } else if !(MIN_TARGET_RATE_BPS <= self.bit_rate <= MAX_TARGET_RATE_BPS) {
            Some(SilkError::EncInvalidBitrate)
        } else if !(self.payload_size_ms == 10 || self.payload_size_ms == 20
            || self.payload_size_ms == 40 || self.payload_size_ms == 60) {
            Some(SilkError::EncPacketSizeNotSupported)
        } else if !(0 <= self.packet_loss_percentage <= 100) {
            Some(SilkError::EncInvalidLossRate)
        } else if !flag_ok(self.use_dtx as int) {
            Some(SilkError::EncInvalidDtxSetting)
        } else if !flag_ok(self.use_cbr as int) {
            Some(SilkError::EncInvalidCbrSetting)
        } else if !flag_ok(self.use_in_band_fec as int) {
            Some(SilkError::EncInvalidInbandFecSetting)
        } else if !flag_ok(self.lbrr_coded as int) {
            Some(SilkError::EncInternalError)
        } else if !self.channels_ok() {
            Some(SilkError::EncInvalidNumberOfChannelsError)
        } else if !(0 <= self.complexity <= 10) {
            Some(SilkError::EncInvalidComplexitySetting)
        } else {
            None
        }
    }

    /// Accepts the parameters, or names the first that is out of its range.
    pub fn check_control_input(&self) -> (r: Result<(), SilkError>)
        ensures
            r == match self.control_error() {
                Some(e) => Err::<(), SilkError>(e),
                None => Ok(()),
            },
    {
        if !is_api_rate(self.api_sample_rate) || !is_internal_rate(
            self.desired_internal_sample_rate,
        ) || !is_internal_rate(self.max_internal_sample_rate) || !is_internal_rate(
            self.min_internal_sample_rate,
        ) || self.min_internal_sample_rate > self.desired_internal_sample_rate
            || self.max_internal_sample_rate < self.desired_internal_sample_rate
            || self.min_internal_sample_rate > self.max_internal_sample_rate {
            return Err(SilkError::EncFsNotSupported);
        }
        if self.bit_rate < MIN_TARGET_RATE_BPS || self.bit_rate > MAX_TARGET_RATE_BPS {
            return Err(SilkError::EncInvalidBitrate);
        }
        if self.payload_size_ms != 10 && self.payload_size_ms != 20 && self.payload_size_ms != 40
            && self.payload_size_ms != 60 {
            return Err(SilkError::EncPacketSizeNotSupported);
        }
        if self.packet_loss_percentage < 0 || self.packet_loss_percentage > 100 {
            return Err(SilkError::EncInvalidLossRate);
        }
        if self.use_dtx != 0 && self.use_dtx != 1 {
            return Err(SilkError::EncInvalidDtxSetting);
        }
        if self.use_cbr != 0 && self.use_cbr != 1 {
            return Err(SilkError::EncInvalidCbrSetting);
        }
        if self.use_in_band_fec != 0 && self.use_in_band_fec != 1 {
            return Err(SilkError::EncInvalidInbandFecSetting);
        }
        if self.lbrr_coded != 0 && self.lbrr_coded != 1 {
            return Err(SilkError::EncInternalError);
        }
        if self.n_channels_api < 1 || self.n_channels_api > ENCODER_NUM_CHANNELS
            || self.n_channels_internal < 1 || self.n_channels_internal > ENCODER_NUM_CHANNELS
            || self.n_channels_internal > self.n_channels_api {
            return Err(SilkError::EncInvalidNumberOfChannelsError);
        }
        if self.complexity < 0 || self.complexity > 10 {
            return Err(SilkError::EncInvalidComplexitySetting);
        }
        Ok(())
    }
}

} // verus!
