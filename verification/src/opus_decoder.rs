//! Control state of a single-stream decoder: what its settings are, and what
//! it reports of the packet that it decoded last.
use crate::silk::types::SilkError;
use vstd::prelude::*;

verus! {

/// Why a decoder could not be set up.
#[derive(Debug, Clone, Copy, PartialEq, Eq, Structural)]
pub enum OpusDecoderInitError {
    BadArgument,
    CodecInit,
}

/// Why a decoder refused a control request.
#[derive(Debug, Clone, Copy, PartialEq, Eq, Structural)]
pub enum OpusDecoderCtlError {
    BadArgument,
    Unimplemented,
    Silk(SilkError),
}

/// Why a packet could not be decoded.
#[derive(Debug, Clone, Copy, PartialEq, Eq, Structural)]
pub enum OpusDecodeError {
    BadArgument,
    BufferTooSmall,
    InternalError,
    InvalidPacket,
    Silk(SilkError),
}

impl OpusDecodeError {
    pub open spec fn number(self) -> int {
        match self {
            OpusDecodeError::BadArgument => -1,
            OpusDecodeError::BufferTooSmall => -2,
            OpusDecodeError::InternalError => -3,
            OpusDecodeError::InvalidPacket => -4,
            OpusDecodeError::Silk(_) => -3,
        }
    }

    /// The number of the error.
    pub fn code(&self) -> (r: i32)
        ensures
            r == self.number(),
    {
        match self {
            OpusDecodeError::BadArgument => -1,
            OpusDecodeError::BufferTooSmall => -2,
            OpusDecodeError::InternalError => -3,
            OpusDecodeError::InvalidPacket => -4,
            OpusDecodeError::Silk(_) => -3,
        }
    }
}

/// The control state of a decoder.
#[derive(Debug, Clone, Copy, PartialEq, Eq, Structural)]
pub struct OpusDecoder {
    /// Output rate in Hz.
    pub fs: i32,
    /// Output channels, 1 or 2.
    pub channels: i32,
    /// Output gain in 1/256 dB.
    pub decode_gain: i32,
    pub complexity: i32,
    pub phase_inversion_disabled: bool,
    /// Bandwidth of the last packet, 0 before the first one.
    pub bandwidth: i32,
    /// Samples of the last packet, 0 before the first one.
    pub last_packet_duration: i32,
    /// Final range of the last packet.
    pub range_final: u32,
}

/// What a decoder reports of the packet that it decoded last.
#[derive(Debug, Clone, Copy, PartialEq, Eq, Structural)]
pub struct DecoderReport {
    /// Bandwidth of the packet.
    pub bandwidth: i32,
    /// Samples of the packet.
    pub last_packet_duration: i32,
    /// Final range of the packet.
    pub range_final: u32,
}

/// The rates that a stream can be coded at.
pub open spec fn is_stream_rate(fs: int) -> bool {
    fs == 8000 || fs == 12000 || fs == 16000 || fs == 24000 || fs == 48000
}

/// Whether `fs` is a rate that a stream can be coded at.
pub fn stream_rate(fs: i32) -> (r: bool)
    ensures
        r == is_stream_rate(fs as int),
{
    fs == 8000 || fs == 12000 || fs == 16000 || fs == 24000 || fs == 48000
}

impl OpusDecoder {
    /// A decoder as it is set up.
    pub open spec fn fresh(fs: i32, channels: i32) -> OpusDecoder {
        OpusDecoder {
            fs,
            channels,
            decode_gain: 0,
            complexity: 0,
            phase_inversion_disabled: false,
            bandwidth: 0,
            last_packet_duration: 0,
            range_final: 0,
        }
    }

    /// A decoder that reports `report`.
    pub open spec fn reporting(self, report: DecoderReport) -> OpusDecoder {
        OpusDecoder {
            bandwidth: report.bandwidth,
            last_packet_duration: report.last_packet_duration,
            range_final: report.range_final,
            ..self
        }
    }

    /// Takes what the decoder reports after a packet.
    pub fn take_report(&mut self, report: &DecoderReport)
        ensures
            *final(self) == old(self).reporting(*report),
    {
        self.bandwidth = report.bandwidth;
        self.last_packet_duration = report.last_packet_duration;
        self.range_final = report.range_final;
    }
}

/// Sets up a decoder.
pub fn opus_decoder_create(fs: i32, channels: i32) -> (r: Result<OpusDecoder, OpusDecoderInitError>)
    ensures
        r == (if is_stream_rate(fs as int) && 1 <= channels <= 2 {
            Ok::<OpusDecoder, OpusDecoderInitError>(OpusDecoder::fresh(fs, channels))
        } else {
            Err(OpusDecoderInitError::BadArgument)
        }),
{
    if !stream_rate(fs) || channels < 1 || channels > 2 {
        return Err(OpusDecoderInitError::BadArgument);
    }
    Ok(
        OpusDecoder {
            fs,
            channels,
            decode_gain: 0,
            complexity: 0,
            phase_inversion_disabled: false,
            bandwidth: 0,
            last_packet_duration: 0,
            range_final: 0,
        },
    )
}

/// A request that changes a decoder.
#[derive(Debug, Clone, Copy, PartialEq, Eq, Structural)]
pub enum DecoderSetting {
    Gain(i32),
    Complexity(i32),
    PhaseInversionDisabled(bool),
    DnnBlob,
    Reset,
}

/// What a decoder becomes, or why it refuses.
pub open spec fn decoder_set(d: OpusDecoder, s: DecoderSetting) -> Result<
    OpusDecoder,
    OpusDecoderCtlError,
> {
    match s {
        DecoderSetting::Gain(v) => if -32768 <= v <= 32767 {
            Ok(OpusDecoder { decode_gain: v, ..d })
        } else {
            Err(OpusDecoderCtlError::BadArgument)
        },
        DecoderSetting::Complexity(v) => if 0 <= v <= 10 {
            Ok(OpusDecoder { complexity: v, ..d })
        } else {
            Err(OpusDecoderCtlError::BadArgument)
        },
        DecoderSetting::PhaseInversionDisabled(v) => Ok(
            OpusDecoder { phase_inversion_disabled: v, ..d },
        ),
        DecoderSetting::DnnBlob => Err(OpusDecoderCtlError::Unimplemented),
        DecoderSetting::Reset => Ok(
            OpusDecoder { bandwidth: 0, last_packet_duration: 0, range_final: 0, ..d },
        ),
    }
}

/// Changes a decoder; a refused request leaves it as it was.
pub fn opus_decoder_set(decoder: &mut OpusDecoder, setting: DecoderSetting) -> (r: Result<
    (),
    OpusDecoderCtlError,
>)
    ensures
        match decoder_set(*old(decoder), setting) {
            Ok(d) => r == Ok::<(), OpusDecoderCtlError>(()) && *final(decoder) == d,
            Err(e) => r == Err::<(), OpusDecoderCtlError>(e) && *final(decoder) == *old(decoder),
        },
{
    match setting {
        DecoderSetting::Gain(v) => {
            if v < -32768 || v > 32767 {
                return Err(OpusDecoderCtlError::BadArgument);
            }
            decoder.decode_gain = v;
        },
        DecoderSetting::Complexity(v) => {
            if v < 0 || v > 10 {
                return Err(OpusDecoderCtlError::BadArgument);
            }
            decoder.complexity = v;
        },
        DecoderSetting::PhaseInversionDisabled(v) => {
            decoder.phase_inversion_disabled = v;
        },
        DecoderSetting::DnnBlob => {
            return Err(OpusDecoderCtlError::Unimplemented);
        },
        DecoderSetting::Reset => {
            decoder.bandwidth = 0;
            decoder.last_packet_duration = 0;
            decoder.range_final = 0;
        },
    }
    Ok(())
}

} // verus!
