//! Types shared by the speech layer.

use vstd::prelude::*;

verus! {

/// Subframes of a 20 ms frame.
pub const MAX_NB_SUBFR: usize = 4;

/// Frames of a packet.
pub const MAX_FRAMES_PER_PACKET: usize = 3;

/// Predictor orders of narrow and medium band, and of wide band.
pub const MIN_LPC_ORDER: usize = 10;

pub const MAX_LPC_ORDER: usize = 16;

/// Taps of the long-term predictor.
pub const LTP_ORDER: usize = 5;

/// What a frame holds.
#[derive(Debug, Clone, Copy, PartialEq, Eq, Structural)]
pub enum FrameSignalType {
    Inactive,
    Unvoiced,
    Voiced,
}

impl FrameSignalType {
    /// The number that stands for the type in the stream.
    pub open spec fn number(self) -> int {
        match self {
            FrameSignalType::Inactive => 0,
            FrameSignalType::Unvoiced => 1,
            FrameSignalType::Voiced => 2,
        }
    }

    /// The type that a number stands for.
    pub open spec fn of_number(n: int) -> FrameSignalType {
        if n == 0 {
            FrameSignalType::Inactive
        } else if n == 1 {
            FrameSignalType::Unvoiced
        } else {
            FrameSignalType::Voiced
        }
    }

    pub fn to_i32(self) -> (r: i32)
        ensures
            r == self.number(),
    {
        match self {
            FrameSignalType::Inactive => 0,
            FrameSignalType::Unvoiced => 1,
            FrameSignalType::Voiced => 2,
        }
    }
}

/// Which of two quantisation offsets a frame uses.
#[derive(Debug, Clone, Copy, PartialEq, Eq, Structural)]
pub enum FrameQuantizationOffsetType {
    Low,
    High,
}

impl FrameQuantizationOffsetType {
    /// The number that stands for the type in the stream.
    pub open spec fn number(self) -> int {
        match self {
            FrameQuantizationOffsetType::Low => 0,
            FrameQuantizationOffsetType::High => 1,
        }
    }

    pub fn to_i32(self) -> (r: i32)
        ensures
            r == self.number(),
    {
        match self {
            FrameQuantizationOffsetType::Low => 0,
            FrameQuantizationOffsetType::High => 1,
        }
    }
}

/// Why the speech layer refuses a request.
#[derive(Debug, Clone, Copy, PartialEq, Eq, Structural)]
pub enum SilkError {
    NoError,
    EncInputInvalidNoOfSamples,
    EncFsNotSupported,
    EncPacketSizeNotSupported,
    EncInvalidBitrate,
    EncInvalidLossRate,
    EncInvalidComplexitySetting,
    EncInvalidInbandFecSetting,
    EncInvalidDtxSetting,
    EncInvalidCbrSetting,
    EncInternalError,
    EncInvalidNumberOfChannelsError,
    DecInvalidSamplingFrequency,
    DecPayloadTooLarge,
    DecPayloadError,
    DecInvalidFrameSize,
}

} // verus!
