//! Rates that sample-rate conversion is set up for.

use crate::silk::check_control_input::{api_rate_ok, internal_rate_ok, is_api_rate, is_internal_rate};
use vstd::prelude::*;

verus! {

/// Why a conversion cannot be set up.
#[derive(Debug, Clone, Copy, PartialEq, Eq, Structural)]
pub enum ResamplerInitError {
    /// No conversion starts from this rate in Hz.
    UnsupportedInputRate(i32),
    /// No conversion leads to this rate in Hz.
    UnsupportedOutputRate(i32),
}

/// A conversion between the rates of the codec and those of its user.
#[derive(Debug, Clone, Copy, PartialEq, Eq, Structural)]
pub struct Resampler {
    pub fs_in_hz: i32,
    pub fs_out_hz: i32,
}

impl Default for Resampler {
    /// Not set up.
    fn default() -> (r: Resampler)
        ensures
            r == (Resampler { fs_in_hz: 0, fs_out_hz: 0 }),
    {
        Resampler { fs_in_hz: 0, fs_out_hz: 0 }
    }
}

/// Why a conversion cannot be set up: an encoder leads to an internal rate, a
/// decoder starts from one.
pub open spec fn resampler_error(fs_in: int, fs_out: int, for_encoder: bool) -> Option<
    ResamplerInitError,
> {
    let in_ok = if for_encoder {
        api_rate_ok(fs_in)
    } else {
        internal_rate_ok(fs_in)
    };
    let out_ok = if for_encoder {
        internal_rate_ok(fs_out)
    } else {
        api_rate_ok(fs_out)
    };
    if !in_ok {
        Some(ResamplerInitError::UnsupportedInputRate(fs_in as i32))
    } else if !out_ok {
        Some(ResamplerInitError::UnsupportedOutputRate(fs_out as i32))
    } else {
        None
    }
}

impl Resampler {
    /// Sets the conversion up, or leaves it as it is.
    pub fn silk_resampler_init(&mut self, fs_in_hz: i32, fs_out_hz: i32, for_encoder: bool) -> (r:
        Result<(), ResamplerInitError>)
        ensures
            match resampler_error(fs_in_hz as int, fs_out_hz as int, for_encoder) {
                Some(e) => r == Err::<(), ResamplerInitError>(e) && *final(self) == *old(self),
                None => r == Ok::<(), ResamplerInitError>(()) && *final(self) == (Resampler {
                    fs_in_hz,
                    fs_out_hz,
                }),
            },
    {
        let in_ok: bool = if for_encoder {
            is_api_rate(fs_in_hz)
        } else {
            is_internal_rate(fs_in_hz)
        };
        if !in_ok {
            return Err(ResamplerInitError::UnsupportedInputRate(fs_in_hz));
        }
        let out_ok: bool = if for_encoder {
            is_internal_rate(fs_out_hz)
        } else {
            is_api_rate(fs_out_hz)
        };
        if !out_ok {
            return Err(ResamplerInitError::UnsupportedOutputRate(fs_out_hz));
        }
        self.fs_in_hz = fs_in_hz;
        self.fs_out_hz = fs_out_hz;
        Ok(())
    }

    /// Input rate in whole kHz.
    pub fn fs_in_khz(&self) -> (r: i32)
        requires
            self.fs_in_hz >= 0,
        ensures
            r == self.fs_in_hz / 1000,
    {
        self.fs_in_hz / 1000
    }

    /// Output rate in whole kHz.
    pub fn fs_out_khz(&self) -> (r: i32)
        requires
            self.fs_out_hz >= 0,
        ensures
            r == self.fs_out_hz / 1000,
    {
        self.fs_out_hz / 1000
    }
}

} // verus!
