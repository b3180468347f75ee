//! Sample rates of a decoder channel, and what follows from them.

use crate::silk::nlsf_cb::SilkNlsfCb;
use crate::silk::resampler::{resampler_error, Resampler, ResamplerInitError};
use crate::silk::tables_nlsf_cb_nb_mb::{
    silk_nlsf_cb_nb_mb, NB_MB_CB1_ICDF, NB_MB_CB1_Q8, NB_MB_DELTA_MIN_Q15, NB_MB_EC_ICDF,
    NB_MB_EC_SEL, NB_MB_PRED_Q8,
};
use crate::silk::tables_nlsf_cb_wb::{
    silk_nlsf_cb_wb, WB_CB1_ICDF, WB_CB1_Q8, WB_DELTA_MIN_Q15, WB_EC_ICDF, WB_EC_SEL, WB_PRED_Q8,
};
use crate::silk::tables_other::{SILK_UNIFORM4_ICDF, SILK_UNIFORM6_ICDF, SILK_UNIFORM8_ICDF};
use crate::silk::tables_pitch_lag::{
    PITCH_CONTOUR_10_MS_ICDF, PITCH_CONTOUR_10_MS_NB_ICDF, PITCH_CONTOUR_ICDF,
    PITCH_CONTOUR_NB_ICDF,
};
use crate::silk::types::FrameSignalType;
use vstd::prelude::*;

verus! {

/// Milliseconds of a subframe.
pub const SUB_FRAME_LENGTH_MS: usize = 5;

/// Milliseconds of history of the long-term predictor.
pub const LTP_MEM_LENGTH_MS: usize = 20;

/// Samples of a frame.
pub const MAX_FRAME_LENGTH: usize = 320;

/// Why rates are refused.
#[derive(Debug, Clone, Copy, PartialEq, Eq, Structural)]
pub enum DecoderSetFsError {
    /// Not 8, 12 or 16 kHz.
    UnsupportedInternalSampleRate(i32),
    /// Neither two nor four subframes.
    InvalidSubframeCount(usize),
    /// The conversion to the output rate cannot be set up.
    Resampler(ResamplerInitError),
}

/// What a decoder channel derives from its sample rates.
#[derive(Clone, Copy, Debug)]
pub struct DecoderSampleRateState {
    /// Internal sample rate in kHz.
    pub fs_khz: i32,
    /// Output sample rate in Hz.
    pub fs_api_hz: i32,
    pub nb_subfr: usize,
    pub subfr_length: usize,
    pub frame_length: usize,
    pub ltp_mem_length: usize,
    pub lpc_order: usize,
    pub first_frame_after_reset: bool,
    pub lag_prev: i32,
    pub last_gain_index: i32,
    pub prev_signal_type: FrameSignalType,
    pub pitch_lag_low_bits_icdf: &'static [u8],
    pub pitch_contour_icdf: &'static [u8],
    pub ps_nlsf_cb: SilkNlsfCb,
    pub resampler_state: Resampler,
    /// Output history.
    pub out_buf: [i16; 480],
    /// State of the short-term predictor (Q14).
    pub s_lpc_q14_buf: [i32; 16],
}

/// The codebook is the one for wide band.
pub open spec fn is_wb_codebook(cb: SilkNlsfCb) -> bool {
    &&& cb.n_vectors == 32
    &&& cb.order == 16
    &&& cb.quant_step_size_q16 == 9830
    &&& cb.cb1_nlsf_q8@ == WB_CB1_Q8@
    &&& cb.cb1_icdf@ == WB_CB1_ICDF@
    &&& cb.ec_sel@ == WB_EC_SEL@
    &&& cb.ec_icdf@ == WB_EC_ICDF@
    &&& cb.pred_q8@ == WB_PRED_Q8@
    &&& cb.delta_min_q15@ == WB_DELTA_MIN_Q15@
}

/// The codebook is the one for narrow and medium band.
pub open spec fn is_nb_codebook(cb: SilkNlsfCb) -> bool {
    &&& cb.n_vectors == 32
    &&& cb.order == 10
    &&& cb.quant_step_size_q16 == 11796
    &&& cb.cb1_nlsf_q8@ == NB_MB_CB1_Q8@
    &&& cb.cb1_icdf@ == NB_MB_CB1_ICDF@
    &&& cb.ec_sel@ == NB_MB_EC_SEL@
    &&& cb.ec_icdf@ == NB_MB_EC_ICDF@
    &&& cb.pred_q8@ == NB_MB_PRED_Q8@
    &&& cb.delta_min_q15@ == NB_MB_DELTA_MIN_Q15@
}

/// The contour model of a format.
pub open spec fn contour_table(fs_khz: int, nb_subfr: int) -> Seq<u8> {
    if fs_khz == 8 {
        if nb_subfr == 4 {
            PITCH_CONTOUR_NB_ICDF@
        } else {
            PITCH_CONTOUR_10_MS_NB_ICDF@
        }
    } else if nb_subfr == 4 {
        PITCH_CONTOUR_ICDF@
    } else {
        PITCH_CONTOUR_10_MS_ICDF@
    }
}

/// The model of the low bits of a lag.
pub open spec fn low_bits_table(fs_khz: int) -> Seq<u8> {
    if fs_khz == 8 {
        SILK_UNIFORM4_ICDF@
    } else if fs_khz == 12 {
        SILK_UNIFORM6_ICDF@
    } else {
        SILK_UNIFORM8_ICDF@
    }
}

pub open spec fn internal_khz_ok(fs_khz: int) -> bool {
    fs_khz == 8 || fs_khz == 12 || fs_khz == 16
}

/// The model for contours of a format.
pub fn select_pitch_contour_table(fs_khz: i32, is_20_ms: bool) -> (r: &'static [u8])
    ensures
        r@ == contour_table(
            fs_khz as int,
            if is_20_ms {
                4
            } else {
                2
            },
        ),
        0 < r@.len() <= 34,
        r@.last() == 0,
{
    proof {
        assert(PITCH_CONTOUR_NB_ICDF@.last() == 0);
        assert(PITCH_CONTOUR_10_MS_NB_ICDF@.last() == 0);
        assert(PITCH_CONTOUR_ICDF@.last() == 0);
        assert(PITCH_CONTOUR_10_MS_ICDF@.last() == 0);
    }
    if fs_khz == 8 {
        if is_20_ms {
            &PITCH_CONTOUR_NB_ICDF
        } else {
            &PITCH_CONTOUR_10_MS_NB_ICDF
        }
    } else if is_20_ms {
        &PITCH_CONTOUR_ICDF
    } else {
        &PITCH_CONTOUR_10_MS_ICDF
    }
}

fn select_low_bits_table(fs_khz: i32) -> (r: &'static [u8])
    ensures
        r@ == low_bits_table(fs_khz as int),
        0 < r@.len() <= 8,
        r@.last() == 0,
{
    proof {
        assert(SILK_UNIFORM4_ICDF@.last() == 0);
        assert(SILK_UNIFORM6_ICDF@.last() == 0);
        assert(SILK_UNIFORM8_ICDF@.last() == 0);
    }
    if fs_khz == 8 {
        &SILK_UNIFORM4_ICDF
    } else if fs_khz == 12 {
        &SILK_UNIFORM6_ICDF
    } else {
        &SILK_UNIFORM8_ICDF
    }
}

impl Default for DecoderSampleRateState {
    fn default() -> (r: DecoderSampleRateState)
        ensures
            r.is_initial(4),
    {
        DecoderSampleRateState {
            fs_khz: 0,
            fs_api_hz: 0,
            nb_subfr: 4,
            subfr_length: 0,
            frame_length: 0,
            ltp_mem_length: 0,
            lpc_order: 16,
            first_frame_after_reset: true,
            lag_prev: 0,
            last_gain_index: 0,
            prev_signal_type: FrameSignalType::Inactive,
            pitch_lag_low_bits_icdf: &SILK_UNIFORM4_ICDF,
            pitch_contour_icdf: &PITCH_CONTOUR_ICDF,
            ps_nlsf_cb: silk_nlsf_cb_wb(),
            resampler_state: Resampler::default(),
            out_buf: [0;480],
            s_lpc_q14_buf: [0;16],
        }
    }
}

/// `a` is channel `b` with its rates set. A change of the internal rate clears
/// the synthesis state.
pub open spec fn rates_set(
    b: DecoderSampleRateState,
    fs_khz: i32,
    fs_api_hz: i32,
    a: DecoderSampleRateState,
) -> bool {
    let new_rate = b.fs_khz != fs_khz;
    let length = b.nb_subfr * 5 * fs_khz;
    let reset = new_rate || b.frame_length != length;
    &&& a.fs_api_hz == fs_api_hz
    &&& a.resampler_state == if new_rate || b.fs_api_hz
        != fs_api_hz {
        Resampler { fs_in_hz: (fs_khz * 1000) as i32, fs_out_hz: fs_api_hz }
    } else {
        b.resampler_state
    }
    &&& a.nb_subfr == b.nb_subfr
    &&& a.fs_khz == fs_khz
    &&& a.frame_length == length
    &&& reset ==> a.subfr_length == 5 * fs_khz
    &&& !reset ==> a.subfr_length == b.subfr_length
    &&& reset ==> a.pitch_contour_icdf@ == contour_table(
        fs_khz as int,
        b.nb_subfr as int,
    )
    &&& !reset ==> a.pitch_contour_icdf == b.pitch_contour_icdf
    &&& new_rate ==> {
        &&& a.ltp_mem_length == 20 * fs_khz
        &&& a.lpc_order == if fs_khz == 16 {
            16int
        } else {
            10
        }
        &&& a.ps_nlsf_cb.wf()
        &&& if fs_khz == 16 {
            is_wb_codebook(a.ps_nlsf_cb)
        } else {
            is_nb_codebook(a.ps_nlsf_cb)
        }
        &&& a.pitch_lag_low_bits_icdf@ == low_bits_table(fs_khz as int)
        &&& a.first_frame_after_reset
        &&& a.lag_prev == 100
        &&& a.last_gain_index == 10
        &&& a.prev_signal_type == FrameSignalType::Inactive
        &&& forall|i: int| 0 <= i < 480 ==> #[trigger] a.out_buf[i] == 0
        &&& forall|i: int|
            0 <= i < 16 ==> #[trigger] a.s_lpc_q14_buf[i] == 0
    }
    &&& !new_rate ==> {
        &&& a.ltp_mem_length == b.ltp_mem_length
        &&& a.lpc_order == b.lpc_order
        &&& a.ps_nlsf_cb == b.ps_nlsf_cb
        &&& a.pitch_lag_low_bits_icdf == b.pitch_lag_low_bits_icdf
        &&& a.first_frame_after_reset == b.first_frame_after_reset
        &&& a.lag_prev == b.lag_prev
        &&& a.last_gain_index == b.last_gain_index
        &&& a.prev_signal_type == b.prev_signal_type
        &&& a.out_buf == b.out_buf
        &&& a.s_lpc_q14_buf == b.s_lpc_q14_buf
    }
    &&& new_rate || b.keeps_rates() ==> a.configured()
}

impl DecoderSampleRateState {
    /// No rates are set.
    pub open spec fn is_initial(&self, nb_subfr: int) -> bool {
        &&& self.fs_khz == 0
        &&& self.fs_api_hz == 0
        &&& self.nb_subfr == nb_subfr
        &&& self.subfr_length == 0
        &&& self.frame_length == 0
        &&& self.ltp_mem_length == 0
        &&& self.lpc_order == 16
        &&& self.first_frame_after_reset
        &&& self.lag_prev == 0
        &&& self.last_gain_index == 0
        &&& self.prev_signal_type == FrameSignalType::Inactive
        &&& self.pitch_lag_low_bits_icdf@ == SILK_UNIFORM4_ICDF@
        &&& self.pitch_contour_icdf@ == PITCH_CONTOUR_ICDF@
        &&& is_wb_codebook(self.ps_nlsf_cb)
        &&& self.resampler_state == (Resampler { fs_in_hz: 0, fs_out_hz: 0 })
        &&& forall|i: int| 0 <= i < 480 ==> #[trigger] self.out_buf[i] == 0
        &&& forall|i: int| 0 <= i < 16 ==> #[trigger] self.s_lpc_q14_buf[i] == 0
    }

    /// Rates are set, and all that follows from them agrees with them.
    pub open spec fn configured(&self) -> bool {
        &&& internal_khz_ok(self.fs_khz as int)
        &&& self.nb_subfr == 2 || self.nb_subfr == 4
        &&& self.subfr_length == 5 * self.fs_khz
        &&& self.frame_length == self.nb_subfr * self.subfr_length
        &&& self.ltp_mem_length == 20 * self.fs_khz
        &&& self.lpc_order == self.ps_nlsf_cb.order
        &&& self.ps_nlsf_cb.wf()
        &&& if self.fs_khz == 16 {
            is_wb_codebook(self.ps_nlsf_cb)
        } else {
            is_nb_codebook(self.ps_nlsf_cb)
        }
        &&& self.pitch_contour_icdf@ == contour_table(self.fs_khz as int, self.nb_subfr as int)
        &&& self.pitch_lag_low_bits_icdf@ == low_bits_table(self.fs_khz as int)
    }

    /// No rates set, for frames of `nb_subfr` subframes.
    pub fn with_subframes(nb_subfr: usize) -> (r: DecoderSampleRateState)
        requires
            nb_subfr == 2 || nb_subfr == 4,
        ensures
            r.is_initial(nb_subfr as int),
    {
        let base: DecoderSampleRateState = DecoderSampleRateState::default();
        DecoderSampleRateState { nb_subfr, ..base }
    }

    /// Why rates are refused.
    pub open spec fn rate_error(&self, fs_khz: int, fs_api_hz: int) -> Option<DecoderSetFsError> {
        if !internal_khz_ok(fs_khz) {
            Some(DecoderSetFsError::UnsupportedInternalSampleRate(fs_khz as i32))
        } else if self.nb_subfr != 4 && self.nb_subfr != 2 {
            Some(DecoderSetFsError::InvalidSubframeCount(self.nb_subfr))
        } else if (self.fs_khz != fs_khz || self.fs_api_hz != fs_api_hz) && resampler_error(
            fs_khz * 1000,
            fs_api_hz,
            false,
        ) is Some {
            Some(
                DecoderSetFsError::Resampler(
                    resampler_error(fs_khz * 1000, fs_api_hz, false)->0,
                ),
            )
        } else {
            None
        }
    }

    /// Sets the internal rate in kHz and the output rate in Hz. A change of
    /// the internal rate clears the synthesis state.
    pub fn set_sample_rates(&mut self, fs_khz: i32, fs_api_hz: i32) -> (r: Result<
        (),
        DecoderSetFsError,
    >)
        ensures
            match old(self).rate_error(fs_khz as int, fs_api_hz as int) {
                Some(e) => r == Err::<(), DecoderSetFsError>(e) && *final(self) == *old(self),
                None => {
                    &&& r == Ok::<(), DecoderSetFsError>(())
                    &&& rates_set(*old(self), fs_khz, fs_api_hz, *final(self))
                },
            },
    {
        if fs_khz != 8 && fs_khz != 12 && fs_khz != 16 {
            return Err(DecoderSetFsError::UnsupportedInternalSampleRate(fs_khz));
        }
        if self.nb_subfr != 4 && self.nb_subfr != 2 {
            return Err(DecoderSetFsError::InvalidSubframeCount(self.nb_subfr));
        }
        let khz: usize = fs_khz as usize;
        let subfr_length: usize = SUB_FRAME_LENGTH_MS * khz;
        let frame_length: usize = if self.nb_subfr == 4 {
            4 * subfr_length
        } else {
            2 * subfr_length
        };
        if self.fs_khz != fs_khz || self.fs_api_hz != fs_api_hz {
            let mut next: Resampler = self.resampler_state;
            match next.silk_resampler_init(fs_khz * 1000, fs_api_hz, false) {
                Ok(_) => {
                    self.resampler_state = next;
                },
                Err(e) => return Err(DecoderSetFsError::Resampler(e)),
            }
            self.fs_api_hz = fs_api_hz;
        }
        if self.fs_khz != fs_khz || self.frame_length != frame_length {
            self.pitch_contour_icdf = select_pitch_contour_table(fs_khz, self.nb_subfr == 4);
            if self.fs_khz != fs_khz {
                self.ltp_mem_length = LTP_MEM_LENGTH_MS * khz;
                if fs_khz == 16 {
                    self.lpc_order = 16;
                    self.ps_nlsf_cb = silk_nlsf_cb_wb();
                } else {
                    self.lpc_order = 10;
                    self.ps_nlsf_cb = silk_nlsf_cb_nb_mb();
                }
                self.pitch_lag_low_bits_icdf = select_low_bits_table(fs_khz);
                self.first_frame_after_reset = true;
                self.lag_prev = 100;
                self.last_gain_index = 10;
                self.prev_signal_type = FrameSignalType::Inactive;
                self.out_buf = [0;480];
                self.s_lpc_q14_buf = [0;16];
            }
            self.fs_khz = fs_khz;
            self.subfr_length = subfr_length;
            self.frame_length = frame_length;
        }
        Ok(())
    }

    /// All but what the number of subframes decides agrees with the rates, and
    /// the contour model agrees with the frame length.
    pub open spec fn keeps_rates(&self) -> bool {
        &&& internal_khz_ok(self.fs_khz as int)
        &&& self.subfr_length == 5 * self.fs_khz
        &&& self.ltp_mem_length == 20 * self.fs_khz
        &&& self.lpc_order == self.ps_nlsf_cb.order
        &&& self.ps_nlsf_cb.wf()
        &&& if self.fs_khz == 16 {
            is_wb_codebook(self.ps_nlsf_cb)
        } else {
            is_nb_codebook(self.ps_nlsf_cb)
        }
        &&& self.frame_length == 4 * self.subfr_length ==> self.pitch_contour_icdf@
            == contour_table(self.fs_khz as int, 4)
        &&& self.frame_length == 2 * self.subfr_length ==> self.pitch_contour_icdf@
            == contour_table(self.fs_khz as int, 2)
        &&& self.pitch_lag_low_bits_icdf@ == low_bits_table(self.fs_khz as int)
    }
}

/// A configured channel keeps its rates, whatever number of subframes the next
/// packet has.
pub proof fn law_configured_keeps_rates(s: DecoderSampleRateState, nb_subfr: usize)
    requires
        s.configured(),
    ensures
        (DecoderSampleRateState { nb_subfr, ..s }).keeps_rates(),
{
}

} // verus!
