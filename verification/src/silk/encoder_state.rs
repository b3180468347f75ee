//! State of an encoder channel, as far as control decisions read or set it.
use crate::silk::decode_indices::SideInfoIndices;
use crate::silk::decoder_set_fs::{contour_table, low_bits_table, select_pitch_contour_table};
use crate::silk::resampler::Resampler;
use crate::silk::tables_other::{SILK_UNIFORM4_ICDF, SILK_UNIFORM6_ICDF, SILK_UNIFORM8_ICDF};
use crate::silk::types::{FrameQuantizationOffsetType, FrameSignalType};
use vstd::prelude::*;

verus! {

/// Frames that a change of the low-pass cutoff takes.
pub const TRANSITION_FRAMES: i32 = 256;

/// Samples of analysis history.
pub const X_BUFFER_LENGTH: usize = 720;

/// Samples of input: a frame and two more.
pub const INPUT_BUFFER_LENGTH: usize = 322;

/// State of the low-pass filter that hides a change of bandwidth.
#[derive(Debug, Clone, Copy)]
pub struct LpState {
    pub in_lp_state: [i32; 2],
    pub transition_frame_no: i32,
    /// 1 up, -2 down, 0 at rest.
    pub mode: i32,
    /// Internal rate in kHz that is kept over a reset; 0 for none.
    pub saved_fs_khz: i32,
}

impl LpState {
    pub open spec fn at_rest(self) -> bool {
        &&& self.in_lp_state@ == seq![0i32, 0i32]
        &&& self.transition_frame_no == 0
        &&& self.mode == 0
        &&& self.saved_fs_khz == 0
    }
}

impl Default for LpState {
    fn default() -> (r: LpState)
        ensures
            r.at_rest(),
    {
        let r: LpState = LpState {
            in_lp_state: [0;2],
            transition_frame_no: 0,
            mode: 0,
            saved_fs_khz: 0,
        };
        assert(r.in_lp_state@ =~= seq![0i32, 0i32]);
        r
    }
}

/// How much search the encoder does.
#[derive(Debug, Clone, Copy, PartialEq, Eq, Structural)]
pub struct SearchEffort {
    /// 0 to 10.
    pub complexity: i32,
    pub pitch_estimation_complexity: i32,
    /// Threshold of the pitch search (Q16).
    pub pitch_estimation_threshold_q16: i32,
    pub pitch_estimation_lpc_order: i32,
    pub shaping_lpc_order: i32,
    /// Samples of look-ahead of the noise shaping.
    pub la_shape: i32,
    /// Samples of the noise-shaping window.
    pub shape_win_length: i32,
    pub n_states_delayed_decision: i32,
    pub use_interpolated_nlsfs: bool,
    pub nlsf_msvq_survivors: i32,
    /// Warping of the noise shaping (Q16).
    pub warping_q16: i32,
}

/// What the noise-shaping quantiser keeps from frame to frame.
#[derive(Debug, Clone, Copy, PartialEq, Eq, Structural)]
pub struct NoiseShapingQuantizerState {
    pub lag_prev: i32,
    /// Gain of the last subframe (Q16).
    pub prev_gain_q16: i32,
}

/// What the noise-shaping analysis keeps from frame to frame.
#[derive(Debug, Clone, Copy, PartialEq, Eq, Structural)]
pub struct EncoderShapeState {
    pub last_gain_index: i32,
}

/// The settings of a channel, and what follows from them.
#[derive(Debug, Clone, Copy)]
pub struct EncoderStateCommon {
    /// The architecture whose kernels are used.
    pub arch: i32,
    pub api_sample_rate_hz: i32,
    /// Input rate that the conversion was set up for.
    pub prev_api_sample_rate_hz: i32,
    pub max_internal_sample_rate_hz: i32,
    pub min_internal_sample_rate_hz: i32,
    pub desired_internal_sample_rate_hz: i32,
    pub n_channels_api: i32,
    pub n_channels_internal: i32,
    pub channel_nb: i32,
    pub use_dtx: bool,
    pub use_cbr: bool,
    pub use_in_band_fec: bool,
    pub allow_bandwidth_switch: bool,
    pub controlled_since_last_payload: bool,
    pub prefill_flag: bool,
    pub packet_loss_perc: i32,
    /// Internal rate in kHz; 0 before the first frame.
    pub fs_khz: i32,
    pub nb_subfr: usize,
    pub subfr_length: usize,
    pub frame_length: usize,
    pub ltp_mem_length: usize,
    pub la_pitch: i32,
    pub max_pitch_lag: i32,
    pub pitch_lpc_win_length: usize,
    pub predict_lpc_order: usize,
    pub packet_size_ms: i32,
    pub n_frames_per_packet: usize,
    pub effort: SearchEffort,
    pub target_rate_bps: i32,
    pub snr_db_q7: i32,
    pub lbrr_enabled: bool,
    pub lbrr_gain_increases: i32,
    pub lbrr_flag: bool,
    pub lbrr_flags: [bool; 3],
    pub lbrr_prev_last_gain_index: i8,
    pub speech_activity_q8: i32,
    pub no_speech_counter: i32,
    pub in_dtx: bool,
    pub vad_flags: [bool; 3],
    /// Samples of the next frame that are there.
    pub input_buf_ix: usize,
    pub n_frames_encoded: usize,
    pub frame_counter: i32,
    pub first_frame_after_reset: bool,
    pub prev_lag: i32,
    pub prev_signal_type: FrameSignalType,
    pub prev_nlsf_q15: [i16; 16],
    pub ec_prev_signal_type: FrameSignalType,
    pub ec_prev_lag_index: i16,
    pub indices: SideInfoIndices,
    pub nsq_state: NoiseShapingQuantizerState,
}

pub open spec fn khz_or_none(fs_khz: int) -> bool {
    fs_khz == 0 || fs_khz == 8 || fs_khz == 12 || fs_khz == 16
}

impl EncoderStateCommon {
    /// The rate is one that a frame can have, and a frame has two or four
    /// subframes.
    pub open spec fn wf(self) -> bool {
        &&& khz_or_none(self.fs_khz as int)
        &&& self.nb_subfr == 2 || self.nb_subfr == 4
    }

    /// The model for pitch contours.
    pub fn pitch_contour_icdf(&self) -> (r: &'static [u8])
        ensures
            r@ == contour_table(
                self.fs_khz as int,
                if self.nb_subfr == 4 {
                    4
                } else {
                    2
                },
            ),
    {
        select_pitch_contour_table(self.fs_khz, self.nb_subfr == 4)
    }

    /// The model for the low bits of a pitch lag.
    pub fn pitch_lag_low_bits_icdf(&self) -> (r: &'static [u8])
        ensures
            self.fs_khz == 8 || self.fs_khz == 12 || self.fs_khz == 16 ==> r@ == low_bits_table(
                self.fs_khz as int,
            ),
            self.fs_khz != 12 && self.fs_khz != 16 ==> r@ == SILK_UNIFORM4_ICDF@,
    {
        if self.fs_khz == 16 {
            &SILK_UNIFORM8_ICDF
        } else if self.fs_khz == 12 {
            &SILK_UNIFORM6_ICDF
        } else {
            &SILK_UNIFORM4_ICDF
        }
    }
}

/// The settings before the first packet: wide band at 16 kHz in 20 ms frames,
/// with the internal rate `fs_khz` and the kernels of architecture `arch`.
pub open spec fn common_fresh(c: EncoderStateCommon, fs_khz: int, arch: int) -> bool {
    &&& c.arch == arch
    &&& c.api_sample_rate_hz == 16000
    &&& c.prev_api_sample_rate_hz == 0
    &&& c.max_internal_sample_rate_hz == 16000
    &&& c.min_internal_sample_rate_hz == 16000
    &&& c.desired_internal_sample_rate_hz == 16000
    &&& c.n_channels_api == 1
    &&& c.n_channels_internal == 1
    &&& c.channel_nb == 0
    &&& !c.use_dtx
    &&& !c.use_cbr
    &&& !c.use_in_band_fec
    &&& !c.allow_bandwidth_switch
    &&& !c.controlled_since_last_payload
    &&& !c.prefill_flag
    &&& c.packet_loss_perc == 0
    &&& c.fs_khz == fs_khz
    &&& c.nb_subfr == 4
    &&& c.subfr_length == 80
    &&& c.frame_length == 320
    &&& c.ltp_mem_length == 320
    &&& c.la_pitch == 32
    &&& c.max_pitch_lag == 288
    &&& c.pitch_lpc_win_length == 384
    &&& c.predict_lpc_order == 16
    &&& c.packet_size_ms == 20
    &&& c.n_frames_per_packet == 1
    &&& c.effort == no_effort()
    &&& c.target_rate_bps == 0
    &&& c.snr_db_q7 == 0
    &&& !c.lbrr_enabled
    &&& c.lbrr_gain_increases == 0
    &&& !c.lbrr_flag
    &&& c.lbrr_flags@ == no_flags()
    &&& c.lbrr_prev_last_gain_index == 0
    &&& c.speech_activity_q8 == 0
    &&& c.no_speech_counter == 0
    &&& !c.in_dtx
    &&& c.vad_flags@ == no_flags()
    &&& c.input_buf_ix == 0
    &&& c.n_frames_encoded == 0
    &&& c.frame_counter == 0
    &&& c.first_frame_after_reset
    &&& c.prev_lag == 100
    &&& c.prev_signal_type == FrameSignalType::Inactive
    &&& c.prev_nlsf_q15@ == Seq::new(16, |i: int| 0i16)
    &&& c.ec_prev_signal_type == FrameSignalType::Inactive
    &&& c.ec_prev_lag_index == 0
    &&& c.indices.signal_type == FrameSignalType::Inactive
    &&& c.indices.quant_offset_type == FrameQuantizationOffsetType::Low
    &&& c.indices.seed == 0
    &&& c.indices.gains_indices@ == seq![0i8, 0i8, 0i8, 0i8]
    &&& c.nsq_state == (NoiseShapingQuantizerState { lag_prev: 100, prev_gain_q16: 65536 })
}

impl Default for EncoderStateCommon {
    /// Wide band at 16 kHz in 20 ms frames.
    fn default() -> (r: EncoderStateCommon)
        ensures
            r.wf(),
            common_fresh(r, 16, 0),
    {
        let flags: [bool; 3] = [false;3];
        let gains: [i8; 4] = [0;4];
        let nlsf: [i16; 16] = [0;16];
        assert(flags@ =~= no_flags());
        assert(gains@ =~= seq![0i8, 0i8, 0i8, 0i8]);
        assert(nlsf@ =~= Seq::new(16, |i: int| 0i16));
        EncoderStateCommon {
            arch: 0,
            api_sample_rate_hz: 16000,
            prev_api_sample_rate_hz: 0,
            max_internal_sample_rate_hz: 16000,
            min_internal_sample_rate_hz: 16000,
            desired_internal_sample_rate_hz: 16000,
            n_channels_api: 1,
            n_channels_internal: 1,
            channel_nb: 0,
            use_dtx: false,
            use_cbr: false,
            use_in_band_fec: false,
            allow_bandwidth_switch: false,
            controlled_since_last_payload: false,
            prefill_flag: false,
            packet_loss_perc: 0,
            fs_khz: 16,
            nb_subfr: 4,
            subfr_length: 80,
            frame_length: 320,
            ltp_mem_length: 320,
            la_pitch: 32,
            max_pitch_lag: 288,
            pitch_lpc_win_length: 384,
            predict_lpc_order: 16,
            packet_size_ms: 20,
            n_frames_per_packet: 1,
            effort: SearchEffort {
                complexity: 0,
                pitch_estimation_complexity: 0,
                pitch_estimation_threshold_q16: 0,
                pitch_estimation_lpc_order: 0,
                shaping_lpc_order: 0,
                la_shape: 0,
                shape_win_length: 0,
                n_states_delayed_decision: 0,
                use_interpolated_nlsfs: false,
                nlsf_msvq_survivors: 0,
                warping_q16: 0,
            },
            target_rate_bps: 0,
            snr_db_q7: 0,
            lbrr_enabled: false,
            lbrr_gain_increases: 0,
            lbrr_flag: false,
            lbrr_flags: flags,
            lbrr_prev_last_gain_index: 0,
            speech_activity_q8: 0,
            no_speech_counter: 0,
            in_dtx: false,
            vad_flags: flags,
            input_buf_ix: 0,
            n_frames_encoded: 0,
            frame_counter: 0,
            first_frame_after_reset: true,
            prev_lag: 100,
            prev_signal_type: FrameSignalType::Inactive,
            prev_nlsf_q15: nlsf,
            ec_prev_signal_type: FrameSignalType::Inactive,
            ec_prev_lag_index: 0,
            indices: SideInfoIndices {
                gains_indices: gains,
                ltp_index: [0;4],
                nlsf_indices: [0;17],
                lag_index: 0,
                contour_index: 0,
                signal_type: FrameSignalType::Inactive,
                quant_offset_type: FrameQuantizationOffsetType::Low,
                nlsf_interp_coef_q2: 0,
                per_index: 0,
                ltp_scale_index: 0,
                seed: 0,
            },
            nsq_state: NoiseShapingQuantizerState { lag_prev: 100, prev_gain_q16: 65536 },
        }
    }
}

pub open spec fn no_flags() -> Seq<bool> {
    seq![false, false, false]
}

pub open spec fn no_effort() -> SearchEffort {
    SearchEffort {
        complexity: 0,
        pitch_estimation_complexity: 0,
        pitch_estimation_threshold_q16: 0,
        pitch_estimation_lpc_order: 0,
        shaping_lpc_order: 0,
        la_shape: 0,
        shape_win_length: 0,
        n_states_delayed_decision: 0,
        use_interpolated_nlsfs: false,
        nlsf_msvq_survivors: 0,
        warping_q16: 0,
    }
}

/// A channel of an encoder.
#[derive(Debug)]
pub struct EncoderChannelState {
    pub common: EncoderStateCommon,
    pub lp_state: LpState,
    pub shape_state: EncoderShapeState,
    pub resampler_state: Resampler,
    /// Analysis history.
    pub x_buf: Vec<i16>,
    /// The next frame, behind two samples of the last one.
    pub input_buf: Vec<i16>,
}

impl EncoderChannelState {
    pub open spec fn wf(&self) -> bool {
        &&& self.common.wf()
        &&& khz_or_none(self.lp_state.saved_fs_khz as int)
        &&& self.x_buf@.len() == X_BUFFER_LENGTH
        &&& self.input_buf@.len() == INPUT_BUFFER_LENGTH
    }

    /// There is no history, and no conversion is set up.
    pub open spec fn rest_fresh(&self) -> bool {
        &&& self.shape_state.last_gain_index == 10
        &&& self.resampler_state == (Resampler { fs_in_hz: 0, fs_out_hz: 0 })
        &&& forall|i: int| 0 <= i < self.x_buf@.len() ==> #[trigger] self.x_buf@[i] == 0
        &&& forall|i: int| 0 <= i < self.input_buf@.len() ==> #[trigger] self.input_buf@[i] == 0
    }

    pub fn common(&self) -> (r: &EncoderStateCommon)
        ensures
            *r == self.common,
    {
        &self.common
    }

    pub fn common_mut(&mut self) -> (r: &mut EncoderStateCommon)
        ensures
            *r == old(self).common,
            *final(self) == (EncoderChannelState { common: *final(r), ..*old(self) }),
    {
        &mut self.common
    }

    pub fn low_pass_state(&self) -> (r: &LpState)
        ensures
            *r == self.lp_state,
    {
        &self.lp_state
    }

    pub fn low_pass_state_mut(&mut self) -> (r: &mut LpState)
        ensures
            *r == old(self).lp_state,
            *final(self) == (EncoderChannelState { lp_state: *final(r), ..*old(self) }),
    {
        &mut self.lp_state
    }
}

impl Default for EncoderChannelState {
    /// The defaults of the settings, and empty histories.
    fn default() -> (r: EncoderChannelState)
        ensures
            r.wf(),
            common_fresh(r.common, 16, 0),
            r.lp_state.at_rest(),
            r.rest_fresh(),
    {
        EncoderChannelState {
            common: EncoderStateCommon::default(),
            lp_state: LpState::default(),
            shape_state: EncoderShapeState { last_gain_index: 10 },
            resampler_state: Resampler { fs_in_hz: 0, fs_out_hz: 0 },
            x_buf: vec![0i16;X_BUFFER_LENGTH],
            input_buf: vec![0i16;INPUT_BUFFER_LENGTH],
        }
    }
}

} // verus!
