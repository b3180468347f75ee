//! State of a decoder channel.

use crate::silk::cng::{cng_start, CngState};
use crate::silk::decode_indices::{no_indices, SideInfoIndices};
use crate::silk::decoder_set_fs::DecoderSampleRateState;
use crate::silk::types::FrameSignalType;
use vstd::prelude::*;

verus! {

pub const UNITY_Q16: i32 = 0x1_0000;

pub const DEFAULT_PLC_SUBFRAME_LENGTH: i32 = 20;

pub const DEFAULT_PLC_SUBFRAME_COUNT: i32 = 2;

/// State of loss concealment.
#[derive(Clone, Copy, Debug, PartialEq, Eq)]
pub struct PacketLossConcealmentState {
    /// Pitch lag (Q8).
    pub pitch_l_q8: i32,
    /// Long-term predictor (Q14).
    pub ltp_coef_q14: [i16; 5],
    /// Short-term predictor (Q12).
    pub prev_lpc_q12: [i16; 16],
    pub last_frame_lost: i32,
    pub rand_seed: i32,
    /// Scale of the random excitation (Q14).
    pub rand_scale_q14: i16,
    pub conc_energy: i32,
    pub conc_energy_shift: i32,
    pub prev_ltp_scale_q14: i16,
    /// Gains of the last two subframes (Q16).
    pub prev_gain_q16: [i32; 2],
    pub fs_khz: i32,
    pub nb_subfr: i32,
    pub subfr_length: i32,
    pub enable_deep_plc: bool,
}

impl PacketLossConcealmentState {
    /// Nothing to conceal with, for a pitch lag (Q8).
    pub open spec fn is_fresh(&self, pitch_l_q8: int) -> bool {
        &&& self.pitch_l_q8 == pitch_l_q8
        &&& forall|i: int| 0 <= i < 5 ==> #[trigger] self.ltp_coef_q14[i] == 0
        &&& forall|i: int| 0 <= i < 16 ==> #[trigger] self.prev_lpc_q12[i] == 0
        &&& self.last_frame_lost == 0
        &&& self.rand_seed == 0
        &&& self.rand_scale_q14 == 0
        &&& self.conc_energy == 0
        &&& self.conc_energy_shift == 0
        &&& self.prev_ltp_scale_q14 == 0
        &&& self.prev_gain_q16[0] == UNITY_Q16
        &&& self.prev_gain_q16[1] == UNITY_Q16
        &&& self.fs_khz == 0
        &&& self.nb_subfr == DEFAULT_PLC_SUBFRAME_COUNT
        &&& self.subfr_length == DEFAULT_PLC_SUBFRAME_LENGTH
        &&& !self.enable_deep_plc
    }

    /// Forgets all but half the frame as pitch lag.
    pub fn reset(&mut self, frame_length: usize)
        requires
            frame_length <= 0x00ff_ffff,
        ensures
            final(self).is_fresh(frame_length * 128),
    {
        self.pitch_l_q8 = frame_length as i32 * 128;
        self.prev_gain_q16 = [UNITY_Q16;2];
        self.subfr_length = DEFAULT_PLC_SUBFRAME_LENGTH;
        self.nb_subfr = DEFAULT_PLC_SUBFRAME_COUNT;
        self.last_frame_lost = 0;
        self.rand_seed = 0;
        self.rand_scale_q14 = 0;
        self.conc_energy = 0;
        self.conc_energy_shift = 0;
        self.prev_ltp_scale_q14 = 0;
        self.fs_khz = 0;
        self.enable_deep_plc = false;
        self.ltp_coef_q14 = [0;5];
        self.prev_lpc_q12 = [0;16];
    }
}

impl Default for PacketLossConcealmentState {
    fn default() -> (r: PacketLossConcealmentState)
        ensures
            r.is_fresh(0),
    {
        PacketLossConcealmentState {
            pitch_l_q8: 0,
            ltp_coef_q14: [0;5],
            prev_lpc_q12: [0;16],
            last_frame_lost: 0,
            rand_seed: 0,
            rand_scale_q14: 0,
            conc_energy: 0,
            conc_energy_shift: 0,
            prev_ltp_scale_q14: 0,
            prev_gain_q16: [UNITY_Q16;2],
            fs_khz: 0,
            nb_subfr: DEFAULT_PLC_SUBFRAME_COUNT,
            subfr_length: DEFAULT_PLC_SUBFRAME_LENGTH,
            enable_deep_plc: false,
        }
    }
}

/// State of a decoder channel.
#[derive(Clone, Copy, Debug)]
pub struct DecoderState {
    pub sample_rate: DecoderSampleRateState,
    /// Gain of the last subframe (Q16).
    pub prev_gain_q16: i32,
    /// Excitation (Q14).
    pub exc_q14: [i32; 320],
    /// Frequencies of the last frame (Q15).
    pub prev_nlsf_q15: [i16; 16],
    pub indices: SideInfoIndices,
    /// Frames decoded of the packet.
    pub n_frames_decoded: i32,
    pub n_frames_per_packet: i32,
    pub ec_prev_signal_type: FrameSignalType,
    pub ec_prev_lag_index: i16,
    pub vad_flags: [i32; 3],
    pub lbrr_flag: i32,
    pub lbrr_flags: [i32; 3],
    pub cng_state: CngState,
    /// Frames lost in a row.
    pub loss_count: i32,
    pub arch: i32,
    pub plc_state: PacketLossConcealmentState,
}

impl DecoderState {
    /// Nothing decoded and no rates set.
    pub open spec fn is_initial(&self) -> bool {
        &&& self.sample_rate.is_initial(4)
        &&& self.prev_gain_q16 == UNITY_Q16
        &&& forall|i: int| 0 <= i < 320 ==> #[trigger] self.exc_q14[i] == 0
        &&& forall|i: int| 0 <= i < 16 ==> #[trigger] self.prev_nlsf_q15[i] == 0
        &&& self.indices@ == no_indices()
        &&& self.n_frames_decoded == 0
        &&& self.n_frames_per_packet == 0
        &&& self.ec_prev_signal_type == FrameSignalType::Inactive
        &&& self.ec_prev_lag_index == 0
        &&& forall|i: int| 0 <= i < 3 ==> #[trigger] self.vad_flags[i] == 0
        &&& self.lbrr_flag == 0
        &&& forall|i: int| 0 <= i < 3 ==> #[trigger] self.lbrr_flags[i] == 0
        &&& self.cng_state@ == cng_start()
        &&& self.loss_count == 0
        &&& self.arch == 0
        &&& self.plc_state.is_fresh(0)
    }

    /// What follows from the sample rates.
    pub fn sample_rate(&self) -> (r: &DecoderSampleRateState)
        ensures
            *r == self.sample_rate,
    {
        &self.sample_rate
    }

    /// What follows from the sample rates, for changing it.
    pub fn sample_rate_mut(&mut self) -> (r: &mut DecoderSampleRateState)
        ensures
            *r == old(self).sample_rate,
            *final(self) == (DecoderState { sample_rate: *final(r), ..*old(self) }),
    {
        &mut self.sample_rate
    }

    /// The excitation (Q14).
    pub fn excitation_q14(&self) -> (r: &[i32; 320])
        ensures
            *r == self.exc_q14,
    {
        &self.exc_q14
    }

    /// The excitation (Q14), for changing it.
    pub fn excitation_q14_mut(&mut self) -> (r: &mut [i32; 320])
        ensures
            *r == old(self).exc_q14,
            *final(self) == (DecoderState { exc_q14: *final(r), ..*old(self) }),
    {
        &mut self.exc_q14
    }
}

impl Default for DecoderState {
    fn default() -> (r: DecoderState)
        ensures
            r.is_initial(),
    {
        DecoderState {
            sample_rate: DecoderSampleRateState::default(),
            prev_gain_q16: UNITY_Q16,
            exc_q14: [0;320],
            prev_nlsf_q15: [0;16],
            indices: SideInfoIndices::default(),
            n_frames_decoded: 0,
            n_frames_per_packet: 0,
            ec_prev_signal_type: FrameSignalType::Inactive,
            ec_prev_lag_index: 0,
            vad_flags: [0;3],
            lbrr_flag: 0,
            lbrr_flags: [0;3],
            cng_state: CngState::default(),
            loss_count: 0,
            arch: 0,
            plc_state: PacketLossConcealmentState::default(),
        }
    }
}

} // verus!
