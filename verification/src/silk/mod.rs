//! The speech layer.

pub mod a2nlsf;
pub mod agreement_laws;
pub mod ana_filt_bank_1;
pub mod apply_sine_window;
pub mod arm_silk_map;
pub mod autocorr;
pub mod biquad_alt;
pub mod biquad_alt_neon_intr;
pub mod burg_laws;
pub mod burg_modified;
pub mod bwexpander;
pub mod bwexpander_32;
pub mod check_control_input;
pub mod cng;
pub mod code_signs;
pub mod control_audio_bandwidth;
pub mod control_codec;
pub mod control_snr;
pub mod core_laws;
pub mod corr_matrix;
pub mod dec_api;
pub mod decode_call;
pub mod decode_core;
pub mod decode_frame;
pub mod decode_indices;
pub mod decode_parameters;
pub mod decode_pitch;
pub mod decode_pulses;
pub mod decode_run;
pub mod decoder;
pub mod decoder_checks;
pub mod decoder_control;
pub mod decoder_excitation;
pub mod decoder_frame;
pub mod decoder_predictor;
pub mod decoder_set_fs;
pub mod decoder_state;
pub mod division_laws;
pub mod enc_api;
pub mod encode_call;
pub mod encode_frame;
pub mod encode_run;
pub mod encode_trials;
pub mod encoder_state;
pub mod filter_laws;
pub mod gain_quant;
pub mod icdf;
pub mod inner_prod;
pub mod lpc_inv_pred_gain;
pub mod math;
pub mod nlsf2a;
pub mod nlsf_cb;
pub mod nlsf_decode;
pub mod nlsf_stabilize;
pub mod nsq;
pub mod packet_laws;
pub mod parameter_laws;
pub mod pitch_est_tables;
pub mod pulse_laws;
pub mod pulse_tables;
pub mod resampler;
pub mod root_laws;
pub mod shell_coder;
pub mod signal_laws;
pub mod state_laws;
pub mod sum_sqr_shift;
pub mod table_lsf_cos;
pub mod tables_ltp;
pub mod tables_nlsf_cb_nb_mb;
pub mod tables_nlsf_cb_wb;
pub mod tables_other;
pub mod tables_pitch_lag;
pub mod tables_pulses_per_block;
pub mod types;
pub mod warped_autocorrelation;
