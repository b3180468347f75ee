//! Whether a decoder channel can take the next step.

use crate::silk::cng::cng_ok;
use crate::silk::decode_call::channel_steady;
use crate::silk::decode_frame::channel_ok;
use crate::silk::decoder_set_fs::{
    is_nb_codebook, is_wb_codebook, low_bits_table, select_pitch_contour_table,
    DecoderSampleRateState,
};
use crate::silk::decoder_state::DecoderState;
use crate::silk::nlsf_cb::SilkNlsfCb;
use crate::silk::tables_nlsf_cb_nb_mb::silk_nlsf_cb_nb_mb;
use crate::silk::tables_nlsf_cb_wb::silk_nlsf_cb_wb;
use crate::silk::tables_other::{SILK_UNIFORM4_ICDF, SILK_UNIFORM6_ICDF, SILK_UNIFORM8_ICDF};
use crate::silk::types::FrameSignalType;
use vstd::prelude::*;

verus! {

fn same_bytes(a: &[u8], b: &[u8]) -> (r: bool)
    ensures
        r == (a@ == b@),
{
    let n: usize = a.len();
    if b.len() != n {
        return false;
    }
    let mut i: usize = 0;
    while i < n
        invariant
            n == a@.len(),
            n == b@.len(),
            i <= n,
            forall|j: int| 0 <= j < i ==> a@[j] == #[trigger] b@[j],
        decreases n - i,
    {
        if a[i] != b[i] {
            return false;
        }
        i = i + 1;
    }
    assert(a@ =~= b@);
    true
}

fn same_numbers(a: &[i16], b: &[i16]) -> (r: bool)
    ensures
        r == (a@ == b@),
{
    let n: usize = a.len();
    if b.len() != n {
        return false;
    }
    let mut i: usize = 0;
    while i < n
        invariant
            n == a@.len(),
            n == b@.len(),
            i <= n,
            forall|j: int| 0 <= j < i ==> a@[j] == #[trigger] b@[j],
        decreases n - i,
    {
        if a[i] != b[i] {
            return false;
        }
        i = i + 1;
    }
    assert(a@ =~= b@);
    true
}

/// The codebooks have the same tables.
pub open spec fn same_tables(a: SilkNlsfCb, b: SilkNlsfCb) -> bool {
    &&& a.n_vectors == b.n_vectors
    &&& a.order == b.order
    &&& a.quant_step_size_q16 == b.quant_step_size_q16
    &&& a.cb1_nlsf_q8@ == b.cb1_nlsf_q8@
    &&& a.cb1_icdf@ == b.cb1_icdf@
    &&& a.ec_sel@ == b.ec_sel@
    &&& a.ec_icdf@ == b.ec_icdf@
    &&& a.pred_q8@ == b.pred_q8@
    &&& a.delta_min_q15@ == b.delta_min_q15@
}

fn same_codebook(a: &SilkNlsfCb, b: &SilkNlsfCb) -> (r: bool)
    ensures
        r == same_tables(*a, *b),
{
    a.n_vectors == b.n_vectors && a.order == b.order && a.quant_step_size_q16
        == b.quant_step_size_q16 && same_bytes(a.cb1_nlsf_q8, b.cb1_nlsf_q8) && same_bytes(
        a.cb1_icdf,
        b.cb1_icdf,
    ) && same_bytes(a.ec_sel, b.ec_sel) && same_bytes(a.ec_icdf, b.ec_icdf) && same_bytes(
        a.pred_q8,
        b.pred_q8,
    ) && same_numbers(a.delta_min_q15, b.delta_min_q15)
}

/// Whether the codebook is the one of the internal rate.
fn has_codebook(cb: &SilkNlsfCb, fs_khz: i32) -> (r: bool)
    ensures
        r == if fs_khz == 16 {
            is_wb_codebook(*cb)
        } else {
            is_nb_codebook(*cb)
        },
        r ==> cb.wf(),
{
    let own: SilkNlsfCb = if fs_khz == 16 {
        silk_nlsf_cb_wb()
    } else {
        silk_nlsf_cb_nb_mb()
    };
    same_codebook(cb, &own)
}

fn low_bits_of(fs_khz: i32) -> (r: &'static [u8])
    ensures
        r@ == low_bits_table(fs_khz as int),
{
    if fs_khz == 8 {
        &SILK_UNIFORM4_ICDF
    } else if fs_khz == 12 {
        &SILK_UNIFORM6_ICDF
    } else {
        &SILK_UNIFORM8_ICDF
    }
}

/// Whether rates are set, and all that follows from them agrees with them.
pub fn is_configured(sr: &DecoderSampleRateState) -> (r: bool)
    ensures
        r == sr.configured(),
{
    if sr.fs_khz != 8 && sr.fs_khz != 12 && sr.fs_khz != 16 {
        return false;
    }
    if sr.nb_subfr != 2 && sr.nb_subfr != 4 {
        return false;
    }
    let khz: usize = sr.fs_khz as usize;
    if sr.subfr_length != 5 * khz || sr.ltp_mem_length != 20 * khz {
        return false;
    }
    if sr.frame_length != sr.nb_subfr * sr.subfr_length {
        return false;
    }
    if !has_codebook(&sr.ps_nlsf_cb, sr.fs_khz) {
        return false;
    }
    if sr.lpc_order != sr.ps_nlsf_cb.order as usize {
        return false;
    }
    same_bytes(
        sr.pitch_contour_icdf,
        select_pitch_contour_table(sr.fs_khz, sr.nb_subfr == 4),
    ) && same_bytes(sr.pitch_lag_low_bits_icdf, low_bits_of(sr.fs_khz))
}

/// Whether all but what the number of subframes decides agrees with the rates.
fn rates_kept(sr: &DecoderSampleRateState) -> (r: bool)
    ensures
        r == sr.keeps_rates(),
{
    if sr.fs_khz != 8 && sr.fs_khz != 12 && sr.fs_khz != 16 {
        return false;
    }
    let khz: usize = sr.fs_khz as usize;
    if sr.subfr_length != 5 * khz || sr.ltp_mem_length != 20 * khz {
        return false;
    }
    if !has_codebook(&sr.ps_nlsf_cb, sr.fs_khz) {
        return false;
    }
    if sr.lpc_order != sr.ps_nlsf_cb.order as usize {
        return false;
    }
    if sr.frame_length == 4 * sr.subfr_length && !same_bytes(
        sr.pitch_contour_icdf,
        select_pitch_contour_table(sr.fs_khz, true),
    ) {
        return false;
    }
    if sr.frame_length == 2 * sr.subfr_length && !same_bytes(
        sr.pitch_contour_icdf,
        select_pitch_contour_table(sr.fs_khz, false),
    ) {
        return false;
    }
    same_bytes(sr.pitch_lag_low_bits_icdf, low_bits_of(sr.fs_khz))
}

/// Whether a frame can be started on a channel.
pub fn is_steady(state: &DecoderState) -> (r: bool)
    ensures
        r == channel_steady(*state),
{
    (state.sample_rate.fs_khz == 0 || rates_kept(&state.sample_rate)) && state.n_frames_decoded
        >= 0
}

fn not_negative(v: &[i16; 16]) -> (r: bool)
    ensures
        r == (forall|i: int| 0 <= i < 16 ==> 0 <= #[trigger] v[i]),
{
    let mut i: usize = 0;
    while i < 16
        invariant
            i <= 16,
            forall|j: int| 0 <= j < i ==> 0 <= #[trigger] v[j],
        decreases 16 - i,
    {
        if v[i] < 0 {
            return false;
        }
        i = i + 1;
    }
    true
}

/// Whether a channel can decode a frame.
pub fn can_decode(state: &DecoderState) -> (r: bool)
    ensures
        r == channel_ok(*state),
{
    let sr: &DecoderSampleRateState = &state.sample_rate;
    if !is_configured(sr) {
        return false;
    }
    if sr.last_gain_index < -128 || sr.last_gain_index > 127 {
        return false;
    }
    if !not_negative(&state.cng_state.smth_nlsf_q15) || !not_negative(&state.prev_nlsf_q15) {
        return false;
    }
    let bridges: bool = state.loss_count > 0 && matches!(
        sr.prev_signal_type,
        FrameSignalType::Voiced
    );
    !bridges || (sr.lag_prev >= 2 && sr.lag_prev <= 18 * sr.fs_khz)
}

/// A decoded or concealed frame can enter a channel's history.
pub open spec fn enters_history(s: DecoderState) -> bool {
    &&& s.sample_rate.configured()
    &&& cng_ok(s.cng_state)
    &&& forall|i: int| 0 <= i < 16 ==> 0 <= #[trigger] s.prev_nlsf_q15[i]
    &&& s.loss_count >= 0
}

/// Whether a decoded or concealed frame can enter a channel's history.
pub fn can_enter(state: &DecoderState) -> (r: bool)
    ensures
        r == enters_history(*state),
{
    is_configured(&state.sample_rate) && not_negative(&state.cng_state.smth_nlsf_q15)
        && not_negative(&state.prev_nlsf_q15) && state.loss_count >= 0
}

} // verus!
