//! What settings and decisions about frames amount to.

use crate::fixed::lemma_wrap32_range;
use crate::opus_encoder::{
    encoder_takes, encoder_with, EncoderSetting, OPUS_APPLICATION_RESTRICTED_LOWDELAY, OPUS_AUTO,
    OPUS_BITRATE_MAX, OpusEncoder,
};
use crate::silk::check_control_input::EncControl;
use crate::silk::cng::{law_no_noise_where_nothing_lacks, noise_filter, PlcState};
use crate::silk::control_audio_bandwidth::{
    bandwidth_step, bits_without_reserve, rate_allowed, rate_before,
};
use crate::silk::control_codec::{effort_of, packet_shape, redundancy_gain};
use crate::silk::core_laws::law_pitch_repeats_history;
use crate::silk::dec_api::output_samples;
use crate::silk::decode_core::{core_frame, core_ok, core_run, core_start};
use crate::silk::decode_frame::{frame_entered, step_synthesis};
use crate::silk::decode_pitch::{contour_offset, pitch_format_ok, pitch_lag};
use crate::silk::decoder_control::DecoderControl;
use crate::silk::decoder_state::DecoderState;
use crate::silk::encode_frame::{counted_activity, repeated_gain, starts_run, VAD_NO_ACTIVITY};
use crate::silk::encoder_state::{EncoderStateCommon, LpState, TRANSITION_FRAMES};
use crate::silk::pitch_est_tables::{
    SILK_CB_LAGS_STAGE2, SILK_CB_LAGS_STAGE2_10_MS, SILK_CB_LAGS_STAGE3, SILK_CB_LAGS_STAGE3_10_MS,
};
use crate::silk::types::FrameSignalType;
use vstd::arithmetic::div_mod::*;
use vstd::prelude::*;

verus! {

// ---------------------------------------------------------------------
// Decoding
// ---------------------------------------------------------------------

/// In a decoded frame a steady voiced sound goes on: with one tap in the middle, no
/// pulses and no short-term predictor, the first samples are those of a constant
/// history, weighted by the tap and the scale (both in units of `2^-14`).
pub proof fn law_decoded_frame_repeats_history(
    set: DecoderState,
    made: DecoderControl,
    pulses: Seq<i16>,
    out0: Seq<i16>,
    a: DecoderState,
    control: DecoderControl,
    out: Seq<i16>,
    h: int,
    i: int,
)
    requires
        step_synthesis(set, made, pulses, out0, a, control, out),
        core_ok(set, made),
        out0.len() >= set.sample_rate.frame_length,
        pulses.len() >= set.sample_rate.frame_length,
        set.indices.signal_type == FrameSignalType::Voiced,
        0 <= i < set.sample_rate.subfr_length,
        i < made.pitch_l[0],
        pulses[i] == 0,
        forall|j: int|
            0 <= j < set.sample_rate.lpc_order ==> #[trigger] made.pred_coef_q12[0]@[j] == 0,
        0 <= h <= 0x7fff,
        forall|j: int|
            0 <= j < set.sample_rate.ltp_mem_length ==> #[trigger] set.sample_rate.out_buf@[j] == h,
        0x1_0000 <= made.gains_q16[0] <= 0x10_0000,
        made.gains_q16[0] % 64 == 0,
        0 <= made.ltp_scale_q14 <= 0x4000,
        made.ltp_coef_q14[0] == 0,
        made.ltp_coef_q14[1] == 0,
        0 <= made.ltp_coef_q14[2] <= 0x4000,
        made.ltp_coef_q14[3] == 0,
        made.ltp_coef_q14[4] == 0,
    ensures
        -0x5000_0000 <= 0x1000_0000 * out[i] - (made.ltp_coef_q14[2] * h) * made.ltp_scale_q14
            <= 0x5000_0000,
{
    reveal(step_synthesis);
    law_pitch_repeats_history(set, made, pulses, h, i);
    let f = core_frame(set, made, pulses);
    let nb = set.sample_rate.nb_subfr;
    let end = core_run(f, core_start(set), nb as nat);
    assert(nb * f.len >= f.len) by (nonlinear_arith)
        requires
            nb >= 1,
            f.len >= 0,
    ;
    let sr = set.sample_rate;
    assert(f.len == sr.subfr_length);
    assert(nb * f.len == sr.nb_subfr * sr.subfr_length);
    assert(nb * f.len <= out.len());
    assert(out.subrange(0, nb * f.len)[i] == out[i]);
    assert(end.out[i] == out[i]);
}

/// A concealed frame is left as it is where no noise was learnt, or where the
/// concealment is as loud as the noise.
pub proof fn law_concealed_frame_is_kept(
    b: DecoderState,
    control: DecoderControl,
    frame: Seq<i16>,
    a: DecoderState,
    out: Seq<i16>,
)
    requires
        frame_entered(b, false, control, frame, a, out),
        b.loss_count > 0,
        b.cng_state@.fs == b.sample_rate.fs_khz,
        0 <= b.plc_state.rand_scale_q14 <= 0x4000,
        0 <= b.plc_state.prev_gain_q16[1],
        0 <= b.cng_state@.gain <= (b.plc_state.rand_scale_q14 * b.plc_state.prev_gain_q16[1])
            / 0x1_0000,
    ensures
        out == frame,
{
    let m = b.cng_state@;
    let plc = PlcState {
        rand_scale_q14: b.plc_state.rand_scale_q14 as i32,
        prev_gain_q16: b.plc_state.prev_gain_q16,
    };
    let filter = noise_filter(m, b.sample_rate.lpc_order as int);
    assert forall|i: int| 0 <= i < frame.len() implies #[trigger] out[i] == frame[i] by {
        law_no_noise_where_nothing_lacks(m, plc, filter, frame, i);
    }
    assert(out =~= frame);
}

/// The lags of a frame start at two milliseconds and rise with their index, one
/// sample each; the first contour is flat.
pub proof fn law_lag_follows_index(
    index: int,
    contour: int,
    fs_khz: int,
    nb_subfr: int,
    subframe: int,
)
    requires
        pitch_format_ok(fs_khz, nb_subfr),
        0 <= subframe < nb_subfr,
    ensures
        pitch_lag(index, contour, fs_khz, nb_subfr, subframe) <= pitch_lag(
            index + 1,
            contour,
            fs_khz,
            nb_subfr,
            subframe,
        ) <= pitch_lag(index, contour, fs_khz, nb_subfr, subframe) + 1,
        0 <= index <= 16 * fs_khz ==> pitch_lag(index, 0, fs_khz, nb_subfr, subframe) == 2 * fs_khz
            + index,
{
    assert(SILK_CB_LAGS_STAGE2[0][0] == 0 && SILK_CB_LAGS_STAGE2[1][0] == 0
        && SILK_CB_LAGS_STAGE2[2][0] == 0 && SILK_CB_LAGS_STAGE2[3][0] == 0);
    assert(SILK_CB_LAGS_STAGE3[0][0] == 0 && SILK_CB_LAGS_STAGE3[1][0] == 0
        && SILK_CB_LAGS_STAGE3[2][0] == 0 && SILK_CB_LAGS_STAGE3[3][0] == 0);
    assert(SILK_CB_LAGS_STAGE2_10_MS[0][0] == 0 && SILK_CB_LAGS_STAGE2_10_MS[1][0] == 0);
    assert(SILK_CB_LAGS_STAGE3_10_MS[0][0] == 0 && SILK_CB_LAGS_STAGE3_10_MS[1][0] == 0);
    assert(subframe == 0 || subframe == 1 || subframe == 2 || subframe == 3);
    assert(contour_offset(fs_khz, nb_subfr, subframe, 0) == 0);
}

// ---------------------------------------------------------------------
// Encoding
// ---------------------------------------------------------------------

/// Redundant frames are coded more coarsely, by three to seven levels, and by fewer
/// the more packets are lost; the first of them by seven.
pub proof fn law_redundancy_follows_loss(before: bool, loss: int, more: int, gain: int)
    requires
        0 <= loss <= more <= 100,
    ensures
        redundancy_gain(before, false, loss, gain) == gain,
        redundancy_gain(false, true, loss, gain) == 7,
        3 <= redundancy_gain(before, true, loss, gain) <= 7,
        redundancy_gain(true, true, more, gain) <= redundancy_gain(true, true, loss, gain),
        redundancy_gain(true, true, 0, gain) == 7,
        more >= 21 ==> redundancy_gain(true, true, more, gain) == 3,
{
}

/// The gain of a redundant frame is raised at the start of a run, by what was set,
/// and never above the largest level.
pub proof fn law_redundant_gain_is_raised(c: EncoderStateCommon)
    requires
        0 <= c.indices.gains_indices[0] <= 63,
        0 <= c.lbrr_gain_increases <= 64,
    ensures
        c.indices.gains_indices[0] <= repeated_gain(c) <= 63,
        !starts_run(c) ==> repeated_gain(c) == c.indices.gains_indices[0],
        starts_run(c) && c.indices.gains_indices[0] + c.lbrr_gain_increases <= 63 ==> repeated_gain(
            c,
        ) == c.indices.gains_indices[0] + c.lbrr_gain_increases,
{
}

/// A frame that is known to hold no speech does not count as speech, whatever was
/// measured; all else counts as measured.
pub proof fn law_silence_is_no_speech(measured: int, activity: int)
    ensures
        activity == VAD_NO_ACTIVITY ==> counted_activity(measured, activity) < 13,
        activity != VAD_NO_ACTIVITY ==> counted_activity(measured, activity) == measured,
        counted_activity(measured, activity) <= measured,
{
}

/// Subframes last 5 ms, and together the frames of a packet make up its size; the
/// window of the pitch analysis covers a frame and 4 ms more.
pub proof fn law_packet_has_its_size(ms: int, fs_khz: int)
    ensures
        packet_shape(ms, fs_khz) is Some <==> (ms == 10 || ms == 20 || ms == 40 || ms == 60),
        packet_shape(ms, fs_khz) matches Some((frames, subframes, samples, window)) ==> {
            &&& 5 * (frames * subframes) == ms
            &&& samples == (5 * subframes) * fs_khz
            &&& window == samples + 4 * fs_khz
            &&& ms > 20 ==> subframes == 4
        },
{
    assert(1 * 2 == 2 && 1 * 4 == 4 && 2 * 4 == 8 && 3 * 4 == 12);
    assert(24 * fs_khz == 20 * fs_khz + 4 * fs_khz);
}

/// More complexity never follows fewer decisions, and from the fourth step on no
/// analysis becomes shorter.
pub proof fn law_effort_rises(complexity: int, more: int, fs_khz: int, lpc_order: int)
    requires
        0 <= complexity <= more <= 10,
        fs_khz == 8 || fs_khz == 12 || fs_khz == 16,
        lpc_order == 10 || lpc_order == 16,
    ensures
        ({
            let e = effort_of(complexity, fs_khz, lpc_order);
            let m = effort_of(more, fs_khz, lpc_order);
            &&& e.n_states_delayed_decision <= m.n_states_delayed_decision
            &&& e.use_interpolated_nlsfs ==> m.use_interpolated_nlsfs
            &&& complexity >= 3 ==> {
                &&& e.shaping_lpc_order <= m.shaping_lpc_order
                &&& e.pitch_estimation_lpc_order <= m.pitch_estimation_lpc_order
                &&& e.pitch_estimation_threshold_q16 >= m.pitch_estimation_threshold_q16
                &&& e.nlsf_msvq_survivors <= m.nlsf_msvq_survivors
            }
            &&& e.complexity == complexity
            &&& e.shape_win_length == 5 * fs_khz + 2 * e.la_shape
        }),
{
}

/// A frame that leaves room for a change of bandwidth keeps its time's part of the
/// bits: 5 ms more than it lasts are counted.
pub proof fn law_reserve_is_five_milliseconds(max_bits: int, ms: int)
    requires
        0 <= max_bits <= 0x1000_0000,
        0 < ms <= 60,
    ensures
        ({
            let kept = bits_without_reserve(max_bits, ms);
            &&& 0 <= kept <= max_bits
            &&& ms * max_bits <= kept * (ms + 5) < ms * max_bits + ms + 5
        }),
{
    let d = ms + 5;
    lemma_wrap32_range(max_bits * 5);
    let q = (max_bits * 5) / d;
    lemma_fundamental_div_mod(max_bits * 5, d);
    lemma_mod_bound(max_bits * 5, d);
    assert(0 <= q <= max_bits) by (nonlinear_arith)
        requires
            max_bits * 5 == d * q + (max_bits * 5) % d,
            0 <= (max_bits * 5) % d < d,
            d >= 5,
            max_bits >= 0,
    ;
    lemma_wrap32_range(max_bits - q);
    let kept = max_bits - q;
    assert(kept * d == max_bits * ms + 5 * max_bits - d * q) by (nonlinear_arith)
        requires
            kept == max_bits - q,
            d == ms + 5,
    ;
    assert(max_bits * ms == ms * max_bits) by (nonlinear_arith);
}

/// An explicit bitrate between the limits is the one that an encoder codes at; one
/// beyond them is brought to the nearest limit.
pub proof fn law_explicit_bitrate_is_kept(e: OpusEncoder, v: i32)
    requires
        e.wf(),
        v > 0,
    ensures
        ({
            let rate = encoder_with(e, EncoderSetting::Bitrate(v)).bitrate();
            &&& encoder_takes(e, EncoderSetting::Bitrate(v))
            &&& 500 <= v <= 300000 * e.channels ==> rate == v
            &&& v < 500 ==> rate == 500
            &&& v > 300000 * e.channels ==> rate == 300000 * e.channels
        }),
{
}

/// The samples that an encoder looks ahead last 2.5 ms, and 4 ms more unless delay is
/// to be low.
pub proof fn law_lookahead_lasts(e: OpusEncoder)
    requires
        e.wf(),
    ensures
        e.application == OPUS_APPLICATION_RESTRICTED_LOWDELAY ==> 2000 * e.lookahead() == 5 * e.fs,
        e.application != OPUS_APPLICATION_RESTRICTED_LOWDELAY ==> 2000 * e.lookahead() == 13 * e.fs,
{
}

/// Samples last as long at the output's rate as at the decoder's, but for less than
/// one: whole milliseconds are kept exactly where the output has a whole number of
/// samples for them.
pub proof fn law_output_lasts_as_long(samples: int, api_hz: int, fs_khz: int)
    requires
        0 <= samples,
        0 <= api_hz,
        0 < fs_khz,
    ensures
        ({
            let n = output_samples(samples, api_hz, fs_khz);
            n * (1000 * fs_khz) <= samples * api_hz < n * (1000 * fs_khz) + 1000 * fs_khz
        }),
        api_hz == 1000 * fs_khz ==> output_samples(samples, api_hz, fs_khz) == samples,
{
    let v = samples * api_hz;
    let d = fs_khz * 1000;
    lemma_fundamental_div_mod(v, d);
    lemma_mod_bound(v, d);
    assert(d * (v / d) == (v / d) * (1000 * fs_khz)) by (nonlinear_arith)
        requires
            d == fs_khz * 1000,
    ;
    if api_hz == 1000 * fs_khz {
        lemma_div_multiples_vanish(samples, d);
        assert(v == d * samples) by (nonlinear_arith)
            requires
                v == samples * api_hz,
                api_hz == d,
        ;
    }
}

/// Where the rate stays but is not the one that is wanted, the band is filtered
/// towards it: down where the rate is above, up where it is below.
pub proof fn law_band_moves_towards_wanted(c: EncoderStateCommon, lp: LpState, ctl: EncControl)
    requires
        c.allow_bandwidth_switch,
        !ctl.opus_can_switch,
        rate_before(c, lp) != 0,
        rate_allowed(c, rate_before(c, lp) * 1000),
        0 < lp.transition_frame_no < TRANSITION_FRAMES,
    ensures
        ({
            let s = bandwidth_step(c, lp, ctl);
            let khz = rate_before(c, lp);
            let wanted = c.desired_internal_sample_rate_hz as int;
            &&& s.fs_khz == khz
            &&& khz * 1000 > wanted ==> s.mode < 0
            &&& khz * 1000 < wanted && lp.mode != 0 ==> s.mode > 0
            &&& khz * 1000 < wanted && lp.mode == 0 ==> s.switch_ready
            &&& khz * 1000 == wanted && lp.mode < 0 ==> s.mode > 0
        }),
{
}

/// Without an explicit bitrate an encoder takes its sample rate for each channel and 60
/// bits for each frame; where it may take all, a packet of 1276 bytes for each frame.
pub proof fn law_default_bitrates(e: OpusEncoder)
    requires
        e.wf(),
        e.prev_framesize > 0,
    ensures
        e.user_bitrate_bps == OPUS_AUTO ==> {
            let over = e.bitrate() - e.fs * e.channels;
            over * e.prev_framesize <= 60 * e.fs < over * e.prev_framesize + e.prev_framesize
        },
        e.user_bitrate_bps == OPUS_BITRATE_MAX ==> e.bitrate() * e.prev_framesize <= 1276 * 8 * e.fs
            < e.bitrate() * e.prev_framesize + e.prev_framesize,
{
    let n = e.prev_framesize as int;
    let a = 60 * e.fs;
    let b = 1276 * 8 * e.fs;
    lemma_fundamental_div_mod(a as int, n);
    lemma_mod_bound(a as int, n);
    lemma_fundamental_div_mod(b as int, n);
    lemma_mod_bound(b as int, n);
    assert(n * (a as int / n) == (a as int / n) * n) by (nonlinear_arith);
    assert(n * (b as int / n) == (b as int / n) * n) by (nonlinear_arith);
}

} // verus!
