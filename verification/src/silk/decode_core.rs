//! Synthesis of a frame from its excitation.

use crate::fixed::{
    mul_ww, round_shift, sat16, sat16_of, sat32, sat32_of, shr32, smulww, wadd, wrap32, wsub,
};
use crate::silk::cng::{rand_next, silk_rand};
use crate::silk::decode_indices::SideInfoIndices;
use crate::silk::decoder_control::DecoderControl;
use crate::silk::decoder_state::DecoderState;
use crate::silk::inner_prod::mul16;
use crate::silk::math::{
    div32_varq, div_varq, inverse32_varq, inverse_varq, round_shr, shl, shl32,
};
use crate::silk::tables_other::SILK_QUANTIZATION_OFFSETS_Q10;
use crate::silk::types::{FrameQuantizationOffsetType, FrameSignalType};
use vstd::arithmetic::power2::*;
use vstd::prelude::*;

verus! {

/// Pull of pulses towards zero (Q10).
pub const QUANT_LEVEL_ADJUST_Q10: i32 = 80;

/// Middle tap on the way from a lost voiced frame (Q14).
pub const VOICED_TRANSITION_Q14: i16 = 4096;

// ---------------------------------------------------------------------
// Excitation
// ---------------------------------------------------------------------

/// The quantisation offset (Q10) of a frame.
pub open spec fn quant_offset(i: SideInfoIndices) -> int {
    SILK_QUANTIZATION_OFFSETS_Q10[if i.signal_type == FrameSignalType::Voiced {
        1
    } else {
        0
    }][i.quant_offset_type.number()] as int
}

/// The random number before sample `i` is drawn.
pub open spec fn pulse_seed(seed: int, pulses: Seq<i16>, i: nat) -> int
    decreases i,
{
    if i == 0 {
        seed
    } else {
        wrap32(rand_next(pulse_seed(seed, pulses, (i - 1) as nat)) + pulses[i - 1])
    }
}

/// A pulse as excitation (Q14), before its random sign.
pub open spec fn pulse_level(pulse: int, offset: int) -> int {
    let v = pulse * 0x4000;
    offset * 16 + if v > 0 {
        v - QUANT_LEVEL_ADJUST_Q10 * 16
    } else if v < 0 {
        v + QUANT_LEVEL_ADJUST_Q10 * 16
    } else {
        0
    }
}

/// Excitation sample `i` (Q14).
pub open spec fn excitation(seed: int, offset: int, pulses: Seq<i16>, i: int) -> int {
    let v = pulse_level(pulses[i] as int, offset);
    if rand_next(pulse_seed(seed, pulses, i as nat)) < 0 {
        -v
    } else {
        v
    }
}

// ---------------------------------------------------------------------
// Synthesis
// ---------------------------------------------------------------------

/// What stays the same over the subframes of a frame.
pub struct CoreFrame {
    pub len: int,
    pub mem: int,
    pub exc: Seq<int>,
    pub rows: Seq<Seq<i16>>,
    pub gains: Seq<int>,
    pub taps: Seq<int>,
    pub lags: Seq<int>,
    pub scale: int,
    pub voiced: bool,
    pub interpolated: bool,
    /// The frame follows a lost voiced one and is not voiced.
    pub transition: bool,
    pub lag_prev: int,
}

/// What a subframe leaves to the next.
pub struct CoreState {
    /// Short-term predictor state (Q14).
    pub lpc: Seq<int>,
    /// Long-term predictor buffer (Q15), filled up to `idx`.
    pub ltp: Seq<int>,
    pub idx: int,
    pub prev_gain: int,
    /// Output history.
    pub hist: Seq<i16>,
    /// Output of the frame so far.
    pub out: Seq<i16>,
}

impl CoreFrame {
    /// Subframe `k` bridges a lost voiced frame.
    pub open spec fn bridged(self, k: int) -> bool {
        self.transition && k < 2
    }

    pub open spec fn sub_voiced(self, k: int) -> bool {
        self.voiced || self.bridged(k)
    }

    pub open spec fn lag(self, k: int) -> int {
        if self.bridged(k) {
            self.lag_prev
        } else {
            self.lags[k]
        }
    }

    pub open spec fn tap(self, k: int, t: int) -> int {
        if self.bridged(k) {
            if t == 2 {
                VOICED_TRANSITION_Q14 as int
            } else {
                0
            }
        } else {
            self.taps[5 * k + t]
        }
    }

    pub open spec fn row(self, k: int) -> Seq<i16> {
        self.rows[k / 2]
    }

    /// The history is filtered anew before subframe `k`.
    pub open spec fn rewhitened(self, k: int) -> bool {
        k == 0 || (k == 2 && self.interpolated)
    }

    /// How far the long-term predictor buffer is filled before subframe `k`:
    /// voiced subframes fill it further.
    pub open spec fn filled(self, k: int) -> int
        decreases k,
    {
        if k <= 0 {
            self.mem
        } else if self.sub_voiced(k - 1) {
            self.filled(k - 1) + self.len
        } else {
            self.filled(k - 1)
        }
    }

    /// The lag of a voiced subframe reaches back no further than the history,
    /// where that is filtered anew, or else than the buffer, and reads nothing
    /// behind the buffer.
    pub open spec fn lag_ok(self, order: int, k: int) -> bool {
        &&& 0 < self.lag(k)
        &&& if self.rewhitened(k) {
            self.lag(k) < self.mem - order - 2
        } else {
            self.lag(k) <= self.filled(k) - 3
        }
        &&& self.lag(k) >= 2 || self.filled(k) + self.len < 640
    }
}

/// The buffer holds at least the history.
pub proof fn lemma_filled(f: CoreFrame, k: int)
    requires
        f.len >= 0,
        0 <= k,
    ensures
        f.mem <= f.filled(k) <= f.mem + k * f.len,
    decreases k,
{
    if k > 0 {
        lemma_filled(f, k - 1);
        assert(k * f.len == (k - 1) * f.len + f.len) by (nonlinear_arith);
    } else {
        assert(0 * f.len == 0);
    }
}

/// The prediction of `x[pos]` from the samples before it, with `n` taps.
pub open spec fn short_prediction(x: Seq<i16>, pos: int, a: Seq<i16>, n: nat) -> int
    decreases n,
{
    if n == 0 {
        0
    } else {
        wrap32(short_prediction(x, pos, a, (n - 1) as nat) + x[pos - n] * a[n - 1])
    }
}

/// The prediction residual of `x[pos]`.
pub open spec fn whitened(x: Seq<i16>, pos: int, a: Seq<i16>) -> int {
    sat16_of(
        round_shift(
            wrap32(x[pos] * 4096 - short_prediction(x, pos, a, a.len())),
            12,
        ),
    )
}

/// The factor by which a change of gain scales states (Q16).
pub open spec fn gain_change(prev: int, gain: int) -> int {
    if prev == gain {
        0x1_0000
    } else {
        div_varq(prev, gain, 16)
    }
}

/// The history with the frame's first half behind it.
pub open spec fn hist_before(f: CoreFrame, c: CoreState, k: int) -> Seq<i16> {
    if f.sub_voiced(k) && f.rewhitened(k) && k == 2 {
        Seq::new(
            480,
            |i: int|
                if f.mem <= i < f.mem + 2 * f.len {
                    c.out[i - f.mem]
                } else {
                    c.hist[i]
                },
        )
    } else {
        c.hist
    }
}

/// The inverse gain (Q31) that scales the residual.
pub open spec fn residual_scale(f: CoreFrame, k: int) -> int {
    let inv = inverse_varq(f.gains[k], 47);
    if k == 0 {
        shl(mul_ww(inv, f.scale), 2)
    } else {
        inv
    }
}

/// The long-term predictor buffer as subframe `k` finds it.
pub open spec fn ltp_before(f: CoreFrame, c: CoreState, k: int) -> Seq<int> {
    let from = c.idx - f.lag(k) - 2;
    let change = gain_change(c.prev_gain, f.gains[k]);
    if f.rewhitened(k) {
        let hist = hist_before(f, c, k);
        Seq::new(
            640,
            |q: int|
                if from <= q < c.idx {
                    mul_ww(
                        residual_scale(f, k),
                        whitened(hist, f.mem - c.idx + q + k * f.len, f.row(k)),
                    )
                } else {
                    c.ltp[q]
                },
        )
    } else if change != 0x1_0000 {
        Seq::new(
            640,
            |q: int|
                if from <= q < c.idx {
                    mul_ww(change, c.ltp[q])
                } else {
                    c.ltp[q]
                },
        )
    } else {
        c.ltp
    }
}

/// The long-term prediction (Q13) with `n` taps, the first at `pos`.
pub open spec fn long_prediction(f: CoreFrame, k: int, ltp: Seq<int>, pos: int, n: nat) -> int
    decreases n,
{
    if n == 0 {
        2
    } else {
        wrap32(
            long_prediction(f, k, ltp, pos, (n - 1) as nat) + mul_ww(
                ltp[pos - (n - 1)],
                f.tap(k, n - 1),
            ),
        )
    }
}

/// The buffer after `i` samples of subframe `k`.
pub open spec fn ltp_after(f: CoreFrame, c: CoreState, k: int, i: nat) -> Seq<int>
    decreases i,
{
    if i == 0 {
        ltp_before(f, c, k)
    } else {
        let ltp = ltp_after(f, c, k, (i - 1) as nat);
        ltp.update(c.idx + i - 1, shl(voiced_residual(f, c, k, ltp, i - 1), 1))
    }
}

/// The residual (Q14) of sample `i` of a voiced subframe.
pub open spec fn voiced_residual(
    f: CoreFrame,
    c: CoreState,
    k: int,
    ltp: Seq<int>,
    i: int,
) -> int {
    wrap32(
        f.exc[k * f.len + i] + shl(
            long_prediction(f, k, ltp, c.idx - f.lag(k) + 2 + i, 5),
            1,
        ),
    )
}

/// The residual (Q14) of sample `i` of subframe `k`.
pub open spec fn residual(f: CoreFrame, c: CoreState, k: int, i: int) -> int {
    if f.sub_voiced(k) {
        voiced_residual(f, c, k, ltp_after(f, c, k, i as nat), i)
    } else {
        f.exc[k * f.len + i]
    }
}

/// The short-term prediction (Q10) from the last of `hist`, with `n` taps.
pub open spec fn synthesis_prediction(hist: Seq<int>, a: Seq<i16>, n: nat) -> int
    decreases n,
{
    if n == 0 {
        a.len() as int / 2
    } else {
        wrap32(
            synthesis_prediction(hist, a, (n - 1) as nat) + mul_ww(
                hist[hist.len() - n],
                a[n - 1] as int,
            ),
        )
    }
}

/// The predictor state and the first `i` synthesised samples (Q14).
pub open spec fn synthesis(f: CoreFrame, c: CoreState, k: int, i: nat) -> Seq<int>
    decreases i,
{
    if i == 0 {
        let change = gain_change(c.prev_gain, f.gains[k]);
        Seq::new(
            16,
            |j: int|
                if c.prev_gain == f.gains[k] {
                    c.lpc[j]
                } else {
                    mul_ww(change, c.lpc[j])
                },
        )
    } else {
        let hist = synthesis(f, c, k, (i - 1) as nat);
        hist.push(
            sat32_of(
                residual(f, c, k, i - 1) + sat32_of(
                    synthesis_prediction(hist, f.row(k), f.row(k).len()) * 16,
                ),
            ),
        )
    }
}

/// Output sample `i` of subframe `k`.
pub open spec fn output_sample(f: CoreFrame, c: CoreState, k: int, i: int) -> int {
    sat16_of(
        round_shift(
            mul_ww(synthesis(f, c, k, (i + 1) as nat)[16 + i], f.gains[k] / 64),
            8,
        ),
    )
}

/// The state after subframe `k`.
pub open spec fn core_step(f: CoreFrame, c: CoreState, k: int) -> CoreState {
    CoreState {
        lpc: synthesis(f, c, k, f.len as nat).subrange(f.len, f.len + 16),
        ltp: if f.sub_voiced(k) {
            ltp_after(f, c, k, f.len as nat)
        } else {
            c.ltp
        },
        idx: if f.sub_voiced(k) {
            c.idx + f.len
        } else {
            c.idx
        },
        prev_gain: f.gains[k],
        hist: hist_before(f, c, k),
        out: c.out + Seq::new(f.len as nat, |i: int| output_sample(f, c, k, i) as i16),
    }
}

/// The state after `k` subframes.
pub open spec fn core_run(f: CoreFrame, c: CoreState, k: nat) -> CoreState
    decreases k,
{
    if k == 0 {
        c
    } else {
        core_step(f, core_run(f, c, (k - 1) as nat), k - 1)
    }
}

/// The frame that a decoder is about to synthesise.
pub open spec fn core_frame(s: DecoderState, c: DecoderControl, pulses: Seq<i16>) -> CoreFrame {
    let sr = s.sample_rate;
    CoreFrame {
        len: sr.subfr_length as int,
        mem: sr.ltp_mem_length as int,
        exc: Seq::new(
            sr.frame_length as nat,
            |i: int| excitation(s.indices.seed as int, quant_offset(s.indices), pulses, i),
        ),
        rows: Seq::new(
            2,
            |h: int| c.pred_coef_q12[h]@.subrange(0, sr.lpc_order as int),
        ),
        gains: Seq::new(4, |k: int| c.gains_q16[k] as int),
        taps: Seq::new(20, |k: int| c.ltp_coef_q14[k] as int),
        lags: Seq::new(4, |k: int| c.pitch_l[k] as int),
        scale: c.ltp_scale_q14 as int,
        voiced: s.indices.signal_type == FrameSignalType::Voiced,
        interpolated: s.indices.nlsf_interp_coef_q2 < 4,
        transition: s.loss_count > 0 && sr.prev_signal_type == FrameSignalType::Voiced
            && s.indices.signal_type != FrameSignalType::Voiced,
        lag_prev: sr.lag_prev as int,
    }
}

/// The state before the first subframe.
pub open spec fn core_start(s: DecoderState) -> CoreState {
    CoreState {
        lpc: Seq::new(16, |i: int| s.sample_rate.s_lpc_q14_buf[i] as int),
        ltp: Seq::new(640, |i: int| 0),
        idx: s.sample_rate.ltp_mem_length as int,
        prev_gain: s.prev_gain_q16 as int,
        hist: s.sample_rate.out_buf@,
        out: seq![],
    }
}

/// The frame can be synthesised: lengths fit the buffers, gains are positive,
/// and the lags of voiced subframes lie inside the history.
pub open spec fn core_ok(s: DecoderState, c: DecoderControl) -> bool {
    let sr = s.sample_rate;
    let f = core_frame(s, c, seq![]);
    &&& 0 < sr.frame_length <= 320
    &&& sr.nb_subfr == 2 || sr.nb_subfr == 4
    &&& 1 <= sr.lpc_order <= 16
    &&& 1 <= sr.subfr_length <= 80
    &&& 1 <= sr.ltp_mem_length <= 320
    &&& sr.nb_subfr * sr.subfr_length <= sr.frame_length
    &&& forall|k: int| 0 <= k < sr.nb_subfr ==> #[trigger] c.gains_q16[k] > 0
    &&& forall|k: int|
        0 <= k < sr.nb_subfr && f.sub_voiced(k) ==> #[trigger] f.lag_ok(sr.lpc_order as int, k)
}

// ---------------------------------------------------------------------
// Code
// ---------------------------------------------------------------------

/// Fills in the excitation.
fn excite(exc: &mut [i32; 320], indices: &SideInfoIndices, pulses: &[i16], frame_length: usize)
    requires
        frame_length <= 320,
        pulses@.len() >= frame_length,
    ensures
        forall|i: int|
            0 <= i < 320 ==> #[trigger] final(exc)@[i] == if i < frame_length {
                excitation(indices.seed as int, quant_offset(*indices), pulses@, i)
            } else {
                old(exc)@[i] as int
            },
{
    let row: usize = if indices.signal_type == FrameSignalType::Voiced {
        1
    } else {
        0
    };
    let col: usize = if indices.quant_offset_type == FrameQuantizationOffsetType::Low {
        0
    } else {
        1
    };
    let offset: i32 = SILK_QUANTIZATION_OFFSETS_Q10[row][col] as i32;
    let mut seed: i32 = indices.seed as i32;
    for i in 0..frame_length
        invariant
            frame_length <= 320,
            pulses@.len() >= frame_length,
            -0x8000 <= offset <= 0x7fff,
            offset == quant_offset(*indices),
            seed == pulse_seed(indices.seed as int, pulses@, i as nat),
            forall|j: int|
                0 <= j < i ==> #[trigger] exc@[j] == excitation(
                    indices.seed as int,
                    offset as int,
                    pulses@,
                    j,
                ),
            forall|j: int| i <= j < 320 ==> #[trigger] exc@[j] == old(exc)@[j],
    {
        seed = silk_rand(seed);
        let pulse: i32 = pulses[i] as i32;
        let mut v: i32 = pulse * 0x4000;
        if v > 0 {
            v = v - QUANT_LEVEL_ADJUST_Q10 * 16;
        } else if v < 0 {
            v = v + QUANT_LEVEL_ADJUST_Q10 * 16;
        }
        v = v + offset * 16;
        if seed < 0 {
            v = -v;
        }
        exc[i] = v;
        seed = wadd(seed, pulse);
    }
}

/// The residual of `x[pos]`.
fn whiten(x: &[i16; 480], pos: usize, a: &[i16; 16], order: usize) -> (r: i16)
    requires
        order <= 16,
        order <= pos < 480,
    ensures
        r == whitened(x@, pos as int, a@.subrange(0, order as int)),
{
    let ghost row = a@.subrange(0, order as int);
    let mut sum: i32 = 0;
    for n in 0..order
        invariant
            order <= 16,
            order <= pos < 480,
            row == a@.subrange(0, order as int),
            sum == short_prediction(x@, pos as int, row, n as nat),
    {
        assert(row[n as int] == a@[n as int]);
        sum = wadd(sum, mul16(x[pos - 1 - n], a[n]));
    }
    sat16(round_shr(wsub(x[pos] as i32 * 4096, sum), 12))
}

/// The buffers of a frame's synthesis.
struct CoreBuffers {
    lpc: [i32; 16],
    ltp: [i32; 640],
    idx: usize,
    prev_gain: i32,
    hist: [i16; 480],
}

impl CoreBuffers {
    closed spec fn holds(&self, c: CoreState) -> bool {
        &&& c.lpc.len() == 16
        &&& c.ltp.len() == 640
        &&& c.hist == self.hist@
        &&& c.idx == self.idx
        &&& c.prev_gain == self.prev_gain
        &&& forall|i: int| 0 <= i < 16 ==> #[trigger] self.lpc@[i] == c.lpc[i]
        &&& forall|i: int| 0 <= i < 640 ==> #[trigger] self.ltp@[i] == c.ltp[i]
    }
}

/// The parameters of a subframe.
struct CoreParams {
    k: usize,
    len: usize,
    mem: usize,
    order: usize,
    row: [i16; 16],
    gain: i32,
    scale: i32,
    voiced: bool,
    interpolated: bool,
    lag: usize,
    taps: [i16; 5],
}

impl CoreParams {
    closed spec fn holds(&self, f: CoreFrame, k: int) -> bool {
        &&& 0 <= k < 4
        &&& self.k == k
        &&& self.len == f.len
        &&& self.mem == f.mem
        &&& 1 <= self.order <= 16
        &&& 1 <= f.len <= 80
        &&& 1 <= f.mem <= 320
        &&& self.row@.subrange(0, self.order as int) == f.row(k)
        &&& self.gain == f.gains[k]
        &&& self.gain > 0
        &&& self.scale == f.scale
        &&& self.voiced == f.sub_voiced(k)
        &&& self.interpolated == f.interpolated
        &&& self.voiced ==> self.lag == f.lag(k) && f.lag_ok(self.order as int, k)
        &&& forall|t: int| 0 <= t < 5 ==> #[trigger] self.taps@[t] == f.tap(k, t)
        &&& f.exc.len() >= (k + 1) * f.len
        &&& f.exc.len() <= 320
    }
}

/// Brings the history and the predictor buffer up to date.
fn prepare_ltp(b: &mut CoreBuffers, p: &CoreParams, out: &[i16], Ghost(f): Ghost<CoreFrame>, Ghost(
    c,
): Ghost<CoreState>)
    requires
        old(b).holds(c),
        p.holds(f, p.k as int),
        p.voiced,
        f.mem <= c.idx <= f.mem + p.k * f.len,
        c.idx == f.filled(p.k as int),
        c.idx + f.len <= 640,
        p.k * f.len <= out@.len(),
        c.out == out@.subrange(0, p.k * f.len),
    ensures
        final(b).hist@ == hist_before(f, c, p.k as int),
        ltp_before(f, c, p.k as int).len() == 640,
        forall|q: int|
            0 <= q < 640 ==> #[trigger] final(b).ltp@[q] == ltp_before(f, c, p.k as int)[q],
        final(b).lpc == old(b).lpc,
        final(b).idx == old(b).idx,
        final(b).prev_gain == old(b).prev_gain,
{
    let k: usize = p.k;
    let ghost ki = k as int;
    let span: usize = p.lag + 2;
    let from: usize = b.idx - span;
    let rewhite: bool = k == 0 || (k == 2 && p.interpolated);
    let ghost goal = ltp_before(f, c, ki);
    if rewhite {
        if k == 2 {
            for i in 0..2 * p.len
                invariant
                    p.holds(f, 2),
                    f.sub_voiced(2),
                    f.rewhitened(2),
                    b.lpc == old(b).lpc,
                    b.ltp == old(b).ltp,
                    b.idx == old(b).idx,
                    b.prev_gain == old(b).prev_gain,
                    old(b).holds(c),
                    2 * f.len <= out@.len(),
                    c.out == out@.subrange(0, 2 * f.len),
                    forall|j: int|
                        0 <= j < 480 ==> #[trigger] b.hist@[j] == if f.mem <= j < f.mem + i {
                            c.out[j - f.mem]
                        } else {
                            c.hist[j]
                        },
            {
                assert(c.out[i as int] == out@[i as int]);
                b.hist[p.mem + i] = out[i];
            }
        }
        assert(b.hist@ =~= hist_before(f, c, ki));
        let ghost hist = b.hist@;
        let mut inv: i32 = inverse32_varq(p.gain, 47);
        if k == 0 {
            inv = shl32(smulww(inv, p.scale), 2);
        }
        assert(inv == residual_scale(f, ki));
        let ahead: usize = if k == 0 {
            0
        } else {
            2 * p.len
        };
        assert(ahead == ki * f.len) by {
            assert(0 * f.len == 0);
        }
        for i in 0..span
            invariant
                ahead == ki * f.len,
                ahead <= 160,
                p.holds(f, ki),
                ki == p.k,
                k == p.k,
                p.voiced,
                f.rewhitened(ki),
                k == 0 || k == 2,
                span == p.lag + 2,
                from == b.idx - span,
                c.idx == b.idx,
                f.mem <= c.idx <= f.mem + k * f.len,
                c.idx + f.len <= 640,
                b.lpc == old(b).lpc,
                b.idx == old(b).idx,
                b.prev_gain == old(b).prev_gain,
                b.hist@ == hist,
                hist == hist_before(f, c, ki),
                old(b).holds(c),
                inv == residual_scale(f, ki),
                goal == ltp_before(f, c, ki),
                goal.len() == 640,
                forall|q: int| from <= q < from + i ==> #[trigger] b.ltp@[q] == goal[q],
                forall|q: int|
                    (0 <= q < from || from + i <= q < 640) ==> #[trigger] b.ltp@[q] == c.ltp[q],
        {
            let pos: usize = p.mem - span + i + ahead;
            assert(f.mem - c.idx + (from + i) + ki * f.len == pos);
            let w: i16 = whiten(&b.hist, pos, &p.row, p.order);
            b.ltp[from + i] = smulww(inv, w as i32);
        }
    } else {
        let change: i32 = if b.prev_gain == p.gain {
            0x1_0000
        } else {
            div32_varq(b.prev_gain, p.gain, 16)
        };
        assert(change == gain_change(c.prev_gain, f.gains[ki]));
        if change != 0x1_0000 {
            for i in 0..span
                invariant
                    p.holds(f, ki),
                    ki == p.k,
                    p.voiced,
                    !f.rewhitened(ki),
                    span == p.lag + 2,
                    from == b.idx - span,
                    c.idx == b.idx,
                    f.mem <= c.idx,
                    c.idx == f.filled(ki),
                    c.idx + f.len <= 640,
                    b.lpc == old(b).lpc,
                    b.idx == old(b).idx,
                    b.prev_gain == old(b).prev_gain,
                    b.hist == old(b).hist,
                    old(b).holds(c),
                    change == gain_change(c.prev_gain, f.gains[ki]),
                    change != 0x1_0000,
                    goal == ltp_before(f, c, ki),
                    goal.len() == 640,
                    forall|q: int| from <= q < from + i ==> #[trigger] b.ltp@[q] == goal[q],
                    forall|q: int|
                        (0 <= q < from || from + i <= q < 640) ==> #[trigger] b.ltp@[q] == c.ltp[q],
            {
                b.ltp[from + i] = smulww(change, b.ltp[from + i]);
            }
        }
    }
}

/// Adds the long-term prediction to the excitation of a voiced subframe.
fn predict_ltp(b: &mut CoreBuffers, p: &CoreParams, exc: &[i32; 320], Ghost(f): Ghost<CoreFrame>, Ghost(
    c,
): Ghost<CoreState>) -> (res: [i32; 80])
    requires
        p.holds(f, p.k as int),
        p.voiced,
        f.mem <= c.idx,
        c.idx == f.filled(p.k as int),
        c.idx + f.len <= 640,
        old(b).idx == c.idx,
        ltp_before(f, c, p.k as int).len() == 640,
        forall|q: int|
            0 <= q < 640 ==> #[trigger] old(b).ltp@[q] == ltp_before(f, c, p.k as int)[q],
        forall|i: int| 0 <= i < f.exc.len() ==> #[trigger] exc@[i] == f.exc[i],
    ensures
        forall|i: int| 0 <= i < f.len ==> #[trigger] res@[i] == residual(f, c, p.k as int, i),
        ltp_after(f, c, p.k as int, f.len as nat).len() == 640,
        forall|q: int|
            0 <= q < 640 ==> #[trigger] final(b).ltp@[q] == ltp_after(
                f,
                c,
                p.k as int,
                f.len as nat,
            )[q],
        final(b).idx == c.idx + f.len,
        final(b).lpc == old(b).lpc,
        final(b).prev_gain == old(b).prev_gain,
        final(b).hist == old(b).hist,
{
    let mut res: [i32; 80] = [0;80];
    let ghost ki = p.k as int;
    let start: usize = b.idx;
    proof {
        assert((ki + 1) * f.len == ki * f.len + f.len) by (nonlinear_arith);
        assert(0 <= ki * f.len) by (nonlinear_arith)
            requires
                0 <= ki,
                0 <= f.len,
        ;
    }
    let base: usize = p.k * p.len;
    for i in 0..p.len
        invariant
            p.holds(f, ki),
            ki == p.k,
            p.voiced,
            f.mem <= c.idx,
            c.idx == f.filled(ki),
            c.idx + f.len <= 640,
            start == c.idx,
            b.idx == c.idx,
            base == ki * f.len,
            base + f.len <= f.exc.len() <= 320,
            forall|j: int| 0 <= j < f.exc.len() ==> #[trigger] exc@[j] == f.exc[j],
            b.lpc == old(b).lpc,
            b.prev_gain == old(b).prev_gain,
            b.hist == old(b).hist,
            ltp_after(f, c, ki, i as nat).len() == 640,
            forall|q: int|
                0 <= q < 640 ==> #[trigger] b.ltp@[q] == ltp_after(f, c, ki, i as nat)[q],
            forall|j: int| 0 <= j < i ==> #[trigger] res@[j] == residual(f, c, ki, j),
    {
        let ghost ltp = ltp_after(f, c, ki, i as nat);
        let pos: usize = start - p.lag + 2 + i;
        let mut pred: i32 = 2;
        for t in 0..5usize
            invariant
                p.holds(f, ki),
                ki == p.k,
                5 <= pos < 640,
                ltp.len() == 640,
                forall|q: int| 0 <= q < 640 ==> #[trigger] b.ltp@[q] == ltp[q],
                pred == long_prediction(f, ki, ltp, pos as int, t as nat),
        {
            assert(p.taps@[t as int] == f.tap(ki, t as int));
            assert(b.ltp@[pos - t] == ltp[pos - t]);
            pred = wadd(pred, smulww(b.ltp[pos - t], p.taps[t] as i32));
        }
        let v: i32 = wadd(exc[base + i], shl32(pred, 1));
        assert(exc@[base + i] == f.exc[base + i]);
        assert(v == voiced_residual(f, c, ki, ltp, i as int));
        res[i] = v;
        b.ltp[start + i] = shl32(v, 1);
    }
    b.idx = start + p.len;
    res
}

/// Runs the short-term synthesis filter over a subframe.
fn synthesize(
    b: &mut CoreBuffers,
    p: &CoreParams,
    res: &[i32; 80],
    output: &mut [i16],
    Ghost(f): Ghost<CoreFrame>,
    Ghost(c): Ghost<CoreState>,
)
    requires
        p.holds(f, p.k as int),
        c.lpc.len() == 16,
        c.prev_gain == old(b).prev_gain,
        forall|i: int| 0 <= i < 16 ==> #[trigger] old(b).lpc@[i] == c.lpc[i],
        forall|i: int| 0 <= i < f.len ==> #[trigger] res@[i] == residual(f, c, p.k as int, i),
        (p.k + 1) * f.len <= old(output)@.len(),
    ensures
        final(b).ltp == old(b).ltp,
        final(b).idx == old(b).idx,
        final(b).hist == old(b).hist,
        final(b).prev_gain == f.gains[p.k as int],
        synthesis(f, c, p.k as int, f.len as nat).len() == 16 + f.len,
        forall|i: int|
            0 <= i < 16 ==> #[trigger] final(b).lpc@[i] == synthesis(
                f,
                c,
                p.k as int,
                f.len as nat,
            )[f.len + i],
        final(output)@.len() == old(output)@.len(),
        forall|i: int|
            0 <= i < old(output)@.len() ==> #[trigger] final(output)@[i] == if p.k * f.len <= i
                < p.k * f.len + f.len {
                output_sample(f, c, p.k as int, i - p.k * f.len)
            } else {
                old(output)@[i] as int
            },
{
    let ghost ki = p.k as int;
    let mut sig: [i32; 96] = [0;96];
    let same: bool = b.prev_gain == p.gain;
    let change: i32 = if same {
        0x1_0000
    } else {
        div32_varq(b.prev_gain, p.gain, 16)
    };
    for i in 0..16usize
        invariant
            p.holds(f, ki),
            c.lpc.len() == 16,
            c.prev_gain == b.prev_gain,
            same == (c.prev_gain == f.gains[ki]),
            change == gain_change(c.prev_gain, f.gains[ki]),
            forall|j: int| 0 <= j < 16 ==> #[trigger] b.lpc@[j] == c.lpc[j],
            forall|j: int| 0 <= j < i ==> #[trigger] sig@[j] == synthesis(f, c, ki, 0)[j],
    {
        sig[i] = if same {
            b.lpc[i]
        } else {
            smulww(change, b.lpc[i])
        };
    }
    let n: usize = output.len();
    proof {
        assert((ki + 1) * f.len == ki * f.len + f.len) by (nonlinear_arith);
        assert(0 <= ki * f.len) by (nonlinear_arith)
            requires
                0 <= ki,
                0 <= f.len,
        ;
        lemma2_to64();
    }
    let base: usize = p.k * p.len;
    let gain_q10: i32 = shr32(p.gain, 6);
    let order: usize = p.order;
    for i in 0..p.len
        invariant
            p.holds(f, ki),
            ki == p.k,
            order == p.order,
            base == ki * f.len,
            n == output@.len() == old(output)@.len(),
            base + f.len <= n,
            gain_q10 == f.gains[ki] / 64,
            forall|j: int| 0 <= j < f.len ==> #[trigger] res@[j] == residual(f, c, ki, j),
            synthesis(f, c, ki, i as nat).len() == 16 + i,
            forall|j: int|
                0 <= j < 16 + i ==> #[trigger] sig@[j] == synthesis(f, c, ki, i as nat)[j],
            forall|j: int|
                0 <= j < n ==> #[trigger] output@[j] == if base <= j < base + i {
                    output_sample(f, c, ki, j - base)
                } else {
                    old(output)@[j] as int
                },
    {
        let ghost hist = synthesis(f, c, ki, i as nat);
        let ghost row = f.row(ki);
        let mut pred: i32 = (order / 2) as i32;
        for t in 0..order
            invariant
                p.holds(f, ki),
                order == p.order,
                row == f.row(ki),
                i < f.len <= 80,
                hist.len() == 16 + i,
                forall|j: int| 0 <= j < 16 + i ==> #[trigger] sig@[j] == hist[j],
                pred == synthesis_prediction(hist, row, t as nat),
        {
            assert(p.row@.subrange(0, order as int)[t as int] == p.row@[t as int]);
            assert(sig@[16 + i - 1 - t] == hist[16 + i - 1 - t]);
            pred = wadd(pred, smulww(sig[16 + i - 1 - t], p.row[t] as i32));
        }
        let up: i32 = sat32(pred as i64 * 16);
        let v: i32 = sat32(res[i] as i64 + up as i64);
        sig[16 + i] = v;
        let ghost next = synthesis(f, c, ki, (i + 1) as nat);
        assert(next == hist.push(v as int));
        output[base + i] = sat16(round_shr(smulww(v, gain_q10), 8));
    }
    let mut tail: [i32; 16] = [0;16];
    for i in 0..16usize
        invariant
            p.len <= 80,
            forall|j: int| 0 <= j < i ==> #[trigger] tail@[j] == sig@[p.len + j],
    {
        tail[i] = sig[p.len + i];
    }
    assert forall|i: int| 0 <= i < 16 implies #[trigger] tail@[i] == synthesis(
        f,
        c,
        ki,
        f.len as nat,
    )[f.len + i] by {
        assert(tail@[i] == sig@[p.len + i]);
        assert(sig@[p.len + i] == synthesis(f, c, ki, f.len as nat)[p.len + i]);
    }
    b.lpc = tail;
    b.prev_gain = p.gain;
}

/// One subframe.
fn run_subframe(
    b: &mut CoreBuffers,
    p: &CoreParams,
    exc: &[i32; 320],
    output: &mut [i16],
    Ghost(f): Ghost<CoreFrame>,
    Ghost(c): Ghost<CoreState>,
)
    requires
        old(b).holds(c),
        p.holds(f, p.k as int),
        f.mem <= c.idx <= f.mem + p.k * f.len,
        c.idx == f.filled(p.k as int),
        c.idx + f.len <= 640,
        (p.k + 1) * f.len <= old(output)@.len(),
        c.out == old(output)@.subrange(0, p.k * f.len),
        forall|i: int| 0 <= i < f.exc.len() ==> #[trigger] exc@[i] == f.exc[i],
    ensures
        final(b).holds(core_step(f, c, p.k as int)),
        final(output)@.len() == old(output)@.len(),
        core_step(f, c, p.k as int).out == final(output)@.subrange(0, (p.k + 1) * f.len),
        forall|i: int|
            (p.k + 1) * f.len <= i < old(output)@.len() ==> #[trigger] final(output)@[i] == old(
                output,
            )@[i],
{
    let ghost ki = p.k as int;
    let ghost o0 = output@;
    proof {
        assert((ki + 1) * f.len == ki * f.len + f.len) by (nonlinear_arith);
        assert(0 <= ki * f.len) by (nonlinear_arith)
            requires
                0 <= ki,
                0 <= f.len,
        ;
    }
    let mut res: [i32; 80] = [0;80];
    if p.voiced {
        prepare_ltp(b, p, output, Ghost(f), Ghost(c));
        res = predict_ltp(b, p, exc, Ghost(f), Ghost(c));
    } else {
        let base: usize = p.k * p.len;
        for i in 0..p.len
            invariant
                p.holds(f, ki),
                ki == p.k,
                !p.voiced,
                base == ki * f.len,
                base + f.len <= f.exc.len() <= 320,
                forall|j: int| 0 <= j < f.exc.len() ==> #[trigger] exc@[j] == f.exc[j],
                forall|j: int| 0 <= j < i ==> #[trigger] res@[j] == residual(f, c, ki, j),
        {
            assert(exc@[base + i] == f.exc[base + i]);
            res[i] = exc[base + i];
        }
        assert(b.hist@ == hist_before(f, c, ki));
    }
    synthesize(b, p, &res, output, Ghost(f), Ghost(c));
    proof {
        let goal = core_step(f, c, ki);
        assert forall|i: int| 0 <= i < 16 implies #[trigger] b.lpc@[i] == goal.lpc[i] by {}
        assert(goal.out =~= output@.subrange(0, (ki + 1) * f.len)) by {
            assert forall|i: int| 0 <= i < (ki + 1) * f.len implies goal.out[i] == output@[i] by {
                if i < ki * f.len {
                    assert(c.out[i] == o0[i]);
                    assert(output@[i] == o0[i]);
                } else {
                    assert(output@[i] == output_sample(f, c, ki, i - ki * f.len));
                }
            }
        }
    }
}

/// Synthesises a frame into `output`.
pub fn silk_decode_core(
    state: &mut DecoderState,
    control: &mut DecoderControl,
    output: &mut [i16],
    pulses: &[i16],
    arch: i32,
)
    requires
        core_ok(*old(state), *old(control)),
        old(output)@.len() >= old(state).sample_rate.frame_length,
        pulses@.len() >= old(state).sample_rate.frame_length,
    ensures
        ({
            let f = core_frame(*old(state), *old(control), pulses@);
            let nb = old(state).sample_rate.nb_subfr;
            let end = core_run(f, core_start(*old(state)), nb as nat);
            &&& final(output)@.len() == old(output)@.len()
            &&& final(output)@.subrange(0, nb * f.len) == end.out
            &&& forall|i: int|
                nb * f.len <= i < old(output)@.len() ==> #[trigger] final(output)@[i] == old(
                    output,
                )@[i]
            &&& final(state).prev_gain_q16 == end.prev_gain
            &&& final(state).sample_rate.out_buf@ == end.hist
            &&& forall|i: int|
                0 <= i < 16 ==> #[trigger] final(state).sample_rate.s_lpc_q14_buf[i] == end.lpc[i]
            &&& forall|i: int|
                0 <= i < 320 ==> #[trigger] final(state).exc_q14[i] == if i < f.exc.len() {
                    f.exc[i]
                } else {
                    old(state).exc_q14[i] as int
                }
            &&& *final(state) == (DecoderState {
                sample_rate: final(state).sample_rate,
                prev_gain_q16: final(state).prev_gain_q16,
                exc_q14: final(state).exc_q14,
                ..*old(state)
            })
            &&& final(state).sample_rate == (crate::silk::decoder_set_fs::DecoderSampleRateState {
                out_buf: final(state).sample_rate.out_buf,
                s_lpc_q14_buf: final(state).sample_rate.s_lpc_q14_buf,
                ..old(state).sample_rate
            })
            &&& forall|k: int|
                0 <= k < 4 ==> #[trigger] final(control).pitch_l[k] == if k < nb && f.bridged(k) {
                    f.lag_prev
                } else {
                    old(control).pitch_l[k] as int
                }
            &&& forall|i: int|
                0 <= i < 20 ==> #[trigger] final(control).ltp_coef_q14[i] == if i / 5 < nb
                    && f.bridged(i / 5) {
                    f.tap(i / 5, i % 5)
                } else {
                    old(control).ltp_coef_q14[i] as int
                }
            &&& final(control).gains_q16 == old(control).gains_q16
            &&& final(control).pred_coef_q12 == old(control).pred_coef_q12
            &&& final(control).ltp_scale_q14 == old(control).ltp_scale_q14
        }),
{
    let ghost s0 = *state;
    let ghost c0 = *control;
    let ghost f = core_frame(s0, c0, pulses@);
    let ghost start = core_start(s0);
    proof {
        lemma_core_ok_pulses(s0, c0, pulses@);
    }
    let frame_length: usize = state.sample_rate.frame_length;
    let len: usize = state.sample_rate.subfr_length;
    let nb: usize = state.sample_rate.nb_subfr;
    let mem: usize = state.sample_rate.ltp_mem_length;
    let order: usize = state.sample_rate.lpc_order;
    let lag_prev: i32 = state.sample_rate.lag_prev;
    let voiced: bool = state.indices.signal_type == FrameSignalType::Voiced;
    let interpolated: bool = state.indices.nlsf_interp_coef_q2 < 4;
    let transition: bool = state.loss_count > 0 && state.sample_rate.prev_signal_type
        == FrameSignalType::Voiced && !voiced;
    let indices: SideInfoIndices = state.indices;
    let mut exc: [i32; 320] = state.exc_q14;
    excite(&mut exc, &indices, pulses, frame_length);
    let mut b: CoreBuffers = CoreBuffers {
        lpc: state.sample_rate.s_lpc_q14_buf,
        ltp: [0;640],
        idx: mem,
        prev_gain: state.prev_gain_q16,
        hist: state.sample_rate.out_buf,
    };
    assert(b.holds(start));
    assert(0 * f.len == 0);
    assert(output@.subrange(0, 0) =~= start.out);
    let mut lags: [i32; 4] = control.pitch_l;
    let mut taps: [i16; 20] = control.ltp_coef_q14;
    for k in 0..nb
        invariant
            core_ok(s0, c0),
            f == core_frame(s0, c0, pulses@),
            start == core_start(s0),
            *state == s0,
            *control == c0,
            s0 == *old(state),
            c0 == *old(control),
            output@.len() == old(output)@.len() >= frame_length,
            frame_length == s0.sample_rate.frame_length,
            len == f.len,
            nb == s0.sample_rate.nb_subfr,
            mem == f.mem,
            order == s0.sample_rate.lpc_order,
            lag_prev == f.lag_prev,
            voiced == f.voiced,
            interpolated == f.interpolated,
            transition == f.transition,
            f.exc.len() == frame_length,
            forall|j: int| 0 <= j < nb && f.sub_voiced(j) ==> #[trigger] f.lag_ok(order as int, j),
            forall|i: int| 0 <= i < f.exc.len() ==> #[trigger] exc@[i] == f.exc[i],
            b.holds(core_run(f, start, k as nat)),
            f.mem <= core_run(f, start, k as nat).idx <= f.mem + k * f.len,
            core_run(f, start, k as nat).idx == f.filled(k as int),
            core_run(f, start, k as nat).out == output@.subrange(0, k * f.len),
            forall|i: int|
                k * f.len <= i < output@.len() ==> #[trigger] output@[i] == old(output)@[i],
            forall|j: int|
                0 <= j < 4 ==> #[trigger] lags@[j] == if j < k && f.bridged(j) {
                    f.lag_prev
                } else {
                    c0.pitch_l[j] as int
                },
            forall|i: int|
                0 <= i < 20 ==> #[trigger] taps@[i] == if i / 5 < k && f.bridged(i / 5) {
                    f.tap(i / 5, i % 5)
                } else {
                    c0.ltp_coef_q14[i] as int
                },
    {
        let ghost ki = k as int;
        let ghost c = core_run(f, start, k as nat);
        proof {
            assert((ki + 1) * f.len <= nb * f.len && nb * f.len <= 320 && 0 <= ki * f.len && (ki
                + 1) * f.len == ki * f.len + f.len) by (nonlinear_arith)
                requires
                    0 <= ki,
                    ki + 1 <= nb <= 4,
                    1 <= f.len <= 80,
            ;
        }
        let bridged: bool = transition && k < 2;
        if bridged {
            lags[k] = lag_prev;
            taps[5 * k] = 0;
            taps[5 * k + 1] = 0;
            taps[5 * k + 2] = VOICED_TRANSITION_Q14;
            taps[5 * k + 3] = 0;
            taps[5 * k + 4] = 0;
            proof {
                assert forall|i: int| 0 <= i < 20 implies #[trigger] taps@[i] == if i / 5 < k + 1
                    && f.bridged(i / 5) {
                    f.tap(i / 5, i % 5)
                } else {
                    c0.ltp_coef_q14[i] as int
                } by {}
            }
        }
        let sub_voiced: bool = voiced || bridged;
        let own: [i16; 5] = [
            taps[5 * k],
            taps[5 * k + 1],
            taps[5 * k + 2],
            taps[5 * k + 3],
            taps[5 * k + 4],
        ];
        proof {
            assert(c0.gains_q16[ki] > 0);
            if f.sub_voiced(ki) {
                assert(f.lag_ok(order as int, ki));
            }
            assert(f.row(ki) == c0.pred_coef_q12[ki / 2]@.subrange(0, order as int));
        }
        let p: CoreParams = CoreParams {
            k,
            len,
            mem,
            order,
            row: control.pred_coef_q12[k / 2],
            gain: control.gains_q16[k],
            scale: control.ltp_scale_q14,
            voiced: sub_voiced,
            interpolated,
            lag: if sub_voiced {
                lags[k] as usize
            } else {
                0
            },
            taps: own,
        };
        assert(p.holds(f, ki)) by {
            assert forall|t: int| 0 <= t < 5 implies #[trigger] p.taps@[t] == f.tap(ki, t) by {
                assert(taps@[5 * k + t] == own@[t]);
            }
        }
        run_subframe(&mut b, &p, &exc, output, Ghost(f), Ghost(c));
    }
    state.exc_q14 = exc;
    state.prev_gain_q16 = b.prev_gain;
    state.sample_rate.out_buf = b.hist;
    state.sample_rate.s_lpc_q14_buf = b.lpc;
    control.pitch_l = lags;
    control.ltp_coef_q14 = taps;
}

/// Which frames can be synthesised does not depend on the pulses.
proof fn lemma_core_ok_pulses(s: DecoderState, c: DecoderControl, pulses: Seq<i16>)
    requires
        core_ok(s, c),
    ensures
        forall|k: int|
            0 <= k < s.sample_rate.nb_subfr && core_frame(s, c, pulses).sub_voiced(k)
                ==> #[trigger] core_frame(s, c, pulses).lag_ok(
                s.sample_rate.lpc_order as int,
                k,
            ),
{
    let f = core_frame(s, c, pulses);
    let g = core_frame(s, c, seq![]);
    let order = s.sample_rate.lpc_order as int;
    assert forall|k: int| 0 <= k < s.sample_rate.nb_subfr && f.sub_voiced(k) implies #[trigger] f.lag_ok(
        order,
        k,
    ) by {
        assert(g.lag_ok(order, k));
        lemma_same_filled(f, g, k);
    }
}

proof fn lemma_same_filled(f: CoreFrame, g: CoreFrame, k: int)
    requires
        f.mem == g.mem,
        f.len == g.len,
        f.voiced == g.voiced,
        f.transition == g.transition,
    ensures
        f.filled(k) == g.filled(k),
    decreases k,
{
    if k > 0 {
        lemma_same_filled(f, g, k - 1);
    }
}

} // verus!
