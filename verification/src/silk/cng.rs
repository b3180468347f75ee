//! Comfort noise.
//!
//! While frames arrive, the noise statistics follow the inactive ones; where
//! frames are lost, noise with these statistics is added.

use crate::fixed::{
    asr, clamp32, clamped, lemma_mul_wb, lemma_wrap16_range, lemma_wrap32_range, mul_wb, mul_ww,
    narrow16, round_shift, sat16, sat16_of, sat32, sat32_of, shr32, smulwb, smulww, wadd, wmul,
    wrap16, wrap32, wsub,
};
use crate::silk::decoder_control::DecoderControl;
use crate::silk::division_laws::law_square_root_is_close;
use crate::silk::math::{lemma_sqrt_positive, round_shr, shl, shl32, sqrt_approx, sqrt_of};
use crate::silk::nlsf2a::{lpc_of_nlsf, nlsf2a};
use crate::silk::types::FrameSignalType;
use vstd::arithmetic::power2::*;
use vstd::prelude::*;

verus! {

pub const CNG_BUF_MASK_MAX: i32 = 255;

/// Speed at which the gain follows (Q16).
pub const CNG_GAIN_SMTH_Q16: i32 = 4634;

/// A smoothed gain this much above the gain is set to it (Q16).
pub const CNG_GAIN_SMTH_THRESHOLD_Q16: i32 = 46396;

/// Speed at which the frequencies follow (Q16).
pub const CNG_NLSF_SMTH_Q16: i32 = 16348;

pub const INITIAL_RAND_SEED: i32 = 3176576;

pub const RAND_MULTIPLIER: i32 = 196314165;

pub const RAND_INCREMENT: i32 = 907633515;

/// No sample rate yet.
pub const INVALID_FS_KHZ: i32 = -1;

/// Noise statistics.
#[derive(Clone, Copy, Debug)]
pub struct CngState {
    pub exc_buf_q14: [i32; 320],
    pub smth_nlsf_q15: [i16; 16],
    pub synth_state: [i32; 16],
    pub smth_gain_q16: i32,
    pub rand_seed: i32,
    pub fs_khz: i32,
}

/// The same as sequences and integers.
pub struct CngModel {
    pub exc: Seq<int>,
    pub nlsf: Seq<i16>,
    pub synth: Seq<int>,
    pub gain: int,
    pub seed: int,
    pub fs: int,
}

pub open spec fn ints_of_i32(s: Seq<i32>) -> Seq<int> {
    Seq::new(s.len(), |i: int| s[i] as int)
}

impl View for CngState {
    type V = CngModel;

    open spec fn view(&self) -> CngModel {
        CngModel {
            exc: ints_of_i32(self.exc_buf_q14@),
            nlsf: self.smth_nlsf_q15@,
            synth: ints_of_i32(self.synth_state@),
            gain: self.smth_gain_q16 as int,
            seed: self.rand_seed as int,
            fs: self.fs_khz as int,
        }
    }
}

/// Nothing learnt yet.
pub open spec fn cng_start() -> CngModel {
    CngModel {
        exc: Seq::new(320, |i: int| 0),
        nlsf: Seq::new(16, |i: int| 0i16),
        synth: Seq::new(16, |i: int| 0),
        gain: 0,
        seed: INITIAL_RAND_SEED as int,
        fs: -1,
    }
}

/// Equally spaced frequencies and no noise.
pub open spec fn cng_reset(m: CngModel, order: int) -> CngModel {
    CngModel {
        nlsf: Seq::new(
            16,
            |i: int|
                if i < order {
                    ((i + 1) * (0x7fffint / (order + 1))) as i16
                } else {
                    0i16
                },
        ),
        synth: Seq::new(16, |i: int| 0),
        gain: 0,
        seed: INITIAL_RAND_SEED as int,
        ..m
    }
}

impl Default for CngState {
    fn default() -> (r: CngState)
        ensures
            r@ == cng_start(),
    {
        let r: CngState = CngState {
            exc_buf_q14: [0;320],
            smth_nlsf_q15: [0;16],
            synth_state: [0;16],
            smth_gain_q16: 0,
            rand_seed: INITIAL_RAND_SEED,
            fs_khz: INVALID_FS_KHZ,
        };
        assert(r@.exc =~= cng_start().exc);
        assert(r@.nlsf =~= cng_start().nlsf);
        assert(r@.synth =~= cng_start().synth);
        r
    }
}

impl CngState {
    /// Nothing learnt yet.
    pub fn new() -> (r: CngState)
        ensures
            r@ == cng_start(),
    {
        CngState::default()
    }

    /// Spaces the frequencies evenly and clears gain, seed and synthesis state.
    pub fn reset(&mut self, lpc_order: usize)
        requires
            1 <= lpc_order <= 16,
        ensures
            final(self)@ == cng_reset(old(self)@, lpc_order as int),
    {
        let ghost m = self@;
        let step: i32 = 0x7fff / (lpc_order as i32 + 1);
        let mut nlsf: [i16; 16] = [0;16];
        for i in 0..lpc_order
            invariant
                1 <= lpc_order <= 16,
                step == 0x7fffint / (lpc_order as int + 1),
                forall|j: int|
                    0 <= j < i ==> #[trigger] nlsf@[j] == ((j + 1) * (0x7fffint / (lpc_order as int
                        + 1))) as i16,
                forall|j: int| i <= j < 16 ==> #[trigger] nlsf@[j] == 0,
        {
            proof {
                let d = lpc_order as int + 1;
                vstd::arithmetic::div_mod::lemma_fundamental_div_mod(0x7fff, d);
                vstd::arithmetic::div_mod::lemma_mod_bound(0x7fff, d);
                assert(0 <= (i + 1) * step <= 0x7fff) by (nonlinear_arith)
                    requires
                        0x7fff == d * step + 0x7fffint % d,
                        0 <= 0x7fffint % d,
                        0 <= i,
                        i + 1 <= d,
                        step >= 0,
                ;
            }
            nlsf[i] = ((i as i32 + 1) * step) as i16;
        }
        self.smth_nlsf_q15 = nlsf;
        self.smth_gain_q16 = 0;
        self.rand_seed = INITIAL_RAND_SEED;
        self.synth_state = [0;16];
        proof {
            let goal = cng_reset(m, lpc_order as int);
            assert(self@.nlsf =~= goal.nlsf);
            assert(self@.synth =~= goal.synth);
        }
    }

    /// The smoothed gain (Q16).
    pub fn smoothed_gain_q16(&self) -> (r: i32)
        ensures
            r == self@.gain,
    {
        self.smth_gain_q16
    }

    /// The smoothed frequencies (Q15).
    pub fn smoothed_nlsf_q15(&self) -> (r: &[i16; 16])
        ensures
            r@ == self@.nlsf,
    {
        &self.smth_nlsf_q15
    }

    /// The excitation that noise is drawn from (Q14).
    pub fn excitation_buffer(&self) -> (r: &[i32; 320])
        ensures
            ints_of_i32(r@) == self@.exc,
    {
        &self.exc_buf_q14
    }

    /// The excitation that noise is drawn from, for changing it.
    pub fn excitation_buffer_mut(&mut self) -> (r: &mut [i32; 320])
        ensures
            *r == old(self).exc_buf_q14,
            *final(self) == (CngState { exc_buf_q14: *final(r), ..*old(self) }),
    {
        &mut self.exc_buf_q14
    }

    /// The synthesis history (Q14).
    pub fn synth_state(&self) -> (r: &[i32; 16])
        ensures
            ints_of_i32(r@) == self@.synth,
    {
        &self.synth_state
    }

    /// The sample rate in kHz that the statistics are for.
    pub fn fs_khz(&self) -> (r: i32)
        ensures
            r == self@.fs,
    {
        self.fs_khz
    }
}

/// What comfort noise takes from loss concealment.
#[derive(Clone, Copy, Debug)]
pub struct PlcState {
    pub rand_scale_q14: i32,
    pub prev_gain_q16: [i32; 2],
}

impl Default for PlcState {
    fn default() -> (r: PlcState)
        ensures
            r.rand_scale_q14 == 0,
            r.prev_gain_q16[0] == 0,
            r.prev_gain_q16[1] == 0,
    {
        PlcState { rand_scale_q14: 0, prev_gain_q16: [0;2] }
    }
}

/// What comfort noise takes from the decoder.
#[derive(Clone, Copy, Debug)]
pub struct ComfortNoiseInputs<'a> {
    pub fs_khz: i32,
    pub lpc_order: usize,
    pub nb_subfr: usize,
    pub subfr_length: usize,
    pub prev_signal_type: FrameSignalType,
    pub loss_count: i32,
    pub prev_nlsf_q15: &'a [i16],
    pub exc_q14: &'a [i32],
}

impl<'a> ComfortNoiseInputs<'a> {
    pub open spec fn wf(&self) -> bool {
        &&& self.lpc_order == 10 || self.lpc_order == 16
        &&& 1 <= self.nb_subfr <= 4
        &&& 1 <= self.subfr_length <= 80
        &&& self.prev_nlsf_q15@.len() >= self.lpc_order
        &&& self.exc_q14@.len() >= self.nb_subfr * self.subfr_length
        &&& forall|i: int| 0 <= i < self.lpc_order ==> 0 <= #[trigger] self.prev_nlsf_q15@[i]
    }

    /// Samples of the frame.
    pub fn frame_length(&self) -> (r: usize)
        requires
            self.nb_subfr * self.subfr_length <= usize::MAX,
        ensures
            r == self.nb_subfr * self.subfr_length,
    {
        self.nb_subfr * self.subfr_length
    }
}

// ---------------------------------------------------------------------
// Model
// ---------------------------------------------------------------------

/// The next random number.
pub open spec fn rand_next(seed: int) -> int {
    wrap32(RAND_INCREMENT + wrap32(seed * RAND_MULTIPLIER))
}

pub fn silk_rand(seed: i32) -> (r: i32)
    ensures
        r == rand_next(seed as int),
{
    wadd(RAND_INCREMENT, wmul(seed, RAND_MULTIPLIER))
}

/// The statistics for the frame's sample rate.
pub open spec fn cng_for_rate(
    m: CngModel,
    fs_khz: int,
    order: int,
    prev_nlsf: Seq<i16>,
) -> CngModel {
    if fs_khz == m.fs {
        m
    } else {
        let r = if m.fs == -1 {
            cng_quiet(m, order)
        } else {
            cng_reset(m, order)
        };
        CngModel {
            nlsf: Seq::new(
                16,
                |i: int|
                    if i < order {
                        prev_nlsf[i]
                    } else {
                        0i16
                    },
            ),
            fs: fs_khz,
            ..r
        }
    }
}

/// The synthesis state cleared.
pub open spec fn cng_quiet(m: CngModel, order: int) -> CngModel {
    CngModel {
        synth: Seq::new(
            16,
            |i: int|
                if i < order {
                    0
                } else {
                    m.synth[i]
                },
        ),
        ..m
    }
}

/// A frequency drawn towards the frame's.
pub open spec fn drawn_nlsf(cur: int, target: int) -> int {
    wrap16(cur + mul_wb(target - cur, CNG_NLSF_SMTH_Q16 as int))
}

/// The gain after `k` subframes.
pub open spec fn drawn_gain(gain: int, gains: Seq<int>, k: nat) -> int
    decreases k,
{
    if k == 0 {
        gain
    } else {
        let g = drawn_gain(gain, gains, (k - 1) as nat);
        let next = wrap32(g + mul_wb(wrap32(gains[k - 1] - g), CNG_GAIN_SMTH_Q16 as int));
        if mul_ww(next, CNG_GAIN_SMTH_THRESHOLD_Q16 as int) > gains[k - 1] {
            gains[k - 1]
        } else {
            next
        }
    }
}

/// Of the first `k` subframes, the first with the largest positive gain; the
/// first subframe where none is positive.
pub open spec fn strongest(gains: Seq<int>, k: nat) -> (int, int)
    decreases k,
{
    if k == 0 {
        (0, 0)
    } else {
        let (s, g) = strongest(gains, (k - 1) as nat);
        if gains[k - 1] > g {
            (k - 1, gains[k - 1])
        } else {
            (s, g)
        }
    }
}

/// The statistics once an inactive frame is taken in.
pub open spec fn cng_learnt(
    m: CngModel,
    order: int,
    nb: nat,
    len: int,
    prev_nlsf: Seq<i16>,
    exc: Seq<i32>,
    gains: Seq<int>,
) -> CngModel {
    let start = strongest(gains, nb).0 * len;
    CngModel {
        nlsf: Seq::new(
            16,
            |i: int|
                if i < order {
                    drawn_nlsf(m.nlsf[i] as int, prev_nlsf[i] as int) as i16
                } else {
                    m.nlsf[i]
                },
        ),
        exc: Seq::new(
            320,
            |i: int|
                if i < len {
                    exc[start + i] as int
                } else if i < len * nb {
                    m.exc[i - len]
                } else {
                    m.exc[i]
                },
        ),
        gain: drawn_gain(m.gain, gains, nb),
        ..m
    }
}

/// The noise gain (Q16): what the concealed signal lacks.
pub open spec fn noise_gain(m: CngModel, plc: PlcState) -> int {
    let g = mul_ww(plc.rand_scale_q14 as int, plc.prev_gain_q16[1] as int);
    if g >= 0x20_0000 || m.gain > 0x80_0000 {
        let t = (g / 0x1_0000) * (g / 0x1_0000);
        let u = (m.gain / 0x1_0000) * (m.gain / 0x1_0000);
        shl_clamped(sqrt_of(wrap32(u - shl(t, 5))), 16)
    } else {
        shl_clamped(sqrt_of(wrap32(mul_ww(m.gain, m.gain) - shl(mul_ww(g, g), 5))), 8)
    }
}

/// `v` limited to what can be scaled by `2^k`, and scaled.
pub open spec fn shl_clamped(v: int, k: nat) -> int {
    let p = pow2(k) as int;
    clamped(v, -0x8000_0000int / p, 0x7fff_ffffint / p) * p
}

/// One less than the largest power of two up to `mask + 1` that does not
/// exceed the frame.
pub open spec fn noise_mask(mask: nat, length: int) -> nat
    decreases mask,
{
    if mask > length && mask > 0 {
        noise_mask(mask / 2, length)
    } else {
        mask
    }
}

/// The random number of sample `k`.
pub open spec fn noise_seed(seed: int, k: nat) -> int
    decreases k,
{
    if k == 0 {
        seed
    } else {
        rand_next(noise_seed(seed, (k - 1) as nat))
    }
}

/// Excitation sample `i`.
pub open spec fn noise_excitation(m: CngModel, length: int, i: int) -> int {
    let mask = noise_mask(255, length) as int;
    m.exc[(noise_seed(m.seed, (i + 1) as nat) / 0x100_0000) % (mask + 1)]
}

/// The prediction (Q10) from the last of `hist`, with `k` taps.
pub open spec fn noise_prediction(hist: Seq<int>, a: Seq<i16>, k: nat) -> int
    decreases k,
{
    if k == 0 {
        a.len() as int / 2
    } else {
        wrap32(
            noise_prediction(hist, a, (k - 1) as nat) + mul_wb(hist[hist.len() - k], a[k - 1] as int),
        )
    }
}

/// The history and the first `i` samples of the noise (Q14).
pub open spec fn noise_signal(m: CngModel, a: Seq<i16>, length: int, i: nat) -> Seq<int>
    decreases i,
{
    if i == 0 {
        m.synth
    } else {
        let hist = noise_signal(m, a, length, (i - 1) as nat);
        hist.push(
            sat32_of(
                noise_excitation(m, length, i - 1) + shl_clamped(
                    noise_prediction(hist, a, a.len()),
                    4,
                ),
            ),
        )
    }
}

/// The frame's sample `i` with noise added.
pub open spec fn noisy_sample(
    m: CngModel,
    plc: PlcState,
    a: Seq<i16>,
    frame: Seq<i16>,
    i: int,
) -> int {
    let length = frame.len() as int;
    let v = noise_signal(m, a, length, (i + 1) as nat)[16 + i];
    sat16_of(frame[i] + sat16_of(round_shift(mul_ww(v, asr(noise_gain(m, plc), 6)), 8)))
}

/// The statistics after noise is added to a frame.
pub open spec fn cng_spent(m: CngModel, a: Seq<i16>, length: int) -> CngModel {
    CngModel {
        seed: noise_seed(m.seed, length as nat),
        synth: noise_signal(m, a, length, length as nat).subrange(length, length + 16),
        ..m
    }
}

/// The statistics before noise is added or the synthesis state cleared.
pub open spec fn cng_before_noise(
    m: CngModel,
    inputs: ComfortNoiseInputs,
    gains: Seq<int>,
) -> CngModel {
    let r = cng_for_rate(
        m,
        inputs.fs_khz as int,
        inputs.lpc_order as int,
        inputs.prev_nlsf_q15@,
    );
    if inputs.loss_count == 0 && inputs.prev_signal_type == FrameSignalType::Inactive {
        cng_learnt(
            r,
            inputs.lpc_order as int,
            inputs.nb_subfr as nat,
            inputs.subfr_length as int,
            inputs.prev_nlsf_q15@,
            inputs.exc_q14@,
            gains,
        )
    } else {
        r
    }
}

/// The noise filter.
pub open spec fn noise_filter(m: CngModel, order: int) -> Seq<i16> {
    lpc_of_nlsf(m.nlsf.subrange(0, order))
}

// ---------------------------------------------------------------------
// Code
// ---------------------------------------------------------------------

/// The smoothed frequencies are frequencies.
pub open spec fn cng_ok(s: CngState) -> bool {
    forall|i: int| 0 <= i < 16 ==> 0 <= #[trigger] s.smth_nlsf_q15[i]
}

fn follow_rate(state: &mut CngState, inputs: &ComfortNoiseInputs)
    requires
        inputs.wf(),
        cng_ok(*old(state)),
    ensures
        final(state)@ == cng_for_rate(
            old(state)@,
            inputs.fs_khz as int,
            inputs.lpc_order as int,
            inputs.prev_nlsf_q15@,
        ),
        cng_ok(*final(state)),
{
    let ghost m = state@;
    let order: usize = inputs.lpc_order;
    if inputs.fs_khz == state.fs_khz {
        return;
    }
    if state.fs_khz == INVALID_FS_KHZ {
        clear_synthesis(state, order);
    } else {
        state.reset(order);
    }
    let ghost r = state@;
    let mut nlsf: [i16; 16] = [0;16];
    for i in 0..order
        invariant
            inputs.wf(),
            order == inputs.lpc_order,
            forall|j: int| 0 <= j < i ==> #[trigger] nlsf@[j] == inputs.prev_nlsf_q15@[j],
            forall|j: int| i <= j < 16 ==> #[trigger] nlsf@[j] == 0,
    {
        nlsf[i] = inputs.prev_nlsf_q15[i];
    }
    state.smth_nlsf_q15 = nlsf;
    state.fs_khz = inputs.fs_khz;
    proof {
        let goal = cng_for_rate(m, inputs.fs_khz as int, order as int, inputs.prev_nlsf_q15@);
        assert(state@.nlsf =~= goal.nlsf);
        assert(state@.exc =~= goal.exc);
        assert(state@.synth =~= goal.synth);
    }
}

fn clear_synthesis(state: &mut CngState, order: usize)
    requires
        order <= 16,
    ensures
        final(state)@ == cng_quiet(old(state)@, order as int),
        final(state).smth_nlsf_q15 == old(state).smth_nlsf_q15,
{
    let ghost m = state@;
    for i in 0..order
        invariant
            order <= 16,
            m == old(state)@,
            state.exc_buf_q14 == old(state).exc_buf_q14,
            state.smth_nlsf_q15 == old(state).smth_nlsf_q15,
            state.smth_gain_q16 == old(state).smth_gain_q16,
            state.rand_seed == old(state).rand_seed,
            state.fs_khz == old(state).fs_khz,
            forall|j: int| 0 <= j < i ==> #[trigger] state.synth_state@[j] == 0,
            forall|j: int| i <= j < 16 ==> #[trigger] state.synth_state@[j] == m.synth[j],
    {
        state.synth_state[i] = 0;
    }
    assert(state@.synth =~= cng_quiet(m, order as int).synth);
}

/// Takes an inactive frame into the statistics.
fn learn(state: &mut CngState, inputs: &ComfortNoiseInputs, gains: &[i32; 4])
    requires
        inputs.wf(),
        cng_ok(*old(state)),
    ensures
        final(state)@ == cng_learnt(
            old(state)@,
            inputs.lpc_order as int,
            inputs.nb_subfr as nat,
            inputs.subfr_length as int,
            inputs.prev_nlsf_q15@,
            inputs.exc_q14@,
            ints_of_i32(gains@),
        ),
        cng_ok(*final(state)),
{
    let ghost m = state@;
    let ghost gs = ints_of_i32(gains@);
    let order: usize = inputs.lpc_order;
    let nb: usize = inputs.nb_subfr;
    let len: usize = inputs.subfr_length;
    let ghost goal = cng_learnt(
        m,
        order as int,
        nb as nat,
        len as int,
        inputs.prev_nlsf_q15@,
        inputs.exc_q14@,
        gs,
    );
    for i in 0..order
        invariant
            inputs.wf(),
            order == inputs.lpc_order,
            m == old(state)@,
            state.exc_buf_q14 == old(state).exc_buf_q14,
            state.synth_state == old(state).synth_state,
            state.smth_gain_q16 == old(state).smth_gain_q16,
            state.rand_seed == old(state).rand_seed,
            state.fs_khz == old(state).fs_khz,
            cng_ok(*state),
            forall|j: int|
                0 <= j < i ==> #[trigger] state.smth_nlsf_q15@[j] == drawn_nlsf(
                    m.nlsf[j] as int,
                    inputs.prev_nlsf_q15@[j] as int,
                ),
            forall|j: int| i <= j < 16 ==> #[trigger] state.smth_nlsf_q15@[j] == m.nlsf[j],
    {
        let target: i32 = inputs.prev_nlsf_q15[i] as i32;
        let cur: i32 = state.smth_nlsf_q15[i] as i32;
        proof {
            assert(state.smth_nlsf_q15[i as int] == m.nlsf[i as int]);
            lemma_mul_wb(target - cur, CNG_NLSF_SMTH_Q16 as int);
            let step = ((target - cur) * 16348) / 0x1_0000;
            lemma_wrap16_range(cur + step);
        }
        state.smth_nlsf_q15[i] = narrow16(cur + smulwb(target - cur, CNG_NLSF_SMTH_Q16));
    }
    let mut best: usize = 0;
    let mut top: i32 = 0;
    for k in 0..nb
        invariant
            nb <= 4,
            gs == ints_of_i32(gains@),
            best < nb || best == 0,
            (best as int, top as int) == strongest(gs, k as nat),
    {
        if gains[k] > top {
            top = gains[k];
            best = k;
        }
    }
    proof {
        assert(0 <= best * len && best * len + len <= nb * len <= 320) by (nonlinear_arith)
            requires
                0 <= best,
                best + 1 <= nb <= 4,
                0 <= len <= 80,
        ;
    }
    let start: usize = best * len;
    let total: usize = nb * len;
    let before: [i32; 320] = state.exc_buf_q14;
    assert(len * nb == nb * len) by (nonlinear_arith);
    for i in 0..total
        invariant
            inputs.wf(),
            len == inputs.subfr_length,
            total <= 320,
            start + len <= total,
            total <= inputs.exc_q14@.len(),
            before == old(state).exc_buf_q14,
            state.synth_state == old(state).synth_state,
            state.smth_gain_q16 == old(state).smth_gain_q16,
            state.rand_seed == old(state).rand_seed,
            state.fs_khz == old(state).fs_khz,
            cng_ok(*state),
            forall|j: int|
                0 <= j < 16 ==> #[trigger] state.smth_nlsf_q15@[j] == if j < order {
                    drawn_nlsf(m.nlsf[j] as int, inputs.prev_nlsf_q15@[j] as int)
                } else {
                    m.nlsf[j] as int
                },
            forall|j: int|
                0 <= j < i ==> #[trigger] state.exc_buf_q14@[j] == if j < len {
                    inputs.exc_q14@[start + j]
                } else {
                    before@[j - len]
                },
            forall|j: int| i <= j < 320 ==> #[trigger] state.exc_buf_q14@[j] == before@[j],
    {
        state.exc_buf_q14[i] = if i < len {
            inputs.exc_q14[start + i]
        } else {
            before[i - len]
        };
    }
    let mut gain: i32 = state.smth_gain_q16;
    for k in 0..nb
        invariant
            nb <= 4,
            gs == ints_of_i32(gains@),
            gain == drawn_gain(m.gain, gs, k as nat),
    {
        let g: i32 = gains[k];
        let next: i32 = wadd(gain, smulwb(wsub(g, gain), CNG_GAIN_SMTH_Q16));
        gain = if smulww(next, CNG_GAIN_SMTH_THRESHOLD_Q16) > g {
            g
        } else {
            next
        };
    }
    state.smth_gain_q16 = gain;
    proof {
        assert forall|j: int| 0 <= j < 16 implies state@.nlsf[j] == goal.nlsf[j] by {
            assert(state.smth_nlsf_q15@[j] == state@.nlsf[j]);
        }
        assert(state@.nlsf =~= goal.nlsf);
        assert(state@.exc =~= goal.exc);
        assert(state@.synth =~= goal.synth);
    }
}

/// `v` limited and scaled.
fn lshift_clamped(v: i32, k: u32) -> (r: i32)
    requires
        k == 4 || k == 8 || k == 16,
    ensures
        r == shl_clamped(v as int, k as nat),
{
    proof {
        lemma2_to64();
    }
    if k == 4 {
        clamp32(v, -0x800_0000, 0x7ff_ffff) * 16
    } else if k == 8 {
        clamp32(v, -0x80_0000, 0x7f_ffff) * 256
    } else {
        clamp32(v, -0x8000, 0x7fff) * 0x1_0000
    }
}

/// The square of the high half.
fn high_square(v: i32) -> (r: i32)
    ensures
        r == (v as int / 0x1_0000) * (v as int / 0x1_0000),
{
    proof {
        lemma2_to64();
    }
    let h: i32 = shr32(v, 16);
    proof {
        assert(0 <= h * h <= 0x4000_0000) by (nonlinear_arith)
            requires
                -0x8000 <= h <= 0x7fff,
        ;
    }
    h * h
}

fn gain_of_noise(state: &CngState, plc: &PlcState) -> (r: i32)
    ensures
        r == noise_gain(state@, *plc),
{
    let g: i32 = smulww(plc.rand_scale_q14, plc.prev_gain_q16[1]);
    if g >= 0x20_0000 || state.smth_gain_q16 > 0x80_0000 {
        let t: i32 = high_square(g);
        let u: i32 = high_square(state.smth_gain_q16);
        lshift_clamped(sqrt_approx(wsub(u, shl32(t, 5))), 16)
    } else {
        let t: i32 = smulww(g, g);
        let u: i32 = smulww(state.smth_gain_q16, state.smth_gain_q16);
        lshift_clamped(sqrt_approx(wsub(u, shl32(t, 5))), 8)
    }
}

proof fn lemma_noise_mask(mask: nat, length: int)
    requires
        mask <= 255,
    ensures
        noise_mask(mask, length) <= 255,
    decreases mask,
{
    if mask > length && mask > 0 {
        lemma_noise_mask(mask / 2, length);
    }
}

fn mask_of(length: usize) -> (r: i32)
    ensures
        r == noise_mask(255, length as int),
        0 <= r <= 255,
{
    let mut mask: i32 = CNG_BUF_MASK_MAX;
    while mask > 0 && mask as usize > length
        invariant
            0 <= mask <= 255,
            noise_mask(255, length as int) == noise_mask(mask as nat, length as int),
        decreases mask,
    {
        mask = mask / 2;
    }
    mask
}

/// Excitation drawn for a random number.
fn draw(exc: &[i32; 320], seed: i32, mask: i32) -> (r: i32)
    requires
        0 <= mask <= 255,
    ensures
        r == exc@[(seed as int / 0x100_0000) % (mask as int + 1)],
        0 <= (seed as int / 0x100_0000) % (mask as int + 1) < 320,
{
    proof {
        lemma2_to64();
    }
    let high: i32 = shr32(seed, 24);
    // 256 times the modulus keeps the operand of the remainder positive
    let period: i32 = mask + 1;
    let positive: i32 = high + 256 * period;
    proof {
        vstd::arithmetic::div_mod::lemma_mod_multiples_vanish(256, high as int, period as int);
        assert(256 * period == period * 256);
    }
    exc[(positive % period) as usize]
}

/// Adds noise to a frame.
fn add_noise(state: &mut CngState, plc: &PlcState, order: usize, frame: &mut [i16])
    requires
        order == 10 || order == 16,
        cng_ok(*old(state)),
        1 <= old(frame)@.len() <= 320,
    ensures
        ({
            let a = noise_filter(old(state)@, order as int);
            let length = old(frame)@.len() as int;
            &&& final(state)@ == cng_spent(old(state)@, a, length)
            &&& final(frame)@.len() == length
            &&& forall|i: int|
                0 <= i < length ==> #[trigger] final(frame)@[i] == noisy_sample(
                    old(state)@,
                    *plc,
                    a,
                    old(frame)@,
                    i,
                )
        }),
        final(state).smth_nlsf_q15 == old(state).smth_nlsf_q15,
{
    let ghost m = state@;
    let length: usize = frame.len();
    let ghost len = length as int;
    let ghost f0 = frame@;
    proof {
        lemma2_to64();
    }
    let gain: i32 = shr32(gain_of_noise(state, plc), 6);
    let mask: i32 = mask_of(length);
    let mut coefs: [i16; 16] = [0;16];
    nlsf2a(&mut coefs, &state.smth_nlsf_q15[0..order]);
    let ghost a = noise_filter(m, order as int);
    assert(coefs@.subrange(0, order as int) == a);
    let mut sig: [i32; 336] = [0;336];
    for i in 0..16usize
        invariant
            m == state@,
            forall|j: int| 0 <= j < i ==> #[trigger] sig@[j] == m.synth[j],
    {
        sig[i] = state.synth_state[i];
    }
    let mut seed: i32 = state.rand_seed;
    for i in 0..length
        invariant
            length == len,
            1 <= len <= 320,
            order == 10 || order == 16,
            m == state@,
            *state == *old(state),
            coefs@.subrange(0, order as int) == a,
            a.len() == order,
            mask == noise_mask(255, len),
            0 <= mask <= 255,
            gain == asr(noise_gain(m, *plc), 6),
            seed == noise_seed(m.seed, i as nat),
            f0.len() == len,
            frame@.len() == len,
            noise_signal(m, a, len, i as nat).len() == 16 + i,
            forall|j: int| 0 <= j < 16 + i ==> #[trigger] sig@[j] == noise_signal(
                m,
                a,
                len,
                i as nat,
            )[j],
            forall|j: int|
                0 <= j < i ==> #[trigger] frame@[j] == noisy_sample(m, *plc, a, f0, j),
            forall|j: int| i <= j < len ==> #[trigger] frame@[j] == f0[j],
    {
        let ghost hist = noise_signal(m, a, len, i as nat);
        seed = silk_rand(seed);
        let exc: i32 = draw(&state.exc_buf_q14, seed, mask);
        assert(exc == noise_excitation(m, len, i as int));
        let mut pred: i32 = (order / 2) as i32;
        for k in 0..order
            invariant
                i < len <= 320,
                order == 10 || order == 16,
                coefs@.subrange(0, order as int) == a,
                a.len() == order,
                hist.len() == 16 + i,
                forall|j: int| 0 <= j < 16 + i ==> #[trigger] sig@[j] == hist[j],
                pred == noise_prediction(hist, a, k as nat),
        {
            assert(coefs@[k as int] == coefs@.subrange(0, order as int)[k as int]);
            assert(sig@[16 + i - 1 - k] == hist[16 + i - 1 - k]);
            pred = wadd(pred, smulwb(sig[16 + i - 1 - k], coefs[k] as i32));
        }
        let v: i32 = sat32(exc as i64 + lshift_clamped(pred, 4) as i64);
        sig[16 + i] = v;
        let ghost next = noise_signal(m, a, len, (i + 1) as nat);
        assert(next == hist.push(v as int));
        proof {
            crate::fixed::lemma_wrap32_range(0);
        }
        let add: i16 = sat16(round_shr(smulww(v, gain), 8));
        frame[i] = sat16(frame[i] as i32 + add as i32);
    }
    let mut tail: [i32; 16] = [0;16];
    for i in 0..16usize
        invariant
            length <= 320,
            forall|j: int| 0 <= j < i ==> #[trigger] tail@[j] == sig@[length + j],
    {
        tail[i] = sig[length + i];
    }
    state.synth_state = tail;
    state.rand_seed = seed;
    proof {
        let goal = cng_spent(m, a, len);
        let whole = noise_signal(m, a, len, length as nat);
        assert forall|j: int| 0 <= j < 16 implies state@.synth[j] == goal.synth[j] by {
            assert(tail@[j] == sig@[length + j]);
            assert(sig@[length + j] == whole[length + j]);
        }
        assert(state@.synth =~= goal.synth);
    }
}

/// Takes a frame into the noise statistics, or adds noise to a concealed one.
pub fn apply_cng(
    state: &mut CngState,
    plc: &PlcState,
    control: &DecoderControl,
    inputs: &ComfortNoiseInputs,
    frame: &mut [i16],
)
    requires
        inputs.wf(),
        cng_ok(*old(state)),
        old(frame)@.len() == inputs.nb_subfr * inputs.subfr_length,
    ensures
        ({
            let m = cng_before_noise(old(state)@, *inputs, ints_of_i32(control.gains_q16@));
            let order = inputs.lpc_order as int;
            let length = old(frame)@.len() as int;
            if inputs.loss_count > 0 {
                let a = noise_filter(m, order);
                &&& final(state)@ == cng_spent(m, a, length)
                &&& final(frame)@.len() == length
                &&& forall|i: int|
                    0 <= i < length ==> #[trigger] final(frame)@[i] == noisy_sample(
                        m,
                        *plc,
                        a,
                        old(frame)@,
                        i,
                    )
            } else {
                &&& final(state)@ == cng_quiet(m, order)
                &&& final(frame)@ == old(frame)@
            }
        }),
        cng_ok(*final(state)),
{
    proof {
        assert(1 <= inputs.nb_subfr * inputs.subfr_length <= 320) by (nonlinear_arith)
            requires
                1 <= inputs.nb_subfr <= 4,
                1 <= inputs.subfr_length <= 80,
        ;
    }
    follow_rate(state, inputs);
    if inputs.loss_count == 0 && inputs.prev_signal_type == FrameSignalType::Inactive {
        learn(state, inputs, &control.gains_q16);
    }
    if inputs.loss_count > 0 {
        add_noise(state, plc, inputs.lpc_order, frame);
    } else {
        clear_synthesis(state, inputs.lpc_order);
    }
}

// ---------------------------------------------------------------------
// Laws
// ---------------------------------------------------------------------

/// The noise is added to the frame: two frames that are given noise by the same
/// statistics differ afterwards as they did before, at every sample that does not
/// saturate.
pub proof fn law_noise_is_added(
    m: CngModel,
    plc: PlcState,
    a: Seq<i16>,
    frame: Seq<i16>,
    other: Seq<i16>,
    i: int,
)
    requires
        0 <= i < frame.len(),
        frame.len() == other.len(),
    ensures
        ({
            let r = noisy_sample(m, plc, a, frame, i);
            let s = noisy_sample(m, plc, a, other, i);
            &&& -0x8000 < r < 0x7fff && -0x8000 < s < 0x7fff ==> r - s == frame[i] - other[i]
            &&& frame[i] <= other[i] ==> r <= s
        }),
{
}

/// The gain of what the concealment adds itself, in terms of its parts.
proof fn lemma_concealed_gain(plc: PlcState)
    requires
        0 <= plc.rand_scale_q14 <= 0x4000,
        0 <= plc.prev_gain_q16[1],
    ensures
        ({
            let g = (plc.rand_scale_q14 * plc.prev_gain_q16[1]) / 0x1_0000;
            &&& 0 <= g < 0x2000_0000
            &&& mul_ww(plc.rand_scale_q14 as int, plc.prev_gain_q16[1] as int) == g
        }),
{
    let s = plc.rand_scale_q14 as int;
    let p = plc.prev_gain_q16[1] as int;
    assert(0 <= s * p < 0x2000_0000_0000) by (nonlinear_arith)
        requires
            0 <= s <= 0x4000,
            0 <= p < 0x8000_0000,
    ;
    reveal(mul_ww);
    lemma_wrap32_range((s * p) / 0x1_0000);
}

/// Noise fills up what the concealed frame lacks: there is none where the
/// concealment is as loud as the noise that was learnt, and none where no noise was
/// learnt.
pub proof fn law_no_noise_where_nothing_lacks(
    m: CngModel,
    plc: PlcState,
    a: Seq<i16>,
    frame: Seq<i16>,
    i: int,
)
    requires
        0 <= i < frame.len(),
        0 <= plc.rand_scale_q14 <= 0x4000,
        0 <= plc.prev_gain_q16[1],
        0 <= m.gain <= (plc.rand_scale_q14 * plc.prev_gain_q16[1]) / 0x1_0000,
    ensures
        noise_gain(m, plc) == 0,
        noisy_sample(m, plc, a, frame, i) == frame[i],
{
    lemma2_to64();
    lemma_concealed_gain(plc);
    let g = (plc.rand_scale_q14 * plc.prev_gain_q16[1]) / 0x1_0000;
    if g >= 0x20_0000 || m.gain > 0x80_0000 {
        let t = g / 0x1_0000;
        let u = m.gain / 0x1_0000;
        assert(0 <= u * u <= t * t <= 0x1fff * 0x1fff) by (nonlinear_arith)
            requires
                0 <= u <= t <= 0x1fff,
        ;
        lemma_wrap32_range((t * t) * 32);
        lemma_wrap32_range(u * u - (t * t) * 32);
    } else {
        let gain = m.gain;
        assert(0 <= gain * gain <= g * g < 0x400_0000_0000) by (nonlinear_arith)
            requires
                0 <= gain <= g < 0x20_0000,
        ;
        reveal(mul_ww);
        lemma_wrap32_range((gain * gain) / 0x1_0000);
        lemma_wrap32_range((g * g) / 0x1_0000);
        let t = (g * g) / 0x1_0000;
        assert(0 <= t < 0x400_0000);
        lemma_wrap32_range(t * 32);
        lemma_wrap32_range((gain * gain) / 0x1_0000 - t * 32);
    }
    assert(noise_gain(m, plc) == 0) by {
        assert(clamped(0, -0x8000_0000int / 0x1_0000, 0x7fff_ffffint / 0x1_0000) == 0);
        assert(clamped(0, -0x8000_0000int / 0x100, 0x7fff_ffffint / 0x100) == 0);
    }
    let v = noise_signal(m, a, frame.len() as int, (i + 1) as nat)[16 + i];
    assert(asr(0, 6) == 0);
    assert(mul_ww(v, 0) == 0) by {
        reveal(mul_ww);
        assert(v * 0 == 0);
        lemma_wrap32_range(0);
    }
    reveal(round_shift);
}

/// Where the concealment adds nothing itself, noise that was learnt is heard.
pub proof fn law_noise_where_all_lacks(m: CngModel, plc: PlcState)
    requires
        plc.rand_scale_q14 == 0 || plc.prev_gain_q16[1] == 0,
        0x100 <= m.gain <= 0x7fff_ffff,
    ensures
        noise_gain(m, plc) > 0,
{
    lemma2_to64();
    reveal(mul_ww);
    lemma_wrap32_range(0);
    let gain = m.gain;
    assert(plc.rand_scale_q14 * plc.prev_gain_q16[1] == 0) by (nonlinear_arith)
        requires
            plc.rand_scale_q14 == 0 || plc.prev_gain_q16[1] == 0,
    ;
    assert(mul_ww(plc.rand_scale_q14 as int, plc.prev_gain_q16[1] as int) == 0);
    assert(shl(0, 5) == 0);
    assert(mul_ww(0, 0) == 0);
    if gain > 0x80_0000 {
        let u = gain / 0x1_0000;
        assert(1 <= u * u <= 0x7fff * 0x7fff) by (nonlinear_arith)
            requires
                1 <= u <= 0x7fff,
        ;
        lemma_wrap32_range(u * u);
        lemma_sqrt_positive(u * u);
        lemma_scaled_up_is_positive(sqrt_of(u * u), 16);
    } else {
        assert(0x1_0000 <= gain * gain <= 0x4000_0000_0000) by (nonlinear_arith)
            requires
                0x100 <= gain <= 0x80_0000,
        ;
        let u = (gain * gain) / 0x1_0000;
        lemma_wrap32_range(u);
        lemma_sqrt_positive(u);
        lemma_scaled_up_is_positive(sqrt_of(u), 8);
    }
}

proof fn lemma_scaled_up_is_positive(v: int, k: nat)
    requires
        v > 0,
        k == 8 || k == 16,
    ensures
        shl_clamped(v, k) > 0,
{
    lemma2_to64();
    let p = pow2(k) as int;
    let c = clamped(v, -0x8000_0000int / p, 0x7fff_ffffint / p);
    if k == 8 {
        assert(p == 0x100);
        assert(0x7fff_ffffint / 0x100 > 0);
    } else {
        assert(p == 0x1_0000);
        assert(0x7fff_ffffint / 0x1_0000 > 0);
    }
    assert(c > 0);
    assert(c * p > 0) by (nonlinear_arith)
        requires
            c > 0,
            p > 0,
    ;
}

/// A frequency that is drawn towards the frame's stays between the two, and moves
/// by about a quarter of the way.
pub proof fn law_frequencies_follow(cur: int, target: int)
    requires
        0 <= cur <= 0x7fff,
        0 <= target <= 0x7fff,
    ensures
        cur <= target ==> cur <= drawn_nlsf(cur, target) <= target,
        cur >= target ==> target <= drawn_nlsf(cur, target) <= cur,
        4 * (drawn_nlsf(cur, target) - cur) <= target - cur + 80,
        4 * (drawn_nlsf(cur, target) - cur) >= target - cur - 80,
{
    lemma_mul_wb(target - cur, CNG_NLSF_SMTH_Q16 as int);
    let move_by = ((target - cur) * 16348) / 0x1_0000;
    lemma_wrap16_range(cur + move_by);
}

/// The gain follows that of the frames from either side: it never passes it, and
/// where it lies above, it falls.
pub proof fn law_gain_follows(gain: int, gains: Seq<int>, k: nat)
    requires
        k <= gains.len(),
        0 <= gain <= 0x7fff_ffff,
        0 <= gains[0] <= 0x7fff_ffff,
        forall|j: int| 0 <= j < gains.len() ==> #[trigger] gains[j] == gains[0],
    ensures
        gain <= gains[0] ==> gain <= drawn_gain(gain, gains, k) <= gains[0],
        gain >= gains[0] ==> gains[0] <= drawn_gain(gain, gains, k) <= gain,
        gain > gains[0] && k > 0 ==> drawn_gain(gain, gains, k) < gain,
        k > 0 && gains[0] - gain >= 15 ==> drawn_gain(gain, gains, k) > gain,
    decreases k,
{
    if k > 0 {
        law_gain_follows(gain, gains, (k - 1) as nat);
        let g = drawn_gain(gain, gains, (k - 1) as nat);
        let to = gains[k - 1];
        assert(to == gains[0]);
        lemma_wrap32_range(to - g);
        lemma_mul_wb(to - g, CNG_GAIN_SMTH_Q16 as int);
        let next = g + ((to - g) * 4634) / 0x1_0000;
        lemma_wrap32_range(next);
        reveal(mul_ww);
        lemma_wrap32_range((next * 46396) / 0x1_0000);
    }
}

/// The excitation that is kept is that of a subframe with the largest gain.
pub proof fn law_strongest_subframe_is_kept(gains: Seq<int>, k: nat)
    requires
        k <= gains.len(),
        forall|j: int| 0 <= j < gains.len() ==> #[trigger] gains[j] > 0,
    ensures
        k > 0 ==> 0 <= strongest(gains, k).0 < k,
        k > 0 ==> gains[strongest(gains, k).0] == strongest(gains, k).1,
        forall|j: int| 0 <= j < k ==> #[trigger] gains[j] <= strongest(gains, k).1,
    decreases k,
{
    if k > 0 {
        law_strongest_subframe_is_kept(gains, (k - 1) as nat);
        assert(gains[k - 1] > 0);
        if k > 1 {
            assert(gains[0] > 0);
        }
    }
}

/// The prediction of a filter with a single tap.
proof fn lemma_noise_prediction(hist: Seq<int>, a: Seq<i16>, j: int, k: nat)
    requires
        0 <= j < a.len() <= 16,
        a.len() <= hist.len(),
        k <= a.len(),
        forall|t: int| 0 <= t < a.len() && t != j ==> #[trigger] a[t] == 0,
        -0x1000_0000 <= hist[hist.len() - 1 - j] <= 0x1000_0000,
    ensures
        noise_prediction(hist, a, k) == a.len() as int / 2 + if k > j {
            (hist[hist.len() - 1 - j] * a[j]) / 0x1_0000
        } else {
            0
        },
        -0x800_0000 <= (hist[hist.len() - 1 - j] * a[j]) / 0x1_0000 <= 0x800_0000,
    decreases k,
{
    let h = hist[hist.len() - 1 - j];
    let v = a[j] as int;
    assert(-0x800_0000_0000 <= h * v <= 0x800_0000_0000) by (nonlinear_arith)
        requires
            -0x1000_0000 <= h <= 0x1000_0000,
            -0x8000 <= v <= 0x7fff,
    ;
    if k > 0 {
        lemma_noise_prediction(hist, a, j, (k - 1) as nat);
        let t = k - 1;
        lemma_mul_wb(hist[hist.len() - k], a[t] as int);
        if t != j {
            assert(hist[hist.len() - k] * 0 == 0);
        }
        lemma_wrap32_range(a.len() as int / 2 + (h * v) / 0x1_0000);
        lemma_wrap32_range(a.len() as int / 2);
    }
}

proof fn lemma_noise_signal_len(m: CngModel, a: Seq<i16>, length: int, i: nat)
    ensures
        noise_signal(m, a, length, i).len() == m.synth.len() + i,
    decreases i,
{
    if i > 0 {
        lemma_noise_signal_len(m, a, length, (i - 1) as nat);
    }
}

/// The noise is the excitation and what the filter predicts, with tap `j` weighing
/// the sample `j + 1` before: shown for filters with a single tap.
pub proof fn law_noise_is_synthesised(m: CngModel, a: Seq<i16>, length: int, i: nat, j: int)
    requires
        m.synth.len() == 16,
        0 <= j < a.len() <= 16,
        forall|t: int| 0 <= t < a.len() && t != j ==> #[trigger] a[t] == 0,
        -0x1000_0000 <= noise_signal(m, a, length, i)[15 + i - j] <= 0x1000_0000,
        -0x1000_0000 <= noise_excitation(m, length, i as int) <= 0x1000_0000,
        -0x400_0000 <= noise_signal(m, a, length, i)[15 + i - j] * a[j] / 0x1_0000 <= 0x400_0000,
    ensures
        noise_signal(m, a, length, i + 1)[16 + i as int] == noise_excitation(m, length, i as int) + 16 * (
        a.len() as int / 2 + (noise_signal(m, a, length, i)[15 + i - j] * a[j]) / 0x1_0000),
{
    lemma2_to64();
    let hist = noise_signal(m, a, length, i);
    lemma_noise_signal_len(m, a, length, i);
    lemma_noise_prediction(hist, a, j, a.len());
}

/// The noise that a sample is given is the synthesised one times the noise gain.
pub proof fn law_noise_is_scaled(
    m: CngModel,
    plc: PlcState,
    a: Seq<i16>,
    frame: Seq<i16>,
    i: int,
)
    requires
        0 <= i < frame.len(),
        0 <= noise_gain(m, plc),
        ({
            let v = noise_signal(m, a, frame.len() as int, (i + 1) as nat)[16 + i];
            -0x7000_0000_0000 <= v * (noise_gain(m, plc) / 64) <= 0x7000_0000_0000
        }),
    ensures
        ({
            let v = noise_signal(m, a, frame.len() as int, (i + 1) as nat)[16 + i];
            let r = noisy_sample(m, plc, a, frame, i);
            let noise = r - frame[i];
            &&& -0x8000 < r < 0x7fff && -0x8000 < noise < 0x7fff ==> -0x81_0000 <= v * (noise_gain(
                m,
                plc,
            ) / 64) - 0x100_0000 * noise <= 0x81_0000
        }),
{
    lemma2_to64();
    let v = noise_signal(m, a, frame.len() as int, (i + 1) as nat)[16 + i];
    let g = noise_gain(m, plc) / 64;
    assert(asr(noise_gain(m, plc), 6) == g);
    let x = (v * g) / 0x1_0000;
    assert(mul_ww(v, g) == x) by {
        reveal(mul_ww);
        lemma_wrap32_range(x);
    }
    let n = (x / 128 + 1) / 2;
    assert(round_shift(x, 8) == n) by {
        reveal(round_shift);
    }
    let r = noisy_sample(m, plc, a, frame, i);
    if -0x8000 < r < 0x7fff && -0x8000 < r - frame[i] < 0x7fff {
        assert(r == frame[i] + sat16_of(n));
        assert(r - frame[i] == n);
    }
}

/// The noise is drawn from no more excitation samples than the frame has, and from
/// all of the newest 256 where it has as many.
pub proof fn law_noise_is_drawn_from_the_frame(mask: nat, length: int)
    requires
        0 < length,
    ensures
        noise_mask(mask, length) <= length,
        noise_mask(mask, length) <= mask,
        mask <= length ==> noise_mask(mask, length) == mask,
        mask > length ==> 2 * noise_mask(mask, length) + 2 > length,
    decreases mask,
{
    if mask > length && mask > 0 {
        law_noise_is_drawn_from_the_frame(mask / 2, length);
    }
}

/// Where the concealment adds nothing itself, the noise has the gain that was learnt,
/// but for what the square root is off.
pub proof fn law_noise_has_the_learnt_gain(m: CngModel, plc: PlcState)
    requires
        plc.rand_scale_q14 == 0 || plc.prev_gain_q16[1] == 0,
        0x100 <= m.gain <= 0x80_0000,
    ensures
        ({
            let n = noise_gain(m, plc);
            &&& 1000 * (n * n) <= 1002 * (m.gain * m.gain)
            &&& 100 * ((n + 768) * (n + 768)) >= 95 * (m.gain * m.gain - 0x1_0000)
        }),
{
    lemma2_to64();
    lemma_wrap32_range(0);
    let gain = m.gain;
    assert(plc.rand_scale_q14 * plc.prev_gain_q16[1] == 0) by (nonlinear_arith)
        requires
            plc.rand_scale_q14 == 0 || plc.prev_gain_q16[1] == 0,
    ;
    let square = gain * gain;
    assert(0x1_0000 <= square <= 0x4000_0000_0000) by (nonlinear_arith)
        requires
            square == gain * gain,
            0x100 <= gain <= 0x80_0000,
    ;
    let u = square / 0x1_0000;
    assert(mul_ww(plc.rand_scale_q14 as int, plc.prev_gain_q16[1] as int) == 0 && mul_ww(0, 0) == 0
        && mul_ww(gain, gain) == u) by {
        reveal(mul_ww);
        lemma_wrap32_range(u);
    }
    assert(shl(0, 5) == 0);
    lemma_wrap32_range(u);
    let y = sqrt_of(u);
    lemma_sqrt_positive(u);
    law_square_root_is_close(u);
    let n = noise_gain(m, plc);
    assert(n == 256 * y) by {
        let p = pow2(8) as int;
        assert(p == 0x100);
        assert(0x7fff_ffffint / 0x100 == 0x7f_ffff);
        assert(-0x8000_0000int / 0x100 == -0x80_0000);
        assert(n == clamped(y, -0x8000_0000int / p, 0x7fff_ffffint / p) * p);
        assert(y * p == 256 * y) by (nonlinear_arith)
            requires
                p == 256,
        ;
    }
    assert(n * n == 0x1_0000 * (y * y)) by (nonlinear_arith)
        requires
            n == 256 * y,
    ;
    assert((n + 768) * (n + 768) == 0x1_0000 * ((y + 3) * (y + 3))) by (nonlinear_arith)
        requires
            n == 256 * y,
    ;
}

/// Noise is learnt from inactive frames that arrived; all others leave the statistics
/// as they are, at the same sample rate.
pub proof fn law_noise_is_learnt_from_pauses(m: CngModel, inputs: ComfortNoiseInputs, gains: Seq<int>)
    requires
        m.fs == inputs.fs_khz,
    ensures
        inputs.loss_count > 0 ==> cng_before_noise(m, inputs, gains) == m,
        inputs.prev_signal_type != FrameSignalType::Inactive ==> cng_before_noise(m, inputs, gains)
            == m,
        cng_before_noise(m, inputs, gains).seed == m.seed,
        cng_before_noise(m, inputs, gains).synth == m.synth,
{
}

} // verus!
