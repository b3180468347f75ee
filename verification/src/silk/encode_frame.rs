//! Decisions in the coding of a frame.
//!
//! Signal analysis and quantisation are done outside. What they find is handed
//! in, and what they are to do next is handed out.
use crate::fixed::{
    div_trunc, divide, lemma_wrap32_range, mul_wb, narrow32, narrow8, quotient, sat32_of, shr32,
    smulwb, wadd, wmul, wrap32, wrap8, wsub,
};
use crate::range_encoder::{enc_tell, RangeEncoder};
use crate::silk::decode_indices::{ConditionalCoding, SideInfoIndices};
use crate::silk::encoder_state::{EncoderChannelState, EncoderShapeState, EncoderStateCommon};
use crate::silk::gain_quant::{level_at, level_gain, silk_gains_dequant};
use crate::silk::types::FrameSignalType;
use vstd::arithmetic::power2::lemma2_to64;
use vstd::prelude::*;

verus! {

// ---------------------------------------------------------------------
// Voice activity
// ---------------------------------------------------------------------

/// Voice activity decision of a caller that has seen no activity.
pub const VAD_NO_ACTIVITY: i32 = 0;

/// Speech activity (Q8) from which on a frame counts as speech.
pub const SPEECH_ACTIVITY_DTX_THRES_Q8: i32 = 13;

/// Frames without speech before transmission may pause.
pub const NB_SPEECH_FRAMES_BEFORE_DTX: i32 = 10;

/// Most frames of a pause.
pub const MAX_CONSECUTIVE_DTX: i32 = 20;

/// Speech activity (Q8) above which a frame is sent twice.
pub const LBRR_SPEECH_ACTIVITY_THRES_Q8: i32 = 77;

/// The activity that counts: a caller that has seen none keeps it below the
/// threshold.
pub open spec fn counted_activity(measured: int, activity: int) -> int {
    if activity == VAD_NO_ACTIVITY && measured >= SPEECH_ACTIVITY_DTX_THRES_Q8 {
        SPEECH_ACTIVITY_DTX_THRES_Q8 - 1
    } else {
        measured
    }
}

/// Whether transmission pauses, and the frames without speech, after one more
/// of them.
pub open spec fn pause_after(in_dtx: bool, counter: int) -> (bool, int) {
    let n = wrap32(counter + 1);
    if n <= NB_SPEECH_FRAMES_BEFORE_DTX {
        (false, n)
    } else if n > MAX_CONSECUTIVE_DTX + NB_SPEECH_FRAMES_BEFORE_DTX {
        (false, NB_SPEECH_FRAMES_BEFORE_DTX as int)
    } else {
        (in_dtx, n)
    }
}

/// Takes the measured speech activity of a frame, and decides whether the
/// frame is speech and whether transmission pauses.
pub fn silk_encode_do_vad(encoder: &mut EncoderChannelState, activity: i32, speech_activity_q8: i32)
    requires
        old(encoder).common.n_frames_encoded < 3,
    ensures
        ({
            let b = old(encoder).common;
            let a = final(encoder).common;
            let counted = counted_activity(speech_activity_q8 as int, activity as int);
            let speech = counted >= SPEECH_ACTIVITY_DTX_THRES_Q8;
            let (pause, n) = pause_after(b.in_dtx, b.no_speech_counter as int);
            &&& *final(encoder) == (EncoderChannelState { common: a, ..*old(encoder) })
            &&& a == (EncoderStateCommon {
                speech_activity_q8: a.speech_activity_q8,
                no_speech_counter: a.no_speech_counter,
                in_dtx: a.in_dtx,
                vad_flags: a.vad_flags,
                indices: a.indices,
                ..b
            })
            &&& a.speech_activity_q8 == counted
            &&& a.vad_flags@ == b.vad_flags@.update(b.n_frames_encoded as int, speech)
            &&& a.indices == (SideInfoIndices {
                signal_type: if speech {
                    FrameSignalType::Unvoiced
                } else {
                    FrameSignalType::Inactive
                },
                ..b.indices
            })
            &&& if speech {
                a.no_speech_counter == 0 && !a.in_dtx
            } else {
                a.no_speech_counter == n && a.in_dtx == pause
            }
        }),
{
    let at: usize = encoder.common.n_frames_encoded;
    let counted: i32 = if activity == VAD_NO_ACTIVITY && speech_activity_q8
        >= SPEECH_ACTIVITY_DTX_THRES_Q8 {
        SPEECH_ACTIVITY_DTX_THRES_Q8 - 1
    } else {
        speech_activity_q8
    };
    let speech: bool = counted >= SPEECH_ACTIVITY_DTX_THRES_Q8;
    let (in_dtx, no_speech_counter): (bool, i32) = if speech {
        (false, 0)
    } else {
        count_pause(encoder.common.in_dtx, encoder.common.no_speech_counter)
    };
    let signal_type: FrameSignalType = if speech {
        FrameSignalType::Unvoiced
    } else {
        FrameSignalType::Inactive
    };
    let mut vad_flags: [bool; 3] = encoder.common.vad_flags;
    vad_flags[at] = speech;
    let common: EncoderStateCommon = EncoderStateCommon {
        speech_activity_q8: counted,
        no_speech_counter,
        in_dtx,
        vad_flags,
        indices: SideInfoIndices { signal_type, ..encoder.common.indices },
        ..encoder.common
    };
    encoder.common = common;
}

/// Whether transmission pauses, and the frames without speech, after one more
/// of them.
fn count_pause(in_dtx: bool, counter: i32) -> (r: (bool, i32))
    ensures
        (r.0, r.1 as int) == pause_after(in_dtx, counter as int),
{
    let n: i32 = wadd(counter, 1);
    if n <= NB_SPEECH_FRAMES_BEFORE_DTX {
        (false, n)
    } else if n > MAX_CONSECUTIVE_DTX + NB_SPEECH_FRAMES_BEFORE_DTX {
        (false, NB_SPEECH_FRAMES_BEFORE_DTX)
    } else {
        (in_dtx, n)
    }
}

/// Transmission never pauses for more than 20 frames: a pause goes on only
/// while there were 11 to 30 frames without speech.
pub proof fn law_pause_is_bounded(in_dtx: bool, counter: int)
    requires
        0 <= counter <= NB_SPEECH_FRAMES_BEFORE_DTX + MAX_CONSECUTIVE_DTX,
    ensures
        ({
            let (pause, n) = pause_after(in_dtx, counter);
            &&& 0 <= n <= NB_SPEECH_FRAMES_BEFORE_DTX + MAX_CONSECUTIVE_DTX
            &&& pause ==> in_dtx && NB_SPEECH_FRAMES_BEFORE_DTX < n && n == counter + 1
            &&& !pause && in_dtx ==> n <= NB_SPEECH_FRAMES_BEFORE_DTX
        }),
{
    lemma_wrap32_range(counter + 1);
}

// ---------------------------------------------------------------------
// Redundancy
// ---------------------------------------------------------------------

/// What is quantised a second time for the next packet.
#[derive(Debug, Clone, Copy)]
pub struct RedundantFrame {
    pub indices: SideInfoIndices,
    /// Gains of the subframes (Q16).
    pub gains_q16: [i32; 4],
}

/// The frame is sent a second time.
pub open spec fn frame_is_repeated(c: EncoderStateCommon) -> bool {
    c.lbrr_enabled && c.speech_activity_q8 > LBRR_SPEECH_ACTIVITY_THRES_Q8
}

/// The frame starts a run of repeated frames.
pub open spec fn starts_run(c: EncoderStateCommon) -> bool {
    c.n_frames_encoded == 0 || !c.lbrr_flags[c.n_frames_encoded - 1]
}

/// First gain index of a repeated frame: raised where the frame starts a run,
/// to 63 at most, and taken in 8 bits.
pub open spec fn repeated_gain(c: EncoderStateCommon) -> int {
    let index = c.indices.gains_indices[0] as int;
    if starts_run(c) {
        let raised = index + c.lbrr_gain_increases;
        wrap8(
            if raised < 63 {
                raised
            } else {
                63
            },
        )
    } else {
        index
    }
}

pub open spec fn gain_indices(ind: SideInfoIndices) -> Seq<int> {
    Seq::new(4, |i: int| ind.gains_indices[i] as int)
}

/// Decides whether a frame is sent a second time with the next packet, and
/// with which indices and gains; `gains_q16` are the gains of the frame.
pub fn silk_lbrr_encode(
    encoder: &mut EncoderChannelState,
    gains_q16: &[i32; 4],
    cond_coding: ConditionalCoding,
) -> (r: Option<RedundantFrame>)
    requires
        old(encoder).common.n_frames_encoded < 3,
        1 <= old(encoder).common.nb_subfr <= 4,
        frame_is_repeated(old(encoder).common) && starts_run(old(encoder).common) ==> i32::MIN
            <= old(encoder).common.indices.gains_indices[0]
            + old(encoder).common.lbrr_gain_increases <= i32::MAX,
    ensures
        ({
            let b = old(encoder).common;
            let a = final(encoder).common;
            let conditional = cond_coding == ConditionalCoding::Conditional;
            if !frame_is_repeated(b) {
                r is None && *final(encoder) == *old(encoder)
            } else {
                let prev = if starts_run(b) {
                    wrap8(old(encoder).shape_state.last_gain_index as int)
                } else {
                    b.lbrr_prev_last_gain_index as int
                };
                &&& r is Some
                &&& r->0.indices == (SideInfoIndices {
                    gains_indices: r->0.indices.gains_indices,
                    ..b.indices
                })
                &&& r->0.indices.gains_indices@ == b.indices.gains_indices@.update(
                    0,
                    repeated_gain(b) as i8,
                )
                &&& forall|k: int|
                    0 <= k < b.nb_subfr ==> #[trigger] r->0.gains_q16@[k] == level_gain(
                        level_at(prev, gain_indices(r->0.indices), conditional, k),
                    )
                &&& forall|k: int|
                    b.nb_subfr <= k < 4 ==> #[trigger] r->0.gains_q16@[k] == 0
                &&& *final(encoder) == (EncoderChannelState { common: a, ..*old(encoder) })
                &&& a == (EncoderStateCommon {
                    lbrr_flags: a.lbrr_flags,
                    lbrr_prev_last_gain_index: a.lbrr_prev_last_gain_index,
                    ..b
                })
                &&& a.lbrr_flags@ == b.lbrr_flags@.update(b.n_frames_encoded as int, true)
                &&& a.lbrr_prev_last_gain_index == level_at(
                    prev,
                    gain_indices(r->0.indices),
                    conditional,
                    b.nb_subfr - 1,
                )
            }
        }),
{
    let at: usize = encoder.common.n_frames_encoded;
    if !encoder.common.lbrr_enabled || encoder.common.speech_activity_q8
        <= LBRR_SPEECH_ACTIVITY_THRES_Q8 {
        return None;
    }
    let ghost b = encoder.common;
    let nb_subfr: usize = encoder.common.nb_subfr;
    let starts: bool = at == 0 || !encoder.common.lbrr_flags[at - 1];
    let own: SideInfoIndices = encoder.common.indices;
    let mut prev: i8 = if starts {
        narrow8(encoder.shape_state.last_gain_index)
    } else {
        encoder.common.lbrr_prev_last_gain_index
    };
    let first: i8 = if starts {
        raised_index(own.gains_indices[0], encoder.common.lbrr_gain_increases)
    } else {
        own.gains_indices[0]
    };
    let mut gains_indices: [i8; 4] = own.gains_indices;
    gains_indices[0] = first;
    let indices: SideInfoIndices = SideInfoIndices { gains_indices, ..own };
    let mut gains: [i32; 4] = [0;4];
    let conditional: bool = matches!(cond_coding, ConditionalCoding::Conditional);
    silk_gains_dequant(&mut gains, &gains_indices, &mut prev, conditional, nb_subfr);
    assert(gain_indices(indices) =~= Seq::new(4, |i: int| gains_indices[i] as int));
    let mut lbrr_flags: [bool; 3] = encoder.common.lbrr_flags;
    lbrr_flags[at] = true;
    let common: EncoderStateCommon = EncoderStateCommon {
        lbrr_flags,
        lbrr_prev_last_gain_index: prev,
        ..encoder.common
    };
    encoder.common = common;
    Some(RedundantFrame { indices, gains_q16: gains })
}

fn raised_index(index: i8, raise: i32) -> (r: i8)
    requires
        i32::MIN <= index + raise <= i32::MAX,
    ensures
        r == wrap8(
            if index + raise < 63 {
                index + raise
            } else {
                63
            },
        ),
{
    let raised: i32 = index as i32 + raise;
    if raised < 63 {
        narrow8(raised)
    } else {
        63
    }
}

// ---------------------------------------------------------------------
// Bits
// ---------------------------------------------------------------------

/// Most repetitions of the quantisation of a frame.
pub const MAX_RATE_ITERATIONS: i32 = 6;

/// The search for gains that make a frame fit its bits. A trial is named by
/// its gain indices; the last trial with bits to spare and the last one with
/// too many bits enclose the gains that are looked for.
#[derive(Debug, Clone, Copy)]
pub struct RateLoop {
    pub max_bits: i32,
    /// Bits below `max_bits` that need not be used.
    pub bits_margin: i32,
    pub use_cbr: bool,
    pub iter: i32,
    pub found_lower: bool,
    pub found_upper: bool,
    pub n_bits_lower: i32,
    pub n_bits_upper: i32,
    pub gain_mult_lower: i32,
    pub gain_mult_upper: i32,
    pub gains_id_lower: i32,
    pub gains_id_upper: i32,
    /// Factor on the gains (Q8).
    pub gain_mult_q8: i32,
    /// Name of the current gain indices.
    pub gains_id: i32,
    /// Weight of the bits in the quantisation (Q10).
    pub lambda_q10: i32,
    pub gain_lock: [bool; 4],
    pub best_gain_mult: [i32; 4],
    pub best_sum: [i32; 4],
}

/// What happens after a trial.
#[derive(Debug, Clone, Copy, PartialEq, Eq, Structural)]
pub enum RateVerdict {
    /// The trial is the frame.
    Accept,
    /// The trial that was kept is the frame.
    Restore,
    /// Another trial with other gains; `keep` the current one first or not.
    Again { keep: bool },
}

/// Where the next trial's bits come from.
#[derive(Debug, Clone, Copy, PartialEq, Eq, Structural)]
pub enum TrialBits {
    /// The same gains were tried before and took these bits.
    Known(i32),
    /// The frame has to be quantised and coded.
    Code,
}

/// The bits of the current gains, if they are known.
pub open spec fn trial_bits(s: RateLoop) -> TrialBits {
    if s.gains_id == s.gains_id_lower {
        TrialBits::Known(s.n_bits_lower)
    } else if s.gains_id == s.gains_id_upper {
        TrialBits::Known(s.n_bits_upper)
    } else {
        TrialBits::Code
    }
}

/// The search before the first trial.
pub open spec fn rate_loop_start(
    s: RateLoop,
    max_bits: int,
    use_cbr: bool,
    gains_id: int,
    lambda_q10: int,
) -> bool {
    &&& s.max_bits == max_bits
    &&& s.bits_margin == if use_cbr {
        5
    } else {
        div_trunc(max_bits, 4)
    }
    &&& s.use_cbr == use_cbr
    &&& s.iter == 0
    &&& !s.found_lower && !s.found_upper
    &&& s.n_bits_lower == 0 && s.n_bits_upper == 0
    &&& s.gain_mult_lower == 0 && s.gain_mult_upper == 0
    &&& s.gains_id_lower == -1 && s.gains_id_upper == -1
    &&& s.gain_mult_q8 == 256
    &&& s.gains_id == gains_id
    &&& s.lambda_q10 == lambda_q10
    &&& s.gain_lock@ == seq![false, false, false, false]
    &&& s.best_gain_mult@ == seq![0i32, 0i32, 0i32, 0i32]
    &&& s.best_sum@ == seq![0i32, 0i32, 0i32, 0i32]
}

/// A trial of `n_bits` bits is to spare.
pub open spec fn is_low(s: RateLoop, n_bits: int) -> bool {
    n_bits < wrap32(s.max_bits - s.bits_margin)
}

/// What happens after a trial; `coded` says that the frame was coded for it.
pub open spec fn verdict(s: RateLoop, n_bits: int, coded: bool) -> RateVerdict {
    if coded && !s.use_cbr && s.iter == 0 && n_bits <= s.max_bits {
        RateVerdict::Accept
    } else if s.iter == MAX_RATE_ITERATIONS {
        if s.found_lower && (s.gains_id == s.gains_id_lower || n_bits > s.max_bits) {
            RateVerdict::Restore
        } else {
            RateVerdict::Accept
        }
    } else if n_bits <= s.max_bits && !is_low(s, n_bits) {
        RateVerdict::Accept
    } else {
        let e = enclosed(s, n_bits);
        if e.found_lower && e.found_upper && e.n_bits_upper == e.n_bits_lower {
            RateVerdict::Accept
        } else {
            RateVerdict::Again { keep: n_bits <= s.max_bits && s.gains_id != s.gains_id_lower }
        }
    }
}

/// The search after the trial is taken as an end of the enclosure. While there
/// is no trial with bits to spare, bits weigh more from the third trial on.
pub open spec fn enclosed(s: RateLoop, n_bits: int) -> RateLoop {
    if n_bits > s.max_bits {
        if !s.found_lower && s.iter >= 2 {
            RateLoop {
                lambda_q10: wrap32(s.lambda_q10 + s.lambda_q10 as int / 2) as i32,
                found_upper: false,
                gains_id_upper: -1i32,
                ..s
            }
        } else {
            RateLoop {
                found_upper: true,
                n_bits_upper: n_bits as i32,
                gain_mult_upper: s.gain_mult_q8,
                gains_id_upper: s.gains_id,
                ..s
            }
        }
    } else {
        RateLoop {
            found_lower: true,
            n_bits_lower: n_bits as i32,
            gain_mult_lower: s.gain_mult_q8,
            gains_id_lower: s.gains_id,
            ..s
        }
    }
}

/// The next factor on the gains: between the ends of the enclosure, in its
/// middle half, or else a step up or down.
pub open spec fn next_gain_mult(e: RateLoop, n_bits: int) -> int {
    if e.found_lower && e.found_upper {
        let diff = wrap32(e.gain_mult_upper - e.gain_mult_lower);
        let at = wrap32(
            e.gain_mult_lower + wrap32(
                div_trunc(
                    wrap32(diff * wrap32(e.max_bits - e.n_bits_lower)),
                    wrap32(e.n_bits_upper - e.n_bits_lower),
                ),
            ),
        );
        let high = wrap32(e.gain_mult_lower + diff / 4);
        let low = wrap32(e.gain_mult_upper - diff / 4);
        if at > high {
            high
        } else if at < low {
            low
        } else {
            at
        }
    } else if n_bits > e.max_bits {
        let up = div_trunc(wrap32(e.gain_mult_q8 * 3), 2);
        if up < 1024 {
            up
        } else {
            1024
        }
    } else {
        let down = div_trunc(wrap32(e.gain_mult_q8 * 4), 5);
        if down > 64 {
            down
        } else {
            64
        }
    }
}

pub open spec fn pulse_sums(sums: [i32; 4]) -> Seq<int> {
    Seq::new(4, |i: int| sums[i] as int)
}

/// Subframe `i` has settled: its pulses no longer become fewer.
pub open spec fn locks(s: RateLoop, sums: Seq<int>, i: int) -> bool {
    !(s.iter == 0 || (sums[i] < s.best_sum[i] && !s.gain_lock[i]))
}

/// Subframe `i` after a trial with the gain factor `mult`, in which the pulses
/// of the first `counted` subframes count.
pub open spec fn subframe_next(
    s: RateLoop,
    a: RateLoop,
    sums: Seq<int>,
    counted: int,
    mult: int,
    i: int,
) -> bool {
    if i < counted && !locks(s, sums, i) {
        a.gain_lock[i] == s.gain_lock[i] && a.best_sum[i] == sums[i] && a.best_gain_mult[i] == mult
    } else {
        a.gain_lock[i] == (i < counted || s.gain_lock[i]) && a.best_sum[i] == s.best_sum[i]
            && a.best_gain_mult[i] == s.best_gain_mult[i]
    }
}

/// The search after a trial with `sums` pulses in the subframes, when another
/// trial follows; its gains are yet to be named.
pub open spec fn rate_loop_next(
    s: RateLoop,
    n_bits: int,
    nb_subfr: int,
    sums: Seq<int>,
    a: RateLoop,
) -> bool {
    let e = enclosed(s, n_bits);
    let counted = if !e.found_lower && n_bits > s.max_bits {
        nb_subfr
    } else {
        0
    };
    &&& a == (RateLoop {
        gain_mult_q8: a.gain_mult_q8,
        iter: a.iter,
        gain_lock: a.gain_lock,
        best_gain_mult: a.best_gain_mult,
        best_sum: a.best_sum,
        ..e
    })
    &&& a.gain_mult_q8 == next_gain_mult(e, n_bits)
    &&& a.iter == s.iter + 1
    &&& forall|i: int|
        0 <= i < 4 ==> #[trigger] subframe_next(
            s,
            a,
            sums,
            counted,
            s.gain_mult_q8 as int,
            i,
        )
}

/// The gain (Q16) of a subframe for the next trial; a subframe that has
/// settled keeps its best factor.
pub open spec fn trial_gain(s: RateLoop, unquantised: int, i: int) -> int {
    sat32_of(
        256 * mul_wb(
            unquantised,
            if s.gain_lock[i] {
                s.best_gain_mult[i] as int
            } else {
                s.gain_mult_q8 as int
            },
        ),
    )
}

impl RateLoop {
    /// A trial with bits to spare and one with too many have different numbers
    /// of bits, and the one that is kept fits.
    pub open spec fn wf(self) -> bool {
        &&& 0 <= self.iter <= MAX_RATE_ITERATIONS
        &&& self.found_upper ==> self.n_bits_upper > self.max_bits
        &&& self.found_lower ==> self.n_bits_lower <= self.max_bits
    }

    /// The search before the first trial.
    pub fn start(max_bits: i32, use_cbr: bool, gains_id: i32, lambda_q10: i32) -> (r: RateLoop)
        ensures
            rate_loop_start(r, max_bits as int, use_cbr, gains_id as int, lambda_q10 as int),
            r.wf(),
    {
        let r: RateLoop = RateLoop {
            max_bits,
            bits_margin: if use_cbr {
                5
            } else {
                quotient(max_bits, 4)
            },
            use_cbr,
            iter: 0,
            found_lower: false,
            found_upper: false,
            n_bits_lower: 0,
            n_bits_upper: 0,
            gain_mult_lower: 0,
            gain_mult_upper: 0,
            gains_id_lower: -1,
            gains_id_upper: -1,
            gain_mult_q8: 256,
            gains_id,
            lambda_q10,
            gain_lock: [false;4],
            best_gain_mult: [0;4],
            best_sum: [0;4],
        };
        assert(r.gain_lock@ =~= seq![false, false, false, false]);
        assert(r.best_gain_mult@ =~= seq![0i32, 0i32, 0i32, 0i32]);
        assert(r.best_sum@ =~= seq![0i32, 0i32, 0i32, 0i32]);
        r
    }

    /// The bits of the current gains, if they are known.
    pub fn known_bits(&self) -> (r: TrialBits)
        ensures
            r == trial_bits(*self),
    {
        if self.gains_id == self.gains_id_lower {
            TrialBits::Known(self.n_bits_lower)
        } else if self.gains_id == self.gains_id_upper {
            TrialBits::Known(self.n_bits_upper)
        } else {
            TrialBits::Code
        }
    }

    /// Whether a trial is replaced by a frame without pulses: it is the last
    /// one, no trial has fitted, and it does not fit either.
    pub fn needs_empty_frame(&self, n_bits: i32) -> (r: bool)
        ensures
            r == (self.iter == MAX_RATE_ITERATIONS && !self.found_lower && n_bits > self.max_bits),
    {
        self.iter == MAX_RATE_ITERATIONS && !self.found_lower && n_bits > self.max_bits
    }

    /// Judges a trial of `n_bits` bits. Where another one follows, the search
    /// goes on with the pulses `sums` of the subframes.
    #[verifier::rlimit(60)]
    pub fn judge(&mut self, n_bits: i32, coded: bool, nb_subfr: usize, sums: &[i32; 4]) -> (r:
        RateVerdict)
        requires
            old(self).wf(),
            nb_subfr <= 4,
        ensures
            final(self).wf(),
            r == verdict(*old(self), n_bits as int, coded),
            match r {
                RateVerdict::Again { keep: _ } => rate_loop_next(
                    *old(self),
                    n_bits as int,
                    nb_subfr as int,
                    pulse_sums(*sums),
                    *final(self),
                ),
                _ => *final(self) == *old(self),
            },
    {
        let ghost s = *self;
        let ghost pulses = pulse_sums(*sums);
        if coded && !self.use_cbr && self.iter == 0 && n_bits <= self.max_bits {
            return RateVerdict::Accept;
        }
        if self.iter == MAX_RATE_ITERATIONS {
            if self.found_lower && (self.gains_id == self.gains_id_lower || n_bits
                > self.max_bits) {
                return RateVerdict::Restore;
            }
            return RateVerdict::Accept;
        }
        let over: bool = n_bits > self.max_bits;
        if !over && n_bits >= wsub(self.max_bits, self.bits_margin) {
            return RateVerdict::Accept;
        }
        let keep: bool = !over && self.gains_id != self.gains_id_lower;
        let mult: i32 = self.gain_mult_q8;
        if over {
            if !self.found_lower && self.iter >= 2 {
                proof {
                    lemma2_to64();
                }
                self.lambda_q10 = wadd(self.lambda_q10, shr32(self.lambda_q10, 1));
                self.found_upper = false;
                self.gains_id_upper = -1;
            } else {
                self.found_upper = true;
                self.n_bits_upper = n_bits;
                self.gain_mult_upper = mult;
                self.gains_id_upper = self.gains_id;
            }
        } else {
            self.found_lower = true;
            self.n_bits_lower = n_bits;
            self.gain_mult_lower = mult;
            self.gains_id_lower = self.gains_id;
        }
        let ghost e = enclosed(s, n_bits as int);
        assert(*self == e);
        assert(e.found_lower && e.found_upper ==> e.n_bits_upper != e.n_bits_lower);
        let next: i32 = self.next_mult(n_bits);
        if !self.found_lower && over {
            self.count_pulses(mult, nb_subfr, sums);
        }
        let ghost mid = *self;
        self.gain_mult_q8 = next;
        self.iter = self.iter + 1;
        proof {
            let counts = !e.found_lower && n_bits > s.max_bits;
            let counted = if counts {
                nb_subfr as int
            } else {
                0
            };
            assert forall|i: int| 0 <= i < 4 implies #[trigger] subframe_next(
                s,
                *self,
                pulses,
                counted,
                s.gain_mult_q8 as int,
                i,
            ) by {
                if counts {
                    assert(subframe_next(
                        e,
                        mid,
                        pulses,
                        nb_subfr as int,
                        s.gain_mult_q8 as int,
                        i,
                    ));
                }
            }
        }
        RateVerdict::Again { keep }
    }

    fn next_mult(&self, n_bits: i32) -> (r: i32)
        requires
            self.found_lower && self.found_upper ==> self.n_bits_upper != self.n_bits_lower,
        ensures
            r == next_gain_mult(*self, n_bits as int),
    {
        if self.found_lower && self.found_upper {
            let diff: i32 = wsub(self.gain_mult_upper, self.gain_mult_lower);
            let numerator: i32 = wmul(diff, wsub(self.max_bits, self.n_bits_lower));
            let denom: i32 = wsub(self.n_bits_upper, self.n_bits_lower);
            proof {
                lemma2_to64();
                lemma_wrapped_difference(self.n_bits_upper as int, self.n_bits_lower as int);
            }
            let at: i32 = wadd(self.gain_mult_lower, narrow32(divide(numerator, denom)));
            let quarter: i32 = shr32(diff, 2);
            let high: i32 = wadd(self.gain_mult_lower, quarter);
            let low: i32 = wsub(self.gain_mult_upper, quarter);
            if at > high {
                high
            } else if at < low {
                low
            } else {
                at
            }
        } else if n_bits > self.max_bits {
            let up: i32 = quotient(wmul(self.gain_mult_q8, 3), 2);
            if up < 1024 {
                up
            } else {
                1024
            }
        } else {
            let down: i32 = quotient(wmul(self.gain_mult_q8, 4), 5);
            if down > 64 {
                down
            } else {
                64
            }
        }
    }

    fn count_pulses(&mut self, mult: i32, nb_subfr: usize, sums: &[i32; 4])
        requires
            nb_subfr <= 4,
        ensures
            *final(self) == (RateLoop {
                gain_lock: final(self).gain_lock,
                best_gain_mult: final(self).best_gain_mult,
                best_sum: final(self).best_sum,
                ..*old(self)
            }),
            forall|i: int|
                0 <= i < 4 ==> #[trigger] subframe_next(
                    *old(self),
                    *final(self),
                    pulse_sums(*sums),
                    nb_subfr as int,
                    mult as int,
                    i,
                ),
    {
        let ghost s = *self;
        let ghost pulses = pulse_sums(*sums);
        let mut i: usize = 0;
        while i < nb_subfr
            invariant
                nb_subfr <= 4,
                i <= nb_subfr,
                s == *old(self),
                pulses == pulse_sums(*sums),
                *self == (RateLoop {
                    gain_lock: self.gain_lock,
                    best_gain_mult: self.best_gain_mult,
                    best_sum: self.best_sum,
                    ..s
                }),
                forall|j: int|
                    0 <= j < 4 ==> #[trigger] subframe_next(
                        s,
                        *self,
                        pulses,
                        i as int,
                        mult as int,
                        j,
                    ),
            decreases nb_subfr - i,
        {
            let ghost mid = *self;
            assert(subframe_next(s, mid, pulses, i as int, mult as int, i as int));
            if self.iter == 0 || (sums[i] < self.best_sum[i] && !self.gain_lock[i]) {
                self.best_sum[i] = sums[i];
                self.best_gain_mult[i] = mult;
            } else {
                self.gain_lock[i] = true;
            }
            assert forall|j: int| 0 <= j < 4 implies #[trigger] subframe_next(
                s,
                *self,
                pulses,
                i + 1,
                mult as int,
                j,
            ) by {
                assert(subframe_next(s, mid, pulses, i as int, mult as int, j));
            }
            i = i + 1;
        }
    }

    /// The gains (Q16) of the next trial.
    pub fn trial_gains(&self, gains_unq_q16: &[i32; 4], nb_subfr: usize) -> (r: [i32; 4])
        requires
            nb_subfr <= 4,
        ensures
            forall|i: int|
                0 <= i < nb_subfr ==> #[trigger] r[i] == trial_gain(
                    *self,
                    gains_unq_q16[i] as int,
                    i,
                ),
            forall|i: int| nb_subfr <= i < 4 ==> #[trigger] r[i] == 0,
    {
        let mut r: [i32; 4] = [0;4];
        for i in 0..nb_subfr
            invariant
                nb_subfr <= 4,
                forall|j: int|
                    0 <= j < i ==> #[trigger] r[j] == trial_gain(
                        *self,
                        gains_unq_q16[j] as int,
                        j,
                    ),
                forall|j: int| i <= j < 4 ==> #[trigger] r[j] == 0,
        {
            let mult: i32 = if self.gain_lock[i] {
                self.best_gain_mult[i]
            } else {
                self.gain_mult_q8
            };
            let product: i32 = smulwb(gains_unq_q16[i], mult);
            r[i] = crate::fixed::sat32(256 * product as i64);
        }
        r
    }

    /// Names the gains of the next trial.
    pub fn name_trial(&mut self, gains_id: i32)
        requires
            old(self).wf(),
        ensures
            *final(self) == (RateLoop { gains_id, ..*old(self) }),
            final(self).wf(),
    {
        self.gains_id = gains_id;
    }
}

proof fn lemma_wrapped_difference(a: int, b: int)
    requires
        a != b,
        -0x8000_0000 <= a <= 0x7fff_ffff,
        -0x8000_0000 <= b <= 0x7fff_ffff,
    ensures
        wrap32(a - b) != 0,
{
    reveal(wrap32);
    let d = a - b;
    if wrap32(d) == 0 {
        assert((d + 0x8000_0000) % 0x1_0000_0000 == 0x8000_0000);
    }
}

/// The name of gain indices: one byte for each subframe.
pub open spec fn gains_name(ind: Seq<int>, k: int) -> int
    decreases k,
{
    if k <= 0 {
        0
    } else {
        wrap32(ind[k - 1] + wrap32(256 * gains_name(ind, k - 1)))
    }
}

/// The name of the gain indices of the first `nb_subfr` subframes.
pub fn silk_gains_id(ind: &[i8; 4], nb_subfr: usize) -> (r: i32)
    requires
        nb_subfr <= 4,
    ensures
        r == gains_name(Seq::new(4, |i: int| ind[i] as int), nb_subfr as int),
{
    let ghost idx = Seq::new(4, |i: int| ind[i] as int);
    let mut id: i32 = 0;
    for k in 0..nb_subfr
        invariant
            nb_subfr <= 4,
            idx == Seq::new(4, |i: int| ind[i] as int),
            id == gains_name(idx, k as int),
    {
        id = wadd(ind[k] as i32, wmul(256, id));
    }
    id
}

pub open spec fn magnitude(v: int) -> int {
    if v < 0 {
        -v
    } else {
        v
    }
}

/// Sum of the magnitudes of `n` pulses from `at` on.
pub open spec fn pulse_sum(pulses: Seq<i8>, at: int, n: int) -> int
    decreases n,
{
    if n <= 0 {
        0
    } else {
        pulse_sum(pulses, at, n - 1) + magnitude(pulses[at + n - 1] as int)
    }
}

/// The pulses of each subframe.
pub fn count_subframe_pulses(pulses: &[i8], subfr_length: usize, nb_subfr: usize) -> (r: [i32; 4])
    requires
        nb_subfr <= 4,
        subfr_length <= 80,
        nb_subfr * subfr_length <= pulses@.len(),
    ensures
        forall|i: int|
            0 <= i < nb_subfr ==> #[trigger] r[i] == pulse_sum(
                pulses@,
                i * subfr_length,
                subfr_length as int,
            ),
        forall|i: int| nb_subfr <= i < 4 ==> #[trigger] r[i] == 0,
{
    let mut r: [i32; 4] = [0;4];
    let mut start: usize = 0;
    assert(0 * subfr_length == 0) by (nonlinear_arith);
    for i in 0..nb_subfr
        invariant
            nb_subfr <= 4,
            subfr_length <= 80,
            nb_subfr * subfr_length <= pulses@.len(),
            start == i * subfr_length,
            start <= 320,
            forall|j: int|
                0 <= j < i ==> #[trigger] r[j] == pulse_sum(
                    pulses@,
                    j * subfr_length,
                    subfr_length as int,
                ),
            forall|j: int| i <= j < 4 ==> #[trigger] r[j] == 0,
    {
        proof {
            assert((i + 1) * subfr_length == i * subfr_length + subfr_length) by (nonlinear_arith);
            assert((i + 1) * subfr_length <= nb_subfr * subfr_length) by (nonlinear_arith)
                requires
                    i + 1 <= nb_subfr,
                    subfr_length >= 0,
            ;
            assert((i + 1) * subfr_length <= 320) by (nonlinear_arith)
                requires
                    i + 1 <= 4,
                    0 <= subfr_length <= 80,
            ;
        }
        let mut sum: i32 = 0;
        for k in 0..subfr_length
            invariant
                subfr_length <= 80,
                start + subfr_length <= pulses@.len(),
                start <= 320,
                sum == pulse_sum(pulses@, start as int, k as int),
                0 <= sum <= 128 * k,
        {
            let v: i32 = pulses[start + k] as i32;
            sum = sum + if v < 0 {
                -v
            } else {
                v
            };
        }
        r[i] = sum;
        start = start + subfr_length;
    }
    r
}

/// `a` is channel `b` whose frame has no pulses: its gains stay as they were
/// before the frame, and the coding of lags and types starts from the state
/// before the trials.
pub open spec fn empty_from(
    b: EncoderChannelState,
    last_gain_index_prev: i8,
    coding: ConditionalCoding,
    ec_prev_lag_index: i16,
    ec_prev_signal_type: FrameSignalType,
    a: EncoderChannelState,
) -> bool {
    let c = b.common;
    &&& a == (EncoderChannelState {
        common: EncoderStateCommon {
            indices: SideInfoIndices {
                gains_indices: a.common.indices.gains_indices,
                ..c.indices
            },
            ec_prev_lag_index,
            ec_prev_signal_type,
            ..c
        },
        shape_state: EncoderShapeState { last_gain_index: last_gain_index_prev as i32 },
        ..b
    })
    &&& a.common.indices.gains_indices@ == Seq::new(
        4,
        |i: int|
            if i == 0 && coding != ConditionalCoding::Conditional {
                last_gain_index_prev
            } else if i < c.nb_subfr {
                4i8
            } else {
                c.indices.gains_indices[i]
            },
    )
}

/// Makes a frame that does not fit one without pulses: its gains stay as they
/// were before the frame, and the coding of lags and types starts from the
/// state before the trials.
pub fn make_frame_empty(
    encoder: &mut EncoderChannelState,
    last_gain_index_prev: i8,
    cond_coding: ConditionalCoding,
    ec_prev_lag_index: i16,
    ec_prev_signal_type: FrameSignalType,
)
    requires
        1 <= old(encoder).common.nb_subfr <= 4,
    ensures
        empty_from(
            *old(encoder),
            last_gain_index_prev,
            cond_coding,
            ec_prev_lag_index,
            ec_prev_signal_type,
            *final(encoder),
        ),
{
    let gains_indices: [i8; 4] = empty_gains(
        &encoder.common.indices.gains_indices,
        encoder.common.nb_subfr,
        last_gain_index_prev,
        cond_coding,
    );
    let indices: SideInfoIndices = SideInfoIndices { gains_indices, ..encoder.common.indices };
    encoder.common = EncoderStateCommon {
        indices,
        ec_prev_lag_index,
        ec_prev_signal_type,
        ..encoder.common
    };
    encoder.shape_state = EncoderShapeState { last_gain_index: last_gain_index_prev as i32 };
}

fn empty_gains(before: &[i8; 4], n: usize, last: i8, coding: ConditionalCoding) -> (r: [i8; 4])
    requires
        1 <= n <= 4,
    ensures
        r@ == Seq::new(
            4,
            |i: int|
                if i == 0 && coding != ConditionalCoding::Conditional {
                    last
                } else if i < n {
                    4i8
                } else {
                    before[i]
                },
        ),
{
    let mut gains: [i8; 4] = *before;
    for i in 0..n
        invariant
            n <= 4,
            forall|j: int|
                0 <= j < 4 ==> #[trigger] gains@[j] == if j < i {
                    4i8
                } else {
                    before@[j]
                },
    {
        gains[i] = 4;
    }
    match coding {
        ConditionalCoding::Conditional => {},
        _ => {
            gains[0] = last;
        },
    }
    assert(gains@ =~= Seq::new(
        4,
        |i: int|
            if i == 0 && coding != ConditionalCoding::Conditional {
                last
            } else if i < n {
                4i8
            } else {
                before[i]
            },
    ));
    gains
}

/// The frame fits: a trial that is accepted has at most `max_bits` bits, unless
/// it is the last one and none has fitted; a trial that is restored is one that
/// fitted. There are at most seven trials.
pub proof fn law_frame_fits(s: RateLoop, n_bits: int, coded: bool)
    requires
        s.wf(),
        i32::MIN <= n_bits <= i32::MAX,
    ensures
        match verdict(s, n_bits, coded) {
            RateVerdict::Accept => n_bits <= s.max_bits || (s.iter == MAX_RATE_ITERATIONS
                && !s.found_lower),
            RateVerdict::Restore => s.found_lower && s.n_bits_lower <= s.max_bits,
            RateVerdict::Again { keep } => s.iter < MAX_RATE_ITERATIONS && (keep ==> n_bits
                <= s.max_bits),
        },
{
}

// ---------------------------------------------------------------------
// Start and end
// ---------------------------------------------------------------------

/// `x` with `frame` from `at` on.
pub open spec fn with_samples(x: Seq<i16>, at: int, frame: Seq<i16>) -> Seq<i16> {
    Seq::new(
        x.len(),
        |i: int|
            if at <= i < at + frame.len() {
                frame[i - at]
            } else {
                x[i]
            },
    )
}

/// Where a frame stands in the analysis history.
pub open spec fn frame_offset(c: EncoderStateCommon) -> int {
    c.ltp_mem_length + 5 * c.fs_khz
}

/// The frame and its look-ahead fit the analysis history.
pub open spec fn history_ok(e: EncoderChannelState) -> bool {
    &&& 0 <= e.common.fs_khz <= 16
    &&& e.common.ltp_mem_length <= 320
    &&& e.common.frame_length <= 320
    &&& frame_offset(e.common) + e.common.frame_length <= e.x_buf@.len()
}

/// Starts a frame: its seed is the low part of the frame counter, and
/// `filtered`, the input without what lies above the cutoff, enters the
/// analysis history.
pub fn encode_frame_start(encoder: &mut EncoderChannelState, filtered: &[i16])
    requires
        history_ok(*old(encoder)),
        filtered@.len() == old(encoder).common.frame_length,
    ensures
        ({
            let b = old(encoder).common;
            let a = final(encoder).common;
            &&& *final(encoder) == (EncoderChannelState {
                common: a,
                x_buf: final(encoder).x_buf,
                ..*old(encoder)
            })
            &&& a == (EncoderStateCommon {
                frame_counter: a.frame_counter,
                indices: SideInfoIndices { seed: a.indices.seed, ..b.indices },
                ..b
            })
            &&& a.indices.seed == b.frame_counter % 4
            &&& a.frame_counter == wrap32(b.frame_counter + 1)
            &&& final(encoder).x_buf@ == with_samples(
                old(encoder).x_buf@,
                frame_offset(b),
                filtered@,
            )
        }),
{
    let counter: i32 = encoder.common.frame_counter;
    let n: usize = encoder.common.frame_length;
    let at: usize = encoder.common.ltp_mem_length + 5 * encoder.common.fs_khz as usize;
    encoder.common.indices.seed = seed_of(counter);
    encoder.common.frame_counter = wadd(counter, 1);
    let ghost c = encoder.common;
    let ghost before = encoder.x_buf@;
    for i in 0..n
        invariant
            n <= 320,
            at <= 400,
            n == filtered@.len(),
            at + n <= encoder.x_buf@.len(),
            before.len() == encoder.x_buf@.len(),
            encoder.common == c,
            *encoder == (EncoderChannelState { common: c, x_buf: encoder.x_buf, ..*old(encoder) }),
            forall|j: int|
                0 <= j < before.len() ==> #[trigger] encoder.x_buf@[j] == if at <= j < at + i {
                    filtered@[j - at]
                } else {
                    before[j]
                },
    {
        encoder.x_buf[at + i] = filtered[i];
    }
    assert(encoder.x_buf@ =~= with_samples(before, at as int, filtered@));
}

/// The low two bits of a counter.
fn seed_of(counter: i32) -> (r: i8)
    ensures
        r == counter % 4,
        0 <= r < 4,
{
    let low: i64 = (counter as i64 + 0x8000_0000) % 4;
    assert((counter + 0x8000_0000) % 4 == counter % 4);
    low as i8
}

/// Bytes that `bits` bits take.
pub open spec fn bytes_of(bits: int) -> int {
    (bits + 7) / 8
}

/// The channel after a frame: the history moves on by one frame, and the frame
/// becomes the last one, unless it only filled the history.
pub open spec fn frame_ended(
    b: EncoderChannelState,
    last_lag: i32,
    a: EncoderChannelState,
) -> bool {
    let n = b.common.frame_length as int;
    &&& a == (EncoderChannelState { common: a.common, x_buf: a.x_buf, ..b })
    &&& a.common == if b.common.prefill_flag {
        b.common
    } else {
        EncoderStateCommon {
            prev_lag: last_lag,
            prev_signal_type: b.common.indices.signal_type,
            first_frame_after_reset: false,
            ..b.common
        }
    }
    &&& a.x_buf@ == Seq::new(
        b.x_buf@.len(),
        |i: int|
            if i < frame_offset(b.common) {
                b.x_buf@[i + n]
            } else {
                b.x_buf@[i]
            },
    )
}

/// Ends a frame, and returns the bytes that are coded so far.
pub fn encode_frame_end(
    encoder: &mut EncoderChannelState,
    range_encoder: &RangeEncoder,
    last_lag: i32,
) -> (r: i32)
    requires
        history_ok(*old(encoder)),
        range_encoder.wf(),
    ensures
        frame_ended(*old(encoder), last_lag, *final(encoder)),
        r == if old(encoder).common.prefill_flag {
            0
        } else {
            bytes_of(enc_tell(range_encoder@))
        },
{
    let n: usize = encoder.common.frame_length;
    let kept: usize = encoder.common.ltp_mem_length + 5 * encoder.common.fs_khz as usize;
    let ghost before = encoder.x_buf@;
    let ghost c = encoder.common;
    for i in 0..kept
        invariant
            n <= 320,
            kept <= 400,
            kept + n <= encoder.x_buf@.len(),
            before.len() == encoder.x_buf@.len(),
            *encoder == (EncoderChannelState { x_buf: encoder.x_buf, ..*old(encoder) }),
            forall|j: int|
                0 <= j < before.len() ==> #[trigger] encoder.x_buf@[j] == if j < i {
                    before[j + n]
                } else {
                    before[j]
                },
    {
        encoder.x_buf[i] = encoder.x_buf[i + n];
    }
    assert(encoder.x_buf@ =~= Seq::new(
        before.len(),
        |i: int|
            if i < kept {
                before[i + n]
            } else {
                before[i]
            },
    ));
    if encoder.common.prefill_flag {
        return 0;
    }
    encoder.common.prev_lag = last_lag;
    encoder.common.prev_signal_type = encoder.common.indices.signal_type;
    encoder.common.first_frame_after_reset = false;
    (range_encoder.tell() + 7) / 8
}

} // verus!
