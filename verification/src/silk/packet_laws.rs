//! What the bookkeeping of coded packets amounts to.

use crate::fixed::{div_trunc, lemma_wrap32_range};
use crate::silk::check_control_input::EncControl;
use crate::silk::control_snr::snr_of;
use crate::silk::dec_api::{channel_coding, skip_coding, symbol_bit};
use crate::silk::decode_frame::DecodeFlag;
use crate::silk::decoder_state::DecoderState;
use crate::silk::enc_api::{
    bit, channel_budget, channel_flags, coding_of, frame_flags, lbrr_symbol, middle_of, next_input,
    packet_ended, packet_pauses, switch_threshold, Encoder, PacketState,
};
use crate::silk::encode_call::{faded, input_step, redundant_job, redundant_jobs, InputStep};
use crate::silk::encoder_state::EncoderStateCommon;
use vstd::prelude::*;

verus! {

proof fn lemma_packet_bits(ctl: EncControl)
    requires
        ctl.control_error() is None,
    ensures
        0 <= ctl.bit_rate * ctl.payload_size_ms <= 4800000,
{
    assert(0 <= ctl.bit_rate * ctl.payload_size_ms <= 4800000) by (nonlinear_arith)
        requires
            0 <= ctl.bit_rate <= 80000,
            0 <= ctl.payload_size_ms <= 60,
    ;
}

/// The surplus counts the bits that packets took above their rate: one that took
/// what the rate gives it leaves the surplus as it is, and each byte more adds eight
/// bits, between the limits.
pub proof fn law_surplus_counts_bits(
    b: PacketState,
    ctl: EncControl,
    bytes: int,
    more: int,
    activity: int,
)
    requires
        ctl.control_error() is None,
        0 <= b.n_bits_exceeded <= 10000,
        0 <= bytes <= more <= 100000,
    ensures
        ({
            let kept = packet_ended(b, ctl, bytes, activity).n_bits_exceeded;
            let other = packet_ended(b, ctl, more, activity).n_bits_exceeded;
            &&& 8000 * bytes == ctl.bit_rate * ctl.payload_size_ms ==> kept == b.n_bits_exceeded
            &&& kept <= other
            &&& 0 < kept && other < 10000 ==> other - kept == 8 * (more - bytes)
            &&& 0 < kept < 10000 ==> kept - b.n_bits_exceeded == 8 * bytes - ctl.bit_rate
                * ctl.payload_size_ms / 1000
        }),
{
    lemma_packet_bits(ctl);
    let rate = ctl.bit_rate * ctl.payload_size_ms / 1000;
    lemma_wrap32_range(bytes * 8);
    lemma_wrap32_range(more * 8);
    lemma_wrap32_range(b.n_bits_exceeded + bytes * 8);
    lemma_wrap32_range(b.n_bits_exceeded + more * 8);
    lemma_wrap32_range(b.n_bits_exceeded + bytes * 8 - rate);
    lemma_wrap32_range(b.n_bits_exceeded + more * 8 - rate);
}

/// The longer a change of bandwidth was not allowed, the sooner it is: after five
/// seconds at any activity, and at once only where there is next to none.
pub proof fn law_switch_is_allowed_in_time(waited: int, longer: int)
    requires
        0 <= waited <= longer <= 0x7fff_ffff,
    ensures
        switch_threshold(0) == 13,
        switch_threshold(waited) <= switch_threshold(longer),
        waited >= 5000 ==> switch_threshold(waited) >= 256,
{
    lemma_wrap32_range((3188 * waited + 0x8000) / 0x1_0000);
    lemma_wrap32_range((3188 * longer + 0x8000) / 0x1_0000);
    lemma_wrap32_range(13 + (3188 * waited + 0x8000) / 0x1_0000);
    lemma_wrap32_range(13 + (3188 * longer + 0x8000) / 0x1_0000);
    lemma_wrap32_range(0);
    lemma_wrap32_range(13);
}

/// No packet counts the time for which a change of bandwidth was not allowed
/// further than its own length, and one that allows it starts anew.
pub proof fn law_waiting_is_counted(b: PacketState, ctl: EncControl, bytes: int, activity: int)
    requires
        ctl.control_error() is None,
        0 <= b.time_since_switch_allowed_ms <= 0x7fff_ff00,
    ensures
        ({
            let a = packet_ended(b, ctl, bytes, activity);
            &&& a.allow_bandwidth_switch ==> a.time_since_switch_allowed_ms == 0
            &&& !a.allow_bandwidth_switch ==> a.time_since_switch_allowed_ms
                == b.time_since_switch_allowed_ms + ctl.payload_size_ms
            &&& activity < 13 ==> a.allow_bandwidth_switch
            &&& b.time_since_switch_allowed_ms >= 5000 && activity < 256
                ==> a.allow_bandwidth_switch
        }),
{
    let waited = b.time_since_switch_allowed_ms as int;
    law_switch_is_allowed_in_time(0, waited);
    law_switch_is_allowed_in_time(waited, waited);
    lemma_wrap32_range(b.time_since_switch_allowed_ms + ctl.payload_size_ms);
}

/// The last block of a packet may take all that is left; the first of several takes
/// no more than three fifths, and later ones no less than earlier ones. A middle
/// leaves half of a block's part to its side, and is then not filled up.
pub proof fn law_budget_is_shared(ctl: EncControl, tot: int, block: int, n: int, side_rate: int)
    requires
        1 <= tot <= 3,
        0 <= block < tot,
        0 <= ctl.max_bits <= 0x1000_0000,
        0 <= n <= 1,
    ensures
        ({
            let (bits, full) = channel_budget(ctl, tot, block, n, side_rate);
            let (plain, whole) = channel_budget(ctl, tot, block, 1, side_rate);
            let shares = n == 0 && ctl.n_channels_internal == 2 && side_rate > 0;
            &&& 0 <= plain <= ctl.max_bits
            &&& block == tot - 1 ==> plain == ctl.max_bits
            &&& block == 0 && tot > 1 ==> 5 * plain <= 3 * ctl.max_bits
            &&& block + 1 < tot ==> plain <= channel_budget(ctl, tot, block + 1, 1, side_rate).0
            &&& whole == (ctl.use_cbr != 0 && block == tot - 1)
            &&& !shares ==> bits == plain && full == whole
            &&& shares ==> bits == plain - ctl.max_bits as int / (2 * tot) && !full
        }),
{
    let most = ctl.max_bits as int;
    lemma_wrap32_range(most * 3);
    lemma_wrap32_range(most * 2);
    if tot == 1 {
        lemma_wrap32_range(most - most / 2);
    } else if tot == 2 {
        lemma_wrap32_range(most - most / 4);
        lemma_wrap32_range(most * 3 / 5 - most / 4);
    } else {
        lemma_wrap32_range(most - most / 6);
        lemma_wrap32_range(most * 2 / 5 - most / 6);
        lemma_wrap32_range(most * 3 / 4 - most / 6);
    }
}

/// What is buffered fits behind what the frame holds, and stands for the same time
/// at both sample rates where the input has a whole number of samples for it.
pub proof fn law_input_fills_the_frame(c: EncoderStateCommon, blocks: int)
    requires
        c.fs_khz == 8 || c.fs_khz == 12 || c.fs_khz == 16,
        0 <= c.api_sample_rate_hz <= 48000,
        0 <= blocks <= 6,
        c.input_buf_ix <= c.frame_length,
    ensures
        ({
            let (n, input) = next_input(c, blocks);
            &&& 0 <= n <= c.frame_length - c.input_buf_ix
            &&& n <= 10 * blocks * c.fs_khz
            &&& n == c.frame_length - c.input_buf_ix || n == 10 * blocks * c.fs_khz
            &&& (n * c.api_sample_rate_hz) % (1000 * c.fs_khz) == 0 ==> input * (1000 * c.fs_khz)
                == n * c.api_sample_rate_hz
        }),
{
    let (n, input) = next_input(c, blocks);
    let d = 1000 * c.fs_khz;
    assert(10 * blocks * c.fs_khz >= 0) by (nonlinear_arith)
        requires
            blocks >= 0,
            c.fs_khz >= 0,
    ;
    let v = n * c.api_sample_rate_hz;
    vstd::arithmetic::div_mod::lemma_fundamental_div_mod(v, d as int);
    assert(d * (v / (d as int)) == (v / (d as int)) * d) by (nonlinear_arith);
}

/// The middle of two samples lies between them, whichever comes first.
pub proof fn law_middle_lies_between(left: int, right: int)
    ensures
        middle_of(left, right) == middle_of(right, left),
        middle_of(left, left) == left,
        left <= right ==> left <= middle_of(left, right) <= right,
        0 <= 2 * middle_of(left, right) - (left + right) <= 1,
{
}

/// A decoder reads from the symbol of the redundant frames the flags that it was
/// made of.
pub proof fn law_redundancy_flags_read_back(flags: Seq<bool>, frames: int, i: int)
    requires
        1 <= frames <= 3,
        0 <= i < frames,
        flags.len() == 3,
    ensures
        symbol_bit(lbrr_symbol(flags, frames), i) == bit(flags[i]),
        lbrr_symbol(flags, frames) == 0 <==> (forall|j: int|
            0 <= j < frames ==> !#[trigger] flags[j]),
{
    let s = lbrr_symbol(flags, frames);
    if s == 0 {
        assert forall|j: int| 0 <= j < frames implies !#[trigger] flags[j] by {
            assert(j == 0 || j == 1 || j == 2);
        }
    } else {
        assert(flags[0] || frames > 1 && flags[1] || frames > 2 && flags[2]);
    }
}

/// The flags in front of a packet stand in the order of the frames, that of the
/// redundancy behind them.
pub proof fn law_flags_stand_in_order(vad: Seq<bool>, lbrr: bool)
    ensures
        channel_flags(vad, lbrr, 1) == 2 * bit(vad[0]) + bit(lbrr),
        channel_flags(vad, lbrr, 2) == 4 * bit(vad[0]) + 2 * bit(vad[1]) + bit(lbrr),
        channel_flags(vad, lbrr, 3) == 8 * bit(vad[0]) + 4 * bit(vad[1]) + 2 * bit(vad[2]) + bit(
            lbrr,
        ),
{
    reveal_with_fuel(frame_flags, 4);
}

/// Encoder and decoder agree on how a frame relates to the one before: the decoder
/// counts the frames of a side from the one behind the middle's first.
pub proof fn law_codings_agree(frames: int, n: int, only_middle_before: bool, flags: Seq<i32>)
    requires
        0 <= n <= 1,
    ensures
        coding_of(frames, n, only_middle_before) == channel_coding(
            flags,
            frames - n,
            n,
            only_middle_before,
            DecodeFlag::Normal,
        ),
{
}

/// They agree on redundant frames too, also on those that a decoder skips.
pub proof fn law_redundant_codings_agree(flags: Seq<bool>, c: DecoderState, frame: int, channel: int)
    requires
        0 <= frame < 3,
        0 <= channel <= 1,
        flags.len() == 3,
        forall|i: int| 0 <= i < 3 ==> #[trigger] c.lbrr_flags[i] == bit(flags[i]),
    ensures
        redundant_job(flags, frame, channel).coding == skip_coding(c, frame),
        redundant_job(flags, frame, channel).coding == channel_coding(
            c.lbrr_flags@,
            frame,
            channel,
            false,
            DecodeFlag::Lbrr,
        ),
{
    if frame > 0 {
        assert(c.lbrr_flags[frame - 1] == bit(flags[frame - 1]));
    }
}

/// Every frame that is marked is sent again, and no other: a job of a channel
/// stands for a marked frame of it, and each has one.
pub proof fn law_marked_frames_are_sent(mid: Seq<bool>, side: Seq<bool>, stereo: bool, k: nat)
    requires
        k <= 3,
        mid.len() == 3,
        side.len() == 3,
    ensures
        forall|i: int|
            0 <= i < redundant_jobs(mid, side, stereo, k).len() ==> {
                let job = #[trigger] redundant_jobs(mid, side, stereo, k)[i];
                &&& job.frame < k
                &&& job.channel == 0 && mid[job.frame as int] || job.channel == 1 && stereo
                    && side[job.frame as int]
            },
        forall|f: int|
            0 <= f < k && #[trigger] mid[f] ==> redundant_jobs(mid, side, stereo, k).contains(
                redundant_job(mid, f, 0),
            ),
        stereo ==> forall|f: int|
            0 <= f < k && #[trigger] side[f] ==> redundant_jobs(mid, side, stereo, k).contains(
                redundant_job(side, f, 1),
            ),
    decreases k,
{
    if k > 0 {
        let t = (k - 1) as nat;
        law_marked_frames_are_sent(mid, side, stereo, t);
        let before = redundant_jobs(mid, side, stereo, t);
        let jobs = redundant_jobs(mid, side, stereo, k);
        let with_mid = if mid[t as int] {
            before.push(redundant_job(mid, t as int, 0))
        } else {
            before
        };
        assert forall|i: int| 0 <= i < jobs.len() implies {
            let job = #[trigger] jobs[i];
            &&& job.frame < k
            &&& job.channel == 0 && mid[job.frame as int] || job.channel == 1 && stereo
                && side[job.frame as int]
        } by {
            if i < before.len() {
                assert(jobs[i] == before[i]);
            }
        }
        assert forall|f: int| 0 <= f < k && #[trigger] mid[f] implies jobs.contains(
            redundant_job(mid, f, 0),
        ) by {
            if f < t {
                let i = choose|i: int|
                    0 <= i < before.len() && before[i] == redundant_job(mid, f, 0);
                assert(jobs[i] == before[i]);
            } else {
                assert(jobs[before.len() as int] == redundant_job(mid, f, 0));
            }
        }
        if stereo {
            assert forall|f: int| 0 <= f < k && #[trigger] side[f] implies jobs.contains(
                redundant_job(side, f, 1),
            ) by {
                if f < t {
                    let i = choose|i: int|
                        0 <= i < before.len() && before[i] == redundant_job(side, f, 1);
                    assert(jobs[i] == before[i]);
                } else {
                    assert(jobs[with_mid.len() as int] == redundant_job(side, f, 1));
                }
            }
        }
    }
}

/// Where two signals are faded into one, each sample lies between theirs, and what
/// both have stays.
pub proof fn law_faded_lies_between(
    buf: Seq<i16>,
    at: int,
    other: Seq<i16>,
    from: int,
    n: int,
    i: int,
)
    requires
        0 <= at <= i < at + n <= buf.len(),
        0 <= from,
        from + n <= other.len(),
    ensures
        ({
            let a = buf[i];
            let b = other[from + i - at];
            let r = faded(buf, at, other, from, n)[i];
            &&& a <= b ==> a <= r <= b
            &&& b <= a ==> b <= r <= a
            &&& -1 <= 2 * r - (a + b) <= 0
        }),
{
}

/// The two sides of a stereo input, put together again, are the input.
pub proof fn law_sides_are_the_input(
    e: Encoder,
    ctl: EncControl,
    blocks: int,
    samples: Seq<i16>,
    offset: int,
    r: InputStep,
    j: int,
)
    requires
        ctl.n_channels_api == 2,
        ctl.n_channels_internal == 2,
        input_step(e, ctl, blocks, samples, offset, r),
        0 <= j < 2 * r.taken,
    ensures
        r.side is Some,
        samples[offset + j] == if j % 2 == 0 {
            r.mid@[j / 2]
        } else {
            (r.side->0)@[j / 2]
        },
{
    let i = j / 2;
    assert(0 <= i < r.taken);
    assert(r.mid@[i] == samples[offset + 2 * i]);
    assert((r.side->0)@[i] == samples[offset + 2 * i + 1]);
}

/// Nothing is sent only where all channels pause.
pub proof fn law_packet_pauses_with_all(e: Encoder)
    ensures
        packet_pauses(e, 1) <==> e.mid.common.in_dtx,
        packet_pauses(e, 2) ==> e.mid.common.in_dtx && e.side.common.in_dtx,
        e.mid.common.in_dtx && e.side.common.in_dtx ==> packet_pauses(e, 2),
{
}

/// Short frames need more for the same quality: one of 10 ms is as good as a longer one
/// at 2000 bits per second less, and one more at 16 kHz.
pub proof fn law_short_frames_need_more(fs_khz: int, rate: int)
    requires
        fs_khz == 8 || fs_khz == 12 || fs_khz == 16,
        0 <= rate <= 100000,
    ensures
        snr_of(fs_khz, 2, rate + 2000 + fs_khz / 16) == snr_of(fs_khz, 4, rate),
{
    lemma_wrap32_range(rate);
    assert(div_trunc(fs_khz, 16) == fs_khz / 16);
}

} // verus!
