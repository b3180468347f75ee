//! How the bitrate of a multistream packet is shared among its streams.
//!
//! All quantities are 32-bit: a value that leaves their range is reduced to it.
use crate::channel_layout::{ChannelLayout, MappingType};
use crate::fixed::{
    clamped, div_trunc, divide, lemma_wrap32_range, quotient, shr32, wadd, wmul, wrap32, wsub,
};
use crate::opus_encoder::{OPUS_AUTO, OPUS_BITRATE_MAX};
use crate::packet::sum_to;
use vstd::arithmetic::div_mod::{lemma_fundamental_div_mod, lemma_mod_bound};
use vstd::arithmetic::power2::lemma2_to64;
use vstd::prelude::*;

verus! {

/// The parts of which the rates of surround streams are made.
pub struct SurroundShares {
    /// Fixed part of each channel.
    pub channel_offset: int,
    /// Fixed part of the low frequency stream.
    pub lfe_offset: int,
    /// Fixed part of each other stream.
    pub stream_offset: int,
    /// What is left for a channel.
    pub channel_rate: int,
}

/// Streams that are neither coupled nor carry low frequencies.
pub open spec fn plain_streams(l: ChannelLayout, lfe: Option<int>) -> int {
    l.nb_streams - l.nb_coupled_streams - lfe_count(lfe)
}

pub open spec fn lfe_count(lfe: Option<int>) -> int {
    if lfe is Some {
        1
    } else {
        0
    }
}

/// Channels in all streams but the low frequency one.
pub open spec fn full_channels(l: ChannelLayout, lfe: Option<int>) -> int {
    2 * l.nb_coupled_streams + plain_streams(l, lfe)
}

/// Rates can be divided by a frame of `frame_size` samples, which counts as the
/// 32-bit number that it is reduced to.
pub open spec fn frame_divides(frame_size: int, sample_rate: int) -> bool {
    frame_size == 0 || sample_rate <= 0 || (wrap32(frame_size) != 0 && !(wrap32(frame_size) == -1
        && wrap32(60 * sample_rate) == i32::MIN))
}

/// At least 50 frames in a second.
pub open spec fn bounded_frame_rate(frame_size: int, sample_rate: int) -> int {
    let rate = div_trunc(sample_rate, wrap32(frame_size));
    if rate > 50 {
        rate
    } else {
        50
    }
}

/// The bitrate that is shared.
pub open spec fn surround_total(
    l: ChannelLayout,
    lfe: Option<int>,
    bps: int,
    sample_rate: int,
    channel_offset: int,
) -> int {
    if bps == OPUS_AUTO {
        wrap32(
            wrap32(
                full_channels(l, lfe) * wrap32(wrap32(channel_offset + sample_rate) + 10000),
            ) + 8000 * lfe_count(lfe),
        )
    } else if bps == OPUS_BITRATE_MAX {
        full_channels(l, lfe) * 300000 + lfe_count(lfe) * 128000
    } else {
        bps
    }
}

/// Weight of all streams: 256 for each plain stream, 512 for each coupled one
/// and 32 for the low frequency stream.
pub open spec fn stream_weight(l: ChannelLayout, lfe: Option<int>) -> int {
    256 * plain_streams(l, lfe) + 512 * l.nb_coupled_streams + 32 * lfe_count(lfe)
}

/// The parts of the rates; none where there is no channel, no frame or no
/// rate to share it by.
pub open spec fn surround_shares(
    l: ChannelLayout,
    bps: int,
    lfe: Option<int>,
    frame_size: int,
    sample_rate: int,
) -> Option<SurroundShares> {
    let normal = full_channels(l, lfe);
    let lfes = lfe_count(lfe);
    if l.nb_streams == 0 || plain_streams(l, lfe) < 0 || l.nb_coupled_streams > l.nb_streams
        || frame_size == 0 || sample_rate <= 0 || normal == 0 {
        None
    } else {
        let rate = bounded_frame_rate(frame_size, sample_rate);
        let channel_offset = wrap32(40 * rate);
        let total = surround_total(l, lfe, bps, sample_rate, channel_offset);
        let twentieth = div_trunc(total, 20);
        let lfe_offset = (if twentieth < 3000 {
            twentieth
        } else {
            3000
        }) + wrap32(15 * rate);
        if lfe_offset > i32::MAX || lfe_offset < i32::MIN {
            None
        } else {
            let channels_part = wrap32(channel_offset * normal);
            let lfe_part = wrap32(lfe_offset * lfes);
            let stream_offset = clamped(
                div_trunc(div_trunc(wrap32(wrap32(total - channels_part) - lfe_part), normal), 2),
                0,
                20000,
            );
            let rest = wrap32(
                wrap32(
                    wrap32(total - lfe_part) - wrap32(
                        stream_offset * (l.nb_coupled_streams + plain_streams(l, lfe)),
                    ),
                ) - channels_part,
            );
            Some(
                SurroundShares {
                    channel_offset,
                    lfe_offset,
                    stream_offset,
                    channel_rate: div_trunc(wrap32(256 * rest), stream_weight(l, lfe)),
                },
            )
        }
    }
}

pub open spec fn not_negative(v: int) -> int {
    if v > 0 {
        v
    } else {
        0
    }
}

/// The rate of stream `s`.
pub open spec fn surround_rate(l: ChannelLayout, lfe: Option<int>, p: SurroundShares, s: int) -> int {
    if s < l.nb_coupled_streams {
        wrap32(
            wrap32(2 * p.channel_offset) + not_negative(
                wrap32(p.stream_offset + wrap32(p.channel_rate * 512) / 256),
            ),
        )
    } else if lfe == Some(s) {
        not_negative(wrap32(p.lfe_offset + wrap32(p.channel_rate * 32) / 256))
    } else {
        wrap32(p.channel_offset + not_negative(wrap32(p.stream_offset + p.channel_rate)))
    }
}

/// The bitrate that ambisonics streams share.
pub open spec fn ambisonics_total(
    l: ChannelLayout,
    bps: int,
    frame_size: int,
    sample_rate: int,
) -> int {
    let channels = l.nb_streams + l.nb_coupled_streams;
    if bps == OPUS_AUTO {
        wrap32(
            wrap32(
                channels * wrap32(
                    sample_rate + div_trunc(wrap32(60 * sample_rate), wrap32(frame_size)),
                ),
            ) + l.nb_streams * 15000,
        )
    } else if bps == OPUS_BITRATE_MAX {
        channels * 320000
    } else {
        bps
    }
}

/// The rate of each stream before the floor of 500 bits per second; none where
/// nothing can be shared.
pub open spec fn shared_rates(
    l: ChannelLayout,
    kind: MappingType,
    bps: int,
    lfe: Option<int>,
    frame_size: int,
    sample_rate: int,
) -> Option<Seq<int>> {
    match kind {
        MappingType::Ambisonics => if frame_size == 0 || sample_rate <= 0 || l.nb_streams == 0 {
            None
        } else {
            Some(
                Seq::new(
                    l.nb_streams as nat,
                    |s: int|
                        div_trunc(
                            ambisonics_total(l, bps, frame_size, sample_rate),
                            l.nb_streams as int,
                        ),
                ),
            )
        },
        _ => match surround_shares(l, bps, lfe, frame_size, sample_rate) {
            Some(p) => Some(
                Seq::new(l.nb_streams as nat, |s: int| surround_rate(l, lfe, p, s)),
            ),
            None => None,
        },
    }
}

/// A rate that is not below the floor.
pub open spec fn floored(rate: int) -> int {
    if rate > 500 {
        rate
    } else {
        500
    }
}

pub open spec fn floored_rates(rates: Seq<int>) -> Seq<int> {
    Seq::new(rates.len(), |s: int| floored(rates[s]))
}

pub open spec fn stream_index(s: Option<usize>) -> Option<int> {
    match s {
        Some(v) => Some(v as int),
        None => None,
    }
}

struct Shares {
    channel_offset: i32,
    lfe_offset: i32,
    stream_offset: i32,
    channel_rate: i32,
}

impl Shares {
    spec fn model(self) -> SurroundShares {
        SurroundShares {
            channel_offset: self.channel_offset as int,
            lfe_offset: self.lfe_offset as int,
            stream_offset: self.stream_offset as int,
            channel_rate: self.channel_rate as int,
        }
    }
}

/// A frame size as the 32-bit number that it is reduced to.
fn reduced_frame(frame_size: usize) -> (r: i32)
    ensures
        r == wrap32(frame_size as int),
{
    proof {
        reveal(wrap32);
    }
    let low: u64 = frame_size as u64 % 0x1_0000_0000;
    if low >= 0x8000_0000 {
        (low as i64 - 0x1_0000_0000) as i32
    } else {
        low as i32
    }
}

fn machine_quotient(a: i32, b: i32) -> (r: i32)
    requires
        b != 0,
        !(a == i32::MIN && b == -1),
    ensures
        r == div_trunc(a as int, b as int),
{
    proof {
        let ua = if a >= 0 {
            a as int
        } else {
            -(a as int)
        };
        let ub = if b >= 0 {
            b as int
        } else {
            -(b as int)
        };
        vstd::arithmetic::div_mod::lemma_div_is_ordered_by_denominator(ua, 1, ub);
        if ub >= 2 {
            vstd::arithmetic::div_mod::lemma_div_is_ordered_by_denominator(ua, 2, ub);
        }
    }
    divide(a, b) as i32
}

fn plan_surround(
    layout: &ChannelLayout,
    bitrate_bps: i32,
    lfe_stream: Option<usize>,
    frame_size: usize,
    sample_rate: i32,
) -> (r: Option<Shares>)
    requires
        layout.valid(),
        frame_divides(frame_size as int, sample_rate as int),
    ensures
        match surround_shares(
            *layout,
            bitrate_bps as int,
            stream_index(lfe_stream),
            frame_size as int,
            sample_rate as int,
        ) {
            Some(p) => r is Some && r->0.model() == p,
            None => r is None,
        },
{
    let ghost lfe = stream_index(lfe_stream);
    let streams: i32 = layout.nb_streams as i32;
    let coupled: i32 = layout.nb_coupled_streams as i32;
    let lfes: i32 = if lfe_stream.is_some() {
        1
    } else {
        0
    };
    if streams == 0 || coupled > streams || streams < coupled + lfes {
        return None;
    }
    if frame_size == 0 || sample_rate <= 0 {
        return None;
    }
    let plain: i32 = streams - coupled - lfes;
    let normal: i32 = 2 * coupled + plain;
    if normal == 0 {
        return None;
    }
    assert(plain == plain_streams(*layout, lfe));
    assert(normal == full_channels(*layout, lfe));
    let frame_rate: i32 = machine_quotient(sample_rate, reduced_frame(frame_size));
    let rate: i32 = if frame_rate > 50 {
        frame_rate
    } else {
        50
    };
    let channel_offset: i32 = wmul(40, rate);
    let total: i32 = if bitrate_bps == OPUS_AUTO {
        wadd(wmul(normal, wadd(wadd(channel_offset, sample_rate), 10000)), 8000 * lfes)
    } else if bitrate_bps == OPUS_BITRATE_MAX {
        normal * 300000 + lfes * 128000
    } else {
        bitrate_bps
    };
    let twentieth: i32 = quotient(total, 20);
    let bounded: i32 = if twentieth < 3000 {
        twentieth
    } else {
        3000
    };
    let lfe_offset: i32 = match bounded.checked_add(wmul(15, rate)) {
        Some(v) => v,
        None => return None,
    };
    let channels_part: i32 = wmul(channel_offset, normal);
    let lfe_part: i32 = wmul(lfe_offset, lfes);
    let half: i32 = quotient(quotient(wsub(wsub(total, channels_part), lfe_part), normal), 2);
    let stream_offset: i32 = if half < 0 {
        0
    } else if half > 20000 {
        20000
    } else {
        half
    };
    let rest: i32 = wsub(
        wsub(wsub(total, lfe_part), wmul(stream_offset, coupled + plain)),
        channels_part,
    );
    let weight: i32 = 256 * plain + 512 * coupled + 32 * lfes;
    Some(
        Shares {
            channel_offset,
            lfe_offset,
            stream_offset,
            channel_rate: quotient(wmul(256, rest), weight),
        },
    )
}

fn max0(v: i32) -> (r: i32)
    ensures
        r == not_negative(v as int),
{
    if v > 0 {
        v
    } else {
        0
    }
}

fn rate_of_stream(
    layout: &ChannelLayout,
    lfe_stream: Option<usize>,
    shares: &Shares,
    stream: usize,
) -> (r: i32)
    ensures
        r == surround_rate(*layout, stream_index(lfe_stream), shares.model(), stream as int),
{
    proof {
        lemma2_to64();
    }
    if stream < layout.nb_coupled_streams {
        return wadd(
            wmul(2, shares.channel_offset),
            max0(wadd(shares.stream_offset, shr32(wmul(shares.channel_rate, 512), 8))),
        );
    }
    if let Some(lfe) = lfe_stream {
        if lfe == stream {
            return max0(wadd(shares.lfe_offset, shr32(wmul(shares.channel_rate, 32), 8)));
        }
    }
    wadd(shares.channel_offset, max0(wadd(shares.stream_offset, shares.channel_rate)))
}

/// The rates of all streams before the floor.
fn unfloored_rates(
    layout: &ChannelLayout,
    mapping_type: MappingType,
    bitrate_bps: i32,
    lfe_stream: Option<usize>,
    frame_size: usize,
    sample_rate: i32,
) -> (r: Option<Vec<i32>>)
    requires
        layout.valid(),
        frame_divides(frame_size as int, sample_rate as int),
    ensures
        match shared_rates(
            *layout,
            mapping_type,
            bitrate_bps as int,
            stream_index(lfe_stream),
            frame_size as int,
            sample_rate as int,
        ) {
            Some(rates) => r is Some && r->0@.len() == rates.len() && forall|s: int|
                0 <= s < rates.len() ==> #[trigger] r->0@[s] == rates[s],
            None => r is None,
        },
{
    let mut rates: Vec<i32> = Vec::new();
    let streams: usize = layout.nb_streams;
    match mapping_type {
        MappingType::Ambisonics => {
            if frame_size == 0 || sample_rate <= 0 || streams == 0 {
                return None;
            }
            let channels: i32 = (streams + layout.nb_coupled_streams) as i32;
            let total: i32 = if bitrate_bps == OPUS_AUTO {
                let term: i32 = wadd(
                    sample_rate,
                    machine_quotient(wmul(60, sample_rate), reduced_frame(frame_size)),
                );
                wadd(wmul(channels, term), streams as i32 * 15000)
            } else if bitrate_bps == OPUS_BITRATE_MAX {
                channels * 320000
            } else {
                bitrate_bps
            };
            let each: i32 = quotient(total, streams as i32);
            for s in 0..streams
                invariant
                    rates@.len() == s,
                    forall|t: int| 0 <= t < s ==> #[trigger] rates@[t] == each,
            {
                rates.push(each);
            }
            Some(rates)
        },
        _ => {
            match plan_surround(layout, bitrate_bps, lfe_stream, frame_size, sample_rate) {
                Some(shares) => {
                    for s in 0..streams
                        invariant
                            rates@.len() == s,
                            forall|t: int|
                                0 <= t < s ==> #[trigger] rates@[t] == surround_rate(
                                    *layout,
                                    stream_index(lfe_stream),
                                    shares.model(),
                                    t,
                                ),
                    {
                        rates.push(rate_of_stream(layout, lfe_stream, &shares, s));
                    }
                    Some(rates)
                },
                None => None,
            }
        },
    }
}

/// Shares the bitrate among the streams and returns the sum of their rates;
/// none where nothing can be shared or the sum is not a 32-bit number.
pub fn rate_allocation(
    layout: &ChannelLayout,
    mapping_type: MappingType,
    bitrate_bps: i32,
    lfe_stream: Option<usize>,
    frame_size: usize,
    sample_rate: i32,
    rates: &mut [i32],
) -> (r: Option<i32>)
    requires
        layout.valid(),
        frame_divides(frame_size as int, sample_rate as int),
    ensures
        final(rates)@.len() == old(rates)@.len(),
        match shared_rates(
            *layout,
            mapping_type,
            bitrate_bps as int,
            stream_index(lfe_stream),
            frame_size as int,
            sample_rate as int,
        ) {
            Some(shared) if layout.nb_streams <= old(rates)@.len() => {
                let given = floored_rates(shared);
                let n = layout.nb_streams as int;
                &&& forall|s: int| 0 <= s < n ==> #[trigger] final(rates)@[s] == given[s]
                &&& forall|s: int|
                    n <= s < old(rates)@.len() ==> #[trigger] final(rates)@[s] == old(rates)@[s]
                &&& r == (if sum_to(given, n) <= i32::MAX {
                    Some(sum_to(given, n) as i32)
                } else {
                    None
                })
            },
            _ => r is None && final(rates)@ == old(rates)@,
        },
{
    let streams: usize = layout.nb_streams;
    if rates.len() < streams {
        return None;
    }
    let shared: Vec<i32> = match unfloored_rates(
        layout,
        mapping_type,
        bitrate_bps,
        lfe_stream,
        frame_size,
        sample_rate,
    ) {
        Some(v) => v,
        None => return None,
    };
    let ghost given = floored_rates(
        shared_rates(
            *layout,
            mapping_type,
            bitrate_bps as int,
            stream_index(lfe_stream),
            frame_size as int,
            sample_rate as int,
        )->0,
    );
    let mut sum: i64 = 0;
    for s in 0..streams
        invariant
            streams <= 255,
            streams == given.len(),
            shared@.len() == streams,
            rates@.len() == old(rates)@.len(),
            streams <= rates@.len(),
            forall|t: int| 0 <= t < streams ==> given[t] == #[trigger] floored(shared@[t] as int),
            forall|t: int| 0 <= t < s ==> #[trigger] rates@[t] == given[t],
            forall|t: int| s <= t < rates@.len() ==> #[trigger] rates@[t] == old(rates)@[t],
            sum == sum_to(given, s as int),
            0 <= sum <= s * 0x7fff_ffff,
    {
        let rate: i32 = if shared[s] > 500 {
            shared[s]
        } else {
            500
        };
        assert(given[s as int] == floored(shared@[s as int] as int));
        rates[s] = rate;
        sum = sum + rate as i64;
    }
    if sum <= 0x7fff_ffff {
        Some(sum as i32)
    } else {
        None
    }
}

/// No stream is given less than 500 bits per second, and ambisonics streams
/// are all given the same.
pub proof fn law_rates_have_a_floor(
    l: ChannelLayout,
    kind: MappingType,
    bps: int,
    lfe: Option<int>,
    frame_size: int,
    sample_rate: int,
)
    requires
        shared_rates(l, kind, bps, lfe, frame_size, sample_rate) is Some,
    ensures
        ({
            let given = floored_rates(
                shared_rates(l, kind, bps, lfe, frame_size, sample_rate)->0,
            );
            &&& given.len() == l.nb_streams
            &&& forall|s: int| 0 <= s < given.len() ==> #[trigger] given[s] >= 500
            &&& kind == MappingType::Ambisonics ==> forall|s: int, t: int|
                0 <= s < given.len() && 0 <= t < given.len() ==> given[s] == given[t]
        }),
{
}

/// Equal rates sum to a multiple.
proof fn lemma_sum_of_equal(given: Seq<int>, v: int, n: int)
    requires
        0 <= n <= given.len(),
        forall|s: int| 0 <= s < given.len() ==> #[trigger] given[s] == v,
    ensures
        sum_to(given, n) == n * v,
    decreases n,
{
    if n > 0 {
        lemma_sum_of_equal(given, v, n - 1);
        assert(n * v == (n - 1) * v + v) by (nonlinear_arith);
    } else {
        assert(0 * v == 0);
    }
}

/// Ambisonics streams share what they are given: an explicit bitrate of at least
/// 500 per stream is handed out but for less than one bit per second and stream.
pub proof fn law_ambisonics_streams_share_the_bitrate(
    l: ChannelLayout,
    bps: int,
    lfe: Option<int>,
    frame_size: int,
    sample_rate: int,
)
    requires
        frame_size != 0,
        sample_rate > 0,
        l.nb_streams > 0,
        bps != OPUS_AUTO,
        bps != OPUS_BITRATE_MAX,
        bps >= 500 * l.nb_streams,
    ensures
        ({
            let shared = shared_rates(l, MappingType::Ambisonics, bps, lfe, frame_size, sample_rate);
            let n = l.nb_streams as int;
            &&& shared is Some
            &&& floored_rates(shared->0).len() == n
            &&& bps - n < sum_to(floored_rates(shared->0), n) <= bps
        }),
{
    lemma_shared_equally(l, bps, lfe, frame_size, sample_rate);
}

/// Without an explicit bitrate ambisonics streams share 15000 bits per second for
/// each stream, and for each channel its sample rate and 60 bits per frame; where
/// all that fits is asked for, 320000 bits per second for each channel.
pub proof fn law_ambisonics_default_rates(
    l: ChannelLayout,
    lfe: Option<int>,
    frame_size: int,
    sample_rate: int,
)
    requires
        0 < frame_size <= i32::MAX,
        0 < sample_rate <= 48000,
        frame_size * 400 >= sample_rate,
        0 < l.nb_streams <= 255,
        l.nb_coupled_streams <= l.nb_streams,
    ensures
        ({
            let n = l.nb_streams as int;
            let channels = n + l.nb_coupled_streams;
            let auto = shared_rates(
                l,
                MappingType::Ambisonics,
                OPUS_AUTO as int,
                lfe,
                frame_size,
                sample_rate,
            );
            let most = shared_rates(
                l,
                MappingType::Ambisonics,
                OPUS_BITRATE_MAX as int,
                lfe,
                frame_size,
                sample_rate,
            );
            let wanted = 15000 * n + channels * (sample_rate + 60 * sample_rate / frame_size);
            &&& auto is Some
            &&& most is Some
            &&& wanted - n < sum_to(floored_rates(auto->0), n) <= wanted
            &&& 320000 * channels - n < sum_to(floored_rates(most->0), n) <= 320000 * channels
        }),
{
    let n = l.nb_streams as int;
    let channels = n + l.nb_coupled_streams;
    let each = sample_rate + 60 * sample_rate / frame_size;
    lemma_fundamental_div_mod(60 * sample_rate, frame_size);
    lemma_mod_bound(60 * sample_rate, frame_size);
    assert(0 <= 60 * sample_rate / frame_size <= 24000) by (nonlinear_arith)
        requires
            60 * sample_rate == frame_size * (60 * sample_rate / frame_size) + (60 * sample_rate)
                % frame_size,
            0 <= (60 * sample_rate) % frame_size < frame_size,
            frame_size * 400 >= sample_rate,
            frame_size > 0,
            sample_rate > 0,
    ;
    lemma_wrap32_range(60 * sample_rate);
    lemma_wrap32_range(frame_size);
    lemma_wrap32_range(each);
    assert(0 <= channels * each <= 510 * 72000) by (nonlinear_arith)
        requires
            0 <= channels <= 510,
            0 <= each <= 72000,
    ;
    lemma_wrap32_range(channels * each);
    lemma_wrap32_range(channels * each + n * 15000);
    lemma_shared_equally(l, OPUS_AUTO as int, lfe, frame_size, sample_rate);
    lemma_shared_equally(l, OPUS_BITRATE_MAX as int, lfe, frame_size, sample_rate);
    assert(channels * each >= 0);
}

/// What ambisonics streams share is handed out but for what a division leaves.
proof fn lemma_shared_equally(
    l: ChannelLayout,
    bps: int,
    lfe: Option<int>,
    frame_size: int,
    sample_rate: int,
)
    requires
        frame_size != 0,
        sample_rate > 0,
        l.nb_streams > 0,
        ambisonics_total(l, bps, frame_size, sample_rate) >= 500 * l.nb_streams,
    ensures
        ({
            let shared = shared_rates(l, MappingType::Ambisonics, bps, lfe, frame_size, sample_rate);
            let n = l.nb_streams as int;
            let total = ambisonics_total(l, bps, frame_size, sample_rate);
            &&& shared is Some
            &&& floored_rates(shared->0).len() == n
            &&& total - n < sum_to(floored_rates(shared->0), n) <= total
        }),
{
    let n = l.nb_streams as int;
    let total = ambisonics_total(l, bps, frame_size, sample_rate);
    let shared = shared_rates(l, MappingType::Ambisonics, bps, lfe, frame_size, sample_rate)->0;
    let given = floored_rates(shared);
    let v = total / n;
    lemma_fundamental_div_mod(total, n);
    lemma_mod_bound(total, n);
    assert(v >= 500) by (nonlinear_arith)
        requires
            total == n * v + total % n,
            total % n < n,
            total >= 500 * n,
            n > 0,
    ;
    assert forall|s: int| 0 <= s < given.len() implies #[trigger] given[s] == v by {
        assert(given[s] == floored(shared[s]));
    }
    lemma_sum_of_equal(given, v, n);
}

/// The sum of the rates of the first `k` streams: coupled ones come first.
proof fn lemma_sum_by_class(
    given: Seq<int>,
    coupled: int,
    lfe: Option<int>,
    pair: int,
    plain: int,
    low: int,
    k: int,
)
    requires
        0 <= k <= given.len(),
        0 <= coupled <= given.len(),
        lfe matches Some(s) ==> coupled <= s < given.len(),
        forall|s: int|
            0 <= s < given.len() ==> #[trigger] given[s] == if s < coupled {
                pair
            } else if lfe == Some(s) {
                low
            } else {
                plain
            },
    ensures
        k <= coupled ==> sum_to(given, k) == k * pair,
        k > coupled ==> sum_to(given, k) == coupled * pair + if lfe is Some && lfe->0 < k {
            (k - coupled - 1) * plain + low
        } else {
            (k - coupled) * plain
        },
    decreases k,
{
    if k > 0 {
        lemma_sum_by_class(given, coupled, lfe, pair, plain, low, k - 1);
        assert(k * pair == (k - 1) * pair + pair) by (nonlinear_arith);
        assert((k - coupled) * plain == (k - 1 - coupled) * plain + plain) by (nonlinear_arith);
        assert((k - coupled - 1) * plain == (k - coupled - 2) * plain + plain) by (nonlinear_arith);
        assert(0 * plain == 0);
    } else {
        assert(0 * pair == 0);
    }
}

/// The parts of the rates of surround streams add up to the bitrate, but for what
/// a division leaves.
proof fn lemma_surround_parts(
    l: ChannelLayout,
    bps: int,
    lfe: Option<int>,
    frame_size: int,
    sample_rate: int,
)
    requires
        surround_fits(
            l,
            surround_wanted(l, bps, lfe, frame_size, sample_rate),
            lfe,
            frame_size,
            sample_rate,
        ),
    ensures
        ({
            let p = surround_shares(l, bps, lfe, frame_size, sample_rate)->0;
            let total = surround_wanted(l, bps, lfe, frame_size, sample_rate);
            let normal = full_channels(l, lfe);
            let whole = l.nb_coupled_streams + plain_streams(l, lfe);
            let lows = lfe_count(lfe);
            let sum = p.channel_offset * normal + p.stream_offset * whole + p.lfe_offset * lows
                + p.channel_rate * normal + (p.channel_rate / 8) * lows;
            &&& surround_shares(l, bps, lfe, frame_size, sample_rate) is Some
            &&& 2000 <= p.channel_offset <= 8000000
            &&& 750 <= p.lfe_offset <= 2000000
            &&& 0 <= p.stream_offset <= 20000
            &&& 0 <= p.channel_rate <= 8000000
            &&& l.nb_coupled_streams > 0 ==> p.channel_rate <= 4000000
            &&& total - normal - 2 < sum <= total
        }),
{
    let total = surround_wanted(l, bps, lfe, frame_size, sample_rate);
    let normal = full_channels(l, lfe);
    let whole = l.nb_coupled_streams + plain_streams(l, lfe);
    let lows = lfe_count(lfe);
    let rate = bounded_frame_rate(frame_size, sample_rate);
    lemma_wrap32_range(frame_size);
    lemma_fundamental_div_mod(sample_rate, frame_size);
    lemma_mod_bound(sample_rate, frame_size);
    assert(0 <= sample_rate / frame_size <= 48000) by (nonlinear_arith)
        requires
            sample_rate == frame_size * (sample_rate / frame_size) + sample_rate % frame_size,
            0 <= sample_rate % frame_size < frame_size,
            frame_size > 0,
            0 < sample_rate <= 48000,
    ;
    assert(50 <= rate <= 48000);
    let co = 40 * rate;
    lemma_wrap32_range(co);
    lemma_wrap32_range(15 * rate);
    let twentieth = total / 20;
    let lo = (if twentieth < 3000 {
        twentieth
    } else {
        3000
    }) + 15 * rate;
    assert(lo * lows == if lows == 0 {
        0
    } else {
        lo
    }) by (nonlinear_arith)
        requires
            lows == 0 || lows == 1,
    ;
    assert(co * normal == 40 * rate * normal) by (nonlinear_arith)
        requires
            co == 40 * rate,
    ;
    assert(co * normal >= 2000) by (nonlinear_arith)
        requires
            co >= 2000,
            normal >= 1,
    ;
    let cp = co * normal;
    let lp = lo * lows;
    lemma_wrap32_range(cp);
    lemma_wrap32_range(lp);
    lemma_wrap32_range(total - cp);
    let avail = total - cp - lp;
    lemma_wrap32_range(avail);
    lemma_wrap32_range(total - lp);
    let per = avail / normal;
    lemma_fundamental_div_mod(avail, normal);
    lemma_mod_bound(avail, normal);
    assert(0 <= per && per * normal <= avail) by (nonlinear_arith)
        requires
            avail == normal * per + avail % normal,
            0 <= avail % normal < normal,
            avail >= 0,
            normal >= 1,
    ;
    let so = clamped(per / 2, 0, 20000);
    assert(0 <= so * whole <= per * normal) by (nonlinear_arith)
        requires
            0 <= so <= per,
            0 <= whole <= normal,
    ;
    lemma_wrap32_range(so * whole);
    let rest = avail - so * whole;
    lemma_wrap32_range(total - lp - so * whole);
    lemma_wrap32_range(rest);
    lemma_wrap32_range(256 * rest);
    let weight = stream_weight(l, lfe);
    assert(weight == 256 * normal + 32 * lows);
    let cr = 256 * rest / weight;
    lemma_fundamental_div_mod(256 * rest, weight);
    lemma_mod_bound(256 * rest, weight);
    assert(0 <= cr && cr * weight <= 256 * rest < cr * weight + weight) by (nonlinear_arith)
        requires
            256 * rest == weight * cr + (256 * rest) % weight,
            0 <= (256 * rest) % weight < weight,
            rest >= 0,
            weight >= 1,
    ;
    assert(cr <= rest) by (nonlinear_arith)
        requires
            cr * weight <= 256 * rest,
            weight >= 256,
            cr >= 0,
    ;
    if l.nb_coupled_streams > 0 {
        assert(2 * cr <= rest) by (nonlinear_arith)
            requires
                cr * weight <= 256 * rest,
                weight >= 512,
                cr >= 0,
        ;
    }
    assert(cr * weight == 256 * (cr * normal) + 32 * (cr * lows)) by (nonlinear_arith)
        requires
            weight == 256 * normal + 32 * lows,
    ;
    assert(lows == 0 ==> cr * lows == 0 && (cr / 8) * lows == 0) by (nonlinear_arith);
    assert(lows == 1 ==> cr * lows == cr && (cr / 8) * lows == cr / 8) by (nonlinear_arith);
}

/// The bitrate that a layout's streams are given together.
pub open spec fn surround_wanted(
    l: ChannelLayout,
    bps: int,
    lfe: Option<int>,
    frame_size: int,
    sample_rate: int,
) -> int {
    surround_total(
        l,
        lfe,
        bps,
        sample_rate,
        wrap32(40 * bounded_frame_rate(frame_size, sample_rate)),
    )
}

/// A surround layout whose streams `total` bits per second can be shared among: they
/// cover what each channel and the low frequency stream are given at least.
pub open spec fn surround_fits(
    l: ChannelLayout,
    total: int,
    lfe: Option<int>,
    frame_size: int,
    sample_rate: int,
) -> bool {
    &&& 0 < l.nb_streams <= 255
    &&& l.nb_coupled_streams <= l.nb_streams
    &&& lfe matches Some(s) ==> l.nb_coupled_streams <= s < l.nb_streams
    &&& full_channels(l, lfe) > 0
    &&& 0 < frame_size <= i32::MAX
    &&& 0 < sample_rate <= 48000
    &&& total <= 8000000
    &&& total >= 40 * bounded_frame_rate(frame_size, sample_rate) * full_channels(l, lfe)
        + lfe_count(lfe) * (3000 + 15 * bounded_frame_rate(frame_size, sample_rate))
}

/// The same of an explicit bitrate.
pub open spec fn surround_shared(
    l: ChannelLayout,
    bps: int,
    lfe: Option<int>,
    frame_size: int,
    sample_rate: int,
) -> bool {
    &&& bps != OPUS_AUTO
    &&& bps != OPUS_BITRATE_MAX
    &&& surround_fits(l, bps, lfe, frame_size, sample_rate)
}

/// What a layout's streams are given together is handed out, but for about one bit
/// per second and channel. A coupled stream is given no less than a plain one and no
/// more than two.
proof fn lemma_surround_shares(
    l: ChannelLayout,
    kind: MappingType,
    bps: int,
    lfe: Option<int>,
    frame_size: int,
    sample_rate: int,
)
    requires
        kind != MappingType::Ambisonics,
        surround_fits(
            l,
            surround_wanted(l, bps, lfe, frame_size, sample_rate),
            lfe,
            frame_size,
            sample_rate,
        ),
    ensures
        ({
            let shared = shared_rates(l, kind, bps, lfe, frame_size, sample_rate);
            let total = surround_wanted(l, bps, lfe, frame_size, sample_rate);
            let given = floored_rates(shared->0);
            let n = l.nb_streams as int;
            let coupled = l.nb_coupled_streams as int;
            &&& shared is Some
            &&& given.len() == n
            &&& total - (n + coupled) - 2 < sum_to(given, n) <= total
            &&& forall|s: int, t: int|
                0 <= s < coupled <= t < n && lfe != Some(t) ==> #[trigger] given[t]
                    <= #[trigger] given[s] <= 2 * given[t]
        }),
{
    lemma_surround_parts(l, bps, lfe, frame_size, sample_rate);
    let p = surround_shares(l, bps, lfe, frame_size, sample_rate)->0;
    let shared = shared_rates(l, kind, bps, lfe, frame_size, sample_rate)->0;
    let given = floored_rates(shared);
    let n = l.nb_streams as int;
    let coupled = l.nb_coupled_streams as int;
    let cr = p.channel_rate;
    let pair = 2 * p.channel_offset + p.stream_offset + 2 * cr;
    let plain = p.channel_offset + p.stream_offset + cr;
    let low = p.lfe_offset + cr / 8;
    lemma_wrap32_range(2 * p.channel_offset);
    lemma_wrap32_range(plain);
    lemma_wrap32_range(pair);
    lemma_wrap32_range(low);
    lemma_wrap32_range(cr * 32);
    lemma_wrap32_range(p.stream_offset + cr);
    assert(cr * 32 / 256 == cr / 8);
    if coupled > 0 {
        lemma_wrap32_range(cr * 512);
        assert(cr * 512 / 256 == 2 * cr);
        lemma_wrap32_range(p.stream_offset + 2 * cr);
    }
    assert forall|s: int| 0 <= s < given.len() implies #[trigger] given[s] == if s < coupled {
        pair
    } else if lfe == Some(s) {
        low
    } else {
        plain
    } by {
        assert(given[s] == floored(shared[s]));
        assert(shared[s] == surround_rate(l, lfe, p, s));
    }
    lemma_sum_by_class(given, coupled, lfe, pair, plain, low, n);
    let others = plain_streams(l, lfe);
    let normal = full_channels(l, lfe);
    let whole = coupled + others;
    let lows = lfe_count(lfe);
    assert(coupled * pair == 2 * (coupled * p.channel_offset) + coupled * p.stream_offset + 2 * (
    coupled * cr)) by (nonlinear_arith)
        requires
            pair == 2 * p.channel_offset + p.stream_offset + 2 * cr,
    ;
    assert(others * plain == others * p.channel_offset + others * p.stream_offset + others * cr)
        by (nonlinear_arith)
        requires
            plain == p.channel_offset + p.stream_offset + cr,
    ;
    assert(p.channel_offset * normal == 2 * (coupled * p.channel_offset) + others
        * p.channel_offset) by (nonlinear_arith)
        requires
            normal == 2 * coupled + others,
    ;
    assert(cr * normal == 2 * (coupled * cr) + others * cr) by (nonlinear_arith)
        requires
            normal == 2 * coupled + others,
    ;
    assert(p.stream_offset * whole == coupled * p.stream_offset + others * p.stream_offset)
        by (nonlinear_arith)
        requires
            whole == coupled + others,
    ;
    assert(lows == 0 ==> p.lfe_offset * lows == 0 && (cr / 8) * lows == 0) by (nonlinear_arith);
    assert(lows == 1 ==> p.lfe_offset * lows == p.lfe_offset && (cr / 8) * lows == cr / 8)
        by (nonlinear_arith);
    if n == coupled {
        assert(others == 0 && lows == 0);
        assert(0 * plain == 0);
    }
}

/// Surround streams share what they are given: an explicit bitrate is handed out
/// but for about one bit per second and channel. A coupled stream is given no less
/// than a plain one and no more than two.
pub proof fn law_surround_streams_share_the_bitrate(
    l: ChannelLayout,
    kind: MappingType,
    bps: int,
    lfe: Option<int>,
    frame_size: int,
    sample_rate: int,
)
    requires
        kind != MappingType::Ambisonics,
        surround_shared(l, bps, lfe, frame_size, sample_rate),
    ensures
        ({
            let shared = shared_rates(l, kind, bps, lfe, frame_size, sample_rate);
            let given = floored_rates(shared->0);
            let n = l.nb_streams as int;
            let coupled = l.nb_coupled_streams as int;
            &&& shared is Some
            &&& given.len() == n
            &&& bps - (n + coupled) - 2 < sum_to(given, n) <= bps
            &&& forall|s: int, t: int|
                0 <= s < coupled <= t < n && lfe != Some(t) ==> #[trigger] given[t]
                    <= #[trigger] given[s] <= 2 * given[t]
        }),
{
    lemma_surround_shares(l, kind, bps, lfe, frame_size, sample_rate);
}

/// Without an explicit bitrate a channel is given its sample rate and 10000 bits per
/// second, and 40 bits more for each of its frames, a low frequency stream 8000; these
/// are shared in the same way.
pub proof fn law_surround_default_rates(
    l: ChannelLayout,
    kind: MappingType,
    lfe: Option<int>,
    frame_size: int,
    sample_rate: int,
)
    requires
        kind != MappingType::Ambisonics,
        0 < l.nb_streams,
        l.nb_streams + l.nb_coupled_streams <= 100,
        l.nb_coupled_streams <= l.nb_streams,
        lfe matches Some(s) ==> l.nb_coupled_streams <= s < l.nb_streams,
        full_channels(l, lfe) > 0,
        0 < frame_size <= i32::MAX,
        8000 <= sample_rate <= 48000,
        sample_rate <= 400 * frame_size,
        50 * frame_size <= sample_rate,
    ensures
        ({
            let auto = shared_rates(l, kind, OPUS_AUTO as int, lfe, frame_size, sample_rate);
            let n = l.nb_streams as int;
            let channels = full_channels(l, lfe);
            let each = sample_rate + 10000 + 40 * (sample_rate / frame_size);
            let wanted = channels * each + 8000 * lfe_count(lfe);
            &&& auto is Some
            &&& wanted - (n + l.nb_coupled_streams) - 2 < sum_to(floored_rates(auto->0), n)
                <= wanted
        }),
{
    let channels = full_channels(l, lfe);
    let rate = sample_rate / frame_size;
    lemma_wrap32_range(frame_size);
    lemma_fundamental_div_mod(sample_rate, frame_size);
    lemma_mod_bound(sample_rate, frame_size);
    assert(50 <= rate <= 400) by (nonlinear_arith)
        requires
            sample_rate == frame_size * rate + sample_rate % frame_size,
            0 <= sample_rate % frame_size < frame_size,
            sample_rate <= 400 * frame_size,
            50 * frame_size <= sample_rate,
            frame_size > 0,
    ;
    assert(bounded_frame_rate(frame_size, sample_rate) == rate);
    let each = sample_rate + 10000 + 40 * rate;
    lemma_wrap32_range(40 * rate);
    lemma_wrap32_range(40 * rate + sample_rate);
    lemma_wrap32_range(each);
    assert(0 <= channels * each <= 100 * 74000) by (nonlinear_arith)
        requires
            0 <= channels <= 100,
            0 <= each <= 74000,
    ;
    lemma_wrap32_range(channels * each);
    lemma_wrap32_range(channels * each + 8000 * lfe_count(lfe));
    assert(channels * each == channels * (40 * rate) + channels * (sample_rate + 10000))
        by (nonlinear_arith)
        requires
            each == sample_rate + 10000 + 40 * rate,
    ;
    assert(channels * (40 * rate) == 40 * rate * channels) by (nonlinear_arith);
    assert(channels * (sample_rate + 10000) >= 18000) by (nonlinear_arith)
        requires
            channels >= 1,
            sample_rate >= 8000,
    ;
    assert(lfe_count(lfe) * (3000 + 15 * rate) <= 9000) by (nonlinear_arith)
        requires
            0 <= lfe_count(lfe) <= 1,
            0 <= rate <= 400,
    ;
    lemma_surround_shares(l, kind, OPUS_AUTO as int, lfe, frame_size, sample_rate);
}

} // verus!
