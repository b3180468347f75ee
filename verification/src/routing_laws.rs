//! What channels, streams and mixing matrices do to samples and rates.

use crate::channel_layout::{ChannelLayout, MappingType};
use crate::fixed::{lemma_wrap16_range, lemma_wrap32_range};
use crate::multistream_decode::{routed_sample, stream_of};
use crate::multistream_encode::{source_channel, stream_pcm, stream_rates, with_rate};
use crate::multistream_encoder::OpusMultistreamEncoder;
use crate::opus_encoder::{OpusEncoder, OPUS_AUTO, OPUS_BITRATE_MAX};
use crate::packet::sum_to;
use crate::projection::projection_plan;
use crate::projection_decode::{demixed16, demixed24, output16, part_of};
use crate::rate_allocation::{
    law_ambisonics_streams_share_the_bitrate, law_surround_streams_share_the_bitrate, stream_index,
    surround_shared,
};
use vstd::arithmetic::div_mod::*;
use vstd::arithmetic::power2::*;
use vstd::prelude::*;

verus! {

/// Where streams are decoded to the samples that they were given, a channel that
/// feeds its stream gets its own samples back.
pub proof fn law_routing_gives_the_input_back(
    l: ChannelLayout,
    pcm: Seq<i16>,
    frames: int,
    c: int,
    i: int,
)
    requires
        l.valid(),
        l.nb_coupled_streams <= l.nb_streams,
        0 <= c < l.nb_channels,
        l.mapping@[c] != 255,
        c == source_channel(l, l.mapping@[c] as int),
        0 <= i < frames,
        pcm.len() >= frames * l.nb_channels,
    ensures
        ({
            let s = stream_of(l, l.mapping@[c] as int);
            &&& 0 <= s < l.nb_streams
            &&& routed_sample(l, s, stream_pcm(l, s, pcm, frames), c, i, 0) == Some(
                pcm[i * l.nb_channels + c],
            )
        }),
{
    let input = l.mapping@[c] as int;
    assert(l.mapping[c] == 255 || l.mapping[c] < l.nb_streams + l.nb_coupled_streams);
    let s = stream_of(l, input);
    let samples = stream_pcm(l, s, pcm, frames);
    if input < 2 * l.nb_coupled_streams {
        let j = 2 * i + input % 2;
        assert(j / 2 == i && j % 2 == input % 2);
        assert(2 * s + j % 2 == input);
        assert(samples[j] == pcm[j / 2 * (l.nb_channels as int) + source_channel(l, 2 * s + j % 2)]);
    } else {
        assert(samples[i] == pcm[i * l.nb_channels + c]);
    }
}

/// The rates that an encoder of ambisonics gives its streams are an explicit
/// bitrate, but for less than one bit per second and stream.
pub proof fn law_ambisonics_encoder_keeps_its_bitrate(e: OpusMultistreamEncoder, frame_size: int)
    requires
        e.mapping_type == MappingType::Ambisonics,
        frame_size != 0,
        e.sample_rate > 0,
        e.layout.nb_streams > 0,
        e.bitrate_bps != OPUS_AUTO,
        e.bitrate_bps != OPUS_BITRATE_MAX,
        e.bitrate_bps >= 500 * e.layout.nb_streams,
    ensures
        ({
            let n = e.layout.nb_streams as int;
            e.bitrate_bps - n < sum_to(stream_rates(e, frame_size), n) <= e.bitrate_bps
        }),
{
    law_ambisonics_streams_share_the_bitrate(
        e.layout,
        e.bitrate_bps as int,
        stream_index(e.lfe_stream),
        frame_size,
        e.sample_rate as int,
    );
}

/// The same of the other mappings, but for about one bit per second and channel.
pub proof fn law_surround_encoder_keeps_its_bitrate(e: OpusMultistreamEncoder, frame_size: int)
    requires
        e.mapping_type != MappingType::Ambisonics,
        surround_shared(
            e.layout,
            e.bitrate_bps as int,
            stream_index(e.lfe_stream),
            frame_size,
            e.sample_rate as int,
        ),
    ensures
        ({
            let n = e.layout.nb_streams as int;
            let inputs = n + e.layout.nb_coupled_streams;
            e.bitrate_bps - inputs - 2 < sum_to(stream_rates(e, frame_size), n) <= e.bitrate_bps
        }),
{
    law_surround_streams_share_the_bitrate(
        e.layout,
        e.mapping_type,
        e.bitrate_bps as int,
        stream_index(e.lfe_stream),
        frame_size,
        e.sample_rate as int,
    );
}

/// A stream codes at the rate that it is given, where that is one that its encoder
/// can have.
pub proof fn law_stream_takes_its_rate(e: OpusEncoder, rate: int)
    requires
        e.wf(),
        500 <= rate <= 300000 * e.channels,
    ensures
        with_rate(e, rate).bitrate() == rate,
        with_rate(e, rate).channels == e.channels,
        with_rate(e, rate).fs == e.fs,
{
}

/// What a cell makes of a sample is their product (Q15), rounded to the nearest.
proof fn lemma_part(cell: int, sample: int)
    ensures
        -0x4000 <= cell * sample - 0x8000 * part_of(cell, sample) <= 0x4000,
        cell == 0 ==> part_of(cell, sample) == 0,
{
    lemma2_to64();
    let v = cell * sample;
    assert(part_of(cell, sample) == (v + 0x4000) / 0x8000);
    if cell == 0 {
        assert(0 * sample == 0);
    }
}

/// A channel that one stream alone is mixed into gets that stream's sample times the
/// cell of its row and the stream's column (Q15), rounded to the nearest.
pub proof fn law_cell_weighs_its_stream(
    m: Seq<i16>,
    x: Seq<i16>,
    at: int,
    rows: int,
    row: int,
    col: int,
    k: int,
)
    requires
        0 <= row < rows,
        0 <= col,
        0 <= k,
        forall|c: int| 0 <= c < k && c != col ==> #[trigger] m[rows * c + row] == 0,
        -0x7fff <= m[rows * col + row],
    ensures
        ({
            let r = demixed16(m, x, at, rows, row, k);
            &&& k <= col ==> r == 0
            &&& k > col ==> -0x4000 <= m[rows * col + row] * x[at + col] - 0x8000 * r <= 0x4000
        }),
    decreases k,
{
    if k > 0 {
        law_cell_weighs_its_stream(m, x, at, rows, row, col, k - 1);
        let cell = m[rows * (k - 1) + row] as int;
        let sample = x[at + k - 1] as int;
        lemma_part(cell, sample);
        let before = demixed16(m, x, at, rows, row, k - 1);
        if k - 1 != col {
            assert(cell == 0);
            if k > col {
                assert(-0x3fff_8000 <= m[rows * col + row] * x[at + col] <= 0x3fff_8000)
                    by (nonlinear_arith)
                    requires
                        -0x7fff <= m[rows * col + row] <= 0x7fff,
                        -0x8000 <= x[at + col] <= 0x7fff,
                ;
            }
            lemma_wrap16_range(before);
        } else {
            assert(-0x3fff_8000 <= cell * sample <= 0x3fff_8000) by (nonlinear_arith)
                requires
                    -0x7fff <= cell <= 0x7fff,
                    -0x8000 <= sample <= 0x7fff,
            ;
            lemma_wrap16_range(part_of(cell, sample));
        }
    }
}

/// The same of samples with 24 bits.
pub proof fn law_cell_weighs_its_wide_stream(
    m: Seq<i16>,
    x: Seq<i32>,
    at: int,
    rows: int,
    row: int,
    col: int,
    k: int,
)
    requires
        0 <= row < rows,
        0 <= col,
        0 <= k,
        forall|c: int| 0 <= c < k && c != col ==> #[trigger] m[rows * c + row] == 0,
        -0x100_0000 <= x[at + col] <= 0x100_0000,
    ensures
        ({
            let r = demixed24(m, x, at, rows, row, k);
            &&& k <= col ==> r == 0
            &&& k > col ==> -0x4000 <= m[rows * col + row] * x[at + col] - 0x8000 * r <= 0x4000
        }),
    decreases k,
{
    if k > 0 {
        law_cell_weighs_its_wide_stream(m, x, at, rows, row, col, k - 1);
        let cell = m[rows * (k - 1) + row] as int;
        let sample = x[at + k - 1] as int;
        lemma_part(cell, sample);
        let before = demixed24(m, x, at, rows, row, k - 1);
        assert(-0x80_0000_0000 <= m[rows * col + row] * x[at + col] <= 0x80_0000_0000)
            by (nonlinear_arith)
            requires
                -0x8000 <= m[rows * col + row] <= 0x7fff,
                -0x100_0000 <= x[at + col] <= 0x100_0000,
        ;
        if k - 1 != col {
            assert(cell == 0);
            lemma_wrap32_range(before);
        } else {
            lemma_wrap32_range(part_of(cell, sample));
        }
    }
}

/// In what is decoded, a channel that one stream alone is mixed into holds in each frame
/// that stream's sample of the same frame, times the cell (Q15), rounded to the nearest;
/// behind the frames that were decoded nothing changes.
pub proof fn law_demixed_frames_hold_their_streams(
    m: Seq<i16>,
    x: Seq<i16>,
    rest: Seq<i16>,
    channels: int,
    n: int,
    frame: int,
    row: int,
    col: int,
)
    requires
        0 <= row < channels,
        0 <= col < channels,
        0 <= frame < n,
        n * channels <= rest.len(),
        x.len() == rest.len(),
        m.len() >= channels * channels,
        forall|c: int| 0 <= c < channels && c != col ==> #[trigger] m[channels * c + row] == 0,
        -0x7fff <= m[channels * col + row],
    ensures
        ({
            let out = output16(m, x, rest, channels, n);
            let held = m[channels * col + row] * x[frame * channels + col];
            &&& -0x4000 <= held - 0x8000 * out[frame * channels + row] <= 0x4000
            &&& forall|i: int| n * channels <= i < rest.len() ==> #[trigger] out[i] == rest[i]
        }),
{
    let at = frame * channels;
    let i = at + row;
    assert(0 <= at && at + channels <= n * channels) by (nonlinear_arith)
        requires
            at == frame * channels,
            0 <= frame < n,
            channels > 0,
    ;
    assert(i % channels == row) by {
        lemma_mod_multiples_vanish(frame, row, channels);
        lemma_small_mod(row as nat, channels as nat);
        assert(channels * frame == frame * channels) by (nonlinear_arith);
    }
    law_cell_weighs_its_stream(m, x, at, channels, row, col, channels);
    let r = demixed16(m, x, at, channels, row, channels);
    lemma_demixed_fits(m, x, at, channels, row, channels);
    assert(output16(m, x, rest, channels, n)[i] == r as i16);
}

proof fn lemma_demixed_fits(m: Seq<i16>, x: Seq<i16>, at: int, rows: int, row: int, k: int)
    ensures
        -0x8000 <= demixed16(m, x, at, rows, row, k) <= 0x7fff,
{
    if k > 0 {
        lemma_wrap16_range(
            demixed16(m, x, at, rows, row, k - 1) + part_of(
                m[rows * (k - 1) + row] as int,
                x[at + k - 1] as int,
            ),
        );
    }
}

/// The streams of a projection carry as many inputs as it has channels, as many of
/// them in pairs as can be.
pub proof fn law_projection_streams_carry_all(sample_rate: i32, channels: usize, application: i32)
    ensures
        ({
            let plan = projection_plan(sample_rate, channels, application);
            &&& plan.streams + plan.coupled == channels
            &&& plan.coupled <= plan.streams <= plan.coupled + 1
            &&& plan.mapping.len() == channels
            &&& forall|i: int| 0 <= i < channels && i < 256 ==> #[trigger] plan.mapping[i] == i
        }),
{
}

} // verus!
