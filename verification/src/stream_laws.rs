//! What packets and sets of streams report.

use crate::channel_layout::{family_type, MappingType};
use crate::multistream_decode::{common_samples, frame_limit, packet_samples, validated};
use crate::multistream_decoder::combined_range;
use crate::multistream_encode::sample_of_24;
use crate::multistream_encoder::{limited_bitrate, total_bitrate};
use crate::opus_decoder::{is_stream_rate, OpusDecoder};
use crate::opus_encoder::{OPUS_AUTO, OPUS_BITRATE_MAX, OpusEncoder};
use crate::packet::{toc_bandwidth, toc_channels, toc_frame_samples, toc_mode, Bandwidth, Mode};
use vstd::prelude::*;

verus! {

// ---------------------------------------------------------------------
// Packets
// ---------------------------------------------------------------------

/// The frames of a packet last 10, 20, 40 or 60 ms where they are speech, 2.5, 5, 10
/// or 20 ms where they are music, and 10 or 20 ms where they are both.
pub proof fn law_frames_last(toc: u8, fs: int)
    requires
        is_stream_rate(fs),
    ensures
        ({
            let samples = toc_frame_samples(toc, fs)->0;
            let field = (toc / 8) % 4;
            &&& toc_frame_samples(toc, fs) is Some
            &&& toc_mode(toc) == Mode::SILK ==> 1000 * samples == if field == 0 {
                10 * fs
            } else if field == 1 {
                20 * fs
            } else if field == 2 {
                40 * fs
            } else {
                60 * fs
            }
            &&& toc_mode(toc) == Mode::CELT ==> 400 * samples == if field == 0 {
                fs
            } else if field == 1 {
                2 * fs
            } else if field == 2 {
                4 * fs
            } else {
                8 * fs
            }
            &&& toc_mode(toc) == Mode::HYBRID ==> 100 * samples == if (toc / 8) % 2 == 1 {
                2 * fs
            } else {
                fs
            }
        }),
{
}

/// Speech alone is coded up to the wide band, both together from the super-wide band
/// on, and music in every band but the medium one.
pub proof fn law_modes_have_their_bands(toc: u8)
    ensures
        toc_mode(toc) == Mode::SILK ==> toc_bandwidth(toc) == Bandwidth::Narrow || toc_bandwidth(
            toc,
        ) == Bandwidth::Medium || toc_bandwidth(toc) == Bandwidth::Wide,
        toc_mode(toc) == Mode::HYBRID ==> toc_bandwidth(toc) == Bandwidth::SuperWide
            || toc_bandwidth(toc) == Bandwidth::Full,
        toc_mode(toc) == Mode::CELT ==> toc_bandwidth(toc) != Bandwidth::Medium,
        toc_mode(toc) == Mode::SILK <==> toc < 96,
        toc_mode(toc) == Mode::HYBRID <==> 96 <= toc < 128,
        toc_mode(toc) == Mode::CELT <==> toc >= 128,
        1 <= toc_channels(toc) <= 2,
        (toc / 4) % 2 == 0 ==> toc_channels(toc) == 1 && toc_channels((toc + 4) as u8) == 2,
{
}

/// A packet that is valid lasts no longer than 120 ms.
pub proof fn law_valid_packet_is_short(data: Seq<u8>, len: int, streams: int, fs: int)
    requires
        validated(data, len, streams, fs) is Ok,
    ensures
        25 * validated(data, len, streams, fs)->Ok_0 <= 3 * fs,
{
    lemma_common_samples(data.take(len), streams as nat, fs, None);
}

proof fn lemma_common_samples(p: Seq<u8>, streams: nat, fs: int, before: Option<int>)
    requires
        common_samples(p, streams, fs, before) is Ok,
        before matches Some(n) ==> 25 * n <= 3 * fs,
    ensures
        25 * common_samples(p, streams, fs, before)->Ok_0 <= 3 * fs,
    decreases streams,
{
    if streams > 0 {
        let n = packet_samples(p, fs)->Ok_0;
        lemma_common_samples(
            p.skip(crate::multistream_decode::packet_bytes(p, streams != 1)),
            (streams - 1) as nat,
            fs,
            Some(n),
        );
    }
}

/// No more than 120 ms are decoded at once, and no more than there is room for.
pub proof fn law_decoded_frame_is_limited(frame_size: int, fs: int)
    requires
        is_stream_rate(fs),
        0 <= frame_size,
    ensures
        0 <= frame_limit(frame_size, fs) <= frame_size,
        25 * frame_limit(frame_size, fs) <= 3 * fs,
        25 * frame_size <= 3 * fs ==> frame_limit(frame_size, fs) == frame_size,
        25 * frame_size >= 3 * fs ==> 25 * frame_limit(frame_size, fs) == 3 * fs,
{
}

/// A sample of 24 bits loses its low 8 bits, and is limited to 16.
pub proof fn law_wide_samples_lose_low_bits(v: int)
    ensures
        -0x80_0000 <= v < 0x80_0000 ==> 256 * sample_of_24(v) <= v < 256 * sample_of_24(v) + 256,
        v >= 0x80_0000 ==> sample_of_24(v) == 0x7fff,
        v < -0x80_0000 ==> sample_of_24(v) == -0x8000,
{
}

// ---------------------------------------------------------------------
// Sets of streams
// ---------------------------------------------------------------------

proof fn lemma_xor(a: u32, b: u32, c: u32)
    ensures
        (a ^ b) ^ c == (a ^ c) ^ b,
        (a ^ b) ^ b == a,
        a ^ 0 == a,
{
    assert((a ^ b) ^ c == (a ^ c) ^ b) by (bit_vector);
    assert((a ^ b) ^ b == a) by (bit_vector);
    assert(a ^ 0 == a) by (bit_vector);
}

/// The range that a set of streams ends with changes with each stream's own: where
/// one ends elsewhere, the bits that its ranges differ in are flipped.
pub proof fn law_range_follows_each_stream(ds: Seq<OpusDecoder>, s: int, d: OpusDecoder)
    requires
        0 <= s < ds.len(),
    ensures
        combined_range(ds.update(s, d)) == combined_range(ds) ^ ds[s].range_final ^ d.range_final,
        ds.len() == 1 ==> combined_range(ds) == ds[0].range_final,
    decreases ds.len(),
{
    let after = ds.update(s, d);
    let head = combined_range(ds.drop_last());
    let zero = 0u32;
    if s == ds.len() - 1 {
        assert(after.drop_last() =~= ds.drop_last());
        lemma_xor(head, ds[s].range_final, 0);
        if ds.len() == 1 {
            assert(ds.drop_last().len() == 0);
            let r = ds[0].range_final;
            assert(zero ^ r == r) by (bit_vector)
                requires
                    zero == 0u32,
            ;
        }
    } else {
        assert(after.drop_last() =~= ds.drop_last().update(s, d));
        law_range_follows_each_stream(ds.drop_last(), s, d);
        let last = ds.last().range_final;
        let old_range = ds[s].range_final;
        let new_range = d.range_final;
        assert(((head ^ old_range) ^ new_range) ^ last == ((head ^ last) ^ old_range) ^ new_range)
            by (bit_vector);
    }
}

/// The bitrate of a set of streams is the sum of theirs: it changes as one of them
/// does.
pub proof fn law_bitrate_follows_each_stream(es: Seq<OpusEncoder>, s: int, e: OpusEncoder)
    requires
        0 <= s < es.len(),
    ensures
        total_bitrate(es.update(s, e)) - total_bitrate(es) == e.bitrate() - es[s].bitrate(),
        es.len() == 1 ==> total_bitrate(es) == es[0].bitrate(),
    decreases es.len(),
{
    let after = es.update(s, e);
    if s == es.len() - 1 {
        assert(after.drop_last() =~= es.drop_last());
        if es.len() == 1 {
            assert(total_bitrate(es.drop_last()) == 0);
        }
    } else {
        assert(after.drop_last() =~= es.drop_last().update(s, e));
        law_bitrate_follows_each_stream(es.drop_last(), s, e);
    }
}

/// A bitrate that is set for all channels together lies between 500 and 300000 for
/// each, and is kept where it does.
pub proof fn law_set_bitrate_is_limited(value: int, channels: int)
    requires
        channels >= 1,
        value != OPUS_AUTO,
        value != OPUS_BITRATE_MAX,
    ensures
        500 * channels <= limited_bitrate(value, channels) <= 300000 * channels,
        500 * channels <= value <= 300000 * channels ==> limited_bitrate(value, channels) == value,
        limited_bitrate(OPUS_AUTO as int, channels) == OPUS_AUTO,
        limited_bitrate(OPUS_BITRATE_MAX as int, channels) == OPUS_BITRATE_MAX,
{
}

/// Low frequencies have a stream of their own, the last, in surround layouts of six
/// channels or more and in no other.
pub proof fn law_low_frequencies_come_last(channels: int, family: int, streams: int)
    requires
        streams >= 1,
    ensures
        ({
            let (kind, lfe) = family_type(channels, family, streams);
            &&& lfe is Some <==> family == 1 && channels >= 6
            &&& lfe matches Some(s) ==> s == streams - 1
            &&& kind == MappingType::Ambisonics <==> family == 2
            &&& kind == MappingType::Surround <==> family == 1 && channels > 2
        }),
{
}

} // verus!
