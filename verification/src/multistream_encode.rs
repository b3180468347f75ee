//! Coding of a multistream packet: the samples and the room of each stream,
//! and the joining of the streams' packets.
use crate::channel_layout::{get_left_channel, get_mono_channel, get_right_channel, ChannelLayout};
use crate::multistream_decode::{common_samples, packet_bytes, packet_samples};
use crate::multistream_encoder::{OpusMultistreamEncoder, OpusMultistreamEncoderError};
use crate::opus_encoder::{
    encoder_takes, encoder_with, opus_encoder_set, EncoderReport, EncoderSetting, OpusEncodeError,
    OpusEncoder,
};
use crate::packet::{
    announced_frames, frame_start, packet_head, packet_layout, size_at, sizes_at, sum_to,
    toc_frame_samples,
};
use crate::rate_allocation::{
    floored_rates, frame_divides, rate_allocation, shared_rates, stream_index,
};
use vstd::prelude::*;

verus! {

// ---------------------------------------------------------------------
// Packets of streams
// ---------------------------------------------------------------------

/// A size in one byte, or in two from 252 on.
pub open spec fn size_field(size: int) -> Seq<u8> {
    if size < 252 {
        seq![size as u8]
    } else {
        seq![(252 + size % 4) as u8, ((size - 252 - size % 4) / 4 % 256) as u8]
    }
}

/// The packet of a stream as it stands in a multistream packet. A
/// self-delimited one has the size of its frame behind its first byte.
pub open spec fn framed(packet: Seq<u8>, self_delimited: bool) -> Seq<u8> {
    if self_delimited {
        seq![packet[0]] + size_field(packet.len() - 1) + packet.skip(1)
    } else {
        packet
    }
}

/// How many bytes of a framed packet are written where `room` bytes are left,
/// and whether these are all.
pub open spec fn framed_written(packet: Seq<u8>, self_delimited: bool, room: int) -> (int, bool) {
    let whole = framed(packet, self_delimited).len() as int;
    let head = 1 + size_field(packet.len() - 1).len() as int;
    if !self_delimited {
        if room < packet.len() {
            (0, false)
        } else {
            (whole, true)
        }
    } else if packet.len() == 0 || room == 0 {
        (0, false)
    } else if room < head {
        (1, false)
    } else if room < whole {
        (head, false)
    } else {
        (whole, true)
    }
}

/// `data` with `bytes` from `at` on.
pub open spec fn overlaid(data: Seq<u8>, at: int, bytes: Seq<u8>) -> Seq<u8> {
    Seq::new(
        data.len(),
        |i: int|
            if at <= i < at + bytes.len() {
                bytes[i - at]
            } else {
                data[i]
            },
    )
}

/// Writes a size at the front of `data`, and returns how many bytes it takes;
/// none where `data` is too short.
pub fn encode_size(size: usize, data: &mut [u8]) -> (r: Option<usize>)
    ensures
        ({
            let field = size_field(size as int);
            match r {
                Some(n) => n == field.len() && n <= old(data)@.len() && final(data)@ == overlaid(
                    old(data)@,
                    0,
                    field,
                ),
                None => field.len() > old(data)@.len() && final(data)@ == old(data)@,
            }
        }),
{
    let n: usize = data.len();
    if n == 0 {
        return None;
    }
    if size < 252 {
        data[0] = size as u8;
        assert(data@ =~= overlaid(old(data)@, 0, size_field(size as int)));
        Some(1)
    } else {
        if n < 2 {
            return None;
        }
        let low: usize = size % 4;
        data[0] = (252 + low) as u8;
        data[1] = ((size - 252 - low) / 4 % 256) as u8;
        assert(data@ =~= overlaid(old(data)@, 0, size_field(size as int)));
        Some(2)
    }
}

fn put_bytes(data: &mut [u8], at: usize, bytes: &[u8])
    requires
        at + bytes@.len() <= old(data)@.len(),
    ensures
        final(data)@ == overlaid(old(data)@, at as int, bytes@),
{
    let n: usize = bytes.len();
    let ghost before = data@;
    let total: usize = data.len();
    for i in 0..n
        invariant
            n == bytes@.len(),
            total == data@.len(),
            at + n <= total,
            before == old(data)@,
            data@.len() == before.len(),
            forall|j: int|
                0 <= j < data@.len() ==> #[trigger] data@[j] == if at <= j < at + i {
                    bytes@[j - at]
                } else {
                    before[j]
                },
    {
        data[at + i] = bytes[i];
    }
    assert(data@ =~= overlaid(before, at as int, bytes@));
}

/// The bytes of a size.
fn size_bytes(size: usize) -> (r: Vec<u8>)
    ensures
        r@ == size_field(size as int),
{
    let mut field: Vec<u8> = Vec::new();
    if size < 252 {
        field.push(size as u8);
    } else {
        let low: usize = size % 4;
        field.push((252 + low) as u8);
        field.push(((size - 252 - low) / 4 % 256) as u8);
    }
    assert(field@ =~= size_field(size as int));
    field
}

/// Writes the packet of a stream from `at` on, and returns how many bytes it
/// takes; none where it does not fit or is empty.
pub fn write_stream_packet(stream_packet: &[u8], self_delimited: bool, data: &mut [u8], at: usize) -> (r:
    Option<usize>)
    requires
        at <= old(data)@.len(),
    ensures
        ({
            let (n, all) = framed_written(stream_packet@, self_delimited, old(data)@.len() - at);
            &&& final(data)@ == overlaid(
                old(data)@,
                at as int,
                framed(stream_packet@, self_delimited).take(n),
            )
            &&& r == (if all {
                Some(n as usize)
            } else {
                None
            })
            &&& at + n <= old(data)@.len()
        }),
{
    let ghost whole = framed(stream_packet@, self_delimited);
    let ghost before = data@;
    let room: usize = data.len() - at;
    let size: usize = stream_packet.len();
    if !self_delimited {
        if room < size {
            assert(data@ =~= overlaid(before, at as int, whole.take(0)));
            return None;
        }
        put_bytes(data, at, stream_packet);
        assert(whole.take(size as int) =~= whole);
        return Some(size);
    }
    if size == 0 || room == 0 {
        assert(data@ =~= overlaid(before, at as int, whole.take(0)));
        return None;
    }
    data[at] = stream_packet[0];
    let field: Vec<u8> = size_bytes(size - 1);
    let head: usize = 1 + field.len();
    if room < head {
        assert(data@ =~= overlaid(before, at as int, whole.take(1)));
        return None;
    }
    put_bytes(data, at + 1, field.as_slice());
    proof {
        assert(data@ =~= overlaid(before, at as int, whole.take(head as int)));
    }
    if room - head < size - 1 {
        return None;
    }
    put_bytes(data, at + head, &stream_packet[1..size]);
    proof {
        assert(whole.len() == head + size - 1);
        assert(whole.take(whole.len() as int) =~= whole);
        assert(data@ =~= overlaid(before, at as int, whole));
    }
    Some(head + (size - 1))
}

// ---------------------------------------------------------------------
// Samples of streams
// ---------------------------------------------------------------------

/// The first channel from `c` on that takes input `input`.
pub open spec fn first_from(l: ChannelLayout, input: int, c: int) -> int
    decreases l.nb_channels - c,
{
    if c >= l.nb_channels || l.takes(c, input) {
        c
    } else {
        first_from(l, input, c + 1)
    }
}

/// The channel that feeds input `input`.
pub open spec fn source_channel(l: ChannelLayout, input: int) -> int {
    first_from(l, input, 0)
}

proof fn lemma_source_channel(l: ChannelLayout, input: int, c: int, k: int)
    requires
        0 <= k <= c < l.nb_channels,
        l.takes(c, input),
        forall|d: int| k <= d < c ==> !#[trigger] l.takes(d, input),
    ensures
        first_from(l, input, k) == c,
    decreases c - k,
{
    if k < c {
        assert(!l.takes(k, input));
        lemma_source_channel(l, input, c, k + 1);
    }
}

/// Channel `c` of `channels` interleaved ones.
pub open spec fn channel_samples(pcm: Seq<i16>, channels: int, c: int, frames: int) -> Seq<i16> {
    Seq::new(frames as nat, |i: int| pcm[i * channels + c])
}

/// What stream `s` codes: the interleaved channels that feed it.
pub open spec fn stream_pcm(l: ChannelLayout, s: int, pcm: Seq<i16>, frames: int) -> Seq<i16> {
    let n = l.nb_channels as int;
    if s < l.nb_coupled_streams {
        Seq::new(
            (2 * frames) as nat,
            |j: int| pcm[j / 2 * n + source_channel(l, 2 * s + j % 2)],
        )
    } else {
        channel_samples(pcm, n, source_channel(l, s + l.nb_coupled_streams), frames)
    }
}

proof fn lemma_sample_inside(i: int, n: int, c: int, frames: int, len: int)
    requires
        0 <= i < frames,
        0 <= c < n,
        n * frames <= len,
    ensures
        0 <= i * n + c < len,
        i * n <= n * frames,
{
    assert(0 <= i * n && i * n + n <= n * frames) by (nonlinear_arith)
        requires
            0 <= i < frames,
            0 < n,
    ;
}

/// Copies channel `channel` of the input to every `output_stride`-th sample
/// of the output, from `output_offset` on.
fn extract_i16_channel(
    input: &[i16],
    input_channels: usize,
    channel: usize,
    frame_size: usize,
    output: &mut [i16],
    output_stride: usize,
    output_offset: usize,
)
    requires
        channel < input_channels,
        input_channels * frame_size <= input@.len(),
        1 <= output_stride,
        output_offset < output_stride,
        output_stride * frame_size <= old(output)@.len(),
    ensures
        final(output)@ == Seq::new(
            old(output)@.len(),
            |j: int|
                if j / (output_stride as int) < frame_size && j % (output_stride as int)
                    == output_offset {
                    input@[j / (output_stride as int) * input_channels + channel]
                } else {
                    old(output)@[j]
                },
        ),
{
    let ghost before = output@;
    let ghost st = output_stride as int;
    let n: usize = output.len();
    let inputs: usize = input.len();
    for i in 0..frame_size
        invariant
            channel < input_channels,
            inputs == input@.len(),
            input_channels * frame_size <= input@.len(),
            1 <= output_stride,
            st == output_stride,
            output_offset < output_stride,
            n == output@.len(),
            n == before.len(),
            output_stride * frame_size <= n,
            before == old(output)@,
            forall|j: int|
                0 <= j < n ==> #[trigger] output@[j] == if j / st < i && j % st == output_offset {
                    input@[j / st * input_channels + channel]
                } else {
                    before[j]
                },
    {
        proof {
            lemma_sample_inside(
                i as int,
                input_channels as int,
                channel as int,
                frame_size as int,
                inputs as int,
            );
            lemma_sample_inside(i as int, st, output_offset as int, frame_size as int, n as int);
        }
        let at: usize = output_offset + i * output_stride;
        output[at] = input[i * input_channels + channel];
        proof {
            vstd::arithmetic::div_mod::lemma_fundamental_div_mod_converse(
                at as int,
                st,
                i as int,
                output_offset as int,
            );
            assert forall|j: int| 0 <= j < n implies #[trigger] output@[j] == if j / st < i + 1
                && j % st == output_offset {
                input@[j / st * input_channels + channel]
            } else {
                before[j]
            } by {
                vstd::arithmetic::div_mod::lemma_fundamental_div_mod(j, st);
                vstd::arithmetic::mul::lemma_mul_is_commutative(st, j / st);
            }
        }
    }
    proof {
        assert(output@ =~= Seq::new(
            before.len(),
            |j: int|
                if j / st < frame_size && j % st == output_offset {
                    input@[j / st * input_channels + channel]
                } else {
                    before[j]
                },
        ));
    }
}

/// The samples that stream `stream` codes.
pub fn stream_samples(layout: &ChannelLayout, stream: usize, pcm: &[i16], frame_size: usize) -> (r:
    Option<Vec<i16>>)
    requires
        stream < layout.nb_streams,
        layout.nb_channels <= 256,
        layout.nb_channels * frame_size <= pcm@.len(),
    ensures
        match r {
            Some(v) => layout.stream_fed(stream as int) && v@ == stream_pcm(
                *layout,
                stream as int,
                pcm@,
                frame_size as int,
            ),
            None => !layout.stream_fed(stream as int),
        },
{
    let ghost s = stream as int;
    let n: usize = layout.nb_channels;
    if stream < layout.nb_coupled_streams {
        let left: usize = match get_left_channel(layout, stream, None) {
            Some(c) => c,
            None => {
                assert(!layout.fed(2 * s));
                return None;
            },
        };
        let right: usize = match get_right_channel(layout, stream, None) {
            Some(c) => c,
            None => {
                assert(!layout.fed(2 * s + 1));
                return None;
            },
        };
        proof {
            assert(layout.takes(left as int, 2 * s));
            assert(layout.takes(right as int, 2 * s + 1));
            lemma_source_channel(*layout, 2 * s, left as int, 0);
            lemma_source_channel(*layout, 2 * s + 1, right as int, 0);
            assert(left != right);
            assert(2 * frame_size <= n * frame_size) by (nonlinear_arith)
                requires
                    n >= 2,
                    frame_size >= 0,
            ;
        }
        let have: usize = pcm.len();
        assert(2 * frame_size <= have);
        let mut out: Vec<i16> = vec![0i16;2 * frame_size];
        extract_i16_channel(pcm, n, left, frame_size, out.as_mut_slice(), 2, 0);
        extract_i16_channel(pcm, n, right, frame_size, out.as_mut_slice(), 2, 1);
        proof {
            let whole = stream_pcm(*layout, s, pcm@, frame_size as int);
            assert forall|j: int| 0 <= j < out@.len() implies #[trigger] out@[j] == whole[j] by {
                assert(j % 2 == 0 || j % 2 == 1);
                assert(2 * s + 0 == 2 * s);
            }
            assert(out@ =~= whole);
        }
        Some(out)
    } else {
        let chan: usize = match get_mono_channel(layout, stream, None) {
            Some(c) => c,
            None => {
                assert(!layout.fed(s + layout.nb_coupled_streams));
                return None;
            },
        };
        proof {
            assert(layout.takes(chan as int, s + layout.nb_coupled_streams));
            lemma_source_channel(*layout, s + layout.nb_coupled_streams, chan as int, 0);
        }
        let mut out: Vec<i16> = vec![0i16;frame_size];
        extract_i16_channel(pcm, n, chan, frame_size, out.as_mut_slice(), 1, 0);
        proof {
            let whole = stream_pcm(*layout, s, pcm@, frame_size as int);
            assert forall|j: int| 0 <= j < out@.len() implies #[trigger] out@[j] == whole[j] by {
                assert(j / 1 == j && j % 1 == 0);
            }
            assert(out@ =~= whole);
        }
        Some(out)
    }
}

// ---------------------------------------------------------------------
// One packet
// ---------------------------------------------------------------------

/// Options of one call.
#[derive(Debug, Clone, Copy)]
pub struct OpusMultistreamEncodeOptions {
    /// For how many streams energy masks are given, if any are.
    pub mask_streams: Option<usize>,
}

impl Default for OpusMultistreamEncodeOptions {
    fn default() -> (r: Self)
        ensures
            r.mask_streams is None,
    {
        OpusMultistreamEncodeOptions { mask_streams: None }
    }
}

/// The frame is refused, or rates can be divided by its size.
pub open spec fn frame_countable(e: OpusMultistreamEncoder, pcm_len: int, frame_size: int) -> bool {
    pcm_len < e.layout.nb_channels * frame_size || frame_divides(frame_size, e.sample_rate as int)
}

/// Why a frame is not coded at all.
pub open spec fn encode_fault(
    e: OpusMultistreamEncoder,
    pcm_len: int,
    frame_size: int,
    data_len: int,
    options: OpusMultistreamEncodeOptions,
) -> Option<OpusMultistreamEncoderError> {
    let streams = e.layout.nb_streams;
    if frame_size == 0 || pcm_len < e.layout.nb_channels * frame_size || (
    options.mask_streams is Some && options.mask_streams->0 != streams) {
        Some(OpusMultistreamEncoderError::BadArgument)
    } else if data_len < 2 * streams - 1 {
        Some(OpusMultistreamEncoderError::BufferTooSmall)
    } else {
        None
    }
}

/// The bitrate of each stream; 0 where the bitrate cannot be shared.
pub open spec fn stream_rates(e: OpusMultistreamEncoder, frame_size: int) -> Seq<int> {
    match shared_rates(
        e.layout,
        e.mapping_type,
        e.bitrate_bps as int,
        stream_index(e.lfe_stream),
        frame_size,
        e.sample_rate as int,
    ) {
        Some(rates) => floored_rates(rates),
        None => Seq::new(e.layout.nb_streams as nat, |s: int| 0),
    }
}

/// Checks the arguments of a call, and shares the bitrate among the streams.
pub fn opus_multistream_encode_start(
    encoder: &OpusMultistreamEncoder,
    pcm_len: usize,
    frame_size: usize,
    data_len: usize,
    options: OpusMultistreamEncodeOptions,
) -> (r: Result<Vec<i32>, OpusMultistreamEncoderError>)
    requires
        encoder.wf(),
        frame_countable(*encoder, pcm_len as int, frame_size as int),
    ensures
        match r {
            Ok(rates) => {
                &&& encode_fault(
                    *encoder,
                    pcm_len as int,
                    frame_size as int,
                    data_len as int,
                    options,
                ) is None
                &&& rates@.len() == encoder.layout.nb_streams
                &&& forall|s: int|
                    0 <= s < rates@.len() ==> #[trigger] rates@[s] == stream_rates(
                        *encoder,
                        frame_size as int,
                    )[s]
            },
            Err(e) => encode_fault(
                *encoder,
                pcm_len as int,
                frame_size as int,
                data_len as int,
                options,
            ) == Some(e),
        },
{
    let streams: usize = encoder.layout.nb_streams;
    if frame_size == 0 {
        return Err(OpusMultistreamEncoderError::BadArgument);
    }
    let needed: usize = match encoder.layout.nb_channels.checked_mul(frame_size) {
        Some(n) => n,
        None => return Err(OpusMultistreamEncoderError::BadArgument),
    };
    if pcm_len < needed {
        return Err(OpusMultistreamEncoderError::BadArgument);
    }
    if let Some(masks) = options.mask_streams {
        if masks != streams {
            return Err(OpusMultistreamEncoderError::BadArgument);
        }
    }
    if data_len < 2 * streams - 1 {
        return Err(OpusMultistreamEncoderError::BufferTooSmall);
    }
    let mut rates: Vec<i32> = vec![0i32;streams];
    let _ = rate_allocation(
        &encoder.layout,
        encoder.mapping_type,
        encoder.bitrate_bps,
        encoder.lfe_stream,
        frame_size,
        encoder.sample_rate,
        rates.as_mut_slice(),
    );
    Ok(rates)
}

/// Bytes that are kept for the streams behind `s`: two for each, but one for
/// the last.
pub open spec fn kept_bytes(s: int, streams: int) -> int {
    if s + 1 < streams {
        2 * (streams - s - 1) - 1
    } else {
        0
    }
}

/// Bytes that the packet of stream `s` may take, where `written` bytes of
/// `data_len` are taken; none where there are too few.
pub open spec fn offered(data_len: int, written: int, s: int, streams: int) -> Option<int> {
    let overhead = if s + 1 != streams {
        2int
    } else {
        0
    };
    let available = data_len - written - kept_bytes(s, streams);
    if available <= overhead + 1 {
        None
    } else {
        Some(available - overhead)
    }
}

/// A stream encoder with the bitrate that it is given, if it takes it.
pub open spec fn with_rate(e: OpusEncoder, rate: int) -> OpusEncoder {
    if encoder_takes(e, EncoderSetting::Bitrate(rate as i32)) {
        encoder_with(e, EncoderSetting::Bitrate(rate as i32))
    } else {
        e
    }
}

/// What a stream encoder is asked for: to code `samples` in at most
/// `max_bytes` bytes.
#[derive(Debug)]
pub struct StreamEncodeRequest {
    pub stream: usize,
    pub samples: Vec<i16>,
    pub max_bytes: usize,
}

/// What a stream encoder gave: its packet or its error, and what it reports
/// then.
#[derive(Debug)]
pub struct StreamEncoded {
    pub coded: Result<Vec<u8>, OpusEncodeError>,
    pub report: EncoderReport,
}

/// The stream encoders when stream `s` reports `report`.
pub open spec fn stream_reporting(es: Seq<OpusEncoder>, s: int, report: EncoderReport) -> Seq<
    OpusEncoder,
> {
    es.update(s, es[s].reporting(report))
}

/// Sets the bitrate of stream `stream`, and gathers what it codes.
pub fn opus_multistream_encode_request(
    encoder: &mut OpusMultistreamEncoder,
    stream: usize,
    rate: i32,
    pcm: &[i16],
    frame_size: usize,
    data_len: usize,
    written: usize,
) -> (r: Result<StreamEncodeRequest, OpusMultistreamEncoderError>)
    requires
        old(encoder).wf(),
        stream < old(encoder).layout.nb_streams,
        old(encoder).layout.nb_channels * frame_size <= pcm@.len(),
        written <= data_len,
    ensures
        final(encoder).wf(),
        match offered(
            data_len as int,
            written as int,
            stream as int,
            old(encoder).layout.nb_streams as int,
        ) {
            None => r is Err && r->Err_0 == OpusMultistreamEncoderError::BufferTooSmall && *final(
                encoder) == *old(encoder),
            Some(max) => {
                &&& r is Ok
                &&& r->Ok_0.stream == stream
                &&& r->Ok_0.max_bytes == max
                &&& r->Ok_0.samples@ == stream_pcm(
                    old(encoder).layout,
                    stream as int,
                    pcm@,
                    frame_size as int,
                )
                &&& *final(encoder) == (OpusMultistreamEncoder {
                    encoders: final(encoder).encoders,
                    ..*old(encoder)
                })
                &&& final(encoder).encoders@ == old(encoder).encoders@.update(
                    stream as int,
                    with_rate(old(encoder).encoders@[stream as int], rate as int),
                )
            },
        },
{
    let streams: usize = encoder.layout.nb_streams;
    let kept: usize = if stream + 1 < streams {
        2 * (streams - stream - 1) - 1
    } else {
        0
    };
    let overhead: usize = if stream + 1 != streams {
        2
    } else {
        0
    };
    let left: usize = data_len - written;
    if left < kept || left - kept <= overhead + 1 {
        return Err(OpusMultistreamEncoderError::BufferTooSmall);
    }
    let max_bytes: usize = left - kept - overhead;
    assert(encoder.encoders@[stream as int].wf());
    assert(encoder.layout.stream_fed(stream as int));
    let samples: Vec<i16> = match stream_samples(&encoder.layout, stream, pcm, frame_size) {
        Some(v) => v,
        None => return Err(OpusMultistreamEncoderError::BadArgument),
    };
    let mut one: OpusEncoder = encoder.encoders[stream];
    let _ = opus_encoder_set(&mut one, EncoderSetting::Bitrate(rate));
    encoder.encoders[stream] = one;
    Ok(StreamEncodeRequest { stream, samples, max_bytes })
}

pub open spec fn encode_error(e: OpusEncodeError) -> OpusMultistreamEncoderError {
    match e {
        OpusEncodeError::BadArgument => OpusMultistreamEncoderError::BadArgument,
        OpusEncodeError::BufferTooSmall => OpusMultistreamEncoderError::BufferTooSmall,
        OpusEncodeError::InternalError => OpusMultistreamEncoderError::InternalError,
        OpusEncodeError::Unimplemented => OpusMultistreamEncoderError::Unimplemented,
        OpusEncodeError::Silk(_) => OpusMultistreamEncoderError::Encode(e),
    }
}

/// The bytes of the whole packet, and where its next stream starts or an
/// error, when a stream encoder gives `out`.
pub open spec fn after_packet(
    data: Seq<u8>,
    written: int,
    self_delimited: bool,
    max: int,
    out: Result<Vec<u8>, OpusEncodeError>,
) -> (Seq<u8>, Result<int, OpusMultistreamEncoderError>) {
    match out {
        Err(e) => (data, Err(encode_error(e))),
        Ok(p) => if p@.len() > max {
            (data, Err(OpusMultistreamEncoderError::InternalError))
        } else {
            let (n, all) = framed_written(p@, self_delimited, data.len() - written);
            (
                overlaid(data, written, framed(p@, self_delimited).take(n)),
                if all {
                    Ok(written + n)
                } else {
                    Err(OpusMultistreamEncoderError::BufferTooSmall)
                },
            )
        },
    }
}

/// Takes what the encoder of stream `stream` gave for a request of `max_bytes`
/// bytes and reports, and returns where the next stream starts.
pub fn opus_multistream_encode_accept(
    encoder: &mut OpusMultistreamEncoder,
    stream: usize,
    outcome: &StreamEncoded,
    max_bytes: usize,
    data: &mut [u8],
    written: usize,
) -> (r: Result<usize, OpusMultistreamEncoderError>)
    requires
        old(encoder).wf(),
        stream < old(encoder).layout.nb_streams,
        written <= old(data)@.len(),
    ensures
        final(encoder).wf(),
        *final(encoder) == (OpusMultistreamEncoder {
            encoders: final(encoder).encoders,
            ..*old(encoder)
        }),
        final(encoder).encoders@ == stream_reporting(
            old(encoder).encoders@,
            stream as int,
            outcome.report,
        ),
        final(data)@.len() == old(data)@.len(),
        match after_packet(
            old(data)@,
            written as int,
            stream + 1 != old(encoder).layout.nb_streams,
            max_bytes as int,
            outcome.coded,
        ) {
            (d, Ok(n)) => final(data)@ == d && r == Ok::<usize, OpusMultistreamEncoderError>(
                n as usize,
            ) && 0 <= n <= old(data)@.len(),
            (d, Err(e)) => final(data)@ == d && r == Err::<usize, OpusMultistreamEncoderError>(e),
        },
{
    let total: usize = data.len();
    assert(written <= total);
    let self_delimited: bool = stream + 1 != encoder.layout.nb_streams;
    assert(encoder.encoders@[stream as int].wf());
    let mut one: OpusEncoder = encoder.encoders[stream];
    one.take_report(&outcome.report);
    encoder.encoders[stream] = one;
    match &outcome.coded {
        Err(e) => Err(OpusMultistreamEncoderError::from(*e)),
        Ok(packet) => {
            if packet.len() > max_bytes {
                return Err(OpusMultistreamEncoderError::InternalError);
            }
            match write_stream_packet(packet.as_slice(), self_delimited, data, written) {
                Some(n) => Ok(written + n),
                None => Err(OpusMultistreamEncoderError::BufferTooSmall),
            }
        },
    }
}

/// The stream encoders, the bytes of the packet, and its length or an error,
/// when the streams from `s` on give `outs`.
pub open spec fn encode_streams(
    streams: int,
    rates: Seq<int>,
    es: Seq<OpusEncoder>,
    data: Seq<u8>,
    s: int,
    written: int,
    outs: Seq<StreamEncoded>,
) -> (Seq<OpusEncoder>, Seq<u8>, Result<int, OpusMultistreamEncoderError>)
    decreases streams - s,
{
    if s >= streams {
        (es, data, Ok(written))
    } else {
        match offered(data.len() as int, written, s, streams) {
            None => (es, data, Err(OpusMultistreamEncoderError::BufferTooSmall)),
            Some(max) => {
                let set = es.update(s, with_rate(es[s], rates[s]));
                if s >= outs.len() {
                    (set, data, Err(OpusMultistreamEncoderError::InternalError))
                } else {
                    let told = stream_reporting(set, s, outs[s].report);
                    match after_packet(data, written, s + 1 != streams, max, outs[s].coded) {
                        (d, Err(e)) => (told, d, Err(e)),
                        (d, Ok(n)) => encode_streams(streams, rates, told, d, s + 1, n, outs),
                    }
                }
            },
        }
    }
}

/// What a call gives.
pub open spec fn encoded(
    before: OpusMultistreamEncoder,
    data: Seq<u8>,
    pcm_len: int,
    frame_size: int,
    options: OpusMultistreamEncodeOptions,
    outs: Seq<StreamEncoded>,
    after: OpusMultistreamEncoder,
    bytes: Seq<u8>,
    r: Result<usize, OpusMultistreamEncoderError>,
) -> bool {
    match encode_fault(before, pcm_len, frame_size, data.len() as int, options) {
        Some(e) => r == Err::<usize, OpusMultistreamEncoderError>(e) && after == before && bytes
            == data,
        None => {
            let (es, d, n) = encode_streams(
                before.layout.nb_streams as int,
                stream_rates(before, frame_size),
                before.encoders@,
                data,
                0,
                0,
                outs,
            );
            &&& after == (OpusMultistreamEncoder { encoders: after.encoders, ..before })
            &&& after.encoders@ == es
            &&& bytes == d
            &&& match n {
                Ok(len) => r == Ok::<usize, OpusMultistreamEncoderError>(len as usize),
                Err(e) => r == Err::<usize, OpusMultistreamEncoderError>(e),
            }
        },
    }
}

/// Codes a frame of interleaved channels into `data`, where `outcomes` is what
/// the stream encoders gave, one after the other. Returns the length of the
/// packet.
pub fn opus_multistream_encode_with_options(
    encoder: &mut OpusMultistreamEncoder,
    pcm: &[i16],
    frame_size: usize,
    data: &mut [u8],
    options: OpusMultistreamEncodeOptions,
    outcomes: &[StreamEncoded],
) -> (r: Result<usize, OpusMultistreamEncoderError>)
    requires
        old(encoder).wf(),
        frame_countable(*old(encoder), pcm@.len() as int, frame_size as int),
    ensures
        final(encoder).wf(),
        encoded(
            *old(encoder),
            old(data)@,
            pcm@.len() as int,
            frame_size as int,
            options,
            outcomes@,
            *final(encoder),
            final(data)@,
            r,
        ),
{
    let total: usize = data.len();
    let rates: Vec<i32> = match opus_multistream_encode_start(
        encoder,
        pcm.len(),
        frame_size,
        total,
        options,
    ) {
        Ok(rates) => rates,
        Err(e) => return Err(e),
    };
    let streams: usize = encoder.layout.nb_streams;
    let given: usize = outcomes.len();
    let ghost shares = stream_rates(*encoder, frame_size as int);
    let ghost whole = encode_streams(
        streams as int,
        shares,
        encoder.encoders@,
        data@,
        0,
        0,
        outcomes@,
    );
    let mut written: usize = 0;
    let mut stream: usize = 0;
    while stream < streams
        invariant
            encoder.wf(),
            *encoder == (OpusMultistreamEncoder { encoders: encoder.encoders, ..*old(encoder) }),
            streams == encoder.layout.nb_streams,
            stream <= streams,
            encoder.layout.nb_channels * frame_size <= pcm@.len(),
            given == outcomes@.len(),
            total == data@.len(),
            total == old(data)@.len(),
            written <= total,
            rates@.len() == streams,
            forall|s: int| 0 <= s < streams ==> #[trigger] rates@[s] == shares[s],
            shares == stream_rates(*old(encoder), frame_size as int),
            whole == encode_streams(
                streams as int,
                shares,
                encoder.encoders@,
                data@,
                stream as int,
                written as int,
                outcomes@,
            ),
            whole == encode_streams(
                streams as int,
                shares,
                old(encoder).encoders@,
                old(data)@,
                0,
                0,
                outcomes@,
            ),
            encode_fault(
                *old(encoder),
                pcm@.len() as int,
                frame_size as int,
                total as int,
                options,
            ) is None,
        decreases streams - stream,
    {
        let request: StreamEncodeRequest = match opus_multistream_encode_request(
            encoder,
            stream,
            rates[stream],
            pcm,
            frame_size,
            total,
            written,
        ) {
            Ok(request) => request,
            Err(e) => return Err(e),
        };
        if stream >= given {
            return Err(OpusMultistreamEncoderError::InternalError);
        }
        match opus_multistream_encode_accept(
            encoder,
            stream,
            &outcomes[stream],
            request.max_bytes,
            data,
            written,
        ) {
            Ok(n) => {
                written = n;
            },
            Err(e) => return Err(e),
        }
        stream = stream + 1;
    }
    Ok(written)
}

/// Codes a frame of interleaved 16-bit channels into `data`, where `outcomes`
/// is what the stream encoders gave.
pub fn opus_multistream_encode(
    encoder: &mut OpusMultistreamEncoder,
    pcm: &[i16],
    frame_size: usize,
    data: &mut [u8],
    outcomes: &[StreamEncoded],
) -> (r: Result<usize, OpusMultistreamEncoderError>)
    requires
        old(encoder).wf(),
        frame_countable(*old(encoder), pcm@.len() as int, frame_size as int),
    ensures
        final(encoder).wf(),
        encoded(
            *old(encoder),
            old(data)@,
            pcm@.len() as int,
            frame_size as int,
            (OpusMultistreamEncodeOptions { mask_streams: None }),
            outcomes@,
            *final(encoder),
            final(data)@,
            r,
        ),
{
    opus_multistream_encode_with_options(
        encoder,
        pcm,
        frame_size,
        data,
        OpusMultistreamEncodeOptions { mask_streams: None },
        outcomes,
    )
}

/// A 24-bit sample as a 16-bit one.
pub open spec fn sample_of_24(v: int) -> int {
    crate::fixed::sat16_of(v / 256)
}

/// The first `needed` samples of 24 bits as samples of 16 bits.
pub fn narrow_pcm24(pcm: &[i32], needed: usize) -> (r: Vec<i16>)
    requires
        needed <= pcm@.len(),
    ensures
        r@.len() == needed,
        forall|i: int| 0 <= i < needed ==> #[trigger] r@[i] == sample_of_24(pcm@[i] as int),
{
    let mut out: Vec<i16> = Vec::new();
    for i in 0..needed
        invariant
            needed <= pcm@.len(),
            out@.len() == i,
            forall|j: int| 0 <= j < i ==> #[trigger] out@[j] == sample_of_24(pcm@[j] as int),
    {
        proof {
            vstd::arithmetic::power2::lemma2_to64();
        }
        out.push(crate::fixed::sat16(crate::fixed::shr32(pcm[i], 8)));
    }
    out
}

/// Codes a frame of interleaved 24-bit channels into `data`, where `outcomes`
/// is what the stream encoders gave.
pub fn opus_multistream_encode24_with_options(
    encoder: &mut OpusMultistreamEncoder,
    pcm: &[i32],
    frame_size: usize,
    data: &mut [u8],
    options: OpusMultistreamEncodeOptions,
    outcomes: &[StreamEncoded],
) -> (r: Result<usize, OpusMultistreamEncoderError>)
    requires
        old(encoder).wf(),
        frame_countable(*old(encoder), pcm@.len() as int, frame_size as int),
    ensures
        final(encoder).wf(),
        encoded(
            *old(encoder),
            old(data)@,
            pcm@.len() as int,
            frame_size as int,
            options,
            outcomes@,
            *final(encoder),
            final(data)@,
            r,
        ),
{
    let have: usize = pcm.len();
    let needed: usize = match encoder.layout.nb_channels.checked_mul(frame_size) {
        Some(n) => n,
        None => return Err(OpusMultistreamEncoderError::BadArgument),
    };
    if have < needed {
        return Err(OpusMultistreamEncoderError::BadArgument);
    }
    let narrow: Vec<i16> = narrow_pcm24(pcm, needed);
    opus_multistream_encode_with_options(
        encoder,
        narrow.as_slice(),
        frame_size,
        data,
        options,
        outcomes,
    )
}

/// Codes a frame of interleaved 24-bit channels into `data`, where `outcomes`
/// is what the stream encoders gave.
pub fn opus_multistream_encode24(
    encoder: &mut OpusMultistreamEncoder,
    pcm: &[i32],
    frame_size: usize,
    data: &mut [u8],
    outcomes: &[StreamEncoded],
) -> (r: Result<usize, OpusMultistreamEncoderError>)
    requires
        old(encoder).wf(),
        frame_countable(*old(encoder), pcm@.len() as int, frame_size as int),
    ensures
        final(encoder).wf(),
        encoded(
            *old(encoder),
            old(data)@,
            pcm@.len() as int,
            frame_size as int,
            (OpusMultistreamEncodeOptions { mask_streams: None }),
            outcomes@,
            *final(encoder),
            final(data)@,
            r,
        ),
{
    opus_multistream_encode24_with_options(
        encoder,
        pcm,
        frame_size,
        data,
        OpusMultistreamEncodeOptions { mask_streams: None },
        outcomes,
    )
}

// ---------------------------------------------------------------------
// Laws
// ---------------------------------------------------------------------

/// A packet that keeps to its offer always fits with its size field, and
/// leaves the bytes that are kept for the streams behind it.
pub proof fn law_offered_packet_fits(
    data_len: int,
    written: int,
    s: int,
    streams: int,
    packet: Seq<u8>,
)
    requires
        0 <= s < streams,
        0 <= written <= data_len,
        offered(data_len, written, s, streams) is Some,
        0 < packet.len() <= offered(data_len, written, s, streams)->0,
    ensures
        ({
            let whole = framed(packet, s + 1 != streams).len() as int;
            &&& framed_written(packet, s + 1 != streams, data_len - written) == (whole, true)
            &&& written + whole + kept_bytes(s, streams) <= data_len
        }),
{
}

/// A packet with a single frame of at most 1275 bytes.
pub open spec fn single_frame(packet: Seq<u8>) -> bool {
    1 <= packet.len() <= 1276 && packet[0] % 4 == 0
}

/// A stream's packet with a single frame is read back from the front of a
/// multistream packet: it takes as many bytes as were written, and its frame
/// is the one that was coded.
pub proof fn law_framed_packet_reads_back(packet: Seq<u8>, rest: Seq<u8>)
    requires
        single_frame(packet),
    ensures
        ({
            let p = framed(packet, true) + rest;
            &&& packet_layout(p, p.len() as int, true) is Some
            &&& packet_bytes(p, true) == framed(packet, true).len()
            &&& p[0] == packet[0]
            &&& ({
                let l = packet_layout(p, p.len() as int, true)->0;
                l.sizes.len() == 1 && p.subrange(l.start, l.start + l.sizes[0]) == packet.skip(1)
            })
        }),
{
    let p = framed(packet, true) + rest;
    let size = packet.len() - 1;
    let field = size_field(size);
    assert(p[0] == packet[0]);
    assert(p[1] == field[0]);
    if size >= 252 {
        assert(p[2] == field[1]);
        assert((size - 252 - size % 4) / 4 < 256);
        assert((252 + size % 4) + 4 * ((size - 252 - size % 4) / 4) == size);
    }
    assert(size_at(p, p.len() as int, 1) == Some((field.len() as int, size)));
    let h = packet_head(p, p.len() as int)->0;
    reveal_with_fuel(sizes_at, 2);
    assert(sizes_at(p, p.len() as int, 1, h.left, 0) == Some((Seq::<int>::empty(), 1int, h.left)));
    let l = packet_layout(p, p.len() as int, true)->0;
    assert(l.sizes =~= seq![size]);
    reveal_with_fuel(sum_to, 2);
    assert(frame_start(l, 1) == l.start + size);
    assert(p.subrange(l.start, l.start + size) =~= packet.skip(1));
}

/// The last packet, which is not self-delimited, is read back whole.
proof fn lemma_last_packet(packet: Seq<u8>)
    requires
        single_frame(packet),
    ensures
        packet_layout(packet, packet.len() as int, false) is Some,
        packet_bytes(packet, false) == packet.len(),
{
    reveal_with_fuel(sizes_at, 2);
    reveal_with_fuel(sum_to, 2);
    let h = packet_head(packet, packet.len() as int)->0;
    assert(sizes_at(packet, packet.len() as int, 1, h.left, 0) == Some(
        (Seq::<int>::empty(), 1int, h.left),
    ));
    let l = packet_layout(packet, packet.len() as int, false)->0;
    assert(l.sizes =~= seq![h.left]);
}

/// The packets of the streams, one behind the other.
pub open spec fn joined(packets: Seq<Seq<u8>>) -> Seq<u8>
    decreases packets.len(),
{
    if packets.len() == 0 {
        seq![]
    } else {
        framed(packets[0], packets.len() != 1) + joined(packets.skip(1))
    }
}

/// Streams that each code a single frame of the same length make a multistream
/// packet that is valid and has that length.
pub proof fn law_joined_packets_are_valid(
    packets: Seq<Seq<u8>>,
    fs: int,
    samples: int,
    before: Option<int>,
)
    requires
        packets.len() > 0,
        forall|s: int|
            0 <= s < packets.len() ==> single_frame(#[trigger] packets[s]) && toc_frame_samples(
                packets[s][0],
                fs,
            ) == Some(samples),
        samples * 25 <= fs * 3,
        before is None || before->0 == samples,
    ensures
        common_samples(joined(packets), packets.len(), fs, before) == Ok::<
            int,
            crate::packet::PacketError,
        >(samples),
    decreases packets.len(),
{
    let p = joined(packets);
    let rest = joined(packets.skip(1));
    let first = packets[0];
    assert(single_frame(first));
    assert(p[0] == first[0]);
    assert(announced_frames(p) == 1);
    assert(packet_samples(p, fs) == Ok::<int, crate::packet::PacketError>(samples));
    if packets.len() == 1 {
        assert(rest.len() == 0);
        assert(p =~= first);
        lemma_last_packet(first);
        assert(common_samples(p.skip(packet_bytes(p, false)), 0, fs, Some(samples)) == Ok::<
            int,
            crate::packet::PacketError,
        >(samples));
    } else {
        law_framed_packet_reads_back(first, rest);
        let next = packets.skip(1);
        assert forall|s: int| 0 <= s < next.len() implies single_frame(#[trigger] next[s])
            && toc_frame_samples(next[s][0], fs) == Some(samples) by {
            assert(next[s] == packets[s + 1]);
        }
        law_joined_packets_are_valid(next, fs, samples, Some(samples));
        assert(p.skip(packet_bytes(p, true)) =~= rest);
    }
}

/// What the stream encoders gave, from stream `s` on.
pub open spec fn given_packets(
    outs: Seq<StreamEncoded>,
    s: int,
    streams: int,
) -> Seq<Seq<u8>> {
    Seq::new((streams - s) as nat, |k: int| outs[s + k].coded->Ok_0@)
}

/// A packet that was coded is made of the streams' packets, one behind the
/// other, and the bytes before and behind it are left alone.
pub proof fn law_encoded_is_joined(
    streams: int,
    rates: Seq<int>,
    es: Seq<OpusEncoder>,
    data: Seq<u8>,
    s: int,
    written: int,
    outs: Seq<StreamEncoded>,
)
    requires
        0 <= s <= streams,
        0 <= written <= data.len(),
        encode_streams(streams, rates, es, data, s, written, outs).2 is Ok,
    ensures
        ({
            let (_, d, n) = encode_streams(streams, rates, es, data, s, written, outs);
            let len = n->Ok_0;
            &&& written <= len <= data.len()
            &&& d.len() == data.len()
            &&& d.subrange(written, len) == joined(given_packets(outs, s, streams))
            &&& forall|i: int| 0 <= i < written || len <= i < d.len() ==> #[trigger] d[i] == data[i]
        }),
    decreases streams - s,
{
    let (_, d, n) = encode_streams(streams, rates, es, data, s, written, outs);
    let len = n->Ok_0;
    let packets = given_packets(outs, s, streams);
    if s >= streams {
        assert(d.subrange(written, len) =~= joined(packets));
    } else {
        let max = offered(data.len() as int, written, s, streams)->0;
        let set = es.update(s, with_rate(es[s], rates[s]));
        let told = stream_reporting(set, s, outs[s].report);
        let p = outs[s].coded->Ok_0@;
        let whole = framed(p, s + 1 != streams);
        let mid = after_packet(data, written, s + 1 != streams, max, outs[s].coded).0;
        let next = written + whole.len();
        assert(whole.take(whole.len() as int) =~= whole);
        assert(mid == overlaid(data, written, whole));
        law_encoded_is_joined(streams, rates, told, mid, s + 1, next, outs);
        assert(packets.skip(1) =~= given_packets(outs, s + 1, streams));
        assert(packets[0] == p);
        assert(d.subrange(written, len) =~= whole + d.subrange(next, len)) by {
            assert forall|i: int| 0 <= i < whole.len() implies d[written + i] == whole[i] by {
                assert(d[written + i] == mid[written + i]);
            }
        }
    }
}

/// When a packet is coded, each stream from `s` on has the bitrate that it was
/// given, if it takes it, and reports what its encoder gave; the earlier ones are
/// as before.
pub proof fn law_coded_streams_report(
    streams: int,
    rates: Seq<int>,
    es: Seq<OpusEncoder>,
    data: Seq<u8>,
    s: int,
    written: int,
    outs: Seq<StreamEncoded>,
)
    requires
        0 <= s <= streams,
        es.len() == streams,
        encode_streams(streams, rates, es, data, s, written, outs).2 is Ok,
    ensures
        ({
            let after = encode_streams(streams, rates, es, data, s, written, outs).0;
            &&& after.len() == es.len()
            &&& forall|k: int|
                0 <= k < es.len() ==> #[trigger] after[k] == if k < s {
                    es[k]
                } else {
                    with_rate(es[k], rates[k]).reporting(outs[k].report)
                }
        }),
    decreases streams - s,
{
    if s < streams {
        let max = offered(data.len() as int, written, s, streams)->0;
        let set = es.update(s, with_rate(es[s], rates[s]));
        let told = stream_reporting(set, s, outs[s].report);
        let (d, n) = after_packet(data, written, s + 1 != streams, max, outs[s].coded);
        law_coded_streams_report(streams, rates, told, d, s + 1, n->Ok_0, outs);
    }
}

/// Once a stream reports that it has coded a frame, the application of the
/// encoder can no longer change.
pub proof fn law_application_stays_after_a_frame(e: OpusEncoder, report: EncoderReport, v: i32)
    requires
        !report.first,
        v != e.application,
    ensures
        !encoder_takes(e.reporting(report), EncoderSetting::Application(v)),
{
}

} // verus!
