//! Decoding of a multistream packet: its division into streams, and the way of
//! the decoded samples into the channels.
use crate::channel_layout::{
    get_left_channel, get_mono_channel, get_right_channel, ChannelLayout,
};
use crate::multistream_decoder::{OpusMultistreamDecoder, OpusMultistreamDecoderError};
use crate::opus_decoder::{DecoderReport, OpusDecodeError, OpusDecoder};
use crate::packet::{
    announced_samples, frame_start, law_layout_inside, lemma_counted_start,
    opus_packet_get_nb_samples, opus_packet_parse_impl, packet_layout, toc_frame_samples,
    PacketError, ParsedPacket,
};
use vstd::prelude::*;

verus! {

/// Bytes that the packet at the front of `p` takes.
pub open spec fn packet_bytes(p: Seq<u8>, self_delimited: bool) -> int {
    let l = packet_layout(p, p.len() as int, self_delimited)->0;
    frame_start(l, l.sizes.len() as int) + l.pad
}

/// Samples of the packet at the front of `p`, which last at most 120 ms.
pub open spec fn packet_samples(p: Seq<u8>, fs: int) -> Result<int, PacketError> {
    if toc_frame_samples(p[0], fs) is None {
        Err(PacketError::BadArgument)
    } else if announced_samples(p, fs) * 25 > fs * 3 {
        Err(PacketError::InvalidPacket)
    } else {
        Ok(announced_samples(p, fs))
    }
}

/// The samples that `streams` packets, one behind the other, have in common
/// with each other and with `before`. All but the last are self-delimited.
pub open spec fn common_samples(p: Seq<u8>, streams: nat, fs: int, before: Option<int>) -> Result<
    int,
    PacketError,
>
    decreases streams,
{
    if streams == 0 {
        match before {
            Some(n) => Ok(n),
            None => Err(PacketError::InvalidPacket),
        }
    } else if p.len() == 0 || packet_layout(p, p.len() as int, streams != 1) is None {
        Err(PacketError::InvalidPacket)
    } else {
        match packet_samples(p, fs) {
            Err(e) => Err(e),
            Ok(n) => if before is Some && before->0 != n {
                Err(PacketError::InvalidPacket)
            } else {
                common_samples(
                    p.skip(packet_bytes(p, streams != 1)),
                    (streams - 1) as nat,
                    fs,
                    Some(n),
                )
            },
        }
    }
}

/// What a multistream packet of `nb_streams` streams holds, or its fault.
pub open spec fn validated(data: Seq<u8>, len: int, nb_streams: int, fs: int) -> Result<
    int,
    OpusMultistreamDecoderError,
> {
    if len > data.len() || nb_streams == 0 || fs <= 0 {
        Err(OpusMultistreamDecoderError::BadArgument)
    } else {
        match common_samples(data.take(len), nb_streams as nat, fs, None) {
            Ok(n) => Ok(n),
            Err(PacketError::BadArgument) => Err(OpusMultistreamDecoderError::BadArgument),
            Err(PacketError::InvalidPacket) => Err(OpusMultistreamDecoderError::InvalidPacket),
        }
    }
}

/// The samples that all streams of `data[..len]` hold.
pub fn opus_multistream_packet_validate(
    data: &[u8],
    len: usize,
    nb_streams: usize,
    sample_rate: i32,
) -> (r: Result<usize, OpusMultistreamDecoderError>)
    ensures
        match r {
            Ok(n) => validated(data@, len as int, nb_streams as int, sample_rate as int) == Ok::<
                int,
                OpusMultistreamDecoderError,
            >(n as int),
            Err(e) => validated(data@, len as int, nb_streams as int, sample_rate as int) == Err::<
                int,
                OpusMultistreamDecoderError,
            >(e),
        },
{
    if len > data.len() || nb_streams == 0 || sample_rate <= 0 {
        return Err(OpusMultistreamDecoderError::BadArgument);
    }
    let ghost fs = sample_rate as int;
    let mut cursor: &[u8] = &data[0..len];
    let ghost whole = common_samples(cursor@, nb_streams as nat, fs, None);
    assert(cursor@ =~= data@.take(len as int));
    let mut samples: Option<usize> = None;
    let mut stream: usize = 0;
    while stream < nb_streams
        invariant
            fs == sample_rate,
            sample_rate > 0,
            stream <= nb_streams,
            whole == common_samples(
                cursor@,
                (nb_streams - stream) as nat,
                fs,
                match samples {
                    Some(n) => Some(n as int),
                    None => None,
                },
            ),
            validated(data@, len as int, nb_streams as int, sample_rate as int) == (match whole {
                Ok(n) => Ok::<int, OpusMultistreamDecoderError>(n),
                Err(PacketError::BadArgument) => Err(OpusMultistreamDecoderError::BadArgument),
                Err(PacketError::InvalidPacket) => Err(OpusMultistreamDecoderError::InvalidPacket),
            }),
        decreases nb_streams - stream,
    {
        let remaining: usize = cursor.len();
        if remaining == 0 {
            return Err(OpusMultistreamDecoderError::InvalidPacket);
        }
        let parsed: ParsedPacket = match opus_packet_parse_impl(
            cursor,
            remaining,
            stream + 1 != nb_streams,
        ) {
            Ok(p) => p,
            Err(e) => return Err(OpusMultistreamDecoderError::from(e)),
        };
        let used: usize = parsed.packet_offset;
        proof {
            law_layout_inside(cursor@, remaining as int, stream + 1 != nb_streams);
            lemma_coded_count(cursor@, remaining as int, stream + 1 != nb_streams);
        }
        let count: usize = match opus_packet_get_nb_samples(cursor, used, sample_rate as u32) {
            Ok(n) => n,
            Err(e) => return Err(OpusMultistreamDecoderError::from(e)),
        };
        if let Some(before) = samples {
            if before != count {
                return Err(OpusMultistreamDecoderError::InvalidPacket);
            }
        }
        samples = Some(count);
        let ghost here = cursor@;
        cursor = &cursor[used..remaining];
        assert(cursor@ =~= here.skip(used as int));
        stream = stream + 1;
    }
    match samples {
        Some(n) => Ok(n),
        None => Err(OpusMultistreamDecoderError::InvalidPacket),
    }
}

/// A packet takes at least one byte, and two where it announces its frame
/// count.
proof fn lemma_coded_count(p: Seq<u8>, len: int, self_delimited: bool)
    requires
        len == p.len(),
        len > 0,
        packet_layout(p, len, self_delimited) is Some,
    ensures
        packet_bytes(p, self_delimited) >= 1,
        p[0] % 4 == 3 ==> packet_bytes(p, self_delimited) >= 2,
{
    law_layout_inside(p, len, self_delimited);
    let l = packet_layout(p, len, self_delimited)->0;
    assert(frame_start(l, l.sizes.len() as int) >= l.start);
    if p[0] % 4 == 3 {
        lemma_counted_start(p, len, self_delimited);
    }
}

// ---------------------------------------------------------------------
// Samples into channels
// ---------------------------------------------------------------------

/// The sample at `i`, or `zero` where there is none.
pub open spec fn sample_or<T>(src: Seq<T>, i: int, zero: T) -> T {
    if 0 <= i < src.len() {
        src[i]
    } else {
        zero
    }
}

/// Channel `c` of interleaved channels with its first `frames` samples
/// replaced.
pub open spec fn with_channel<T>(
    dst: Seq<T>,
    stride: int,
    c: int,
    frames: int,
    value: spec_fn(int) -> T,
) -> Seq<T> {
    Seq::new(
        dst.len(),
        |j: int|
            if j >= c && (j - c) % stride == 0 && (j - c) / stride < frames {
                value((j - c) / stride)
            } else {
                dst[j]
            },
    )
}

/// The samples that go to a channel: every `stride`-th one from an offset on,
/// or silence.
pub open spec fn channel_source<T>(
    src: Option<(Seq<T>, int)>,
    src_offset: int,
    zero: T,
) -> spec_fn(int) -> T {
    |i: int|
        match src {
            Some((data, stride)) => sample_or(data, src_offset + i * stride, zero),
            None => zero,
        }
}

pub open spec fn source_view<T>(src: Option<(&[T], usize)>) -> Option<(Seq<T>, int)> {
    match src {
        Some((data, stride)) => Some((data@, stride as int)),
        None => None,
    }
}

proof fn lemma_on_stride(j: int, c: int, stride: int, i: int)
    requires
        stride > 0,
    ensures
        j == c + i * stride ==> (j - c) % stride == 0 && (j - c) / stride == i,
        (j - c) % stride == 0 && (j - c) / stride == i ==> j == c + i * stride,
        j == c + i * stride && i >= 0 ==> j >= c,
        j >= c && (j - c) % stride == 0 ==> (j - c) / stride >= 0,
        j >= c && (j - c) % stride == 0 ==> j == c + ((j - c) / stride) * stride,
{
    if j == c + i * stride {
        vstd::arithmetic::div_mod::lemma_fundamental_div_mod_converse(j - c, stride, i, 0);
        if i >= 0 {
            assert(i * stride >= 0) by (nonlinear_arith)
                requires
                    i >= 0,
                    stride > 0,
            ;
        }
    }
    vstd::arithmetic::div_mod::lemma_fundamental_div_mod(j - c, stride);
    if j >= c {
        vstd::arithmetic::div_mod::lemma_div_pos_is_pos(j - c, stride);
    }
    vstd::arithmetic::mul::lemma_mul_is_commutative(stride, (j - c) / stride);
}

/// Copies a stream's samples, or silence, to channel `dst_channel` of
/// `dst_stride` interleaved channels, as far as `dst` reaches.
pub fn copy_channel_out<T: Copy>(
    dst: &mut [T],
    dst_stride: usize,
    dst_channel: usize,
    src: Option<(&[T], usize)>,
    frame_size: usize,
    src_offset: usize,
    zero: T,
)
    ensures
        final(dst)@ == (if dst_stride == 0 {
            old(dst)@
        } else {
            with_channel(
                old(dst)@,
                dst_stride as int,
                dst_channel as int,
                frame_size as int,
                channel_source(source_view(src), src_offset as int, zero),
            )
        }),
{
    let ghost before = dst@;
    let ghost value = channel_source(source_view(src), src_offset as int, zero);
    let ghost st = dst_stride as int;
    let ghost ch = dst_channel as int;
    if dst_stride == 0 {
        return;
    }
    let n: usize = dst.len();
    let mut index: usize = dst_channel;
    let mut i: usize = 0;
    proof {
        assert forall|j: int| 0 <= j < n implies #[trigger] dst@[j] == with_channel(
            before,
            st,
            ch,
            0,
            value,
        )[j] by {
            lemma_on_stride(j, ch, st, 0);
        }
        assert(dst@ =~= with_channel(before, st, ch, 0, value));
    }
    while i < frame_size && index < n
        invariant
            n == dst@.len(),
            n == before.len(),
            st == dst_stride,
            ch == dst_channel,
            dst_stride > 0,
            i <= frame_size,
            value == channel_source(source_view(src), src_offset as int, zero),
            dst@ == with_channel(before, st, ch, i as int, value),
            index == ch + i * st || (n <= index && n <= ch + i * st),
        decreases frame_size - i,
    {
        let item: T = match src {
            Some((data, stride)) => pick(data, src_offset, i, stride, zero),
            None => zero,
        };
        assert(item == value(i as int));
        let ghost mid = dst@;
        dst[index] = item;
        proof {
            assert forall|j: int| 0 <= j < n implies #[trigger] dst@[j] == with_channel(
                before,
                st,
                ch,
                i + 1,
                value,
            )[j] by {
                lemma_on_stride(j, ch, st, i as int);
                lemma_on_stride(j, ch, st, (j - ch) / st);
                if j == index {
                    assert((j - ch) / st == i);
                } else {
                    assert(mid[j] == dst@[j]);
                    assert(!(j >= ch && (j - ch) % st == 0 && (j - ch) / st == i));
                }
            }
            assert(dst@ =~= with_channel(before, st, ch, i + 1, value));
            assert((i + 1) * st == i * st + st) by (nonlinear_arith);
        }
        i = i + 1;
        match index.checked_add(dst_stride) {
            Some(next) => {
                index = next;
            },
            None => {
                index = n;
            },
        }
    }
    proof {
        assert(index >= n || i == frame_size);
        if i < frame_size {
            assert(n <= ch + i * st);
            assert forall|j: int| 0 <= j < n implies #[trigger] dst@[j] == with_channel(
                before,
                st,
                ch,
                frame_size as int,
                value,
            )[j] by {
                lemma_on_stride(j, ch, st, (j - ch) / st);
                if j >= ch && (j - ch) % st == 0 {
                    let q = (j - ch) / st;
                    assert(q < i) by (nonlinear_arith)
                        requires
                            q * st < i * st,
                            st > 0,
                    ;
                }
            }
            assert(dst@ =~= with_channel(before, st, ch, frame_size as int, value));
        }
    }
}

/// Sample `offset + i * stride`, or `zero` where there is none.
fn pick<T: Copy>(data: &[T], offset: usize, i: usize, stride: usize, zero: T) -> (r: T)
    ensures
        r == sample_or(data@, offset + i * stride, zero),
{
    proof {
        assert(0 <= i * stride) by (nonlinear_arith);
    }
    let n: usize = data.len();
    let step: usize = match i.checked_mul(stride) {
        Some(v) => v,
        None => return zero,
    };
    let at: usize = match offset.checked_add(step) {
        Some(v) => v,
        None => return zero,
    };
    if at < n {
        data[at]
    } else {
        zero
    }
}

/// The sample that channel `c` takes from stream `s` at time `i`; none where
/// the channel does not take the stream.
pub open spec fn routed_sample<T>(
    l: ChannelLayout,
    s: int,
    samples: Seq<T>,
    c: int,
    i: int,
    zero: T,
) -> Option<T> {
    let input = l.mapping@[c] as int;
    if s < l.nb_coupled_streams {
        if input == 2 * s {
            Some(sample_or(samples, 2 * i, zero))
        } else if input == 2 * s + 1 {
            Some(sample_or(samples, 2 * i + 1, zero))
        } else {
            None
        }
    } else if input == s + l.nb_coupled_streams {
        Some(sample_or(samples, i, zero))
    } else {
        None
    }
}

/// The channels after the first `frames` samples of stream `s` went to the
/// channels that take them.
pub open spec fn routed<T>(
    l: ChannelLayout,
    pcm: Seq<T>,
    s: int,
    samples: Seq<T>,
    frames: int,
    zero: T,
) -> Seq<T> {
    let n = l.nb_channels as int;
    Seq::new(
        pcm.len(),
        |j: int|
            match routed_sample(l, s, samples, j % n, j / n, zero) {
                Some(v) if j / n < frames => v,
                _ => pcm[j],
            },
    )
}

/// The channels after the first `frames` samples of those that take no stream
/// were silenced.
pub open spec fn silenced<T>(l: ChannelLayout, pcm: Seq<T>, frames: int, zero: T) -> Seq<T> {
    let n = l.nb_channels as int;
    Seq::new(
        pcm.len(),
        |j: int|
            if l.mapping@[j % n] == 255 && j / n < frames {
                zero
            } else {
                pcm[j]
            },
    )
}

/// The channels of `l` below `k` that take input `input` have got theirs.
spec fn fed_below<T>(
    l: ChannelLayout,
    before: Seq<T>,
    after: Seq<T>,
    input: int,
    k: int,
    frames: int,
    value: spec_fn(int) -> T,
) -> bool {
    let n = l.nb_channels as int;
    &&& after.len() == before.len()
    &&& forall|j: int|
        0 <= j < before.len() ==> #[trigger] after[j] == if j % n < k && l.mapping@[j % n] == input
            && j / n < frames {
            value(j / n)
        } else {
            before[j]
        }
}

proof fn lemma_one_more_channel<T>(
    l: ChannelLayout,
    before: Seq<T>,
    mid: Seq<T>,
    input: int,
    k: int,
    c: int,
    frames: int,
    value: spec_fn(int) -> T,
)
    requires
        0 <= k <= c < l.nb_channels,
        c < 256,
        l.takes(c, input),
        forall|d: int| k <= d < c ==> !#[trigger] l.takes(d, input),
        fed_below(l, before, mid, input, k, frames, value),
        l.nb_channels <= 256,
    ensures
        fed_below(
            l,
            before,
            with_channel(mid, l.nb_channels as int, c, frames, value),
            input,
            c + 1,
            frames,
            value,
        ),
{
    let n = l.nb_channels as int;
    let after = with_channel(mid, n, c, frames, value);
    assert forall|j: int| 0 <= j < before.len() implies #[trigger] after[j] == if j % n < c + 1
        && l.mapping@[j % n] == input && j / n < frames {
        value(j / n)
    } else {
        before[j]
    } by {
        vstd::arithmetic::div_mod::lemma_fundamental_div_mod(j, n);
        vstd::arithmetic::div_mod::lemma_mod_bound(j, n);
        vstd::arithmetic::mul::lemma_mul_is_commutative(n, j / n);
        lemma_on_stride(j, c, n, j / n);
        if j >= c && (j - c) % n == 0 {
            let q = (j - c) / n;
            lemma_on_stride(j, c, n, q);
            vstd::arithmetic::div_mod::lemma_fundamental_div_mod_converse(j, n, q, c);
            assert(j % n == c);
        } else {
            assert(j % n != c) by {
                if j % n == c {
                    vstd::arithmetic::div_mod::lemma_div_pos_is_pos(j, n);
                    assert((j / n) * n >= 0) by (nonlinear_arith)
                        requires
                            j / n >= 0,
                            n > 0,
                    ;
                }
            }
            let d = j % n;
            if k <= d < c {
                assert(!l.takes(d, input));
            }
        }
    }
}

/// Which side of a stream's samples a channel takes.
#[derive(Clone, Copy)]
enum Side {
    Left,
    Right,
    Mono,
}

impl Side {
    spec fn input(self, l: ChannelLayout, stream: int) -> int {
        match self {
            Side::Left => 2 * stream,
            Side::Right => 2 * stream + 1,
            Side::Mono => stream + l.nb_coupled_streams,
        }
    }

    spec fn stride(self) -> int {
        match self {
            Side::Mono => 1,
            _ => 2,
        }
    }

    spec fn offset(self) -> int {
        match self {
            Side::Right => 1,
            _ => 0,
        }
    }
}

fn feed_side<T: Copy>(
    layout: &ChannelLayout,
    stream: usize,
    side: Side,
    samples: &[T],
    pcm: &mut [T],
    frame_size: usize,
    zero: T,
)
    requires
        1 <= layout.nb_channels <= 256,
    ensures
        fed_below(
            *layout,
            old(pcm)@,
            final(pcm)@,
            side.input(*layout, stream as int),
            layout.nb_channels as int,
            frame_size as int,
            channel_source(Some((samples@, side.stride())), side.offset(), zero),
        ),
{
    let ghost before = pcm@;
    let ghost input = side.input(*layout, stream as int);
    let ghost value = channel_source(Some((samples@, side.stride())), side.offset(), zero);
    let mut prev: Option<usize> = None;
    let mut done: bool = false;
    let ghost mut k = 0int;
    proof {
        assert forall|j: int| 0 <= j < before.len() implies 0 <= #[trigger] (j
            % layout.nb_channels as int) by {
            vstd::arithmetic::div_mod::lemma_mod_bound(j, layout.nb_channels as int);
        }
    }
    while !done
        invariant
            1 <= layout.nb_channels <= 256,
            0 <= k <= layout.nb_channels,
            prev is None ==> k == 0,
            prev is Some ==> prev->0 + 1 == k,
            before == old(pcm)@,
            input == side.input(*layout, stream as int),
            value == channel_source(Some((samples@, side.stride())), side.offset(), zero),
            done ==> fed_below(
                *layout,
                before,
                pcm@,
                input,
                layout.nb_channels as int,
                frame_size as int,
                value,
            ),
            !done ==> fed_below(*layout, before, pcm@, input, k, frame_size as int, value),
        decreases layout.nb_channels - k, (if done {
            0int
        } else {
            1int
        }),
    {
        let found: Option<usize> = match side {
            Side::Left => get_left_channel(layout, stream, prev),
            Side::Right => get_right_channel(layout, stream, prev),
            Side::Mono => get_mono_channel(layout, stream, prev),
        };
        match found {
            Some(c) => {
                let stride: usize = match side {
                    Side::Mono => 1,
                    _ => 2,
                };
                let offset: usize = match side {
                    Side::Right => 1,
                    _ => 0,
                };
                let ghost mid = pcm@;
                copy_channel_out(
                    pcm,
                    layout.nb_channels,
                    c,
                    Some((samples, stride)),
                    frame_size,
                    offset,
                    zero,
                );
                proof {
                    lemma_one_more_channel(
                        *layout,
                        before,
                        mid,
                        input,
                        k,
                        c as int,
                        frame_size as int,
                        value,
                    );
                    k = c + 1;
                }
                prev = Some(c);
            },
            None => {
                done = true;
                proof {
                    let n = layout.nb_channels as int;
                    assert forall|j: int| 0 <= j < before.len() implies #[trigger] pcm@[j] == if j
                        % n < n && layout.mapping@[j % n] == input && j / n < frame_size {
                        value(j / n)
                    } else {
                        before[j]
                    } by {
                        vstd::arithmetic::div_mod::lemma_mod_bound(j, n);
                        if j % n >= k {
                            assert(!layout.takes(j % n, input));
                        }
                    }
                }
            },
        }
    }
}

/// Hands the samples of a decoded stream to the channels that take them.
pub fn route_stream<T: Copy>(
    layout: &ChannelLayout,
    stream: usize,
    samples: &[T],
    pcm: &mut [T],
    frame_size: usize,
    zero: T,
)
    requires
        1 <= layout.nb_channels <= 256,
    ensures
        final(pcm)@ == routed(
            *layout,
            old(pcm)@,
            stream as int,
            samples@,
            frame_size as int,
            zero,
        ),
{
    let ghost before = pcm@;
    let ghost n = layout.nb_channels as int;
    let ghost s = stream as int;
    if stream < layout.nb_coupled_streams {
        feed_side(layout, stream, Side::Left, samples, pcm, frame_size, zero);
        let ghost mid = pcm@;
        feed_side(layout, stream, Side::Right, samples, pcm, frame_size, zero);
        proof {
            let after = routed(*layout, before, s, samples@, frame_size as int, zero);
            assert forall|j: int| 0 <= j < before.len() implies #[trigger] pcm@[j] == after[j] by {
                vstd::arithmetic::div_mod::lemma_mod_bound(j, n);
                assert(mid[j] == mid[j]);
            }
            assert(pcm@ =~= after);
        }
    } else {
        feed_side(layout, stream, Side::Mono, samples, pcm, frame_size, zero);
        proof {
            let after = routed(*layout, before, s, samples@, frame_size as int, zero);
            assert forall|j: int| 0 <= j < before.len() implies #[trigger] pcm@[j] == after[j] by {
                vstd::arithmetic::div_mod::lemma_mod_bound(j, n);
            }
            assert(pcm@ =~= after);
        }
    }
}

/// Silences the channels that take no stream.
pub fn mute_channels<T: Copy>(layout: &ChannelLayout, pcm: &mut [T], frame_size: usize, zero: T)
    requires
        1 <= layout.nb_channels <= 256,
    ensures
        final(pcm)@ == silenced(*layout, old(pcm)@, frame_size as int, zero),
{
    let ghost before = pcm@;
    let ghost n = layout.nb_channels as int;
    let ghost value = channel_source(None::<(Seq<T>, int)>, 0, zero);
    proof {
        assert forall|j: int| 0 <= j < before.len() implies 0 <= #[trigger] (j % n) by {
            vstd::arithmetic::div_mod::lemma_mod_bound(j, n);
        }
    }
    let mut c: usize = 0;
    while c < layout.nb_channels
        invariant
            1 <= layout.nb_channels <= 256,
            c <= layout.nb_channels,
            n == layout.nb_channels,
            before == old(pcm)@,
            value == channel_source(None::<(Seq<T>, int)>, 0, zero),
            fed_below(*layout, before, pcm@, 255, c as int, frame_size as int, value),
        decreases layout.nb_channels - c,
    {
        let ghost mid = pcm@;
        if layout.mapping[c] == 255 {
            copy_channel_out(pcm, layout.nb_channels, c, None, frame_size, 0, zero);
            proof {
                assert(layout.takes(c as int, 255));
                lemma_one_more_channel(
                    *layout,
                    before,
                    mid,
                    255,
                    c as int,
                    c as int,
                    frame_size as int,
                    value,
                );
            }
        } else {
            proof {
                assert forall|j: int| 0 <= j < before.len() implies #[trigger] pcm@[j] == if j % n
                    < c + 1 && layout.mapping@[j % n] == 255 && j / n < frame_size {
                    value(j / n)
                } else {
                    before[j]
                } by {
                    vstd::arithmetic::div_mod::lemma_mod_bound(j, n);
                }
            }
        }
        c = c + 1;
    }
    proof {
        let after = silenced(*layout, before, frame_size as int, zero);
        assert forall|j: int| 0 <= j < before.len() implies #[trigger] pcm@[j] == after[j] by {
            vstd::arithmetic::div_mod::lemma_mod_bound(j, n);
        }
        assert(pcm@ =~= after);
    }
}

// ---------------------------------------------------------------------
// One packet
// ---------------------------------------------------------------------

/// How far the decoding of a packet has come.
#[derive(Debug, Clone, Copy, PartialEq, Eq, Structural)]
pub struct MultistreamDecodeRun {
    /// The stream that is decoded next.
    pub stream: usize,
    /// Where its packet starts.
    pub offset: usize,
    /// Bytes from there on.
    pub remaining: usize,
    /// Samples that it may give.
    pub frame_size: usize,
    /// There is no packet, and the streams conceal its loss.
    pub lost: bool,
}

/// What a stream decoder is asked for.
#[derive(Debug, Clone, Copy, PartialEq, Eq, Structural)]
pub struct StreamDecodeRequest {
    pub stream: usize,
    pub offset: usize,
    pub remaining: usize,
    pub frame_size: usize,
    pub self_delimited: bool,
    pub lost: bool,
}

/// What a stream decoder gave: samples of each channel or its error, the bytes
/// that its packet took, the interleaved samples, and what it reports then.
#[derive(Debug)]
pub struct StreamDecoded<T> {
    pub decoded: Result<usize, OpusDecodeError>,
    pub packet_offset: usize,
    pub samples: Vec<T>,
    pub report: DecoderReport,
}

/// Samples that a call can give at most: 120 ms.
pub open spec fn frame_limit(frame_size: int, fs: int) -> int {
    if frame_size < fs / 25 * 3 {
        frame_size
    } else {
        fs / 25 * 3
    }
}

/// How the decoding of `data[..len]` starts, or why it does not.
pub open spec fn decode_start(
    d: OpusMultistreamDecoder,
    data: Seq<u8>,
    len: usize,
    pcm_len: int,
    frame_size: int,
) -> Result<MultistreamDecodeRun, OpusMultistreamDecoderError> {
    let fs = d.decoders@[0].fs as int;
    let streams = d.layout.nb_streams as int;
    let frame = frame_limit(frame_size, fs);
    let run = MultistreamDecodeRun {
        stream: 0,
        offset: 0,
        remaining: len,
        frame_size: frame as usize,
        lost: len == 0,
    };
    if frame_size == 0 || len > data.len() {
        Err(OpusMultistreamDecoderError::BadArgument)
    } else if pcm_len < frame * d.layout.nb_channels {
        Err(OpusMultistreamDecoderError::BufferTooSmall)
    } else if len == 0 {
        Ok(run)
    } else if len < 2 * streams - 1 {
        Err(OpusMultistreamDecoderError::InvalidPacket)
    } else {
        match validated(data, len as int, streams, fs) {
            Err(e) => Err(e),
            Ok(samples) => if samples > frame {
                Err(OpusMultistreamDecoderError::BufferTooSmall)
            } else {
                Ok(run)
            },
        }
    }
}

/// Starts the decoding of `data[..len]` into `pcm_len` samples; with `len` 0
/// the loss of a packet is concealed.
pub fn opus_multistream_decode_start(
    decoder: &OpusMultistreamDecoder,
    data: &[u8],
    len: usize,
    pcm_len: usize,
    frame_size: usize,
) -> (r: Result<MultistreamDecodeRun, OpusMultistreamDecoderError>)
    requires
        decoder.wf(),
    ensures
        r == decode_start(*decoder, data@, len, pcm_len as int, frame_size as int),
        r is Ok ==> r->Ok_0.wf(len as int),
{
    if frame_size == 0 || len > data.len() {
        return Err(OpusMultistreamDecoderError::BadArgument);
    }
    let fs: i32 = decoder.decoders[0].fs;
    let streams: usize = decoder.layout.nb_streams;
    let max_frame: usize = (fs / 25 * 3) as usize;
    let frame: usize = if frame_size < max_frame {
        frame_size
    } else {
        max_frame
    };
    proof {
        assert(frame * decoder.layout.nb_channels <= 5760 * 255) by (nonlinear_arith)
            requires
                frame <= 5760,
                decoder.layout.nb_channels <= 255,
        ;
    }
    if pcm_len < frame * decoder.layout.nb_channels {
        return Err(OpusMultistreamDecoderError::BufferTooSmall);
    }
    if len > 0 {
        if len < 2 * streams - 1 {
            return Err(OpusMultistreamDecoderError::InvalidPacket);
        }
        match opus_multistream_packet_validate(data, len, streams, fs) {
            Ok(samples) => {
                if samples > frame {
                    return Err(OpusMultistreamDecoderError::BufferTooSmall);
                }
            },
            Err(e) => return Err(e),
        }
    }
    Ok(
        MultistreamDecodeRun {
            stream: 0,
            offset: 0,
            remaining: len,
            frame_size: frame,
            lost: len == 0,
        },
    )
}

/// How the decoding goes on after a stream, or why it stops.
pub open spec fn after_stream<T>(run: MultistreamDecodeRun, out: StreamDecoded<T>) -> Result<
    MultistreamDecodeRun,
    OpusMultistreamDecoderError,
> {
    match out.decoded {
        Err(e) => Err(OpusMultistreamDecoderError::DecoderDecode(e)),
        Ok(n) => if !run.lost && out.packet_offset > run.remaining {
            Err(OpusMultistreamDecoderError::InvalidPacket)
        } else if n == 0 {
            Err(OpusMultistreamDecoderError::InternalError)
        } else {
            let used = if run.lost {
                0int
            } else {
                out.packet_offset as int
            };
            Ok(
                MultistreamDecodeRun {
                    stream: (run.stream + 1) as usize,
                    offset: (run.offset + used) as usize,
                    remaining: (run.remaining - used) as usize,
                    frame_size: n,
                    lost: run.lost,
                },
            )
        },
    }
}

impl MultistreamDecodeRun {
    /// The rest of the packet reaches its end.
    pub open spec fn wf(self, len: int) -> bool {
        self.offset + self.remaining == len
    }

    /// What the next stream decoder is asked for; none when all streams are
    /// decoded. A packet that ends before its last stream is an error.
    pub fn next_request(&self, layout: &ChannelLayout) -> (r: Result<
        Option<StreamDecodeRequest>,
        OpusMultistreamDecoderError,
    >)
        ensures
            r == (if self.stream >= layout.nb_streams {
                Ok::<Option<StreamDecodeRequest>, OpusMultistreamDecoderError>(None)
            } else if !self.lost && self.remaining == 0 {
                Err(OpusMultistreamDecoderError::InternalError)
            } else {
                Ok(
                    Some(
                        StreamDecodeRequest {
                            stream: self.stream,
                            offset: self.offset,
                            remaining: self.remaining,
                            frame_size: self.frame_size,
                            self_delimited: self.stream + 1 != layout.nb_streams,
                            lost: self.lost,
                        },
                    ),
                )
            }),
    {
        if self.stream >= layout.nb_streams {
            return Ok(None);
        }
        if !self.lost && self.remaining == 0 {
            return Err(OpusMultistreamDecoderError::InternalError);
        }
        Ok(
            Some(
                StreamDecodeRequest {
                    stream: self.stream,
                    offset: self.offset,
                    remaining: self.remaining,
                    frame_size: self.frame_size,
                    self_delimited: self.stream + 1 != layout.nb_streams,
                    lost: self.lost,
                },
            ),
        )
    }

    /// Takes what the stream decoder gave and reports, and hands its samples to
    /// the channels.
    pub fn accept<T: Copy>(
        &mut self,
        decoder: &mut OpusMultistreamDecoder,
        pcm: &mut [T],
        outcome: &StreamDecoded<T>,
        zero: T,
    ) -> (r: Result<(), OpusMultistreamDecoderError>)
        requires
            old(decoder).wf(),
            old(self).stream < old(decoder).layout.nb_streams,
            old(self).offset + old(self).remaining <= usize::MAX,
        ensures
            final(decoder).wf(),
            final(decoder).layout == old(decoder).layout,
            final(decoder).decoders@ == stream_reporting(
                old(decoder).decoders@,
                old(self).stream as int,
                outcome.report,
            ),
            final(self).offset + final(self).remaining == old(self).offset + old(self).remaining,
            match after_stream(*old(self), *outcome) {
                Err(e) => r == Err::<(), OpusMultistreamDecoderError>(e) && *final(self) == *old(
                    self,
                ) && final(pcm)@ == old(pcm)@,
                Ok(next) => r == Ok::<(), OpusMultistreamDecoderError>(()) && *final(self) == next
                    && final(pcm)@ == routed(
                    old(decoder).layout,
                    old(pcm)@,
                    old(self).stream as int,
                    outcome.samples@,
                    next.frame_size as int,
                    zero,
                ),
            },
    {
        let mut one: OpusDecoder = decoder.decoders[self.stream];
        one.take_report(&outcome.report);
        decoder.decoders[self.stream] = one;
        let n: usize = match outcome.decoded {
            Ok(n) => n,
            Err(e) => return Err(OpusMultistreamDecoderError::from(e)),
        };
        if !self.lost && outcome.packet_offset > self.remaining {
            return Err(OpusMultistreamDecoderError::InvalidPacket);
        }
        if n == 0 {
            return Err(OpusMultistreamDecoderError::InternalError);
        }
        route_stream(&decoder.layout, self.stream, outcome.samples.as_slice(), pcm, n, zero);
        if !self.lost {
            self.offset = self.offset + outcome.packet_offset;
            self.remaining = self.remaining - outcome.packet_offset;
        }
        self.frame_size = n;
        self.stream = self.stream + 1;
        Ok(())
    }

    /// Silences the channels without a stream, and returns the samples of each
    /// channel.
    pub fn finish<T: Copy>(&self, layout: &ChannelLayout, pcm: &mut [T], zero: T) -> (r: usize)
        requires
            1 <= layout.nb_channels <= 256,
        ensures
            r == self.frame_size,
            final(pcm)@ == silenced(*layout, old(pcm)@, self.frame_size as int, zero),
    {
        mute_channels(layout, pcm, self.frame_size, zero);
        self.frame_size
    }
}

/// The stream decoders when stream `s` reports `report`.
pub open spec fn stream_reporting(ds: Seq<OpusDecoder>, s: int, report: DecoderReport) -> Seq<
    OpusDecoder,
> {
    ds.update(s, ds[s].reporting(report))
}

/// The stream decoders when they give `outs`: each that is asked reports, also
/// where it fails.
pub open spec fn run_reports<T>(
    l: ChannelLayout,
    run: MultistreamDecodeRun,
    ds: Seq<OpusDecoder>,
    outs: Seq<StreamDecoded<T>>,
) -> Seq<OpusDecoder>
    decreases l.nb_streams - run.stream,
{
    if run.stream >= l.nb_streams || (!run.lost && run.remaining == 0) || run.stream
        >= outs.len() {
        ds
    } else {
        let told = stream_reporting(ds, run.stream as int, outs[run.stream as int].report);
        match after_stream(run, outs[run.stream as int]) {
            Err(_) => told,
            Ok(next) => run_reports(l, next, told, outs),
        }
    }
}

/// The channels, and the samples of each or an error, when the stream decoders
/// give `outs`.
pub open spec fn run_streams<T>(
    l: ChannelLayout,
    run: MultistreamDecodeRun,
    pcm: Seq<T>,
    outs: Seq<StreamDecoded<T>>,
    zero: T,
) -> (Seq<T>, Result<usize, OpusMultistreamDecoderError>)
    decreases l.nb_streams - run.stream,
{
    if run.stream >= l.nb_streams {
        (silenced(l, pcm, run.frame_size as int, zero), Ok(run.frame_size))
    } else if (!run.lost && run.remaining == 0) || run.stream >= outs.len() {
        (pcm, Err(OpusMultistreamDecoderError::InternalError))
    } else {
        match after_stream(run, outs[run.stream as int]) {
            Err(e) => (pcm, Err(e)),
            Ok(next) => run_streams(
                l,
                next,
                routed(
                    l,
                    pcm,
                    run.stream as int,
                    outs[run.stream as int].samples@,
                    next.frame_size as int,
                    zero,
                ),
                outs,
                zero,
            ),
        }
    }
}

/// Decodes `data[..len]` into interleaved channels, where `outcomes` is what
/// the stream decoders gave, one after the other. Returns the samples of each
/// channel.
pub fn opus_multistream_decode_native<T: Copy>(
    decoder: &mut OpusMultistreamDecoder,
    data: &[u8],
    len: usize,
    pcm: &mut [T],
    frame_size: usize,
    outcomes: &[StreamDecoded<T>],
    zero: T,
) -> (r: Result<usize, OpusMultistreamDecoderError>)
    requires
        old(decoder).wf(),
    ensures
        final(decoder).wf(),
        final(decoder).layout == old(decoder).layout,
        match decode_start(*old(decoder), data@, len, old(pcm)@.len() as int, frame_size as int) {
            Err(e) => {
                &&& r == Err::<usize, OpusMultistreamDecoderError>(e)
                &&& final(pcm)@ == old(pcm)@
                &&& final(decoder).decoders@ == old(decoder).decoders@
            },
            Ok(run) => {
                &&& (final(pcm)@, r) == run_streams(
                    old(decoder).layout,
                    run,
                    old(pcm)@,
                    outcomes@,
                    zero,
                )
                &&& final(decoder).decoders@ == run_reports(
                    old(decoder).layout,
                    run,
                    old(decoder).decoders@,
                    outcomes@,
                )
            },
        },
{
    let mut run: MultistreamDecodeRun = match opus_multistream_decode_start(
        decoder,
        data,
        len,
        pcm.len(),
        frame_size,
    ) {
        Ok(run) => run,
        Err(e) => return Err(e),
    };
    let ghost first = run;
    let ghost whole = run_streams(decoder.layout, run, pcm@, outcomes@, zero);
    let ghost told = run_reports(decoder.layout, run, decoder.decoders@, outcomes@);
    let given: usize = outcomes.len();
    while run.stream < decoder.layout.nb_streams
        invariant
            decoder.wf(),
            decoder.layout == old(decoder).layout,
            given == outcomes@.len(),
            run.wf(len as int),
            whole == run_streams(decoder.layout, run, pcm@, outcomes@, zero),
            told == run_reports(decoder.layout, run, decoder.decoders@, outcomes@),
            decode_start(*old(decoder), data@, len, old(pcm)@.len() as int, frame_size as int)
                == Ok::<MultistreamDecodeRun, OpusMultistreamDecoderError>(first),
            whole == run_streams(decoder.layout, first, old(pcm)@, outcomes@, zero),
            told == run_reports(decoder.layout, first, old(decoder).decoders@, outcomes@),
        decreases decoder.layout.nb_streams - run.stream,
    {
        match run.next_request(&decoder.layout) {
            Ok(_) => {},
            Err(e) => return Err(e),
        }
        if run.stream >= given {
            return Err(OpusMultistreamDecoderError::InternalError);
        }
        match run.accept(decoder, pcm, &outcomes[run.stream], zero) {
            Ok(_) => {},
            Err(e) => return Err(e),
        }
    }
    Ok(run.finish(&decoder.layout, pcm, zero))
}

/// Decodes `data[..len]` into interleaved 16-bit channels, where `outcomes` is
/// what the stream decoders gave.
pub fn opus_multistream_decode(
    decoder: &mut OpusMultistreamDecoder,
    data: &[u8],
    len: usize,
    pcm: &mut [i16],
    frame_size: usize,
    outcomes: &[StreamDecoded<i16>],
) -> (r: Result<usize, OpusMultistreamDecoderError>)
    requires
        old(decoder).wf(),
    ensures
        final(decoder).wf(),
        final(decoder).layout == old(decoder).layout,
        match decode_start(*old(decoder), data@, len, old(pcm)@.len() as int, frame_size as int) {
            Err(e) => {
                &&& r == Err::<usize, OpusMultistreamDecoderError>(e)
                &&& final(pcm)@ == old(pcm)@
                &&& final(decoder).decoders@ == old(decoder).decoders@
            },
            Ok(run) => {
                &&& (final(pcm)@, r) == run_streams(
                    old(decoder).layout,
                    run,
                    old(pcm)@,
                    outcomes@,
                    0i16,
                )
                &&& final(decoder).decoders@ == run_reports(
                    old(decoder).layout,
                    run,
                    old(decoder).decoders@,
                    outcomes@,
                )
            },
        },
{
    opus_multistream_decode_native(decoder, data, len, pcm, frame_size, outcomes, 0)
}

/// Decodes `data[..len]` into interleaved 24-bit channels, where `outcomes` is
/// what the stream decoders gave.
pub fn opus_multistream_decode24(
    decoder: &mut OpusMultistreamDecoder,
    data: &[u8],
    len: usize,
    pcm: &mut [i32],
    frame_size: usize,
    outcomes: &[StreamDecoded<i32>],
) -> (r: Result<usize, OpusMultistreamDecoderError>)
    requires
        old(decoder).wf(),
    ensures
        final(decoder).wf(),
        final(decoder).layout == old(decoder).layout,
        match decode_start(*old(decoder), data@, len, old(pcm)@.len() as int, frame_size as int) {
            Err(e) => {
                &&& r == Err::<usize, OpusMultistreamDecoderError>(e)
                &&& final(pcm)@ == old(pcm)@
                &&& final(decoder).decoders@ == old(decoder).decoders@
            },
            Ok(run) => {
                &&& (final(pcm)@, r) == run_streams(
                    old(decoder).layout,
                    run,
                    old(pcm)@,
                    outcomes@,
                    0i32,
                )
                &&& final(decoder).decoders@ == run_reports(
                    old(decoder).layout,
                    run,
                    old(decoder).decoders@,
                    outcomes@,
                )
            },
        },
{
    opus_multistream_decode_native(decoder, data, len, pcm, frame_size, outcomes, 0)
}

/// The stream that carries input `input`.
pub open spec fn stream_of(l: ChannelLayout, input: int) -> int {
    if input < 2 * l.nb_coupled_streams {
        input / 2
    } else {
        input - l.nb_coupled_streams
    }
}

/// When the streams from `run.stream` on are decoded, a channel without a
/// stream is silent, a channel of one of them holds that stream's samples, and
/// a channel of an earlier stream is as before; this for each sample `j` of
/// the interleaved channels that every stream reaches.
pub proof fn law_channels_hold_their_stream<T>(
    l: ChannelLayout,
    run: MultistreamDecodeRun,
    pcm: Seq<T>,
    outs: Seq<StreamDecoded<T>>,
    zero: T,
    j: int,
)
    requires
        l.valid(),
        1 <= l.nb_channels,
        l.nb_coupled_streams <= l.nb_streams,
        run.stream <= l.nb_streams,
        run_streams(l, run, pcm, outs, zero).1 is Ok,
        0 <= j < pcm.len(),
        j / (l.nb_channels as int) < run_streams(l, run, pcm, outs, zero).1->Ok_0,
        forall|s: int|
            run.stream <= s < l.nb_streams && (#[trigger] outs[s]).decoded is Ok ==> j / (
            l.nb_channels as int) < outs[s].decoded->Ok_0,
    ensures
        ({
            let n = l.nb_channels as int;
            let (after, _) = run_streams(l, run, pcm, outs, zero);
            let input = l.mapping@[j % n] as int;
            &&& after.len() == pcm.len()
            &&& input == 255 ==> after[j] == zero
            &&& input != 255 && stream_of(l, input) >= run.stream ==> Some(after[j])
                == routed_sample(
                l,
                stream_of(l, input),
                outs[stream_of(l, input)].samples@,
                j % n,
                j / n,
                zero,
            )
            &&& input != 255 && stream_of(l, input) < run.stream ==> after[j] == pcm[j]
        }),
    decreases l.nb_streams - run.stream,
{
    let n = l.nb_channels as int;
    vstd::arithmetic::div_mod::lemma_mod_bound(j, n);
    let c = j % n;
    let input = l.mapping@[c] as int;
    assert(l.mapping[c] == 255 || l.mapping[c] < l.nb_streams + l.nb_coupled_streams);
    if run.stream < l.nb_streams {
        let s = run.stream as int;
        let next = after_stream(run, outs[s])->Ok_0;
        let mid = routed(l, pcm, s, outs[s].samples@, next.frame_size as int, zero);
        law_channels_hold_their_stream(l, next, mid, outs, zero, j);
        if input != 255 {
            assert((stream_of(l, input) == s) == (routed_sample(
                l,
                s,
                outs[s].samples@,
                c,
                j / n,
                zero,
            ) is Some));
        } else {
            assert(routed_sample(l, s, outs[s].samples@, c, j / n, zero) is None || input == 255);
        }
    }
}

/// When a packet is decoded, each stream from `run.stream` on reports what its
/// decoder gave, and the earlier ones report what they did before.
pub proof fn law_decoded_streams_report<T>(
    l: ChannelLayout,
    run: MultistreamDecodeRun,
    pcm: Seq<T>,
    outs: Seq<StreamDecoded<T>>,
    zero: T,
    ds: Seq<OpusDecoder>,
)
    requires
        ds.len() == l.nb_streams,
        run_streams(l, run, pcm, outs, zero).1 is Ok,
    ensures
        run_reports(l, run, ds, outs).len() == ds.len(),
        forall|s: int|
            0 <= s < ds.len() ==> #[trigger] run_reports(l, run, ds, outs)[s] == if s < run.stream {
                ds[s]
            } else {
                ds[s].reporting(outs[s].report)
            },
    decreases l.nb_streams - run.stream,
{
    if run.stream < l.nb_streams {
        let s = run.stream as int;
        let next = after_stream(run, outs[s])->Ok_0;
        let mid = routed(l, pcm, s, outs[s].samples@, next.frame_size as int, zero);
        law_decoded_streams_report(
            l,
            next,
            mid,
            outs,
            zero,
            stream_reporting(ds, s, outs[s].report),
        );
    }
}

} // verus!
