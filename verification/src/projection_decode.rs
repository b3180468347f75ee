//! Decoding of a projection: the streams are decoded and demixed.

use crate::channel_layout::ChannelLayout;
use crate::fixed::{asr, narrow16, narrow32, shr32, shr64, wrap16, wrap32};
use crate::multistream_decode::{
    after_stream, decode_start, opus_multistream_decode_native, routed, run_reports,
    run_streams, MultistreamDecodeRun, StreamDecoded,
};
use crate::multistream_decoder::decoder_created;
use crate::projection::{
    cleared, matrix_fits, matrix_of, own_order, MappingMatrix, OpusProjectionDecoder,
    OpusProjectionDecoderError,
};
use vstd::arithmetic::div_mod::lemma_fundamental_div_mod_converse;
use vstd::arithmetic::power2::lemma2_to64;
use vstd::prelude::*;

verus! {

/// The demixing matrix has a row for each channel and a column for each channel
/// that the streams give.
pub open spec fn projection_ok(d: OpusProjectionDecoder) -> bool {
    &&& d.ms_decoder.wf()
    &&& d.ms_decoder.layout.nb_channels == d.channels
    &&& d.demixing_matrix.rows == d.channels
    &&& d.channels <= d.demixing_matrix.cols
    &&& d.demixing_matrix.rows * d.demixing_matrix.cols == d.demixing_matrix.data@.len()
}

/// The matrix of a decoder that was set up covers its channels.
pub proof fn law_set_up_decoder_covers_its_channels(
    d: OpusProjectionDecoder,
    sample_rate: i32,
    channels: usize,
    streams: usize,
    coupled: usize,
    bytes: Seq<u8>,
)
    requires
        d.channels == channels,
        matrix_fits(channels as int, streams as int, coupled as int, bytes.len() as int),
        matrix_of(d.demixing_matrix, channels as int, streams + coupled, bytes),
        decoder_created(
            sample_rate,
            channels,
            streams,
            coupled,
            own_order(channels as int),
            Ok(d.ms_decoder),
        ),
    ensures
        projection_ok(d),
{
    let l = d.ms_decoder.layout;
    assert(l.mapping[channels - 1] == own_order(channels as int)[channels - 1]);
    assert(channels <= streams + coupled);
    assert((streams + coupled) * channels == channels * (streams + coupled)) by (nonlinear_arith);
}

/// The part of a 16-bit sample that goes to a channel through a cell of the
/// matrix (Q15).
pub open spec fn part_of(cell: int, sample: int) -> int {
    asr(cell * sample + 0x4000, 15)
}

/// Channel `row` of a frame: the sum of the parts of the first `k` decoded
/// channels, of which `x` holds a sample each from `at` on.
pub open spec fn demixed16(m: Seq<i16>, x: Seq<i16>, at: int, rows: int, row: int, k: int) -> int
    decreases k,
{
    if k <= 0 {
        0
    } else {
        wrap16(
            demixed16(m, x, at, rows, row, k - 1) + part_of(
                m[rows * (k - 1) + row] as int,
                x[at + k - 1] as int,
            ),
        )
    }
}

/// The same for 24-bit samples.
pub open spec fn demixed24(m: Seq<i16>, x: Seq<i32>, at: int, rows: int, row: int, k: int) -> int
    decreases k,
{
    if k <= 0 {
        0
    } else {
        wrap32(
            demixed24(m, x, at, rows, row, k - 1) + part_of(
                m[rows * (k - 1) + row] as int,
                x[at + k - 1] as int,
            ),
        )
    }
}

/// Frames that an output of `len` samples takes of `n` decoded ones.
pub open spec fn frames_in(len: int, channels: int, n: int) -> int {
    if n <= len / channels {
        n
    } else {
        len / channels
    }
}

/// The output of `n` demixed frames; what lies behind them is as in `rest`.
pub open spec fn output16(m: Seq<i16>, x: Seq<i16>, rest: Seq<i16>, channels: int, n: int) -> Seq<i16> {
    Seq::new(
        rest.len(),
        |i: int|
            if i < n * channels {
                demixed16(m, x, i - i % channels, channels, i % channels, channels) as i16
            } else {
                rest[i]
            },
    )
}

/// The same for 24-bit samples.
pub open spec fn output24(m: Seq<i16>, x: Seq<i32>, rest: Seq<i32>, channels: int, n: int) -> Seq<i32> {
    Seq::new(
        rest.len(),
        |i: int|
            if i < n * channels {
                demixed24(m, x, i - i % channels, channels, i % channels, channels) as i32
            } else {
                rest[i]
            },
    )
}

proof fn lemma_cell(rows: int, cols: int, row: int, col: int)
    requires
        0 <= row < rows,
        0 <= col < cols,
    ensures
        0 <= rows * col + row < rows * cols,
{
    assert(rows * col + rows == rows * (col + 1)) by (nonlinear_arith);
    assert(0 <= rows * col) by (nonlinear_arith)
        requires
            rows >= 0,
            col >= 0,
    ;
    assert(rows * (col + 1) <= rows * cols) by (nonlinear_arith)
        requires
            rows >= 0,
            col + 1 <= cols,
    ;
}

fn mix16(m: &MappingMatrix, x: &[i16], at: usize, channels: usize, row: usize) -> (r: i16)
    requires
        row < channels,
        m.rows == channels,
        channels <= m.cols,
        m.rows * m.cols == m.data@.len(),
        at + channels <= x@.len(),
    ensures
        r == demixed16(
            m.data@,
            x@,
            at as int,
            channels as int,
            row as int,
            channels as int,
        ),
{
    let mut sum: i16 = 0;
    let mut k: usize = 0;
    let mut cell: usize = row;
    let cells: usize = m.data.len();
    let total: usize = x.len();
    proof {
        assert(channels * 0 == 0) by (nonlinear_arith);
    }
    while k < channels
        invariant
            row < channels,
            m.rows == channels,
            channels <= m.cols,
            m.rows * m.cols == m.data@.len(),
            cells == m.data@.len(),
            total == x@.len(),
            at + channels <= total,
            k <= channels,
            k < channels ==> cell == channels * k + row,
            sum == demixed16(m.data@, x@, at as int, channels as int, row as int, k as int),
        decreases channels - k,
    {
        proof {
            lemma2_to64();
            lemma_cell(channels as int, m.cols as int, row as int, k as int);
        }
        let tap: i16 = m.data[cell];
        let sample: i16 = x[at + k];
        proof {
            assert(-0x4000_0000 <= tap * sample <= 0x4000_0000) by (nonlinear_arith)
                requires
                    -0x8000 <= tap <= 0x7fff,
                    -0x8000 <= sample <= 0x7fff,
            ;
        }
        let part: i32 = shr32(tap as i32 * sample as i32 + 0x4000, 15);
        sum = narrow16(sum as i32 + part);
        if k + 1 < channels {
            proof {
                lemma_cell(channels as int, m.cols as int, row as int, k + 1);
                assert(channels * (k + 1) == channels * k + channels) by (nonlinear_arith);
            }
            cell = cell + channels;
        }
        k = k + 1;
    }
    sum
}

fn mix24(m: &MappingMatrix, x: &[i32], at: usize, channels: usize, row: usize) -> (r: i32)
    requires
        row < channels,
        m.rows == channels,
        channels <= m.cols,
        m.rows * m.cols == m.data@.len(),
        at + channels <= x@.len(),
    ensures
        r == demixed24(
            m.data@,
            x@,
            at as int,
            channels as int,
            row as int,
            channels as int,
        ),
{
    let mut sum: i32 = 0;
    let mut k: usize = 0;
    let mut cell: usize = row;
    let cells: usize = m.data.len();
    let total: usize = x.len();
    proof {
        assert(channels * 0 == 0) by (nonlinear_arith);
    }
    while k < channels
        invariant
            row < channels,
            m.rows == channels,
            channels <= m.cols,
            m.rows * m.cols == m.data@.len(),
            cells == m.data@.len(),
            total == x@.len(),
            at + channels <= total,
            k <= channels,
            k < channels ==> cell == channels * k + row,
            sum == demixed24(m.data@, x@, at as int, channels as int, row as int, k as int),
        decreases channels - k,
    {
        proof {
            lemma2_to64();
            lemma_cell(channels as int, m.cols as int, row as int, k as int);
        }
        let tap: i16 = m.data[cell];
        let sample: i32 = x[at + k];
        proof {
            assert(-0x4000_0000_0000 <= tap * sample <= 0x4000_0000_0000) by (nonlinear_arith)
                requires
                    -0x8000 <= tap <= 0x7fff,
                    -0x8000_0000 <= sample <= 0x7fff_ffff,
            ;
        }
        let part: i64 = shr64(tap as i64 * sample as i64 + 0x4000, 15);
        sum = narrow32(sum as i64 + part);
        if k + 1 < channels {
            proof {
                lemma_cell(channels as int, m.cols as int, row as int, k + 1);
                assert(channels * (k + 1) == channels * k + channels) by (nonlinear_arith);
            }
            cell = cell + channels;
        }
        k = k + 1;
    }
    sum
}

proof fn lemma_place(frame: int, channels: int, row: int)
    requires
        0 <= row < channels,
        0 <= frame,
    ensures
        (frame * channels + row) % channels == row,
{
    lemma_fundamental_div_mod_converse(frame * channels + row, channels, frame, row);
}

/// Demixes the first `n` frames of `x` into `pcm`.
fn demix16(m: &MappingMatrix, x: &[i16], pcm: &mut [i16], channels: usize, n: usize)
    requires
        channels > 0,
        m.rows == channels,
        channels <= m.cols,
        m.rows * m.cols == m.data@.len(),
        x@.len() == old(pcm)@.len(),
        n * channels <= x@.len(),
    ensures
        final(pcm)@ == output16(m.data@, x@, old(pcm)@, channels as int, n as int),
{
    let ghost before = pcm@;
    let room: usize = pcm.len();
    let total: usize = x.len();
    let mut frame: usize = 0;
    let mut at: usize = 0;
    proof {
        assert(0 * channels == 0) by (nonlinear_arith);
        assert(pcm@ =~= output16(m.data@, x@, before, channels as int, 0));
    }
    while frame < n
        invariant
            channels > 0,
            m.rows == channels,
            channels <= m.cols,
            m.rows * m.cols == m.data@.len(),
            total == x@.len(),
            room == total,
            room == pcm@.len(),
            room == before.len(),
            n * channels <= room,
            frame <= n,
            at == frame * channels,
            pcm@ == output16(m.data@, x@, before, channels as int, frame as int),
        decreases n - frame,
    {
        proof {
            assert((frame + 1) * channels == frame * channels + channels) by (nonlinear_arith);
            assert((frame + 1) * channels <= n * channels) by (nonlinear_arith)
                requires
                    frame + 1 <= n,
                    channels >= 0,
            ;
        }
        let ghost start = pcm@;
        let mut row: usize = 0;
        while row < channels
            invariant
                channels > 0,
                m.rows == channels,
                channels <= m.cols,
                m.rows * m.cols == m.data@.len(),
                room == x@.len(),
                room == pcm@.len(),
                start.len() == room,
                at == frame * channels,
                at + channels <= room,
                row <= channels,
                forall|i: int|
                    0 <= i < room ==> #[trigger] pcm@[i] == if at <= i < at + row {
                        demixed16(
                            m.data@,
                            x@,
                            at as int,
                            channels as int,
                            i - at,
                            channels as int,
                        ) as i16
                    } else {
                        start[i]
                    },
            decreases channels - row,
        {
            let value: i16 = mix16(m, x, at, channels, row);
            pcm[at + row] = value;
            row = row + 1;
        }
        proof {
            let goal = output16(m.data@, x@, before, channels as int, frame + 1);
            assert forall|i: int| 0 <= i < room implies pcm@[i] == #[trigger] goal[i] by {
                if at <= i < at + channels {
                    lemma_place(frame as int, channels as int, i - at);
                }
            }
            assert(pcm@ =~= goal);
        }
        at = at + channels;
        frame = frame + 1;
    }
}

/// Demixes the first `n` frames of `x` into `pcm`.
fn demix24(m: &MappingMatrix, x: &[i32], pcm: &mut [i32], channels: usize, n: usize)
    requires
        channels > 0,
        m.rows == channels,
        channels <= m.cols,
        m.rows * m.cols == m.data@.len(),
        x@.len() == old(pcm)@.len(),
        n * channels <= x@.len(),
    ensures
        final(pcm)@ == output24(m.data@, x@, old(pcm)@, channels as int, n as int),
{
    let ghost before = pcm@;
    let room: usize = pcm.len();
    let total: usize = x.len();
    let mut frame: usize = 0;
    let mut at: usize = 0;
    proof {
        assert(0 * channels == 0) by (nonlinear_arith);
        assert(pcm@ =~= output24(m.data@, x@, before, channels as int, 0));
    }
    while frame < n
        invariant
            channels > 0,
            m.rows == channels,
            channels <= m.cols,
            m.rows * m.cols == m.data@.len(),
            total == x@.len(),
            room == total,
            room == pcm@.len(),
            room == before.len(),
            n * channels <= room,
            frame <= n,
            at == frame * channels,
            pcm@ == output24(m.data@, x@, before, channels as int, frame as int),
        decreases n - frame,
    {
        proof {
            assert((frame + 1) * channels == frame * channels + channels) by (nonlinear_arith);
            assert((frame + 1) * channels <= n * channels) by (nonlinear_arith)
                requires
                    frame + 1 <= n,
                    channels >= 0,
            ;
        }
        let ghost start = pcm@;
        let mut row: usize = 0;
        while row < channels
            invariant
                channels > 0,
                m.rows == channels,
                channels <= m.cols,
                m.rows * m.cols == m.data@.len(),
                room == x@.len(),
                room == pcm@.len(),
                start.len() == room,
                at == frame * channels,
                at + channels <= room,
                row <= channels,
                forall|i: int|
                    0 <= i < room ==> #[trigger] pcm@[i] == if at <= i < at + row {
                        demixed24(
                            m.data@,
                            x@,
                            at as int,
                            channels as int,
                            i - at,
                            channels as int,
                        ) as i32
                    } else {
                        start[i]
                    },
            decreases channels - row,
        {
            let value: i32 = mix24(m, x, at, channels, row);
            pcm[at + row] = value;
            row = row + 1;
        }
        proof {
            let goal = output24(m.data@, x@, before, channels as int, frame + 1);
            assert forall|i: int| 0 <= i < room implies pcm@[i] == #[trigger] goal[i] by {
                if at <= i < at + channels {
                    lemma_place(frame as int, channels as int, i - at);
                }
            }
            assert(pcm@ =~= goal);
        }
        at = at + channels;
        frame = frame + 1;
    }
}

fn clear<T: Copy>(pcm: &mut [T], n: usize, zero: T)
    requires
        n <= old(pcm)@.len(),
    ensures
        final(pcm)@ == cleared(old(pcm)@, n as int, zero),
{
    let ghost before = pcm@;
    let room: usize = pcm.len();
    for i in 0..n
        invariant
            n <= room,
            room == pcm@.len(),
            room == before.len(),
            forall|j: int|
                0 <= j < room ==> #[trigger] pcm@[j] == if j < i {
                    zero
                } else {
                    before[j]
                },
    {
        pcm[i] = zero;
    }
    assert(pcm@ =~= cleared(before, n as int, zero));
}

fn whole_frames(len: usize, channels: usize, n: usize) -> (r: usize)
    requires
        channels > 0,
    ensures
        r == frames_in(len as int, channels as int, n as int),
        r * channels <= len,
{
    let most: usize = len / channels;
    proof {
        assert(most * channels <= len) by (nonlinear_arith)
            requires
                most == len / channels,
                channels > 0,
        ;
        if n <= most {
            assert(n * channels <= most * channels) by (nonlinear_arith)
                requires
                    n <= most,
                    channels > 0,
            ;
        }
    }
    if n <= most {
        n
    } else {
        most
    }
}

/// Decoding keeps the number of samples.
proof fn lemma_run_keeps_length<T>(
    l: ChannelLayout,
    run: MultistreamDecodeRun,
    pcm: Seq<T>,
    outs: Seq<StreamDecoded<T>>,
    zero: T,
)
    ensures
        run_streams(l, run, pcm, outs, zero).0.len() == pcm.len(),
    decreases l.nb_streams - run.stream,
{
    if run.stream < l.nb_streams && !(!run.lost && run.remaining == 0) && run.stream < outs.len() {
        if let Ok(next) = after_stream(run, outs[run.stream as int]) {
            let fed = routed(
                l,
                pcm,
                run.stream as int,
                outs[run.stream as int].samples@,
                next.frame_size as int,
                zero,
            );
            if next.stream == run.stream + 1 {
                lemma_run_keeps_length(l, next, fed, outs, zero);
            }
        }
    }
}

pub open spec fn silence16(n: int) -> Seq<i16> {
    Seq::new(n as nat, |i: int| 0i16)
}

pub open spec fn silence24(n: int) -> Seq<i32> {
    Seq::new(n as nat, |i: int| 0i32)
}

/// Silence is demixed to silence.
proof fn lemma_silence_is_demixed16(m: Seq<i16>, n: int, at: int, rows: int, row: int, k: int)
    requires
        0 <= at,
        at + k <= n,
    ensures
        demixed16(m, silence16(n), at, rows, row, k) == 0,
    decreases k,
{
    if k > 0 {
        lemma_silence_is_demixed16(m, n, at, rows, row, k - 1);
        let cell = m[rows * (k - 1) + row] as int;
        assert(cell * 0 == 0) by (nonlinear_arith);
        lemma2_to64();
        reveal(wrap16);
    }
}

proof fn lemma_silence_is_blank16(m: Seq<i16>, blank: Seq<i16>, channels: int, n: int)
    requires
        0 < channels,
        0 <= n,
        channels * n <= blank.len(),
        forall|i: int| 0 <= i < channels * n ==> #[trigger] blank[i] == 0,
    ensures
        output16(m, silence16(blank.len() as int), blank, channels, n) == blank,
{
    let out = output16(m, silence16(blank.len() as int), blank, channels, n);
    assert(n * channels == channels * n) by (nonlinear_arith);
    assert forall|i: int| 0 <= i < blank.len() implies #[trigger] out[i] == blank[i] by {
        if i < n * channels {
            lemma_frame_inside(i, channels, n);
            lemma_silence_is_demixed16(
                m,
                blank.len() as int,
                i - i % channels,
                channels,
                i % channels,
                channels,
            );
        }
    }
    assert(out =~= blank);
}

/// Silence is demixed to silence.
proof fn lemma_silence_is_demixed24(m: Seq<i16>, n: int, at: int, rows: int, row: int, k: int)
    requires
        0 <= at,
        at + k <= n,
    ensures
        demixed24(m, silence24(n), at, rows, row, k) == 0,
    decreases k,
{
    if k > 0 {
        lemma_silence_is_demixed24(m, n, at, rows, row, k - 1);
        let cell = m[rows * (k - 1) + row] as int;
        assert(cell * 0 == 0) by (nonlinear_arith);
        lemma2_to64();
        reveal(wrap32);
    }
}

proof fn lemma_silence_is_blank24(m: Seq<i16>, blank: Seq<i32>, channels: int, n: int)
    requires
        0 < channels,
        0 <= n,
        channels * n <= blank.len(),
        forall|i: int| 0 <= i < channels * n ==> #[trigger] blank[i] == 0,
    ensures
        output24(m, silence24(blank.len() as int), blank, channels, n) == blank,
{
    let out = output24(m, silence24(blank.len() as int), blank, channels, n);
    assert(n * channels == channels * n) by (nonlinear_arith);
    assert forall|i: int| 0 <= i < blank.len() implies #[trigger] out[i] == blank[i] by {
        if i < n * channels {
            lemma_frame_inside(i, channels, n);
            lemma_silence_is_demixed24(
                m,
                blank.len() as int,
                i - i % channels,
                channels,
                i % channels,
                channels,
            );
        }
    }
    assert(out =~= blank);
}

/// The frame of a sample lies inside.
proof fn lemma_frame_inside(i: int, channels: int, n: int)
    requires
        0 < channels,
        0 <= i < n * channels,
    ensures
        0 <= i - i % channels,
        i - i % channels + channels <= n * channels,
{
    vstd::arithmetic::div_mod::lemma_fundamental_div_mod(i, channels);
    vstd::arithmetic::div_mod::lemma_mod_bound(i, channels);
    vstd::arithmetic::div_mod::lemma_div_pos_is_pos(i, channels);
    let q = i / channels;
    assert(q < n) by (nonlinear_arith)
        requires
            channels * q <= i < n * channels,
            0 < channels,
    ;
    assert(0 <= channels * q && channels * q + channels <= n * channels) by (nonlinear_arith)
        requires
            0 <= q < n,
            0 < channels,
    ;
}

/// Decodes a packet into interleaved 16-bit channels, where `outcomes` is what
/// the stream decoders gave.
pub fn opus_projection_decode(
    decoder: &mut OpusProjectionDecoder,
    data: &[u8],
    len: usize,
    pcm: &mut [i16],
    frame_size: usize,
    outcomes: &[StreamDecoded<i16>],
) -> (r: Result<usize, OpusProjectionDecoderError>)
    requires
        projection_ok(*old(decoder)),
    ensures
        projection_ok(*final(decoder)),
        final(decoder).channels == old(decoder).channels,
        final(decoder).demixing_matrix == old(decoder).demixing_matrix,
        final(decoder).ms_decoder.layout == old(decoder).ms_decoder.layout,
        ({
            let b = old(pcm)@;
            let ms = old(decoder).ms_decoder;
            let ds = final(decoder).ms_decoder.decoders@;
            let channels = old(decoder).channels as int;
            let needed = channels * frame_size;
            let blank = cleared(b, needed, 0i16);
            let room = b.len() as int;
            if room < needed {
                r == Err::<usize, OpusProjectionDecoderError>(
                    OpusProjectionDecoderError::BadArgument,
                ) && final(pcm)@ == b && ds == ms.decoders@
            } else {
                match decode_start(ms, data@, len, room, frame_size as int) {
                    Err(e) => r == Err::<usize, OpusProjectionDecoderError>(
                        OpusProjectionDecoderError::Multistream(e),
                    ) && final(pcm)@ == blank && ds == ms.decoders@,
                    Ok(run) => {
                        let (x, out) = run_streams(
                            ms.layout,
                            run,
                            silence16(room),
                            outcomes@,
                            0i16,
                        );
                        &&& ds == run_reports(ms.layout, run, ms.decoders@, outcomes@)
                        &&& match out {
                            Err(e) => r == Err::<usize, OpusProjectionDecoderError>(
                                OpusProjectionDecoderError::Multistream(e),
                            ) && final(pcm)@ == output16(
                                old(decoder).demixing_matrix.data@,
                                x,
                                blank,
                                channels,
                                frame_size as int,
                            ),
                            Ok(n) => r == Ok::<usize, OpusProjectionDecoderError>(n)
                                && final(pcm)@ == output16(
                                old(decoder).demixing_matrix.data@,
                                x,
                                blank,
                                channels,
                                frames_in(room, channels, n as int),
                            ),
                        }
                    },
                }
            }
        }),
{
    let room: usize = pcm.len();
    let needed: usize = match decoder.channels.checked_mul(frame_size) {
        Some(n) => n,
        None => return Err(OpusProjectionDecoderError::BadArgument),
    };
    if room < needed {
        return Err(OpusProjectionDecoderError::BadArgument);
    }
    clear(pcm, needed, 0);
    let ghost ms = decoder.ms_decoder;
    let ghost blank = pcm@;
    let mut x: Vec<i16> = vec![0i16;room];
    assert(x@ =~= silence16(room as int));
    let decoded = opus_multistream_decode_native(
        &mut decoder.ms_decoder,
        data,
        len,
        x.as_mut_slice(),
        frame_size,
        outcomes,
        0,
    );
    proof {
        if let Ok(run) = decode_start(ms, data@, len, room as int, frame_size as int) {
            lemma_run_keeps_length(ms.layout, run, silence16(room as int), outcomes@, 0);
        } else {
            lemma_silence_is_blank16(
                decoder.demixing_matrix.data@,
                blank,
                decoder.channels as int,
                frame_size as int,
            );
        }
        vstd::arithmetic::mul::lemma_mul_is_commutative(
            frame_size as int,
            decoder.channels as int,
        );
    }
    match decoded {
        Ok(n) => {
            let frames: usize = whole_frames(room, decoder.channels, n);
            demix16(&decoder.demixing_matrix, x.as_slice(), pcm, decoder.channels, frames);
            Ok(n)
        },
        Err(e) => {
            demix16(&decoder.demixing_matrix, x.as_slice(), pcm, decoder.channels, frame_size);
            Err(OpusProjectionDecoderError::from(e))
        },
    }
}

/// Decodes a packet into interleaved 24-bit channels, where `outcomes` is what
/// the stream decoders gave.
pub fn opus_projection_decode24(
    decoder: &mut OpusProjectionDecoder,
    data: &[u8],
    len: usize,
    pcm: &mut [i32],
    frame_size: usize,
    outcomes: &[StreamDecoded<i32>],
) -> (r: Result<usize, OpusProjectionDecoderError>)
    requires
        projection_ok(*old(decoder)),
    ensures
        projection_ok(*final(decoder)),
        final(decoder).channels == old(decoder).channels,
        final(decoder).demixing_matrix == old(decoder).demixing_matrix,
        final(decoder).ms_decoder.layout == old(decoder).ms_decoder.layout,
        ({
            let b = old(pcm)@;
            let ms = old(decoder).ms_decoder;
            let ds = final(decoder).ms_decoder.decoders@;
            let channels = old(decoder).channels as int;
            let needed = channels * frame_size;
            let blank = cleared(b, needed, 0i32);
            let room = b.len() as int;
            if room < needed {
                r == Err::<usize, OpusProjectionDecoderError>(
                    OpusProjectionDecoderError::BadArgument,
                ) && final(pcm)@ == b && ds == ms.decoders@
            } else {
                match decode_start(ms, data@, len, room, frame_size as int) {
                    Err(e) => r == Err::<usize, OpusProjectionDecoderError>(
                        OpusProjectionDecoderError::Multistream(e),
                    ) && final(pcm)@ == blank && ds == ms.decoders@,
                    Ok(run) => {
                        let (x, out) = run_streams(
                            ms.layout,
                            run,
                            silence24(room),
                            outcomes@,
                            0i32,
                        );
                        &&& ds == run_reports(ms.layout, run, ms.decoders@, outcomes@)
                        &&& match out {
                            Err(e) => r == Err::<usize, OpusProjectionDecoderError>(
                                OpusProjectionDecoderError::Multistream(e),
                            ) && final(pcm)@ == output24(
                                old(decoder).demixing_matrix.data@,
                                x,
                                blank,
                                channels,
                                frame_size as int,
                            ),
                            Ok(n) => r == Ok::<usize, OpusProjectionDecoderError>(n)
                                && final(pcm)@ == output24(
                                old(decoder).demixing_matrix.data@,
                                x,
                                blank,
                                channels,
                                frames_in(room, channels, n as int),
                            ),
                        }
                    },
                }
            }
        }),
{
    let room: usize = pcm.len();
    let needed: usize = match decoder.channels.checked_mul(frame_size) {
        Some(n) => n,
        None => return Err(OpusProjectionDecoderError::BadArgument),
    };
    if room < needed {
        return Err(OpusProjectionDecoderError::BadArgument);
    }
    clear(pcm, needed, 0);
    let ghost ms = decoder.ms_decoder;
    let ghost blank = pcm@;
    let mut x: Vec<i32> = vec![0i32;room];
    assert(x@ =~= silence24(room as int));
    let decoded = opus_multistream_decode_native(
        &mut decoder.ms_decoder,
        data,
        len,
        x.as_mut_slice(),
        frame_size,
        outcomes,
        0,
    );
    proof {
        if let Ok(run) = decode_start(ms, data@, len, room as int, frame_size as int) {
            lemma_run_keeps_length(ms.layout, run, silence24(room as int), outcomes@, 0);
        } else {
            lemma_silence_is_blank24(
                decoder.demixing_matrix.data@,
                blank,
                decoder.channels as int,
                frame_size as int,
            );
        }
        vstd::arithmetic::mul::lemma_mul_is_commutative(
            frame_size as int,
            decoder.channels as int,
        );
    }
    match decoded {
        Ok(n) => {
            let frames: usize = whole_frames(room, decoder.channels, n);
            demix24(&decoder.demixing_matrix, x.as_slice(), pcm, decoder.channels, frames);
            Ok(n)
        },
        Err(e) => {
            demix24(&decoder.demixing_matrix, x.as_slice(), pcm, decoder.channels, frame_size);
            Err(OpusProjectionDecoderError::from(e))
        },
    }
}

} // verus!
