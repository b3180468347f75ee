//! Ambisonics by projection: the channels are mixed by a matrix before they
//! are coded, and demixed by another one after they are decoded.
use crate::channel_layout::{
    ambisonics_order, get_order_plus_one_from_channels, law_one_order, MappingType,
};
use crate::multistream_decode::{decode_start, opus_multistream_decode_start, MultistreamDecodeRun};
use crate::multistream_decoder::{
    align, aligned, combined_range as combined_decoder_range, decoder_created,
    handed_on as handed_to_decoders, multistream_size, opus_multistream_decoder_create,
    opus_multistream_decoder_ctl, opus_multistream_decoder_get_size, OpusMultistreamDecoder,
    OpusMultistreamDecoderCtlRequest, OpusMultistreamDecoderError,
};
use crate::multistream_encode::{
    encoded, frame_countable, opus_multistream_encode, OpusMultistreamEncodeOptions, StreamEncoded,
};
use crate::multistream_encoder::{
    combined_range, first_refusal, handed_on, limited_bitrate, opus_multistream_encoder_create,
    opus_multistream_encoder_ctl, opus_multistream_encoder_get_size, same_but_encoders, set_before,
    setting_of, total_bitrate, EncoderPlan, OpusMultistreamEncoder,
    OpusMultistreamEncoderCtlRequest, OpusMultistreamEncoderError,
};
use crate::opus_decoder::DecoderSetting;
use crate::opus_encoder::{EncoderSetting, OPUS_AUTO, OPUS_BITRATE_MAX};
use vstd::prelude::*;
use vstd::std_specs::convert::FromSpecImpl;

verus! {

/// Why a projection has no layout, or its matrix cannot be written.
#[derive(Debug, Clone, Copy, PartialEq, Eq, Structural)]
pub enum ProjectionError {
    /// An argument is out of range.
    BadArgument,
    /// The mapping family is not a projection.
    Unimplemented,
    /// A size is no machine size.
    SizeOverflow,
}

/// A matrix of 16-bit fractions, column after column.
#[derive(Debug, Clone, Copy, PartialEq, Eq)]
pub struct MappingMatrixView<'a> {
    pub rows: usize,
    pub cols: usize,
    /// Gain in 1/256 dB.
    pub gain_db: i32,
    pub data: &'a [i16],
}

impl<'a> MappingMatrixView<'a> {
    /// All cells are there.
    pub open spec fn wf(self) -> bool {
        self.rows * self.cols == self.data@.len()
    }

    pub open spec fn at(self, row: int, col: int) -> int {
        self.data@[self.rows * col + row] as int
    }

    /// The cell in row `row` and column `col`.
    pub fn cell(&self, row: usize, col: usize) -> (r: i16)
        requires
            self.wf(),
            row < self.rows,
            col < self.cols,
        ensures
            r == self.at(row as int, col as int),
    {
        let n: usize = self.data.len();
        proof {
            assert(self.rows * col + self.rows <= self.rows * self.cols) by (nonlinear_arith)
                requires
                    col + 1 <= self.cols,
                    self.rows >= 0,
            ;
            assert(0 <= self.rows * col) by (nonlinear_arith);
        }
        assert(self.rows * col + row < n);
        self.data[self.rows * col + row]
    }
}

/// A matrix that holds its cells.
#[derive(Debug)]
pub struct MappingMatrix {
    pub rows: usize,
    pub cols: usize,
    pub gain_db: i32,
    pub data: Vec<i16>,
}

impl MappingMatrix {
    /// The matrix without its storage.
    pub fn as_view(&self) -> (r: MappingMatrixView<'_>)
        ensures
            r.rows == self.rows,
            r.cols == self.cols,
            r.gain_db == self.gain_db,
            r.data@ == self.data@,
    {
        MappingMatrixView {
            rows: self.rows,
            cols: self.cols,
            gain_db: self.gain_db,
            data: self.data.as_slice(),
        }
    }
}

/// Bytes of the head of a matrix: three 32-bit numbers.
pub const MATRIX_HEAD_SIZE: usize = 12;

/// Bytes of the head of a projection encoder: two 32-bit numbers.
pub const ENCODER_HEAD_SIZE: usize = 8;

/// Bytes of the head of a projection decoder: a 32-bit number.
pub const DECODER_HEAD_SIZE: usize = 4;

/// Bytes of a matrix: its head and its cells, each up to a multiple of the
/// machine's alignment.
pub open spec fn matrix_size(rows: int, cols: int) -> Option<int> {
    if rows > 255 || cols > 255 || rows * cols * 2 > 65004 {
        None
    } else {
        Some(aligned(MATRIX_HEAD_SIZE as int) + aligned(rows * cols * 2))
    }
}

/// Bytes of a matrix; none where it is too large.
pub fn mapping_matrix_get_size(rows: usize, cols: usize) -> (r: Option<usize>)
    ensures
        match matrix_size(rows as int, cols as int) {
            Some(n) => r == Some(n as usize) && 0 <= n <= 65100,
            None => r is None,
        },
{
    if rows > 255 || cols > 255 {
        return None;
    }
    proof {
        assert(0 <= rows * cols <= 255 * 255) by (nonlinear_arith)
            requires
                0 <= rows <= 255,
                0 <= cols <= 255,
        ;
    }
    let size: usize = rows * cols * 2;
    if size > 65004 {
        return None;
    }
    match (align(MATRIX_HEAD_SIZE), align(size)) {
        (Some(head), Some(cells)) => Some(head + cells),
        _ => None,
    }
}

/// The matrices of the orders 1 to 5.
#[derive(Debug, Clone, Copy)]
pub struct ProjectionMatrices<'a> {
    pub mixing: [MappingMatrixView<'a>; 5],
    pub demixing: [MappingMatrixView<'a>; 5],
}

impl<'a> ProjectionMatrices<'a> {
    pub open spec fn wf(self) -> bool {
        forall|k: int|
            0 <= k < 5 ==> (#[trigger] self.mixing[k]).wf() && (#[trigger] self.demixing[k]).wf()
    }
}

/// The streams and matrices of an ambisonics channel count.
#[derive(Debug, Clone, Copy)]
pub struct ProjectionLayout<'a> {
    pub channels: usize,
    pub streams: usize,
    pub coupled_streams: usize,
    pub order_plus_one: usize,
    pub mixing: MappingMatrixView<'a>,
    pub demixing: MappingMatrixView<'a>,
    pub mixing_matrix_size_bytes: usize,
    pub demixing_matrix_size_bytes: usize,
}

/// Bytes of the cells that a decoder needs.
pub open spec fn subset_size(channels: int, streams: int, coupled: int) -> Result<
    int,
    ProjectionError,
> {
    let inputs = streams + coupled;
    if inputs > usize::MAX || channels * inputs > usize::MAX || channels * inputs * 2 > usize::MAX {
        Err(ProjectionError::SizeOverflow)
    } else {
        Ok(channels * inputs * 2)
    }
}

impl<'a> ProjectionLayout<'a> {
    /// The matrices cover the channels and streams.
    pub open spec fn wf(self) -> bool {
        &&& self.mixing.wf()
        &&& self.demixing.wf()
        &&& self.streams + self.coupled_streams <= self.mixing.rows
        &&& self.channels <= self.mixing.cols
        &&& self.channels <= self.demixing.rows
        &&& self.streams + self.coupled_streams <= self.demixing.cols
    }

    /// Bytes of the cells that a decoder needs.
    pub fn demixing_subset_size_bytes(&self) -> (r: Result<usize, ProjectionError>)
        ensures
            match subset_size(
                self.channels as int,
                self.streams as int,
                self.coupled_streams as int,
            ) {
                Ok(n) => r == Ok::<usize, ProjectionError>(n as usize),
                Err(e) => r == Err::<usize, ProjectionError>(e),
            },
    {
        proof {
            assert(0 <= self.channels * (self.streams + self.coupled_streams)) by (nonlinear_arith);
        }
        let inputs: usize = match self.streams.checked_add(self.coupled_streams) {
            Some(n) => n,
            None => return Err(ProjectionError::SizeOverflow),
        };
        let cells: usize = match self.channels.checked_mul(inputs) {
            Some(n) => n,
            None => return Err(ProjectionError::SizeOverflow),
        };
        match cells.checked_mul(2) {
            Some(n) => Ok(n),
            None => Err(ProjectionError::SizeOverflow),
        }
    }
}

/// Streams and coupled streams of a projection: pairs of channels are coupled.
pub fn get_streams_from_channels(channels: usize, order_plus_one: usize) -> (r: Option<
    (usize, usize),
>)
    ensures
        r == (if 2 <= order_plus_one <= 6 {
            Some(((channels - channels / 2) as usize, channels / 2))
        } else {
            None
        }),
{
    if order_plus_one < 2 || order_plus_one > 6 {
        return None;
    }
    Some((channels - channels / 2, channels / 2))
}

/// Why a channel count has no projection.
pub open spec fn projection_fault(
    channels: int,
    family: int,
    order: Option<int>,
    m: ProjectionMatrices,
) -> Option<ProjectionError> {
    if family != 3 {
        Some(ProjectionError::Unimplemented)
    } else {
        match order {
            None => Some(ProjectionError::BadArgument),
            Some(n) => if !(2 <= n <= 6) {
                Some(ProjectionError::BadArgument)
            } else {
                let mixing = m.mixing[n - 2];
                let demixing = m.demixing[n - 2];
                if channels > mixing.rows || channels > mixing.cols || channels > demixing.rows
                    || channels > demixing.cols || matrix_size(
                    mixing.rows as int,
                    mixing.cols as int,
                ) is None || matrix_size(demixing.rows as int, demixing.cols as int) is None {
                    Some(ProjectionError::BadArgument)
                } else {
                    None
                }
            },
        }
    }
}

/// The order above that of a channel count, if it has one.
pub open spec fn order_of(channels: int) -> Option<int> {
    if exists|n: int| ambisonics_order(channels, n) {
        Some(choose|n: int| ambisonics_order(channels, n))
    } else {
        None
    }
}

/// `l` is the layout of a channel count.
pub open spec fn projection_of(channels: int, m: ProjectionMatrices, l: ProjectionLayout) -> bool {
    let n = order_of(channels)->0;
    &&& l.channels == channels
    &&& l.streams == channels - channels / 2
    &&& l.coupled_streams == channels / 2
    &&& l.order_plus_one == n
    &&& l.mixing == m.mixing[n - 2]
    &&& l.demixing == m.demixing[n - 2]
    &&& Some(l.mixing_matrix_size_bytes as int) == matrix_size(
        l.mixing.rows as int,
        l.mixing.cols as int,
    )
    &&& Some(l.demixing_matrix_size_bytes as int) == matrix_size(
        l.demixing.rows as int,
        l.demixing.cols as int,
    )
    &&& l.wf()
}

/// The streams and matrices of an ambisonics channel count. The counts are
/// those of orders 1 to 5, with or without two channels that are not placed.
pub fn projection_layout<'a>(
    channels: usize,
    mapping_family: u8,
    matrices: &ProjectionMatrices<'a>,
) -> (r: Result<ProjectionLayout<'a>, ProjectionError>)
    requires
        matrices.wf(),
    ensures
        match r {
            Ok(l) => projection_fault(
                channels as int,
                mapping_family as int,
                order_of(channels as int),
                *matrices,
            ) is None && projection_of(channels as int, *matrices, l),
            Err(e) => projection_fault(
                channels as int,
                mapping_family as int,
                order_of(channels as int),
                *matrices,
            ) == Some(e),
        },
{
    if mapping_family != 3 {
        return Err(ProjectionError::Unimplemented);
    }
    let order_plus_one: usize = match get_order_plus_one_from_channels(channels) {
        Some(n) => n,
        None => return Err(ProjectionError::BadArgument),
    };
    proof {
        let n = choose|n: int| ambisonics_order(channels as int, n);
        law_one_order(channels as int, n, order_plus_one as int);
        assert(order_of(channels as int) == Some(order_plus_one as int));
    }
    let (streams, coupled_streams) = match get_streams_from_channels(channels, order_plus_one) {
        Some(found) => found,
        None => return Err(ProjectionError::BadArgument),
    };
    let mixing: MappingMatrixView<'a> = matrices.mixing[order_plus_one - 2];
    let demixing: MappingMatrixView<'a> = matrices.demixing[order_plus_one - 2];
    if streams + coupled_streams > mixing.rows || channels > mixing.cols || channels > demixing.rows
        || streams + coupled_streams > demixing.cols {
        return Err(ProjectionError::BadArgument);
    }
    let mixing_matrix_size_bytes: usize = match mapping_matrix_get_size(mixing.rows, mixing.cols) {
        Some(n) => n,
        None => return Err(ProjectionError::BadArgument),
    };
    let demixing_matrix_size_bytes: usize = match mapping_matrix_get_size(
        demixing.rows,
        demixing.cols,
    ) {
        Some(n) => n,
        None => return Err(ProjectionError::BadArgument),
    };
    assert(matrices.mixing[order_plus_one - 2].wf());
    assert(matrices.demixing[order_plus_one - 2].wf());
    Ok(
        ProjectionLayout {
            channels,
            streams,
            coupled_streams,
            order_plus_one,
            mixing,
            demixing,
            mixing_matrix_size_bytes,
            demixing_matrix_size_bytes,
        },
    )
}

// ---------------------------------------------------------------------
// The matrix as bytes
// ---------------------------------------------------------------------

/// A 16-bit number without its sign.
pub open spec fn unsigned16(v: int) -> int {
    if v < 0 {
        v + 0x1_0000
    } else {
        v
    }
}

/// Byte `b` of a 16-bit number, the low one first.
pub open spec fn le_byte(v: int, b: int) -> u8 {
    if b == 0 {
        (unsigned16(v) % 256) as u8
    } else {
        (unsigned16(v) / 256) as u8
    }
}

/// The number of two bytes, the low one first.
pub open spec fn of_le_bytes(lo: u8, hi: u8) -> int {
    let v = lo + 256 * hi;
    if v >= 0x8000 {
        v - 0x1_0000
    } else {
        v
    }
}

/// The cells that a decoder needs, one column after the other.
pub open spec fn subset_bytes(l: ProjectionLayout) -> Seq<u8> {
    let n = l.channels as int;
    Seq::new(
        (n * (l.streams + l.coupled_streams) * 2) as nat,
        |i: int| le_byte(l.demixing.at(i / 2 % n, i / 2 / n), i % 2),
    )
}

fn low_byte(v: i16) -> (r: u8)
    ensures
        r == le_byte(v as int, 0),
{
    let u: u32 = if v < 0 {
        (v as i32 + 0x1_0000) as u32
    } else {
        v as u32
    };
    (u % 256) as u8
}

fn high_byte(v: i16) -> (r: u8)
    ensures
        r == le_byte(v as int, 1),
{
    let u: u32 = if v < 0 {
        (v as i32 + 0x1_0000) as u32
    } else {
        v as u32
    };
    (u / 256) as u8
}

/// Writes the cells of the demixing matrix that a decoder needs.
pub fn write_demixing_matrix_subset(layout: &ProjectionLayout, output: &mut [u8]) -> (r: Result<
    (),
    ProjectionError,
>)
    requires
        layout.wf(),
    ensures
        match subset_size(
            layout.channels as int,
            layout.streams as int,
            layout.coupled_streams as int,
        ) {
            Err(e) => r == Err::<(), ProjectionError>(e) && final(output)@ == old(output)@,
            Ok(n) => if old(output)@.len() != n {
                r == Err::<(), ProjectionError>(ProjectionError::BadArgument) && final(output)@
                    == old(output)@
            } else {
                r == Ok::<(), ProjectionError>(()) && final(output)@ == subset_bytes(*layout)
            },
        },
{
    let expected: usize = match layout.demixing_subset_size_bytes() {
        Ok(n) => n,
        Err(e) => return Err(e),
    };
    let n: usize = output.len();
    if n != expected {
        return Err(ProjectionError::BadArgument);
    }
    let inputs: usize = layout.streams + layout.coupled_streams;
    let channels: usize = layout.channels;
    let ghost whole = subset_bytes(*layout);
    let mut offset: usize = 0;
    let mut input: usize = 0;
    while input < inputs
        invariant
            layout.wf(),
            channels == layout.channels,
            inputs == layout.streams + layout.coupled_streams,
            n == channels * inputs * 2,
            n == output@.len(),
            n == whole.len(),
            whole == subset_bytes(*layout),
            input <= inputs,
            offset == channels * input * 2,
            forall|i: int| 0 <= i < offset ==> #[trigger] output@[i] == whole[i],
        decreases inputs - input,
    {
        let mut channel: usize = 0;
        while channel < channels
            invariant
                layout.wf(),
                channels == layout.channels,
                inputs == layout.streams + layout.coupled_streams,
                n == channels * inputs * 2,
                n == output@.len(),
                n == whole.len(),
                whole == subset_bytes(*layout),
                input < inputs,
                channel <= channels,
                offset == (channels * input + channel) * 2,
                forall|i: int| 0 <= i < offset ==> #[trigger] output@[i] == whole[i],
            decreases channels - channel,
        {
            proof {
                assert(channels * input + channels <= channels * inputs) by (nonlinear_arith)
                    requires
                        input + 1 <= inputs,
                        channels >= 0,
                ;
                let cells = channels * input + channel;
                vstd::arithmetic::mul::lemma_mul_is_commutative(channels as int, input as int);
                vstd::arithmetic::div_mod::lemma_fundamental_div_mod_converse(
                    cells,
                    channels as int,
                    input as int,
                    channel as int,
                );
                assert(offset as int / 2 == cells && (offset + 1) / 2 == cells);
            }
            let value: i16 = layout.demixing.cell(channel, input);
            output[offset] = low_byte(value);
            output[offset + 1] = high_byte(value);
            offset = offset + 2;
            channel = channel + 1;
        }
        proof {
            assert(channels * (input + 1) == channels * input + channels) by (nonlinear_arith);
        }
        input = input + 1;
    }
    assert(output@ =~= whole);
    Ok(())
}

/// Bytes of the cells that a decoder needs.
pub fn demixing_matrix_size(layout: &ProjectionLayout) -> (r: Result<usize, ProjectionError>)
    ensures
        match subset_size(
            layout.channels as int,
            layout.streams as int,
            layout.coupled_streams as int,
        ) {
            Ok(n) => r == Ok::<usize, ProjectionError>(n as usize),
            Err(e) => r == Err::<usize, ProjectionError>(e),
        },
{
    layout.demixing_subset_size_bytes()
}

/// Gain of the demixing matrix in 1/256 dB.
pub fn demixing_matrix_gain(layout: &ProjectionLayout) -> (r: i32)
    ensures
        r == layout.demixing.gain_db,
{
    layout.demixing.gain_db
}

/// The 16-bit numbers that bytes hold.
pub open spec fn numbers_of(bytes: Seq<u8>) -> Seq<i16> {
    Seq::new(bytes.len() / 2, |i: int| of_le_bytes(bytes[2 * i], bytes[2 * i + 1]) as i16)
}

fn read_numbers(bytes: &[u8]) -> (r: Vec<i16>)
    ensures
        r@ == numbers_of(bytes@),
{
    let mut out: Vec<i16> = Vec::new();
    let n: usize = bytes.len();
    let half: usize = n / 2;
    for i in 0..half
        invariant
            n == bytes@.len(),
            half == n / 2,
            out@.len() == i,
            forall|j: int| 0 <= j < i ==> #[trigger] out@[j] == numbers_of(bytes@)[j],
    {
        let v: i32 = bytes[2 * i] as i32 + 256 * bytes[2 * i + 1] as i32;
        let signed: i32 = if v >= 0x8000 {
            v - 0x1_0000
        } else {
            v
        };
        out.push(signed as i16);
    }
    assert(out@ =~= numbers_of(bytes@));
    out
}

/// What a decoder reads from the bytes that were written is the part of the
/// demixing matrix that it needs.
pub proof fn law_matrix_round_trip(l: ProjectionLayout, row: int, input: int)
    requires
        0 <= row < l.channels,
        0 <= input < l.streams + l.coupled_streams,
    ensures
        ({
            let cells = numbers_of(subset_bytes(l));
            &&& cells.len() == l.channels * (l.streams + l.coupled_streams)
            &&& 0 <= l.channels * input + row < cells.len()
            &&& cells[l.channels * input + row] == l.demixing.at(row, input)
        }),
{
    let n = l.channels as int;
    let inputs = l.streams + l.coupled_streams;
    let k = n * input + row;
    let bytes = subset_bytes(l);
    assert(0 <= n * input && n * input + n <= n * inputs) by (nonlinear_arith)
        requires
            0 <= input,
            input + 1 <= inputs,
            n > 0,
    ;
    vstd::arithmetic::mul::lemma_mul_is_commutative(n, input);
    vstd::arithmetic::div_mod::lemma_fundamental_div_mod_converse(k, n, input, row);
    assert(2 * k / 2 == k && (2 * k + 1) / 2 == k);
    assert(bytes[2 * k] == le_byte(l.demixing.at(row, input), 0));
    assert(bytes[2 * k + 1] == le_byte(l.demixing.at(row, input), 1));
}

// ---------------------------------------------------------------------
// Encoder
// ---------------------------------------------------------------------

#[derive(Debug, Clone, Copy, PartialEq, Eq, Structural)]
pub enum OpusProjectionEncoderError {
    BadArgument,
    Unimplemented,
    SizeOverflow,
    Multistream(OpusMultistreamEncoderError),
}

pub open spec fn encoder_error(e: ProjectionError) -> OpusProjectionEncoderError {
    match e {
        ProjectionError::BadArgument => OpusProjectionEncoderError::BadArgument,
        ProjectionError::Unimplemented => OpusProjectionEncoderError::Unimplemented,
        ProjectionError::SizeOverflow => OpusProjectionEncoderError::SizeOverflow,
    }
}

impl From<ProjectionError> for OpusProjectionEncoderError {
    fn from(value: ProjectionError) -> (r: Self) {
        match value {
            ProjectionError::BadArgument => OpusProjectionEncoderError::BadArgument,
            ProjectionError::Unimplemented => OpusProjectionEncoderError::Unimplemented,
            ProjectionError::SizeOverflow => OpusProjectionEncoderError::SizeOverflow,
        }
    }
}

impl FromSpecImpl<ProjectionError> for OpusProjectionEncoderError {
    open spec fn obeys_from_spec() -> bool {
        true
    }

    open spec fn from_spec(value: ProjectionError) -> Self {
        encoder_error(value)
    }
}

impl From<OpusMultistreamEncoderError> for OpusProjectionEncoderError {
    fn from(value: OpusMultistreamEncoderError) -> (r: Self) {
        OpusProjectionEncoderError::Multistream(value)
    }
}

impl FromSpecImpl<OpusMultistreamEncoderError> for OpusProjectionEncoderError {
    open spec fn obeys_from_spec() -> bool {
        true
    }

    open spec fn from_spec(value: OpusMultistreamEncoderError) -> Self {
        OpusProjectionEncoderError::Multistream(value)
    }
}

/// An encoder of mixed ambisonics channels.
#[derive(Debug)]
pub struct OpusProjectionEncoder<'a> {
    pub layout: ProjectionLayout<'a>,
    pub ms_encoder: OpusMultistreamEncoder,
}

impl<'a> OpusProjectionEncoder<'a> {
    pub open spec fn wf(&self) -> bool {
        &&& self.layout.wf()
        &&& self.ms_encoder.wf()
        &&& self.layout.channels == self.ms_encoder.layout.nb_channels
    }

    pub fn projection_layout(&self) -> (r: &ProjectionLayout<'a>)
        ensures
            *r == self.layout,
    {
        &self.layout
    }

    pub fn multistream_encoder(&mut self) -> (r: &mut OpusMultistreamEncoder)
        ensures
            *r == old(self).ms_encoder,
            final(self).ms_encoder == *final(r),
            final(self).layout == old(self).layout,
    {
        &mut self.ms_encoder
    }
}

/// Bytes of a projection encoder: its head, its matrices and its multistream
/// encoder.
pub fn opus_projection_ambisonics_encoder_get_size(
    channels: usize,
    mapping_family: u8,
    matrices: &ProjectionMatrices,
    coupled_size: usize,
    mono_size: usize,
) -> (r: Option<usize>)
    requires
        matrices.wf(),
    ensures
        ({
            let order = order_of(channels as int);
            let n = order->0;
            if projection_fault(channels as int, mapping_family as int, order, *matrices) is Some {
                r is None
            } else {
                let size = aligned(ENCODER_HEAD_SIZE as int) + matrix_size(
                    matrices.mixing[n - 2].rows as int,
                    matrices.mixing[n - 2].cols as int,
                )->0 + matrix_size(
                    matrices.demixing[n - 2].rows as int,
                    matrices.demixing[n - 2].cols as int,
                )->0 + multistream_size(
                    channels - channels / 2,
                    channels as int / 2,
                    coupled_size as int,
                    mono_size as int,
                );
                match r {
                    Some(v) => v == size,
                    None => size > usize::MAX || aligned(coupled_size as int) > usize::MAX
                        || aligned(mono_size as int) > usize::MAX,
                }
            }
        }),
{
    let head: usize = match align(ENCODER_HEAD_SIZE) {
        Some(n) => n,
        None => return None,
    };
    match projection_layout(channels, mapping_family, matrices) {
        Ok(layout) => {
            match opus_multistream_encoder_get_size(
                layout.streams,
                layout.coupled_streams,
                coupled_size,
                mono_size,
            ) {
                Some(size) => match head.checked_add(layout.mixing_matrix_size_bytes) {
                    Some(first) => match first.checked_add(layout.demixing_matrix_size_bytes) {
                        Some(both) => both.checked_add(size),
                        None => None,
                    },
                    None => None,
                },
                None => None,
            }
        },
        Err(_) => None,
    }
}

/// The channel order of a projection: each channel in its place.
pub open spec fn own_order(channels: int) -> Seq<u8> {
    Seq::new(channels as nat, |i: int| (i % 256) as u8)
}

fn order_in_place(channels: usize) -> (r: Vec<u8>)
    ensures
        r@ == own_order(channels as int),
{
    let mut mapping: Vec<u8> = Vec::new();
    for i in 0..channels
        invariant
            mapping@.len() == i,
            forall|j: int| 0 <= j < i ==> #[trigger] mapping@[j] == (j % 256) as u8,
    {
        mapping.push((i % 256) as u8);
    }
    assert(mapping@ =~= own_order(channels as int));
    mapping
}

/// The arguments of the multistream encoder of a projection.
pub open spec fn projection_plan(sample_rate: i32, channels: usize, application: i32) -> EncoderPlan {
    EncoderPlan {
        sample_rate,
        channels,
        streams: (channels - channels / 2) as usize,
        coupled: channels / 2,
        mapping: own_order(channels as int),
        application,
    }
}

/// Why a projection encoder cannot be set up.
pub open spec fn projection_encoder_fault(
    sample_rate: i32,
    channels: usize,
    family: u8,
    application: i32,
    m: ProjectionMatrices,
) -> Option<OpusProjectionEncoderError> {
    match projection_fault(channels as int, family as int, order_of(channels as int), m) {
        Some(e) => Some(encoder_error(e)),
        None => match projection_plan(sample_rate, channels, application).fault() {
            Some(e) => Some(OpusProjectionEncoderError::Multistream(e)),
            None => None,
        },
    }
}

/// Sets up a projection encoder, and returns its streams and coupled streams.
pub fn opus_projection_ambisonics_encoder_create<'a>(
    sample_rate: i32,
    channels: usize,
    mapping_family: u8,
    application: i32,
    matrices: &ProjectionMatrices<'a>,
) -> (r: Result<(OpusProjectionEncoder<'a>, usize, usize), OpusProjectionEncoderError>)
    requires
        matrices.wf(),
    ensures
        ({
            let fault = projection_encoder_fault(
                sample_rate,
                channels,
                mapping_family,
                application,
                *matrices,
            );
            match r {
                Ok((e, streams, coupled)) => {
                    &&& fault is None
                    &&& projection_of(channels as int, *matrices, e.layout)
                    &&& projection_plan(sample_rate, channels, application).gives(e.ms_encoder)
                    &&& e.ms_encoder.mapping_type == MappingType::Plain
                    &&& e.ms_encoder.lfe_stream is None
                    &&& streams == channels - channels / 2
                    &&& coupled == channels / 2
                    &&& e.wf()
                },
                Err(e) => fault == Some(e),
            }
        }),
{
    let layout: ProjectionLayout<'a> = match projection_layout(channels, mapping_family, matrices) {
        Ok(l) => l,
        Err(e) => return Err(OpusProjectionEncoderError::from(e)),
    };
    let mapping: Vec<u8> = order_in_place(channels);
    match opus_multistream_encoder_create(
        sample_rate,
        channels,
        layout.streams,
        layout.coupled_streams,
        mapping.as_slice(),
        application,
    ) {
        Ok(ms_encoder) => Ok(
            (
                OpusProjectionEncoder { layout, ms_encoder },
                layout.streams,
                layout.coupled_streams,
            ),
        ),
        Err(e) => Err(OpusProjectionEncoderError::from(e)),
    }
}

/// Sets a projection encoder up anew; what is refused leaves it as it was.
pub fn opus_projection_ambisonics_encoder_init<'a>(
    encoder: &mut OpusProjectionEncoder<'a>,
    sample_rate: i32,
    channels: usize,
    mapping_family: u8,
    application: i32,
    matrices: &ProjectionMatrices<'a>,
) -> (r: Result<(usize, usize), OpusProjectionEncoderError>)
    requires
        matrices.wf(),
    ensures
        ({
            let fault = projection_encoder_fault(
                sample_rate,
                channels,
                mapping_family,
                application,
                *matrices,
            );
            match r {
                Ok((streams, coupled)) => {
                    &&& fault is None
                    &&& projection_of(channels as int, *matrices, final(encoder).layout)
                    &&& projection_plan(sample_rate, channels, application).gives(
                        final(encoder).ms_encoder,
                    )
                    &&& final(encoder).ms_encoder.mapping_type == MappingType::Plain
                    &&& final(encoder).ms_encoder.lfe_stream is None
                    &&& streams == channels - channels / 2
                    &&& coupled == channels / 2
                    &&& final(encoder).wf()
                },
                Err(e) => fault == Some(e) && *final(encoder) == *old(encoder),
            }
        }),
{
    match opus_projection_ambisonics_encoder_create(
        sample_rate,
        channels,
        mapping_family,
        application,
        matrices,
    ) {
        Ok((e, streams, coupled)) => {
            *encoder = e;
            Ok((streams, coupled))
        },
        Err(e) => Err(e),
    }
}

/// A control request to a projection encoder.
pub enum OpusProjectionEncoderCtlRequest<'req> {
    GetDemixingMatrixSize(&'req mut usize),
    GetDemixingMatrixGain(&'req mut i32),
    GetDemixingMatrix(&'req mut [u8]),
    Multistream(OpusMultistreamEncoderCtlRequest<'req>),
}

/// Handles a control request: questions about the demixing matrix, and all
/// that the multistream encoder handles.
#[verifier::rlimit(100)]
pub fn opus_projection_encoder_ctl<'req>(
    encoder: &mut OpusProjectionEncoder,
    request: OpusProjectionEncoderCtlRequest<'req>,
) -> (r: Result<(), OpusProjectionEncoderError>)
    requires
        old(encoder).wf(),
    ensures
        final(encoder).wf(),
        final(encoder).layout == old(encoder).layout,
        match request {
            OpusProjectionEncoderCtlRequest::GetDemixingMatrixSize(out) => {
                let l = old(encoder).layout;
                &&& final(encoder).ms_encoder == old(encoder).ms_encoder
                &&& match subset_size(
                    l.channels as int,
                    l.streams as int,
                    l.coupled_streams as int,
                ) {
                    Ok(n) => r == Ok::<(), OpusProjectionEncoderError>(()) && *final(out) == n,
                    Err(e) => r == Err::<(), OpusProjectionEncoderError>(encoder_error(e)),
                }
            },
            OpusProjectionEncoderCtlRequest::GetDemixingMatrixGain(out) => {
                &&& final(encoder).ms_encoder == old(encoder).ms_encoder
                &&& r == Ok::<(), OpusProjectionEncoderError>(())
                &&& *final(out) == old(encoder).layout.demixing.gain_db
            },
            OpusProjectionEncoderCtlRequest::GetDemixingMatrix(out) => {
                let l = old(encoder).layout;
                &&& final(encoder).ms_encoder == old(encoder).ms_encoder
                &&& match subset_size(
                    l.channels as int,
                    l.streams as int,
                    l.coupled_streams as int,
                ) {
                    Ok(n) => if out@.len() != n {
                        r == Err::<(), OpusProjectionEncoderError>(
                            OpusProjectionEncoderError::BadArgument,
                        )
                    } else {
                        r == Ok::<(), OpusProjectionEncoderError>(()) && final(out)@
                            == subset_bytes(l)
                    },
                    Err(e) => r == Err::<(), OpusProjectionEncoderError>(encoder_error(e)),
                }
            },
            OpusProjectionEncoderCtlRequest::Multistream(req) => {
                let b = old(encoder).ms_encoder;
                let a = final(encoder).ms_encoder;
                let first = b.encoders@[0];
                let m = match r {
                    Ok(_) => Ok::<(), OpusMultistreamEncoderError>(()),
                    Err(e) => Err(e->Multistream_0),
                };
                let ok = m == Ok::<(), OpusMultistreamEncoderError>(());
                let told = ok && a == b;
                &&& (r is Err ==> r->Err_0 is Multistream)
                &&&             match req {
                OpusMultistreamEncoderCtlRequest::SetApplication(v) => {
                    let s = EncoderSetting::Application(v);
                    let k = first_refusal(b.encoders@, s);
                    &&& a.encoders@ == set_before(b.encoders@, s, k)
                    &&& m == (if k == b.encoders@.len() {
                        Ok::<(), OpusMultistreamEncoderError>(())
                    } else {
                        Err(OpusMultistreamEncoderError::BadArgument)
                    })
                    &&& same_but_encoders(
                        OpusMultistreamEncoder {
                            application: if ok {
                                v
                            } else {
                                b.application
                            },
                            ..b
                        },
                        a,
                    )
                },
                OpusMultistreamEncoderCtlRequest::SetBitrate(v) => if v <= 0 && v != OPUS_AUTO && v
                    != OPUS_BITRATE_MAX {
                    m == Err::<(), OpusMultistreamEncoderError>(
                        OpusMultistreamEncoderError::BadArgument,
                    ) && a == b
                } else {
                    ok && a == (OpusMultistreamEncoder {
                        bitrate_bps: limited_bitrate(v as int, b.layout.nb_channels as int) as i32,
                        ..b
                    })
                },
                OpusMultistreamEncoderCtlRequest::GetBitrate(o) => {
                    let total = total_bitrate(b.encoders@);
                    &&& a == b
                    &&& if i32::MIN <= total <= i32::MAX {
                        ok && *final(o) == total
                    } else {
                        m == Err::<(), OpusMultistreamEncoderError>(
                            OpusMultistreamEncoderError::InternalError,
                        )
                    }
                },
                OpusMultistreamEncoderCtlRequest::SetExpertFrameDuration(v) => ok && a == (
                OpusMultistreamEncoder { variable_duration: v, ..b }),
                OpusMultistreamEncoderCtlRequest::GetExpertFrameDuration(o) => ok && a == b
                    && *final(o) == b.variable_duration,
                OpusMultistreamEncoderCtlRequest::GetFinalRange(o) => ok && a == b && *final(o)
                    == combined_range(b.encoders@),
                OpusMultistreamEncoderCtlRequest::GetApplication(o) => told && *final(o)
                    == first.application,
                OpusMultistreamEncoderCtlRequest::GetForceChannels(o) => told && *final(o)
                    == first.force_channels,
                OpusMultistreamEncoderCtlRequest::GetMaxBandwidth(o) => told && *final(o)
                    == first.max_bandwidth,
                OpusMultistreamEncoderCtlRequest::GetBandwidth(o) => told && *final(o)
                    == first.bandwidth,
                OpusMultistreamEncoderCtlRequest::GetVbr(o) => told && *final(o)
                    == first.use_vbr,
                OpusMultistreamEncoderCtlRequest::GetVbrConstraint(o) => told && *final(o)
                    == first.vbr_constraint,
                OpusMultistreamEncoderCtlRequest::GetComplexity(o) => told && *final(o)
                    == first.complexity,
                OpusMultistreamEncoderCtlRequest::GetSignal(o) => told && *final(o)
                    == first.signal_type,
                OpusMultistreamEncoderCtlRequest::GetVoiceRatio(o) => told && *final(o)
                    == first.voice_ratio,
                OpusMultistreamEncoderCtlRequest::GetPacketLossPerc(o) => told && *final(o)
                    == first.packet_loss_perc,
                OpusMultistreamEncoderCtlRequest::GetInbandFec(o) => told && *final(o)
                    == first.inband_fec,
                OpusMultistreamEncoderCtlRequest::GetDtx(o) => told && *final(o)
                    == first.use_dtx,
                OpusMultistreamEncoderCtlRequest::GetInDtx(o) => told && *final(o)
                    == first.in_dtx,
                OpusMultistreamEncoderCtlRequest::GetLsbDepth(o) => told && *final(o)
                    == first.lsb_depth,
                OpusMultistreamEncoderCtlRequest::GetPredictionDisabled(o) => told && *final(o)
                    == first.prediction_disabled,
                OpusMultistreamEncoderCtlRequest::GetPhaseInversionDisabled(o) => told && *final(o)
                    == first.phase_inversion_disabled,
                OpusMultistreamEncoderCtlRequest::GetDredDuration(o) => told && *final(o)
                    == first.dred_duration,
                OpusMultistreamEncoderCtlRequest::GetSampleRate(o) => told && *final(o)
                    == first.fs,
                OpusMultistreamEncoderCtlRequest::GetLookahead(o) => told && *final(o)
                    == first.lookahead(),
                _ => handed_on(b.encoders@, setting_of(req)->0, a.encoders@, m)
                    && same_but_encoders(b, a),
            }
            },
        },
{
    match request {
        OpusProjectionEncoderCtlRequest::GetDemixingMatrixSize(out) => {
            match encoder.layout.demixing_subset_size_bytes() {
                Ok(n) => {
                    *out = n;
                    Ok(())
                },
                Err(e) => Err(OpusProjectionEncoderError::from(e)),
            }
        },
        OpusProjectionEncoderCtlRequest::GetDemixingMatrixGain(out) => {
            *out = encoder.layout.demixing.gain_db;
            Ok(())
        },
        OpusProjectionEncoderCtlRequest::GetDemixingMatrix(out) => {
            match write_demixing_matrix_subset(&encoder.layout, out) {
                Ok(_) => Ok(()),
                Err(e) => Err(OpusProjectionEncoderError::from(e)),
            }
        },
        OpusProjectionEncoderCtlRequest::Multistream(req) => {
            match opus_multistream_encoder_ctl(&mut encoder.ms_encoder, req) {
                Ok(_) => Ok(()),
                Err(e) => Err(OpusProjectionEncoderError::from(e)),
            }
        },
    }
}

/// What coding a frame gives; `mixed` are the mixed channels.
pub open spec fn projection_encoded(
    before: OpusMultistreamEncoder,
    channels: int,
    pcm_len: int,
    mixed_len: int,
    frame_size: int,
    data: Seq<u8>,
    outs: Seq<StreamEncoded>,
    after: OpusMultistreamEncoder,
    bytes: Seq<u8>,
    r: Result<usize, OpusProjectionEncoderError>,
) -> bool {
    if pcm_len < channels * frame_size {
        r == Err::<usize, OpusProjectionEncoderError>(OpusProjectionEncoderError::BadArgument)
            && after == before && bytes == data
    } else {
        &&& r is Err ==> r->Err_0 is Multistream
        &&& encoded(
            before,
            data,
            mixed_len,
            frame_size,
            OpusMultistreamEncodeOptions { mask_streams: None },
            outs,
            after,
            bytes,
            match r {
                Ok(n) => Ok(n),
                Err(e) => Err(e->Multistream_0),
            },
        )
    }
}

/// Codes a frame of `pcm_len` samples whose channels were mixed into `mixed`,
/// where `outcomes` is what the stream encoders gave.
fn encode_mixed(
    encoder: &mut OpusProjectionEncoder,
    pcm_len: usize,
    mixed: &[i16],
    frame_size: usize,
    data: &mut [u8],
    outcomes: &[StreamEncoded],
) -> (r: Result<usize, OpusProjectionEncoderError>)
    requires
        old(encoder).wf(),
        pcm_len < old(encoder).layout.channels * frame_size || frame_countable(
            old(encoder).ms_encoder,
            mixed@.len() as int,
            frame_size as int,
        ),
    ensures
        final(encoder).wf(),
        final(encoder).layout == old(encoder).layout,
        projection_encoded(
            old(encoder).ms_encoder,
            old(encoder).layout.channels as int,
            pcm_len as int,
            mixed@.len() as int,
            frame_size as int,
            old(data)@,
            outcomes@,
            final(encoder).ms_encoder,
            final(data)@,
            r,
        ),
{
    let required: usize = match encoder.layout.channels.checked_mul(frame_size) {
        Some(n) => n,
        None => return Err(OpusProjectionEncoderError::BadArgument),
    };
    if pcm_len < required {
        return Err(OpusProjectionEncoderError::BadArgument);
    }
    match opus_multistream_encode(&mut encoder.ms_encoder, mixed, frame_size, data, outcomes) {
        Ok(n) => Ok(n),
        Err(e) => Err(OpusProjectionEncoderError::from(e)),
    }
}

/// Codes a frame of interleaved 16-bit channels, which were mixed into
/// `mixed`, where `outcomes` is what the stream encoders gave.
pub fn opus_projection_encode(
    encoder: &mut OpusProjectionEncoder,
    pcm: &[i16],
    mixed: &[i16],
    frame_size: usize,
    data: &mut [u8],
    outcomes: &[StreamEncoded],
) -> (r: Result<usize, OpusProjectionEncoderError>)
    requires
        old(encoder).wf(),
        pcm@.len() < old(encoder).layout.channels * frame_size || frame_countable(
            old(encoder).ms_encoder,
            mixed@.len() as int,
            frame_size as int,
        ),
    ensures
        final(encoder).wf(),
        final(encoder).layout == old(encoder).layout,
        projection_encoded(
            old(encoder).ms_encoder,
            old(encoder).layout.channels as int,
            pcm@.len() as int,
            mixed@.len() as int,
            frame_size as int,
            old(data)@,
            outcomes@,
            final(encoder).ms_encoder,
            final(data)@,
            r,
        ),
{
    encode_mixed(encoder, pcm.len(), mixed, frame_size, data, outcomes)
}

/// Codes a frame of interleaved 24-bit channels, which were mixed into
/// `mixed`, where `outcomes` is what the stream encoders gave.
pub fn opus_projection_encode24(
    encoder: &mut OpusProjectionEncoder,
    pcm: &[i32],
    mixed: &[i16],
    frame_size: usize,
    data: &mut [u8],
    outcomes: &[StreamEncoded],
) -> (r: Result<usize, OpusProjectionEncoderError>)
    requires
        old(encoder).wf(),
        pcm@.len() < old(encoder).layout.channels * frame_size || frame_countable(
            old(encoder).ms_encoder,
            mixed@.len() as int,
            frame_size as int,
        ),
    ensures
        final(encoder).wf(),
        final(encoder).layout == old(encoder).layout,
        projection_encoded(
            old(encoder).ms_encoder,
            old(encoder).layout.channels as int,
            pcm@.len() as int,
            mixed@.len() as int,
            frame_size as int,
            old(data)@,
            outcomes@,
            final(encoder).ms_encoder,
            final(data)@,
            r,
        ),
{
    encode_mixed(encoder, pcm.len(), mixed, frame_size, data, outcomes)
}

// ---------------------------------------------------------------------
// Decoder
// ---------------------------------------------------------------------

#[derive(Debug, Clone, Copy, PartialEq, Eq, Structural)]
pub enum OpusProjectionDecoderError {
    BadArgument,
    Multistream(OpusMultistreamDecoderError),
}

impl From<OpusMultistreamDecoderError> for OpusProjectionDecoderError {
    fn from(value: OpusMultistreamDecoderError) -> (r: Self) {
        OpusProjectionDecoderError::Multistream(value)
    }
}

impl FromSpecImpl<OpusMultistreamDecoderError> for OpusProjectionDecoderError {
    open spec fn obeys_from_spec() -> bool {
        true
    }

    open spec fn from_spec(value: OpusMultistreamDecoderError) -> Self {
        OpusProjectionDecoderError::Multistream(value)
    }
}

/// A decoder of mixed ambisonics channels.
#[derive(Debug)]
pub struct OpusProjectionDecoder {
    pub channels: usize,
    pub demixing_matrix: MappingMatrix,
    pub ms_decoder: OpusMultistreamDecoder,
}

impl OpusProjectionDecoder {
    pub fn channels(&self) -> (r: usize)
        ensures
            r == self.channels,
    {
        self.channels
    }

    pub fn multistream_decoder(&mut self) -> (r: &mut OpusMultistreamDecoder)
        ensures
            *r == old(self).ms_decoder,
            final(self).ms_decoder == *final(r),
            final(self).channels == old(self).channels,
            final(self).demixing_matrix == old(self).demixing_matrix,
    {
        &mut self.ms_decoder
    }
}

/// Bytes of a projection decoder: its head, its matrix and its multistream
/// decoder.
pub fn opus_projection_decoder_get_size(
    channels: usize,
    streams: usize,
    coupled_streams: usize,
    coupled_size: usize,
    mono_size: usize,
) -> (r: Option<usize>)
    requires
        streams + coupled_streams <= usize::MAX,
    ensures
        ({
            let matrix = matrix_size(streams + coupled_streams, channels as int);
            let size = aligned(DECODER_HEAD_SIZE as int) + matrix->0 + multistream_size(
                streams as int,
                coupled_streams as int,
                coupled_size as int,
                mono_size as int,
            );
            let counted = matrix is Some && streams > 0 && coupled_streams <= streams;
            match r {
                Some(v) => counted && v == size,
                None => !counted || size > usize::MAX || aligned(coupled_size as int) > usize::MAX
                    || aligned(mono_size as int) > usize::MAX,
            }
        }),
{
    let matrix: usize = match mapping_matrix_get_size(streams + coupled_streams, channels) {
        Some(n) => n,
        None => return None,
    };
    let head: usize = match align(DECODER_HEAD_SIZE) {
        Some(n) => n,
        None => return None,
    };
    match opus_multistream_decoder_get_size(streams, coupled_streams, coupled_size, mono_size) {
        Some(size) => (head + matrix).checked_add(size),
        None => None,
    }
}

/// The bytes are a matrix for the channels and streams.
pub open spec fn matrix_fits(channels: int, streams: int, coupled: int, bytes: int) -> bool {
    (streams + coupled) * channels * 2 == bytes
}

/// The matrix that a decoder reads from bytes.
pub open spec fn matrix_of(m: MappingMatrix, channels: int, inputs: int, bytes: Seq<u8>) -> bool {
    &&& m.rows == channels
    &&& m.cols == inputs
    &&& m.gain_db == 0
    &&& m.data@ == numbers_of(bytes)
}

fn read_matrix(channels: usize, streams: usize, coupled_streams: usize, bytes: &[u8]) -> (r: Option<
    MappingMatrix,
>)
    requires
        streams + coupled_streams <= usize::MAX,
    ensures
        match r {
            Some(m) => matrix_fits(
                channels as int,
                streams as int,
                coupled_streams as int,
                bytes@.len() as int,
            ) && matrix_of(m, channels as int, streams + coupled_streams, bytes@),
            None => !matrix_fits(
                channels as int,
                streams as int,
                coupled_streams as int,
                bytes@.len() as int,
            ),
        },
{
    let inputs: usize = streams + coupled_streams;
    let have: usize = bytes.len();
    proof {
        assert(0 <= inputs * channels) by (nonlinear_arith);
    }
    let cells: usize = match inputs.checked_mul(channels) {
        Some(n) => n,
        None => return None,
    };
    let expected: usize = match cells.checked_mul(2) {
        Some(n) => n,
        None => return None,
    };
    if have != expected {
        return None;
    }
    Some(MappingMatrix { rows: channels, cols: inputs, gain_db: 0, data: read_numbers(bytes) })
}

/// Sets up a projection decoder with the demixing matrix that its bytes hold.
pub fn opus_projection_decoder_create(
    sample_rate: i32,
    channels: usize,
    streams: usize,
    coupled_streams: usize,
    demixing_matrix: &[u8],
) -> (r: Result<OpusProjectionDecoder, OpusProjectionDecoderError>)
    requires
        streams + coupled_streams <= usize::MAX,
    ensures
        ({
            let fits = matrix_fits(
                channels as int,
                streams as int,
                coupled_streams as int,
                demixing_matrix@.len() as int,
            );
            match r {
                Ok(d) => {
                    &&& fits
                    &&& d.channels == channels
                    &&& matrix_of(
                        d.demixing_matrix,
                        channels as int,
                        streams + coupled_streams,
                        demixing_matrix@,
                    )
                    &&& decoder_created(
                        sample_rate,
                        channels,
                        streams,
                        coupled_streams,
                        own_order(channels as int),
                        Ok(d.ms_decoder),
                    )
                },
                Err(OpusProjectionDecoderError::BadArgument) => !fits,
                Err(OpusProjectionDecoderError::Multistream(e)) => fits && decoder_created(
                    sample_rate,
                    channels,
                    streams,
                    coupled_streams,
                    own_order(channels as int),
                    Err(e),
                ),
            }
        }),
{
    let matrix: MappingMatrix = match read_matrix(
        channels,
        streams,
        coupled_streams,
        demixing_matrix,
    ) {
        Some(m) => m,
        None => return Err(OpusProjectionDecoderError::BadArgument),
    };
    let mapping: Vec<u8> = order_in_place(channels);
    match opus_multistream_decoder_create(
        sample_rate,
        channels,
        streams,
        coupled_streams,
        mapping.as_slice(),
    ) {
        Ok(ms_decoder) => Ok(
            OpusProjectionDecoder { channels, demixing_matrix: matrix, ms_decoder },
        ),
        Err(e) => Err(OpusProjectionDecoderError::from(e)),
    }
}

/// Sets a projection decoder up anew. Where the multistream decoder refuses,
/// the matrix and the channels are those of the call, and the multistream
/// decoder is as before.
pub fn opus_projection_decoder_init(
    decoder: &mut OpusProjectionDecoder,
    sample_rate: i32,
    channels: usize,
    streams: usize,
    coupled_streams: usize,
    demixing_matrix: &[u8],
) -> (r: Result<(), OpusProjectionDecoderError>)
    requires
        streams + coupled_streams <= usize::MAX,
    ensures
        ({
            let fits = matrix_fits(
                channels as int,
                streams as int,
                coupled_streams as int,
                demixing_matrix@.len() as int,
            );
            let taken = final(decoder).channels == channels && matrix_of(
                final(decoder).demixing_matrix,
                channels as int,
                streams + coupled_streams,
                demixing_matrix@,
            );
            match r {
                Ok(_) => fits && taken && decoder_created(
                    sample_rate,
                    channels,
                    streams,
                    coupled_streams,
                    own_order(channels as int),
                    Ok(final(decoder).ms_decoder),
                ),
                Err(OpusProjectionDecoderError::BadArgument) => !fits && *final(decoder) == *old(
                    decoder,
                ),
                Err(OpusProjectionDecoderError::Multistream(e)) => fits && taken && final(
                    decoder).ms_decoder == old(decoder).ms_decoder && decoder_created(
                    sample_rate,
                    channels,
                    streams,
                    coupled_streams,
                    own_order(channels as int),
                    Err(e),
                ),
            }
        }),
{
    let matrix: MappingMatrix = match read_matrix(
        channels,
        streams,
        coupled_streams,
        demixing_matrix,
    ) {
        Some(m) => m,
        None => return Err(OpusProjectionDecoderError::BadArgument),
    };
    decoder.demixing_matrix = matrix;
    decoder.channels = channels;
    let mapping: Vec<u8> = order_in_place(channels);
    match decoder.ms_decoder.init(
        sample_rate,
        channels,
        streams,
        coupled_streams,
        mapping.as_slice(),
    ) {
        Ok(_) => Ok(()),
        Err(e) => Err(OpusProjectionDecoderError::from(e)),
    }
}

/// `pcm` with its first `n` samples silent.
pub open spec fn cleared<T>(pcm: Seq<T>, n: int, zero: T) -> Seq<T> {
    Seq::new(
        pcm.len(),
        |i: int|
            if i < n {
                zero
            } else {
                pcm[i]
            },
    )
}

/// How the decoding of a packet starts: `pcm` is cleared, and the demixed
/// streams are added to it as they are decoded.
pub fn opus_projection_decode_start<T: Copy>(
    decoder: &OpusProjectionDecoder,
    data: &[u8],
    len: usize,
    pcm: &mut [T],
    frame_size: usize,
    zero: T,
) -> (r: Result<MultistreamDecodeRun, OpusProjectionDecoderError>)
    requires
        decoder.ms_decoder.wf(),
    ensures
        ({
            let needed = decoder.channels * frame_size;
            if old(pcm)@.len() < needed {
                r == Err::<MultistreamDecodeRun, OpusProjectionDecoderError>(
                    OpusProjectionDecoderError::BadArgument,
                ) && final(pcm)@ == old(pcm)@
            } else {
                &&& final(pcm)@ == cleared(old(pcm)@, needed as int, zero)
                &&& r == (match decode_start(
                    decoder.ms_decoder,
                    data@,
                    len,
                    old(pcm)@.len() as int,
                    frame_size as int,
                ) {
                    Ok(run) => Ok::<MultistreamDecodeRun, OpusProjectionDecoderError>(run),
                    Err(e) => Err(OpusProjectionDecoderError::Multistream(e)),
                })
            }
        }),
{
    let have: usize = pcm.len();
    let ghost before = pcm@;
    let required: usize = match decoder.channels.checked_mul(frame_size) {
        Some(n) => n,
        None => return Err(OpusProjectionDecoderError::BadArgument),
    };
    if have < required {
        return Err(OpusProjectionDecoderError::BadArgument);
    }
    for i in 0..required
        invariant
            have == pcm@.len(),
            have == before.len(),
            required <= have,
            forall|j: int|
                0 <= j < have ==> #[trigger] pcm@[j] == if j < i {
                    zero
                } else {
                    before[j]
                },
    {
        pcm[i] = zero;
    }
    assert(pcm@ =~= cleared(before, required as int, zero));
    match opus_multistream_decode_start(&decoder.ms_decoder, data, len, have, frame_size) {
        Ok(run) => Ok(run),
        Err(e) => Err(OpusProjectionDecoderError::from(e)),
    }
}

/// A control request to a projection decoder.
pub enum OpusProjectionDecoderCtlRequest<'req> {
    Multistream(OpusMultistreamDecoderCtlRequest<'req>),
}

/// Handles a control request, all of which the multistream decoder handles.
#[verifier::rlimit(60)]
pub fn opus_projection_decoder_ctl<'req>(
    decoder: &mut OpusProjectionDecoder,
    request: OpusProjectionDecoderCtlRequest<'req>,
) -> (r: Result<(), OpusProjectionDecoderError>)
    ensures
        old(decoder).ms_decoder.wf() ==> final(decoder).ms_decoder.wf(),
        final(decoder).channels == old(decoder).channels,
        final(decoder).demixing_matrix == old(decoder).demixing_matrix,
        final(decoder).ms_decoder.layout == old(decoder).ms_decoder.layout,
        r is Err ==> r->Err_0 is Multistream,
        ({
            let before = old(decoder).ms_decoder.decoders@;
            let after = final(decoder).ms_decoder.decoders@;
            let first = before[0];
            let m = match r {
                Ok(_) => Ok::<(), OpusMultistreamDecoderError>(()),
                Err(e) => Err(e->Multistream_0),
            };
            let told = m == Ok::<(), OpusMultistreamDecoderError>(()) && after == before;
            let OpusProjectionDecoderCtlRequest::Multistream(req) = request;
            if before.len() == 0 {
                m == Err::<(), OpusMultistreamDecoderError>(
                    OpusMultistreamDecoderError::InternalError,
                ) && after == before
            } else {
                            match req {
                OpusMultistreamDecoderCtlRequest::SetGain(v) => handed_to_decoders(
                    before,
                    DecoderSetting::Gain(v),
                    after,
                    m,
                ),
                OpusMultistreamDecoderCtlRequest::GetGain(slot) => told && *final(slot)
                    == first.decode_gain,
                OpusMultistreamDecoderCtlRequest::SetComplexity(v) => handed_to_decoders(
                    before,
                    DecoderSetting::Complexity(v),
                    after,
                    m,
                ),
                OpusMultistreamDecoderCtlRequest::GetComplexity(slot) => told && *final(slot)
                    == first.complexity,
                OpusMultistreamDecoderCtlRequest::GetBandwidth(slot) => told && *final(slot)
                    == first.bandwidth,
                OpusMultistreamDecoderCtlRequest::GetSampleRate(slot) => told && *final(slot)
                    == first.fs,
                OpusMultistreamDecoderCtlRequest::GetFinalRange(slot) => told && *final(slot)
                    == combined_decoder_range(before),
                OpusMultistreamDecoderCtlRequest::ResetState => handed_to_decoders(
                    before,
                    DecoderSetting::Reset,
                    after,
                    m,
                ),
                OpusMultistreamDecoderCtlRequest::GetLastPacketDuration(slot) => told && *final(
                    slot) == first.last_packet_duration,
                OpusMultistreamDecoderCtlRequest::SetPhaseInversionDisabled(v) => handed_to_decoders(
                    before,
                    DecoderSetting::PhaseInversionDisabled(v),
                    after,
                    m,
                ),
                OpusMultistreamDecoderCtlRequest::GetPhaseInversionDisabled(slot) => told && *final(
                    slot) == first.phase_inversion_disabled,
                OpusMultistreamDecoderCtlRequest::SetDnnBlob(_) => handed_to_decoders(
                    before,
                    DecoderSetting::DnnBlob,
                    after,
                    m,
                ),
            }
            }
        }),
{
    match request {
        OpusProjectionDecoderCtlRequest::Multistream(req) => {
            match opus_multistream_decoder_ctl(&mut decoder.ms_decoder, req) {
                Ok(_) => Ok(()),
                Err(e) => Err(OpusProjectionDecoderError::from(e)),
            }
        },
    }
}

} // verus!
