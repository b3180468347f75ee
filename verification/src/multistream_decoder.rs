//! Decoders of multistream packets: their layout and the settings of their
//! streams.
use crate::channel_layout::{build_layout, layout_of, layout_ok, ChannelLayout};
use crate::opus_decoder::{
    decoder_set, is_stream_rate, opus_decoder_create, opus_decoder_set, DecoderSetting,
    OpusDecodeError, OpusDecoder, OpusDecoderCtlError, OpusDecoderInitError,
};
use crate::packet::PacketError;
use vstd::prelude::*;
use vstd::std_specs::convert::FromSpecImpl;

verus! {

/// Why a multistream decoder refused a request or a packet.
#[derive(Debug, Clone, Copy, PartialEq, Eq, Structural)]
pub enum OpusMultistreamDecoderError {
    BadArgument,
    BufferTooSmall,
    InternalError,
    InvalidPacket,
    Unimplemented,
    DecoderInit(OpusDecoderInitError),
    DecoderCtl(OpusDecoderCtlError),
    DecoderDecode(OpusDecodeError),
}

impl OpusMultistreamDecoderError {
    pub open spec fn number(self) -> int {
        match self {
            OpusMultistreamDecoderError::BadArgument => -1,
            OpusMultistreamDecoderError::BufferTooSmall => -2,
            OpusMultistreamDecoderError::InternalError => -3,
            OpusMultistreamDecoderError::InvalidPacket => -4,
            OpusMultistreamDecoderError::Unimplemented => -5,
            OpusMultistreamDecoderError::DecoderInit(e) => match e {
                OpusDecoderInitError::BadArgument => -1,
                _ => -3,
            },
            OpusMultistreamDecoderError::DecoderCtl(e) => match e {
                OpusDecoderCtlError::BadArgument => -1,
                OpusDecoderCtlError::Unimplemented => -5,
                OpusDecoderCtlError::Silk(_) => -3,
            },
            OpusMultistreamDecoderError::DecoderDecode(e) => e.number(),
        }
    }

    /// The number of the error.
    pub fn code(&self) -> (r: i32)
        ensures
            r == self.number(),
    {
        match self {
            OpusMultistreamDecoderError::BadArgument => -1,
            OpusMultistreamDecoderError::BufferTooSmall => -2,
            OpusMultistreamDecoderError::InternalError => -3,
            OpusMultistreamDecoderError::InvalidPacket => -4,
            OpusMultistreamDecoderError::Unimplemented => -5,
            OpusMultistreamDecoderError::DecoderInit(e) => match e {
                OpusDecoderInitError::BadArgument => -1,
                _ => -3,
            },
            OpusMultistreamDecoderError::DecoderCtl(e) => match e {
                OpusDecoderCtlError::BadArgument => -1,
                OpusDecoderCtlError::Unimplemented => -5,
                OpusDecoderCtlError::Silk(_) => -3,
            },
            OpusMultistreamDecoderError::DecoderDecode(e) => e.code(),
        }
    }
}

impl From<PacketError> for OpusMultistreamDecoderError {
    fn from(value: PacketError) -> (r: Self) {
        match value {
            PacketError::BadArgument => OpusMultistreamDecoderError::BadArgument,
            PacketError::InvalidPacket => OpusMultistreamDecoderError::InvalidPacket,
        }
    }
}

impl FromSpecImpl<PacketError> for OpusMultistreamDecoderError {
    open spec fn obeys_from_spec() -> bool {
        true
    }

    open spec fn from_spec(value: PacketError) -> Self {
        match value {
            PacketError::BadArgument => OpusMultistreamDecoderError::BadArgument,
            PacketError::InvalidPacket => OpusMultistreamDecoderError::InvalidPacket,
        }
    }
}

impl From<OpusDecoderInitError> for OpusMultistreamDecoderError {
    fn from(value: OpusDecoderInitError) -> (r: Self) {
        OpusMultistreamDecoderError::DecoderInit(value)
    }
}

impl FromSpecImpl<OpusDecoderInitError> for OpusMultistreamDecoderError {
    open spec fn obeys_from_spec() -> bool {
        true
    }

    open spec fn from_spec(value: OpusDecoderInitError) -> Self {
        OpusMultistreamDecoderError::DecoderInit(value)
    }
}

impl From<OpusDecoderCtlError> for OpusMultistreamDecoderError {
    fn from(value: OpusDecoderCtlError) -> (r: Self) {
        OpusMultistreamDecoderError::DecoderCtl(value)
    }
}

impl FromSpecImpl<OpusDecoderCtlError> for OpusMultistreamDecoderError {
    open spec fn obeys_from_spec() -> bool {
        true
    }

    open spec fn from_spec(value: OpusDecoderCtlError) -> Self {
        OpusMultistreamDecoderError::DecoderCtl(value)
    }
}

impl From<OpusDecodeError> for OpusMultistreamDecoderError {
    fn from(value: OpusDecodeError) -> (r: Self) {
        OpusMultistreamDecoderError::DecoderDecode(value)
    }
}

impl FromSpecImpl<OpusDecodeError> for OpusMultistreamDecoderError {
    open spec fn obeys_from_spec() -> bool {
        true
    }

    open spec fn from_spec(value: OpusDecodeError) -> Self {
        OpusMultistreamDecoderError::DecoderDecode(value)
    }
}

/// Bytes of the channel layout in a decoder or encoder: three 32-bit counts and
/// the channel order.
pub const LAYOUT_SIZE: usize = 268;

/// What the parts of a state are aligned to: as addresses and 32-bit numbers are
/// on this machine.
pub open spec fn machine_alignment() -> int {
    let address = vstd::layout::align_of::<usize>() as int;
    let number = vstd::layout::align_of::<i32>() as int;
    if address > number {
        address
    } else {
        number
    }
}

/// What the parts of a state are aligned to on this machine.
pub fn alignment() -> (r: usize)
    ensures
        r == machine_alignment(),
        1 <= r <= 8,
{
    vstd::layout::layout_for_type_is_valid::<usize>();
    vstd::layout::layout_for_type_is_valid::<i32>();
    proof {
        broadcast use vstd::layout::layout_of_primitives;

        lemma_divisor_bound(
            vstd::layout::size_of::<usize>() as int,
            vstd::layout::align_of::<usize>() as int,
        );
        lemma_divisor_bound(
            vstd::layout::size_of::<i32>() as int,
            vstd::layout::align_of::<i32>() as int,
        );
    }
    let address: usize = core::mem::align_of::<usize>();
    let number: usize = core::mem::align_of::<i32>();
    if address > number {
        address
    } else {
        number
    }
}

proof fn lemma_divisor_bound(v: int, d: int)
    requires
        v > 0,
        d > 0,
        v % d == 0,
    ensures
        d <= v,
{
    if d > v {
        vstd::arithmetic::div_mod::lemma_small_mod(v as nat, d as nat);
    }
}

/// `v` up to a multiple of the machine's alignment.
pub open spec fn aligned(v: int) -> int {
    (v + machine_alignment() - 1) / machine_alignment() * machine_alignment()
}

/// `value` up to a multiple of the machine's alignment.
pub fn align(value: usize) -> (r: Option<usize>)
    ensures
        match r {
            Some(v) => v == aligned(value as int),
            None => aligned(value as int) > usize::MAX,
        },
        value <= aligned(value as int) < value + 8,
{
    let a: usize = alignment();
    let rest: usize = value % a;
    proof {
        let q = value as int / a as int;
        vstd::arithmetic::div_mod::lemma_fundamental_div_mod(value as int, a as int);
        vstd::arithmetic::mul::lemma_mul_is_commutative(a as int, q);
        vstd::arithmetic::div_mod::lemma_mod_bound(value as int, a as int);
        if rest == 0 {
            vstd::arithmetic::div_mod::lemma_fundamental_div_mod_converse(
                value + a - 1,
                a as int,
                q,
                a - 1,
            );
        } else {
            assert((q + 1) * a == q * a + a) by (nonlinear_arith);
            vstd::arithmetic::div_mod::lemma_fundamental_div_mod_converse(
                value + a - 1,
                a as int,
                q + 1,
                rest - 1,
            );
        }
    }
    if rest == 0 {
        Some(value)
    } else {
        value.checked_add(a - rest)
    }
}

/// Bytes of a multistream state: its layout, and a state of each stream.
pub open spec fn multistream_size(streams: int, coupled: int, coupled_size: int, mono_size: int) -> int {
    aligned(LAYOUT_SIZE as int) + coupled * aligned(coupled_size) + (streams - coupled) * aligned(mono_size)
}

/// Bytes of a multistream state whose stream states have the sizes
/// `coupled_size` and `mono_size`; none where the counts are wrong or the sum
/// is no machine size.
pub fn multistream_state_size(
    nb_streams: usize,
    nb_coupled_streams: usize,
    coupled_size: usize,
    mono_size: usize,
) -> (r: Option<usize>)
    ensures
        ({
            let size = multistream_size(
                nb_streams as int,
                nb_coupled_streams as int,
                coupled_size as int,
                mono_size as int,
            );
            let counted = nb_streams > 0 && nb_coupled_streams <= nb_streams;
            match r {
                Some(v) => counted && v == size,
                None => !counted || size > usize::MAX || aligned(coupled_size as int) > usize::MAX
                    || aligned(mono_size as int) > usize::MAX,
            }
        }),
{
    if nb_streams == 0 || nb_coupled_streams > nb_streams {
        return None;
    }
    let head: usize = match align(LAYOUT_SIZE) {
        Some(v) => v,
        None => return None,
    };
    let coupled_aligned: usize = match align(coupled_size) {
        Some(v) => v,
        None => return None,
    };
    let mono_aligned: usize = match align(mono_size) {
        Some(v) => v,
        None => return None,
    };
    proof {
        assert(0 <= nb_coupled_streams * coupled_aligned) by (nonlinear_arith);
        assert(0 <= (nb_streams - nb_coupled_streams) * mono_aligned) by (nonlinear_arith)
            requires
                nb_coupled_streams <= nb_streams,
        ;
    }
    let coupled_total: usize = match nb_coupled_streams.checked_mul(coupled_aligned) {
        Some(v) => v,
        None => return None,
    };
    let mono_total: usize = match (nb_streams - nb_coupled_streams).checked_mul(mono_aligned) {
        Some(v) => v,
        None => return None,
    };
    match head.checked_add(coupled_total) {
        Some(v) => v.checked_add(mono_total),
        None => None,
    }
}

/// Bytes of a multistream decoder.
pub fn opus_multistream_decoder_get_size(
    nb_streams: usize,
    nb_coupled_streams: usize,
    coupled_size: usize,
    mono_size: usize,
) -> (r: Option<usize>)
    ensures
        ({
            let size = multistream_size(
                nb_streams as int,
                nb_coupled_streams as int,
                coupled_size as int,
                mono_size as int,
            );
            let counted = nb_streams > 0 && nb_coupled_streams <= nb_streams;
            match r {
                Some(v) => counted && v == size,
                None => !counted || size > usize::MAX || aligned(coupled_size as int) > usize::MAX
                    || aligned(mono_size as int) > usize::MAX,
            }
        }),
{
    multistream_state_size(nb_streams, nb_coupled_streams, coupled_size, mono_size)
}

/// A multistream decoder: its layout, and a decoder for each stream.
#[derive(Debug)]
pub struct OpusMultistreamDecoder {
    pub layout: ChannelLayout,
    pub decoders: Vec<OpusDecoder>,
}

/// Channels of stream `s`.
pub open spec fn stream_channels(s: int, coupled: int) -> i32 {
    if s < coupled {
        2
    } else {
        1
    }
}

/// The stream decoders as they are set up.
pub open spec fn fresh_decoders(fs: i32, streams: int, coupled: int) -> Seq<OpusDecoder> {
    Seq::new(streams as nat, |s: int| OpusDecoder::fresh(fs, stream_channels(s, coupled)))
}

/// What a set-up gives: the first fault there is, or the decoder.
pub open spec fn decoder_created(
    sample_rate: i32,
    channels: usize,
    streams: usize,
    coupled: usize,
    mapping: Seq<u8>,
    r: Result<OpusMultistreamDecoder, OpusMultistreamDecoderError>,
) -> bool {
    if !layout_ok(channels as int, streams as int, coupled as int, mapping) || sample_rate <= 0 {
        r == Err::<OpusMultistreamDecoder, OpusMultistreamDecoderError>(
            OpusMultistreamDecoderError::BadArgument,
        )
    } else if !is_stream_rate(sample_rate as int) {
        r == Err::<OpusMultistreamDecoder, OpusMultistreamDecoderError>(
            OpusMultistreamDecoderError::DecoderInit(OpusDecoderInitError::BadArgument),
        )
    } else {
        match r {
            Ok(d) => {
                &&& layout_of(channels, streams, coupled, mapping, d.layout)
                &&& d.decoders@ == fresh_decoders(sample_rate, streams as int, coupled as int)
                &&& d.wf()
            },
            Err(_) => false,
        }
    }
}

fn build_stream_decoders(sample_rate: i32, streams: usize, coupled_streams: usize) -> (r: Result<
    Vec<OpusDecoder>,
    OpusMultistreamDecoderError,
>)
    requires
        streams > 0,
    ensures
        match r {
            Ok(v) => is_stream_rate(sample_rate as int) && v@ == fresh_decoders(
                sample_rate,
                streams as int,
                coupled_streams as int,
            ),
            Err(e) => !is_stream_rate(sample_rate as int) && e == if sample_rate <= 0 {
                OpusMultistreamDecoderError::BadArgument
            } else {
                OpusMultistreamDecoderError::DecoderInit(OpusDecoderInitError::BadArgument)
            },
        },
{
    if sample_rate <= 0 {
        return Err(OpusMultistreamDecoderError::BadArgument);
    }
    let mut decoders: Vec<OpusDecoder> = Vec::new();
    for stream in 0..streams
        invariant
            sample_rate > 0,
            stream > 0 ==> is_stream_rate(sample_rate as int),
            decoders@ == fresh_decoders(sample_rate, stream as int, coupled_streams as int),
    {
        let channels: i32 = if stream < coupled_streams {
            2
        } else {
            1
        };
        match opus_decoder_create(sample_rate, channels) {
            Ok(d) => decoders.push(d),
            Err(e) => return Err(OpusMultistreamDecoderError::from(e)),
        }
        assert(decoders@ =~= fresh_decoders(sample_rate, stream + 1, coupled_streams as int));
    }
    Ok(decoders)
}

impl OpusMultistreamDecoder {
    /// The layout is valid, and each stream has a decoder with as many
    /// channels as the stream, all at the same rate.
    pub open spec fn wf(&self) -> bool {
        &&& self.layout.valid()
        &&& 1 <= self.layout.nb_channels <= 255
        &&& 1 <= self.layout.nb_streams == self.decoders@.len()
        &&& self.layout.nb_coupled_streams <= self.layout.nb_streams
        &&& forall|s: int|
            0 <= s < self.decoders@.len() ==> (#[trigger] self.decoders@[s]).fs
                == self.decoders@[0].fs && self.decoders@[s].channels == stream_channels(
                s,
                self.layout.nb_coupled_streams as int,
            )
        &&& is_stream_rate(self.decoders@[0].fs as int)
    }

    pub fn layout(&self) -> (r: &ChannelLayout)
        ensures
            *r == self.layout,
    {
        &self.layout
    }

    /// Rate of the streams in Hz; none where there is no stream.
    pub fn sample_rate(&self) -> (r: Option<i32>)
        ensures
            r == (if self.decoders@.len() == 0 {
                None
            } else {
                Some(self.decoders@[0].fs)
            }),
    {
        if self.decoders.len() == 0 {
            None
        } else {
            Some(self.decoders[0].fs)
        }
    }

    /// Sets the decoder up anew; what is refused leaves it as it was.
    pub fn init(
        &mut self,
        sample_rate: i32,
        channels: usize,
        streams: usize,
        coupled_streams: usize,
        mapping: &[u8],
    ) -> (r: Result<(), OpusMultistreamDecoderError>)
        ensures
            match r {
                Ok(_) => decoder_created(
                    sample_rate,
                    channels,
                    streams,
                    coupled_streams,
                    mapping@,
                    Ok(*final(self)),
                ),
                Err(e) => *final(self) == *old(self) && decoder_created(
                    sample_rate,
                    channels,
                    streams,
                    coupled_streams,
                    mapping@,
                    Err(e),
                ),
            },
    {
        match opus_multistream_decoder_create(
            sample_rate,
            channels,
            streams,
            coupled_streams,
            mapping,
        ) {
            Ok(d) => {
                *self = d;
                Ok(())
            },
            Err(e) => Err(e),
        }
    }

    /// The decoder of stream `stream_id`.
    pub fn decoder_state(&mut self, stream_id: usize) -> (r: Option<&mut OpusDecoder>)
        ensures
            match r {
                Some(d) => {
                    &&& stream_id < old(self).decoders@.len()
                    &&& *d == old(self).decoders@[stream_id as int]
                    &&& final(self).layout == old(self).layout
                    &&& final(self).decoders@ == old(self).decoders@.update(
                        stream_id as int,
                        *final(d),
                    )
                },
                None => stream_id >= old(self).decoders@.len() && *final(self) == *old(self),
            },
    {
        if stream_id < self.decoders.len() {
            Some(&mut self.decoders[stream_id])
        } else {
            None
        }
    }
}

/// Sets up a multistream decoder.
pub fn opus_multistream_decoder_create(
    sample_rate: i32,
    channels: usize,
    streams: usize,
    coupled_streams: usize,
    mapping: &[u8],
) -> (r: Result<OpusMultistreamDecoder, OpusMultistreamDecoderError>)
    ensures
        decoder_created(sample_rate, channels, streams, coupled_streams, mapping@, r),
{
    let layout: ChannelLayout = match build_layout(channels, streams, coupled_streams, mapping) {
        Some(l) => l,
        None => return Err(OpusMultistreamDecoderError::BadArgument),
    };
    match build_stream_decoders(sample_rate, streams, coupled_streams) {
        Ok(decoders) => Ok(OpusMultistreamDecoder { layout, decoders }),
        Err(e) => Err(e),
    }
}

/// Sets a multistream decoder up anew; what is refused leaves it as it was.
pub fn opus_multistream_decoder_init(
    decoder: &mut OpusMultistreamDecoder,
    sample_rate: i32,
    channels: usize,
    streams: usize,
    coupled_streams: usize,
    mapping: &[u8],
) -> (r: Result<(), OpusMultistreamDecoderError>)
    ensures
        match r {
            Ok(_) => decoder_created(
                sample_rate,
                channels,
                streams,
                coupled_streams,
                mapping@,
                Ok(*final(decoder)),
            ),
            Err(e) => *final(decoder) == *old(decoder) && decoder_created(
                sample_rate,
                channels,
                streams,
                coupled_streams,
                mapping@,
                Err(e),
            ),
        },
{
    decoder.init(sample_rate, channels, streams, coupled_streams, mapping)
}

/// A control request to a multistream decoder.
pub enum OpusMultistreamDecoderCtlRequest<'req> {
    SetGain(i32),
    GetGain(&'req mut i32),
    SetComplexity(i32),
    GetComplexity(&'req mut i32),
    GetBandwidth(&'req mut i32),
    GetSampleRate(&'req mut i32),
    GetFinalRange(&'req mut u32),
    ResetState,
    GetLastPacketDuration(&'req mut i32),
    SetPhaseInversionDisabled(bool),
    GetPhaseInversionDisabled(&'req mut bool),
    SetDnnBlob(&'req [u8]),
}

/// The first decoder that refuses a setting, or their number.
pub open spec fn first_refusal(ds: Seq<OpusDecoder>, s: DecoderSetting) -> int
    decreases ds.len(),
{
    if ds.len() == 0 {
        0
    } else if decoder_set(ds[0], s) is Err {
        0
    } else {
        1 + first_refusal(ds.skip(1), s)
    }
}

/// The decoders before `k` with a setting, the others without.
pub open spec fn set_before(ds: Seq<OpusDecoder>, s: DecoderSetting, k: int) -> Seq<OpusDecoder> {
    Seq::new(
        ds.len(),
        |i: int|
            if i < k {
                decoder_set(ds[i], s)->Ok_0
            } else {
                ds[i]
            },
    )
}

/// A setting is handed to one decoder after the other, up to the first that
/// refuses it.
pub open spec fn handed_on(
    before: Seq<OpusDecoder>,
    s: DecoderSetting,
    after: Seq<OpusDecoder>,
    r: Result<(), OpusMultistreamDecoderError>,
) -> bool {
    let k = first_refusal(before, s);
    &&& after == set_before(before, s, k)
    &&& r == (if k == before.len() {
        Ok::<(), OpusMultistreamDecoderError>(())
    } else {
        Err(OpusMultistreamDecoderError::DecoderCtl(decoder_set(before[k], s)->Err_0))
    })
}

/// All final ranges combined.
pub open spec fn combined_range(ds: Seq<OpusDecoder>) -> u32
    decreases ds.len(),
{
    if ds.len() == 0 {
        0
    } else {
        combined_range(ds.drop_last()) ^ ds.last().range_final
    }
}

proof fn lemma_first_refusal(ds: Seq<OpusDecoder>, s: DecoderSetting, k: int)
    requires
        0 <= k <= ds.len(),
        forall|i: int| 0 <= i < k ==> decoder_set(#[trigger] ds[i], s) is Ok,
        k < ds.len() ==> decoder_set(ds[k], s) is Err,
    ensures
        first_refusal(ds, s) == k,
    decreases k,
{
    if k > 0 {
        let rest = ds.skip(1);
        assert forall|i: int| 0 <= i < k - 1 implies decoder_set(#[trigger] rest[i], s) is Ok by {
            assert(rest[i] == ds[i + 1]);
        }
        lemma_first_refusal(rest, s, k - 1);
    }
}

/// The decoders have the rates and channels that they had.
pub open spec fn streams_kept(before: Seq<OpusDecoder>, after: Seq<OpusDecoder>) -> bool {
    &&& after.len() == before.len()
    &&& forall|i: int|
        0 <= i < before.len() ==> (#[trigger] after[i]).fs == before[i].fs && after[i].channels
            == before[i].channels
}

fn set_all(decoders: &mut Vec<OpusDecoder>, setting: DecoderSetting) -> (r: Result<
    (),
    OpusMultistreamDecoderError,
>)
    ensures
        handed_on(old(decoders)@, setting, final(decoders)@, r),
        streams_kept(old(decoders)@, final(decoders)@),
{
    let n: usize = decoders.len();
    let ghost before = decoders@;
    for i in 0..n
        invariant
            n == before.len(),
            before == old(decoders)@,
            decoders@ == set_before(before, setting, i as int),
            streams_kept(before, decoders@),
            forall|j: int| 0 <= j < i ==> decoder_set(#[trigger] before[j], setting) is Ok,
    {
        let mut one: OpusDecoder = decoders[i];
        match opus_decoder_set(&mut one, setting) {
            Ok(_) => {
                decoders[i] = one;
            },
            Err(e) => {
                proof {
                    lemma_first_refusal(before, setting, i as int);
                }
                return Err(OpusMultistreamDecoderError::from(e));
            },
        }
        assert(decoders@ =~= set_before(before, setting, i + 1));
    }
    proof {
        lemma_first_refusal(before, setting, n as int);
    }
    Ok(())
}

/// Handles a control request: a setting is handed to every stream, a question
/// is answered by the first one, and final ranges are combined.
#[verifier::rlimit(60)]
pub fn opus_multistream_decoder_ctl<'req>(
    decoder: &mut OpusMultistreamDecoder,
    request: OpusMultistreamDecoderCtlRequest<'req>,
) -> (r: Result<(), OpusMultistreamDecoderError>)
    ensures
        old(decoder).wf() ==> final(decoder).wf(),
        final(decoder).layout == old(decoder).layout,
        old(decoder).decoders@.len() == 0 ==> r == Err::<(), OpusMultistreamDecoderError>(
            OpusMultistreamDecoderError::InternalError,
        ) && final(decoder).decoders@ == old(decoder).decoders@,
        old(decoder).decoders@.len() > 0 ==> {
            let before = old(decoder).decoders@;
            let after = final(decoder).decoders@;
            let first = before[0];
            let told = r == Ok::<(), OpusMultistreamDecoderError>(()) && after == before;
            match request {
                OpusMultistreamDecoderCtlRequest::SetGain(v) => handed_on(
                    before,
                    DecoderSetting::Gain(v),
                    after,
                    r,
                ),
                OpusMultistreamDecoderCtlRequest::GetGain(slot) => told && *final(slot)
                    == first.decode_gain,
                OpusMultistreamDecoderCtlRequest::SetComplexity(v) => handed_on(
                    before,
                    DecoderSetting::Complexity(v),
                    after,
                    r,
                ),
                OpusMultistreamDecoderCtlRequest::GetComplexity(slot) => told && *final(slot)
                    == first.complexity,
                OpusMultistreamDecoderCtlRequest::GetBandwidth(slot) => told && *final(slot)
                    == first.bandwidth,
                OpusMultistreamDecoderCtlRequest::GetSampleRate(slot) => told && *final(slot)
                    == first.fs,
                OpusMultistreamDecoderCtlRequest::GetFinalRange(slot) => told && *final(slot)
                    == combined_range(before),
                OpusMultistreamDecoderCtlRequest::ResetState => handed_on(
                    before,
                    DecoderSetting::Reset,
                    after,
                    r,
                ),
                OpusMultistreamDecoderCtlRequest::GetLastPacketDuration(slot) => told && *final(
                    slot) == first.last_packet_duration,
                OpusMultistreamDecoderCtlRequest::SetPhaseInversionDisabled(v) => handed_on(
                    before,
                    DecoderSetting::PhaseInversionDisabled(v),
                    after,
                    r,
                ),
                OpusMultistreamDecoderCtlRequest::GetPhaseInversionDisabled(slot) => told && *final(
                    slot) == first.phase_inversion_disabled,
                OpusMultistreamDecoderCtlRequest::SetDnnBlob(_) => handed_on(
                    before,
                    DecoderSetting::DnnBlob,
                    after,
                    r,
                ),
            }
        },
{
    if decoder.decoders.len() == 0 {
        return Err(OpusMultistreamDecoderError::InternalError);
    }
    let first: OpusDecoder = decoder.decoders[0];
    match request {
        OpusMultistreamDecoderCtlRequest::SetGain(v) => set_all(
            &mut decoder.decoders,
            DecoderSetting::Gain(v),
        ),
        OpusMultistreamDecoderCtlRequest::GetGain(slot) => {
            *slot = first.decode_gain;
            Ok(())
        },
        OpusMultistreamDecoderCtlRequest::SetComplexity(v) => set_all(
            &mut decoder.decoders,
            DecoderSetting::Complexity(v),
        ),
        OpusMultistreamDecoderCtlRequest::GetComplexity(slot) => {
            *slot = first.complexity;
            Ok(())
        },
        OpusMultistreamDecoderCtlRequest::GetBandwidth(slot) => {
            *slot = first.bandwidth;
            Ok(())
        },
        OpusMultistreamDecoderCtlRequest::GetSampleRate(slot) => {
            *slot = first.fs;
            Ok(())
        },
        OpusMultistreamDecoderCtlRequest::GetFinalRange(slot) => {
            *slot = combine_ranges(&decoder.decoders);
            Ok(())
        },
        OpusMultistreamDecoderCtlRequest::ResetState => set_all(
            &mut decoder.decoders,
            DecoderSetting::Reset,
        ),
        OpusMultistreamDecoderCtlRequest::GetLastPacketDuration(slot) => {
            *slot = first.last_packet_duration;
            Ok(())
        },
        OpusMultistreamDecoderCtlRequest::SetPhaseInversionDisabled(v) => set_all(
            &mut decoder.decoders,
            DecoderSetting::PhaseInversionDisabled(v),
        ),
        OpusMultistreamDecoderCtlRequest::GetPhaseInversionDisabled(slot) => {
            *slot = first.phase_inversion_disabled;
            Ok(())
        },
        OpusMultistreamDecoderCtlRequest::SetDnnBlob(_) => set_all(
            &mut decoder.decoders,
            DecoderSetting::DnnBlob,
        ),
    }
}

fn combine_ranges(decoders: &Vec<OpusDecoder>) -> (r: u32)
    ensures
        r == combined_range(decoders@),
{
    let mut acc: u32 = 0;
    let n: usize = decoders.len();
    assert(decoders@.take(0).len() == 0);
    for i in 0..n
        invariant
            n == decoders@.len(),
            acc == combined_range(decoders@.take(i as int)),
    {
        proof {
            assert(decoders@.take(i + 1).drop_last() =~= decoders@.take(i as int));
        }
        acc = acc ^ decoders[i].range_final;
    }
    assert(decoders@.take(n as int) =~= decoders@);
    acc
}

/// A setting is taken by all streams of a decoder or by none of them; once
/// taken, every stream answers with it, and the rest of its state is as
/// before.
pub proof fn law_setting_reaches_every_stream(
    before: Seq<OpusDecoder>,
    s: DecoderSetting,
    after: Seq<OpusDecoder>,
    r: Result<(), OpusMultistreamDecoderError>,
)
    requires
        before.len() > 0,
        handed_on(before, s, after, r),
    ensures
        r is Err ==> after == before,
        r is Ok ==> after.len() == before.len() && forall|i: int|
            0 <= i < before.len() ==> match s {
                DecoderSetting::Gain(v) => #[trigger] after[i] == (OpusDecoder {
                    decode_gain: v,
                    ..before[i]
                }),
                DecoderSetting::Complexity(v) => after[i] == (OpusDecoder {
                    complexity: v,
                    ..before[i]
                }),
                DecoderSetting::PhaseInversionDisabled(v) => after[i] == (OpusDecoder {
                    phase_inversion_disabled: v,
                    ..before[i]
                }),
                DecoderSetting::DnnBlob => false,
                DecoderSetting::Reset => after[i] == (OpusDecoder {
                    bandwidth: 0,
                    last_packet_duration: 0,
                    range_final: 0,
                    ..before[i]
                }),
            },
{
    if decoder_set(before[0], s) is Err {
        lemma_first_refusal(before, s, 0);
        assert(after =~= before);
    } else {
        lemma_first_refusal(before, s, before.len() as int);
    }
}

/// No request breaks a decoder: settings leave its layout and its rates alone.
pub proof fn law_settings_keep_decoder(
    before: OpusMultistreamDecoder,
    s: DecoderSetting,
    after: OpusMultistreamDecoder,
    r: Result<(), OpusMultistreamDecoderError>,
)
    requires
        before.wf(),
        after.layout == before.layout,
        handed_on(before.decoders@, s, after.decoders@, r),
    ensures
        after.wf(),
{
    let ds = before.decoders@;
    assert forall|i: int| 0 <= i < ds.len() implies (#[trigger] after.decoders@[i]).fs == ds[i].fs
        && after.decoders@[i].channels == ds[i].channels by {
        if i < first_refusal(ds, s) {
            lemma_taken_before_refusal(ds, s, i);
        }
    }
}

proof fn lemma_taken_before_refusal(ds: Seq<OpusDecoder>, s: DecoderSetting, i: int)
    requires
        0 <= i < first_refusal(ds, s),
        i < ds.len(),
    ensures
        decoder_set(ds[i], s) is Ok,
    decreases i,
{
    if i > 0 {
        lemma_taken_before_refusal(ds.skip(1), s, i - 1);
    }
}

} // verus!
