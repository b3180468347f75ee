//! Encoders of multistream packets: their layout and the settings of their
//! streams.
use crate::channel_layout::{
    build_layout, family_layout, family_type, law_families_are_complete, layout_of, layout_ok,
    lemma_layout_complete, order_complete, surround_layout, surround_mapping_type,
    validate_encoder_layout, ChannelLayout, MappingType, SurroundError,
};
use crate::multistream_decoder::{
    aligned, multistream_size, multistream_state_size, stream_channels,
};
use crate::opus_decoder::is_stream_rate;
use crate::opus_encoder::{
    encoder_refusal, encoder_takes, encoder_with, is_application, opus_encoder_create,
    opus_encoder_set, EncoderSetting, OpusEncodeError, OpusEncoder, OpusEncoderCtlError,
    OpusEncoderInitError, OPUS_AUTO, OPUS_BITRATE_MAX, OPUS_FRAMESIZE_ARG,
};
use crate::rate_allocation::stream_index;
use vstd::prelude::*;
use vstd::std_specs::convert::FromSpecImpl;

verus! {

/// Why a multistream encoder refused a request or a frame.
#[derive(Debug, Clone, Copy, PartialEq, Eq, Structural)]
pub enum OpusMultistreamEncoderError {
    BadArgument,
    BufferTooSmall,
    InternalError,
    Unimplemented,
    EncoderInit(OpusEncoderInitError),
    EncoderCtl(OpusEncoderCtlError),
    Encode(OpusEncodeError),
}

impl OpusMultistreamEncoderError {
    pub open spec fn number(self) -> int {
        match self {
            OpusMultistreamEncoderError::BadArgument => -1,
            OpusMultistreamEncoderError::BufferTooSmall => -2,
            OpusMultistreamEncoderError::InternalError => -3,
            OpusMultistreamEncoderError::Unimplemented => -5,
            OpusMultistreamEncoderError::EncoderInit(e) => e.number(),
            OpusMultistreamEncoderError::EncoderCtl(e) => e.number(),
            OpusMultistreamEncoderError::Encode(e) => e.number(),
        }
    }

    /// The number of the error.
    pub fn code(&self) -> (r: i32)
        ensures
            r == self.number(),
    {
        match self {
            OpusMultistreamEncoderError::BadArgument => -1,
            OpusMultistreamEncoderError::BufferTooSmall => -2,
            OpusMultistreamEncoderError::InternalError => -3,
            OpusMultistreamEncoderError::Unimplemented => -5,
            OpusMultistreamEncoderError::EncoderInit(e) => e.code(),
            OpusMultistreamEncoderError::EncoderCtl(e) => e.code(),
            OpusMultistreamEncoderError::Encode(e) => e.code(),
        }
    }
}

impl From<OpusEncoderInitError> for OpusMultistreamEncoderError {
    fn from(value: OpusEncoderInitError) -> (r: Self) {
        OpusMultistreamEncoderError::EncoderInit(value)
    }
}

impl FromSpecImpl<OpusEncoderInitError> for OpusMultistreamEncoderError {
    open spec fn obeys_from_spec() -> bool {
        true
    }

    open spec fn from_spec(value: OpusEncoderInitError) -> Self {
        OpusMultistreamEncoderError::EncoderInit(value)
    }
}

impl From<OpusEncoderCtlError> for OpusMultistreamEncoderError {
    fn from(value: OpusEncoderCtlError) -> (r: Self) {
        OpusMultistreamEncoderError::EncoderCtl(value)
    }
}

impl FromSpecImpl<OpusEncoderCtlError> for OpusMultistreamEncoderError {
    open spec fn obeys_from_spec() -> bool {
        true
    }

    open spec fn from_spec(value: OpusEncoderCtlError) -> Self {
        OpusMultistreamEncoderError::EncoderCtl(value)
    }
}

impl From<OpusEncodeError> for OpusMultistreamEncoderError {
    fn from(value: OpusEncodeError) -> (r: Self) {
        match value {
            OpusEncodeError::BadArgument => OpusMultistreamEncoderError::BadArgument,
            OpusEncodeError::BufferTooSmall => OpusMultistreamEncoderError::BufferTooSmall,
            OpusEncodeError::InternalError => OpusMultistreamEncoderError::InternalError,
            OpusEncodeError::Unimplemented => OpusMultistreamEncoderError::Unimplemented,
            OpusEncodeError::Silk(_) => OpusMultistreamEncoderError::Encode(value),
        }
    }
}

impl FromSpecImpl<OpusEncodeError> for OpusMultistreamEncoderError {
    open spec fn obeys_from_spec() -> bool {
        true
    }

    open spec fn from_spec(value: OpusEncodeError) -> Self {
        match value {
            OpusEncodeError::BadArgument => OpusMultistreamEncoderError::BadArgument,
            OpusEncodeError::BufferTooSmall => OpusMultistreamEncoderError::BufferTooSmall,
            OpusEncodeError::InternalError => OpusMultistreamEncoderError::InternalError,
            OpusEncodeError::Unimplemented => OpusMultistreamEncoderError::Unimplemented,
            OpusEncodeError::Silk(_) => OpusMultistreamEncoderError::Encode(value),
        }
    }
}

/// A multistream encoder: its layout, an encoder for each stream, and the
/// settings that all streams share.
#[derive(Debug)]
pub struct OpusMultistreamEncoder {
    pub layout: ChannelLayout,
    pub encoders: Vec<OpusEncoder>,
    pub mapping_type: MappingType,
    /// The stream that carries low frequency effects.
    pub lfe_stream: Option<usize>,
    pub sample_rate: i32,
    pub application: i32,
    pub bitrate_bps: i32,
    pub variable_duration: i32,
}

/// The stream encoders as they are set up.
pub open spec fn fresh_encoders(fs: i32, streams: int, coupled: int, application: i32) -> Seq<
    OpusEncoder,
> {
    Seq::new(
        streams as nat,
        |s: int| OpusEncoder::fresh(fs, stream_channels(s, coupled), application),
    )
}

/// The arguments that an encoder can be set up with.
pub struct EncoderPlan {
    pub sample_rate: i32,
    pub channels: usize,
    pub streams: usize,
    pub coupled: usize,
    pub mapping: Seq<u8>,
    pub application: i32,
}

impl EncoderPlan {
    /// The first fault of the arguments.
    pub open spec fn fault(self) -> Option<OpusMultistreamEncoderError> {
        if !layout_ok(
            self.channels as int,
            self.streams as int,
            self.coupled as int,
            self.mapping,
        ) || self.streams + self.coupled > self.channels || !order_complete(
            self.channels as int,
            self.streams as int,
            self.coupled as int,
            self.mapping,
        ) || self.sample_rate <= 0 {
            Some(OpusMultistreamEncoderError::BadArgument)
        } else if !is_stream_rate(self.sample_rate as int) || !is_application(
            self.application as int,
        ) {
            Some(OpusMultistreamEncoderError::EncoderInit(OpusEncoderInitError::BadArgument))
        } else {
            None
        }
    }

    /// `e` is an encoder that was set up with the arguments.
    pub open spec fn gives(self, e: OpusMultistreamEncoder) -> bool {
        &&& layout_of(self.channels, self.streams, self.coupled, self.mapping, e.layout)
        &&& e.encoders@ == fresh_encoders(
            self.sample_rate,
            self.streams as int,
            self.coupled as int,
            self.application,
        )
        &&& e.sample_rate == self.sample_rate
        &&& e.application == self.application
        &&& e.bitrate_bps == OPUS_AUTO
        &&& e.variable_duration == OPUS_FRAMESIZE_ARG
        &&& e.wf()
    }
}

fn build_encoder_layout(channels: usize, streams: usize, coupled_streams: usize, mapping: &[u8]) -> (r:
    Option<ChannelLayout>)
    ensures
        ({
            let good = layout_ok(
                channels as int,
                streams as int,
                coupled_streams as int,
                mapping@,
            ) && streams + coupled_streams <= channels && order_complete(
                channels as int,
                streams as int,
                coupled_streams as int,
                mapping@,
            );
            match r {
                Some(l) => good && layout_of(channels, streams, coupled_streams, mapping@, l)
                    && l.valid() && l.complete(),
                None => !good,
            }
        }),
{
    let layout: ChannelLayout = match build_layout(channels, streams, coupled_streams, mapping) {
        Some(l) => l,
        None => return None,
    };
    proof {
        lemma_layout_complete(channels, streams, coupled_streams, mapping@, layout);
    }
    if streams + coupled_streams > channels || !validate_encoder_layout(&layout) {
        return None;
    }
    Some(layout)
}

fn build_stream_encoders(
    sample_rate: i32,
    streams: usize,
    coupled_streams: usize,
    application: i32,
) -> (r: Result<Vec<OpusEncoder>, OpusMultistreamEncoderError>)
    requires
        streams > 0,
    ensures
        ({
            let good = is_stream_rate(sample_rate as int) && is_application(application as int);
            match r {
                Ok(v) => good && v@ == fresh_encoders(
                    sample_rate,
                    streams as int,
                    coupled_streams as int,
                    application,
                ),
                Err(e) => !good && e == if sample_rate <= 0 {
                    OpusMultistreamEncoderError::BadArgument
                } else {
                    OpusMultistreamEncoderError::EncoderInit(OpusEncoderInitError::BadArgument)
                },
            }
        }),
{
    if sample_rate <= 0 {
        return Err(OpusMultistreamEncoderError::BadArgument);
    }
    let mut encoders: Vec<OpusEncoder> = Vec::new();
    for stream in 0..streams
        invariant
            sample_rate > 0,
            stream > 0 ==> is_stream_rate(sample_rate as int) && is_application(application as int),
            encoders@ == fresh_encoders(
                sample_rate,
                stream as int,
                coupled_streams as int,
                application,
            ),
    {
        let channels: i32 = if stream < coupled_streams {
            2
        } else {
            1
        };
        match opus_encoder_create(sample_rate, channels, application) {
            Ok(e) => encoders.push(e),
            Err(e) => return Err(OpusMultistreamEncoderError::from(e)),
        }
        assert(encoders@ =~= fresh_encoders(
            sample_rate,
            stream + 1,
            coupled_streams as int,
            application,
        ));
    }
    Ok(encoders)
}

impl OpusMultistreamEncoder {
    /// The layout is valid and complete, and each stream has an encoder with
    /// as many channels as the stream, all at the same rate.
    pub open spec fn wf(&self) -> bool {
        &&& self.layout.valid()
        &&& self.layout.complete()
        &&& 1 <= self.layout.nb_channels <= 255
        &&& 1 <= self.layout.nb_streams == self.encoders@.len()
        &&& self.layout.nb_coupled_streams <= self.layout.nb_streams
        &&& is_stream_rate(self.sample_rate as int)
        &&& forall|s: int|
            0 <= s < self.encoders@.len() ==> {
                &&& (#[trigger] self.encoders@[s]).wf()
                &&& self.encoders@[s].fs == self.sample_rate
                &&& self.encoders@[s].channels == stream_channels(
                    s,
                    self.layout.nb_coupled_streams as int,
                )
            }
    }

    pub fn layout(&self) -> (r: &ChannelLayout)
        ensures
            *r == self.layout,
    {
        &self.layout
    }

    /// Sets the encoder up anew; what is refused leaves it as it was.
    pub fn init(
        &mut self,
        sample_rate: i32,
        channels: usize,
        streams: usize,
        coupled_streams: usize,
        mapping: &[u8],
        application: i32,
    ) -> (r: Result<(), OpusMultistreamEncoderError>)
        ensures
            ({
                let plan = EncoderPlan {
                    sample_rate,
                    channels,
                    streams,
                    coupled: coupled_streams,
                    mapping: mapping@,
                    application,
                };
                match r {
                    Ok(_) => plan.fault() is None && plan.gives(*final(self)) && final(
                        self).mapping_type == MappingType::Plain && final(self).lfe_stream is None,
                    Err(e) => plan.fault() == Some(e) && *final(self) == *old(self),
                }
            }),
    {
        match opus_multistream_encoder_create(
            sample_rate,
            channels,
            streams,
            coupled_streams,
            mapping,
            application,
        ) {
            Ok(e) => {
                *self = e;
                Ok(())
            },
            Err(e) => Err(e),
        }
    }

    /// The encoder of stream `stream_id`.
    pub fn encoder_state(&mut self, stream_id: usize) -> (r: Option<&mut OpusEncoder>)
        ensures
            match r {
                Some(e) => {
                    &&& stream_id < old(self).encoders@.len()
                    &&& *e == old(self).encoders@[stream_id as int]
                    &&& final(self).encoders@ == old(self).encoders@.update(
                        stream_id as int,
                        *final(e),
                    )
                    &&& same_but_encoders(*old(self), *final(self))
                },
                None => stream_id >= old(self).encoders@.len() && *final(self) == *old(self),
            },
    {
        if stream_id < self.encoders.len() {
            Some(&mut self.encoders[stream_id])
        } else {
            None
        }
    }
}

/// Only the stream encoders differ.
pub open spec fn same_but_encoders(a: OpusMultistreamEncoder, b: OpusMultistreamEncoder) -> bool {
    &&& b.layout == a.layout
    &&& b.mapping_type == a.mapping_type
    &&& b.lfe_stream == a.lfe_stream
    &&& b.sample_rate == a.sample_rate
    &&& b.application == a.application
    &&& b.bitrate_bps == a.bitrate_bps
    &&& b.variable_duration == a.variable_duration
}

/// The encoder of stream `stream_id`.
pub fn opus_multistream_encoder_get_encoder_state(
    encoder: &mut OpusMultistreamEncoder,
    stream_id: usize,
) -> (r: Result<&mut OpusEncoder, OpusMultistreamEncoderError>)
    ensures
        match r {
            Ok(e) => {
                &&& stream_id < old(encoder).encoders@.len()
                &&& *e == old(encoder).encoders@[stream_id as int]
                &&& final(encoder).encoders@ == old(encoder).encoders@.update(
                    stream_id as int,
                    *final(e),
                )
                &&& same_but_encoders(*old(encoder), *final(encoder))
            },
            Err(e) => e == OpusMultistreamEncoderError::BadArgument && stream_id >= old(
                encoder,
            ).encoders@.len() && *final(encoder) == *old(encoder),
        },
{
    if stream_id < encoder.encoders.len() {
        Ok(&mut encoder.encoders[stream_id])
    } else {
        Err(OpusMultistreamEncoderError::BadArgument)
    }
}

/// Bytes of a multistream encoder whose stream encoders have the sizes
/// `coupled_size` and `mono_size`.
pub fn opus_multistream_encoder_get_size(
    nb_streams: usize,
    nb_coupled_streams: usize,
    coupled_size: usize,
    mono_size: usize,
) -> (r: Option<usize>)
    ensures
        ({
            let size = multistream_size(
                nb_streams as int,
                nb_coupled_streams as int,
                coupled_size as int,
                mono_size as int,
            );
            let counted = nb_streams > 0 && nb_coupled_streams <= nb_streams;
            match r {
                Some(v) => counted && v == size,
                None => !counted || size > usize::MAX || aligned(coupled_size as int) > usize::MAX
                    || aligned(mono_size as int) > usize::MAX,
            }
        }),
{
    multistream_state_size(nb_streams, nb_coupled_streams, coupled_size, mono_size)
}

/// Sets up a multistream encoder.
pub fn opus_multistream_encoder_create(
    sample_rate: i32,
    channels: usize,
    streams: usize,
    coupled_streams: usize,
    mapping: &[u8],
    application: i32,
) -> (r: Result<OpusMultistreamEncoder, OpusMultistreamEncoderError>)
    ensures
        ({
            let plan = EncoderPlan {
                sample_rate,
                channels,
                streams,
                coupled: coupled_streams,
                mapping: mapping@,
                application,
            };
            match r {
                Ok(e) => plan.fault() is None && plan.gives(e) && e.mapping_type
                    == MappingType::Plain && e.lfe_stream is None,
                Err(e) => plan.fault() == Some(e),
            }
        }),
{
    let layout: ChannelLayout = match build_encoder_layout(
        channels,
        streams,
        coupled_streams,
        mapping,
    ) {
        Some(l) => l,
        None => return Err(OpusMultistreamEncoderError::BadArgument),
    };
    match build_stream_encoders(sample_rate, streams, coupled_streams, application) {
        Ok(encoders) => Ok(
            OpusMultistreamEncoder {
                layout,
                encoders,
                mapping_type: MappingType::Plain,
                lfe_stream: None,
                sample_rate,
                application,
                bitrate_bps: OPUS_AUTO,
                variable_duration: OPUS_FRAMESIZE_ARG,
            },
        ),
        Err(e) => Err(e),
    }
}

// ---------------------------------------------------------------------
// Mapping families
// ---------------------------------------------------------------------

/// The streams and the channel order of a mapping family.
#[derive(Debug, Clone, PartialEq, Eq)]
pub struct OpusMultistreamSurroundLayout {
    pub streams: usize,
    pub coupled_streams: usize,
    pub mapping: Vec<u8>,
}

pub open spec fn surround_fault(e: SurroundError) -> OpusMultistreamEncoderError {
    match e {
        SurroundError::BadArgument => OpusMultistreamEncoderError::BadArgument,
        SurroundError::Unimplemented => OpusMultistreamEncoderError::Unimplemented,
    }
}

/// Why an encoder for a mapping family cannot be set up.
pub open spec fn family_fault(
    sample_rate: i32,
    channels: usize,
    family: u8,
    application: i32,
) -> Option<OpusMultistreamEncoderError> {
    match family_layout(channels as int, family as int) {
        Err(e) => Some(surround_fault(e)),
        Ok(_) => if sample_rate <= 0 {
            Some(OpusMultistreamEncoderError::BadArgument)
        } else if !is_stream_rate(sample_rate as int) || !is_application(application as int) {
            Some(OpusMultistreamEncoderError::EncoderInit(OpusEncoderInitError::BadArgument))
        } else {
            None
        },
    }
}

/// `e` is an encoder for a mapping family, and `l` its layout.
pub open spec fn family_gives(
    sample_rate: i32,
    channels: usize,
    family: u8,
    application: i32,
    e: OpusMultistreamEncoder,
    l: OpusMultistreamSurroundLayout,
) -> bool {
    let plan = EncoderPlan {
        sample_rate,
        channels,
        streams: l.streams,
        coupled: l.coupled_streams,
        mapping: l.mapping@,
        application,
    };
    let (kind, lfe) = family_type(channels as int, family as int, l.streams as int);
    &&& family_layout(channels as int, family as int) == Ok::<(int, int, Seq<u8>), SurroundError>(
        (l.streams as int, l.coupled_streams as int, l.mapping@),
    )
    &&& plan.gives(e)
    &&& e.mapping_type == kind
    &&& stream_index(e.lfe_stream) == lfe
}

/// Bytes of an encoder for a mapping family; with more than two channels it
/// also holds a window of 120 values and one more value for each of them.
pub fn opus_multistream_surround_encoder_get_size(
    channels: usize,
    mapping_family: u8,
    coupled_size: usize,
    mono_size: usize,
) -> (r: Option<usize>)
    ensures
        match family_layout(channels as int, mapping_family as int) {
            Err(_) => r is None,
            Ok((streams, coupled, _)) => {
                let base = multistream_size(
                    streams,
                    coupled,
                    coupled_size as int,
                    mono_size as int,
                );
                let size = base + if channels > 2 {
                    channels * 484
                } else {
                    0
                };
                match r {
                    Some(v) => v == size,
                    None => size > usize::MAX || aligned(coupled_size as int) > usize::MAX
                        || aligned(mono_size as int) > usize::MAX,
                }
            },
        },
{
    match surround_layout(channels, mapping_family) {
        Ok((streams, coupled, _)) => {
            proof {
                law_families_are_complete(channels as int, mapping_family as int);
            }
            match opus_multistream_encoder_get_size(streams, coupled, coupled_size, mono_size) {
                Some(size) => if channels > 2 {
                    size.checked_add(channels * 484)
                } else {
                    Some(size)
                },
                None => None,
            }
        },
        Err(_) => None,
    }
}

/// Sets up an encoder for a mapping family.
pub fn opus_multistream_surround_encoder_create(
    sample_rate: i32,
    channels: usize,
    mapping_family: u8,
    application: i32,
) -> (r: Result<
    (OpusMultistreamEncoder, OpusMultistreamSurroundLayout),
    OpusMultistreamEncoderError,
>)
    ensures
        match r {
            Ok((e, l)) => family_fault(sample_rate, channels, mapping_family, application) is None
                && family_gives(sample_rate, channels, mapping_family, application, e, l),
            Err(e) => family_fault(sample_rate, channels, mapping_family, application) == Some(e),
        },
{
    let (streams, coupled_streams, mapping) = match surround_layout(channels, mapping_family) {
        Ok(found) => found,
        Err(SurroundError::BadArgument) => return Err(OpusMultistreamEncoderError::BadArgument),
        Err(SurroundError::Unimplemented) => {
            return Err(OpusMultistreamEncoderError::Unimplemented);
        },
    };
    proof {
        law_families_are_complete(channels as int, mapping_family as int);
    }
    let mut encoder: OpusMultistreamEncoder = match opus_multistream_encoder_create(
        sample_rate,
        channels,
        streams,
        coupled_streams,
        mapping.as_slice(),
        application,
    ) {
        Ok(e) => e,
        Err(e) => return Err(e),
    };
    let (mapping_type, lfe_stream) = surround_mapping_type(channels, mapping_family, streams);
    encoder.mapping_type = mapping_type;
    encoder.lfe_stream = lfe_stream;
    Ok((encoder, OpusMultistreamSurroundLayout { streams, coupled_streams, mapping }))
}

/// Sets an encoder up anew for a mapping family; what is refused leaves it as
/// it was.
pub fn opus_multistream_surround_encoder_init(
    encoder: &mut OpusMultistreamEncoder,
    sample_rate: i32,
    channels: usize,
    mapping_family: u8,
    application: i32,
) -> (r: Result<OpusMultistreamSurroundLayout, OpusMultistreamEncoderError>)
    ensures
        match r {
            Ok(l) => family_fault(sample_rate, channels, mapping_family, application) is None
                && family_gives(
                sample_rate,
                channels,
                mapping_family,
                application,
                *final(encoder),
                l,
            ),
            Err(e) => family_fault(sample_rate, channels, mapping_family, application) == Some(e)
                && *final(encoder) == *old(encoder),
        },
{
    match opus_multistream_surround_encoder_create(
        sample_rate,
        channels,
        mapping_family,
        application,
    ) {
        Ok((e, l)) => {
            *encoder = e;
            Ok(l)
        },
        Err(e) => Err(e),
    }
}

// ---------------------------------------------------------------------
// Settings
// ---------------------------------------------------------------------

/// A control request to a multistream encoder.
pub enum OpusMultistreamEncoderCtlRequest<'req> {
    SetApplication(i32),
    GetApplication(&'req mut i32),
    SetBitrate(i32),
    GetBitrate(&'req mut i32),
    SetForceChannels(i32),
    GetForceChannels(&'req mut i32),
    SetMaxBandwidth(i32),
    GetMaxBandwidth(&'req mut i32),
    SetBandwidth(i32),
    GetBandwidth(&'req mut i32),
    SetVbr(bool),
    GetVbr(&'req mut bool),
    SetVbrConstraint(bool),
    GetVbrConstraint(&'req mut bool),
    SetComplexity(i32),
    GetComplexity(&'req mut i32),
    SetSignal(i32),
    GetSignal(&'req mut i32),
    GetVoiceRatio(&'req mut i32),
    SetPacketLossPerc(i32),
    GetPacketLossPerc(&'req mut i32),
    SetInbandFec(bool),
    GetInbandFec(&'req mut bool),
    SetDtx(bool),
    GetDtx(&'req mut bool),
    GetInDtx(&'req mut bool),
    SetLsbDepth(i32),
    GetLsbDepth(&'req mut i32),
    SetExpertFrameDuration(i32),
    GetExpertFrameDuration(&'req mut i32),
    SetPredictionDisabled(bool),
    GetPredictionDisabled(&'req mut bool),
    SetPhaseInversionDisabled(bool),
    GetPhaseInversionDisabled(&'req mut bool),
    SetDredDuration(i32),
    GetDredDuration(&'req mut i32),
    SetDnnBlob(&'req [u8]),
    SetForceMode(i32),
    GetSampleRate(&'req mut i32),
    GetLookahead(&'req mut i32),
    GetFinalRange(&'req mut u32),
    ResetState,
}

/// The first encoder that refuses a setting, or their number.
pub open spec fn first_refusal(es: Seq<OpusEncoder>, s: EncoderSetting) -> int
    decreases es.len(),
{
    if es.len() == 0 || !encoder_takes(es[0], s) {
        0
    } else {
        1 + first_refusal(es.skip(1), s)
    }
}

/// The encoders before `k` with a setting, the others without.
pub open spec fn set_before(es: Seq<OpusEncoder>, s: EncoderSetting, k: int) -> Seq<OpusEncoder> {
    Seq::new(
        es.len(),
        |i: int|
            if i < k {
                encoder_with(es[i], s)
            } else {
                es[i]
            },
    )
}

/// A setting is handed to one encoder after the other, up to the first that
/// refuses it.
pub open spec fn handed_on(
    before: Seq<OpusEncoder>,
    s: EncoderSetting,
    after: Seq<OpusEncoder>,
    r: Result<(), OpusMultistreamEncoderError>,
) -> bool {
    let k = first_refusal(before, s);
    &&& after == set_before(before, s, k)
    &&& r == (if k == before.len() {
        Ok::<(), OpusMultistreamEncoderError>(())
    } else {
        Err(OpusMultistreamEncoderError::EncoderCtl(encoder_refusal(s)))
    })
}

/// All final ranges combined.
pub open spec fn combined_range(es: Seq<OpusEncoder>) -> u32
    decreases es.len(),
{
    if es.len() == 0 {
        0
    } else {
        combined_range(es.drop_last()) ^ es.last().range_final
    }
}

/// The sum of all bitrates.
pub open spec fn total_bitrate(es: Seq<OpusEncoder>) -> int
    decreases es.len(),
{
    if es.len() == 0 {
        0
    } else {
        total_bitrate(es.drop_last()) + es.last().bitrate()
    }
}

/// A shared bitrate inside its limits: 500 and 300000 for each channel.
pub open spec fn limited_bitrate(value: int, channels: int) -> int {
    if value == OPUS_AUTO || value == OPUS_BITRATE_MAX {
        value
    } else {
        crate::fixed::clamped(value, 500 * channels, 300000 * channels)
    }
}

proof fn lemma_first_refusal(es: Seq<OpusEncoder>, s: EncoderSetting, k: int)
    requires
        0 <= k <= es.len(),
        forall|i: int| 0 <= i < k ==> encoder_takes(#[trigger] es[i], s),
        k < es.len() ==> !encoder_takes(es[k], s),
    ensures
        first_refusal(es, s) == k,
    decreases k,
{
    if k > 0 {
        let rest = es.skip(1);
        assert forall|i: int| 0 <= i < k - 1 implies encoder_takes(#[trigger] rest[i], s) by {
            assert(rest[i] == es[i + 1]);
        }
        lemma_first_refusal(rest, s, k - 1);
    }
}

proof fn lemma_taken_before_refusal(es: Seq<OpusEncoder>, s: EncoderSetting, i: int)
    requires
        0 <= i < first_refusal(es, s),
        i < es.len(),
    ensures
        encoder_takes(es[i], s),
    decreases i,
{
    if i > 0 {
        lemma_taken_before_refusal(es.skip(1), s, i - 1);
    }
}

/// The encoders have the rates and channels that they had, and can be used.
pub open spec fn streams_kept(before: Seq<OpusEncoder>, after: Seq<OpusEncoder>) -> bool {
    &&& after.len() == before.len()
    &&& forall|i: int|
        0 <= i < before.len() ==> {
            &&& (#[trigger] after[i]).wf()
            &&& after[i].fs == before[i].fs
            &&& after[i].channels == before[i].channels
        }
}

proof fn lemma_setting_keeps_stream(e: OpusEncoder, s: EncoderSetting)
    ensures
        encoder_with(e, s).fs == e.fs,
        encoder_with(e, s).channels == e.channels,
{
}

fn set_all(encoders: &mut Vec<OpusEncoder>, setting: EncoderSetting) -> (r: Result<
    (),
    OpusMultistreamEncoderError,
>)
    requires
        forall|i: int| 0 <= i < old(encoders)@.len() ==> (#[trigger] old(encoders)@[i]).wf(),
    ensures
        handed_on(old(encoders)@, setting, final(encoders)@, r),
        streams_kept(old(encoders)@, final(encoders)@),
{
    let n: usize = encoders.len();
    let ghost before = encoders@;
    for i in 0..n
        invariant
            n == before.len(),
            before == old(encoders)@,
            forall|j: int| 0 <= j < before.len() ==> (#[trigger] before[j]).wf(),
            encoders@ == set_before(before, setting, i as int),
            streams_kept(before, encoders@),
            forall|j: int| 0 <= j < i ==> encoder_takes(#[trigger] before[j], setting),
    {
        let mut one: OpusEncoder = encoders[i];
        assert(one == before[i as int]);
        match opus_encoder_set(&mut one, setting) {
            Ok(_) => {
                proof {
                    lemma_setting_keeps_stream(before[i as int], setting);
                }
                encoders[i] = one;
            },
            Err(e) => {
                proof {
                    lemma_first_refusal(before, setting, i as int);
                }
                return Err(OpusMultistreamEncoderError::from(e));
            },
        }
        assert(encoders@ =~= set_before(before, setting, i + 1));
    }
    proof {
        lemma_first_refusal(before, setting, n as int);
    }
    Ok(())
}

fn combine_ranges(encoders: &Vec<OpusEncoder>) -> (r: u32)
    ensures
        r == combined_range(encoders@),
{
    let mut acc: u32 = 0;
    let n: usize = encoders.len();
    assert(encoders@.take(0).len() == 0);
    for i in 0..n
        invariant
            n == encoders@.len(),
            acc == combined_range(encoders@.take(i as int)),
    {
        proof {
            assert(encoders@.take(i + 1).drop_last() =~= encoders@.take(i as int));
        }
        acc = acc ^ encoders[i].range_final;
    }
    assert(encoders@.take(n as int) =~= encoders@);
    acc
}

fn add_bitrates(encoders: &Vec<OpusEncoder>) -> (r: i64)
    requires
        encoders@.len() <= 255,
        forall|i: int| 0 <= i < encoders@.len() ==> (#[trigger] encoders@[i]).wf(),
    ensures
        r == total_bitrate(encoders@),
{
    let mut acc: i64 = 0;
    let n: usize = encoders.len();
    assert(encoders@.take(0).len() == 0);
    for i in 0..n
        invariant
            n == encoders@.len(),
            n <= 255,
            forall|j: int| 0 <= j < encoders@.len() ==> (#[trigger] encoders@[j]).wf(),
            acc == total_bitrate(encoders@.take(i as int)),
            -(i * 0x8000_0000) <= acc <= i * 0x8000_0000,
    {
        proof {
            assert(encoders@.take(i + 1).drop_last() =~= encoders@.take(i as int));
        }
        let rate: i32 = encoders[i].get_bitrate();
        acc = acc + rate as i64;
    }
    assert(encoders@.take(n as int) =~= encoders@);
    acc
}

/// The setting that a request hands to the streams, if it hands one on.
pub open spec fn setting_of(request: OpusMultistreamEncoderCtlRequest) -> Option<EncoderSetting> {
    match request {
        OpusMultistreamEncoderCtlRequest::SetForceChannels(v) => Some(
            EncoderSetting::ForceChannels(v),
        ),
        OpusMultistreamEncoderCtlRequest::SetMaxBandwidth(v) => Some(
            EncoderSetting::MaxBandwidth(v),
        ),
        OpusMultistreamEncoderCtlRequest::SetBandwidth(v) => Some(EncoderSetting::Bandwidth(v)),
        OpusMultistreamEncoderCtlRequest::SetVbr(v) => Some(EncoderSetting::Vbr(v)),
        OpusMultistreamEncoderCtlRequest::SetVbrConstraint(v) => Some(
            EncoderSetting::VbrConstraint(v),
        ),
        OpusMultistreamEncoderCtlRequest::SetComplexity(v) => Some(EncoderSetting::Complexity(v)),
        OpusMultistreamEncoderCtlRequest::SetSignal(v) => Some(EncoderSetting::Signal(v)),
        OpusMultistreamEncoderCtlRequest::SetPacketLossPerc(v) => Some(
            EncoderSetting::PacketLossPerc(v),
        ),
        OpusMultistreamEncoderCtlRequest::SetInbandFec(v) => Some(EncoderSetting::InbandFec(v)),
        OpusMultistreamEncoderCtlRequest::SetDtx(v) => Some(EncoderSetting::Dtx(v)),
        OpusMultistreamEncoderCtlRequest::SetLsbDepth(v) => Some(EncoderSetting::LsbDepth(v)),
        OpusMultistreamEncoderCtlRequest::SetPredictionDisabled(v) => Some(
            EncoderSetting::PredictionDisabled(v),
        ),
        OpusMultistreamEncoderCtlRequest::SetPhaseInversionDisabled(v) => Some(
            EncoderSetting::PhaseInversionDisabled(v),
        ),
        OpusMultistreamEncoderCtlRequest::SetDredDuration(v) => Some(
            EncoderSetting::DredDuration(v),
        ),
        OpusMultistreamEncoderCtlRequest::SetDnnBlob(_) => Some(EncoderSetting::DnnBlob),
        OpusMultistreamEncoderCtlRequest::SetForceMode(v) => Some(EncoderSetting::ForceMode(v)),
        OpusMultistreamEncoderCtlRequest::ResetState => Some(EncoderSetting::Reset),
        _ => None,
    }
}

/// Handles a control request: a setting is handed to every stream, a question
/// is answered by the first one, bitrates are added up and final ranges
/// combined; the bitrate and the frame duration belong to the whole encoder.
#[verifier::rlimit(100)]
pub fn opus_multistream_encoder_ctl<'req>(
    encoder: &mut OpusMultistreamEncoder,
    request: OpusMultistreamEncoderCtlRequest<'req>,
) -> (r: Result<(), OpusMultistreamEncoderError>)
    requires
        old(encoder).wf(),
    ensures
        final(encoder).wf(),
        ({
            let b = *old(encoder);
            let a = *final(encoder);
            let first = b.encoders@[0];
            let ok = r == Ok::<(), OpusMultistreamEncoderError>(());
            let told = ok && a == b;
            match request {
                OpusMultistreamEncoderCtlRequest::SetApplication(v) => {
                    let s = EncoderSetting::Application(v);
                    let k = first_refusal(b.encoders@, s);
                    &&& a.encoders@ == set_before(b.encoders@, s, k)
                    &&& r == (if k == b.encoders@.len() {
                        Ok::<(), OpusMultistreamEncoderError>(())
                    } else {
                        Err(OpusMultistreamEncoderError::BadArgument)
                    })
                    &&& same_but_encoders(
                        OpusMultistreamEncoder {
                            application: if ok {
                                v
                            } else {
                                b.application
                            },
                            ..b
                        },
                        a,
                    )
                },
                OpusMultistreamEncoderCtlRequest::SetBitrate(v) => if v <= 0 && v != OPUS_AUTO && v
                    != OPUS_BITRATE_MAX {
                    r == Err::<(), OpusMultistreamEncoderError>(
                        OpusMultistreamEncoderError::BadArgument,
                    ) && a == b
                } else {
                    ok && a == (OpusMultistreamEncoder {
                        bitrate_bps: limited_bitrate(v as int, b.layout.nb_channels as int) as i32,
                        ..b
                    })
                },
                OpusMultistreamEncoderCtlRequest::GetBitrate(o) => {
                    let total = total_bitrate(b.encoders@);
                    &&& a == b
                    &&& if i32::MIN <= total <= i32::MAX {
                        ok && *final(o) == total
                    } else {
                        r == Err::<(), OpusMultistreamEncoderError>(
                            OpusMultistreamEncoderError::InternalError,
                        )
                    }
                },
                OpusMultistreamEncoderCtlRequest::SetExpertFrameDuration(v) => ok && a == (
                OpusMultistreamEncoder { variable_duration: v, ..b }),
                OpusMultistreamEncoderCtlRequest::GetExpertFrameDuration(o) => ok && a == b
                    && *final(o) == b.variable_duration,
                OpusMultistreamEncoderCtlRequest::GetFinalRange(o) => ok && a == b && *final(o)
                    == combined_range(b.encoders@),
                OpusMultistreamEncoderCtlRequest::GetApplication(o) => told && *final(o)
                    == first.application,
                OpusMultistreamEncoderCtlRequest::GetForceChannels(o) => told && *final(o)
                    == first.force_channels,
                OpusMultistreamEncoderCtlRequest::GetMaxBandwidth(o) => told && *final(o)
                    == first.max_bandwidth,
                OpusMultistreamEncoderCtlRequest::GetBandwidth(o) => told && *final(o)
                    == first.bandwidth,
                OpusMultistreamEncoderCtlRequest::GetVbr(o) => told && *final(o)
                    == first.use_vbr,
                OpusMultistreamEncoderCtlRequest::GetVbrConstraint(o) => told && *final(o)
                    == first.vbr_constraint,
                OpusMultistreamEncoderCtlRequest::GetComplexity(o) => told && *final(o)
                    == first.complexity,
                OpusMultistreamEncoderCtlRequest::GetSignal(o) => told && *final(o)
                    == first.signal_type,
                OpusMultistreamEncoderCtlRequest::GetVoiceRatio(o) => told && *final(o)
                    == first.voice_ratio,
                OpusMultistreamEncoderCtlRequest::GetPacketLossPerc(o) => told && *final(o)
                    == first.packet_loss_perc,
                OpusMultistreamEncoderCtlRequest::GetInbandFec(o) => told && *final(o)
                    == first.inband_fec,
                OpusMultistreamEncoderCtlRequest::GetDtx(o) => told && *final(o)
                    == first.use_dtx,
                OpusMultistreamEncoderCtlRequest::GetInDtx(o) => told && *final(o)
                    == first.in_dtx,
                OpusMultistreamEncoderCtlRequest::GetLsbDepth(o) => told && *final(o)
                    == first.lsb_depth,
                OpusMultistreamEncoderCtlRequest::GetPredictionDisabled(o) => told && *final(o)
                    == first.prediction_disabled,
                OpusMultistreamEncoderCtlRequest::GetPhaseInversionDisabled(o) => told && *final(o)
                    == first.phase_inversion_disabled,
                OpusMultistreamEncoderCtlRequest::GetDredDuration(o) => told && *final(o)
                    == first.dred_duration,
                OpusMultistreamEncoderCtlRequest::GetSampleRate(o) => told && *final(o)
                    == first.fs,
                OpusMultistreamEncoderCtlRequest::GetLookahead(o) => told && *final(o)
                    == first.lookahead(),
                _ => handed_on(b.encoders@, setting_of(request)->0, a.encoders@, r)
                    && same_but_encoders(b, a),
            }
        }),
{
    let first: OpusEncoder = encoder.encoders[0];
    assert(first.wf());
    match request {
        OpusMultistreamEncoderCtlRequest::SetApplication(v) => {
            match set_all(&mut encoder.encoders, EncoderSetting::Application(v)) {
                Ok(_) => {
                    encoder.application = v;
                    Ok(())
                },
                Err(_) => Err(OpusMultistreamEncoderError::BadArgument),
            }
        },
        OpusMultistreamEncoderCtlRequest::GetApplication(o) => {
            *o = first.application;
            Ok(())
        },
        OpusMultistreamEncoderCtlRequest::SetBitrate(v) => {
            if v != OPUS_AUTO && v != OPUS_BITRATE_MAX {
                if v <= 0 {
                    return Err(OpusMultistreamEncoderError::BadArgument);
                }
                let channels: i32 = encoder.layout.nb_channels as i32;
                if v < 500 * channels {
                    encoder.bitrate_bps = 500 * channels;
                } else if v > 300000 * channels {
                    encoder.bitrate_bps = 300000 * channels;
                } else {
                    encoder.bitrate_bps = v;
                }
            } else {
                encoder.bitrate_bps = v;
            }
            Ok(())
        },
        OpusMultistreamEncoderCtlRequest::GetBitrate(o) => {
            let total: i64 = add_bitrates(&encoder.encoders);
            if total < -0x8000_0000 || total > 0x7fff_ffff {
                return Err(OpusMultistreamEncoderError::InternalError);
            }
            *o = total as i32;
            Ok(())
        },
        OpusMultistreamEncoderCtlRequest::SetForceChannels(v) => set_all(
            &mut encoder.encoders,
            EncoderSetting::ForceChannels(v),
        ),
        OpusMultistreamEncoderCtlRequest::GetForceChannels(o) => {
            *o = first.force_channels;
            Ok(())
        },
        OpusMultistreamEncoderCtlRequest::SetMaxBandwidth(v) => set_all(
            &mut encoder.encoders,
            EncoderSetting::MaxBandwidth(v),
        ),
        OpusMultistreamEncoderCtlRequest::GetMaxBandwidth(o) => {
            *o = first.max_bandwidth;
            Ok(())
        },
        OpusMultistreamEncoderCtlRequest::SetBandwidth(v) => set_all(
            &mut encoder.encoders,
            EncoderSetting::Bandwidth(v),
        ),
        OpusMultistreamEncoderCtlRequest::GetBandwidth(o) => {
            *o = first.bandwidth;
            Ok(())
        },
        OpusMultistreamEncoderCtlRequest::SetVbr(v) => set_all(
            &mut encoder.encoders,
            EncoderSetting::Vbr(v),
        ),
        OpusMultistreamEncoderCtlRequest::GetVbr(o) => {
            *o = first.use_vbr;
            Ok(())
        },
        OpusMultistreamEncoderCtlRequest::SetVbrConstraint(v) => set_all(
            &mut encoder.encoders,
            EncoderSetting::VbrConstraint(v),
        ),
        OpusMultistreamEncoderCtlRequest::GetVbrConstraint(o) => {
            *o = first.vbr_constraint;
            Ok(())
        },
        OpusMultistreamEncoderCtlRequest::SetComplexity(v) => set_all(
            &mut encoder.encoders,
            EncoderSetting::Complexity(v),
        ),
        OpusMultistreamEncoderCtlRequest::GetComplexity(o) => {
            *o = first.complexity;
            Ok(())
        },
        OpusMultistreamEncoderCtlRequest::SetSignal(v) => set_all(
            &mut encoder.encoders,
            EncoderSetting::Signal(v),
        ),
        OpusMultistreamEncoderCtlRequest::GetSignal(o) => {
            *o = first.signal_type;
            Ok(())
        },
        OpusMultistreamEncoderCtlRequest::GetVoiceRatio(o) => {
            *o = first.voice_ratio;
            Ok(())
        },
        OpusMultistreamEncoderCtlRequest::SetPacketLossPerc(v) => set_all(
            &mut encoder.encoders,
            EncoderSetting::PacketLossPerc(v),
        ),
        OpusMultistreamEncoderCtlRequest::GetPacketLossPerc(o) => {
            *o = first.packet_loss_perc;
            Ok(())
        },
        OpusMultistreamEncoderCtlRequest::SetInbandFec(v) => set_all(
            &mut encoder.encoders,
            EncoderSetting::InbandFec(v),
        ),
        OpusMultistreamEncoderCtlRequest::GetInbandFec(o) => {
            *o = first.inband_fec;
            Ok(())
        },
        OpusMultistreamEncoderCtlRequest::SetDtx(v) => set_all(
            &mut encoder.encoders,
            EncoderSetting::Dtx(v),
        ),
        OpusMultistreamEncoderCtlRequest::GetDtx(o) => {
            *o = first.use_dtx;
            Ok(())
        },
        OpusMultistreamEncoderCtlRequest::GetInDtx(o) => {
            *o = first.in_dtx;
            Ok(())
        },
        OpusMultistreamEncoderCtlRequest::SetLsbDepth(v) => set_all(
            &mut encoder.encoders,
            EncoderSetting::LsbDepth(v),
        ),
        OpusMultistreamEncoderCtlRequest::GetLsbDepth(o) => {
            *o = first.lsb_depth;
            Ok(())
        },
        OpusMultistreamEncoderCtlRequest::SetExpertFrameDuration(v) => {
            encoder.variable_duration = v;
            Ok(())
        },
        OpusMultistreamEncoderCtlRequest::GetExpertFrameDuration(o) => {
            *o = encoder.variable_duration;
            Ok(())
        },
        OpusMultistreamEncoderCtlRequest::SetPredictionDisabled(v) => set_all(
            &mut encoder.encoders,
            EncoderSetting::PredictionDisabled(v),
        ),
        OpusMultistreamEncoderCtlRequest::GetPredictionDisabled(o) => {
            *o = first.prediction_disabled;
            Ok(())
        },
        OpusMultistreamEncoderCtlRequest::SetPhaseInversionDisabled(v) => set_all(
            &mut encoder.encoders,
            EncoderSetting::PhaseInversionDisabled(v),
        ),
        OpusMultistreamEncoderCtlRequest::GetPhaseInversionDisabled(o) => {
            *o = first.phase_inversion_disabled;
            Ok(())
        },
        OpusMultistreamEncoderCtlRequest::SetDredDuration(v) => set_all(
            &mut encoder.encoders,
            EncoderSetting::DredDuration(v),
        ),
        OpusMultistreamEncoderCtlRequest::GetDredDuration(o) => {
            *o = first.dred_duration;
            Ok(())
        },
        OpusMultistreamEncoderCtlRequest::SetDnnBlob(_) => set_all(
            &mut encoder.encoders,
            EncoderSetting::DnnBlob,
        ),
        OpusMultistreamEncoderCtlRequest::SetForceMode(v) => set_all(
            &mut encoder.encoders,
            EncoderSetting::ForceMode(v),
        ),
        OpusMultistreamEncoderCtlRequest::GetSampleRate(o) => {
            *o = first.fs;
            Ok(())
        },
        OpusMultistreamEncoderCtlRequest::GetLookahead(o) => {
            *o = first.get_lookahead();
            Ok(())
        },
        OpusMultistreamEncoderCtlRequest::GetFinalRange(o) => {
            *o = combine_ranges(&encoder.encoders);
            Ok(())
        },
        OpusMultistreamEncoderCtlRequest::ResetState => set_all(
            &mut encoder.encoders,
            EncoderSetting::Reset,
        ),
    }
}

/// A setting that is not refused reaches every stream; one that is refused
/// reaches the streams before the first that refuses it and no others.
pub proof fn law_setting_reaches_streams(
    before: Seq<OpusEncoder>,
    s: EncoderSetting,
    after: Seq<OpusEncoder>,
    r: Result<(), OpusMultistreamEncoderError>,
)
    requires
        handed_on(before, s, after, r),
    ensures
        r is Ok <==> forall|i: int| 0 <= i < before.len() ==> encoder_takes(#[trigger] before[i], s),
        r is Ok ==> after.len() == before.len() && forall|i: int|
            0 <= i < before.len() ==> #[trigger] after[i] == encoder_with(before[i], s),
        r is Err ==> exists|k: int|
            0 <= k < before.len() && !encoder_takes(#[trigger] before[k], s) && after == set_before(
                before,
                s,
                k,
            ) && forall|i: int| 0 <= i < k ==> encoder_takes(#[trigger] before[i], s),
{
    let k = first_refusal(before, s);
    lemma_refusal_in_range(before, s);
    assert forall|i: int| 0 <= i < k implies encoder_takes(#[trigger] before[i], s) by {
        lemma_taken_before_refusal(before, s, i);
    }
    if k < before.len() {
        lemma_refused_at(before, s);
    }
}

proof fn lemma_refusal_in_range(es: Seq<OpusEncoder>, s: EncoderSetting)
    ensures
        0 <= first_refusal(es, s) <= es.len(),
    decreases es.len(),
{
    if es.len() > 0 {
        lemma_refusal_in_range(es.skip(1), s);
    }
}

proof fn lemma_refused_at(es: Seq<OpusEncoder>, s: EncoderSetting)
    requires
        first_refusal(es, s) < es.len(),
    ensures
        !encoder_takes(es[first_refusal(es, s)], s),
    decreases es.len(),
{
    if es.len() > 0 && encoder_takes(es[0], s) {
        lemma_refused_at(es.skip(1), s);
        lemma_refusal_in_range(es.skip(1), s);
    }
}

} // verus!
