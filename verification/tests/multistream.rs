//! Multistream encoders and decoders.

use opus_codec::channel_layout::{
    get_left_channel, get_mono_channel, get_right_channel, validate_ambisonics,
    validate_encoder_layout, validate_layout, ChannelLayout, MappingType,
};
use opus_codec::multistream_decode::{
    opus_multistream_decode, opus_multistream_packet_validate, StreamDecoded,
};
use opus_codec::multistream_decoder::{
    align, opus_multistream_decoder_create, opus_multistream_decoder_ctl,
    opus_multistream_decoder_get_size, OpusMultistreamDecoder, OpusMultistreamDecoderCtlRequest,
    OpusMultistreamDecoderError, LAYOUT_SIZE,
};
use opus_codec::multistream_encode::{opus_multistream_encode, StreamEncoded};
use opus_codec::multistream_encoder::{
    opus_multistream_encoder_create, opus_multistream_encoder_ctl,
    opus_multistream_encoder_get_encoder_state, opus_multistream_encoder_get_size,
    opus_multistream_surround_encoder_create, opus_multistream_surround_encoder_get_size,
    OpusMultistreamEncoderCtlRequest, OpusMultistreamEncoderError,
};
use opus_codec::opus_decoder::{DecoderReport, OpusDecoderCtlError};
use opus_codec::opus_encoder::{EncoderReport, OpusEncodeError, OPUS_AUTO};
use opus_codec::packet::opus_packet_parse_impl;
use opus_codec::rate_allocation::rate_allocation;

/// What a stream decoder reports.
const REPORT: DecoderReport =
    DecoderReport { bandwidth: 1103, last_packet_duration: 960, range_final: 0x55 };

/// What a stream encoder gives for a packet.
fn packet_of(packet: Vec<u8>) -> StreamEncoded {
    StreamEncoded { coded: Ok(packet), report: CODED }
}

/// What a stream encoder reports.
const CODED: EncoderReport = EncoderReport {
    first: false,
    bandwidth: 1104,
    in_dtx: false,
    prev_framesize: 960,
    range_final: 0x1234,
};

/// A packet of one 20 ms stereo frame.
fn stereo_packet(frame: &[u8]) -> Vec<u8> {
    let mut packet = vec![0x0c];
    packet.extend_from_slice(frame);
    packet
}

/// A stream decoder whose samples tell the packet's bytes apart.
fn decode_stream(packet: &[u8], channels: usize, frame_size: usize) -> Vec<i16> {
    (0..channels * frame_size)
        .map(|i| 7 * i as i16 + i16::from(packet[1 + i % (packet.len() - 1)]))
        .collect()
}

/// What the stream decoders give for a packet.
fn decode_streams(
    decoder: &OpusMultistreamDecoder,
    data: &[u8],
    len: usize,
    frame_size: usize,
) -> Vec<StreamDecoded<i16>> {
    let layout = decoder.layout();
    let mut offset = 0;
    let mut outcomes = Vec::new();
    for stream in 0..layout.nb_streams {
        let self_delimited = stream + 1 < layout.nb_streams;
        let parsed =
            opus_packet_parse_impl(&data[offset..len], len - offset, self_delimited).unwrap();
        let mut packet = vec![data[offset]];
        packet.extend_from_slice(
            &data[offset + parsed.payload_offset..offset + parsed.packet_offset],
        );
        let channels = if stream < layout.nb_coupled_streams { 2 } else { 1 };
        outcomes.push(StreamDecoded {
            decoded: Ok(frame_size),
            packet_offset: parsed.packet_offset,
            samples: decode_stream(&packet, channels, frame_size),
            report: REPORT,
        });
        offset += parsed.packet_offset;
    }
    outcomes
}

fn layout_from_mapping(
    nb_channels: usize,
    nb_streams: usize,
    nb_coupled_streams: usize,
    mapping_slice: &[u8],
) -> ChannelLayout {
    let mut mapping = [u8::MAX; 256];
    let count = mapping_slice.len().min(mapping.len());
    mapping[..count].copy_from_slice(&mapping_slice[..count]);
    ChannelLayout {
        nb_channels,
        nb_streams,
        nb_coupled_streams,
        mapping,
    }
}

#[test]
fn accepts_valid_layout() {
    let layout = layout_from_mapping(3, 2, 1, &[0, 1, 2]);
    assert!(validate_layout(&layout));
}

#[test]
fn rejects_out_of_range_stream_indices() {
    let layout = layout_from_mapping(1, 1, 0, &[1]);
    assert!(!validate_layout(&layout));
}

#[test]
fn rejects_when_stream_count_exceeds_byte_limit() {
    let layout = layout_from_mapping(2, 200, 60, &[0, 1]);
    assert!(!validate_layout(&layout));
}

#[test]
fn iterates_all_channels_for_a_stream() {
    let layout = layout_from_mapping(4, 3, 1, &[0, 0, 1, 2]);

    assert_eq!(get_left_channel(&layout, 0, None), Some(0));
    assert_eq!(get_left_channel(&layout, 0, Some(0)), Some(1));
    assert_eq!(get_left_channel(&layout, 0, Some(1)), None);

    assert_eq!(get_right_channel(&layout, 0, None), Some(2));
    assert_eq!(get_right_channel(&layout, 0, Some(2)), None);

    assert_eq!(get_mono_channel(&layout, 1, None), Some(3));
    assert_eq!(get_mono_channel(&layout, 1, Some(3)), None);
}

#[test]
fn validate_encoder_layout_rejects_missing_channel() {
    let layout = layout_from_mapping(2, 1, 1, &[0, u8::MAX]);
    assert!(!validate_encoder_layout(&layout));
}

#[test]
fn validate_encoder_layout_accepts_complete_mapping() {
    let layout = layout_from_mapping(2, 1, 1, &[0, 1]);
    assert!(validate_encoder_layout(&layout));
}

#[test]
fn validate_ambisonics_computes_stream_and_coupling_counts() {
    assert_eq!(validate_ambisonics(1), Some((1, 0)));
    assert_eq!(validate_ambisonics(6), Some((5, 1)));
    assert_eq!(validate_ambisonics(7), None);
    assert_eq!(validate_ambisonics(228), None);
}

#[test]
fn rate_allocation_handles_stereo_surround_defaults() {
    let layout = layout_from_mapping(2, 1, 1, &[0, 1]);
    let mut rates = [0; 1];

    let sum = rate_allocation(
        &layout,
        MappingType::Surround,
        OPUS_AUTO,
        None,
        960,
        48_000,
        &mut rates,
    )
    .expect("allocation");

    assert_eq!(sum, 120_000);
    assert_eq!(rates, [120_000]);
}

#[test]
fn rate_allocation_accounts_for_lfe_stream() {
    let layout = layout_from_mapping(6, 4, 2, &[0, 4, 1, 2, 3, 5]);
    let mut rates = [0; 4];

    let sum = rate_allocation(
        &layout,
        MappingType::Surround,
        256_000,
        Some(3),
        960,
        48_000,
        &mut rates,
    )
    .expect("allocation");

    assert_eq!(sum, 255_995);
    assert_eq!(rates, [95_120, 95_120, 57_560, 8_195]);
}

#[test]
fn rate_allocation_splits_evenly_for_ambisonics() {
    let layout = layout_from_mapping(4, 4, 0, &[0, 1, 2, 3]);
    let mut rates = [0; 4];

    let sum = rate_allocation(
        &layout,
        MappingType::Ambisonics,
        OPUS_AUTO,
        None,
        960,
        48_000,
        &mut rates,
    )
    .expect("allocation");

    assert_eq!(sum, 264_000);
    assert_eq!(rates, [66_000; 4]);
}

#[test]
fn rate_allocation_rejects_insufficient_rate_storage() {
    let layout = layout_from_mapping(2, 1, 1, &[0, 1]);
    let mut rates: [i32; 0] = [];

    assert!(
        rate_allocation(
            &layout,
            MappingType::Surround,
            64_000,
            None,
            960,
            48_000,
            &mut rates
        )
        .is_none()
    );
}

#[test]
fn multistream_decoder_size_matches_aligned_components() {
    let coupled = 26_580;
    let mono = 18_228;
    let expected = align(LAYOUT_SIZE).unwrap() + align(coupled).unwrap() + align(mono).unwrap();
    let reported =
        opus_multistream_decoder_get_size(2, 1, coupled, mono).expect("reported size");

    assert_eq!(reported, expected);
    assert!(opus_multistream_decoder_get_size(0, 0, coupled, mono).is_none());
    assert!(opus_multistream_decoder_get_size(2, 3, coupled, mono).is_none());
}

#[test]
fn multistream_decoder_creation_validates_arguments() {
    let mapping = [0u8, 1];
    let err = opus_multistream_decoder_create(48_000, 0, 1, 0, &mapping).unwrap_err();
    assert_eq!(err, OpusMultistreamDecoderError::BadArgument);

    let short_map = [0u8];
    let err = opus_multistream_decoder_create(48_000, 2, 1, 1, &short_map).unwrap_err();
    assert_eq!(err, OpusMultistreamDecoderError::BadArgument);
}

#[test]
fn multistream_decoder_ctl_round_trips_gain_and_complexity() {
    let mapping = [0u8, 1];
    let mut decoder =
        opus_multistream_decoder_create(48_000, 2, 1, 1, &mapping).expect("decoder");

    opus_multistream_decoder_ctl(&mut decoder, OpusMultistreamDecoderCtlRequest::SetGain(-12))
        .unwrap();

    let mut gain = 0;
    opus_multistream_decoder_ctl(
        &mut decoder,
        OpusMultistreamDecoderCtlRequest::GetGain(&mut gain),
    )
    .unwrap();
    assert_eq!(gain, -12);

    opus_multistream_decoder_ctl(
        &mut decoder,
        OpusMultistreamDecoderCtlRequest::SetComplexity(5),
    )
    .unwrap();
    let mut complexity = 0;
    opus_multistream_decoder_ctl(
        &mut decoder,
        OpusMultistreamDecoderCtlRequest::GetComplexity(&mut complexity),
    )
    .unwrap();
    assert_eq!(complexity, 5);

    let mut fs = 0;
    opus_multistream_decoder_ctl(
        &mut decoder,
        OpusMultistreamDecoderCtlRequest::GetSampleRate(&mut fs),
    )
    .unwrap();
    assert_eq!(fs, 48_000);

    let err = opus_multistream_decoder_ctl(
        &mut decoder,
        OpusMultistreamDecoderCtlRequest::SetComplexity(11),
    )
    .unwrap_err();
    assert_eq!(
        err,
        OpusMultistreamDecoderError::DecoderCtl(OpusDecoderCtlError::BadArgument)
    );
}

#[test]
fn packet_validation_accepts_self_delimited_streams() {
    // First stream is self-delimited (size=1), second stream is the tail packet.
    let packet = [0x00, 0x01, 0xAA, 0x00, 0xBB];
    let samples =
        opus_multistream_packet_validate(&packet, packet.len(), 2, 48_000).expect("packet");
    assert_eq!(samples, 480);
}

#[test]
fn packet_validation_rejects_mismatched_sample_counts() {
    // Second stream advertises a 60 ms frame, which does not match the first stream.
    let packet = [0x00, 0x01, 0xAA, 0x18, 0xBB];
    let err = opus_multistream_packet_validate(&packet, packet.len(), 2, 48_000).unwrap_err();
    assert_eq!(err, OpusMultistreamDecoderError::InvalidPacket);
}

#[test]
fn decode_returns_unimplemented_after_validation() {
    let mapping = [0u8, 1];
    let mut decoder = opus_multistream_decoder_create(48_000, 2, 1, 1, &mapping).expect("decoder");
    let packet = [0x00, 0xAA];
    let mut pcm = vec![0i16; 2 * 960];

    let outcomes = decode_streams(&decoder, &packet, packet.len(), 480);
    let decoded =
        opus_multistream_decode(&mut decoder, &packet, packet.len(), &mut pcm, 960, &outcomes)
            .expect("decode");
    assert!(decoded > 0);
    assert_eq!(decoded, 480);
}

#[test]
fn multistream_decode_matches_single_stream_decoder_for_stereo() {
    let mapping = [0u8, 1];
    let packet = stereo_packet(&[0x5a, 0xc3]);
    let len = packet.len();

    let mut ms_decoder =
        opus_multistream_decoder_create(48_000, 2, 1, 1, &mapping).expect("ms decoder");

    let mut ms_out = vec![0i16; 2 * 960];
    let single_out = decode_stream(&packet, 2, 960);

    let outcomes = decode_streams(&ms_decoder, &packet, len, 960);
    let ms_decoded =
        opus_multistream_decode(&mut ms_decoder, &packet, len, &mut ms_out, 960, &outcomes)
            .expect("ms decode");
    let single_decoded = single_out.len() / 2;
    assert_eq!(ms_decoded, single_decoded);
    assert_eq!(ms_out[..ms_decoded * 2], single_out[..single_decoded * 2]);
}

#[test]
fn multistream_decode_routes_two_coupled_streams() {
    let mapping = [0u8, 1, 2, 3];
    let mut ms_encoder =
        opus_multistream_encoder_create(48_000, 4, 2, 2, &mapping, 2048).expect("ms encoder");
    let pcm_in = vec![0i16; 4 * 960];
    let mut packet = vec![0u8; 4000];
    let coded = [packet_of(stereo_packet(&[0x11, 0x22])), packet_of(stereo_packet(&[0x33]))];
    let len = opus_multistream_encode(&mut ms_encoder, &pcm_in, 960, &mut packet, &coded)
        .expect("encode");

    let mut ms_decoder =
        opus_multistream_decoder_create(48_000, 4, 2, 2, &mapping).expect("ms decoder");

    let mut ms_out = vec![0i16; 4 * 960];
    let outcomes = decode_streams(&ms_decoder, &packet, len, 960);
    let decoded = opus_multistream_decode(&mut ms_decoder, &packet, len, &mut ms_out, 960, &outcomes)
        .expect("ms decode");
    assert!(decoded > 0);

    let mut offset = 0usize;
    let mut remaining = len;
    let mut expected = vec![0i16; 4 * decoded];
    for stream in 0..2 {
        let self_delimited = stream == 0;
        let parsed = opus_packet_parse_impl(&packet[offset..], remaining, self_delimited)
            .expect("parse");
        let packet_offset = parsed.packet_offset;
        let stream_packet = if self_delimited {
            let toc = packet[offset];
            let payload_start = offset + parsed.payload_offset;
            let payload_end = offset + parsed.packet_offset;
            let mut reconstructed = vec![0u8; 1 + (payload_end - payload_start)];
            reconstructed[0] = toc;
            reconstructed[1..].copy_from_slice(&packet[payload_start..payload_end]);
            reconstructed
        } else {
            packet[offset..offset + packet_offset].to_vec()
        };

        let stream_out = decode_stream(&stream_packet, 2, decoded);
        assert_eq!(stream_out.len(), 2 * decoded);

        for i in 0..decoded {
            expected[i * 4 + stream * 2] = stream_out[i * 2];
            expected[i * 4 + stream * 2 + 1] = stream_out[i * 2 + 1];
        }

        offset += packet_offset;
        remaining -= packet_offset;
    }

    assert_eq!(ms_out[..decoded * 4], expected[..decoded * 4]);
}

#[test]
fn multistream_decode_zero_fills_muted_channel() {
    let mapping = [0u8, 1, u8::MAX];
    let packet = stereo_packet(&[0x77]);
    let len = packet.len();

    let mut ms_decoder =
        opus_multistream_decoder_create(48_000, 3, 1, 1, &mapping).expect("ms decoder");
    let mut out = vec![1i16; 3 * 960];
    let outcomes = decode_streams(&ms_decoder, &packet, len, 960);
    let decoded = opus_multistream_decode(&mut ms_decoder, &packet, len, &mut out, 960, &outcomes)
        .expect("decode");

    assert_eq!(decoded, 960);
    for i in 0..decoded {
        assert_eq!(out[i * 3 + 2], 0);
    }
}

#[test]
fn multistream_encode_respects_minimum_packet_size() {
    let mapping = [0u8, 1];
    let mut ms_encoder =
        opus_multistream_encoder_create(48_000, 2, 1, 1, &mapping, 2048).expect("ms encoder");
    let pcm_in = vec![0i16; 2 * 960];
    let mut packet = vec![0u8; 2];
    // No stream encoder codes a frame in two bytes.
    let coded =
        [StreamEncoded { coded: Err(OpusEncodeError::BufferTooSmall), report: CODED }];
    let err =
        opus_multistream_encode(&mut ms_encoder, &pcm_in, 960, &mut packet, &coded).unwrap_err();
    assert_eq!(err, OpusMultistreamEncoderError::BufferTooSmall);
}

#[test]
fn multistream_encoder_ctl_round_trips_lsb_and_prediction() {
    let mapping = [0u8, 1];
    let mut encoder =
        opus_multistream_encoder_create(48_000, 2, 2, 0, &mapping, 2048).expect("ms encoder");

    let mut lsb = 0;
    opus_multistream_encoder_ctl(
        &mut encoder,
        OpusMultistreamEncoderCtlRequest::GetLsbDepth(&mut lsb),
    )
    .unwrap();
    assert!(lsb >= 16);

    opus_multistream_encoder_ctl(
        &mut encoder,
        OpusMultistreamEncoderCtlRequest::SetLsbDepth(12),
    )
    .unwrap();
    let mut updated = 0;
    opus_multistream_encoder_ctl(
        &mut encoder,
        OpusMultistreamEncoderCtlRequest::GetLsbDepth(&mut updated),
    )
    .unwrap();
    assert_eq!(updated, 12);

    let mut pred = false;
    opus_multistream_encoder_ctl(
        &mut encoder,
        OpusMultistreamEncoderCtlRequest::GetPredictionDisabled(&mut pred),
    )
    .unwrap();
    opus_multistream_encoder_ctl(
        &mut encoder,
        OpusMultistreamEncoderCtlRequest::SetPredictionDisabled(!pred),
    )
    .unwrap();
    let mut pred_after = false;
    opus_multistream_encoder_ctl(
        &mut encoder,
        OpusMultistreamEncoderCtlRequest::GetPredictionDisabled(&mut pred_after),
    )
    .unwrap();
    assert_eq!(pred_after, !pred);

    {
        let stream =
            opus_multistream_encoder_get_encoder_state(&mut encoder, 1).expect("stream");
        assert_eq!(stream.lsb_depth, 12);
    }

    assert_eq!(
        opus_multistream_encoder_get_encoder_state(&mut encoder, 2).unwrap_err(),
        OpusMultistreamEncoderError::BadArgument
    );
}

#[test]
fn multistream_encoder_ctl_round_trips_dred_duration() {
    let mapping = [0u8, 1];
    let mut encoder =
        opus_multistream_encoder_create(48_000, 2, 2, 0, &mapping, 2048).expect("ms encoder");

    opus_multistream_encoder_ctl(
        &mut encoder,
        OpusMultistreamEncoderCtlRequest::SetDredDuration(8),
    )
    .unwrap();
    let mut duration = 0;
    opus_multistream_encoder_ctl(
        &mut encoder,
        OpusMultistreamEncoderCtlRequest::GetDredDuration(&mut duration),
    )
    .unwrap();
    assert_eq!(duration, 8);
}

#[test]
fn surround_encoder_layout_matches_vorbis_mapping() {
    let (encoder, layout) =
        opus_multistream_surround_encoder_create(48_000, 6, 1, 2048).expect("encoder");

    assert_eq!(layout.streams, 4);
    assert_eq!(layout.coupled_streams, 2);
    assert_eq!(layout.mapping, vec![0, 4, 1, 2, 3, 5]);
    assert_eq!(encoder.layout.nb_channels, 6);
    assert_eq!(encoder.layout.nb_streams, 4);
    assert_eq!(encoder.layout.nb_coupled_streams, 2);

    // LFE is the last stream for 5.1+ layouts.
    assert_eq!(encoder.lfe_stream, Some(3));
    assert_eq!(encoder.mapping_type, MappingType::Surround);
}

#[test]
fn surround_encoder_ambisonics_layout_matches_reference_ordering() {
    let (_encoder, layout) =
        opus_multistream_surround_encoder_create(48_000, 6, 2, 2048).expect("encoder");
    assert_eq!(layout.streams, 5);
    assert_eq!(layout.coupled_streams, 1);
    assert_eq!(layout.mapping, vec![2, 3, 4, 5, 0, 1]);
}

#[test]
fn surround_encoder_get_size_matches_reference_overhead() {
    let (coupled, mono) = (48_480, 35_092);
    let size = opus_multistream_surround_encoder_get_size(6, 1, coupled, mono).expect("size");
    let base = opus_multistream_encoder_get_size(4, 2, coupled, mono).expect("base");
    let overhead = 6 * (120 * core::mem::size_of::<f32>() + core::mem::size_of::<f32>());
    assert_eq!(size, base + overhead);
}
