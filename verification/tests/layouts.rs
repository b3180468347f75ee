//! Layouts, rates and settings of many streams.

use opus_codec::channel_layout::{
    build_layout, get_order_plus_one_from_channels, isqrt32, surround_layout,
    surround_mapping_type, validate_encoder_layout, validate_layout, MappingType, SurroundError,
};
use opus_codec::multistream_decode::{
    copy_channel_out, opus_multistream_decode, opus_multistream_decode24,
    opus_multistream_decode_start, opus_multistream_packet_validate, StreamDecoded,
};
use opus_codec::multistream_decoder::{
    align, opus_multistream_decoder_create, opus_multistream_decoder_ctl,
    OpusMultistreamDecoderCtlRequest, OpusMultistreamDecoderError,
};
use opus_codec::multistream_encode::{
    encode_size, narrow_pcm24, opus_multistream_encode, opus_multistream_encode_with_options,
    write_stream_packet, OpusMultistreamEncodeOptions, StreamEncoded,
};
use opus_codec::multistream_encoder::{
    opus_multistream_encoder_create, opus_multistream_encoder_ctl,
    opus_multistream_surround_encoder_create, OpusMultistreamEncoderCtlRequest,
    OpusMultistreamEncoderError,
};
use opus_codec::opus_decoder::{DecoderReport, OpusDecodeError, OpusDecoderInitError};
use opus_codec::opus_encoder::{EncoderReport, OpusEncodeError, OpusEncoderInitError};
use opus_codec::rate_allocation::rate_allocation;

/// What a stream decoder reports.
const REPORT: DecoderReport =
    DecoderReport { bandwidth: 1103, last_packet_duration: 960, range_final: 0x55 };

/// What a stream encoder gives for a packet.
fn packet_of(packet: Vec<u8>) -> StreamEncoded {
    StreamEncoded { coded: Ok(packet), report: CODED }
}

/// What a stream encoder reports.
const CODED: EncoderReport = EncoderReport {
    first: false,
    bandwidth: 1104,
    in_dtx: false,
    prev_framesize: 960,
    range_final: 0x1234,
};

#[test]
fn square_roots_are_rounded_down() {
    for (value, root) in [(1, 1), (3, 1), (4, 2), (35, 5), (36, 6), (4_294_967_295, 65_535)] {
        assert_eq!(isqrt32(value), root);
    }
}

#[test]
fn ambisonics_orders_of_channel_counts() {
    assert_eq!(get_order_plus_one_from_channels(4), Some(2));
    assert_eq!(get_order_plus_one_from_channels(6), Some(2));
    assert_eq!(get_order_plus_one_from_channels(5), None);
    assert_eq!(get_order_plus_one_from_channels(227), Some(15));
    assert_eq!(get_order_plus_one_from_channels(228), None);
    assert_eq!(get_order_plus_one_from_channels(0), None);
}

#[test]
fn every_mapping_family_is_complete() {
    for (channels, family) in [(1, 0u8), (2, 0), (1, 1), (5, 1), (8, 1), (4, 2), (11, 2), (9, 255)]
    {
        let (streams, coupled, mapping) = surround_layout(channels, family).unwrap();
        let layout = build_layout(channels, streams, coupled, &mapping).unwrap();
        assert!(validate_layout(&layout));
        assert!(validate_encoder_layout(&layout));
    }
}

#[test]
fn mapping_families_refuse_other_channels() {
    assert_eq!(surround_layout(0, 1), Err(SurroundError::BadArgument));
    assert_eq!(surround_layout(256, 255), Err(SurroundError::BadArgument));
    assert_eq!(surround_layout(3, 0), Err(SurroundError::Unimplemented));
    assert_eq!(surround_layout(9, 1), Err(SurroundError::Unimplemented));
    assert_eq!(surround_layout(7, 2), Err(SurroundError::BadArgument));
    assert_eq!(surround_layout(2, 17), Err(SurroundError::Unimplemented));
}

#[test]
fn only_surround_has_a_low_frequency_stream() {
    assert_eq!(surround_mapping_type(6, 1, 4), (MappingType::Surround, Some(3)));
    assert_eq!(surround_mapping_type(5, 1, 3), (MappingType::Surround, None));
    assert_eq!(surround_mapping_type(4, 2, 4), (MappingType::Ambisonics, None));
    assert_eq!(surround_mapping_type(2, 255, 2), (MappingType::Plain, None));
}

#[test]
fn sizes_are_aligned_to_pointers() {
    assert_eq!(align(0), Some(0));
    assert_eq!(align(1), Some(8));
    assert_eq!(align(272), Some(272));
    assert_eq!(align(usize::MAX), None);
}

#[test]
fn rates_have_a_floor() {
    let layout = build_layout(3, 3, 0, &[0, 1, 2]).unwrap();
    let mut rates = [0; 3];
    rate_allocation(&layout, MappingType::Surround, 600, None, 960, 48_000, &mut rates).unwrap();
    assert!(rates.iter().all(|&rate| rate >= 500));
}

#[test]
fn decoder_settings_reach_every_stream() {
    let mut decoder = opus_multistream_decoder_create(48_000, 3, 2, 1, &[0, 1, 2]).unwrap();
    opus_multistream_decoder_ctl(&mut decoder, OpusMultistreamDecoderCtlRequest::SetGain(77))
        .unwrap();
    assert!(decoder.decoders.iter().all(|stream| stream.decode_gain == 77));
    let refused = opus_multistream_decoder_ctl(
        &mut decoder,
        OpusMultistreamDecoderCtlRequest::SetGain(40_000),
    );
    assert!(refused.is_err());
    assert!(decoder.decoders.iter().all(|stream| stream.decode_gain == 77));
}

#[test]
fn encoder_settings_reach_every_stream() {
    let mut encoder =
        opus_multistream_encoder_create(48_000, 3, 2, 1, &[0, 1, 2], 2049).unwrap();
    opus_multistream_encoder_ctl(&mut encoder, OpusMultistreamEncoderCtlRequest::SetComplexity(3))
        .unwrap();
    assert!(encoder.encoders.iter().all(|stream| stream.complexity == 3));
    opus_multistream_encoder_ctl(&mut encoder, OpusMultistreamEncoderCtlRequest::SetBitrate(64_000))
        .unwrap();
    assert_eq!(encoder.bitrate_bps, 64_000);
}

#[test]
fn error_numbers() {
    assert_eq!(OpusMultistreamDecoderError::BadArgument.code(), -1);
    assert_eq!(OpusMultistreamDecoderError::BufferTooSmall.code(), -2);
    assert_eq!(OpusMultistreamDecoderError::InternalError.code(), -3);
    assert_eq!(OpusMultistreamDecoderError::InvalidPacket.code(), -4);
    assert_eq!(OpusMultistreamDecoderError::Unimplemented.code(), -5);
    assert_eq!(
        OpusMultistreamDecoderError::DecoderInit(OpusDecoderInitError::CodecInit).code(),
        -3
    );
    assert_eq!(
        OpusMultistreamDecoderError::DecoderDecode(OpusDecodeError::InvalidPacket).code(),
        -4
    );
    assert_eq!(OpusMultistreamEncoderError::Unimplemented.code(), -5);
    assert_eq!(OpusMultistreamEncoderError::Encode(OpusEncodeError::BufferTooSmall).code(), -2);
}

#[test]
fn bad_set_up_is_refused() {
    let rate = opus_multistream_decoder_create(44_100, 2, 1, 1, &[0, 1]).unwrap_err();
    assert_eq!(
        rate,
        OpusMultistreamDecoderError::DecoderInit(OpusDecoderInitError::BadArgument)
    );
    let mapping = opus_multistream_encoder_create(48_000, 2, 1, 1, &[0, 255], 2049).unwrap_err();
    assert_eq!(mapping, OpusMultistreamEncoderError::BadArgument);
    let application =
        opus_multistream_encoder_create(48_000, 2, 1, 1, &[0, 1], 1).unwrap_err();
    assert_eq!(
        application,
        OpusMultistreamEncoderError::EncoderInit(OpusEncoderInitError::BadArgument)
    );
    let family = opus_multistream_surround_encoder_create(48_000, 3, 0, 2049).unwrap_err();
    assert_eq!(family, OpusMultistreamEncoderError::Unimplemented);
}

#[test]
fn sizes_take_one_or_two_bytes() {
    let mut data = [0u8; 2];
    assert_eq!(encode_size(251, &mut data), Some(1));
    assert_eq!(data[0], 251);
    assert_eq!(encode_size(252, &mut data), Some(2));
    assert_eq!(data, [252, 0]);
    assert_eq!(encode_size(1275, &mut data), Some(2));
    assert_eq!(4 * usize::from(data[1]) + usize::from(data[0]), 1275);
    assert_eq!(encode_size(1, &mut []), None);
}

#[test]
fn stream_packets_are_framed() {
    let mut data = [0u8; 6];
    assert_eq!(write_stream_packet(&[0x08, 1, 2], true, &mut data, 0), Some(4));
    assert_eq!(&data[..4], &[0x08, 2, 1, 2]);
    assert_eq!(write_stream_packet(&[0x08, 9], false, &mut data, 4), Some(2));
    assert_eq!(data, [0x08, 2, 1, 2, 0x08, 9]);
    assert_eq!(opus_multistream_packet_validate(&data, 6, 2, 48_000), Ok(960));
    assert_eq!(write_stream_packet(&[0x08, 9, 9], false, &mut data, 4), None);
}

#[test]
fn channels_without_a_source_are_silent() {
    let mut out = [7i16; 6];
    copy_channel_out(&mut out, 2, 1, None, 3, 0, 0);
    assert_eq!(out, [7, 0, 7, 0, 7, 0]);
    copy_channel_out(&mut out, 2, 0, Some((&[1, 2, 3], 1)), 3, 0, 0);
    assert_eq!(out, [1, 0, 2, 0, 3, 0]);
}

#[test]
fn lost_packet_asks_every_stream_to_conceal() {
    let decoder = opus_multistream_decoder_create(48_000, 2, 2, 0, &[0, 1]).unwrap();
    let run = opus_multistream_decode_start(&decoder, &[], 0, 1920, 960).unwrap();
    let request = run.next_request(decoder.layout()).unwrap().unwrap();
    assert!(request.lost);
    assert!(request.self_delimited);
    assert_eq!(request.frame_size, 960);
}

#[test]
fn decoding_errors() {
    let mut decoder = opus_multistream_decoder_create(48_000, 2, 2, 0, &[0, 1]).unwrap();
    let packet = [0x08, 1, 5, 0x08, 6];
    let start = |len, room, frame| {
        opus_multistream_decode_start(&decoder, &packet, len, room, frame).unwrap_err()
    };
    assert_eq!(start(5, 1920, 0), OpusMultistreamDecoderError::BadArgument);
    assert_eq!(start(6, 1920, 960), OpusMultistreamDecoderError::BadArgument);
    assert_eq!(start(5, 1919, 960), OpusMultistreamDecoderError::BufferTooSmall);
    assert_eq!(start(5, 1920, 480), OpusMultistreamDecoderError::BufferTooSmall);
    assert_eq!(start(2, 1920, 960), OpusMultistreamDecoderError::InvalidPacket);

    let mut pcm = vec![0i16; 1920];
    let failed = [StreamDecoded {
        decoded: Err(OpusDecodeError::InternalError),
        packet_offset: 3,
        samples: Vec::new(),
        report: REPORT,
    }];
    assert_eq!(
        opus_multistream_decode(&mut decoder, &packet, 5, &mut pcm, 960, &failed).unwrap_err(),
        OpusMultistreamDecoderError::DecoderDecode(OpusDecodeError::InternalError)
    );
    let empty = [StreamDecoded { decoded: Ok(0), packet_offset: 3, samples: Vec::new(), report: REPORT }];
    assert_eq!(
        opus_multistream_decode(&mut decoder, &packet, 5, &mut pcm, 960, &empty).unwrap_err(),
        OpusMultistreamDecoderError::InternalError
    );
}

#[test]
fn every_channel_holds_its_stream() {
    // The first channel hears the second stream, the others the first one.
    let mut decoder = opus_multistream_decoder_create(48_000, 3, 2, 0, &[1, 0, 0]).unwrap();
    let packet = [0x08, 1, 5, 0x08, 6];
    let outcomes = [
        StreamDecoded { decoded: Ok(960), packet_offset: 3, samples: vec![11i32; 960], report: REPORT },
        StreamDecoded { decoded: Ok(960), packet_offset: 2, samples: vec![22i32; 960], report: REPORT },
    ];
    let mut pcm = vec![0i32; 3 * 960];
    let n = opus_multistream_decode24(&mut decoder, &packet, 5, &mut pcm, 960, &outcomes).unwrap();
    assert_eq!(n, 960);
    assert!(pcm.chunks(3).all(|frame| frame == [22, 11, 11]));
}

#[test]
fn encoding_errors() {
    let mut encoder = opus_multistream_encoder_create(48_000, 2, 2, 0, &[0, 1], 2049).unwrap();
    let pcm = vec![0i16; 1920];
    let mut data = vec![0u8; 100];
    let coded = [packet_of(vec![0x08, 1]), packet_of(vec![0x08, 2])];
    assert_eq!(
        opus_multistream_encode(&mut encoder, &pcm, 0, &mut data, &coded).unwrap_err(),
        OpusMultistreamEncoderError::BadArgument
    );
    assert_eq!(
        opus_multistream_encode(&mut encoder, &pcm[1..], 960, &mut data, &coded).unwrap_err(),
        OpusMultistreamEncoderError::BadArgument
    );
    assert_eq!(
        opus_multistream_encode(&mut encoder, &pcm, 960, &mut data[..2], &coded).unwrap_err(),
        OpusMultistreamEncoderError::BufferTooSmall
    );
    let masks = OpusMultistreamEncodeOptions { mask_streams: Some(1) };
    assert_eq!(
        opus_multistream_encode_with_options(&mut encoder, &pcm, 960, &mut data, masks, &coded)
            .unwrap_err(),
        OpusMultistreamEncoderError::BadArgument
    );
    let n = opus_multistream_encode(&mut encoder, &pcm, 960, &mut data, &coded).unwrap();
    assert_eq!(&data[..n], &[0x08, 1, 1, 0x08, 2]);
}

#[test]
fn samples_of_24_bits_are_narrowed() {
    let pcm = [256, -256, 255, -1, 8_388_607, -8_388_608, i32::MAX, i32::MIN];
    assert_eq!(narrow_pcm24(&pcm, 8), [1, -1, 0, -1, 32_767, -32_768, 32_767, -32_768]);
}

#[test]
fn frames_longer_than_the_input_are_refused() {
    let mut encoder = opus_multistream_encoder_create(48_000, 2, 1, 1, &[0, 1], 2048).unwrap();
    let mut packet = vec![0u8; 100];
    let coded = [packet_of(vec![0x0c, 0x00])];
    for frame_size in [961, 1 << 31, usize::MAX / 2] {
        let refused =
            opus_multistream_encode(&mut encoder, &[0; 1920], frame_size, &mut packet, &coded);
        assert_eq!(refused, Err(OpusMultistreamEncoderError::BadArgument));
    }
}

#[test]
fn frame_size_is_taken_in_32_bits() {
    let layout = build_layout(2, 1, 1, &[0, 1]).unwrap();
    for frame_size in [960usize, (1 << 32) + 960] {
        let mut rates = [0; 1];
        let sum = rate_allocation(
            &layout,
            MappingType::Surround,
            -1000,
            None,
            frame_size,
            48_000,
            &mut rates,
        );
        assert_eq!((sum.unwrap(), rates), (120_000, [120_000]));
    }
}

#[test]
fn decoded_streams_report() {
    let mut decoder = opus_multistream_decoder_create(48_000, 2, 2, 0, &[0, 1]).unwrap();
    let packet = [0x08, 1, 5, 0x08, 6];
    let second = DecoderReport { bandwidth: 1101, last_packet_duration: 960, range_final: 0x0f };
    let outcomes = [
        StreamDecoded {
            decoded: Ok(960),
            packet_offset: 3,
            samples: vec![1i16; 960],
            report: REPORT,
        },
        StreamDecoded {
            decoded: Ok(960),
            packet_offset: 2,
            samples: vec![2i16; 960],
            report: second,
        },
    ];
    let mut pcm = vec![0i16; 1920];
    opus_multistream_decode(&mut decoder, &packet, 5, &mut pcm, 960, &outcomes).unwrap();
    let mut range = 0;
    opus_multistream_decoder_ctl(
        &mut decoder,
        OpusMultistreamDecoderCtlRequest::GetFinalRange(&mut range),
    )
    .unwrap();
    assert_eq!(range, 0x55 ^ 0x0f);
    let mut bandwidth = 0;
    opus_multistream_decoder_ctl(
        &mut decoder,
        OpusMultistreamDecoderCtlRequest::GetBandwidth(&mut bandwidth),
    )
    .unwrap();
    let mut duration = 0;
    opus_multistream_decoder_ctl(
        &mut decoder,
        OpusMultistreamDecoderCtlRequest::GetLastPacketDuration(&mut duration),
    )
    .unwrap();
    assert_eq!((bandwidth, duration), (1103, 960));
    opus_multistream_decoder_ctl(&mut decoder, OpusMultistreamDecoderCtlRequest::ResetState)
        .unwrap();
    assert_eq!(decoder.decoders[1].range_final, 0);
}

#[test]
fn stream_that_fails_reports_too() {
    let mut decoder = opus_multistream_decoder_create(48_000, 2, 2, 0, &[0, 1]).unwrap();
    let failed = [StreamDecoded {
        decoded: Err(OpusDecodeError::InternalError),
        packet_offset: 3,
        samples: Vec::new(),
        report: REPORT,
    }];
    let mut pcm = vec![0i16; 1920];
    let packet = [0x08, 1, 5, 0x08, 6];
    opus_multistream_decode(&mut decoder, &packet, 5, &mut pcm, 960, &failed).unwrap_err();
    assert_eq!(decoder.decoders[0].range_final, 0x55);
    assert_eq!(decoder.decoders[1].range_final, 0);
    opus_multistream_decode(&mut decoder, &packet, 5, &mut pcm, 0, &failed).unwrap_err();
    assert_eq!(decoder.decoders[0].range_final, 0x55);
}

#[test]
fn coded_streams_report() {
    let mut encoder = opus_multistream_encoder_create(48_000, 2, 2, 0, &[0, 1], 2049).unwrap();
    let set = |encoder: &mut _, v| {
        opus_multistream_encoder_ctl(encoder, OpusMultistreamEncoderCtlRequest::SetApplication(v))
    };
    set(&mut encoder, 2048).unwrap();
    let mut second = packet_of(vec![0x08, 2]);
    second.report.range_final = 0x1000;
    let coded = [packet_of(vec![0x08, 1]), second];
    let mut data = vec![0u8; 100];
    opus_multistream_encode(&mut encoder, &[0; 1920], 960, &mut data, &coded).unwrap();
    let mut range = 0;
    opus_multistream_encoder_ctl(
        &mut encoder,
        OpusMultistreamEncoderCtlRequest::GetFinalRange(&mut range),
    )
    .unwrap();
    assert_eq!(range, 0x0234);
    let mut bandwidth = 0;
    opus_multistream_encoder_ctl(
        &mut encoder,
        OpusMultistreamEncoderCtlRequest::GetBandwidth(&mut bandwidth),
    )
    .unwrap();
    assert_eq!(bandwidth, 1104);
    set(&mut encoder, 2048).unwrap();
    assert_eq!(set(&mut encoder, 2049), Err(OpusMultistreamEncoderError::BadArgument));
    opus_multistream_encoder_ctl(&mut encoder, OpusMultistreamEncoderCtlRequest::ResetState)
        .unwrap();
    set(&mut encoder, 2049).unwrap();
}
