//! Ambisonics projection.

use opus_codec::multistream_decode::{opus_multistream_decode, StreamDecoded};
use opus_codec::multistream_decoder::{
    opus_multistream_decoder_create, OpusMultistreamDecoderError,
};
use opus_codec::multistream_encode::StreamEncoded;
use opus_codec::opus_decoder::{DecoderReport, OpusDecodeError};
use opus_codec::opus_encoder::EncoderReport;
use opus_codec::projection::{
    demixing_matrix_gain, demixing_matrix_size, opus_projection_ambisonics_encoder_create,
    opus_projection_decode_start, opus_projection_decoder_create, opus_projection_encode,
    opus_projection_encoder_ctl, projection_layout, write_demixing_matrix_subset,
    MappingMatrixView, OpusProjectionDecoderError, OpusProjectionEncoderCtlRequest,
    ProjectionError, ProjectionMatrices,
};
use opus_codec::projection_decode::{opus_projection_decode, opus_projection_decode24};

/// What a stream decoder reports.
const REPORT: DecoderReport =
    DecoderReport { bandwidth: 1103, last_packet_duration: 960, range_final: 0x55 };

/// What a stream encoder gives for a packet.
fn packet_of(packet: Vec<u8>) -> StreamEncoded {
    StreamEncoded { coded: Ok(packet), report: CODED }
}

/// What a stream encoder reports.
const CODED: EncoderReport = EncoderReport {
    first: false,
    bandwidth: 1104,
    in_dtx: false,
    prev_framesize: 960,
    range_final: 0x1234,
};

const FOA_MIXING: [i16; 36] = [
    16384, 0, -16384, 23170, 0, 0, 16384, 23170, 16384, 0, 0, 0, 16384, 0, -16384, -23170, 0, 0,
    16384, -23170, 16384, 0, 0, 0, 0, 0, 0, 0, 32767, 0, 0, 0, 0, 0, 0, 32767,
];

const FOA_DEMIXING: [i16; 36] = [
    16384, 16384, 16384, 16384, 0, 0, 0, 23170, 0, -23170, 0, 0, -16384, 16384, -16384, 16384, 0,
    0, 23170, 0, -23170, 0, 0, 0, 0, 0, 0, 0, 32767, 0, 0, 0, 0, 0, 0, 32767,
];

/// The first-order matrices, and matrices of numbered cells for the orders
/// above.
struct Tables {
    numbered: Vec<Vec<i16>>,
}

impl Tables {
    fn new() -> Self {
        let numbered = (2i16..=6)
            .map(|n| {
                let size = n * n + 2;
                (0..size * size).map(|cell| cell * 3 - 1000).collect()
            })
            .collect();
        Tables { numbered }
    }

    fn numbered(&self, k: usize, gain_db: i32) -> MappingMatrixView<'_> {
        let size = (k + 2) * (k + 2) + 2;
        MappingMatrixView { rows: size, cols: size, gain_db, data: &self.numbered[k] }
    }

    fn matrices(&self) -> ProjectionMatrices<'_> {
        let first = |data| MappingMatrixView { rows: 6, cols: 6, gain_db: 0, data };
        let above = |gain_db| [1, 2, 3, 4].map(|k| self.numbered(k, gain_db));
        let [m1, m2, m3, m4] = above(0);
        let [d1, d2, d3, d4] = above(3050);
        ProjectionMatrices {
            mixing: [first(&FOA_MIXING), m1, m2, m3, m4],
            demixing: [first(&FOA_DEMIXING), d1, d2, d3, d4],
        }
    }
}

#[test]
fn rejects_unhandled_mapping_family() {
    let tables = Tables::new();
    let matrices = tables.matrices();
    let err = projection_layout(4, 0, &matrices).unwrap_err();
    assert_eq!(err, ProjectionError::Unimplemented);
}

#[test]
fn rejects_invalid_channel_counts() {
    let tables = Tables::new();
    let matrices = tables.matrices();
    let err = projection_layout(7, 3, &matrices).unwrap_err();
    assert_eq!(err, ProjectionError::BadArgument);
}

#[test]
fn computes_layout_for_foa_channels() {
    let tables = Tables::new();
    let matrices = tables.matrices();
    let layout = projection_layout(4, 3, &matrices).expect("layout");
    assert_eq!(layout.order_plus_one, 2);
    assert_eq!(layout.streams, 2);
    assert_eq!(layout.coupled_streams, 2);
    assert_eq!(layout.mixing, matrices.mixing[0]);
    assert_eq!(layout.demixing, matrices.demixing[0]);
    // Ensure size helpers use the aligned matrix footprint.
    assert!(layout.mixing_matrix_size_bytes > 0);
    assert!(layout.demixing_matrix_size_bytes > 0);
}

#[test]
fn writes_demixing_subset_in_expected_order() {
    let tables = Tables::new();
    let matrices = tables.matrices();
    let layout = projection_layout(4, 3, &matrices).expect("layout");
    let mut buffer = vec![0u8; layout.demixing_subset_size_bytes().unwrap()];
    write_demixing_matrix_subset(&layout, &mut buffer).expect("write");

    let nb_input_streams = layout.streams + layout.coupled_streams;
    let decoded: Vec<i16> = buffer
        .chunks_exact(2)
        .map(|chunk| i16::from_le_bytes([chunk[0], chunk[1]]))
        .collect();

    let mut expected = Vec::new();
    for input_stream in 0..nb_input_streams {
        for channel in 0..layout.channels {
            expected.push(layout.demixing.data[layout.demixing.rows * input_stream + channel]);
        }
    }

    assert_eq!(decoded, expected);
}

#[test]
fn demixing_helpers_export_metadata_and_matrix() {
    let tables = Tables::new();
    let matrices = tables.matrices();
    let layout = projection_layout(9, 3, &matrices).expect("layout");

    let size = demixing_matrix_size(&layout).expect("size");
    let expected_size = layout.demixing_subset_size_bytes().unwrap();
    assert_eq!(size, expected_size);

    let gain = demixing_matrix_gain(&layout);
    assert_eq!(gain, layout.demixing.gain_db);

    let mut buffer = vec![0u8; size];
    write_demixing_matrix_subset(&layout, &mut buffer).expect("matrix");

    let decoded: Vec<i16> = buffer
        .chunks_exact(2)
        .map(|chunk| i16::from_le_bytes([chunk[0], chunk[1]]))
        .collect();

    let nb_input_streams = layout.streams + layout.coupled_streams;
    let mut expected = Vec::new();
    for input_stream in 0..nb_input_streams {
        for channel in 0..layout.channels {
            expected.push(layout.demixing.data[layout.demixing.rows * input_stream + channel]);
        }
    }

    assert_eq!(decoded, expected);
}

#[test]
fn demixing_matrix_rejects_mismatched_buffer_size() {
    let tables = Tables::new();
    let matrices = tables.matrices();
    let layout = projection_layout(4, 3, &matrices).expect("layout");
    let size = layout.demixing_subset_size_bytes().unwrap();
    let mut buffer = vec![0u8; size - 1];

    let err = write_demixing_matrix_subset(&layout, &mut buffer).unwrap_err();
    assert_eq!(err, ProjectionError::BadArgument);
}

#[test]
fn projection_encoder_and_decoder_round_trip_silence() {
    let tables = Tables::new();
    let matrices = tables.matrices();
    let (mut encoder, streams, coupled) =
        opus_projection_ambisonics_encoder_create(48_000, 4, 3, 2048, &matrices)
            .expect("encoder");
    assert_eq!(streams, 2);
    assert_eq!(coupled, 2);

    let mut matrix_size = 0usize;
    opus_projection_encoder_ctl(
        &mut encoder,
        OpusProjectionEncoderCtlRequest::GetDemixingMatrixSize(&mut matrix_size),
    )
    .expect("ctl");
    assert_eq!(matrix_size, 4 * 4 * 2);

    let mut demix = vec![0u8; matrix_size];
    opus_projection_encoder_ctl(
        &mut encoder,
        OpusProjectionEncoderCtlRequest::GetDemixingMatrix(demix.as_mut_slice()),
    )
    .expect("ctl");

    let mut decoder =
        opus_projection_decoder_create(48_000, 4, streams, coupled, &demix).expect("decoder");

    let pcm_in = vec![0i16; 4 * 960];
    let mut packet = vec![0u8; 4000];
    let coded = [packet_of(vec![0x0c, 0x00]), packet_of(vec![0x0c, 0x00])];
    // Silence is mixed to silence.
    let len =
        opus_projection_encode(&mut encoder, &pcm_in, &pcm_in, 960, &mut packet, &coded)
            .expect("encode");
    assert!(len > 0);

    let mut silent = Vec::new();
    for packet_offset in [3usize, 2] {
        silent.push(StreamDecoded { decoded: Ok(960), packet_offset, samples: vec![0i16; 2 * 960], report: REPORT });
    }
    let mut pcm_out = vec![1i16; 4 * 960];
    let decoded = opus_projection_decode(&mut decoder, &packet, len, &mut pcm_out, 960, &silent)
        .expect("decode");
    assert_eq!(pcm_out, vec![0i16; 4 * 960]);
    assert_eq!(decoded, 960);

    let mapping = [0u8, 1, 2, 3];
    let mut ms_decoder =
        opus_multistream_decoder_create(48_000, 4, streams, coupled, &mapping).expect("ms");
    let mut ms_pcm = vec![0i16; 4 * 960];
    let ms_decoded =
        opus_multistream_decode(&mut ms_decoder, &packet, len, &mut ms_pcm, 960, &silent)
            .expect("ms decode");
    assert_eq!(ms_decoded, decoded);
}

/// The bytes of a matrix of two channels that swaps and halves them.
fn swap_and_halve() -> Vec<u8> {
    [0i16, 16_384, 16_384, 0].iter().flat_map(|cell| cell.to_le_bytes()).collect()
}

#[test]
fn decoded_channels_are_demixed() {
    let mut decoder = opus_projection_decoder_create(48_000, 2, 1, 1, &swap_and_halve()).unwrap();
    let packet = [0x0c, 0x00];
    let outcome = |left: i16, right: i16| StreamDecoded {
        decoded: Ok(960),
        packet_offset: 2,
        samples: [left, right].repeat(960),
        report: REPORT,
    };
    let mut pcm = vec![0i16; 1920];
    let n =
        opus_projection_decode(&mut decoder, &packet, 2, &mut pcm, 960, &[outcome(100, -301)]).unwrap();
    assert_eq!(n, 960);
    // Halves are rounded up.
    assert!(pcm.chunks(2).all(|frame| frame == [-150, 50]));

    let wide = [StreamDecoded {
        decoded: Ok(960),
        packet_offset: 2,
        samples: [8_388_607i32, -8_388_608].repeat(960),
        report: REPORT,
    }];
    let mut pcm24 = vec![0i32; 1920];
    opus_projection_decode24(&mut decoder, &packet, 2, &mut pcm24, 960, &wide).unwrap();
    assert!(pcm24.chunks(2).all(|frame| frame == [-4_194_304, 4_194_304]));
}

#[test]
fn projection_decoding_errors() {
    let mut decoder = opus_projection_decoder_create(48_000, 2, 1, 1, &swap_and_halve()).unwrap();
    let mut pcm = vec![3i16; 1919];
    let none: [StreamDecoded<i16>; 0] = [];
    assert_eq!(
        opus_projection_decode(&mut decoder, &[0x0c, 0], 2, &mut pcm, 960, &none).unwrap_err(),
        OpusProjectionDecoderError::BadArgument
    );
    assert_eq!(pcm, vec![3i16; 1919]);
    let short = opus_projection_decoder_create(48_000, 2, 1, 1, &[0; 6]).unwrap_err();
    assert_eq!(short, OpusProjectionDecoderError::BadArgument);
    let mut cleared = vec![3i16; 1921];
    assert!(opus_projection_decode_start(&decoder, &[], 0, &mut cleared, 960, 0).is_ok());
    assert_eq!(cleared[1919], 0);
    assert_eq!(cleared[1920], 3);
}

#[test]
fn streams_before_a_failed_one_are_demixed() {
    // Two mono streams, each of which goes to both channels.
    let both = [0x00, 0x40, 0x00, 0x40, 0x00, 0x40, 0x00, 0x40];
    let mut decoder = opus_projection_decoder_create(48_000, 2, 2, 0, &both).unwrap();
    let packet = [0x08, 1, 5, 0x08, 6];
    let outcomes = [
        StreamDecoded {
            decoded: Ok(960),
            packet_offset: 3,
            samples: vec![100i16; 960],
            report: REPORT,
        },
        StreamDecoded {
            decoded: Err(OpusDecodeError::InternalError),
            packet_offset: 2,
            samples: Vec::new(),
            report: REPORT,
        },
    ];
    let mut pcm = vec![7i16; 1921];
    assert_eq!(
        opus_projection_decode(&mut decoder, &packet, 5, &mut pcm, 960, &outcomes).unwrap_err(),
        OpusProjectionDecoderError::Multistream(OpusMultistreamDecoderError::DecoderDecode(
            OpusDecodeError::InternalError
        ))
    );
    assert!(pcm[..1920].iter().all(|&sample| sample == 50));
    assert_eq!(pcm[1920], 7);
    assert_eq!(decoder.ms_decoder.decoders[1].range_final, 0x55);
}
