//! Packet headers, frames and padding.

use opus_codec::packet::{
    opus_packet_get_bandwidth, opus_packet_get_mode, opus_packet_get_nb_channels,
    opus_packet_get_nb_frames, opus_packet_get_nb_samples, opus_packet_get_samples_per_frame,
    opus_packet_parse, opus_packet_parse_impl, Bandwidth, FrameDuration, Mode, PacketError,
};

#[test]
fn bandwidths_have_numbers() {
    let all = [
        (Bandwidth::Narrow, 1101),
        (Bandwidth::Medium, 1102),
        (Bandwidth::Wide, 1103),
        (Bandwidth::SuperWide, 1104),
        (Bandwidth::Full, 1105),
    ];
    for (bandwidth, number) in all {
        assert_eq!(bandwidth.to_opus_int(), number);
        assert_eq!(Bandwidth::from_opus_int(number), Some(bandwidth));
    }
    assert_eq!(Bandwidth::from_opus_int(1100), None);
    assert_eq!(Bandwidth::from_opus_int(1106), None);
}

#[test]
fn first_byte_tells_mode_bandwidth_and_channels() {
    assert_eq!(opus_packet_get_mode(&[0x00]), Ok(Mode::SILK));
    assert_eq!(opus_packet_get_mode(&[0x60]), Ok(Mode::HYBRID));
    assert_eq!(opus_packet_get_mode(&[0x80]), Ok(Mode::CELT));
    assert_eq!(opus_packet_get_bandwidth(&[0x20]), Ok(Bandwidth::Medium));
    assert_eq!(opus_packet_get_bandwidth(&[0x70]), Ok(Bandwidth::Full));
    assert_eq!(opus_packet_get_bandwidth(&[0xa0]), Ok(Bandwidth::Wide));
    assert_eq!(opus_packet_get_nb_channels(&[0x04]), Ok(2));
    assert_eq!(opus_packet_get_nb_channels(&[0xfb]), Ok(1));
}

#[test]
fn empty_packet_has_no_header() {
    assert_eq!(opus_packet_get_mode(&[]), Err(PacketError::BadArgument));
    assert_eq!(opus_packet_get_bandwidth(&[]), Err(PacketError::BadArgument));
    assert_eq!(opus_packet_get_nb_channels(&[]), Err(PacketError::BadArgument));
    assert_eq!(opus_packet_get_nb_frames(&[], 0), Err(PacketError::BadArgument));
    assert_eq!(PacketError::BadArgument.code(), -1);
    assert_eq!(PacketError::InvalidPacket.code(), -4);
}

#[test]
fn frame_durations_at_48_khz() {
    for (toc, samples) in [(0x00, 480), (0x08, 960), (0x10, 1920), (0x18, 2880)] {
        assert_eq!(opus_packet_get_samples_per_frame(&[toc], 48_000), Ok(samples));
    }
    for (toc, samples) in [(0x60, 480), (0x68, 960)] {
        assert_eq!(opus_packet_get_samples_per_frame(&[toc], 48_000), Ok(samples));
    }
    for (toc, samples) in [(0x80, 120), (0x88, 240), (0x90, 480), (0x98, 960)] {
        assert_eq!(opus_packet_get_samples_per_frame(&[toc], 48_000), Ok(samples));
    }
}

#[test]
fn frame_count_follows_the_code() {
    assert_eq!(opus_packet_get_nb_frames(&[0x00], 1), Ok(1));
    assert_eq!(opus_packet_get_nb_frames(&[0x01], 1), Ok(2));
    assert_eq!(opus_packet_get_nb_frames(&[0x02], 1), Ok(2));
    assert_eq!(opus_packet_get_nb_frames(&[0x03, 0x45], 2), Ok(5));
    assert_eq!(opus_packet_get_nb_frames(&[0x03], 1), Err(PacketError::InvalidPacket));
}

#[test]
fn no_packet_is_longer_than_120_ms() {
    assert_eq!(opus_packet_get_nb_samples(&[0x1b, 0x02], 2, 48_000), Ok(5760));
    assert_eq!(
        opus_packet_get_nb_samples(&[0x1b, 0x03], 2, 48_000),
        Err(PacketError::InvalidPacket)
    );
}

#[test]
fn single_frame_is_all_but_the_first_byte() {
    let packet = [0x08, 1, 2, 3];
    let parsed = opus_packet_parse(&packet, 4).unwrap();
    assert_eq!(parsed.toc, 0x08);
    assert_eq!(parsed.frame_count, 1);
    assert_eq!(parsed.frames[0], &[1, 2, 3]);
    assert_eq!(parsed.frame_sizes[0], 3);
    assert_eq!(parsed.payload_offset, 1);
    assert_eq!(parsed.packet_offset, 4);
    assert!(parsed.padding.is_empty());
}

#[test]
fn two_equal_frames_share_the_rest() {
    let packet = [0x09, 1, 2, 3, 4];
    let parsed = opus_packet_parse(&packet, 5).unwrap();
    assert_eq!(parsed.frame_count, 2);
    assert_eq!(parsed.frames[0], &[1, 2]);
    assert_eq!(parsed.frames[1], &[3, 4]);
    let odd = opus_packet_parse(&packet, 4);
    assert!(matches!(odd, Err(PacketError::InvalidPacket)));
}

#[test]
fn two_frames_of_their_own_sizes() {
    let packet = [0x0a, 1, 7, 8, 9];
    let parsed = opus_packet_parse(&packet, 5).unwrap();
    assert_eq!(parsed.frames[0], &[7]);
    assert_eq!(parsed.frames[1], &[8, 9]);
    assert_eq!(parsed.payload_offset, 2);
    let short = [0x0a, 4, 7, 8];
    assert!(matches!(opus_packet_parse(&short, 4), Err(PacketError::InvalidPacket)));
}

#[test]
fn size_of_two_bytes() {
    let mut packet = vec![0x0a, 252, 1];
    packet.extend(vec![5u8; 256]);
    packet.push(6);
    let parsed = opus_packet_parse(&packet, packet.len()).unwrap();
    assert_eq!(parsed.frame_sizes[0], 256);
    assert_eq!(parsed.frame_sizes[1], 1);
    assert_eq!(parsed.frames[1], &[6]);
}

#[test]
fn padding_is_set_apart() {
    // Two frames of one size, with three bytes of padding.
    let packet = [0x0b, 0x42, 3, 1, 2, 0, 0, 0];
    let parsed = opus_packet_parse(&packet, 8).unwrap();
    assert_eq!(parsed.frame_count, 2);
    assert_eq!(parsed.frames[0], &[1]);
    assert_eq!(parsed.frames[1], &[2]);
    assert_eq!(parsed.padding.len(), 3);
    assert_eq!(parsed.packet_offset, 8);
    let none = [0x0b, 0x00, 1];
    assert!(matches!(opus_packet_parse(&none, 3), Err(PacketError::InvalidPacket)));
}

#[test]
fn self_delimited_packet_ends_where_it_says() {
    let packet = [0x08, 2, 1, 2, 99, 99];
    let parsed = opus_packet_parse_impl(&packet, 6, true).unwrap();
    assert_eq!(parsed.frames[0], &[1, 2]);
    assert_eq!(parsed.packet_offset, 4);
    let cut = opus_packet_parse_impl(&packet, 3, true);
    assert!(matches!(cut, Err(PacketError::InvalidPacket)));
}

#[test]
fn durations_have_words() {
    let words = [
        (FrameDuration::Ms2_5, "2.5 ms"),
        (FrameDuration::Ms5, "5 ms"),
        (FrameDuration::Ms10, "10 ms"),
        (FrameDuration::Ms20, "20 ms"),
        (FrameDuration::Ms40, "40 ms"),
        (FrameDuration::Ms60, "60 ms"),
    ];
    for (duration, text) in words {
        assert_eq!(duration.text(), text);
    }
}
