use android_hub_core::protocol::{
    frame_length, read_frame, read_header, u32_from_be_bytes, u32_to_be_bytes, write_header,
    AudioFormat, ProtocolError, HEADER_LEN, MAGIC, MAX_FRAME_BYTES,
};

#[test]
fn round_trip_header() {
    let mut bytes = Vec::new();
    write_header(&mut bytes, AudioFormat::pcm_48k_mono());
    assert_eq!(
        read_header(bytes.as_slice()).unwrap(),
        AudioFormat::pcm_48k_mono()
    );
}

#[test]
fn rejects_huge_frame() {
    assert!(read_frame([0xff, 0xff, 0xff, 0xff].as_slice()).is_err());
}

#[test]
fn header_bytes_are_exact() {
    let mut bytes = vec![7u8];
    write_header(&mut bytes, AudioFormat::pcm_48k_mono());
    assert_eq!(
        bytes,
        vec![7, b'A', b'H', b'U', b'B', 1, 1, 1, 0, 0x00, 0x00, 0xBB, 0x80]
    );
    assert_eq!(bytes.len(), 1 + HEADER_LEN);
    assert_eq!(MAGIC, *b"AHUB");
}

#[test]
fn header_round_trips_for_every_supported_rate() {
    for rate in [8_000u32, 16_000, 22_050, 44_100, 48_000] {
        let format = AudioFormat { sample_rate: rate, channels: 1, codec: 1 };
        let mut bytes = Vec::new();
        write_header(&mut bytes, format);
        bytes.extend_from_slice(&[9, 9, 9]);
        assert_eq!(read_header(&bytes), Ok(format));
    }
}

#[test]
fn header_reserved_byte_is_ignored() {
    let mut bytes = Vec::new();
    write_header(&mut bytes, AudioFormat::pcm_48k_mono());
    bytes[7] = 0xEE;
    assert_eq!(read_header(&bytes), Ok(AudioFormat::pcm_48k_mono()));
}

#[test]
fn short_header_is_unexpected_eof() {
    let mut bytes = Vec::new();
    write_header(&mut bytes, AudioFormat::pcm_48k_mono());
    bytes.pop();
    assert_eq!(read_header(&bytes), Err(ProtocolError::UnexpectedEof));
    assert_eq!(read_header(&[]), Err(ProtocolError::UnexpectedEof));
}

#[test]
fn foreign_header_is_unsupported() {
    let good = {
        let mut b = Vec::new();
        write_header(&mut b, AudioFormat::pcm_48k_mono());
        b
    };
    for index in [0usize, 3, 4, 5, 6] {
        let mut bad = good.clone();
        bad[index] = bad[index].wrapping_add(1);
        assert_eq!(read_header(&bad), Err(ProtocolError::UnsupportedStream));
    }
    let stereo = AudioFormat { sample_rate: 48_000, channels: 2, codec: 1 };
    let mut b = Vec::new();
    write_header(&mut b, stereo);
    assert_eq!(read_header(&b), Err(ProtocolError::UnsupportedStream));
    assert_eq!(
        ProtocolError::UnsupportedStream.message(),
        "unsupported Android Hub audio stream"
    );
}

#[test]
fn out_of_range_sample_rate_is_invalid() {
    for rate in [0u32, 7_999, 48_001, u32::MAX] {
        let mut b = Vec::new();
        write_header(&mut b, AudioFormat { sample_rate: rate, channels: 1, codec: 1 });
        assert_eq!(read_header(&b), Err(ProtocolError::InvalidSampleRate));
    }
    assert_eq!(ProtocolError::InvalidSampleRate.message(), "invalid sample rate");
}

#[test]
fn big_endian_helpers_match_std() {
    for v in [0u32, 1, 0x0102_0304, 48_000, u32::MAX] {
        assert_eq!(u32_to_be_bytes(v), v.to_be_bytes());
        let b = v.to_be_bytes();
        assert_eq!(u32_from_be_bytes(b[0], b[1], b[2], b[3]), v);
    }
}

#[test]
fn frame_lengths_are_checked() {
    assert_eq!(frame_length([0, 0, 0, 2]), Ok(2));
    assert_eq!(frame_length([0, 0, 0x40, 0]), Ok(MAX_FRAME_BYTES));
    assert_eq!(frame_length([0, 0, 0, 0]), Err(ProtocolError::InvalidFrameLength));
    assert_eq!(frame_length([0, 0, 0, 3]), Err(ProtocolError::InvalidFrameLength));
    assert_eq!(frame_length([0, 0, 0x40, 2]), Err(ProtocolError::InvalidFrameLength));
    assert_eq!(
        ProtocolError::InvalidFrameLength.message(),
        "invalid audio frame length"
    );
}

#[test]
fn frame_round_trips_and_leaves_the_rest() {
    let payload: Vec<u8> = (0..10u8).collect();
    let mut input = (payload.len() as u32).to_be_bytes().to_vec();
    input.extend_from_slice(&payload);
    input.extend_from_slice(&[0xAA, 0xBB]);
    assert_eq!(read_frame(&input), Ok(payload));
}

#[test]
fn truncated_frame_is_unexpected_eof() {
    assert_eq!(read_frame(&[0, 0, 0]), Err(ProtocolError::UnexpectedEof));
    assert_eq!(read_frame(&[0, 0, 0, 4, 1, 2, 3]), Err(ProtocolError::UnexpectedEof));
    assert_eq!(
        ProtocolError::UnexpectedEof.message(),
        "failed to fill whole buffer"
    );
}
