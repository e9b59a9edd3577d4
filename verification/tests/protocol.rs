use audio_capture::protocol::{
    parse_audio_payload, parse_header, read_message, AudioMessage, ByteReader, IoFailure,
    ProtocolError, TapMessage, HEADER_LEN, MAGIC, MAX_PAYLOAD_LEN, VERSION,
};

// A small encoder written straight from the protocol description, independent
// of the decoder under test.
fn encode(msg_type: u8, payload: &[u8]) -> Vec<u8> {
    let mut out = Vec::new();
    out.extend_from_slice(&MAGIC);
    out.push(VERSION);
    out.push(msg_type);
    out.extend_from_slice(&[0, 0]); // flags
    out.extend_from_slice(&(payload.len() as u32).to_le_bytes());
    out.extend_from_slice(payload);
    out
}

fn encode_audio_payload(timestamp_ns: u64, sample_rate: u32, channels: u8, samples: &[f32]) -> Vec<u8> {
    let frame_count = (samples.len() / channels as usize) as u32;
    let mut payload = Vec::new();
    payload.extend_from_slice(&timestamp_ns.to_le_bytes());
    payload.extend_from_slice(&sample_rate.to_le_bytes());
    payload.push(channels);
    payload.push(0); // format = interleaved f32 LE
    payload.extend_from_slice(&frame_count.to_le_bytes());
    for sample in samples {
        payload.extend_from_slice(&sample.to_le_bytes());
    }
    payload
}

fn as_f32(audio: &AudioMessage) -> Vec<f32> {
    audio.samples.iter().map(|b| f32::from_bits(*b)).collect()
}

#[test]
fn decodes_an_audio_message() {
    let samples = [0.1f32, -0.2, 0.3, -0.4]; // 4 frames, mono
    let payload = encode_audio_payload(123_456_789, 48_000, 1, &samples);
    let bytes = encode(0, &payload);

    let mut cursor = ByteReader::new(bytes);
    let msg = read_message(&mut cursor).unwrap().expect("expected a message");
    match msg {
        TapMessage::Audio(audio) => {
            assert_eq!(audio.timestamp_ns, 123_456_789);
            assert_eq!(audio.sample_rate, 48_000);
            assert_eq!(audio.channels, 1);
            assert_eq!(audio.frame_count, 4);
            assert_eq!(as_f32(&audio), samples);
        }
        other => panic!("expected Audio, got {other:?}"),
    }

    // Stream ends cleanly right after the one message.
    assert!(read_message(&mut cursor).unwrap().is_none());
}

#[test]
fn decodes_a_status_event() {
    let payload = br#"{"level":"error","code":"tap_create_failed","message":"boom"}"#;
    let bytes = encode(1, payload);
    let mut cursor = ByteReader::new(bytes);

    match read_message(&mut cursor).unwrap().expect("expected a message") {
        TapMessage::StatusEvent(event) => {
            assert_eq!(event.level, "error");
            assert_eq!(event.code, "tap_create_failed");
            assert_eq!(event.message, "boom");
        }
        other => panic!("expected StatusEvent, got {other:?}"),
    }
}

#[test]
fn decodes_a_heartbeat() {
    let bytes = encode(2, &[]);
    let mut cursor = ByteReader::new(bytes);
    assert!(matches!(
        read_message(&mut cursor).unwrap().expect("expected a message"),
        TapMessage::Heartbeat
    ));
}

#[test]
fn rejects_bad_magic() {
    let mut bytes = encode(2, &[]);
    bytes[0] = b'X'; // corrupt the magic
    let mut cursor = ByteReader::new(bytes);
    assert!(matches!(read_message(&mut cursor), Err(ProtocolError::BadMagic)));
}

#[test]
fn rejects_sample_data_length_mismatch() {
    // Claim 4 frames but only supply enough bytes for 2.
    let mut payload = encode_audio_payload(0, 48_000, 1, &[0.1, 0.2]);
    payload[14..18].copy_from_slice(&4u32.to_le_bytes()); // lie about frame_count
    let bytes = encode(0, &payload);
    let mut cursor = ByteReader::new(bytes);
    assert!(matches!(
        read_message(&mut cursor),
        Err(ProtocolError::SampleDataLengthMismatch { .. })
    ));
}

#[test]
fn clean_eof_between_messages_returns_none() {
    let mut cursor = ByteReader::new(Vec::<u8>::new());
    assert!(read_message(&mut cursor).unwrap().is_none());
}

#[test]
fn truncated_header_is_an_error_not_a_clean_eof() {
    let bytes = encode(2, &[]);
    let mut cursor = ByteReader::new(bytes[..6].to_vec()); // cut off mid-header
    assert!(read_message(&mut cursor).is_err());
}

// ---------------------------------------------------------------------------

#[test]
fn mismatch_reports_expected_and_actual_byte_counts() {
    let mut payload = encode_audio_payload(0, 48_000, 1, &[0.1, 0.2]);
    payload[14..18].copy_from_slice(&4u32.to_le_bytes());
    assert_eq!(
        parse_audio_payload(&payload),
        Err(ProtocolError::SampleDataLengthMismatch { expected: 16, actual: 8 })
    );
}

#[test]
fn rejects_unsupported_version_and_unknown_type() {
    let mut bytes = encode(2, &[]);
    bytes[4] = 2;
    assert_eq!(parse_header(&bytes[..HEADER_LEN]), Err(ProtocolError::UnsupportedVersion(2)));

    let bytes = encode(7, &[1, 2, 3]);
    let mut cursor = ByteReader::new(bytes);
    assert_eq!(read_message(&mut cursor), Err(ProtocolError::UnknownType(7)));
    // The payload of the unknown message was consumed with its header.
    assert_eq!(cursor.pos(), HEADER_LEN + 3);
}

#[test]
fn header_reports_type_and_payload_length() {
    let bytes = encode(1, &[9; 300]);
    assert_eq!(parse_header(&bytes[..HEADER_LEN]), Ok((1, 300)));
}

#[test]
fn rejects_short_and_non_f32_audio_payloads() {
    assert_eq!(
        parse_audio_payload(&[0u8; 17]),
        Err(ProtocolError::TruncatedAudioHeader { actual: 17 })
    );
    let mut payload = encode_audio_payload(5, 16_000, 2, &[0.5, 0.5]);
    payload[13] = 1;
    assert_eq!(parse_audio_payload(&payload), Err(ProtocolError::UnsupportedFormat(1)));
}

#[test]
fn truncated_payload_is_an_unexpected_eof() {
    let payload = encode_audio_payload(0, 48_000, 1, &[0.1, 0.2]);
    let bytes = encode(0, &payload);
    let cut = bytes.len() - 3;
    let mut cursor = ByteReader::new(bytes[..cut].to_vec());
    assert_eq!(read_message(&mut cursor), Err(ProtocolError::Io(IoFailure::UnexpectedEof)));
    assert_eq!(cursor.pos(), cut);
}

#[test]
fn consecutive_messages_are_read_in_order() {
    let mut bytes = encode(2, &[]);
    bytes.extend(encode(0, &encode_audio_payload(7, 44_100, 2, &[1.0, -1.0, 0.25, -0.25])));
    bytes.extend(encode(1, br#"{"level":"info","code":"started","message":"ok","extra":1}"#));
    let mut cursor = ByteReader::new(bytes);
    assert!(matches!(read_message(&mut cursor), Ok(Some(TapMessage::Heartbeat))));
    match read_message(&mut cursor) {
        Ok(Some(TapMessage::Audio(a))) => {
            assert_eq!(a.timestamp_ns, 7);
            assert_eq!(a.sample_rate, 44_100);
            assert_eq!(a.channels, 2);
            assert_eq!(a.frame_count, 2);
            assert_eq!(as_f32(&a), vec![1.0, -1.0, 0.25, -0.25]);
        }
        other => panic!("expected Audio, got {other:?}"),
    }
    match read_message(&mut cursor) {
        Ok(Some(TapMessage::StatusEvent(e))) => {
            assert_eq!(e.level, "info");
            assert_eq!(e.code, "started");
            assert_eq!(e.message, "ok");
        }
        other => panic!("expected StatusEvent, got {other:?}"),
    }
    assert_eq!(read_message(&mut cursor), Ok(None));
}

#[test]
fn malformed_status_json_is_reported() {
    let bytes = encode(1, b"{not json");
    let mut cursor = ByteReader::new(bytes);
    assert!(matches!(read_message(&mut cursor), Err(ProtocolError::MalformedStatusEvent(_))));

    let bytes = encode(1, br#"{"level":"error","code":"x"}"#);
    let mut cursor = ByteReader::new(bytes);
    assert!(matches!(read_message(&mut cursor), Err(ProtocolError::MalformedStatusEvent(_))));
}

#[test]
fn implausible_payload_lengths_are_fatal_before_the_payload() {
    // A heartbeat declaring 0xFFFFFFFF payload bytes is a corrupted header.
    let mut bytes = encode(2, &[]);
    bytes[8..12].copy_from_slice(&u32::MAX.to_le_bytes());
    assert_eq!(
        parse_header(&bytes[..HEADER_LEN]),
        Err(ProtocolError::ImplausiblePayloadLength { msg_type: 2, len: u32::MAX })
    );
    bytes.extend(vec![0u8; 64]);
    let mut cursor = ByteReader::new(bytes);
    assert_eq!(
        read_message(&mut cursor),
        Err(ProtocolError::ImplausiblePayloadLength { msg_type: 2, len: u32::MAX })
    );
    assert_eq!(cursor.pos(), HEADER_LEN);

    // A non-empty heartbeat is rejected too.
    let bytes = encode(2, &[1]);
    assert_eq!(
        parse_header(&bytes[..HEADER_LEN]),
        Err(ProtocolError::ImplausiblePayloadLength { msg_type: 2, len: 1 })
    );

    // Audio and status payloads may be as long as the limit, not longer.
    let mut bytes = encode(0, &[]);
    bytes[8..12].copy_from_slice(&MAX_PAYLOAD_LEN.to_le_bytes());
    assert_eq!(parse_header(&bytes[..HEADER_LEN]), Ok((0, MAX_PAYLOAD_LEN)));
    bytes[8..12].copy_from_slice(&(MAX_PAYLOAD_LEN + 1).to_le_bytes());
    assert_eq!(
        parse_header(&bytes[..HEADER_LEN]),
        Err(ProtocolError::ImplausiblePayloadLength { msg_type: 0, len: MAX_PAYLOAD_LEN + 1 })
    );
}
