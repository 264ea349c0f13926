use gbe::frame::DataFrame;
use gbe::protocol::ProtocolError;

#[test]
fn test_data_frame_wire_format() {
    let frame = DataFrame::new(42, b"hello world".to_vec());

    // Test to_bytes and from_bytes
    let bytes = frame.to_bytes();
    let parsed = DataFrame::from_bytes(&bytes).unwrap();

    assert_eq!(parsed.seq, 42);
    assert_eq!(parsed.payload, b"hello world");
    assert_eq!(parsed, frame);
}

#[test]
fn test_data_frame_wire_format_structure() {
    let payload = b"test";
    let frame = DataFrame::new(100, payload.to_vec());

    let bytes = frame.to_bytes();

    // Verify wire format: [u32: length][u64: seq][bytes: payload]
    assert_eq!(bytes.len(), 4 + 8 + 4); // header + payload

    // Check length field (u32 big-endian)
    let len = u32::from_be_bytes([bytes[0], bytes[1], bytes[2], bytes[3]]);
    assert_eq!(len, 4);

    // Check sequence field (u64 big-endian)
    let seq = u64::from_be_bytes([
        bytes[4], bytes[5], bytes[6], bytes[7], bytes[8], bytes[9], bytes[10], bytes[11],
    ]);
    assert_eq!(seq, 100);

    // Check payload
    assert_eq!(&bytes[12..], b"test");
}

#[test]
fn test_data_frame_empty_payload() {
    let frame = DataFrame::new(0, vec![]);

    let bytes = frame.to_bytes();
    let parsed = DataFrame::from_bytes(&bytes).unwrap();

    assert_eq!(parsed.seq, 0);
    assert_eq!(parsed.payload.len(), 0);
    assert_eq!(parsed, frame);
}

#[test]
fn test_data_frame_large_payload() {
    let payload = vec![0xAB; 10000];
    let frame = DataFrame::new(999, payload.clone());

    let bytes = frame.to_bytes();
    let parsed = DataFrame::from_bytes(&bytes).unwrap();

    assert_eq!(parsed.seq, 999);
    assert_eq!(parsed.payload, payload);
}

#[test]
fn test_data_frame_invalid_short() {
    let bytes = vec![0u8; 5]; // Too short
    let result = DataFrame::from_bytes(&bytes);

    assert!(result.is_err());
    match result {
        Err(ProtocolError::InvalidFrame(msg)) => {
            assert!(msg.contains("too short"));
        }
        _ => panic!("Expected InvalidFrame error"),
    }
}

#[test]
fn test_data_frame_invalid_length_mismatch() {
    let mut bytes = vec![0u8; 12];

    // Set length to 100 but don't provide payload
    bytes[0..4].copy_from_slice(&100u32.to_be_bytes());

    let result = DataFrame::from_bytes(&bytes);
    assert!(result.is_err());
}

#[test]
fn test_data_frame_read_write() {
    let frame = DataFrame::new(42, b"test data".to_vec());

    // Write to buffer
    let mut buffer = Vec::new();
    frame.write_to(&mut buffer);

    // Read from buffer
    let mut pos = 0usize;
    let parsed = DataFrame::read_from(&buffer, &mut pos).unwrap();

    assert_eq!(parsed, frame);
    assert_eq!(pos, buffer.len());
}

#[test]
fn test_frame_stream_round_trip() {
    // Several frames written back to back read out in the same order.
    let frames = vec![
        DataFrame::new(0, b"alpha".to_vec()),
        DataFrame::new(1, Vec::new()),
        DataFrame::new(2, b"gamma\n".to_vec()),
    ];
    let mut buffer = Vec::new();
    for f in &frames {
        f.write_to(&mut buffer);
    }
    let mut pos = 0usize;
    let mut read_back = Vec::new();
    while pos < buffer.len() {
        read_back.push(DataFrame::read_from(&buffer, &mut pos).unwrap());
    }
    assert_eq!(read_back, frames);
}

#[test]
fn test_frame_read_end_of_stream() {
    let buffer: Vec<u8> = Vec::new();
    let mut pos = 0usize;
    match DataFrame::read_from(&buffer, &mut pos) {
        Err(ProtocolError::Io(msg)) => assert!(msg.contains("end of stream")),
        other => panic!("expected end-of-stream error, got {:?}", other),
    }
}

#[test]
fn test_frame_read_partial_header() {
    let buffer = vec![0u8; 7];
    let mut pos = 0usize;
    match DataFrame::read_from(&buffer, &mut pos) {
        Err(ProtocolError::InvalidFrame(msg)) => assert!(msg.contains("partial")),
        other => panic!("expected partial-frame error, got {:?}", other),
    }
    assert_eq!(pos, 0);
}

#[test]
fn test_frame_exact_wire_bytes() {
    // Encoding (seq=100, payload=b"test") yields exactly these 16 bytes.
    let frame = DataFrame::new(100, b"test".to_vec());
    let bytes = frame.to_bytes();
    assert_eq!(
        bytes,
        vec![
            0x00, 0x00, 0x00, 0x04, 0x00, 0x00, 0x00, 0x00, 0x00, 0x00, 0x00, 0x64, 0x74, 0x65,
            0x73, 0x74
        ]
    );
}
