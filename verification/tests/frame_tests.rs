//! Frame, header, and builder behaviour, including the checksum law on
//! concrete corrupted bytes.

use openham::frame::{Frame, FrameBuilder, FrameHeader};
use openham::frame_flags;
use openham::frame_types;

#[test]
fn test_header_creation_and_validation() {
    let header = FrameHeader::new(frame_types::DATA, 123, 456, frame_flags::NONE);
    assert_eq!(header.frame_type, frame_types::DATA);
    assert_eq!(header.sequence, 123);
    assert_eq!(header.payload_length, 456);
    assert_eq!(header.flags, frame_flags::NONE);
    assert!(header.validate_checksum());
}

#[test]
fn test_header_serialization() {
    let header = FrameHeader::new(frame_types::DATA, 123, 456, frame_flags::NONE);
    let bytes = header.to_bytes();
    assert_eq!(bytes.len(), 8);

    let recovered = FrameHeader::from_bytes(&bytes).unwrap();
    assert_eq!(header.frame_type, recovered.frame_type);
    assert_eq!(header.sequence, recovered.sequence);
    assert_eq!(header.payload_length, recovered.payload_length);
    assert_eq!(header.flags, recovered.flags);
    assert_eq!(header.checksum, recovered.checksum);
}

#[test]
fn test_frame_creation_and_serialization() {
    let payload = b"Hello, World!".to_vec();
    let frame = Frame::new(frame_types::DATA, 42, payload.clone(), frame_flags::NONE);

    assert_eq!(frame.header.frame_type, frame_types::DATA);
    assert_eq!(frame.header.sequence, 42);
    assert_eq!(frame.header.payload_length, payload.len() as u16);
    assert_eq!(frame.payload, payload);

    let bytes = frame.to_bytes();
    let recovered = Frame::from_bytes(&bytes).unwrap();

    assert_eq!(frame.header.frame_type, recovered.header.frame_type);
    assert_eq!(frame.header.sequence, recovered.header.sequence);
    assert_eq!(frame.payload, recovered.payload);
}

#[test]
fn test_frame_builder() {
    let payload = b"Test payload".to_vec();
    let frame = FrameBuilder::new(frame_types::CONTROL)
        .sequence(100)
        .flags(frame_flags::PRIORITY)
        .build(payload.clone());

    assert_eq!(frame.header.frame_type, frame_types::CONTROL);
    assert_eq!(frame.header.sequence, 100);
    assert_eq!(frame.header.flags, frame_flags::PRIORITY);
    assert_eq!(frame.payload, payload);
}

#[test]
fn test_frame_total_size() {
    let frame = Frame::new(frame_types::DATA, 7, vec![1, 2, 3], 0);
    assert_eq!(frame.total_size(), 11);
}

#[test]
fn test_empty_payload_round_trip() {
    let frame = Frame::new(frame_types::KEEPALIVE, 9, Vec::new(), 0);
    let bytes = frame.to_bytes();
    let recovered = Frame::from_bytes(&bytes).unwrap();
    assert_eq!(recovered.header.frame_type, frame_types::KEEPALIVE);
    assert_eq!(recovered.header.sequence, 9);
    assert!(recovered.payload.is_empty());
}

#[test]
fn test_checksum_rejects_every_single_bit_flip() {
    let frame = Frame::new(frame_types::DATA, 0x1234, b"corruptme".to_vec(), 0x05);
    let bytes = frame.to_bytes();
    for bit in 0..48 {
        let mut corrupted = bytes.clone();
        corrupted[bit / 8] ^= 1 << (bit % 8);
        let parsed = FrameHeader::from_bytes(&corrupted);
        assert!(parsed.is_err(), "bit flip {} must be rejected", bit);
    }
}

#[test]
fn test_frame_from_short_buffer() {
    assert!(Frame::from_bytes(&[1, 2, 3]).is_err());
    let header = FrameHeader::new(frame_types::DATA, 1, 100, 0);
    let bytes = header.to_bytes();
    // Header is valid but the declared payload is missing.
    assert!(Frame::from_bytes(&bytes).is_err());
}

#[test]
fn test_frame_ignores_trailing_bytes() {
    let frame = Frame::new(frame_types::DATA, 3, vec![9, 8, 7], 0);
    let mut bytes = frame.to_bytes();
    bytes.extend_from_slice(&[0xDE, 0xAD]);
    let recovered = Frame::from_bytes(&bytes).unwrap();
    assert_eq!(recovered.payload, vec![9, 8, 7]);
}

#[test]
fn lib_it_works() {
    let result = 2 + 2;
    assert_eq!(result, 4);
}
