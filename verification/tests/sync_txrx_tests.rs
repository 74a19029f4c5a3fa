//! Sync preamble recovery across alignments, and the byte-level TX/RX
//! coordinator pipeline.

use openham::frame::Frame;
use openham::sync::{extract_frame_data_any_alignment, find_pattern, sync_pattern};
use openham::text::HuffmanCodec;
use openham::txrx::{build_data_transmission, decode_payload, recover_message, TextCodecType};

fn tx_stream(payload: &[u8]) -> Vec<u8> {
    let frame = Frame::new(1, 0, payload.to_vec(), 0);
    let mut stream = sync_pattern();
    stream.extend_from_slice(&frame.to_bytes());
    stream
}

#[test]
fn test_sync_pattern_layout() {
    assert_eq!(sync_pattern(), vec![0x55, 0x55, 0x55, 0x55, 0xAA, 0xAA, 0x7E, 0x7E]);
}

#[test]
fn test_extract_aligned_stream() {
    let stream = tx_stream(b"PAYLOAD");
    let after = extract_frame_data_any_alignment(&stream).unwrap();
    assert_eq!(after, stream[8..].to_vec());
}

#[test]
fn test_extract_inverted_stream() {
    let stream = tx_stream(b"PAYLOAD");
    let inverted: Vec<u8> = stream.iter().map(|b| !b).collect();
    let after = extract_frame_data_any_alignment(&inverted).unwrap();
    // The inverted preamble is found; the bytes after it stay inverted.
    assert_eq!(after, inverted[8..].to_vec());
}

#[test]
fn test_extract_bit_shifted_stream() {
    let stream = tx_stream(b"SHIFTED");
    // Shift the whole bit stream right by three bits.
    let mut bits: Vec<u8> = Vec::new();
    for _ in 0..3 {
        bits.push(0);
    }
    for &b in &stream {
        for k in (0..8).rev() {
            bits.push((b >> k) & 1);
        }
    }
    while bits.len() % 8 != 0 {
        bits.push(0);
    }
    let shifted: Vec<u8> = bits
        .chunks(8)
        .map(|c| c.iter().enumerate().fold(0u8, |a, (i, &x)| a | (x << (7 - i))))
        .collect();
    let after = extract_frame_data_any_alignment(&shifted).unwrap();
    assert_eq!(&after[..stream.len() - 8], &stream[8..]);
}

#[test]
fn test_extract_reversed_bit_order() {
    let stream = tx_stream(b"MIRROR");
    let reversed: Vec<u8> = stream.iter().map(|b| b.reverse_bits()).collect();
    // The flag pair reads the same in either bit order, so the search
    // still locks on and hands back the bytes after it.
    let after = extract_frame_data_any_alignment(&reversed).unwrap();
    assert_eq!(after, reversed[8..].to_vec());
}

#[test]
fn test_extract_finds_nothing_in_noise() {
    assert!(extract_frame_data_any_alignment(&[0x12, 0x34, 0x56, 0x78]).is_none());
}

#[test]
fn test_find_pattern_earliest() {
    let hay = [0, 7, 7, 0, 7, 7, 0];
    assert_eq!(find_pattern(&hay, &[7, 7], 0), Some(1));
    assert_eq!(find_pattern(&hay, &[7, 7], 2), Some(4));
    assert_eq!(find_pattern(&hay, &[9], 0), None);
}

#[test]
fn test_tx_rx_loopback_huffman() {
    let mut codec = HuffmanCodec::new_english();
    let text = "CQ CQ DE N0CALL K";
    let stream = build_data_transmission(&mut codec, text, &TextCodecType::Huffman).unwrap();
    let message = recover_message(&mut codec, &stream, &Some(TextCodecType::Huffman)).unwrap();
    assert_eq!(message, text);
}

#[test]
fn test_tx_rx_loopback_ascii() {
    let mut codec = HuffmanCodec::new_english();
    let text = "Hello OpenHam";
    let stream = build_data_transmission(&mut codec, text, &TextCodecType::Ascii).unwrap();
    let message = recover_message(&mut codec, &stream, &Some(TextCodecType::Ascii)).unwrap();
    assert_eq!(message, text);
}

#[test]
fn test_tx_rx_loopback_inverted_polarity() {
    let mut codec = HuffmanCodec::new_english();
    let text = "POLARITY";
    let stream = build_data_transmission(&mut codec, text, &TextCodecType::Ascii).unwrap();
    let inverted: Vec<u8> = stream.iter().map(|b| !b).collect();
    let message = recover_message(&mut codec, &inverted, &Some(TextCodecType::Ascii)).unwrap();
    assert_eq!(message, text);
}

#[test]
fn test_decode_payload_hex_fallback() {
    let mut codec = HuffmanCodec::new_english();
    // A container whose only content is an escape holding an invalid
    // UTF-8 byte, and raw bytes that are not valid UTF-8 either.
    let data = [0x00u8, 0x1E, 0xFF, 0xFF, 0xF3, 0xFC];
    let text = decode_payload(&mut codec, &data, &None);
    assert_eq!(text, "HEX:001efffff3fc");
}

#[test]
fn test_recover_message_none_on_garbage() {
    let mut codec = HuffmanCodec::new_english();
    assert!(recover_message(&mut codec, &[1, 2, 3, 4], &None).is_none());
}
