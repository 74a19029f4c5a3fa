//! FEC codecs and interleavers.

use openham::fec::{Convolutional, FecDecoder, ParityCheck, ReedSolomon};
use openham::interleave::{
    BlockInterleaver, ConvolutionalInterleaver, HelicalInterleaver, Interleaver,
};

#[test]
fn test_reed_solomon_creation() {
    let rs = ReedSolomon::new(255, 223).unwrap();
    assert_eq!(rs.n, 255);
    assert_eq!(rs.k, 223);
    assert_eq!(rs.t, 16);
}

#[test]
fn test_reed_solomon_block_round_trip() {
    let mut rs = ReedSolomon::new(255, 223).unwrap();
    let data: Vec<u8> = (0u8..100).collect();
    let encoded = rs.encode(&data).unwrap();
    assert_eq!(encoded.len(), 255);
    let decoded = rs.decode(&encoded).unwrap();
    assert_eq!(&decoded[..100], &data[..]);
    assert!(rs.can_correct(&encoded));
    assert!(!rs.can_correct(&encoded[..100]));
}

#[test]
fn test_reed_solomon_rejects_bad_params() {
    assert!(ReedSolomon::new(100, 100).is_err());
    assert!(ReedSolomon::new(300, 200).is_err());
    assert!(ReedSolomon::rs_255_239().is_ok());
}

#[test]
fn test_convolutional_creation() {
    let conv = Convolutional::nasa_standard().unwrap();
    assert_eq!(conv.constraint_length, 7);
    assert_eq!(conv.code_rate, (1, 2));
}

#[test]
fn test_convolutional_encode_length() {
    let mut conv = Convolutional::rate_1_3_k7().unwrap();
    let encoded = conv.encode(&[0xA5, 0x3C]).unwrap();
    // One output byte per input bit, plus the register flush.
    assert_eq!(encoded.len(), 16 + 6);
}

#[test]
fn test_parity_check() {
    let mut parity = ParityCheck::new(true);
    let data = b"Hello";

    let encoded = parity.encode(data).unwrap();
    assert_eq!(encoded.len(), data.len() + 1);

    let decoded = parity.decode(&encoded).unwrap();
    assert_eq!(decoded, data);
}

#[test]
fn test_parity_check_error_detection() {
    let mut parity = ParityCheck::new(true);
    let data = b"Hello";

    let mut encoded = parity.encode(data).unwrap();
    encoded[0] ^= 0x01;

    let result = parity.decode(&encoded);
    assert!(result.is_err());
}

#[test]
fn test_block_interleaver_creation() {
    let interleaver = BlockInterleaver::new(4, 8).unwrap();
    assert_eq!(interleaver.rows, 4);
    assert_eq!(interleaver.cols, 8);
    assert_eq!(interleaver.block_size(), 32);
}

#[test]
fn test_block_interleaver_roundtrip() {
    let mut interleaver = BlockInterleaver::new(2, 4).unwrap();
    let data = vec![0, 1, 2, 3, 4, 5, 6, 7];

    let interleaved = interleaver.interleave(&data).unwrap();
    let deinterleaved = interleaver.deinterleave(&interleaved).unwrap();

    assert_eq!(data, deinterleaved);
}

#[test]
fn test_block_interleaver_pattern() {
    let mut interleaver = BlockInterleaver::new(2, 2).unwrap();
    let data = vec![0, 1, 2, 3];

    let interleaved = interleaver.interleave(&data).unwrap();
    assert_eq!(interleaved, vec![0, 2, 1, 3]);
}

#[test]
fn test_block_interleaver_rejects_partial_block() {
    let mut interleaver = BlockInterleaver::new(2, 4).unwrap();
    assert!(interleaver.interleave(&[1, 2, 3]).is_err());
}

#[test]
fn test_convolutional_interleaver_creation() {
    let interleaver = ConvolutionalInterleaver::new(4, 2).unwrap();
    assert_eq!(interleaver.branches, 4);
    assert_eq!(interleaver.depth, 2);
    assert_eq!(interleaver.memory_size(), 0 + 2 + 4 + 6);
}

#[test]
fn test_convolutional_interleaver_delays_head() {
    let mut interleaver = ConvolutionalInterleaver::new(2, 1).unwrap();
    // Branch 0 passes through; branch 1 delays by one byte.
    let out = interleaver.interleave(&[10, 20, 30, 40]).unwrap();
    assert_eq!(out, vec![10, 0, 30, 20]);
}

#[test]
fn test_helical_interleaver_creation() {
    let interleaver = HelicalInterleaver::new(3, 4).unwrap();
    assert_eq!(interleaver.rows, 3);
    assert_eq!(interleaver.cols, 4);
}

#[test]
fn test_helical_interleaver_identity_when_aligned() {
    // Write and read positions coincide, so each byte reads back out.
    let mut interleaver = HelicalInterleaver::new(2, 2).unwrap();
    let out = interleaver.interleave(&[5, 6, 7]).unwrap();
    assert_eq!(out, vec![5, 6, 7]);
}

#[test]
fn test_invalid_dimensions() {
    assert!(BlockInterleaver::new(0, 4).is_err());
    assert!(ConvolutionalInterleaver::new(0, 2).is_err());
    assert!(HelicalInterleaver::new(3, 0).is_err());
}

#[test]
fn test_interleaver_reset_restores_zeros() {
    let mut il = ConvolutionalInterleaver::new(3, 1).unwrap();
    il.interleave(&[1, 2, 3, 4, 5, 6]).unwrap();
    il.reset();
    assert_eq!(il.input_index, 0);
    let out = il.interleave(&[9, 9, 9]).unwrap();
    assert_eq!(out, vec![9, 0, 0]);
}
