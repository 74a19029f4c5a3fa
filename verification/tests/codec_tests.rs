//! Text codec behaviour: Huffman round trips with tokens, escapes and
//! the container header, the plain codec, and the registry.

use openham::registry::{CodecInfo, CodecRegistry, CodecType};
use openham::text::{AsciiCodec, HuffmanCodec};

#[test]
fn test_huffman_codec() {
    let mut codec = HuffmanCodec::new_english();
    let text = "HELLO";

    let encoded = codec.encode(text).unwrap();
    let decoded = codec.decode(&encoded).unwrap();

    assert_eq!(text, decoded);
}

#[test]
fn test_huffman_no_trailing_space() {
    let mut codec = HuffmanCodec::new_english();
    let text = "HELLO";
    let encoded = codec.encode(text).unwrap();
    let decoded = codec.decode(&encoded).unwrap();
    assert_eq!(decoded, text);
}

#[test]
fn test_huffman_no_false_token_inside_words() {
    let mut codec = HuffmanCodec::new_english();
    let text = "from smoky cqsly ombudsman qrzv";
    let encoded = codec.encode(text).unwrap();
    let decoded = codec.decode(&encoded).unwrap();
    assert_eq!(decoded, text);
}

#[test]
fn test_huffman_unicode_fallback() {
    let mut codec = HuffmanCodec::new_english();
    let text = "HELLO \u{160}\u{10C}\u{106}\u{17D}";
    let encoded = codec.encode(text).unwrap();
    let decoded = codec.decode(&encoded).unwrap();
    assert_eq!(decoded, text);
}

#[test]
fn test_huffman_tokens_roundtrip_1() {
    let mut codec = HuffmanCodec::new_english();
    let text = "CQ CQ DE S56SPZ K";
    let encoded = codec.encode(text).unwrap();
    let decoded = codec.decode(&encoded).unwrap();
    assert_eq!(decoded, text);
}

#[test]
fn test_huffman_tokens_roundtrip_2() {
    let mut codec = HuffmanCodec::new_english();
    let text = "QRZ? QRM QTH JN76";
    let encoded = codec.encode(text).unwrap();
    let decoded = codec.decode(&encoded).unwrap();
    assert_eq!(decoded, text);
}

#[test]
fn test_huffman_empty_message() {
    let mut codec = HuffmanCodec::new_english();
    let encoded = codec.encode("").unwrap();
    // Just the 16-bit header of zero valid bits.
    assert_eq!(encoded, vec![0, 0]);
    assert_eq!(codec.decode(&encoded).unwrap(), "");
}

#[test]
fn test_huffman_compresses_english() {
    let mut codec = HuffmanCodec::new_english();
    let text = "THE QUICK BROWN FOX JUMPS OVER THE LAZY DOG";
    let encoded = codec.encode(text).unwrap();
    assert!(encoded.len() < text.len());
}

#[test]
fn test_huffman_decode_too_short() {
    let mut codec = HuffmanCodec::new_english();
    assert!(codec.decode(&[]).is_err());
    assert!(codec.decode(&[0x12]).is_err());
}

#[test]
fn test_huffman_escape_only_round_trip() {
    let mut codec = HuffmanCodec::new_english();
    // Every character here is outside the code table.
    let text = "\u{3B1}\u{3B2}\u{4E16}\u{1F600}";
    let encoded = codec.encode(text).unwrap();
    assert_eq!(codec.decode(&encoded).unwrap(), text);
}

#[test]
fn test_ascii_codec() {
    let mut codec = AsciiCodec;
    let text = "Hello, World!";

    let encoded = codec.encode(text).unwrap();
    let decoded = codec.decode(&encoded).unwrap();

    assert_eq!(text, decoded);
}

#[test]
fn test_ascii_codec_rejects_invalid_utf8() {
    let mut codec = AsciiCodec;
    assert!(codec.decode(&[0xFF, 0xFE]).is_err());
}

#[test]
fn test_registry_creation() {
    let registry = CodecRegistry::new();
    assert!(registry.is_available("ascii"));
    assert!(registry.is_available("huffman-english"));
    assert!(registry.is_available("pcm-16"));
}

#[test]
fn test_codec_listing() {
    let registry = CodecRegistry::new();

    let text_codecs = registry.list_by_type(CodecType::Text);
    assert!(text_codecs.len() >= 2);

    let voice_codecs = registry.list_by_type(CodecType::Voice);
    assert!(voice_codecs.len() >= 1);
}

#[test]
fn test_codec_registration() {
    let mut registry = CodecRegistry::new();

    let custom_codec = CodecInfo {
        id: "custom-test".to_string(),
        name: "Test Codec".to_string(),
        description: "Test codec for unit tests".to_string(),
        codec_type: CodecType::Binary,
        version: "0.1.0".to_string(),
        parameters: Vec::new(),
    };

    registry.register(custom_codec).unwrap();
    assert!(registry.is_available("custom-test"));

    let info = registry.get("custom-test").unwrap();
    assert_eq!(info.name, "Test Codec");
}

#[test]
fn test_registry_rejects_duplicate() {
    let mut registry = CodecRegistry::new();
    let dup = CodecInfo {
        id: "ascii".to_string(),
        name: "Duplicate".to_string(),
        description: String::new(),
        codec_type: CodecType::Text,
        version: "0.0.1".to_string(),
        parameters: Vec::new(),
    };
    assert!(registry.register(dup).is_err());
}

#[test]
fn test_huffman_tables_reproducible_across_instances() {
    // The construction is pinned to a fixed model, so two independent
    // codecs must agree byte for byte, in both directions.
    let mut first = HuffmanCodec::new_english();
    let mut second = HuffmanCodec::new_english();
    let text = "CQ CQ DE S56SPZ K 73";
    let a = first.encode(text).unwrap();
    let b = second.encode(text).unwrap();
    assert_eq!(a, b);
    assert_eq!(second.decode(&a).unwrap(), text);
    assert_eq!(first.decode(&b).unwrap(), text);
}

#[test]
fn test_registry_builtin_types() {
    let registry = CodecRegistry::new();
    let text_codecs = registry.list_by_type(CodecType::Text);
    assert_eq!(text_codecs.len(), 2);
    let voice_codecs = registry.list_by_type(CodecType::Voice);
    assert_eq!(voice_codecs.len(), 1);
    assert_eq!(voice_codecs[0].id, "pcm-16");
}
