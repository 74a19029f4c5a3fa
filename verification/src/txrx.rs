//! Byte-level halves of the TX and RX coordinators: payload encoding,
//! framing and sync composition on transmit; sync search, frame parsing
//! with polarity retry, and payload decoding on receive.  Sample
//! synthesis and demodulation live outside the verified core and hand
//! byte streams to these functions.

use vstd::prelude::*;
use crate::errors::CodecError;
use crate::frame::{header_new, spec_frame_bytes, spec_parse_frame, Frame, SpecFrame};
use crate::strutil::{chars_to_string, utf8_decode};
use crate::sync::{extract_frame_data_any_alignment, spec_extract_frame_data, spec_sync,
    sync_pattern};
use crate::text::{spec_huffman_decode, spec_huffman_encode, CodecView, HuffmanCodec};

verus! {

/// Supported text codecs
#[derive(Debug, Clone)]
pub enum TextCodecType {
    Huffman,
    Ascii,
}

/// The payload bytes a codec produces for a text.
pub open spec fn spec_payload_of(v: CodecView, text: Seq<char>, codec: TextCodecType) -> Seq<
    u8,
> {
    match codec {
        TextCodecType::Huffman => spec_huffman_encode(v, text),
        TextCodecType::Ascii => vstd::utf8::encode_utf8(text),
    }
}

/// The transmitted byte stream for a text: the sync preamble, then a
/// data frame with sequence zero and no flags around the encoded
/// payload.
pub open spec fn spec_tx_stream(v: CodecView, text: Seq<char>, codec: TextCodecType) -> Seq<
    u8,
> {
    let payload = spec_payload_of(v, text, codec);
    spec_sync() + spec_frame_bytes(
        SpecFrame { header: header_new(1u8, 0u16, payload.len() as u16, 0u8), payload },
    )
}

/// Build the byte stream of a data transmission: encode the text with
/// the selected codec, wrap it in a frame, and put the sync preamble in
/// front.  Oversized texts and payloads are refused.
pub fn build_data_transmission(
    huff: &mut HuffmanCodec,
    text: &str,
    codec: &TextCodecType,
) -> (r: Result<Vec<u8>, CodecError>)
    requires
        old(huff).wf(),
    ensures
        *final(huff) == *old(huff),
        match r {
            Ok(v) => spec_payload_of(old(huff)@, text@, *codec).len() <= 0xFFFF && v@
                == spec_tx_stream(old(huff)@, text@, *codec),
            Err(e) => (text@.len() > 0x0010_0000 || spec_payload_of(
                old(huff)@,
                text@,
                *codec,
            ).len() > 0xFFFF) && e is EncodingFailed,
        },
{
    let cs = crate::strutil::str_chars(text);
    if cs.len() > 0x0010_0000 {
        return Err(CodecError::EncodingFailed { msg: "text too long".to_owned() });
    }
    proof {
        vstd::utf8::encode_utf8_valid_utf8(text@);
        assert(text@.len() <= 0x0010_0000);
    }
    let encoded = match codec {
        TextCodecType::Huffman => {
            match huff.encode(text) {
                Ok(e) => e,
                Err(_) => {
                    return Err(CodecError::EncodingFailed {
                        msg: "encoding failed".to_owned(),
                    });
                },
            }
        },
        TextCodecType::Ascii => {
            let b = text.as_bytes();
            vstd::slice::slice_to_vec(b)
        },
    };
    if encoded.len() > 0xFFFF {
        return Err(CodecError::EncodingFailed { msg: "payload too long".to_owned() });
    }
    let frame = Frame::new(1, 0, encoded, 0);
    let frame_bytes = frame.to_bytes();
    let mut tx_data = sync_pattern();
    tx_data.extend_from_slice(frame_bytes.as_slice());
    proof {
        assert(tx_data@ =~= spec_tx_stream(old(huff)@, text@, *codec));
    }
    Ok(tx_data)
}

/// A hexadecimal digit character, lowercase.
pub open spec fn hex_char(x: u8) -> char
    recommends
        x < 16,
{
    if x < 10 {
        ((48 + x) as u8) as char
    } else {
        ((87 + x) as u8) as char
    }
}

/// The lowercase hexadecimal rendering of a byte sequence, two digits
/// per byte.
pub open spec fn spec_hex(s: Seq<u8>) -> Seq<char> {
    Seq::new(
        2 * s.len(),
        |i: int|
            if i % 2 == 0 {
                hex_char(s[i / 2] >> 4u8)
            } else {
                hex_char(s[i / 2] & 0xF)
            },
    )
}

/// Render bytes as lowercase hexadecimal characters.
fn hex_chars(data: &[u8]) -> (r: Vec<char>)
    ensures
        r@ == spec_hex(data@),
{
    let mut out: Vec<char> = Vec::new();
    let mut i: usize = 0;
    while i < data.len()
        invariant
            0 <= i <= data@.len(),
            out@ =~= spec_hex(data@.subrange(0, i as int)),
        decreases data@.len() - i,
    {
        let b = data[i];
        let hi = b >> 4;
        let lo = b & 0xF;
        proof {
            assert((b >> 4u8) < 16 && (b & 0xF) < 16) by (bit_vector);
        }
        out.push(((48 + if hi < 10 {
            hi
        } else {
            39 + hi
        }) as u8) as char);
        out.push(((48 + if lo < 10 {
            lo
        } else {
            39 + lo
        }) as u8) as char);
        i = i + 1;
        proof {
            assert(out@ =~= spec_hex(data@.subrange(0, i as int)));
        }
    }
    assert(data@.subrange(0, data@.len() as int) =~= data@);
    out
}

/// The decoded text of a received payload: the codec hint decides
/// whether the Huffman or the plain UTF-8 reading is attempted first;
/// whatever fails falls through, down to a hexadecimal rendering.
pub open spec fn spec_decode_payload(
    v: CodecView,
    data: Seq<u8>,
    hint: Option<TextCodecType>,
) -> Seq<char> {
    let ascii_first = hint matches Some(h) && h is Ascii;
    if ascii_first {
        if vstd::utf8::valid_utf8(data) {
            vstd::utf8::decode_utf8(data)
        } else if spec_huffman_decode(v, data) is Some {
            spec_huffman_decode(v, data)->Some_0
        } else {
            "HEX:"@ + spec_hex(data)
        }
    } else {
        if spec_huffman_decode(v, data) is Some {
            spec_huffman_decode(v, data)->Some_0
        } else if vstd::utf8::valid_utf8(data) {
            vstd::utf8::decode_utf8(data)
        } else {
            "HEX:"@ + spec_hex(data)
        }
    }
}

/// Decode a received frame payload with the configured codec order.
pub fn decode_payload(
    huff: &mut HuffmanCodec,
    data: &[u8],
    hint: &Option<TextCodecType>,
) -> (r: String)
    requires
        old(huff).wf(),
    ensures
        *final(huff) == *old(huff),
        r@ == spec_decode_payload(old(huff)@, data@, *hint),
{
    let ascii_first = match hint {
        Option::Some(TextCodecType::Ascii) => true,
        _ => false,
    };
    if ascii_first {
        match utf8_decode(data) {
            Option::Some(chars) => {
                return chars_to_string(&chars);
            },
            Option::None => {},
        }
        match huff.decode(data) {
            Ok(s) => {
                return s;
            },
            Err(_) => {},
        }
    } else {
        match huff.decode(data) {
            Ok(s) => {
                return s;
            },
            Err(_) => {},
        }
        match utf8_decode(data) {
            Option::Some(chars) => {
                return chars_to_string(&chars);
            },
            Option::None => {},
        }
    }
    let hexed = hex_chars(data);
    let mut out: Vec<char> = Vec::new();
    out.push('H');
    out.push('E');
    out.push('X');
    out.push(':');
    let mut hv = hexed;
    out.append(&mut hv);
    proof {
        reveal_strlit("HEX:");
        assert(out@ =~= "HEX:"@ + spec_hex(data@));
    }
    chars_to_string(&out)
}

/// A byte sequence with every bit inverted.
pub open spec fn spec_invert(s: Seq<u8>) -> Seq<u8> {
    Seq::new(s.len(), |i: int| !s[i])
}

/// Invert every byte of a stream, for demodulators of opposite
/// polarity.
fn invert_bytes(data: &Vec<u8>) -> (r: Vec<u8>)
    ensures
        r@ == spec_invert(data@),
{
    let mut out: Vec<u8> = Vec::new();
    let mut i: usize = 0;
    while i < data.len()
        invariant
            0 <= i <= data@.len(),
            out@ =~= spec_invert(data@.subrange(0, i as int)),
        decreases data@.len() - i,
    {
        out.push(!data[i]);
        i = i + 1;
        assert(out@ =~= spec_invert(data@.subrange(0, i as int)));
    }
    assert(data@.subrange(0, data@.len() as int) =~= data@);
    out
}

/// The message recovered from one demodulated byte stream, if any: the
/// alignment search yields the bytes after a sync preamble; they must
/// parse as a frame, directly or with inverted polarity, and the frame's
/// payload is decoded with the hint order.
pub open spec fn spec_recover_message(
    v: CodecView,
    data: Seq<u8>,
    hint: Option<TextCodecType>,
) -> Option<Seq<char>> {
    match spec_extract_frame_data(data) {
        Option::None => None,
        Option::Some(fb) => match spec_parse_frame(fb) {
            Option::Some(f) => Some(spec_decode_payload(v, f.payload, hint)),
            Option::None => match spec_parse_frame(spec_invert(fb)) {
                Option::Some(f) => Some(spec_decode_payload(v, f.payload, hint)),
                Option::None => None,
            },
        },
    }
}

/// Recover a message from one demodulated byte stream.
pub fn recover_message(
    huff: &mut HuffmanCodec,
    data: &[u8],
    hint: &Option<TextCodecType>,
) -> (r: Option<String>)
    requires
        old(huff).wf(),
    ensures
        *final(huff) == *old(huff),
        match r {
            Some(s) => spec_recover_message(old(huff)@, data@, *hint) == Some(s@),
            None => spec_recover_message(old(huff)@, data@, *hint) is None,
        },
{
    let frame_bytes = match extract_frame_data_any_alignment(data) {
        Option::Some(fb) => fb,
        Option::None => {
            return None;
        },
    };
    match Frame::from_bytes(frame_bytes.as_slice()) {
        Ok(frame) => Some(decode_payload(huff, frame.payload.as_slice(), hint)),
        Err(_) => {
            let inverted = invert_bytes(&frame_bytes);
            match Frame::from_bytes(inverted.as_slice()) {
                Ok(frame) => Some(decode_payload(huff, frame.payload.as_slice(), hint)),
                Err(_) => None,
            }
        },
    }
}

} // verus!
