//! Frames: an 8-byte big-endian header with a ones-complement checksum,
//! followed by a length-delimited payload.

use vstd::prelude::*;
use crate::errors::FrameError;

verus! {

/// Header layout, offsets in bytes:
/// 0 frame type, 1..3 sequence, 3..5 payload length, 5 flags, 6..8 checksum.
pub const HEADER_SIZE: usize = 8;

/// Wrapping 16-bit sum of the four checksummed header fields.
pub open spec fn field_sum(frame_type: u8, sequence: u16, payload_length: u16, flags: u8) -> int {
    (frame_type + sequence + payload_length + flags) % 0x10000
}

/// Ones-complement of the wrapping sum: the checksum stored in the header.
pub open spec fn checksum_of(frame_type: u8, sequence: u16, payload_length: u16, flags: u8) -> u16 {
    (0xFFFF - field_sum(frame_type, sequence, payload_length, flags)) as u16
}

/// A big-endian 16-bit value from two bytes.
pub open spec fn be16(hi: u8, lo: u8) -> u16 {
    (hi * 256 + lo) as u16
}

/// Frame header containing metadata
#[derive(Debug, Clone)]
pub struct FrameHeader {
    /// Frame type identifier
    pub frame_type: u8,
    /// Sequence number
    pub sequence: u16,
    /// Payload length in bytes
    pub payload_length: u16,
    /// Frame flags
    pub flags: u8,
    /// Header checksum
    pub checksum: u16,
}

/// The header a well-formed constructor produces for the given fields.
pub open spec fn header_new(frame_type: u8, sequence: u16, payload_length: u16, flags: u8) -> FrameHeader {
    FrameHeader {
        frame_type,
        sequence,
        payload_length,
        flags,
        checksum: checksum_of(frame_type, sequence, payload_length, flags),
    }
}

/// The eight serialized bytes of a header.
pub open spec fn header_bytes(h: FrameHeader) -> Seq<u8> {
    seq![
        h.frame_type,
        (h.sequence / 256) as u8,
        (h.sequence % 256) as u8,
        (h.payload_length / 256) as u8,
        (h.payload_length % 256) as u8,
        h.flags,
        (h.checksum / 256) as u8,
        (h.checksum % 256) as u8,
    ]
}

/// The header read back from a byte sequence (fields only, checksum unchecked).
pub open spec fn header_of_bytes(s: Seq<u8>) -> FrameHeader
    recommends
        s.len() >= 8,
{
    FrameHeader {
        frame_type: s[0],
        sequence: be16(s[1], s[2]),
        payload_length: be16(s[3], s[4]),
        flags: s[5],
        checksum: be16(s[6], s[7]),
    }
}

/// Header parsing: defined exactly when eight bytes are present and the
/// stored checksum matches the recomputed one.
pub open spec fn spec_parse_header(s: Seq<u8>) -> Option<FrameHeader> {
    if s.len() < 8 {
        None
    } else {
        let h = header_of_bytes(s);
        if h.wf() {
            Some(h)
        } else {
            None
        }
    }
}

impl FrameHeader {
    /// A header is well formed when its checksum field matches the
    /// ones-complement of the wrapping sum of the other fields.
    pub open spec fn wf(self) -> bool {
        self.checksum == checksum_of(self.frame_type, self.sequence, self.payload_length, self.flags)
    }

    /// Create a new frame header
    pub fn new(frame_type: u8, sequence: u16, payload_length: u16, flags: u8) -> (r: Self)
        ensures
            r == header_new(frame_type, sequence, payload_length, flags),
            r.wf(),
    {
        let mut header = Self {
            frame_type,
            sequence,
            payload_length,
            flags,
            checksum: 0,
        };
        header.checksum = header.calculate_checksum();
        header
    }

    /// Calculate header checksum
    fn calculate_checksum(&self) -> (r: u16)
        ensures
            r == checksum_of(self.frame_type, self.sequence, self.payload_length, self.flags),
    {
        let mut sum = 0u16;
        sum = sum.wrapping_add(self.frame_type as u16);
        sum = sum.wrapping_add(self.sequence);
        sum = sum.wrapping_add(self.payload_length);
        sum = sum.wrapping_add(self.flags as u16);
        proof {
            vstd::arithmetic::div_mod::lemma_small_mod(sum as nat, 0x10000nat);
            vstd::arithmetic::div_mod::lemma_mod_multiples_vanish(1, sum as int, 0x10000);
            vstd::arithmetic::div_mod::lemma_mod_multiples_vanish(2, sum as int, 0x10000);
            vstd::arithmetic::div_mod::lemma_mod_multiples_vanish(3, sum as int, 0x10000);
        }
        assert(sum == field_sum(self.frame_type, self.sequence, self.payload_length, self.flags));
        0xFFFF - sum
    }

    /// Validate header checksum
    pub fn validate_checksum(&self) -> (r: bool)
        ensures
            r == self.wf(),
    {
        self.checksum == self.calculate_checksum()
    }

    /// Serialize header to bytes
    pub fn to_bytes(&self) -> (r: Vec<u8>)
        ensures
            r@ == header_bytes(*self),
            r@.len() == 8,
    {
        let mut bytes: Vec<u8> = Vec::with_capacity(HEADER_SIZE);
        bytes.push(self.frame_type);
        bytes.push((self.sequence / 256) as u8);
        bytes.push((self.sequence % 256) as u8);
        bytes.push((self.payload_length / 256) as u8);
        bytes.push((self.payload_length % 256) as u8);
        bytes.push(self.flags);
        bytes.push((self.checksum / 256) as u8);
        bytes.push((self.checksum % 256) as u8);
        assert(bytes@ =~= header_bytes(*self));
        bytes
    }

    /// Deserialize header from bytes
    pub fn from_bytes(bytes: &[u8]) -> (r: Result<Self, FrameError>)
        ensures
            match r {
                Ok(h) => spec_parse_header(bytes@) == Some(h),
                Err(e) => spec_parse_header(bytes@) is None && e is InvalidFormat,
            },
    {
        if bytes.len() < HEADER_SIZE {
            return Err(FrameError::InvalidFormat { msg: "Header too short".to_owned() });
        }

        let frame_type = bytes[0];
        let sequence = (bytes[1] as u16) * 256 + (bytes[2] as u16);
        let payload_length = (bytes[3] as u16) * 256 + (bytes[4] as u16);
        let flags = bytes[5];
        let checksum = (bytes[6] as u16) * 256 + (bytes[7] as u16);

        let header = Self {
            frame_type,
            sequence,
            payload_length,
            flags,
            checksum,
        };
        assert(header == header_of_bytes(bytes@));

        if !header.validate_checksum() {
            return Err(FrameError::InvalidFormat { msg: "Header checksum mismatch".to_owned() });
        }

        Ok(header)
    }
}

/// The whole serialized frame: header bytes then payload.
pub struct SpecFrame {
    pub header: FrameHeader,
    pub payload: Seq<u8>,
}

impl SpecFrame {
    /// Payload length recorded in the header matches the payload, and the
    /// header checksum is correct.
    pub open spec fn wf(self) -> bool {
        self.header.wf() && self.header.payload_length == self.payload.len()
    }
}

/// Serialized form of a frame.
pub open spec fn spec_frame_bytes(f: SpecFrame) -> Seq<u8> {
    header_bytes(f.header) + f.payload
}

/// Frame parsing: a checksummed header followed by at least
/// `payload_length` bytes; trailing bytes are ignored.
pub open spec fn spec_parse_frame(s: Seq<u8>) -> Option<SpecFrame> {
    match spec_parse_header(s) {
        Option::None => None,
        Option::Some(h) => {
            if s.len() >= 8 + h.payload_length {
                Some(SpecFrame { header: h, payload: s.subrange(8, 8 + h.payload_length as int) })
            } else {
                None
            }
        },
    }
}

/// Complete frame with header and payload
#[derive(Debug, Clone)]
pub struct Frame {
    pub header: FrameHeader,
    pub payload: Vec<u8>,
}

impl View for Frame {
    type V = SpecFrame;

    open spec fn view(&self) -> SpecFrame {
        SpecFrame { header: self.header, payload: self.payload@ }
    }
}

impl Frame {
    /// Create a new frame
    pub fn new(frame_type: u8, sequence: u16, payload: Vec<u8>, flags: u8) -> (r: Self)
        requires
            payload@.len() <= 0xFFFF,
        ensures
            r@.header == header_new(frame_type, sequence, payload@.len() as u16, flags),
            r@.payload == payload@,
            r@.wf(),
    {
        let header = FrameHeader::new(frame_type, sequence, payload.len() as u16, flags);
        Self { header, payload }
    }

    /// Get total frame size in bytes
    pub fn total_size(&self) -> (r: usize)
        requires
            self.payload@.len() + 8 <= usize::MAX,
        ensures
            r == 8 + self.payload@.len(),
    {
        HEADER_SIZE + self.payload.len()
    }

    /// Serialize frame to bytes
    pub fn to_bytes(&self) -> (r: Vec<u8>)
        ensures
            r@ == spec_frame_bytes(self@),
    {
        let mut bytes = self.header.to_bytes();
        bytes.extend_from_slice(self.payload.as_slice());
        bytes
    }

    /// Deserialize frame from bytes
    pub fn from_bytes(bytes: &[u8]) -> (r: Result<Self, FrameError>)
        ensures
            match r {
                Ok(f) => spec_parse_frame(bytes@) == Some(f@),
                Err(e) => spec_parse_frame(bytes@) is None && match spec_parse_header(bytes@) {
                    Option::None => e is InvalidFormat,
                    Option::Some(h) => e matches FrameError::SizeMismatch { expected, actual }
                        && expected == 8 + h.payload_length && actual == bytes@.len(),
                },
            },
    {
        if bytes.len() < HEADER_SIZE {
            return Err(FrameError::InvalidFormat { msg: "Frame too short for header".to_owned() });
        }

        let header = match FrameHeader::from_bytes(bytes) {
            Ok(h) => h,
            Err(e) => { return Err(e); },
        };

        let payload_len = header.payload_length as usize;
        if bytes.len() < HEADER_SIZE + payload_len {
            return Err(FrameError::SizeMismatch {
                expected: HEADER_SIZE + payload_len,
                actual: bytes.len(),
            });
        }

        let mut payload: Vec<u8> = Vec::with_capacity(payload_len);
        let mut i: usize = HEADER_SIZE;
        while i < HEADER_SIZE + payload_len
            invariant
                payload_len <= 0xFFFF,
                8 <= i <= 8 + payload_len,
                8 + payload_len <= bytes@.len(),
                payload@ == bytes@.subrange(8, i as int),
            decreases 8 + payload_len - i,
        {
            payload.push(bytes[i]);
            i = i + 1;
            assert(payload@ =~= bytes@.subrange(8, i as int));
        }

        let f = Self { header, payload };
        assert(spec_parse_frame(bytes@) == Some(f@));
        Ok(f)
    }
}

/// The serialized bytes of a header parse back to the same header,
/// whatever bytes follow them.
pub proof fn lemma_header_bytes_inverse(h: FrameHeader, rest: Seq<u8>)
    ensures
        header_of_bytes(header_bytes(h) + rest) == h,
{
    let s = header_bytes(h) + rest;
    vstd::arithmetic::div_mod::lemma_fundamental_div_mod(h.sequence as int, 256);
    vstd::arithmetic::div_mod::lemma_fundamental_div_mod(h.payload_length as int, 256);
    vstd::arithmetic::div_mod::lemma_fundamental_div_mod(h.checksum as int, 256);
    assert(be16(s[1], s[2]) == h.sequence);
    assert(be16(s[3], s[4]) == h.payload_length);
    assert(be16(s[6], s[7]) == h.checksum);
}

/// Frame round-trip: the serialized bytes of any well-formed frame parse
/// back to an identical frame, for every frame type, sequence number, flag
/// set, and payload of at most 65535 bytes.
pub proof fn lemma_frame_round_trip(f: SpecFrame)
    requires
        f.wf(),
    ensures
        spec_parse_frame(spec_frame_bytes(f)) == Some(f),
{
    let s = spec_frame_bytes(f);
    lemma_header_bytes_inverse(f.header, f.payload);
    assert(header_of_bytes(s) == f.header);
    assert(s.len() == 8 + f.payload.len());
    assert(s.subrange(8, 8 + f.header.payload_length as int) =~= f.payload);
}

/// A byte sequence with the bit at index `i` flipped: bit `i % 8`
/// (least-significant first) of byte `i / 8`.
pub open spec fn flip_bit(s: Seq<u8>, i: int) -> Seq<u8>
    recommends
        0 <= i < 8 * s.len(),
{
    s.update(i / 8, s[i / 8] ^ (1u8 << ((i % 8) as u8)))
}

/// The checksum rejects corruption: flipping any single bit within the
/// first six serialized header bytes of a well-formed frame makes header
/// and frame parsing fail.
pub proof fn lemma_checksum_rejects_corruption(f: SpecFrame, i: int)
    requires
        f.wf(),
        0 <= i < 48,
    ensures
        spec_parse_header(flip_bit(spec_frame_bytes(f), i)) is None,
        spec_parse_frame(flip_bit(spec_frame_bytes(f), i)) is None,
{
    let s = spec_frame_bytes(f);
    let s2 = flip_bit(s, i);
    let j = i / 8;
    let kk = (i % 8) as u8;
    lemma_header_bytes_inverse(f.header, f.payload);
    let h = f.header;
    let h2 = header_of_bytes(s2);
    let b = s[j];
    let b2 = s2[j];
    assert(0 <= j < 6);
    assert(kk < 8);
    assert(b2 == b ^ (1u8 << kk));
    assert(b ^ (1u8 << kk) != b) by (bit_vector)
        requires
            kk < 8,
    ;
    assert(h2.checksum == h.checksum);
    if h2.wf() {
        let m = 0x10000;
        let t1 = h.frame_type + h.sequence + h.payload_length + h.flags;
        let t2 = h2.frame_type + h2.sequence + h2.payload_length + h2.flags;
        assert(be16(s2[1], s2[2]) * 1 == s2[1] * 256 + s2[2]);
        assert(be16(s2[3], s2[4]) * 1 == s2[3] * 256 + s2[4]);
        if j == 0 {
            assert(t2 - t1 == b2 - b);
        } else if j == 1 {
            assert(t2 - t1 == (b2 - b) * 256);
        } else if j == 2 {
            assert(t2 - t1 == b2 - b);
        } else if j == 3 {
            assert(t2 - t1 == (b2 - b) * 256);
        } else if j == 4 {
            assert(t2 - t1 == b2 - b);
        } else {
            assert(t2 - t1 == b2 - b);
        }
        assert(t1 != t2 && -0x10000 < t2 - t1 < 0x10000);
        assert(h.checksum == (0xFFFF - t1 % m) as u16);
        assert(h2.checksum == (0xFFFF - t2 % m) as u16);
        assert(0 <= t1 % m < m && 0 <= t2 % m < m);
        assert(t1 % m == t2 % m);
        vstd::arithmetic::div_mod::lemma_fundamental_div_mod(t1, m);
        vstd::arithmetic::div_mod::lemma_fundamental_div_mod(t2, m);
        assert(t2 - t1 == m * (t2 / m - t1 / m));
        assert(false);
    }
}

/// Frame builder for constructing frames with various options
pub struct FrameBuilder {
    frame_type: u8,
    sequence: u16,
    flags: u8,
}

impl FrameBuilder {
    /// View of the pending header fields.
    pub closed spec fn parts(self) -> (u8, u16, u8) {
        (self.frame_type, self.sequence, self.flags)
    }

    /// Create a new frame builder
    pub fn new(frame_type: u8) -> (r: Self)
        ensures
            r.parts() == (frame_type, 0u16, 0u8),
    {
        Self {
            frame_type,
            sequence: 0,
            flags: 0,
        }
    }

    /// Set sequence number
    pub fn sequence(self, sequence: u16) -> (r: Self)
        ensures
            r.parts() == (self.parts().0, sequence, self.parts().2),
    {
        Self { sequence, ..self }
    }

    /// Set frame flags
    pub fn flags(self, flags: u8) -> (r: Self)
        ensures
            r.parts() == (self.parts().0, self.parts().1, flags),
    {
        Self { flags, ..self }
    }

    /// Build frame with payload
    pub fn build(self, payload: Vec<u8>) -> (r: Frame)
        requires
            payload@.len() <= 0xFFFF,
        ensures
            r@.header == header_new(self.parts().0, self.parts().1, payload@.len() as u16, self.parts().2),
            r@.payload == payload@,
            r@.wf(),
    {
        Frame::new(self.frame_type, self.sequence, payload, self.flags)
    }
}

} // verus!
