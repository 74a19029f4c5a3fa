//! Bit-stream helpers shared by the codec, the frame sync search, and the
//! demodulator back ends: bytes unpacked to MSB-first bit sequences, bit
//! sequences packed back to bytes, and bit-population parity.

use vstd::prelude::*;

verus! {

/// Bit `k` of a byte, counted from the most significant bit.
pub open spec fn bit_at(b: u8, k: int) -> u8
    recommends
        0 <= k < 8,
{
    (b >> ((7 - k) as u8)) & 1
}

/// The eight bits of a byte, most significant first.
pub open spec fn byte_bits(b: u8) -> Seq<u8> {
    Seq::new(8, |i: int| bit_at(b, i))
}

/// A byte sequence unpacked to bits, each byte most significant first.
pub open spec fn bytes_bits(s: Seq<u8>) -> Seq<u8> {
    Seq::new(8 * s.len(), |i: int| bit_at(s[i / 8], i % 8))
}

/// The byte formed by eight bits, most significant first.
pub open spec fn byte_of_bits(s: Seq<u8>) -> u8
    recommends
        s.len() == 8,
        forall|i: int| 0 <= i < 8 ==> s[i] <= 1,
{
    (s[0] * 128 + s[1] * 64 + s[2] * 32 + s[3] * 16 + s[4] * 8 + s[5] * 4 + s[6] * 2 + s[7]) as u8
}

/// Zero bits appended to reach the next byte boundary.
pub open spec fn pad_to_byte(s: Seq<u8>) -> Seq<u8> {
    if s.len() % 8 == 0 {
        s
    } else {
        s + Seq::new((8 - s.len() % 8) as nat, |i: int| 0u8)
    }
}

/// Bits packed into bytes, most significant first; length must be a
/// multiple of eight.
pub open spec fn pack_bits(s: Seq<u8>) -> Seq<u8>
    recommends
        s.len() % 8 == 0,
{
    Seq::new(s.len() / 8, |i: int| byte_of_bits(s.subrange(8 * i, 8 * i + 8)))
}

/// All elements of a bit sequence are 0 or 1.
pub open spec fn is_bit_seq(s: Seq<u8>) -> bool {
    forall|i: int| 0 <= i < s.len() ==> #[trigger] s[i] <= 1
}

/// Unpacking a byte and packing the bits again restores the byte.
pub proof fn lemma_byte_bits_inverse(b: u8)
    ensures
        byte_of_bits(byte_bits(b)) == b,
        is_bit_seq(byte_bits(b)),
{
    assert(((b >> 7u8) & 1) * 128 + ((b >> 6u8) & 1) * 64 + ((b >> 5u8) & 1) * 32 + ((b >> 4u8)
        & 1) * 16 + ((b >> 3u8) & 1) * 8 + ((b >> 2u8) & 1) * 4 + ((b >> 1u8) & 1) * 2 + ((b
        >> 0u8) & 1) == b) by (bit_vector);
    assert forall|i: int| 0 <= i < 8 implies #[trigger] byte_bits(b)[i] <= 1 by {
        let k = (7 - i) as u8;
        assert((b >> k) & 1 <= 1) by (bit_vector);
    }
}

/// Packing eight bits and unpacking the byte again restores the bits.
pub proof fn lemma_bits_byte_inverse(s: Seq<u8>)
    requires
        s.len() == 8,
        is_bit_seq(s),
    ensures
        byte_bits(byte_of_bits(s)) =~= s,
{
    let b0 = s[0];
    let b1 = s[1];
    let b2 = s[2];
    let b3 = s[3];
    let b4 = s[4];
    let b5 = s[5];
    let b6 = s[6];
    let b7 = s[7];
    let v = (b0 * 128 + b1 * 64 + b2 * 32 + b3 * 16 + b4 * 8 + b5 * 4 + b6 * 2 + b7) as u8;
    assert((v >> 7u8) & 1 == b0 && (v >> 6u8) & 1 == b1 && (v >> 5u8) & 1 == b2 && (v >> 4u8) & 1
        == b3 && (v >> 3u8) & 1 == b4 && (v >> 2u8) & 1 == b5 && (v >> 1u8) & 1 == b6 && (v
        >> 0u8) & 1 == b7) by (bit_vector)
        requires
            b0 <= 1 && b1 <= 1 && b2 <= 1 && b3 <= 1 && b4 <= 1 && b5 <= 1 && b6 <= 1 && b7 <= 1
                && v == (b0 * 128 + b1 * 64 + b2 * 32 + b3 * 16 + b4 * 8 + b5 * 4 + b6 * 2
                + b7) as u8,
    ;
    assert forall|i: int| 0 <= i < 8 implies byte_bits(v)[i] == s[i] by {
        if i == 0 {
        } else if i == 1 {
        } else if i == 2 {
        } else if i == 3 {
        } else if i == 4 {
        } else if i == 5 {
        } else if i == 6 {
        } else {
            assert(i == 7);
        }
    }
}

/// Unpacking bytes to bits and packing again restores the bytes.
pub proof fn lemma_bytes_bits_inverse(s: Seq<u8>)
    ensures
        bytes_bits(s).len() == 8 * s.len(),
        bytes_bits(s).len() % 8 == 0,
        is_bit_seq(bytes_bits(s)),
        pack_bits(bytes_bits(s)) =~= s,
{
    assert forall|i: int| 0 <= i < bytes_bits(s).len() implies #[trigger] bytes_bits(s)[i]
        <= 1 by {
        lemma_byte_bits_inverse(s[i / 8]);
        assert(byte_bits(s[i / 8])[i % 8] == bytes_bits(s)[i]);
    }
    assert forall|j: int| 0 <= j < s.len() implies pack_bits(bytes_bits(s))[j] == s[j] by {
        lemma_byte_bits_inverse(s[j]);
        assert(bytes_bits(s).subrange(8 * j, 8 * j + 8) =~= byte_bits(s[j]));
    }
}

/// Packing a whole-byte bit sequence and unpacking the bytes again
/// restores the bits.
pub proof fn lemma_pack_bits_inverse(s: Seq<u8>)
    requires
        is_bit_seq(s),
        s.len() % 8 == 0,
    ensures
        bytes_bits(pack_bits(s)) =~= s,
{
    let packed = pack_bits(s);
    assert(packed.len() == s.len() / 8);
    assert forall|i: int| 0 <= i < s.len() implies bytes_bits(packed)[i] == s[i] by {
        let j = i / 8;
        vstd::arithmetic::div_mod::lemma_fundamental_div_mod(i, 8);
        assert(0 <= j < packed.len()) by {
            vstd::arithmetic::div_mod::lemma_fundamental_div_mod(s.len() as int, 8);
        }
        let chunk = s.subrange(8 * j, 8 * j + 8);
        assert(is_bit_seq(chunk)) by {
            assert(forall|t: int| 0 <= t < 8 ==> chunk[t] == #[trigger] s[8 * j + t]);
        }
        lemma_bits_byte_inverse(chunk);
        assert(byte_bits(packed[j])[i % 8] == chunk[i % 8]);
        assert(chunk[i % 8] == s[i]);
    }
    assert(bytes_bits(packed).len() == s.len()) by {
        vstd::arithmetic::div_mod::lemma_fundamental_div_mod(s.len() as int, 8);
    }
}

/// Unpack a byte slice into its bits, most significant bit of each byte
/// first.
pub fn bytes_to_bits_msb(data: &[u8]) -> (r: Vec<u8>)
    ensures
        r@ == bytes_bits(data@),
        is_bit_seq(r@),
{
    let mut bits: Vec<u8> = Vec::new();
    let mut i: usize = 0;
    while i < data.len()
        invariant
            0 <= i <= data@.len(),
            bits@ =~= bytes_bits(data@.subrange(0, i as int)),
            is_bit_seq(bits@),
        decreases data@.len() - i,
    {
        let b = data[i];
        let mut k: usize = 0;
        while k < 8
            invariant
                0 <= k <= 8,
                0 <= i < data@.len(),
                b == data@[i as int],
                bits@ =~= bytes_bits(data@.subrange(0, i as int)) + byte_bits(b).subrange(
                    0,
                    k as int,
                ),
                is_bit_seq(bits@),
            decreases 8 - k,
        {
            let shift = (7 - k) as u8;
            let bit = (b >> shift) & 1;
            assert((b >> shift) & 1 <= 1) by (bit_vector);
            bits.push(bit);
            k = k + 1;
            assert(bits@ =~= bytes_bits(data@.subrange(0, i as int)) + byte_bits(b).subrange(
                0,
                k as int,
            ));
        }
        i = i + 1;
        assert(bits@ =~= bytes_bits(data@.subrange(0, i as int)));
    }
    assert(data@.subrange(0, data@.len() as int) =~= data@);
    bits
}

/// The byte formed by the chunk of eight bits starting at `start`,
/// reading absent positions past the end as zero padding.
pub open spec fn chunk_bits(s: Seq<u8>, start: int) -> Seq<u8> {
    Seq::new(8, |t: int| if start + t < s.len() { s[start + t] } else { 0u8 })
}

/// Pack a 0/1 bit slice into bytes, most significant bit first, padding
/// the final partial byte with zero bits.
#[verifier::rlimit(50)]
pub fn bits_to_bytes_msb(bits: &[u8]) -> (r: Vec<u8>)
    requires
        is_bit_seq(bits@),
        bits@.len() + 8 <= usize::MAX,
    ensures
        r@ == pack_bits(pad_to_byte(bits@)),
{
    let ghost padded = pad_to_byte(bits@);
    let mut out: Vec<u8> = Vec::new();
    let mut i: usize = 0;
    while i < bits.len()
        invariant
            i % 8 == 0,
            0 <= i <= bits@.len() + 7,
            bits@.len() + 8 <= usize::MAX,
            is_bit_seq(bits@),
            padded == pad_to_byte(bits@),
            out@ =~= pack_bits(padded).subrange(0, i as int / 8),
        decreases bits@.len() + 8 - i,
    {
        let b0 = read_bit(bits, i);
        let b1 = read_bit(bits, i + 1);
        let b2 = read_bit(bits, i + 2);
        let b3 = read_bit(bits, i + 3);
        let b4 = read_bit(bits, i + 4);
        let b5 = read_bit(bits, i + 5);
        let b6 = read_bit(bits, i + 6);
        let b7 = read_bit(bits, i + 7);
        let byte = b0 * 128 + b1 * 64 + b2 * 32 + b3 * 16 + b4 * 8 + b5 * 4 + b6 * 2 + b7;
        proof {
            let j = i as int / 8;
            assert(chunk_bits(bits@, i as int) =~= padded.subrange(8 * j, 8 * j + 8));
            assert(byte == byte_of_bits(padded.subrange(8 * j, 8 * j + 8)));
        }
        out.push(byte);
        i = i + 8;
        assert(out@ =~= pack_bits(padded).subrange(0, i as int / 8));
    }
    assert(out@ =~= pack_bits(padded));
    out
}

/// The bit at `i`, or zero when `i` is past the end of the slice.
fn read_bit(bits: &[u8], i: usize) -> (r: u8)
    requires
        is_bit_seq(bits@),
        i <= bits@.len() + 7,
    ensures
        r == (if i < bits@.len() {
            bits@[i as int]
        } else {
            0u8
        }),
        r <= 1,
{
    if i < bits.len() {
        bits[i]
    } else {
        0
    }
}

/// Number of one bits in a 32-bit word.
pub open spec fn ones32(x: u32) -> nat
    decreases x,
{
    if x == 0 {
        0
    } else {
        ((x % 2) + ones32(x / 2)) as nat
    }
}

/// Parity of the one-bit count of a 32-bit word.
pub fn parity32(x: u32) -> (r: u32)
    ensures
        r == ones32(x) % 2,
        r <= 1,
{
    let mut v = x;
    let mut p: u32 = 0;
    while v != 0
        invariant
            p <= 1,
            ones32(x) % 2 == (p + ones32(v)) % 2,
        decreases v,
    {
        let low = v & 1;
        proof {
            assert((v & 1) == v % 2 && (v >> 1u32) == v / 2) by (bit_vector);
        }
        let ghost p0 = p;
        let ghost v0 = v;
        p = p ^ low;
        proof {
            assert(p == (p0 + low) % 2 && p <= 1) by (bit_vector)
                requires
                    p0 <= 1 && low <= 1 && p == p0 ^ low,
            ;
            vstd::arithmetic::div_mod::lemma_add_mod_noop(
                p0 + low,
                ones32(v0 / 2) as int,
                2,
            );
            vstd::arithmetic::div_mod::lemma_add_mod_noop(
                (p0 + low) % 2,
                ones32(v0 / 2) as int,
                2,
            );
            vstd::arithmetic::div_mod::lemma_small_mod((((p0 + low) % 2) as nat), 2nat);
        }
        v = v >> 1;
        assert(ones32(x) % 2 == (p + ones32(v)) % 2);
    }
    p
}

} // verus!
