//! Sync preamble: the fixed eight-byte pattern sent before every frame,
//! and its recovery from a demodulated byte stream of unknown bit
//! alignment and possibly inverted polarity.

use vstd::prelude::*;
use crate::bits::{
    bit_at, byte_of_bits, bytes_bits, bytes_to_bits_msb, lemma_bytes_bits_inverse, pack_bits,
};

verus! {

/// The transmitted sync preamble: tuning bytes, polarity bytes, and the
/// frame-start flag pair.
pub open spec fn spec_sync() -> Seq<u8> {
    seq![0x55u8, 0x55u8, 0x55u8, 0x55u8, 0xAAu8, 0xAAu8, 0x7Eu8, 0x7Eu8]
}

/// The bitwise inverse of the sync preamble.
pub open spec fn spec_sync_inv() -> Seq<u8> {
    seq![0xAAu8, 0xAAu8, 0xAAu8, 0xAAu8, 0x55u8, 0x55u8, 0x81u8, 0x81u8]
}

/// The short frame-start flag pair.
pub open spec fn spec_flag() -> Seq<u8> {
    seq![0x7Eu8, 0x7Eu8]
}

/// The inverted flag pair.
pub open spec fn spec_flag_inv() -> Seq<u8> {
    seq![0x81u8, 0x81u8]
}

/// The sync preamble as bytes.
pub fn sync_pattern() -> (r: Vec<u8>)
    ensures
        r@ == spec_sync(),
{
    let r = vec![0x55u8, 0x55u8, 0x55u8, 0x55u8, 0xAAu8, 0xAAu8, 0x7Eu8, 0x7Eu8];
    assert(r@ =~= spec_sync());
    r
}

/// Whether `needle` occurs in `hay` at position `pos`.
pub open spec fn match_at(hay: Seq<u8>, needle: Seq<u8>, pos: int) -> bool {
    0 <= pos && pos + needle.len() <= hay.len() && hay.subrange(pos, pos + needle.len() as int)
        == needle
}

/// The first position at or after `p` where `needle` occurs in `hay`.
pub open spec fn first_match_from(hay: Seq<u8>, needle: Seq<u8>, p: int) -> Option<int>
    decreases hay.len() - p,
{
    if p < 0 || needle.len() < 1 || p + needle.len() > hay.len() {
        None
    } else if match_at(hay, needle, p) {
        Some(p)
    } else {
        first_match_from(hay, needle, p + 1)
    }
}

/// The first position at or after `p` where either pattern occurs,
/// testing the first pattern before the second at each position.
pub open spec fn first_match2_from(hay: Seq<u8>, n1: Seq<u8>, n2: Seq<u8>, p: int) -> Option<int>
    decreases hay.len() - p,
{
    if p < 0 || n1.len() < 1 || n2.len() < 1 || (p + n1.len() > hay.len() && p + n2.len()
        > hay.len()) {
        None
    } else if match_at(hay, n1, p) || match_at(hay, n2, p) {
        Some(p)
    } else {
        first_match2_from(hay, n1, n2, p + 1)
    }
}

/// Compare a slice window against a pattern.
fn window_eq(hay: &[u8], pos: usize, needle: &[u8]) -> (r: bool)
    requires
        pos + needle@.len() <= hay@.len(),
    ensures
        r == match_at(hay@, needle@, pos as int),
{
    let n = hay.len();
    let mut k: usize = 0;
    while k < needle.len()
        invariant
            0 <= k <= needle@.len(),
            pos + needle@.len() <= hay@.len(),
            hay@.len() <= usize::MAX,
            forall|t: int| 0 <= t < k ==> hay@[pos + t] == needle@[t],
        decreases needle@.len() - k,
    {
        if hay[pos + k] != needle[k] {
            assert(hay@.subrange(pos as int, pos + needle@.len() as int) != needle@) by {
                assert(hay@.subrange(pos as int, pos + needle@.len() as int)[k as int] != needle@[
                    k as int
                ]);
            }
            return false;
        }
        k = k + 1;
    }
    proof {
        assert(hay@.subrange(pos as int, pos + needle@.len() as int) =~= needle@);
    }
    true
}

/// Find the earliest occurrence of `needle` in `hay` at or after `start`.
pub fn find_pattern(hay: &[u8], needle: &[u8], start: usize) -> (r: Option<usize>)
    requires
        needle@.len() >= 1,
    ensures
        match r {
            Some(p) => first_match_from(hay@, needle@, start as int) == Some(p as int),
            None => first_match_from(hay@, needle@, start as int) is None,
        },
{
    let n = hay.len();
    let nl = needle.len();
    if nl > n {
        return None;
    }
    let mut p: usize = start;
    while p <= n - nl
        invariant
            needle@.len() >= 1,
            nl == needle@.len(),
            n == hay@.len(),
            nl <= n,
            p >= start,
            first_match_from(hay@, needle@, start as int) == first_match_from(
                hay@,
                needle@,
                p as int,
            ),
        decreases hay@.len() - p,
    {
        if window_eq(hay, p, needle) {
            return Some(p);
        }
        p = p + 1;
    }
    None
}

/// A successful pattern search really is a match.
pub proof fn lemma_first_match_is_match(hay: Seq<u8>, needle: Seq<u8>, p0: int)
    ensures
        first_match_from(hay, needle, p0) matches Some(p) ==> p0 <= p && match_at(
            hay,
            needle,
            p,
        ),
    decreases hay.len() - p0,
{
    if p0 >= 0 && needle.len() >= 1 && p0 + needle.len() <= hay.len() && !match_at(
        hay,
        needle,
        p0,
    ) {
        lemma_first_match_is_match(hay, needle, p0 + 1);
    }
}

/// Find the earliest occurrence of either pattern (both the same length)
/// in `hay`.
pub fn find_either_pattern(hay: &[u8], n1: &[u8], n2: &[u8]) -> (r: Option<usize>)
    requires
        n1@.len() == n2@.len(),
        n1@.len() >= 1,
    ensures
        match r {
            Some(p) => first_match2_from(hay@, n1@, n2@, 0) == Some(p as int),
            None => first_match2_from(hay@, n1@, n2@, 0) is None,
        },
{
    let n = hay.len();
    let nl = n1.len();
    if nl > n {
        return None;
    }
    let mut p: usize = 0;
    while p <= n - nl
        invariant
            n1@.len() == n2@.len(),
            n1@.len() >= 1,
            nl == n1@.len(),
            n == hay@.len(),
            nl <= n,
            p >= 0,
            first_match2_from(hay@, n1@, n2@, 0) == first_match2_from(hay@, n1@, n2@, p as int),
        decreases hay@.len() - p,
    {
        if window_eq(hay, p, n1) || window_eq(hay, p, n2) {
            return Some(p);
        }
        p = p + 1;
    }
    None
}

/// The bit stream of a byte sequence in the chosen bit order: most
/// significant bit first, or least significant bit first.
pub open spec fn stream_bits(data: Seq<u8>, msb_first: bool) -> Seq<u8> {
    if msb_first {
        bytes_bits(data)
    } else {
        Seq::new(8 * data.len(), |i: int| bit_at(data[i / 8], 7 - (i % 8)))
    }
}

/// Bits repacked into bytes after dropping `shift` leading bits; the
/// final partial byte is dropped.  Packing mirrors the unpacking order.
pub open spec fn aligned_stream(data: Seq<u8>, msb_first: bool, shift: int) -> Seq<u8> {
    let bits = stream_bits(data, msb_first).skip(shift);
    let full = bits.take(8 * (bits.len() as int / 8));
    if msb_first {
        pack_bits(full)
    } else {
        Seq::new(full.len() / 8, |i: int| byte_of_bits(rev8(full.subrange(8 * i, 8 * i + 8))))
    }
}

/// A chunk of eight bits reversed.
pub open spec fn rev8(s: Seq<u8>) -> Seq<u8>
    recommends
        s.len() == 8,
{
    Seq::new(8, |i: int| s[7 - i])
}

/// One repacked stream searched for the sync patterns, full patterns
/// first, then the short flag pairs: the bytes after the first match.
pub open spec fn scan_stream(s: Seq<u8>) -> Option<Seq<u8>> {
    match first_match_from(s, spec_sync(), 0) {
        Option::Some(p) => Some(s.skip(p + 8)),
        Option::None => match first_match_from(s, spec_sync_inv(), 0) {
            Option::Some(p) => Some(s.skip(p + 8)),
            Option::None => match first_match_from(s, spec_flag(), 0) {
                Option::Some(p) => Some(s.skip(p + 2)),
                Option::None => match first_match_from(s, spec_flag_inv(), 0) {
                    Option::Some(p) => Some(s.skip(p + 2)),
                    Option::None => None,
                },
            },
        },
    }
}

/// The scan over bit shifts in one bit order, earliest shift first.
pub open spec fn scan_shifts(data: Seq<u8>, msb_first: bool, shift: int) -> Option<Seq<u8>>
    decreases 8 - shift,
{
    if shift >= 8 {
        None
    } else if 8 * data.len() <= shift {
        None
    } else {
        match scan_stream(aligned_stream(data, msb_first, shift)) {
            Option::Some(r) => Some(r),
            Option::None => scan_shifts(data, msb_first, shift + 1),
        }
    }
}

/// The whole alignment search: all eight bit shifts in MSB-first order,
/// then all eight in LSB-first order.
pub open spec fn spec_extract_frame_data(data: Seq<u8>) -> Option<Seq<u8>> {
    match scan_shifts(data, true, 0) {
        Option::Some(r) => Some(r),
        Option::None => scan_shifts(data, false, 0),
    }
}

/// Unpack a byte slice into its bits, least significant bit of each byte
/// first.
fn bytes_to_bits_lsb(data: &[u8]) -> (r: Vec<u8>)
    ensures
        r@ == stream_bits(data@, false),
        crate::bits::is_bit_seq(r@),
{
    let mut bits: Vec<u8> = Vec::new();
    let mut i: usize = 0;
    while i < data.len()
        invariant
            0 <= i <= data@.len(),
            bits@ =~= stream_bits(data@.subrange(0, i as int), false),
            crate::bits::is_bit_seq(bits@),
        decreases data@.len() - i,
    {
        let b = data[i];
        let mut k: usize = 0;
        while k < 8
            invariant
                0 <= k <= 8,
                0 <= i < data@.len(),
                b == data@[i as int],
                bits@ =~= stream_bits(data@.subrange(0, i as int), false) + Seq::new(
                    k as nat,
                    |t: int| bit_at(b, 7 - t),
                ),
                crate::bits::is_bit_seq(bits@),
            decreases 8 - k,
        {
            let shift = k as u8;
            let bit = (b >> shift) & 1;
            proof {
                assert((b >> shift) & 1 <= 1) by (bit_vector);
                assert(bit == bit_at(b, 7 - k)) by {
                    assert(bit_at(b, 7 - (k as int)) == (b >> ((7 - (7 - (k as int))) as u8))
                        & 1);
                }
            }
            bits.push(bit);
            k = k + 1;
            assert(bits@ =~= stream_bits(data@.subrange(0, i as int), false) + Seq::new(
                k as nat,
                |t: int| bit_at(b, 7 - t),
            ));
        }
        i = i + 1;
        assert(bits@ =~= stream_bits(data@.subrange(0, i as int), false));
    }
    assert(data@.subrange(0, data@.len() as int) =~= data@);
    bits
}

/// Pack the full eight-bit chunks of `bits` starting at `shift` into
/// bytes, in the given bit order; a final partial chunk is dropped.
fn repack(bits: &[u8], shift: usize, msb_first: bool) -> (r: Vec<u8>)
    requires
        crate::bits::is_bit_seq(bits@),
        shift <= bits@.len(),
    ensures
        ({
            let tail = bits@.skip(shift as int);
            let full = tail.take(8 * (tail.len() as int / 8));
            if msb_first {
                r@ == pack_bits(full)
            } else {
                r@ == Seq::new(
                    full.len() / 8,
                    |i: int| byte_of_bits(rev8(full.subrange(8 * i, 8 * i + 8))),
                )
            }
        }),
{
    let ghost tail = bits@.skip(shift as int);
    let ghost full = tail.take(8 * (tail.len() as int / 8));
    let ghost goal: Seq<u8> = if msb_first {
        pack_bits(full)
    } else {
        Seq::new(full.len() / 8, |i: int| byte_of_bits(rev8(full.subrange(8 * i, 8 * i + 8))))
    };
    let mut out: Vec<u8> = Vec::new();
    let n = bits.len();
    let mut i: usize = shift;
    while n - i >= 8 && i <= n
        invariant
            crate::bits::is_bit_seq(bits@),
            n == bits@.len(),
            shift <= i <= n,
            (i - shift) % 8 == 0,
            tail == bits@.skip(shift as int),
            full == tail.take(8 * (tail.len() as int / 8)),
            goal == (if msb_first {
                pack_bits(full)
            } else {
                Seq::new(
                    full.len() / 8,
                    |t: int| byte_of_bits(rev8(full.subrange(8 * t, 8 * t + 8))),
                )
            }),
            out@.len() == (i - shift) / 8,
            out@ =~= goal.subrange(0, (i as int - shift) / 8),
        decreases bits@.len() - i,
    {
        let b0 = bits[i];
        let b1 = bits[i + 1];
        let b2 = bits[i + 2];
        let b3 = bits[i + 3];
        let b4 = bits[i + 4];
        let b5 = bits[i + 5];
        let b6 = bits[i + 6];
        let b7 = bits[i + 7];
        let byte = if msb_first {
            b0 * 128 + b1 * 64 + b2 * 32 + b3 * 16 + b4 * 8 + b5 * 4 + b6 * 2 + b7
        } else {
            b7 * 128 + b6 * 64 + b5 * 32 + b4 * 16 + b3 * 8 + b2 * 4 + b1 * 2 + b0
        };
        proof {
            let j = (i as int - shift) / 8;
            assert(8 * j == i - shift);
            assert(goal.len() == full.len() / 8);
            assert(full.len() == 8 * (tail.len() as int / 8));
            assert(j < full.len() / 8) by {
                assert(i + 8 <= bits@.len());
                assert(tail.len() == bits@.len() - shift);
                assert(8 * j + 8 <= tail.len());
                assert(8 * (tail.len() as int / 8) >= 8 * j + 8) by {
                    vstd::arithmetic::div_mod::lemma_fundamental_div_mod(tail.len() as int, 8);
                }
            }
            assert(full.subrange(8 * j, 8 * j + 8) =~= bits@.subrange(i as int, i as int + 8));
            if msb_first {
                assert(byte == byte_of_bits(full.subrange(8 * j, 8 * j + 8)));
            } else {
                assert(rev8(full.subrange(8 * j, 8 * j + 8)) =~= Seq::new(
                    8,
                    |t: int| bits@[i + 7 - t],
                ));
                assert(byte == byte_of_bits(rev8(full.subrange(8 * j, 8 * j + 8))));
            }
        }
        out.push(byte);
        i = i + 8;
        assert(out@ =~= goal.subrange(0, (i as int - shift) / 8));
    }
    proof {
        let q = (i as int - shift) / 8;
        assert(8 * q == i - shift);
        vstd::arithmetic::div_mod::lemma_fundamental_div_mod_converse(
            n as int - shift,
            8,
            q,
            n as int - shift - 8 * q,
        );
        assert(tail.len() as int / 8 == q);
        assert((8 * (tail.len() as int / 8)) / 8 == tail.len() as int / 8) by (nonlinear_arith);
        assert(out@.len() == goal.len());
        assert(out@ =~= goal);
    }
    out
}

/// Search one repacked stream for the sync patterns and return the bytes
/// after the first match.
fn scan_candidate(stream: &Vec<u8>) -> (r: Option<Vec<u8>>)
    ensures
        match r {
            Some(v) => scan_stream(stream@) == Some(v@),
            None => scan_stream(stream@) is None,
        },
{
    let stream_len = stream.len();
    let sync = sync_pattern();
    let sync_inv = vec![0xAAu8, 0xAAu8, 0xAAu8, 0xAAu8, 0x55u8, 0x55u8, 0x81u8, 0x81u8];
    let flag = vec![0x7Eu8, 0x7Eu8];
    let flag_inv = vec![0x81u8, 0x81u8];
    proof {
        assert(sync_inv@ =~= spec_sync_inv());
        assert(flag@ =~= spec_flag());
        assert(flag_inv@ =~= spec_flag_inv());
    }
    match find_pattern(stream.as_slice(), sync.as_slice(), 0) {
        Option::Some(p) => {
            proof {
                lemma_first_match_is_match(stream@, spec_sync(), 0);
            }
            let v = tail_from(stream, p + 8);
            return Some(v);
        },
        Option::None => {},
    }
    match find_pattern(stream.as_slice(), sync_inv.as_slice(), 0) {
        Option::Some(p) => {
            proof {
                lemma_first_match_is_match(stream@, spec_sync_inv(), 0);
            }
            let v = tail_from(stream, p + 8);
            return Some(v);
        },
        Option::None => {},
    }
    match find_pattern(stream.as_slice(), flag.as_slice(), 0) {
        Option::Some(p) => {
            proof {
                lemma_first_match_is_match(stream@, spec_flag(), 0);
            }
            let v = tail_from(stream, p + 2);
            return Some(v);
        },
        Option::None => {},
    }
    match find_pattern(stream.as_slice(), flag_inv.as_slice(), 0) {
        Option::Some(p) => {
            proof {
                lemma_first_match_is_match(stream@, spec_flag_inv(), 0);
            }
            let v = tail_from(stream, p + 2);
            return Some(v);
        },
        Option::None => {},
    }
    None
}

/// The suffix of a byte vector from the given position.
fn tail_from(v: &Vec<u8>, start: usize) -> (r: Vec<u8>)
    requires
        start <= v@.len(),
    ensures
        r@ == v@.skip(start as int),
{
    let s = vstd::slice::slice_subrange(v.as_slice(), start, v.len());
    let r = vstd::slice::slice_to_vec(s);
    assert(r@ =~= v@.skip(start as int));
    r
}

/// Find the start of frame data after sync pattern: try every bit shift
/// in both bit orders and hand back the bytes after the first sync found.
pub fn extract_frame_data_any_alignment(data: &[u8]) -> (r: Option<Vec<u8>>)
    ensures
        match r {
            Some(v) => spec_extract_frame_data(data@) == Some(v@),
            None => spec_extract_frame_data(data@) is None,
        },
{
    let bits_msb = bytes_to_bits_msb(data);
    match try_order(data, &bits_msb, true) {
        Option::Some(v) => Some(v),
        Option::None => {
            let bits_lsb = bytes_to_bits_lsb(data);
            try_order(data, &bits_lsb, false)
        },
    }
}

/// Scan the eight bit shifts of one bit order.
fn try_order(data: &[u8], bits: &Vec<u8>, msb_first: bool) -> (r: Option<Vec<u8>>)
    requires
        crate::bits::is_bit_seq(bits@),
        bits@ == stream_bits(data@, msb_first),
    ensures
        match r {
            Some(v) => scan_shifts(data@, msb_first, 0) == Some(v@),
            None => scan_shifts(data@, msb_first, 0) is None,
        },
{
    let mut shift: usize = 0;
    while shift < 8
        invariant
            0 <= shift <= 8,
            crate::bits::is_bit_seq(bits@),
            bits@ == stream_bits(data@, msb_first),
            scan_shifts(data@, msb_first, 0) == scan_shifts(data@, msb_first, shift as int),
        decreases 8 - shift,
    {
        if bits.len() <= shift {
            proof {
                assert(scan_shifts(data@, msb_first, shift as int) is None);
            }
            return None;
        }
        let stream = repack(bits.as_slice(), shift, msb_first);
        proof {
            assert(stream@ == aligned_stream(data@, msb_first, shift as int));
        }
        match scan_candidate(&stream) {
            Option::Some(v) => {
                return Some(v);
            },
            Option::None => {},
        }
        shift = shift + 1;
    }
    None
}

/// Sync recovery from an aligned stream: when a transmitted byte stream
/// begins with the sync preamble, the alignment search finds it at once
/// and returns exactly the bytes that follow it.
pub proof fn lemma_sync_recovery_direct(data: Seq<u8>)
    requires
        data.len() >= 8,
        data.subrange(0, 8) == spec_sync(),
    ensures
        spec_extract_frame_data(data) == Some(data.skip(8)),
{
    lemma_bytes_bits_inverse(data);
    let bits = stream_bits(data, true);
    assert(bits.skip(0) =~= bits);
    assert(bits.take(8 * (bits.len() as int / 8)) =~= bits);
    assert(aligned_stream(data, true, 0) == data);
    assert(match_at(data, spec_sync(), 0));
    assert(first_match_from(data, spec_sync(), 0) == Some(0int));
    assert(scan_stream(data) == Some(data.skip(8)));
    assert(8 * data.len() > 0);
}

/// Sync recovery is alignment-free: whichever bit shift first lines the
/// stream up with the sync preamble is the one the search answers from,
/// provided no earlier-tried shift shows a pattern of its own.
pub proof fn lemma_sync_recovery_shifted(data: Seq<u8>, c: int)
    requires
        0 <= c < 8,
        8 * data.len() > c,
        forall|sh: int|
            0 <= sh < c ==> scan_stream(aligned_stream(data, true, #[trigger] (sh * 1))) is None,
        aligned_stream(data, true, c).len() >= 8,
        aligned_stream(data, true, c).subrange(0, 8) == spec_sync(),
    ensures
        spec_extract_frame_data(data) == Some(aligned_stream(data, true, c).skip(8)),
{
    let s = aligned_stream(data, true, c);
    assert(match_at(s, spec_sync(), 0));
    assert(first_match_from(s, spec_sync(), 0) == Some(0int));
    assert(scan_stream(s) == Some(s.skip(8)));
    lemma_scan_shifts_reach(data, true, 0, c);
}

/// The shift scan walks past pattern-free shifts to the first that
/// answers.
proof fn lemma_scan_shifts_reach(data: Seq<u8>, msb_first: bool, sh: int, c: int)
    requires
        0 <= sh <= c < 8,
        8 * data.len() > c,
        forall|t: int|
            0 <= t < c ==> scan_stream(
                aligned_stream(data, msb_first, #[trigger] (t * 1)),
            ) is None,
        scan_stream(aligned_stream(data, msb_first, c)) is Some,
    ensures
        scan_shifts(data, msb_first, sh) == scan_stream(aligned_stream(data, msb_first, c)),
    decreases c - sh,
{
    if sh == c {
    } else {
        assert(scan_stream(aligned_stream(data, msb_first, sh * 1)) is None);
        lemma_scan_shifts_reach(data, msb_first, sh + 1, c);
    }
}

/// Sync recovery survives bit-order reversal: when no shift of the
/// MSB-first reading shows a pattern, the scan falls through to the
/// LSB-first reading and answers from the first of its shifts that
/// lines up with the sync preamble.
pub proof fn lemma_sync_recovery_reversed(data: Seq<u8>, c: int)
    requires
        0 <= c < 8,
        8 * data.len() > c,
        scan_shifts(data, true, 0) is None,
        forall|sh: int|
            0 <= sh < c ==> scan_stream(aligned_stream(data, false, #[trigger] (sh * 1))) is None,
        aligned_stream(data, false, c).len() >= 8,
        aligned_stream(data, false, c).subrange(0, 8) == spec_sync(),
    ensures
        spec_extract_frame_data(data) == Some(aligned_stream(data, false, c).skip(8)),
{
    let s = aligned_stream(data, false, c);
    assert(match_at(s, spec_sync(), 0));
    assert(first_match_from(s, spec_sync(), 0) == Some(0int));
    assert(scan_stream(s) == Some(s.skip(8)));
    lemma_scan_shifts_reach(data, false, 0, c);
}

/// Sync recovery under inverted polarity: when the stream begins with
/// the inverted preamble and the direct preamble occurs nowhere in it,
/// the search returns exactly the bytes after the inverted preamble.
pub proof fn lemma_sync_recovery_inverted(data: Seq<u8>)
    requires
        data.len() >= 8,
        data.subrange(0, 8) == spec_sync_inv(),
        first_match_from(data, spec_sync(), 0) is None,
    ensures
        spec_extract_frame_data(data) == Some(data.skip(8)),
{
    lemma_bytes_bits_inverse(data);
    let bits = stream_bits(data, true);
    assert(bits.skip(0) =~= bits);
    assert(bits.take(8 * (bits.len() as int / 8)) =~= bits);
    assert(aligned_stream(data, true, 0) == data);
    assert(match_at(data, spec_sync_inv(), 0));
    assert(first_match_from(data, spec_sync_inv(), 0) == Some(0int));
    assert(scan_stream(data) == Some(data.skip(8)));
    assert(8 * data.len() > 0);
}

} // verus!
