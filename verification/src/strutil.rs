//! String helpers for the verified core: character extraction, string
//! building, comparisons, and case mapping.

use vstd::prelude::*;

verus! {

/// Relies on `char::from_u32`: `Some` exactly on Unicode scalar values
/// (not a surrogate, at most `0x10FFFF`), returning the character with
/// that code point.
#[verifier::external_body]
fn char_from_u32(x: u32) -> (r: Option<char>)
    ensures
        match r {
            Some(c) => vstd::utf8::is_scalar(x) && c as u32 == x,
            None => !vstd::utf8::is_scalar(x),
        },
{
    char::from_u32(x)
}

/// The UTF-8 bytes of one character.
pub fn encode_char(c: char) -> (v: Vec<u8>)
    ensures
        v@ == vstd::utf8::encode_scalar(c as u32),
        1 <= v@.len() <= 4,
{
    proof {
        vstd::utf8::char_is_scalar(c);
    }
    let x = c as u32;
    let mut v: Vec<u8> = Vec::new();
    if x <= 0x7F {
        v.push((x & 0x7F) as u8);
        assert(v@ =~= vstd::utf8::encode_scalar(x));
    } else if x <= 0x7FF {
        v.push(0xC0 | ((x >> 6) & 0x1F) as u8);
        v.push(0x80 | (x & 0x3F) as u8);
        assert(v@ =~= vstd::utf8::encode_scalar(x));
    } else if x <= 0xFFFF {
        v.push(0xE0 | ((x >> 12) & 0x0F) as u8);
        v.push(0x80 | ((x >> 6) & 0x3F) as u8);
        v.push(0x80 | (x & 0x3F) as u8);
        assert(v@ =~= vstd::utf8::encode_scalar(x));
    } else {
        v.push(0xF0 | ((x >> 18) & 0x7) as u8);
        v.push(0x80 | ((x >> 12) & 0x3F) as u8);
        v.push(0x80 | ((x >> 6) & 0x3F) as u8);
        v.push(0x80 | (x & 0x3F) as u8);
        assert(v@ =~= vstd::utf8::encode_scalar(x));
    }
    v
}

/// Decode the first scalar of the byte suffix starting at `i`: the
/// character and its encoded length, or `None` when no well-formed
/// scalar encoding starts there.
pub fn decode_scalar_at(bytes: &[u8], i: usize) -> (r: Option<(char, usize)>)
    requires
        i < bytes@.len(),
    ensures
        ({
            let suf = bytes@.subrange(i as int, bytes@.len() as int);
            match r {
                Some(p) => vstd::utf8::valid_first_scalar(suf) && p.0 as u32
                    == vstd::utf8::decode_first_scalar(suf) && p.1
                    == vstd::utf8::length_of_first_scalar(suf) && 1 <= p.1 <= 4 && i + p.1
                    <= bytes@.len(),
                None => !vstd::utf8::valid_first_scalar(suf),
            }
        }),
{
    let ghost suf = bytes@.subrange(i as int, bytes@.len() as int);
    let n = bytes.len();
    let b0 = bytes[i];
    if b0 <= 0x7F {
        let cp = (b0 & 0x7F) as u32;
        match char_from_u32(cp) {
            Some(c) => Some((c, 1)),
            None => {
                proof {
                    assert(vstd::utf8::is_scalar(cp));
                }
                None
            },
        }
    } else if 0xC0 <= b0 && b0 <= 0xDF {
        if n - i < 2 || !(0x80 <= bytes[i + 1] && bytes[i + 1] <= 0xBF) {
            return None;
        }
        let b1 = bytes[i + 1];
        let cp = (((b0 & 0x1F) as u32) << 6) | ((b1 & 0x3F) as u32);
        if cp < 0x80 {
            return None;
        }
        proof {
            assert(vstd::utf8::is_scalar(cp)) by {
                assert((((b0 & 0x1F) as u32) << 6u32) | ((b1 & 0x3F) as u32) <= 0x7FF) by (bit_vector);
            }
        }
        match char_from_u32(cp) {
            Some(c) => Some((c, 2)),
            None => {
                proof {
                    assert(false);
                }
                None
            },
        }
    } else if 0xE0 <= b0 && b0 <= 0xEF {
        if n - i < 3 || !(0x80 <= bytes[i + 1] && bytes[i + 1] <= 0xBF) || !(0x80 <= bytes[i + 2]
            && bytes[i + 2] <= 0xBF) {
            return None;
        }
        let b1 = bytes[i + 1];
        let b2 = bytes[i + 2];
        let cp = (((b0 & 0x0F) as u32) << 12) | (((b1 & 0x3F) as u32) << 6) | ((b2
            & 0x3F) as u32);
        if cp < 0x800 || (0xD800 <= cp && cp <= 0xDFFF) {
            return None;
        }
        proof {
            assert(vstd::utf8::is_scalar(cp)) by {
                assert((((b0 & 0x0F) as u32) << 12u32) | (((b1 & 0x3F) as u32) << 6u32) | ((b2
                    & 0x3F) as u32) <= 0xFFFF) by (bit_vector);
            }
        }
        match char_from_u32(cp) {
            Some(c) => Some((c, 3)),
            None => {
                proof {
                    assert(false);
                }
                None
            },
        }
    } else if 0xF0 <= b0 && b0 <= 0xF7 {
        if n - i < 4 || !(0x80 <= bytes[i + 1] && bytes[i + 1] <= 0xBF) || !(0x80 <= bytes[i + 2]
            && bytes[i + 2] <= 0xBF) || !(0x80 <= bytes[i + 3] && bytes[i + 3] <= 0xBF) {
            return None;
        }
        let b1 = bytes[i + 1];
        let b2 = bytes[i + 2];
        let b3 = bytes[i + 3];
        let cp = (((b0 & 0x7) as u32) << 18) | (((b1 & 0x3F) as u32) << 12) | (((b2
            & 0x3F) as u32) << 6) | ((b3 & 0x3F) as u32);
        if !(0x10000 <= cp && cp <= 0x10FFFF) {
            return None;
        }
        match char_from_u32(cp) {
            Some(c) => Some((c, 4)),
            None => {
                proof {
                    assert(false);
                }
                None
            },
        }
    } else {
        None
    }
}

/// Decode a UTF-8 byte sequence to its characters, or `None` when the
/// bytes are not valid UTF-8.
pub fn utf8_decode(bytes: &[u8]) -> (r: Option<Vec<char>>)
    ensures
        match r {
            Some(v) => vstd::utf8::valid_utf8(bytes@) && v@ == vstd::utf8::decode_utf8(bytes@),
            None => !vstd::utf8::valid_utf8(bytes@),
        },
{
    let n = bytes.len();
    let mut out: Vec<char> = Vec::new();
    let mut i: usize = 0;
    proof {
        assert(bytes@.subrange(0, n as int) =~= bytes@);
    }
    while i < n
        invariant
            0 <= i <= n,
            n == bytes@.len(),
            vstd::utf8::valid_utf8(bytes@) <==> vstd::utf8::valid_utf8(
                bytes@.subrange(i as int, n as int),
            ),
            vstd::utf8::valid_utf8(bytes@) ==> vstd::utf8::decode_utf8(bytes@) == out@
                + vstd::utf8::decode_utf8(bytes@.subrange(i as int, n as int)),
        decreases n - i,
    {
        let ghost suf = bytes@.subrange(i as int, n as int);
        match decode_scalar_at(bytes, i) {
            Some(p) => {
                let (c, l) = p;
                out.push(c);
                proof {
                    assert(vstd::utf8::pop_first_scalar(suf) =~= bytes@.subrange(
                        (i + l) as int,
                        n as int,
                    ));
                    if vstd::utf8::valid_utf8(bytes@) {
                        vstd::utf8::char_u32_cast(c, vstd::utf8::decode_first_scalar(suf));
                        assert(vstd::utf8::decode_utf8(suf) == seq![c] + vstd::utf8::decode_utf8(
                            vstd::utf8::pop_first_scalar(suf),
                        ));
                        assert(out@ + vstd::utf8::decode_utf8(
                            bytes@.subrange((i + l) as int, n as int),
                        ) =~= out@.drop_last() + vstd::utf8::decode_utf8(suf));
                    }
                }
                i = i + l;
            },
            None => {
                proof {
                    assert(!vstd::utf8::valid_utf8(suf));
                }
                return None;
            },
        }
    }
    proof {
        assert(bytes@.subrange(i as int, n as int) =~= Seq::<u8>::empty());
        if vstd::utf8::valid_utf8(bytes@) {
            assert(out@ =~= vstd::utf8::decode_utf8(bytes@));
        }
    }
    Some(out)
}

/// The characters of a string as a vector.
pub fn str_chars(s: &str) -> (v: Vec<char>)
    ensures
        v@ == s@,
{
    proof {
        vstd::utf8::encode_utf8_valid_utf8(s@);
        vstd::utf8::encode_utf8_decode_utf8(s@);
    }
    match utf8_decode(s.as_bytes()) {
        Some(v) => v,
        None => {
            proof {
                assert(false);
            }
            Vec::new()
        },
    }
}

/// Relies on `String::push`: appends one character to the string.
#[verifier::external_body]
pub fn push_char(s: &mut String, c: char)
    ensures
        final(s)@ == old(s)@.push(c),
{
    s.push(c);
}

/// A string built from a vector of characters.
pub fn chars_to_string(v: &Vec<char>) -> (s: String)
    ensures
        s@ == v@,
{
    let mut s = String::new();
    let mut i: usize = 0;
    while i < v.len()
        invariant
            0 <= i <= v@.len(),
            s@ =~= v@.subrange(0, i as int),
        decreases v@.len() - i,
    {
        push_char(&mut s, v[i]);
        i = i + 1;
        assert(s@ =~= v@.subrange(0, i as int));
    }
    assert(s@ =~= v@);
    s
}

/// Character-wise equality of two vectors.
pub fn chars_eq(a: &Vec<char>, b: &Vec<char>) -> (r: bool)
    ensures
        r == (a@ == b@),
{
    if a.len() != b.len() {
        assert(a@ != b@) by {
            assert(a@.len() != b@.len());
        }
        return false;
    }
    let mut i: usize = 0;
    while i < a.len()
        invariant
            0 <= i <= a@.len(),
            a@.len() == b@.len(),
            forall|t: int| 0 <= t < i ==> a@[t] == b@[t],
        decreases a@.len() - i,
    {
        if a[i] != b[i] {
            assert(a@ != b@);
            return false;
        }
        i = i + 1;
    }
    proof {
        assert(a@ =~= b@);
    }
    true
}

/// Equality of two string slices, decided through their characters.
pub fn str_eq(a: &str, b: &str) -> (r: bool)
    ensures
        r == (a@ == b@),
{
    let av = str_chars(a);
    let bv = str_chars(b);
    chars_eq(&av, &bv)
}

/// Whether a character is an ASCII letter or digit.
pub open spec fn spec_is_alnum(c: char) -> bool {
    ('0' <= c && c <= '9') || ('a' <= c && c <= 'z') || ('A' <= c && c <= 'Z')
}

/// Whether a character is an ASCII letter or digit.
pub fn is_ascii_alnum(c: char) -> (r: bool)
    ensures
        r == spec_is_alnum(c),
{
    ('0' <= c && c <= '9') || ('a' <= c && c <= 'z') || ('A' <= c && c <= 'Z')
}

/// An ASCII uppercase letter mapped to lowercase; all else unchanged.
pub open spec fn spec_ascii_lower(c: char) -> char {
    if 'A' <= c && c <= 'Z' {
        (((c as u32) + 32) as u8) as char
    } else {
        c
    }
}

/// An ASCII uppercase letter mapped to lowercase; all else unchanged.
pub fn ascii_lower(c: char) -> (r: char)
    ensures
        r == spec_ascii_lower(c),
{
    if 'A' <= c && c <= 'Z' {
        (((c as u32) + 32) as u8) as char
    } else {
        c
    }
}

/// A character sequence mapped to ASCII lowercase.
pub open spec fn spec_ascii_lower_seq(s: Seq<char>) -> Seq<char> {
    s.map_values(|c: char| spec_ascii_lower(c))
}

/// A character vector mapped to ASCII lowercase.
pub fn ascii_lower_chars(v: &Vec<char>) -> (r: Vec<char>)
    ensures
        r@ == spec_ascii_lower_seq(v@),
{
    let mut out: Vec<char> = Vec::new();
    let mut i: usize = 0;
    while i < v.len()
        invariant
            0 <= i <= v@.len(),
            out@ =~= spec_ascii_lower_seq(v@).subrange(0, i as int),
        decreases v@.len() - i,
    {
        out.push(ascii_lower(v[i]));
        i = i + 1;
        assert(out@ =~= spec_ascii_lower_seq(v@).subrange(0, i as int));
    }
    assert(out@ =~= spec_ascii_lower_seq(v@));
    out
}

/// What `str::to_uppercase` returns: the Unicode uppercase mapping,
/// a function of the characters alone.
pub uninterp spec fn upper_of(s: Seq<char>) -> Seq<char>;

/// Relies on `str::to_uppercase`: the Unicode uppercase mapping of the
/// string, which depends on its characters alone.  An empty string stays
/// empty.
#[verifier::external_body]
pub fn to_upper(s: &str) -> (r: String)
    ensures
        r@ == upper_of(s@),
        s@.len() == 0 ==> r@.len() == 0,
{
    s.to_uppercase()
}

} // verus!
