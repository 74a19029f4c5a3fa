//! Text codecs: the canonical Huffman coder over the built-in English
//! model with ham-token aliasing and a bit-level container format, and
//! the plain pass-through codec.
//!
//! The container holds a 16-bit big-endian count of meaningful payload
//! bits, the payload bits, and zero padding to the next byte boundary.
//! Characters outside the code table ride in an escape: twenty one-bits,
//! two bits holding the encoded length less one, and the character's
//! UTF-8 bytes, most significant bit first.

use vstd::prelude::*;
use crate::bits::{
    byte_bits, bytes_bits, bytes_to_bits_msb, bits_to_bytes_msb, byte_of_bits, is_bit_seq,
    pack_bits, pad_to_byte,
};
use crate::errors::CodecError;
use crate::strutil::{
    chars_to_string, encode_char, spec_ascii_lower, str_chars, utf8_decode,
};

verus! {

/// One node of the decode trie.  Child index `0` means no child: the
/// root always occupies index `0` and is never anyone's child.
#[derive(Debug, Clone, Copy)]
pub struct TrieNode {
    pub left: usize,
    pub right: usize,
    pub sym: Option<char>,
}

/// One row of the encode table: a symbol and its code bits.
#[derive(Debug, Clone)]
pub struct CodeEntry {
    pub sym: char,
    pub bits: Vec<u8>,
}

/// One ham token and the private-use sentinel that stands for it.
#[derive(Debug, Clone)]
pub struct TokenEntry {
    pub text: Vec<char>,
    pub sentinel: char,
}

/// The mathematical view of a codec: its code table, decode trie, and
/// token list in greedy matching order.
pub struct CodecView {
    pub codes: Seq<(char, Seq<u8>)>,
    pub nodes: Seq<TrieNode>,
    pub tokens: Seq<(Seq<char>, char)>,
}

/// Huffman coding implementation for text compression
pub struct HuffmanCodec {
    codes: Vec<CodeEntry>,
    nodes: Vec<TrieNode>,
    tokens: Vec<TokenEntry>,
}

/// The code table rows as (symbol, bits) pairs.
pub open spec fn code_views(s: Seq<CodeEntry>) -> Seq<(char, Seq<u8>)> {
    Seq::new(s.len(), |k: int| (s[k].sym, s[k].bits@))
}

/// The token rows as (text, sentinel) pairs.
pub open spec fn token_views(s: Seq<TokenEntry>) -> Seq<(Seq<char>, char)> {
    Seq::new(s.len(), |k: int| (s[k].text@, s[k].sentinel))
}

impl View for HuffmanCodec {
    type V = CodecView;

    closed spec fn view(&self) -> CodecView {
        CodecView {
            codes: code_views(self.codes@),
            nodes: self.nodes@,
            tokens: token_views(self.tokens@),
        }
    }
}

/// The code bits of a symbol: the first table row that carries it.
pub open spec fn spec_code_of(codes: Seq<(char, Seq<u8>)>, c: char) -> Option<Seq<u8>>
    decreases codes.len(),
{
    if codes.len() == 0 {
        None
    } else if codes[0].0 == c {
        Some(codes[0].1)
    } else {
        spec_code_of(codes.drop_first(), c)
    }
}

/// Case-insensitive ASCII character equality.
pub open spec fn eq_ic(a: char, b: char) -> bool {
    spec_ascii_lower(a) == spec_ascii_lower(b)
}

/// Whether the token's characters match at position `i`, ignoring ASCII
/// case.
pub open spec fn token_chars_match(cs: Seq<char>, i: int, tok: Seq<char>) -> bool {
    &&& i + tok.len() <= cs.len()
    &&& forall|k: int| 0 <= k < tok.len() ==> eq_ic(cs[i + k], #[trigger] tok[k])
}

/// The word-boundary rule: both neighbours of the matched span must be
/// absent or non-alphanumeric.
pub open spec fn token_boundary_ok(cs: Seq<char>, i: int, tlen: int) -> bool {
    &&& (i == 0 || !crate::strutil::spec_is_alnum(cs[i - 1]))
    &&& (i + tlen >= cs.len() || !crate::strutil::spec_is_alnum(cs[i + tlen]))
}

/// The greedy token match at position `i`, trying tokens from index `t`
/// on: the matched token's code bits, character length, and sentinel.
pub open spec fn spec_token_match_from(v: CodecView, cs: Seq<char>, i: int, t: int) -> Option<
    (Seq<u8>, int, char),
>
    decreases v.tokens.len() - t,
{
    if t < 0 || t >= v.tokens.len() {
        None
    } else {
        let tok = v.tokens[t].0;
        let sent = v.tokens[t].1;
        if token_chars_match(cs, i, tok) && token_boundary_ok(cs, i, tok.len() as int)
            && spec_code_of(v.codes, sent) is Some {
            Some((spec_code_of(v.codes, sent)->Some_0, tok.len() as int, sent))
        } else {
            spec_token_match_from(v, cs, i, t + 1)
        }
    }
}

/// The escape bit sequence of one character: twenty ones, the encoded
/// length less one in two bits, then the UTF-8 bytes.
pub open spec fn escape_bits(c: char) -> Seq<u8> {
    let enc = vstd::utf8::encode_scalar(c as u32);
    let lf = (enc.len() - 1) as u8;
    Seq::new(20, |t: int| 1u8) + seq![(lf >> 1u8) & 1, lf & 1] + bytes_bits(enc)
}

/// The payload bits of a character sequence from position `i` on:
/// greedy token codes, table codes, and escapes.
pub open spec fn spec_encode_bits(v: CodecView, cs: Seq<char>, i: int) -> Seq<u8>
    decreases cs.len() - i, 1nat,
{
    if i < 0 || i >= cs.len() {
        Seq::empty()
    } else {
        match spec_token_match_from(v, cs, i, 0) {
            Option::Some(m) => {
                if 1 <= m.1 && i + m.1 <= cs.len() {
                    m.0 + spec_encode_bits(v, cs, i + m.1)
                } else {
                    m.0 + spec_encode_bits_next(v, cs, i)
                }
            },
            Option::None => {
                let head = match spec_code_of(v.codes, cs[i]) {
                    Option::Some(code) => code,
                    Option::None => escape_bits(cs[i]),
                };
                head + spec_encode_bits_next(v, cs, i)
            },
        }
    }
}

/// The continuation of the payload bits after a single-character step.
pub open spec fn spec_encode_bits_next(v: CodecView, cs: Seq<char>, i: int) -> Seq<u8>
    decreases cs.len() - i, 0nat,
{
    if 0 <= i < cs.len() {
        spec_encode_bits(v, cs, i + 1)
    } else {
        Seq::empty()
    }
}

/// The sixteen bits of a 16-bit value, most significant first.
pub open spec fn u16_bits(x: u16) -> Seq<u8> {
    Seq::new(16, |t: int| ((x >> ((15 - t) as u16)) & 1) as u8)
}

/// The container bytes of a payload bit sequence: the truncated bit
/// count, the bits, and zero padding.
pub open spec fn spec_container(payload: Seq<u8>) -> Seq<u8> {
    pack_bits(pad_to_byte(u16_bits((payload.len() % 0x10000) as u16) + payload))
}

/// What Huffman encoding produces for a character sequence.
pub open spec fn spec_huffman_encode(v: CodecView, cs: Seq<char>) -> Seq<u8> {
    spec_container(spec_encode_bits(v, cs, 0))
}

/// Every child index points into the trie; index `0` stands for an
/// absent child.
pub open spec fn trie_wf(nodes: Seq<TrieNode>) -> bool {
    &&& nodes.len() >= 1
    &&& forall|j: int|
        0 <= j < nodes.len() ==> (#[trigger] nodes[j]).left < nodes.len() && nodes[j].right
            < nodes.len()
}

/// Every code is a non-empty bit sequence of bounded length.
pub open spec fn codes_wf(codes: Seq<(char, Seq<u8>)>) -> bool {
    forall|k: int|
        0 <= k < codes.len() ==> is_bit_seq((#[trigger] codes[k]).1) && 1 <= codes[k].1.len()
            <= 64
}

/// Every token has at least one character.
pub open spec fn tokens_wf(tokens: Seq<(Seq<char>, char)>) -> bool {
    forall|t: int| 0 <= t < tokens.len() ==> (#[trigger] tokens[t]).0.len() >= 1
}

/// The trie path of a code from bit `j` at node `cur`: every inner node
/// is unmarked, every branch taken exists, and the walk ends on a leaf
/// carrying the symbol and nothing below it.
pub open spec fn path_ok(nodes: Seq<TrieNode>, code: Seq<u8>, j: int, cur: int, sym: char) -> bool
    decreases code.len() - j,
{
    if j < 0 || j >= code.len() {
        &&& 0 <= cur < nodes.len()
        &&& nodes[cur].sym == Some(sym)
        &&& nodes[cur].left == 0
        &&& nodes[cur].right == 0
    } else {
        &&& 0 <= cur < nodes.len()
        &&& nodes[cur].sym is None
        &&& code[j] <= 1
        &&& {
            let child = if code[j] == 0 {
                nodes[cur].left as int
            } else {
                nodes[cur].right as int
            };
            child != 0 && child < nodes.len() && path_ok(nodes, code, j + 1, child, sym)
        }
    }
}

/// The decode trie inverts a code table: every code's bit path leads
/// from the root to a leaf holding its symbol.  With the leaf conditions
/// this makes the code set prefix-free.
pub open spec fn codes_paths_ok(codes: Seq<(char, Seq<u8>)>, nodes: Seq<TrieNode>) -> bool {
    forall|k: int|
        0 <= k < codes.len() ==> path_ok(nodes, (#[trigger] codes[k]).1, 0, 0, codes[k].0)
}

/// The codec's own trie inverts its own table.
pub open spec fn tables_consistent(v: CodecView) -> bool {
    codes_paths_ok(v.codes, v.nodes)
}

/// The fixed (symbol, weight) model: space, both cases of each letter
/// at its English weight, the digits, common punctuation, and one
/// high-weight entry per token sentinel.
pub open spec fn spec_english_base() -> Seq<(char, u32)> {
    seq![
        (' ', 700u32),
        ('E', 120u32),
        ('e', 120u32),
        ('T', 90u32),
        ('t', 90u32),
        ('A', 81u32),
        ('a', 81u32),
        ('O', 75u32),
        ('o', 75u32),
        ('I', 70u32),
        ('i', 70u32),
        ('N', 67u32),
        ('n', 67u32),
        ('S', 63u32),
        ('s', 63u32),
        ('H', 61u32),
        ('h', 61u32),
        ('R', 60u32),
        ('r', 60u32),
        ('D', 43u32),
        ('d', 43u32),
        ('L', 40u32),
        ('l', 40u32),
        ('C', 28u32),
        ('c', 28u32),
        ('U', 28u32),
        ('u', 28u32),
        ('M', 24u32),
        ('m', 24u32),
        ('W', 24u32),
        ('w', 24u32),
        ('F', 22u32),
        ('f', 22u32),
        ('G', 20u32),
        ('g', 20u32),
        ('Y', 20u32),
        ('y', 20u32),
        ('P', 19u32),
        ('p', 19u32),
        ('B', 15u32),
        ('b', 15u32),
        ('V', 10u32),
        ('v', 10u32),
        ('K', 8u32),
        ('k', 8u32),
        ('J', 2u32),
        ('j', 2u32),
        ('X', 2u32),
        ('x', 2u32),
        ('Q', 1u32),
        ('q', 1u32),
        ('Z', 1u32),
        ('z', 1u32),
        ('0', 8u32),
        ('1', 8u32),
        ('2', 8u32),
        ('3', 8u32),
        ('4', 8u32),
        ('5', 8u32),
        ('6', 8u32),
        ('7', 8u32),
        ('8', 8u32),
        ('9', 8u32),
        ('.', 12u32),
        (',', 12u32),
        ('!', 6u32),
        ('?', 6u32),
        (':', 4u32),
        (';', 4u32),
        ('-', 7u32),
        ('\'', 5u32),
        ('"', 3u32),
        ('(', 2u32),
        (')', 2u32),
        ('/', 2u32),
    ]
}

/// The whole frequency model handed to the table construction.
pub open spec fn spec_english_freqs(tokens: Seq<(Seq<char>, char)>) -> Seq<(char, u32)> {
    spec_english_base() + Seq::new(tokens.len(), |j: int| (tokens[j].1, 180u32))
}

/// The degenerate tables of a failed construction: no codes, a bare
/// root, every character carried by the escape.
pub open spec fn spec_fallback_tables(v: CodecView) -> bool {
    v.codes.len() == 0 && v.nodes == seq![(TrieNode { left: 0, right: 0, sym: None })]
}

/// The view of a codec built from the built-in English model: the fixed
/// token list, and the tables the construction pipeline yields for the
/// fixed frequency model (or the escape-only fallback where the
/// pipeline or its consistency validation refuses).
pub open spec fn spec_is_english_codec(v: CodecView) -> bool {
    &&& v.tokens == spec_english_tokens()
    &&& match spec_build_codes(spec_english_freqs(spec_english_tokens())) {
        Option::Some(t) => {
            if codes_paths_ok(t.0, t.1) {
                v.codes == t.0 && v.nodes == t.1
            } else {
                spec_fallback_tables(v)
            }
        },
        Option::None => spec_fallback_tables(v),
    }
}

/// The built-in tables are reproducible: any two codecs built from the
/// built-in model carry identical token lists, code tables and decode
/// tries, so their encodings and decodings agree across instances and
/// runs.
pub proof fn lemma_new_english_deterministic(a: CodecView, b: CodecView)
    requires
        spec_is_english_codec(a),
        spec_is_english_codec(b),
    ensures
        a.codes == b.codes,
        a.nodes == b.nodes,
        a.tokens == b.tokens,
{
}

/// The built-in token list: the ham abbreviations in greedy matching
/// order (longest first), each with its private-use sentinel.
pub open spec fn spec_english_tokens() -> Seq<(Seq<char>, char)> {
    seq![
        ("QRZ"@, '\u{E000}'),
        ("QRM"@, '\u{E001}'),
        ("QRO"@, '\u{E002}'),
        ("QRP"@, '\u{E003}'),
        ("QRS"@, '\u{E004}'),
        ("QRT"@, '\u{E005}'),
        ("QRB"@, '\u{E006}'),
        ("QSB"@, '\u{E007}'),
        ("QSL"@, '\u{E008}'),
        ("QSO"@, '\u{E009}'),
        ("QSY"@, '\u{E00A}'),
        ("QTH"@, '\u{E00B}'),
        ("CQ"@, '\u{E00C}'),
        ("DE"@, '\u{E00D}'),
        ("BK"@, '\u{E00E}'),
        ("KN"@, '\u{E00F}'),
        ("AR"@, '\u{E011}'),
        ("SK"@, '\u{E012}'),
        ("YL"@, '\u{E013}'),
        ("OM"@, '\u{E014}'),
        ("73"@, '\u{E015}'),
        ("K"@, '\u{E010}'),
    ]
}

impl HuffmanCodec {
    /// The trie, the code table and the token list are well formed.
    pub open spec fn wf(&self) -> bool {
        trie_wf(self@.nodes) && codes_wf(self@.codes) && tokens_wf(self@.tokens)
    }

    /// Well formed, with a decode trie that inverts the code table.
    pub open spec fn consistent(&self) -> bool {
        self.wf() && tables_consistent(self@)
    }

    /// Find the code table row of a symbol.
    fn code_index(&self, c: char) -> (r: Option<usize>)
        ensures
            match r {
                Some(k) => k < self@.codes.len() && self@.codes[k as int].0 == c && spec_code_of(
                    self@.codes,
                    c,
                ) == Some(self@.codes[k as int].1),
                None => spec_code_of(self@.codes, c) is None,
            },
    {
        let mut k: usize = 0;
        proof {
            assert(self@.codes.skip(0) =~= self@.codes);
        }
        while k < self.codes.len()
            invariant
                0 <= k <= self@.codes.len(),
                spec_code_of(self@.codes, c) == spec_code_of(
                    self@.codes.skip(k as int),
                    c,
                ),
            decreases self@.codes.len() - k,
        {
            proof {
                assert(self@.codes.skip(k as int).drop_first() =~= self@.codes.skip(k as int + 1));
            }
            if self.codes[k].sym == c {
                return Some(k);
            }
            k = k + 1;
        }
        None
    }

    /// Try the greedy token match at position `i`.
    fn find_token(&self, cs: &Vec<char>, i: usize) -> (r: Option<(usize, usize)>)
        requires
            i < cs@.len(),
        ensures
            match r {
                Some(m) => m.0 < self@.codes.len() && (spec_token_match_from(
                    self@,
                    cs@,
                    i as int,
                    0,
                ) matches Some(sm) && sm.0 == self@.codes[m.0 as int].1 && sm.1 == m.1 as int),
                None => spec_token_match_from(self@, cs@, i as int, 0) is None,
            },
    {
        let n = cs.len();
        let mut t: usize = 0;
        while t < self.tokens.len()
            invariant
                0 <= t <= self@.tokens.len(),
                i < cs@.len(),
                n == cs@.len(),
                spec_token_match_from(self@, cs@, i as int, 0) == spec_token_match_from(
                    self@,
                    cs@,
                    i as int,
                    t as int,
                ),
            decreases self@.tokens.len() - t,
        {
            let tlen = self.tokens[t].text.len();
            if tlen <= n - i {
                let seg_ok = self.token_matches(cs, i, t);
                if seg_ok {
                    let prev_ok = if i == 0 {
                        true
                    } else {
                        !crate::strutil::is_ascii_alnum(cs[i - 1])
                    };
                    let next_ok = if i + tlen >= n {
                        true
                    } else {
                        !crate::strutil::is_ascii_alnum(cs[i + tlen])
                    };
                    if prev_ok && next_ok {
                        match self.code_index(self.tokens[t].sentinel) {
                            Option::Some(k) => {
                                return Some((k, tlen));
                            },
                            Option::None => {},
                        }
                    }
                }
            } else {
                proof {
                    assert(!token_chars_match(cs@, i as int, self@.tokens[t as int].0));
                }
            }
            t = t + 1;
        }
        None
    }

    /// Case-insensitive comparison of token `t` against the text at `i`.
    fn token_matches(&self, cs: &Vec<char>, i: usize, t: usize) -> (r: bool)
        requires
            t < self@.tokens.len(),
            i + self@.tokens[t as int].0.len() <= cs@.len(),
        ensures
            r == token_chars_match(cs@, i as int, self@.tokens[t as int].0),
    {
        let n = cs.len();
        let tlen = self.tokens[t].text.len();
        let mut k: usize = 0;
        while k < tlen
            invariant
                0 <= k <= tlen,
                t < self@.tokens.len(),
                tlen == self@.tokens[t as int].0.len(),
                i + tlen <= cs@.len(),
                n == cs@.len(),
                forall|x: int|
                    0 <= x < k ==> eq_ic(cs@[i + x], #[trigger] self@.tokens[t as int].0[x]),
            decreases tlen - k,
        {
            let a = crate::strutil::ascii_lower(cs[i + k]);
            let b = crate::strutil::ascii_lower(self.tokens[t].text[k]);
            if a != b {
                return false;
            }
            k = k + 1;
        }
        true
    }

    /// Append the escape bit sequence of one character.
    fn push_escape(bits: &mut Vec<u8>, c: char)
        ensures
            final(bits)@ == old(bits)@ + escape_bits(c),
            is_bit_seq(old(bits)@) ==> is_bit_seq(final(bits)@),
    {
        let ghost start = bits@;
        let mut k: usize = 0;
        while k < 20
            invariant
                0 <= k <= 20,
                bits@ =~= start + Seq::new(k as nat, |t: int| 1u8),
            decreases 20 - k,
        {
            bits.push(1);
            k = k + 1;
            assert(bits@ =~= start + Seq::new(k as nat, |t: int| 1u8));
        }
        let enc = encode_char(c);
        let lf = (enc.len() - 1) as u8;
        bits.push((lf >> 1) & 1);
        bits.push(lf & 1);
        proof {
            assert(((lf >> 1u8) & 1) <= 1 && (lf & 1) <= 1) by (bit_vector);
        }
        let mut j: usize = 0;
        while j < enc.len()
            invariant
                0 <= j <= enc@.len(),
                enc@ == vstd::utf8::encode_scalar(c as u32),
                1 <= enc@.len() <= 4,
                lf == (enc@.len() - 1) as u8,
                bits@ =~= start + Seq::new(20, |t: int| 1u8) + seq![(lf >> 1u8) & 1, lf & 1]
                    + bytes_bits(enc@.subrange(0, j as int)),
                is_bit_seq(start) ==> is_bit_seq(bits@),
            decreases enc@.len() - j,
        {
            let b = enc[j];
            let mut k2: usize = 0;
            while k2 < 8
                invariant
                    0 <= k2 <= 8,
                    0 <= j < enc@.len(),
                    b == enc@[j as int],
                    bits@ =~= start + Seq::new(20, |t: int| 1u8) + seq![
                        (lf >> 1u8) & 1,
                        lf & 1,
                    ] + bytes_bits(enc@.subrange(0, j as int)) + byte_bits(b).subrange(
                        0,
                        k2 as int,
                    ),
                    is_bit_seq(start) ==> is_bit_seq(bits@),
                decreases 8 - k2,
            {
                let shift = (7 - k2) as u8;
                let bit = (b >> shift) & 1;
                proof {
                    assert((b >> shift) & 1 <= 1) by (bit_vector);
                }
                bits.push(bit);
                k2 = k2 + 1;
                assert(bits@ =~= start + Seq::new(20, |t: int| 1u8) + seq![
                    (lf >> 1u8) & 1,
                    lf & 1,
                ] + bytes_bits(enc@.subrange(0, j as int)) + byte_bits(b).subrange(0, k2 as int));
            }
            j = j + 1;
            proof {
                assert(bits@ =~= start + Seq::new(20, |t: int| 1u8) + seq![
                    (lf >> 1u8) & 1,
                    lf & 1,
                ] + bytes_bits(enc@.subrange(0, j as int)));
            }
        }
        proof {
            assert(enc@.subrange(0, enc@.len() as int) =~= enc@);
            assert(bits@ =~= start + escape_bits(c));
        }
    }

    /// Encode text to bytes
    pub fn encode(&mut self, text: &str) -> (r: Result<Vec<u8>, CodecError>)
        requires
            old(self).wf(),
            text@.len() * 64 + 48 <= usize::MAX,
        ensures
            *final(self) == *old(self),
            r matches Ok(v) && v@ == spec_huffman_encode(old(self)@, text@),
    {
        let cs = str_chars(text);
        let ghost v = self@;
        let mut bits: Vec<u8> = Vec::new();
        let mut i: usize = 0;
        while i < cs.len()
            invariant
                self.wf(),
                0 <= i <= cs@.len(),
                cs@ == text@,
                v == self@,
                cs@.len() * 64 + 48 <= usize::MAX,
                is_bit_seq(bits@),
                bits@.len() <= 64 * i,
                spec_encode_bits(v, cs@, 0) == bits@ + spec_encode_bits(v, cs@, i as int),
            decreases cs@.len() - i,
        {
            let ghost i0 = i as int;
            let ghost bits0 = bits@;
            match self.find_token(&cs, i) {
                Option::Some(m) => {
                    let (k, tlen) = m;
                    proof {
                        assert(codes_wf(v.codes));
                        assert(is_bit_seq(v.codes[k as int].1) && v.codes[k as int].1.len()
                            <= 64);
                        assert(tokens_wf(v.tokens));
                        lemma_token_match_len(v, cs@, i as int, 0);
                    }
                    bits.extend_from_slice(self.codes[k].bits.as_slice());
                    i = i + tlen;
                    proof {
                        assert(spec_encode_bits(v, cs@, i0) == v.codes[k as int].1
                            + spec_encode_bits(v, cs@, i as int));
                        assert(bits@ + spec_encode_bits(v, cs@, i as int) =~= bits0
                            + spec_encode_bits(v, cs@, i0));
                    }
                },
                Option::None => {
                    let c = cs[i];
                    match self.code_index(c) {
                        Option::Some(k) => {
                            proof {
                                assert(is_bit_seq(v.codes[k as int].1) && v.codes[k as int].1.len()
                                    <= 64);
                            }
                            bits.extend_from_slice(self.codes[k].bits.as_slice());
                            proof {
                                assert(spec_encode_bits_next(v, cs@, i0) == spec_encode_bits(
                                    v,
                                    cs@,
                                    i0 + 1,
                                ));
                                assert(spec_encode_bits(v, cs@, i0) == v.codes[k as int].1
                                    + spec_encode_bits(v, cs@, i0 + 1));
                            }
                        },
                        Option::None => {
                            Self::push_escape(&mut bits, c);
                            proof {
                                assert(spec_encode_bits_next(v, cs@, i0) == spec_encode_bits(
                                    v,
                                    cs@,
                                    i0 + 1,
                                ));
                                assert(spec_encode_bits(v, cs@, i0) == escape_bits(cs@[i0])
                                    + spec_encode_bits(v, cs@, i0 + 1));
                                assert(escape_bits(cs@[i0]).len() == 22 + 8
                                    * vstd::utf8::encode_scalar(cs@[i0] as u32).len());
                                assert(vstd::utf8::encode_scalar(cs@[i0] as u32).len() <= 4);
                            }
                        },
                    }
                    i = i + 1;
                    proof {
                        assert(bits@ + spec_encode_bits(v, cs@, i as int) =~= bits0
                            + spec_encode_bits(v, cs@, i0));
                    }
                },
            }
        }
        proof {
            assert(spec_encode_bits(v, cs@, cs@.len() as int) =~= Seq::<u8>::empty());
            assert(bits@ =~= spec_encode_bits(v, cs@, 0));
        }
        let valid_bits: u16 = ((bits.len() % 0x10000) as u16);
        let mut full_bits: Vec<u8> = Vec::new();
        let mut h: usize = 0;
        while h < 16
            invariant
                0 <= h <= 16,
                full_bits@ =~= u16_bits(valid_bits).subrange(0, h as int),
            decreases 16 - h,
        {
            let shift = (15 - h) as u16;
            let bit = ((valid_bits >> shift) & 1) as u8;
            full_bits.push(bit);
            h = h + 1;
            assert(full_bits@ =~= u16_bits(valid_bits).subrange(0, h as int));
        }
        proof {
            assert(full_bits@ =~= u16_bits(valid_bits));
            assert(is_bit_seq(full_bits@)) by {
                assert forall|t: int| 0 <= t < full_bits@.len() implies #[trigger] full_bits@[t]
                    <= 1 by {
                    let sh = (15 - t) as u16;
                    assert((valid_bits >> sh) & 1 <= 1) by (bit_vector);
                }
            }
        }
        full_bits.extend_from_slice(bits.as_slice());
        proof {
            assert(is_bit_seq(full_bits@));
        }
        let out = bits_to_bytes_msb(full_bits.as_slice());
        proof {
            assert(full_bits@ == u16_bits(valid_bits) + bits@);
            assert(out@ == spec_huffman_encode(v, text@));
        }
        Ok(out)
    }
}

/// A successful token match consumes at least one character, stays
/// within the text, and carries the code of its sentinel.
proof fn lemma_token_match_len(v: CodecView, cs: Seq<char>, i: int, t: int)
    requires
        tokens_wf(v.tokens),
    ensures
        spec_token_match_from(v, cs, i, t) matches Some(m) ==> 1 <= m.1 && i + m.1 <= cs.len()
            && spec_code_of(v.codes, m.2) == Some(m.0),
    decreases v.tokens.len() - t,
{
    if 0 <= t < v.tokens.len() {
        lemma_token_match_len(v, cs, i, t + 1);
    }
}


/// The numeric value of a bit sequence, most significant bit first.
pub open spec fn bits_val(s: Seq<u8>) -> int
    decreases s.len(),
{
    if s.len() == 0 {
        0
    } else {
        bits_val(s.drop_last()) * 2 + s.last()
    }
}

/// The payload bits of a container: the bits that the 16-bit header
/// declares, capped at what the data actually holds.
pub open spec fn spec_payload_bits(data: Seq<u8>) -> Option<Seq<u8>> {
    if data.len() < 2 {
        None
    } else {
        let all = bytes_bits(data);
        let bl = bits_val(all.take(16));
        let avail = all.len() - 16;
        let cap = if bl <= avail {
            bl
        } else {
            avail as int
        };
        Some(all.subrange(16, 16 + cap))
    }
}

/// Whether an escape starts at bit `i`: twenty one-bits with at least
/// one bit after them.
pub open spec fn escape_here(bits: Seq<u8>, i: int) -> bool {
    i + 20 < bits.len() && forall|j: int| i <= j < i + 20 ==> #[trigger] bits[j] == 1
}

/// What a decoded symbol prints: the token text of a sentinel, or the
/// character itself.
pub open spec fn spec_expand_from(tokens: Seq<(Seq<char>, char)>, c: char, t: int) -> Seq<char>
    decreases tokens.len() - t,
{
    if t < 0 || t >= tokens.len() {
        seq![c]
    } else if tokens[t].1 == c {
        tokens[t].0
    } else {
        spec_expand_from(tokens, c, t + 1)
    }
}

/// The expansion of one decoded symbol.
pub open spec fn spec_expand(tokens: Seq<(Seq<char>, char)>, c: char) -> Seq<char> {
    spec_expand_from(tokens, c, 0)
}

/// The decode walk from bit `i` with the trie at node `cur`: emits
/// symbols at leaves and escape characters, stops quietly at the end of
/// the bits, and fails on a missing branch or a bad escape.
pub open spec fn spec_decode_from(v: CodecView, bits: Seq<u8>, i: int, cur: int) -> Option<
    Seq<char>,
>
    decreases bits.len() - i,
{
    if i < 0 || i >= bits.len() {
        Some(Seq::empty())
    } else if escape_here(bits, i) {
        if i + 22 > bits.len() {
            Some(Seq::empty())
        } else {
            let nb = bits[i + 20] * 2 + bits[i + 21] + 1;
            let needed = 22 + 8 * nb;
            if i + needed > bits.len() {
                Some(Seq::empty())
            } else {
                let ebytes = pack_bits(bits.subrange(i + 22, i + needed));
                if vstd::utf8::valid_utf8(ebytes) {
                    match spec_decode_from(v, bits, i + needed, 0) {
                        Option::Some(rest) => Some(vstd::utf8::decode_utf8(ebytes) + rest),
                        Option::None => None,
                    }
                } else {
                    None
                }
            }
        }
    } else {
        let b = bits[i];
        if b > 1 || !(0 <= cur < v.nodes.len()) {
            None
        } else {
            let child = if b == 0 {
                v.nodes[cur].left as int
            } else {
                v.nodes[cur].right as int
            };
            if child == 0 || child >= v.nodes.len() {
                None
            } else {
                match v.nodes[child].sym {
                    Option::Some(ch) => match spec_decode_from(v, bits, i + 1, 0) {
                        Option::Some(rest) => Some(spec_expand(v.tokens, ch) + rest),
                        Option::None => None,
                    },
                    Option::None => spec_decode_from(v, bits, i + 1, child),
                }
            }
        }
    }
}

/// What Huffman decoding yields for container bytes, or `None` when it
/// fails.
pub open spec fn spec_huffman_decode(v: CodecView, data: Seq<u8>) -> Option<Seq<char>> {
    match spec_payload_bits(data) {
        Option::None => None,
        Option::Some(bits) => spec_decode_from(v, bits, 0, 0),
    }
}

impl HuffmanCodec {
    /// Append the expansion of a decoded symbol to the output.
    fn push_expanded(&self, out: &mut Vec<char>, ch: char)
        ensures
            final(out)@ == old(out)@ + spec_expand(self@.tokens, ch),
    {
        let mut t: usize = 0;
        while t < self.tokens.len()
            invariant
                0 <= t <= self@.tokens.len(),
                spec_expand(self@.tokens, ch) == spec_expand_from(self@.tokens, ch, t as int),
                out@ == old(out)@,
            decreases self@.tokens.len() - t,
        {
            if self.tokens[t].sentinel == ch {
                out.extend_from_slice(self.tokens[t].text.as_slice());
                return ;
            }
            t = t + 1;
        }
        out.push(ch);
        assert(out@ =~= old(out)@ + spec_expand(self@.tokens, ch));
    }

    /// Decode bytes to text
    pub fn decode(&mut self, data: &[u8]) -> (r: Result<String, CodecError>)
        requires
            old(self).wf(),
        ensures
            *final(self) == *old(self),
            match r {
                Ok(s) => spec_huffman_decode(old(self)@, data@) == Some(s@),
                Err(e) => spec_huffman_decode(old(self)@, data@) is None && e is DecodingFailed,
            },
    {
        let ghost v = self@;
        if data.len() < 2 {
            return Err(CodecError::DecodingFailed { msg: "data too short".to_owned() });
        }
        let all_bits = bytes_to_bits_msb(data);
        let mut bit_len: u16 = 0;
        let mut h: usize = 0;
        proof {
            assert(bytes_bits(data@).take(0) =~= Seq::<u8>::empty());
        }
        while h < 16
            invariant
                0 <= h <= 16,
                all_bits@ == bytes_bits(data@),
                data@.len() >= 2,
                is_bit_seq(all_bits@),
                bit_len == bits_val(all_bits@.take(h as int)),
            decreases 16 - h,
        {
            proof {
                assert(all_bits@.take(h as int + 1).drop_last() =~= all_bits@.take(h as int));
                lemma_bits_val_bound(all_bits@.take(h as int), h as int);
            }
            let ghost prev = bit_len;
            let bit = all_bits[h];
            bit_len = (bit_len << 1) | (bit as u16);
            proof {
                assert(bit_len == prev * 2 + bit) by (bit_vector)
                    requires
                        bit_len == (prev << 1u16) | (bit as u16),
                        prev < 0x8000,
                        bit <= 1,
                ;
            }
            h = h + 1;
        }
        let avail = all_bits.len() - 16;
        let cap = if (bit_len as usize) <= avail {
            bit_len as usize
        } else {
            avail
        };
        let payload = vstd::slice::slice_to_vec(
            vstd::slice::slice_subrange(all_bits.as_slice(), 16, 16 + cap),
        );
        proof {
            assert(all_bits@.take(16) =~= bytes_bits(data@).take(16));
            assert(payload@ == spec_payload_bits(data@)->Some_0);
            assert(is_bit_seq(payload@)) by {
                assert(forall|t: int|
                    0 <= t < payload@.len() ==> payload@[t] == #[trigger] all_bits@[16 + t]);
            }
        }
        let bits = payload;
        let n = bits.len();
        let mut out: Vec<char> = Vec::new();
        let mut i: usize = 0;
        let mut cur: usize = 0;
        loop
            invariant_except_break
                self.wf(),
                v == self@,
                n == bits@.len(),
                is_bit_seq(bits@),
                0 <= i <= n,
                0 <= cur < v.nodes.len(),
                spec_huffman_decode(v, data@) == (match spec_decode_from(
                    v,
                    bits@,
                    i as int,
                    cur as int,
                ) {
                    Option::Some(rest) => Some(out@ + rest),
                    Option::None => None::<Seq<char>>,
                }),
            ensures
                spec_huffman_decode(v, data@) == Some(out@),
            decreases n - i + 1,
        {
            let ghost i0 = i as int;
            let ghost cur0 = cur as int;
            let ghost out0 = out@;
            if i >= n {
                proof {
                    assert(out@ + Seq::<char>::empty() =~= out@);
                }
                break ;
            }
            let mut is_escape = n - i > 20;
            if is_escape {
                let mut j: usize = 0;
                while j < 20
                    invariant
                        0 <= j <= 20,
                        n == bits@.len(),
                        i as int + 20 < n,
                        is_escape == (forall|t: int|
                            i <= t < i + j ==> #[trigger] bits@[t] == 1),
                    decreases 20 - j,
                {
                    if bits[i + j] != 1 {
                        is_escape = false;
                        proof {
                            assert(!(forall|t: int| i <= t < i + 20 ==> #[trigger] bits@[t]
                                == 1)) by {
                                assert(bits@[i + j as int] != 1);
                            }
                        }
                        j = 20;
                    } else {
                        proof {
                            assert(is_escape == (forall|t: int|
                                i <= t < i + (j + 1) ==> #[trigger] bits@[t] == 1));
                        }
                        j = j + 1;
                    }
                }
                proof {
                    assert(is_escape == escape_here(bits@, i0));
                }
            } else {
                proof {
                    assert(!escape_here(bits@, i0));
                }
            }
            if is_escape {
                if n - i < 22 {
                    proof {
                        assert(spec_decode_from(v, bits@, i0, cur0) == Some(Seq::<char>::empty()));
                        assert(out@ + Seq::<char>::empty() =~= out@);
                    }
                    break ;
                }
                let lf = bits[i + 20] * 2 + bits[i + 21];
                let nb = (lf + 1) as usize;
                let needed = 22 + 8 * nb;
                if needed > n - i {
                    proof {
                        assert(spec_decode_from(v, bits@, i0, cur0) == Some(Seq::<char>::empty()));
                        assert(out@ + Seq::<char>::empty() =~= out@);
                    }
                    break ;
                }
                let mut ebytes: Vec<u8> = Vec::new();
                let mut bidx: usize = 0;
                let ghost esub = bits@.subrange(i0 + 22, i0 + 22 + 8 * nb);
                while bidx < nb
                    invariant
                        0 <= bidx <= nb,
                        1 <= nb <= 4,
                        n == bits@.len(),
                        i as int + 22 + 8 * nb <= n,
                        is_bit_seq(bits@),
                        esub == bits@.subrange(i as int + 22, i as int + 22 + 8 * nb),
                        ebytes@ =~= pack_bits(esub).subrange(0, bidx as int),
                    decreases nb - bidx,
                {
                    let base = i + 22 + 8 * bidx;
                    let byte = bits[base] * 128 + bits[base + 1] * 64 + bits[base + 2] * 32
                        + bits[base + 3] * 16 + bits[base + 4] * 8 + bits[base + 5] * 4 + bits[
                        base + 6
                    ] * 2 + bits[base + 7];
                    proof {
                        assert(esub.subrange(8 * bidx as int, 8 * bidx as int + 8) =~= bits@
                            .subrange(base as int, base as int + 8));
                        assert(byte == byte_of_bits(
                            esub.subrange(8 * bidx as int, 8 * bidx as int + 8),
                        ));
                    }
                    ebytes.push(byte);
                    bidx = bidx + 1;
                    assert(ebytes@ =~= pack_bits(esub).subrange(0, bidx as int));
                }
                proof {
                    assert(ebytes@ =~= pack_bits(esub));
                }
                let ghost eb = ebytes@;
                match utf8_decode(ebytes.as_slice()) {
                    Option::Some(chars) => {
                        let mut chars_v = chars;
                        out.append(&mut chars_v);
                        cur = 0;
                        i = i + needed;
                        proof {
                            let rest_o = spec_decode_from(v, bits@, i as int, 0);
                            if rest_o is Some {
                                assert(out0 + (vstd::utf8::decode_utf8(eb) + rest_o->Some_0)
                                    =~= out@ + rest_o->Some_0);
                            }
                        }
                    },
                    Option::None => {
                        return Err(CodecError::DecodingFailed {
                            msg: "invalid UTF-8 in escape".to_owned(),
                        });
                    },
                }
            } else {
                let b = bits[i];
                let node_left = self.nodes[cur].left;
                let node_right = self.nodes[cur].right;
                let child = if b == 0 {
                    node_left
                } else {
                    node_right
                };
                if child == 0 {
                    return Err(CodecError::DecodingFailed {
                        msg: "invalid bit sequence".to_owned(),
                    });
                }
                match self.nodes[child].sym {
                    Option::Some(ch) => {
                        self.push_expanded(&mut out, ch);
                        cur = 0;
                        i = i + 1;
                        proof {
                            let rest_o = spec_decode_from(v, bits@, i as int, 0);
                            if rest_o is Some {
                                assert(out0 + (spec_expand(v.tokens, ch) + rest_o->Some_0) =~= out@
                                    + rest_o->Some_0);
                            }
                        }
                    },
                    Option::None => {
                        cur = child;
                        i = i + 1;
                    },
                }
            }
        }
        Ok(chars_to_string(&out))
    }

    /// Reset codec state: the codec is stateless between messages.
    pub fn reset(&mut self)
        ensures
            *final(self) == *old(self),
    {
    }
}

/// A bit-sequence value is bounded by the power of its length.
proof fn lemma_bits_val_bound(s: Seq<u8>, k: int)
    requires
        is_bit_seq(s),
        s.len() == k,
        0 <= k <= 16,
    ensures
        0 <= bits_val(s) < p16(k),
    decreases k,
{
    if k > 0 {
        assert(s.drop_last().len() == k - 1);
        assert(is_bit_seq(s.drop_last())) by {
            assert(forall|t: int|
                0 <= t < s.drop_last().len() ==> s.drop_last()[t] == #[trigger] s[t]);
        }
        lemma_bits_val_bound(s.drop_last(), k - 1);
        assert(s.last() <= 1);
    }
}

/// Powers of two up to the container header width.
pub open spec fn p16(k: int) -> int {
    if k <= 0 {
        1
    } else if k == 1 {
        2
    } else if k == 2 {
        4
    } else if k == 3 {
        8
    } else if k == 4 {
        16
    } else if k == 5 {
        32
    } else if k == 6 {
        64
    } else if k == 7 {
        128
    } else if k == 8 {
        256
    } else if k == 9 {
        512
    } else if k == 10 {
        1024
    } else if k == 11 {
        2048
    } else if k == 12 {
        4096
    } else if k == 13 {
        8192
    } else if k == 14 {
        16384
    } else if k == 15 {
        32768
    } else {
        65536
    }
}


/// The position of the least (weight, tie-break) heap entry, scanned
/// from `j` with the running best at `best`: ties keep the earlier
/// insertion, matching the stable merge order.
pub open spec fn min_weight_from(active: Seq<(u32, usize, usize)>, best: int, j: int) -> int
    decreases active.len() - j,
{
    if j < 0 || best < 0 || j >= active.len() || best >= active.len() {
        best
    } else {
        let nb = if active[j].0 < active[best].0 || (active[j].0 == active[best].0
            && active[j].1 < active[best].1) {
            j
        } else {
            best
        };
        min_weight_from(active, nb, j + 1)
    }
}

/// The position the merge pops next.
pub open spec fn spec_min_index(active: Seq<(u32, usize, usize)>) -> int {
    let m = min_weight_from(active, 0, 1);
    if 0 <= m < active.len() {
        m
    } else {
        0
    }
}

/// The scan stays inside the sequence.
proof fn lemma_min_weight_range(active: Seq<(u32, usize, usize)>, best: int, j: int)
    requires
        0 <= best < active.len(),
    ensures
        0 <= min_weight_from(active, best, j) < active.len(),
    decreases active.len() - j,
{
    if 0 <= j < active.len() {
        let nb = if active[j].0 < active[best].0 || (active[j].0 == active[best].0
            && active[j].1 < active[best].1) {
            j
        } else {
            best
        };
        lemma_min_weight_range(active, nb, j + 1);
    }
}

/// The position of the least (length, symbol) entry, scanned from `j`:
/// canonical assignment orders leaves by length, then by symbol.
pub open spec fn len_min_from(v: Seq<(char, usize)>, best: int, j: int) -> int
    decreases v.len() - j,
{
    if j < 0 || best < 0 || j >= v.len() || best >= v.len() {
        best
    } else {
        let nb = if v[j].1 < v[best].1 || (v[j].1 == v[best].1 && (v[j].0 as u32) < (
        v[best].0 as u32)) {
            j
        } else {
            best
        };
        len_min_from(v, nb, j + 1)
    }
}

/// The entry the length sort emits next.
pub open spec fn spec_len_min(v: Seq<(char, usize)>) -> int {
    let m = len_min_from(v, 0, 1);
    if 0 <= m < v.len() {
        m
    } else {
        0
    }
}

/// The scan stays inside the sequence.
proof fn lemma_len_min_range(v: Seq<(char, usize)>, best: int, j: int)
    requires
        0 <= best < v.len(),
    ensures
        0 <= len_min_from(v, best, j) < v.len(),
    decreases v.len() - j,
{
    if 0 <= j < v.len() {
        let nb = if v[j].1 < v[best].1 || (v[j].1 == v[best].1 && (v[j].0 as u32) < (
        v[best].0 as u32)) {
            j
        } else {
            best
        };
        lemma_len_min_range(v, nb, j + 1);
    }
}

/// Code lengths sorted by (length, symbol), least first, by repeated
/// selection of the least remaining entry.
pub open spec fn spec_sort_lengths(v: Seq<(char, usize)>) -> Seq<(char, usize)>
    decreases v.len(),
{
    if v.len() == 0 {
        Seq::empty()
    } else {
        let m = spec_len_min(v);
        seq![v[m]] + spec_sort_lengths(v.remove(m))
    }
}

/// Canonical code assignment from entry `k` on: the running code value
/// is shifted left when the length grows, emitted as that many bits most
/// significant first, and incremented for the next entry.  `None` on a
/// length outside 1..=64 or an exhausted code value.
pub open spec fn spec_assign_from(
    sorted: Seq<(char, usize)>,
    k: int,
    code_val: u64,
    prev_len: usize,
) -> Option<Seq<(char, Seq<u8>)>>
    decreases sorted.len() - k,
{
    if k < 0 || k >= sorted.len() {
        Some(Seq::empty())
    } else {
        let ch = sorted[k].0;
        let l = sorted[k].1;
        if l < 1 || l > 64 || prev_len < 1 || prev_len > 64 {
            None
        } else {
            let cv1 = if l > prev_len {
                code_val << ((l - prev_len) as u64)
            } else {
                code_val
            };
            let bits = Seq::new(l as nat, |t: int| ((cv1 >> ((l - 1 - t) as u64)) & 1) as u8);
            if cv1 == u64::MAX {
                None
            } else {
                match spec_assign_from(sorted, k + 1, (cv1 + 1) as u64, l) {
                    Option::Some(rest) => Some(seq![(ch, bits)] + rest),
                    Option::None => None,
                }
            }
        }
    }
}

/// The starting length of the canonical assignment.
pub open spec fn spec_assign_start(sorted: Seq<(char, usize)>) -> usize {
    if sorted.len() > 0 && 1 <= sorted[0].1 <= 64 {
        sorted[0].1
    } else {
        1usize
    }
}

/// The canonical code table of a sorted length list.
pub open spec fn spec_assign_codes(sorted: Seq<(char, usize)>) -> Option<Seq<(char, Seq<u8>)>> {
    spec_assign_from(sorted, 0, 0u64, spec_assign_start(sorted))
}

/// One code inserted into the trie from bit `j` at node `cur`: the walk
/// follows existing children, grows absent ones, and refuses any prefix
/// conflict (a marked node on the way, or a marked or branching node at
/// the end).
pub open spec fn spec_insert_code(
    nodes: Seq<TrieNode>,
    bits: Seq<u8>,
    j: int,
    cur: int,
    sym: char,
) -> Option<Seq<TrieNode>>
    decreases bits.len() - j,
{
    if !(0 <= cur < nodes.len()) || j < 0 {
        None
    } else if j >= bits.len() {
        if nodes[cur].sym is Some || nodes[cur].left != 0 || nodes[cur].right != 0 {
            None
        } else {
            Some(
                nodes.update(
                    cur,
                    TrieNode { left: nodes[cur].left, right: nodes[cur].right, sym: Some(sym) },
                ),
            )
        }
    } else if nodes[cur].sym is Some {
        None
    } else {
        let b = bits[j];
        let child = if b == 0 {
            nodes[cur].left as int
        } else {
            nodes[cur].right as int
        };
        if child == 0 {
            if nodes.len() >= usize::MAX {
                None
            } else {
                let nid = nodes.len() as int;
                let grown = nodes.push(TrieNode { left: 0, right: 0, sym: None });
                let parent = if b == 0 {
                    TrieNode { left: nid as usize, right: nodes[cur].right, sym: nodes[cur].sym }
                } else {
                    TrieNode { left: nodes[cur].left, right: nid as usize, sym: nodes[cur].sym }
                };
                spec_insert_code(grown.update(cur, parent), bits, j + 1, nid, sym)
            }
        } else if child >= nodes.len() {
            None
        } else {
            spec_insert_code(nodes, bits, j + 1, child, sym)
        }
    }
}

/// The decode trie grown from a root by inserting every code in table
/// order.
pub open spec fn spec_build_trie_from(
    nodes: Seq<TrieNode>,
    codes: Seq<(char, Seq<u8>)>,
    k: int,
) -> Option<Seq<TrieNode>>
    decreases codes.len() - k,
{
    if k < 0 || k >= codes.len() {
        Some(nodes)
    } else {
        match spec_insert_code(nodes, codes[k].1, 0, 0, codes[k].0) {
            Option::Some(n2) => spec_build_trie_from(n2, codes, k + 1),
            Option::None => None,
        }
    }
}

/// The decode trie of a code table.
pub open spec fn spec_build_trie(codes: Seq<(char, Seq<u8>)>) -> Option<Seq<TrieNode>> {
    spec_build_trie_from(seq![(TrieNode { left: 0, right: 0, sym: None })], codes, 0)
}

/// One node of the Huffman construction arena.  Internal nodes point at
/// children created before them.
pub struct HNode {
    pub sym: Option<char>,
    pub left: usize,
    pub right: usize,
}

/// The (symbol, depth) leaves under an arena node, left subtree first;
/// a lone root leaf counts as depth one.
pub open spec fn spec_depths(arena: Seq<HNode>, idx: int, depth: usize) -> Seq<(char, usize)>
    decreases idx,
{
    if !(0 <= idx < arena.len()) {
        Seq::empty()
    } else {
        match arena[idx].sym {
            Option::Some(ch) => seq![
                (
                    ch,
                    if depth == 0 {
                        1usize
                    } else {
                        depth
                    },
                ),
            ],
            Option::None => {
                let l = arena[idx].left as int;
                let r = arena[idx].right as int;
                if l < idx && r < idx && depth < usize::MAX {
                    spec_depths(arena, l, (depth + 1) as usize) + spec_depths(
                        arena,
                        r,
                        (depth + 1) as usize,
                    )
                } else {
                    Seq::empty()
                }
            },
        }
    }
}

/// The leaves of the construction arena: one node per entry of positive
/// weight, in list order.
pub open spec fn spec_leaf_arena(freqs: Seq<(char, u32)>) -> Seq<HNode> {
    freqs.filter(|p: (char, u32)| p.1 > 0).map_values(
        |p: (char, u32)| HNode { sym: Some(p.0), left: 0, right: 0 },
    )
}

/// The initial heap entries: each leaf under its weight, with its
/// insertion number as the stable tie-break.
pub open spec fn spec_leaf_active(freqs: Seq<(char, u32)>) -> Seq<(u32, usize, usize)> {
    let leaves = freqs.filter(|p: (char, u32)| p.1 > 0);
    Seq::new(leaves.len(), |j: int| (leaves[j].1, (j + 1) as usize, j as usize))
}

/// The Huffman merge: repeatedly pop the two least (weight, tie-break)
/// entries, adjoin their parent to the arena, and push it back under
/// the summed weight and the next tie-break number.  Ends at the root;
/// `None` on an empty heap or weight overflow.
pub open spec fn spec_merge(
    arena: Seq<HNode>,
    active: Seq<(u32, usize, usize)>,
    counter: usize,
) -> Option<(Seq<HNode>, usize)>
    decreases active.len(),
{
    if active.len() == 0 {
        None
    } else if active.len() == 1 {
        Some((arena, active[0].2))
    } else {
        let m1 = spec_min_index(active);
        let e1 = active[m1];
        let a1 = active.remove(m1);
        let m2 = spec_min_index(a1);
        let e2 = a1[m2];
        let a2 = a1.remove(m2);
        if e1.0 + e2.0 > u32::MAX || counter >= usize::MAX || arena.len() >= usize::MAX {
            None
        } else {
            spec_merge(
                arena.push(HNode { sym: None, left: e1.2, right: e2.2 }),
                a2.push(((e1.0 + e2.0) as u32, (counter + 1) as usize, arena.len() as usize)),
                (counter + 1) as usize,
            )
        }
    }
}

/// The whole table construction: leaves, tie-broken merge, leaf depths,
/// the (length, symbol) sort, canonical assignment, and the decode trie.
pub open spec fn spec_build_codes(freqs: Seq<(char, u32)>) -> Option<
    (Seq<(char, Seq<u8>)>, Seq<TrieNode>),
> {
    if freqs.len() > 100000 {
        None
    } else {
        let arena = spec_leaf_arena(freqs);
        let active = spec_leaf_active(freqs);
        match spec_merge(arena, active, arena.len() as usize) {
            Option::None => None,
            Option::Some(ar) => {
                let sorted = spec_sort_lengths(spec_depths(ar.0, ar.1 as int, 0));
                match spec_assign_codes(sorted) {
                    Option::None => None,
                    Option::Some(codes) => match spec_build_trie(codes) {
                        Option::None => None,
                        Option::Some(nodes) => Some((codes, nodes)),
                    },
                }
            },
        }
    }
}

/// Arena children of internal nodes come strictly before their parent.
pub open spec fn arena_wf(arena: Seq<HNode>) -> bool {
    forall|j: int|
        0 <= j < arena.len() && (#[trigger] arena[j]).sym is None ==> arena[j].left < j
            && arena[j].right < j
}

/// Codes in a built table are non-empty bounded bit sequences.
pub open spec fn codes_vec_wf(s: Seq<CodeEntry>) -> bool {
    forall|k: int|
        0 <= k < s.len() ==> is_bit_seq((#[trigger] s[k]).bits@) && 1 <= s[k].bits@.len() <= 64
}

impl HuffmanCodec {
    /// Create a new Huffman codec with English frequency table
    #[verifier::rlimit(100)]
    pub fn new_english() -> (r: Self)
        ensures
            r.wf(),
            r.consistent(),
            spec_is_english_codec(r@),
    {
        let tokens = Self::init_tokens();
        let freqs = Self::build_english_table(&tokens);
        proof {
            assert(freqs@ == spec_english_freqs(spec_english_tokens()));
        }
        match Self::build_codes_from_frequencies(&freqs) {
            Option::Some(t) => {
                let (codes, nodes) = t;
                let consistent_tables = Self::check_consistent(&codes, &nodes);
                proof {
                    if consistent_tables {
                        assert(codes_paths_ok(code_views(codes@), nodes@)) by {
                            assert forall|k: int|
                                0 <= k < code_views(codes@).len() implies path_ok(
                                nodes@,
                                (#[trigger] code_views(codes@)[k]).1,
                                0,
                                0,
                                code_views(codes@)[k].0,
                            ) by {
                                assert(path_ok(nodes@, codes@[k].bits@, 0, 0, codes@[k].sym));
                            }
                        }
                    } else {
                        let k = choose|k: int|
                            0 <= k < codes@.len() && !path_ok(
                                nodes@,
                                (#[trigger] codes@[k]).bits@,
                                0,
                                0,
                                codes@[k].sym,
                            );
                        assert(!path_ok(
                            nodes@,
                            code_views(codes@)[k].1,
                            0,
                            0,
                            code_views(codes@)[k].0,
                        ));
                        assert(!codes_paths_ok(code_views(codes@), nodes@));
                    }
                }
                if consistent_tables {
                    let r = Self { codes, nodes, tokens };
                    proof {
                        assert(codes_wf(r@.codes)) by {
                            assert(forall|k: int|
                                0 <= k < r@.codes.len() ==> (#[trigger] r@.codes[k]).1
                                    == r.codes@[k].bits@);
                        }
                        assert(tokens_wf(r@.tokens)) by {
                            assert(forall|k: int|
                                0 <= k < r@.tokens.len() ==> (#[trigger] r@.tokens[k]).0
                                    == r.tokens@[k].text@);
                        }
                        assert(tables_consistent(r@));
                    }
                    r
                } else {
                    Self::fallback_codec(tokens)
                }
            },
            Option::None => Self::fallback_codec(tokens),
        }
    }

    /// A degenerate codec with an empty table: every character rides in
    /// an escape.
    fn fallback_codec(tokens: Vec<TokenEntry>) -> (r: Self)
        requires
            forall|k: int| 0 <= k < tokens@.len() ==> (#[trigger] tokens@[k]).text@.len() >= 1,
        ensures
            r.wf(),
            r.consistent(),
            spec_fallback_tables(r@),
            r@.tokens == token_views(tokens@),
    {
        let nodes = vec![TrieNode { left: 0, right: 0, sym: None }];
        let r = Self { codes: Vec::new(), nodes, tokens };
        proof {
            assert(r@.nodes =~= seq![(TrieNode { left: 0, right: 0, sym: None })]);
            assert(r@.codes.len() == 0);
            assert(tokens_wf(r@.tokens)) by {
                assert(forall|k: int|
                    0 <= k < r@.tokens.len() ==> (#[trigger] r@.tokens[k]).0 == r.tokens@[
                    k].text@);
            }
        }
        r
    }

    /// Check one code's trie path against the table symbol.    /// Check one code's trie path against the table symbol.
    fn check_path(nodes: &Vec<TrieNode>, code: &Vec<u8>, sym: char) -> (r: bool)
        requires
            trie_wf(nodes@),
        ensures
            r == path_ok(nodes@, code@, 0, 0, sym),
    {
        let mut j: usize = 0;
        let mut cur: usize = 0;
        while j < code.len()
            invariant
                trie_wf(nodes@),
                0 <= cur < nodes@.len(),
                0 <= j <= code@.len(),
                path_ok(nodes@, code@, 0, 0, sym) == path_ok(
                    nodes@,
                    code@,
                    j as int,
                    cur as int,
                    sym,
                ),
            decreases code@.len() - j,
        {
            match nodes[cur].sym {
                Option::Some(_) => {
                    return false;
                },
                Option::None => {},
            }
            let b = code[j];
            if b > 1 {
                return false;
            }
            let child = if b == 0 {
                nodes[cur].left
            } else {
                nodes[cur].right
            };
            if child == 0 {
                return false;
            }
            cur = child;
            j = j + 1;
        }
        match nodes[cur].sym {
            Option::Some(c) => c == sym && nodes[cur].left == 0 && nodes[cur].right == 0,
            Option::None => false,
        }
    }

    /// Check that every code's path through the trie reaches its own
    /// symbol: the runtime validation behind `tables_consistent`.
    fn check_consistent(codes: &Vec<CodeEntry>, nodes: &Vec<TrieNode>) -> (r: bool)
        requires
            trie_wf(nodes@),
        ensures
            r == (forall|k: int|
                0 <= k < codes@.len() ==> path_ok(
                    nodes@,
                    (#[trigger] codes@[k]).bits@,
                    0,
                    0,
                    codes@[k].sym,
                )),
    {
        let mut k: usize = 0;
        while k < codes.len()
            invariant
                trie_wf(nodes@),
                0 <= k <= codes@.len(),
                forall|t: int|
                    0 <= t < k ==> path_ok(
                        nodes@,
                        (#[trigger] codes@[t]).bits@,
                        0,
                        0,
                        codes@[t].sym,
                    ),
            decreases codes@.len() - k,
        {
            if !Self::check_path(nodes, &codes[k].bits, codes[k].sym) {
                return false;
            }
            k = k + 1;
        }
        true
    }

    /// Initialize common ham tokens mapped to private-use sentinels,
    /// longest tokens first for greedy matching.
    fn init_tokens() -> (r: Vec<TokenEntry>)
        ensures
            token_views(r@) == spec_english_tokens(),
            forall|k: int| 0 <= k < r@.len() ==> (#[trigger] r@[k]).text@.len() >= 1,
    {
        proof {
            reveal_strlit("QRZ");
            reveal_strlit("QRM");
            reveal_strlit("QRO");
            reveal_strlit("QRP");
            reveal_strlit("QRS");
            reveal_strlit("QRT");
            reveal_strlit("QRB");
            reveal_strlit("QSB");
            reveal_strlit("QSL");
            reveal_strlit("QSO");
            reveal_strlit("QSY");
            reveal_strlit("QTH");
            reveal_strlit("CQ");
            reveal_strlit("DE");
            reveal_strlit("BK");
            reveal_strlit("KN");
            reveal_strlit("AR");
            reveal_strlit("SK");
            reveal_strlit("YL");
            reveal_strlit("OM");
            reveal_strlit("73");
            reveal_strlit("K");
        }
        let mut list: Vec<TokenEntry> = Vec::new();
        Self::push_token(&mut list, "QRZ", '\u{E000}');
        Self::push_token(&mut list, "QRM", '\u{E001}');
        Self::push_token(&mut list, "QRO", '\u{E002}');
        Self::push_token(&mut list, "QRP", '\u{E003}');
        Self::push_token(&mut list, "QRS", '\u{E004}');
        Self::push_token(&mut list, "QRT", '\u{E005}');
        Self::push_token(&mut list, "QRB", '\u{E006}');
        Self::push_token(&mut list, "QSB", '\u{E007}');
        Self::push_token(&mut list, "QSL", '\u{E008}');
        Self::push_token(&mut list, "QSO", '\u{E009}');
        Self::push_token(&mut list, "QSY", '\u{E00A}');
        Self::push_token(&mut list, "QTH", '\u{E00B}');
        Self::push_token(&mut list, "CQ", '\u{E00C}');
        Self::push_token(&mut list, "DE", '\u{E00D}');
        Self::push_token(&mut list, "BK", '\u{E00E}');
        Self::push_token(&mut list, "KN", '\u{E00F}');
        Self::push_token(&mut list, "AR", '\u{E011}');
        Self::push_token(&mut list, "SK", '\u{E012}');
        Self::push_token(&mut list, "YL", '\u{E013}');
        Self::push_token(&mut list, "OM", '\u{E014}');
        Self::push_token(&mut list, "73", '\u{E015}');
        Self::push_token(&mut list, "K", '\u{E010}');
        proof {
            assert(token_views(list@) =~= spec_english_tokens());
            assert forall|k: int| 0 <= k < list@.len() implies (#[trigger] list@[
                k]).text@.len() >= 1 by {
                assert(token_views(list@)[k].0 == list@[k].text@);
                assert(spec_english_tokens()[k].0.len() >= 1);
            }
        }
        list
    }

    /// Append one token unless it is empty.
    fn push_token(list: &mut Vec<TokenEntry>, text: &str, sentinel: char)
        ensures
            token_views(final(list)@) == token_views(old(list)@) + (if text@.len() >= 1 {
                seq![(text@, sentinel)]
            } else {
                Seq::<(Seq<char>, char)>::empty()
            }),
    {
        let cs = crate::strutil::str_chars(text);
        if cs.len() >= 1 {
            list.push(TokenEntry { text: cs, sentinel });
            assert(token_views(list@) =~= token_views(old(list)@) + seq![(text@, sentinel)]);
        } else {
            assert(token_views(list@) =~= token_views(old(list)@) + Seq::<(
                Seq<char>,
                char,
            )>::empty());
        }
    }

    /// Build the English frequency model: space, letters in both cases,
    /// digits, punctuation, and the token sentinels.
    #[verifier::rlimit(100)]
    fn build_english_table(tokens: &Vec<TokenEntry>) -> (r: Vec<(char, u32)>)
        ensures
            r@ == spec_english_freqs(token_views(tokens@)),
    {
        let mut freqs: Vec<(char, u32)> = Vec::new();
        freqs.push((' ', 700));
        freqs.push(('E', 120));
        freqs.push(('e', 120));
        freqs.push(('T', 90));
        freqs.push(('t', 90));
        freqs.push(('A', 81));
        freqs.push(('a', 81));
        freqs.push(('O', 75));
        freqs.push(('o', 75));
        freqs.push(('I', 70));
        freqs.push(('i', 70));
        freqs.push(('N', 67));
        freqs.push(('n', 67));
        freqs.push(('S', 63));
        freqs.push(('s', 63));
        freqs.push(('H', 61));
        freqs.push(('h', 61));
        freqs.push(('R', 60));
        freqs.push(('r', 60));
        freqs.push(('D', 43));
        freqs.push(('d', 43));
        freqs.push(('L', 40));
        freqs.push(('l', 40));
        freqs.push(('C', 28));
        freqs.push(('c', 28));
        freqs.push(('U', 28));
        freqs.push(('u', 28));
        freqs.push(('M', 24));
        freqs.push(('m', 24));
        freqs.push(('W', 24));
        freqs.push(('w', 24));
        freqs.push(('F', 22));
        freqs.push(('f', 22));
        freqs.push(('G', 20));
        freqs.push(('g', 20));
        freqs.push(('Y', 20));
        freqs.push(('y', 20));
        freqs.push(('P', 19));
        freqs.push(('p', 19));
        freqs.push(('B', 15));
        freqs.push(('b', 15));
        freqs.push(('V', 10));
        freqs.push(('v', 10));
        freqs.push(('K', 8));
        freqs.push(('k', 8));
        freqs.push(('J', 2));
        freqs.push(('j', 2));
        freqs.push(('X', 2));
        freqs.push(('x', 2));
        freqs.push(('Q', 1));
        freqs.push(('q', 1));
        freqs.push(('Z', 1));
        freqs.push(('z', 1));
        freqs.push(('0', 8));
        freqs.push(('1', 8));
        freqs.push(('2', 8));
        freqs.push(('3', 8));
        freqs.push(('4', 8));
        freqs.push(('5', 8));
        freqs.push(('6', 8));
        freqs.push(('7', 8));
        freqs.push(('8', 8));
        freqs.push(('9', 8));
        freqs.push(('.', 12));
        freqs.push((',', 12));
        freqs.push(('!', 6));
        freqs.push(('?', 6));
        freqs.push((':', 4));
        freqs.push((';', 4));
        freqs.push(('-', 7));
        freqs.push(('\'', 5));
        freqs.push(('"', 3));
        freqs.push(('(', 2));
        freqs.push((')', 2));
        freqs.push(('/', 2));
        proof {
            assert(freqs@ =~= spec_english_base());
        }
        let mut t: usize = 0;
        while t < tokens.len()
            invariant
                t <= tokens@.len(),
                freqs@ =~= spec_english_base() + Seq::new(
                    t as nat,
                    |j: int| (tokens@[j].sentinel, 180u32),
                ),
            decreases tokens@.len() - t,
        {
            freqs.push((tokens[t].sentinel, 180));
            t = t + 1;
            assert(freqs@ =~= spec_english_base() + Seq::new(
                t as nat,
                |j: int| (tokens@[j].sentinel, 180u32),
            ));
        }
        proof {
            assert(freqs@ =~= spec_english_freqs(token_views(tokens@)));
        }
        freqs
    }

    /// Build canonical Huffman codes from a (symbol, weight) list    /// Build canonical Huffman codes from a (symbol, weight) list: a
    /// Huffman tree decides the code lengths, canonical assignment the
    /// codes, and the decode trie is grown with conflict checks.  A
    /// degenerate input yields `None`.
    #[verifier::rlimit(100)]
    fn build_codes_from_frequencies(freqs: &Vec<(char, u32)>) -> (r: Option<
        (Vec<CodeEntry>, Vec<TrieNode>),
    >)
        ensures
            match r {
                Some(t) => codes_vec_wf(t.0@) && trie_wf(t.1@) && spec_build_codes(freqs@)
                    == Some((code_views(t.0@), t.1@)),
                None => spec_build_codes(freqs@) is None,
            },
    {
        if freqs.len() > 100000 {
            return None;
        }
        let mut arena: Vec<HNode> = Vec::new();
        let mut active: Vec<(u32, usize, usize)> = Vec::new();
        let mut f: usize = 0;
        proof {
            reveal(Seq::filter);
            assert(freqs@.subrange(0, 0) =~= Seq::<(char, u32)>::empty());
            assert(arena@ =~= spec_leaf_arena(freqs@.subrange(0, 0)));
            assert(active@ =~= spec_leaf_active(freqs@.subrange(0, 0)));
        }
        while f < freqs.len()
            invariant
                f <= freqs@.len(),
                freqs@.len() <= 100000,
                arena@.len() <= f,
                active@.len() == arena@.len(),
                arena@ == spec_leaf_arena(freqs@.subrange(0, f as int)),
                active@ == spec_leaf_active(freqs@.subrange(0, f as int)),
                arena_wf(arena@),
                forall|e: int|
                    0 <= e < active@.len() ==> (#[trigger] active@[e]).2 < arena@.len(),
            decreases freqs@.len() - f,
        {
            let (ch, w) = freqs[f];
            proof {
                reveal(Seq::filter);
                assert(freqs@.subrange(0, f as int + 1).drop_last() =~= freqs@.subrange(
                    0,
                    f as int,
                ));
                assert(freqs@.subrange(0, f as int + 1).last() == freqs@[f as int]);
            }
            if w > 0 {
                arena.push(HNode { sym: Some(ch), left: 0, right: 0 });
                active.push((w, arena.len(), arena.len() - 1));
                proof {
                    assert(arena@ =~= spec_leaf_arena(freqs@.subrange(0, f as int + 1)));
                    assert(active@ =~= spec_leaf_active(freqs@.subrange(0, f as int + 1)));
                }
            } else {
                proof {
                    assert(arena@ =~= spec_leaf_arena(freqs@.subrange(0, f as int + 1)));
                    assert(active@ =~= spec_leaf_active(freqs@.subrange(0, f as int + 1)));
                }
            }
            f = f + 1;
        }
        proof {
            assert(freqs@.subrange(0, freqs@.len() as int) =~= freqs@);
        }
        if active.is_empty() {
            return None;
        }
        let mut counter: usize = arena.len();
        let ghost arena0 = arena@;
        let ghost active0 = active@;
        let ghost counter0 = counter;
        while active.len() > 1
            invariant
                1 <= active@.len(),
                arena@.len() + active@.len() <= 200002,
                counter <= arena@.len() + 200002,
                arena_wf(arena@),
                forall|e: int|
                    0 <= e < active@.len() ==> (#[trigger] active@[e]).2 < arena@.len(),
                freqs@.len() <= 100000,
                arena0 == spec_leaf_arena(freqs@),
                active0 == spec_leaf_active(freqs@),
                counter0 == arena0.len(),
                spec_merge(arena0, active0, counter0) == spec_merge(arena@, active@, counter),
            decreases active@.len(),
        {
            let ghost arena_pre = arena@;
            let ghost active_pre = active@;
            let ghost counter_pre = counter;
            let m1 = Self::min_index(&active);
            let e1 = active.remove(m1);
            let m2 = Self::min_index(&active);
            let e2 = active.remove(m2);
            let w = match e1.0.checked_add(e2.0) {
                Option::Some(w) => w,
                Option::None => {
                    return None;
                },
            };
            arena.push(HNode { sym: None, left: e1.2, right: e2.2 });
            counter = counter + 1;
            active.push((w, counter, arena.len() - 1));
            proof {
                assert(spec_merge(arena_pre, active_pre, counter_pre) == spec_merge(
                    arena@,
                    active@,
                    counter,
                ));
            }
        }
        let root = active[0].2;
        proof {
            assert(spec_merge(arena0, active0, counter0) == Some((arena@, root)));
        }
        let mut lengths: Vec<(char, usize)> = Vec::new();
        Self::collect_depths(&arena, root, 0, &mut lengths);
        proof {
            assert(lengths@ =~= spec_depths(arena@, root as int, 0));
        }
        let sorted = Self::sort_lengths(lengths);
        let codes = match Self::assign_codes(&sorted) {
            Option::Some(c) => c,
            Option::None => {
                return None;
            },
        };
        match Self::build_decode_tree(&codes) {
            Option::Some(nodes) => Some((codes, nodes)),
            Option::None => None,
        }
    }

    /// The position of the least (weight, tie-break) entry.    /// The position of the least (weight, tie-break) entry.
    fn min_index(active: &Vec<(u32, usize, usize)>) -> (r: usize)
        requires
            active@.len() >= 1,
        ensures
            r < active@.len(),
            r == spec_min_index(active@),
    {
        let mut best: usize = 0;
        let mut j: usize = 1;
        while j < active.len()
            invariant
                best < active@.len(),
                1 <= j <= active@.len(),
                min_weight_from(active@, 0, 1) == min_weight_from(active@, best as int, j as int),
            decreases active@.len() - j,
        {
            let (wj, cj, _) = active[j];
            let (wb, cb, _) = active[best];
            if wj < wb || (wj == wb && cj < cb) {
                best = j;
            }
            j = j + 1;
        }
        best
    }

    /// Collect the depth of every leaf under `idx`; a lone root leaf
    /// counts as depth one.
    fn collect_depths(
        arena: &Vec<HNode>,
        idx: usize,
        depth: usize,
        out: &mut Vec<(char, usize)>,
    )
        requires
            arena_wf(arena@),
            idx < arena@.len(),
            depth + idx < arena@.len(),
        ensures
            final(out)@ == old(out)@ + spec_depths(arena@, idx as int, depth),
        decreases idx,
    {
        let arena_len = arena.len();
        proof {
            assert(depth + 1 <= arena_len);
        }
        match arena[idx].sym {
            Option::Some(ch) => {
                let d = if depth == 0 {
                    1
                } else {
                    depth
                };
                out.push((ch, d));
                assert(out@ =~= old(out)@ + spec_depths(arena@, idx as int, depth));
            },
            Option::None => {
                let l = arena[idx].left;
                let rr = arena[idx].right;
                Self::collect_depths(arena, l, depth + 1, out);
                Self::collect_depths(arena, rr, depth + 1, out);
                assert(out@ =~= old(out)@ + spec_depths(arena@, idx as int, depth));
            },
        }
    }

    /// Sort (symbol, length) pairs by length, then by symbol.
    fn sort_lengths(v: Vec<(char, usize)>) -> (r: Vec<(char, usize)>)
        ensures
            r@ == spec_sort_lengths(v@),
    {
        let ghost orig = v@;
        let mut rest = v;
        let mut sorted: Vec<(char, usize)> = Vec::new();
        while rest.len() > 0
            invariant
                spec_sort_lengths(orig) == sorted@ + spec_sort_lengths(rest@),
            decreases rest@.len(),
        {
            let mut best: usize = 0;
            let mut j: usize = 1;
            while j < rest.len()
                invariant
                    best < rest@.len(),
                    1 <= j <= rest@.len(),
                    rest@.len() >= 1,
                    len_min_from(rest@, 0, 1) == len_min_from(rest@, best as int, j as int),
                decreases rest@.len() - j,
            {
                let (cj, lj) = rest[j];
                let (cb, lb) = rest[best];
                if lj < lb || (lj == lb && (cj as u32) < (cb as u32)) {
                    best = j;
                }
                j = j + 1;
            }
            proof {
                assert(best == spec_len_min(rest@));
            }
            let ghost before = rest@;
            let e = rest.remove(best);
            sorted.push(e);
            proof {
                assert(spec_sort_lengths(before) == seq![before[best as int]]
                    + spec_sort_lengths(before.remove(best as int)));
                assert(sorted@ + spec_sort_lengths(rest@) =~= sorted@.drop_last()
                    + spec_sort_lengths(before));
            }
        }
        proof {
            assert(spec_sort_lengths(rest@) =~= Seq::<(char, usize)>::empty());
            assert(sorted@ =~= spec_sort_lengths(orig));
        }
        sorted
    }

    /// Assign canonical codes: the numerically smallest code of each
    /// length first, shifted left when the length grows.
    #[verifier::rlimit(100)]
    #[verifier::rlimit(100)]
    fn assign_codes(sorted: &Vec<(char, usize)>) -> (r: Option<Vec<CodeEntry>>)
        ensures
            match r {
                Some(c) => codes_vec_wf(c@) && spec_assign_codes(sorted@) == Some(code_views(c@)),
                None => spec_assign_codes(sorted@) is None,
            },
    {
        let mut codes: Vec<CodeEntry> = Vec::new();
        let mut code_val: u64 = 0;
        let mut prev_len: usize = if sorted.len() > 0 && sorted[0].1 >= 1 && sorted[0].1 <= 64 {
            sorted[0].1
        } else {
            1
        };
        let mut k: usize = 0;
        proof {
            assert(prev_len == spec_assign_start(sorted@));
            assert(code_views(codes@) =~= Seq::<(char, Seq<u8>)>::empty());
        }
        while k < sorted.len()
            invariant
                k <= sorted@.len(),
                1 <= prev_len <= 64,
                codes_vec_wf(codes@),
                spec_assign_codes(sorted@) == (match spec_assign_from(
                    sorted@,
                    k as int,
                    code_val,
                    prev_len,
                ) {
                    Option::Some(rest) => Some(code_views(codes@) + rest),
                    Option::None => None::<Seq<(char, Seq<u8>)>>,
                }),
            decreases sorted@.len() - k,
        {
            let (ch, len) = sorted[k];
            if len < 1 || len > 64 {
                return None;
            }
            if len > prev_len {
                code_val = code_val << ((len - prev_len) as u64);
            }
            let ghost cv1 = code_val;
            let mut bits: Vec<u8> = Vec::new();
            let mut t: usize = len;
            while t > 0
                invariant
                    t <= len <= 64,
                    code_val == cv1,
                    bits@.len() == len - t,
                    is_bit_seq(bits@),
                    forall|j: int|
                        0 <= j < bits@.len() ==> #[trigger] bits@[j] == ((cv1 >> ((len - 1
                            - j) as u64)) & 1) as u8,
                decreases t,
            {
                let b = ((code_val >> ((t - 1) as u64)) & 1) as u8;
                proof {
                    let sh = (t - 1) as u64;
                    assert((cv1 >> sh) & 1 <= 1) by (bit_vector);
                }
                bits.push(b);
                t = t - 1;
            }
            let ghost sbits = Seq::new(
                len as nat,
                |t2: int| ((cv1 >> ((len - 1 - t2) as u64)) & 1) as u8,
            );
            proof {
                assert(bits@ =~= sbits);
            }
            let ghost bb = bits@;
            let entry = CodeEntry { sym: ch, bits };
            proof {
                assert(entry.bits@ == bb);
            }
            let ghost codes0 = codes@;
            let ghost e0 = entry;
            codes.push(entry);
            proof {
                assert(codes@ == codes0.push(e0));
                lemma_push_entry(codes0, e0);
                assert forall|x: int| 0 <= x < codes@.len() implies is_bit_seq(
                    (#[trigger] codes@[x]).bits@,
                ) && 1 <= codes@[x].bits@.len() <= 64 by {
                    if x < codes0.len() {
                        assert(codes@[x] == codes0[x]);
                    } else {
                        assert(codes@[x] == e0);
                    }
                }
                assert(codes_vec_wf(codes@));
                assert(code_views(codes@) =~= code_views(codes0).push((e0.sym, e0.bits@)));
            }
            code_val = match code_val.checked_add(1) {
                Option::Some(cv) => cv,
                Option::None => {
                    return None;
                },
            };
            prev_len = len;
            k = k + 1;
            proof {
                if spec_assign_from(sorted@, k as int, code_val, prev_len) is Some {
                    let rest = spec_assign_from(sorted@, k as int, code_val, prev_len)->Some_0;
                    assert(code_views(codes@) + rest =~= code_views(codes0) + (seq![
                        (e0.sym, sbits),
                    ] + rest));
                }
            }
        }
        proof {
            assert(spec_assign_from(sorted@, sorted@.len() as int, code_val, prev_len) == Some(
                Seq::<(char, Seq<u8>)>::empty(),
            ));
            assert(code_views(codes@) + Seq::<(char, Seq<u8>)>::empty() =~= code_views(codes@));
        }
        Some(codes)
    }

    /// Build decode tree from encoding table    /// Build decode tree from encoding table, refusing any prefix
    /// conflict between codes.
    #[verifier::rlimit(100)]
    fn build_decode_tree(codes: &Vec<CodeEntry>) -> (r: Option<Vec<TrieNode>>)
        requires
            codes_vec_wf(codes@),
        ensures
            match r {
                Some(nodes) => trie_wf(nodes@) && spec_build_trie(code_views(codes@)) == Some(
                    nodes@,
                ),
                None => spec_build_trie(code_views(codes@)) is None,
            },
    {
        let ghost cv = code_views(codes@);
        let mut nodes: Vec<TrieNode> = Vec::new();
        nodes.push(TrieNode { left: 0, right: 0, sym: None });
        proof {
            assert(nodes@ =~= seq![(TrieNode { left: 0, right: 0, sym: None })]);
        }
        let mut k: usize = 0;
        while k < codes.len()
            invariant
                k <= codes@.len(),
                codes_vec_wf(codes@),
                cv == code_views(codes@),
                trie_wf(nodes@),
                spec_build_trie(cv) == spec_build_trie_from(nodes@, cv, k as int),
            decreases codes@.len() - k,
        {
            let ghost entry_nodes = nodes@;
            let ghost bitsv = codes@[k as int].bits@;
            let ghost sym = codes@[k as int].sym;
            let mut cur: usize = 0;
            let nbits = codes[k].bits.len();
            let mut t: usize = 0;
            while t < nbits
                invariant
                    t <= nbits,
                    k < codes@.len(),
                    nbits == codes@[k as int].bits@.len(),
                    bitsv == codes@[k as int].bits@,
                    sym == codes@[k as int].sym,
                    codes_vec_wf(codes@),
                    cv == code_views(codes@),
                    spec_build_trie(cv) == spec_build_trie_from(entry_nodes, cv, k as int),
                    trie_wf(nodes@),
                    cur < nodes@.len(),
                    spec_insert_code(entry_nodes, bitsv, 0, 0, sym) == spec_insert_code(
                        nodes@,
                        bitsv,
                        t as int,
                        cur as int,
                        sym,
                    ),
                decreases nbits - t,
            {
                if Self::node_sym(&nodes, cur).is_some() {
                    return None;
                }
                let b = codes[k].bits[t];
                let child = if b == 0 {
                    Self::node_left(&nodes, cur)
                } else {
                    Self::node_right(&nodes, cur)
                };
                if child == 0 {
                    let ghost before = nodes@;
                    nodes.push(TrieNode { left: 0, right: 0, sym: None });
                    let nid = nodes.len() - 1;
                    let oldn = *vstd::std_specs::vec::vec_index_mut(&mut nodes, cur);
                    let slot = vstd::std_specs::vec::vec_index_mut(&mut nodes, cur);
                    if b == 0 {
                        *slot = TrieNode { left: nid, right: oldn.right, sym: oldn.sym };
                    } else {
                        *slot = TrieNode { left: oldn.left, right: nid, sym: oldn.sym };
                    }
                    proof {
                        let parent = if b == 0 {
                            TrieNode { left: nid, right: before[cur as int].right, sym: before[
                                cur as int].sym }
                        } else {
                            TrieNode { left: before[cur as int].left, right: nid, sym: before[
                                cur as int].sym }
                        };
                        assert(nodes@ =~= before.push(
                            TrieNode { left: 0, right: 0, sym: None },
                        ).update(cur as int, parent));
                    }
                    cur = nid;
                } else {
                    cur = child;
                }
                t = t + 1;
            }
            if Self::node_sym(&nodes, cur).is_some() || Self::node_left(&nodes, cur) != 0
                || Self::node_right(&nodes, cur) != 0 {
                return None;
            }
            let ghost walked = nodes@;
            let oldn = *vstd::std_specs::vec::vec_index_mut(&mut nodes, cur);
            let slot = vstd::std_specs::vec::vec_index_mut(&mut nodes, cur);
            *slot = TrieNode { left: oldn.left, right: oldn.right, sym: Some(codes[k].sym) };
            proof {
                assert(nodes@ =~= walked.update(
                    cur as int,
                    TrieNode {
                        left: walked[cur as int].left,
                        right: walked[cur as int].right,
                        sym: Some(sym),
                    },
                ));
                assert(spec_insert_code(entry_nodes, bitsv, 0, 0, sym) == Some(nodes@));
            }
            k = k + 1;
        }
        Some(nodes)
    }

    /// Read one node's symbol.    /// Read one node's symbol.
    fn node_sym(nodes: &Vec<TrieNode>, j: usize) -> (r: Option<char>)
        requires
            j < nodes@.len(),
        ensures
            r == nodes@[j as int].sym,
    {
        nodes[j].sym
    }

    /// Read one node's left child.
    fn node_left(nodes: &Vec<TrieNode>, j: usize) -> (r: usize)
        requires
            j < nodes@.len(),
        ensures
            r == nodes@[j as int].left,
    {
        nodes[j].left
    }

    /// Read one node's right child.
    fn node_right(nodes: &Vec<TrieNode>, j: usize) -> (r: usize)
        requires
            j < nodes@.len(),
        ensures
            r == nodes@[j as int].right,
    {
        nodes[j].right
    }
}

/// Indexing just past the old end of a pushed sequence yields the new
/// entry; earlier indices are untouched.
proof fn lemma_push_entry(s: Seq<CodeEntry>, e: CodeEntry)
    ensures
        s.push(e)[s.len() as int] == e,
        forall|x: int| 0 <= x < s.len() ==> #[trigger] s.push(e)[x] == s[x],
{
}

/// The sixteen header bits read back as their value.
proof fn lemma_u16_bits_val_prefix(x: u16, k: int)
    requires
        0 <= k <= 16,
    ensures
        bits_val(u16_bits(x).take(k)) == x >> ((16 - k) as u16),
    decreases k,
{
    if k == 0 {
        assert(u16_bits(x).take(0) =~= Seq::<u8>::empty());
        assert(x >> 16u16 == 0) by (bit_vector);
    } else {
        lemma_u16_bits_val_prefix(x, k - 1);
        assert(u16_bits(x).take(k).drop_last() =~= u16_bits(x).take(k - 1));
        let kk = (16 - k) as u16;
        let y = x >> kk;
        assert(u16_bits(x).take(k).last() == ((x >> ((15 - (k - 1)) as u16)) & 1) as u8);
        assert((15 - (k - 1)) as u16 == kk);
        assert((x >> (kk + 1)) <= 0x7FFF && (y & 1) <= 1 && y == (x >> (kk + 1)) * 2 + (y
            & 1)) by (bit_vector)
            requires
                kk <= 15 && y == x >> kk,
        ;
        assert((16 - (k - 1)) as u16 == kk + 1);
        assert(bits_val(u16_bits(x).take(k)) == (x >> (kk + 1)) * 2 + (y & 1));
    }
}

/// The container of a short payload parses back to exactly that
/// payload: the 16-bit count leads the decoder to the payload bits and
/// past the padding.
pub proof fn lemma_container_round_trip(payload: Seq<u8>)
    requires
        is_bit_seq(payload),
        payload.len() <= 0xFFFF,
    ensures
        spec_payload_bits(spec_container(payload)) == Some(payload),
{
    let hv = (payload.len() % 0x10000) as u16;
    assert(hv == payload.len());
    let full = u16_bits(hv) + payload;
    let padded = pad_to_byte(full);
    assert(is_bit_seq(u16_bits(hv))) by {
        assert forall|t: int| 0 <= t < 16 implies #[trigger] u16_bits(hv)[t] <= 1 by {
            let sh = (15 - t) as u16;
            assert((hv >> sh) & 1 <= 1) by (bit_vector);
        }
    }
    assert(is_bit_seq(padded)) by {
        assert forall|t: int| 0 <= t < padded.len() implies #[trigger] padded[t] <= 1 by {
            if t < 16 {
                assert(padded[t] == u16_bits(hv)[t]);
            } else if t < full.len() {
                assert(padded[t] == payload[t - 16]);
            }
        }
    }
    assert(padded.len() % 8 == 0);
    crate::bits::lemma_pack_bits_inverse(padded);
    let data = spec_container(payload);
    assert(bytes_bits(data) =~= padded);
    assert(data.len() >= 2) by {
        assert(padded.len() >= 16);
        assert(data.len() == padded.len() / 8);
    }
    assert(bytes_bits(data).take(16) =~= u16_bits(hv).take(16));
    lemma_u16_bits_val_prefix(hv, 16);
    assert(u16_bits(hv).take(16) =~= u16_bits(hv));
    assert(hv >> 0u16 == hv) by (bit_vector);
    assert(bits_val(bytes_bits(data).take(16)) == payload.len());
    assert(bytes_bits(data).len() - 16 >= payload.len());
    assert(bytes_bits(data).subrange(16, 16 + payload.len() as int) =~= payload);
}

/// The payload bits of a message whose characters all escape are a bit
/// sequence of escape chunks.
proof fn lemma_escape_bits_are_bits(c: char)
    ensures
        is_bit_seq(escape_bits(c)),
        30 <= escape_bits(c).len() <= 54,
        escape_bits(c).len() == 22 + 8 * vstd::utf8::encode_scalar(c as u32).len(),
        forall|t: int| 0 <= t < 20 ==> #[trigger] escape_bits(c)[t] == 1,
{
    let enc = vstd::utf8::encode_scalar(c as u32);
    let lf = (enc.len() - 1) as u8;
    crate::bits::lemma_bytes_bits_inverse(enc);
    assert forall|t: int| 0 <= t < escape_bits(c).len() implies #[trigger] escape_bits(c)[t]
        <= 1 by {
        if t < 20 {
        } else if t < 22 {
            assert(((lf >> 1u8) & 1) <= 1 && (lf & 1) <= 1) by (bit_vector);
        } else {
            assert(escape_bits(c)[t] == bytes_bits(enc)[t - 22]);
        }
    }
}

/// The payload bits of any message are a 0/1 bit sequence: table codes
/// by the table invariant, escapes by construction.
proof fn lemma_encode_bits_are_bits(v: CodecView, cs: Seq<char>, i: int)
    requires
        codes_wf(v.codes),
        tokens_wf(v.tokens),
    ensures
        is_bit_seq(spec_encode_bits(v, cs, i)),
    decreases cs.len() - i,
{
    if 0 <= i < cs.len() {
        lemma_token_match_len(v, cs, i, 0);
        match spec_token_match_from(v, cs, i, 0) {
            Option::Some(m) => {
                lemma_code_of_entry(v.codes, m.2);
                lemma_encode_bits_are_bits(v, cs, i + m.1);
                assert(spec_encode_bits(v, cs, i) == m.0 + spec_encode_bits(v, cs, i + m.1));
                lemma_bit_seq_concat(m.0, spec_encode_bits(v, cs, i + m.1));
            },
            Option::None => {
                assert(spec_encode_bits_next(v, cs, i) == spec_encode_bits(v, cs, i + 1));
                lemma_encode_bits_are_bits(v, cs, i + 1);
                match spec_code_of(v.codes, cs[i]) {
                    Option::Some(code) => {
                        lemma_code_of_entry(v.codes, cs[i]);
                        assert(spec_encode_bits(v, cs, i) == code + spec_encode_bits(
                            v,
                            cs,
                            i + 1,
                        ));
                        lemma_bit_seq_concat(code, spec_encode_bits(v, cs, i + 1));
                    },
                    Option::None => {
                        lemma_escape_bits_are_bits(cs[i]);
                        assert(spec_encode_bits(v, cs, i) == escape_bits(cs[i])
                            + spec_encode_bits(v, cs, i + 1));
                        lemma_bit_seq_concat(escape_bits(cs[i]), spec_encode_bits(v, cs, i + 1));
                    },
                }
            },
        }
    }
}

/// Concatenation keeps bit sequences bit sequences.
proof fn lemma_bit_seq_concat(a: Seq<u8>, b: Seq<u8>)
    requires
        is_bit_seq(a),
        is_bit_seq(b),
    ensures
        is_bit_seq(a + b),
{
    assert forall|t: int| 0 <= t < (a + b).len() implies #[trigger] (a + b)[t] <= 1 by {
        if t < a.len() {
            assert((a + b)[t] == a[t]);
        } else {
            assert((a + b)[t] == b[t - a.len()]);
        }
    }
}

/// A code the table hands out belongs to some table row.
proof fn lemma_code_of_entry(codes: Seq<(char, Seq<u8>)>, c: char)
    requires
        spec_code_of(codes, c) is Some,
    ensures
        exists|k: int|
            0 <= k < codes.len() && (#[trigger] codes[k]).0 == c && codes[k].1 == spec_code_of(
                codes,
                c,
            )->Some_0,
    decreases codes.len(),
{
    if codes.len() > 0 {
        if codes[0].0 == c {
            assert(codes[0].0 == c && codes[0].1 == spec_code_of(codes, c)->Some_0);
        } else {
            lemma_code_of_entry(codes.drop_first(), c);
            let k0 = choose|k: int|
                0 <= k < codes.drop_first().len() && (#[trigger] codes.drop_first()[k]).0 == c
                    && codes.drop_first()[k].1 == spec_code_of(codes.drop_first(), c)->Some_0;
            assert(codes[k0 + 1].0 == c && codes[k0 + 1].1 == spec_code_of(codes, c)->Some_0);
        }
    }
}

/// Walking a code's bits through a consistent trie emits the code's
/// symbol and hands the walk back to the root just past the code.
proof fn lemma_walk_code(
    v: CodecView,
    bits: Seq<u8>,
    off: int,
    code: Seq<u8>,
    j: int,
    cur: int,
    sym: char,
)
    requires
        path_ok(v.nodes, code, j, cur, sym),
        0 <= j < code.len(),
        0 <= off,
        off + code.len() <= bits.len(),
        forall|p: int| off <= p < off + code.len() ==> #[trigger] bits[p] == code[p - off],
        forall|p: int| off <= p < off + code.len() ==> !escape_here(bits, #[trigger] (p * 1)),
    ensures
        spec_decode_from(v, bits, off + j, cur) == (match spec_decode_from(
            v,
            bits,
            off + code.len(),
            0,
        ) {
            Option::Some(rest) => Some(spec_expand(v.tokens, sym) + rest),
            Option::None => None::<Seq<char>>,
        }),
    decreases code.len() - j,
{
    assert(!escape_here(bits, (off + j) * 1));
    assert(bits[off + j] == code[j]);
    let b = code[j];
    let child = if b == 0 {
        v.nodes[cur].left as int
    } else {
        v.nodes[cur].right as int
    };
    if j + 1 == code.len() {
        assert(path_ok(v.nodes, code, j + 1, child, sym));
        assert(v.nodes[child].sym == Some(sym));
    } else {
        lemma_walk_code(v, bits, off, code, j + 1, child, sym);
    }
}

/// Decoding one escape unit emits its character and resumes past it.
proof fn lemma_escape_step(v: CodecView, c: char, bits: Seq<u8>, off: int)
    requires
        0 <= off,
        off + escape_bits(c).len() <= bits.len(),
        forall|p: int|
            off <= p < off + escape_bits(c).len() ==> #[trigger] bits[p] == escape_bits(c)[p
                - off],
    ensures
        spec_decode_from(v, bits, off, 0) == (match spec_decode_from(
            v,
            bits,
            off + escape_bits(c).len(),
            0,
        ) {
            Option::Some(rest) => Some(seq![c] + rest),
            Option::None => None::<Seq<char>>,
        }),
{
    let unit = escape_bits(c);
    let enc = vstd::utf8::encode_scalar(c as u32);
    let lf = (enc.len() - 1) as u8;
    lemma_escape_bits_are_bits(c);
    let ul = unit.len() as int;
    assert(escape_here(bits, off)) by {
        assert forall|p: int| off <= p < off + 20 implies #[trigger] bits[p] == 1 by {
            assert(bits[p] == unit[p - off]);
        }
        assert(off + 20 < bits.len());
    }
    let nb = bits[off + 20] * 2 + bits[off + 21] + 1;
    assert(bits[off + 20] == (lf >> 1u8) & 1 && bits[off + 21] == lf & 1);
    assert(((lf >> 1u8) & 1) * 2 + (lf & 1) == lf) by (bit_vector)
        requires
            lf <= 3,
    ;
    assert(nb == enc.len());
    let needed = 22 + 8 * nb;
    assert(needed == ul);
    assert(!(off + 22 > bits.len()));
    assert(!(off + needed > bits.len()));
    let ebits = bits.subrange(off + 22, off + needed);
    assert(ebits =~= crate::bits::bytes_bits(enc)) by {
        assert forall|t: int| 0 <= t < 8 * enc.len() implies #[trigger] ebits[t]
            == crate::bits::bytes_bits(enc)[t] by {
            assert(ebits[t] == bits[off + 22 + t]);
            assert(bits[off + 22 + t] == unit[22 + t]);
        }
    }
    crate::bits::lemma_bytes_bits_inverse(enc);
    assert(pack_bits(ebits) == enc);
    assert(vstd::utf8::encode_utf8(seq![c]) =~= enc) by {
        assert(seq![c].drop_first() =~= Seq::<char>::empty());
        assert(vstd::utf8::encode_utf8(seq![c]) == enc + vstd::utf8::encode_utf8(
            Seq::<char>::empty(),
        ));
    }
    vstd::utf8::encode_utf8_valid_utf8(seq![c]);
    vstd::utf8::encode_utf8_decode_utf8(seq![c]);
    assert(vstd::utf8::valid_utf8(enc));
    assert(vstd::utf8::decode_utf8(enc) == seq![c]);
}

/// No spurious escape: at no bit position occupied by a table code does
/// a run of twenty one-bits begin in the assembled payload.
pub open spec fn no_false_escape(
    v: CodecView,
    cs: Seq<char>,
    bits: Seq<u8>,
    i: int,
    off: int,
) -> bool
    decreases cs.len() - i, 1nat,
{
    if i < 0 || i >= cs.len() {
        true
    } else {
        match spec_token_match_from(v, cs, i, 0) {
            Option::Some(m) => {
                if 1 <= m.1 && i + m.1 <= cs.len() {
                    (forall|p: int|
                        off <= p < off + m.0.len() ==> !escape_here(bits, #[trigger] (p * 1)))
                        && no_false_escape(v, cs, bits, i + m.1, off + m.0.len())
                } else {
                    no_false_escape_next(v, cs, bits, i, off + m.0.len())
                }
            },
            Option::None => {
                match spec_code_of(v.codes, cs[i]) {
                    Option::Some(code) => (forall|p: int|
                        off <= p < off + code.len() ==> !escape_here(bits, #[trigger] (p * 1)))
                        && no_false_escape_next(v, cs, bits, i, off + code.len()),
                    Option::None => no_false_escape_next(
                        v,
                        cs,
                        bits,
                        i,
                        off + escape_bits(cs[i]).len(),
                    ),
                }
            },
        }
    }
}

/// The continuation of `no_false_escape` after a single-character step.
pub open spec fn no_false_escape_next(
    v: CodecView,
    cs: Seq<char>,
    bits: Seq<u8>,
    i: int,
    off: int,
) -> bool
    decreases cs.len() - i, 0nat,
{
    if 0 <= i < cs.len() {
        no_false_escape(v, cs, bits, i + 1, off)
    } else {
        true
    }
}

/// Decoding the payload bits from a unit boundary yields the remaining
/// characters, provided the tables are consistent, the text renders
/// back (no sentinel characters, matched tokens equal to their source
/// slice), and no spurious escape begins inside a code.
proof fn lemma_units_decode(v: CodecView, cs: Seq<char>, i: int, bits: Seq<u8>, off: int)
    requires
        codes_wf(v.codes),
        tokens_wf(v.tokens),
        tables_consistent(v),
        forall|t: int|
            0 <= t < cs.len() ==> spec_expand(v.tokens, #[trigger] cs[t]) == seq![cs[t]],
        forall|t: int|
            0 <= t < cs.len() ==> (#[trigger] spec_token_match_from(v, cs, t, 0) matches Some(m)
                ==> spec_expand(v.tokens, m.2) == cs.subrange(t, t + m.1)),
        no_false_escape(v, cs, bits, i, off),
        0 <= i <= cs.len(),
        0 <= off <= bits.len(),
        bits.subrange(off, bits.len() as int) == spec_encode_bits(v, cs, i),
    ensures
        spec_decode_from(v, bits, off, 0) == Some(cs.skip(i)),
    decreases cs.len() - i,
{
    let suf = bits.subrange(off, bits.len() as int);
    if i == cs.len() {
        assert(spec_encode_bits(v, cs, i) =~= Seq::<u8>::empty());
        assert(off == bits.len());
        assert(cs.skip(i) =~= Seq::<char>::empty());
    } else {
        lemma_token_match_len(v, cs, i, 0);
        match spec_token_match_from(v, cs, i, 0) {
            Option::Some(m) => {
                let code = m.0;
                let sent = m.2;
                let tlen = m.1;
                assert(spec_encode_bits(v, cs, i) == code + spec_encode_bits(v, cs, i + tlen));
                lemma_code_of_entry(v.codes, sent);
                let k0 = choose|k: int|
                    0 <= k < v.codes.len() && (#[trigger] v.codes[k]).0 == sent && v.codes[k].1
                        == spec_code_of(v.codes, sent)->Some_0;
                let cl = code.len() as int;
                assert(1 <= cl <= 64);
                assert(off + cl <= bits.len());
                assert forall|p: int| off <= p < off + cl implies #[trigger] bits[p] == code[p
                    - off] by {
                    assert(suf[p - off] == code[p - off]);
                }
                assert(path_ok(v.nodes, code, 0, 0, sent));
                lemma_walk_code(v, bits, off, code, 0, 0, sent);
                let tail2 = bits.subrange(off + cl, bits.len() as int);
                assert(tail2 =~= spec_encode_bits(v, cs, i + tlen)) by {
                    assert forall|t: int| 0 <= t < tail2.len() implies #[trigger] tail2[t]
                        == spec_encode_bits(v, cs, i + tlen)[t] by {
                        assert(tail2[t] == bits[off + cl + t]);
                        assert(bits[off + cl + t] == suf[cl + t]);
                        assert(suf[cl + t] == spec_encode_bits(v, cs, i + tlen)[t]);
                    }
                }
                lemma_units_decode(v, cs, i + tlen, bits, off + cl);
                assert(spec_decode_from(v, bits, off, 0) == Some(
                    spec_expand(v.tokens, sent) + cs.skip(i + tlen),
                ));
                assert(spec_expand(v.tokens, sent) == cs.subrange(i, i + tlen));
                assert(cs.subrange(i, i + tlen) + cs.skip(i + tlen) =~= cs.skip(i));
            },
            Option::None => {
                match spec_code_of(v.codes, cs[i]) {
                    Option::Some(code) => {
                        assert(spec_encode_bits_next(v, cs, i) == spec_encode_bits(v, cs, i + 1));
                        assert(spec_encode_bits(v, cs, i) == code + spec_encode_bits(
                            v,
                            cs,
                            i + 1,
                        ));
                        lemma_code_of_entry(v.codes, cs[i]);
                        let k0 = choose|k: int|
                            0 <= k < v.codes.len() && (#[trigger] v.codes[k]).0 == cs[i]
                                && v.codes[k].1 == spec_code_of(v.codes, cs[i])->Some_0;
                        let cl = code.len() as int;
                        assert(1 <= cl <= 64);
                        assert(off + cl <= bits.len());
                        assert forall|p: int| off <= p < off + cl implies #[trigger] bits[p]
                            == code[p - off] by {
                            assert(suf[p - off] == code[p - off]);
                        }
                        assert(path_ok(v.nodes, code, 0, 0, cs[i]));
                        lemma_walk_code(v, bits, off, code, 0, 0, cs[i]);
                        let tail2 = bits.subrange(off + cl, bits.len() as int);
                        assert(tail2 =~= spec_encode_bits(v, cs, i + 1)) by {
                            assert forall|t: int| 0 <= t < tail2.len() implies #[trigger] tail2[t]
                                == spec_encode_bits(v, cs, i + 1)[t] by {
                                assert(tail2[t] == bits[off + cl + t]);
                                assert(bits[off + cl + t] == suf[cl + t]);
                                assert(suf[cl + t] == spec_encode_bits(v, cs, i + 1)[t]);
                            }
                        }
                        assert(no_false_escape_next(v, cs, bits, i, off + cl)
                            == no_false_escape(v, cs, bits, i + 1, off + cl));
                        lemma_units_decode(v, cs, i + 1, bits, off + cl);
                        assert(spec_decode_from(v, bits, off, 0) == Some(
                            spec_expand(v.tokens, cs[i]) + cs.skip(i + 1),
                        ));
                        assert(seq![cs[i]] + cs.skip(i + 1) =~= cs.skip(i));
                    },
                    Option::None => {
                        let unit = escape_bits(cs[i]);
                        let ul = unit.len() as int;
                        lemma_escape_bits_are_bits(cs[i]);
                        assert(spec_encode_bits_next(v, cs, i) == spec_encode_bits(v, cs, i + 1));
                        assert(spec_encode_bits(v, cs, i) == unit + spec_encode_bits(
                            v,
                            cs,
                            i + 1,
                        ));
                        assert(off + ul <= bits.len());
                        assert forall|p: int| off <= p < off + ul implies #[trigger] bits[p]
                            == unit[p - off] by {
                            assert(suf[p - off] == unit[p - off]);
                        }
                        lemma_escape_step(v, cs[i], bits, off);
                        let tail2 = bits.subrange(off + ul, bits.len() as int);
                        assert(tail2 =~= spec_encode_bits(v, cs, i + 1)) by {
                            assert forall|t: int| 0 <= t < tail2.len() implies #[trigger] tail2[t]
                                == spec_encode_bits(v, cs, i + 1)[t] by {
                                assert(tail2[t] == bits[off + ul + t]);
                                assert(bits[off + ul + t] == suf[ul + t]);
                                assert(suf[ul + t] == spec_encode_bits(v, cs, i + 1)[t]);
                            }
                        }
                        assert(no_false_escape_next(v, cs, bits, i, off + ul)
                            == no_false_escape(v, cs, bits, i + 1, off + ul));
                        lemma_units_decode(v, cs, i + 1, bits, off + ul);
                        assert(spec_decode_from(v, bits, off, 0) == Some(
                            seq![cs[i]] + cs.skip(i + 1),
                        ));
                        assert(seq![cs[i]] + cs.skip(i + 1) =~= cs.skip(i));
                    },
                }
            },
        }
    }
}

/// Huffman round trip: decoding the encoding of a message restores the
/// message, for every message that renders back under the codec's
/// aliasing rules.  The conditions leave out exactly the inputs on
/// which the wire format cannot return the original text: a message
/// holding a sentinel character, a token matched in other than its
/// canonical spelling, a payload past the 16-bit bit counter, and a
/// message whose code bits happen to contain twenty consecutive
/// one-bits, which the decoder would read as an escape.
#[verifier::rlimit(100)]
#[verifier::spinoff_prover]
pub proof fn lemma_huffman_round_trip(v: CodecView, cs: Seq<char>)
    requires
        codes_wf(v.codes),
        tokens_wf(v.tokens),
        tables_consistent(v),
        forall|t: int|
            0 <= t < cs.len() ==> spec_expand(v.tokens, #[trigger] cs[t]) == seq![cs[t]],
        forall|t: int|
            0 <= t < cs.len() ==> (#[trigger] spec_token_match_from(v, cs, t, 0) matches Some(m)
                ==> spec_expand(v.tokens, m.2) == cs.subrange(t, t + m.1)),
        no_false_escape(v, cs, spec_encode_bits(v, cs, 0), 0, 0),
        spec_encode_bits(v, cs, 0).len() <= 0xFFFF,
    ensures
        spec_huffman_decode(v, spec_huffman_encode(v, cs)) == Some(cs),
{
    let bits = spec_encode_bits(v, cs, 0);
    lemma_encode_bits_are_bits(v, cs, 0);
    lemma_container_round_trip(bits);
    let data = spec_huffman_encode(v, cs);
    assert(spec_payload_bits(data) == Some(bits));
    assert(bits.subrange(0, bits.len() as int) =~= bits);
    lemma_units_decode(v, cs, 0, bits, 0);
    assert(spec_decode_from(v, bits, 0, 0) == Some(cs.skip(0)));
    assert(cs.skip(0) =~= cs);
}

/// Simple ASCII codec (no compression)
pub struct AsciiCodec;

impl AsciiCodec {
    /// Encode text to bytes
    pub fn encode(&mut self, text: &str) -> (r: Result<Vec<u8>, CodecError>)
        ensures
            r matches Ok(v) && v@ == vstd::utf8::encode_utf8(text@),
    {
        let b = text.as_bytes();
        Ok(vstd::slice::slice_to_vec(b))
    }

    /// Decode bytes to text
    pub fn decode(&mut self, data: &[u8]) -> (r: Result<String, CodecError>)
        ensures
            match r {
                Ok(s) => vstd::utf8::valid_utf8(data@) && s@ == vstd::utf8::decode_utf8(data@),
                Err(e) => !vstd::utf8::valid_utf8(data@) && e is DecodingFailed,
            },
    {
        match utf8_decode(data) {
            Option::Some(v) => Ok(chars_to_string(&v)),
            Option::None => Err(CodecError::DecodingFailed {
                msg: "invalid UTF-8".to_owned(),
            }),
        }
    }

    /// Reset codec state
    pub fn reset(&mut self)
        ensures
            *final(self) == *old(self),
    {
    }
}

} // verus!
