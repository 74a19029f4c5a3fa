//! Forward error correction: Reed-Solomon block framing, a convolutional
//! encoder, and a parity-byte check.  The Reed-Solomon parity computation
//! and Viterbi decoding are block-framing placeholders, as in the modem's
//! wire protocol: encoding pads to the block size and decoding returns the
//! data symbols.

use vstd::prelude::*;
use crate::bits::{bytes_bits, bytes_to_bits_msb, ones32, parity32};
use crate::errors::FrameError;

verus! {

/// Error correction statistics
#[derive(Debug, Clone, PartialEq, Eq, Structural)]
pub struct ErrorStats {
    pub corrected_errors: usize,
    pub detected_errors: usize,
    pub uncorrectable_errors: usize,
}

impl Default for ErrorStats {
    fn default() -> (r: Self)
        ensures
            r == (ErrorStats { corrected_errors: 0, detected_errors: 0, uncorrectable_errors: 0 }),
    {
        ErrorStats { corrected_errors: 0, detected_errors: 0, uncorrectable_errors: 0 }
    }
}

/// Generic FEC decoder trait.  Each implementation fixes its behaviour
/// through the spec methods, which the executable methods must meet.
pub trait FecDecoder: Sized {
    /// Inputs on which decoding runs without failure of the machine
    /// (established by the constructors of every implementation).
    spec fn decode_req(&self) -> bool;

    /// What decoding returns on the given bytes, or `None` when it fails.
    spec fn decode_spec(&self, encoded: Seq<u8>) -> Option<Seq<u8>>;

    /// Whether the given bytes count as correctable.
    spec fn correctable_spec(&self, encoded: Seq<u8>) -> bool;

    /// The statistics the decoder reports.
    spec fn stats_spec(&self) -> ErrorStats;

    /// Decode data and correct errors
    fn decode(&mut self, encoded_data: &[u8]) -> (r: Result<Vec<u8>, FrameError>)
        requires
            old(self).decode_req(),
        ensures
            *final(self) == *old(self),
            match r {
                Ok(v) => old(self).decode_spec(encoded_data@) == Some(v@),
                Err(e) => old(self).decode_spec(encoded_data@) is None
                    && e is FecDecodingFailed,
            },
    ;

    /// Check if data can be corrected
    fn can_correct(&self, encoded_data: &[u8]) -> (r: bool)
        ensures
            r == self.correctable_spec(encoded_data@),
    ;

    /// Get error statistics from last decode
    fn error_stats(&self) -> (r: ErrorStats)
        ensures
            r == self.stats_spec(),
    ;
}

/// Reed-Solomon encoder/decoder
pub struct ReedSolomon {
    /// Total symbols
    pub n: usize,
    /// Data symbols
    pub k: usize,
    /// Error correction capability
    pub t: usize,
}

impl ReedSolomon {
    /// Parameters accepted by the constructor: more symbols than data
    /// symbols, and a block that fits the 8-bit symbol field.
    pub open spec fn params_ok(n: usize, k: usize) -> bool {
        k < n <= 255
    }

    /// Invariant established by the constructors.
    pub open spec fn wf(&self) -> bool {
        Self::params_ok(self.n, self.k)
    }

    /// Create a new Reed-Solomon codec
    pub fn new(n: usize, k: usize) -> (r: Result<Self, FrameError>)
        ensures
            match r {
                Ok(rs) => Self::params_ok(n, k) && rs == (ReedSolomon {
                    n,
                    k,
                    t: ((n - k) / 2) as usize,
                }),
                Err(e) => !Self::params_ok(n, k) && e is InvalidFecParameters,
            },
    {
        if n <= k {
            return Err(FrameError::InvalidFecParameters {
                msg: "total symbols must exceed data symbols".to_owned(),
            });
        }
        if n > 255 {
            return Err(FrameError::InvalidFecParameters {
                msg: "block size too large".to_owned(),
            });
        }
        let t = (n - k) / 2;
        Ok(Self { n, k, t })
    }

    /// Create RS(255,223) - commonly used configuration
    pub fn rs_255_223() -> (r: Result<Self, FrameError>)
        ensures
            r matches Ok(rs) && rs == (ReedSolomon { n: 255usize, k: 223usize, t: 16usize }),
    {
        Self::new(255, 223)
    }

    /// Create RS(255,239) - higher rate configuration
    pub fn rs_255_239() -> (r: Result<Self, FrameError>)
        ensures
            r matches Ok(rs) && rs == (ReedSolomon { n: 255usize, k: 239usize, t: 8usize }),
    {
        Self::new(255, 239)
    }

    /// Encode data with error correction: the data padded with zero bytes
    /// up to the block size (placeholder parity).
    pub fn encode(&mut self, data: &[u8]) -> (r: Result<Vec<u8>, FrameError>)
        requires
            old(self).wf(),
        ensures
            *final(self) == *old(self),
            match r {
                Ok(v) => data@.len() <= old(self).k && v@ == data@ + Seq::new(
                    (old(self).n - data@.len()) as nat,
                    |i: int| 0u8,
                ),
                Err(e) => data@.len() > old(self).k && e is InvalidFecParameters,
            },
    {
        if data.len() > self.k {
            return Err(FrameError::InvalidFecParameters {
                msg: "data too long for block".to_owned(),
            });
        }
        let mut encoded = vstd::slice::slice_to_vec(data);
        while encoded.len() < self.n
            invariant
                data@.len() <= encoded@.len() <= self.n,
                encoded@ =~= data@ + Seq::new((encoded@.len() - data@.len()) as nat, |i: int| 0u8),
            decreases self.n - encoded@.len(),
        {
            encoded.push(0u8);
            assert(encoded@ =~= data@ + Seq::new(
                (encoded@.len() - data@.len()) as nat,
                |i: int| 0u8,
            ));
        }
        Ok(encoded)
    }

    /// Get overhead bytes for given input length
    pub fn overhead_bytes(&self, input_len: usize) -> (r: usize)
        requires
            1 <= self.k <= self.n,
            input_len + self.k <= usize::MAX,
            ((input_len + self.k - 1) as int / self.k as int) * (self.n - self.k) <= usize::MAX,
        ensures
            r == ((input_len + self.k - 1) as int / self.k as int) * (self.n - self.k),
    {
        let blocks = (input_len + self.k - 1) / self.k;
        blocks * (self.n - self.k)
    }
}

impl FecDecoder for ReedSolomon {
    open spec fn decode_req(&self) -> bool {
        true
    }

    open spec fn decode_spec(&self, encoded: Seq<u8>) -> Option<Seq<u8>> {
        if encoded.len() == self.n && self.k <= self.n {
            Some(encoded.subrange(0, self.k as int))
        } else {
            None
        }
    }

    open spec fn correctable_spec(&self, encoded: Seq<u8>) -> bool {
        encoded.len() == self.n
    }

    open spec fn stats_spec(&self) -> ErrorStats {
        ErrorStats { corrected_errors: 0, detected_errors: 0, uncorrectable_errors: 0 }
    }

    fn decode(&mut self, encoded_data: &[u8]) -> (r: Result<Vec<u8>, FrameError>) {
        if encoded_data.len() != self.n || self.k > self.n {
            return Err(FrameError::FecDecodingFailed {
                msg: "invalid block size".to_owned(),
            });
        }
        let head = vstd::slice::slice_subrange(encoded_data, 0, self.k);
        Ok(vstd::slice::slice_to_vec(head))
    }

    fn can_correct(&self, encoded_data: &[u8]) -> (r: bool) {
        encoded_data.len() == self.n
    }

    fn error_stats(&self) -> (r: ErrorStats) {
        ErrorStats { corrected_errors: 0, detected_errors: 0, uncorrectable_errors: 0 }
    }
}

/// The register after shifting in one input bit: the register moves one
/// step toward the output and the bit enters at the top.
pub open spec fn conv_next_state(state: u32, bit: u8, kl: nat) -> u32
    recommends
        1 <= kl <= 32,
{
    (state >> 1u32) | ((bit as u32) << ((kl - 1) as u32))
}

/// The register after `i` input bits.
pub open spec fn conv_state_at(state0: u32, in_bits: Seq<u8>, kl: nat, i: int) -> u32
    decreases i,
{
    if i <= 0 {
        state0
    } else {
        conv_next_state(conv_state_at(state0, in_bits, kl, i - 1), in_bits[i - 1], kl)
    }
}

/// One generator's output bit: the parity of the register masked by the
/// generator polynomial.
pub open spec fn conv_output_bit(state: u32, poly: u32) -> u8 {
    (ones32(state & poly) % 2) as u8
}

/// The output byte for one input bit: generator `i` contributes its
/// output at bit position `7 - i`.
pub open spec fn conv_byte_upto(state: u32, polys: Seq<u32>, k: int) -> u8
    recommends
        k <= polys.len() <= 8,
    decreases k,
{
    if k <= 0 {
        0
    } else {
        conv_byte_upto(state, polys, k - 1) | (
        conv_output_bit(state, polys[k - 1]) << ((7 - (k - 1)) as u8))
    }
}

/// The output byte emitted after the register has absorbed a bit.
pub open spec fn conv_byte(state: u32, polys: Seq<u32>) -> u8 {
    conv_byte_upto(state, polys, polys.len() as int)
}

/// All output bytes for a bit sequence: one byte per input bit.
pub open spec fn conv_data_bytes(state0: u32, in_bits: Seq<u8>, polys: Seq<u32>, kl: nat) -> Seq<
    u8,
> {
    Seq::new(in_bits.len(), |i: int| conv_byte(conv_state_at(state0, in_bits, kl, i + 1), polys))
}

/// The register after `j` flush steps.
pub open spec fn conv_tail_state(state: u32, j: int) -> u32
    decreases j,
{
    if j <= 0 {
        state
    } else {
        conv_tail_state(state, j - 1) >> 1u32
    }
}

/// The flush bytes that drain the register: one byte per flush step.
pub open spec fn conv_tail_bytes(state: u32, polys: Seq<u32>, kl: nat) -> Seq<u8> {
    Seq::new((kl - 1) as nat, |j: int| conv_byte(conv_tail_state(state, j + 1), polys))
}

/// Convolutional encoder/decoder
pub struct Convolutional {
    pub constraint_length: usize,
    /// (k, n): k input bits produce n output bits
    pub code_rate: (usize, usize),
    pub polynomials: Vec<u32>,
    pub state: u32,
}

impl Convolutional {
    /// Invariant established by the constructor.
    pub open spec fn wf(&self) -> bool {
        &&& 3 <= self.constraint_length <= 15
        &&& self.polynomials@.len() >= 1
        &&& self.code_rate == (1usize, self.polynomials@.len() as usize)
    }

    /// Parameters the constructor accepts.
    pub open spec fn params_ok(constraint_length: usize, polynomials: Seq<u32>) -> bool {
        3 <= constraint_length <= 15 && polynomials.len() >= 1
    }

    /// Create a new convolutional codec
    pub fn new(constraint_length: usize, polynomials: Vec<u32>) -> (r: Result<Self, FrameError>)
        ensures
            match r {
                Ok(c) => Self::params_ok(constraint_length, polynomials@) && c.wf()
                    && c.constraint_length == constraint_length && c.polynomials@ == polynomials@
                    && c.state == 0,
                Err(e) => !Self::params_ok(constraint_length, polynomials@)
                    && e is InvalidFecParameters,
            },
    {
        if constraint_length < 3 || constraint_length > 15 {
            return Err(FrameError::InvalidFecParameters {
                msg: "invalid constraint length".to_owned(),
            });
        }
        if polynomials.is_empty() {
            return Err(FrameError::InvalidFecParameters {
                msg: "at least one generator polynomial required".to_owned(),
            });
        }
        let code_rate = (1, polynomials.len());
        Ok(Self { constraint_length, code_rate, polynomials, state: 0 })
    }

    /// Create rate 1/2, K=7 convolutional code (NASA standard)
    pub fn nasa_standard() -> (r: Result<Self, FrameError>)
        ensures
            r matches Ok(c) && c.wf() && c.constraint_length == 7 && c.polynomials@ == seq![
                0x79u32,
                0x5Bu32,
            ] && c.state == 0,
    {
        let polys = vec![0x79u32, 0x5Bu32];
        assert(polys@ =~= seq![0x79u32, 0x5Bu32]);
        Self::new(7, polys)
    }

    /// Create rate 1/3, K=7 convolutional code
    pub fn rate_1_3_k7() -> (r: Result<Self, FrameError>)
        ensures
            r matches Ok(c) && c.wf() && c.constraint_length == 7 && c.polynomials@ == seq![
                0x79u32,
                0x5Bu32,
                0x75u32,
            ] && c.state == 0,
    {
        let polys = vec![0x79u32, 0x5Bu32, 0x75u32];
        assert(polys@ =~= seq![0x79u32, 0x5Bu32, 0x75u32]);
        Self::new(7, polys)
    }

    /// Encode data with error correction: one output byte per input bit
    /// (bits taken most significant first), then flush bytes that drain
    /// the register.
    pub fn encode(&mut self, data: &[u8]) -> (r: Result<Vec<u8>, FrameError>)
        requires
            old(self).wf(),
            old(self).polynomials@.len() <= 8,
        ensures
            final(self).wf(),
            final(self).constraint_length == old(self).constraint_length,
            final(self).polynomials@ == old(self).polynomials@,
            r matches Ok(v) && ({
                let in_bits = bytes_bits(data@);
                let kl = old(self).constraint_length as nat;
                let mid = conv_state_at(old(self).state, in_bits, kl, in_bits.len() as int);
                &&& v@ == conv_data_bytes(old(self).state, in_bits, old(self).polynomials@, kl)
                    + conv_tail_bytes(mid, old(self).polynomials@, kl)
                &&& final(self).state == conv_tail_state(mid, kl - 1)
            }),
    {
        let ghost in_bits = bytes_bits(data@);
        let ghost kl = self.constraint_length as nat;
        let ghost polys = self.polynomials@;
        let ghost state0 = self.state;
        let bits = bytes_to_bits_msb(data);
        let mut encoded: Vec<u8> = Vec::new();
        let mut i: usize = 0;
        while i < bits.len()
            invariant
                self.wf(),
                self.polynomials@.len() <= 8,
                self.constraint_length == old(self).constraint_length,
                self.polynomials@ == polys,
                0 <= i <= bits@.len(),
                bits@ == in_bits,
                kl == self.constraint_length as nat,
                self.state == conv_state_at(state0, in_bits, kl, i as int),
                encoded@ =~= conv_data_bytes(state0, in_bits, polys, kl).subrange(0, i as int),
            decreases bits@.len() - i,
        {
            let input_bit = bits[i];
            self.state = (self.state >> 1) | ((input_bit as u32) << ((self.constraint_length
                - 1) as u32));
            let byte = self.output_byte();
            encoded.push(byte);
            i = i + 1;
            assert(encoded@ =~= conv_data_bytes(state0, in_bits, polys, kl).subrange(0, i as int));
        }
        assert(encoded@ =~= conv_data_bytes(state0, in_bits, polys, kl));
        let ghost mid = self.state;
        let mut j: usize = 0;
        while j < self.constraint_length - 1
            invariant
                self.wf(),
                self.polynomials@.len() <= 8,
                self.constraint_length == old(self).constraint_length,
                self.polynomials@ == polys,
                kl == self.constraint_length as nat,
                0 <= j <= kl - 1,
                self.state == conv_tail_state(mid, j as int),
                encoded@ =~= conv_data_bytes(state0, in_bits, polys, kl) + conv_tail_bytes(
                    mid,
                    polys,
                    kl,
                ).subrange(0, j as int),
            decreases kl - 1 - j,
        {
            self.state = self.state >> 1;
            let byte = self.output_byte();
            encoded.push(byte);
            j = j + 1;
            assert(encoded@ =~= conv_data_bytes(state0, in_bits, polys, kl) + conv_tail_bytes(
                mid,
                polys,
                kl,
            ).subrange(0, j as int));
        }
        assert(conv_tail_bytes(mid, polys, kl).subrange(
            0,
            (kl - 1) as int,
        ) =~= conv_tail_bytes(mid, polys, kl));
        Ok(encoded)
    }

    /// The byte produced by running every generator over the register.
    fn output_byte(&self) -> (r: u8)
        requires
            self.polynomials@.len() <= 8,
        ensures
            r == conv_byte(self.state, self.polynomials@),
    {
        let mut output_byte: u8 = 0;
        let mut i: usize = 0;
        while i < self.polynomials.len()
            invariant
                0 <= i <= self.polynomials@.len() <= 8,
                output_byte == conv_byte_upto(self.state, self.polynomials@, i as int),
            decreases self.polynomials@.len() - i,
        {
            let output_bit = parity32(self.state & self.polynomials[i]);
            output_byte = output_byte | ((output_bit as u8) << ((7 - i) as u8));
            i = i + 1;
        }
        output_byte
    }

    /// Get overhead bytes for given input length
    pub fn overhead_bytes(&self, input_len: usize) -> (r: usize)
        requires
            self.wf(),
            input_len * 8 <= usize::MAX,
            input_len * 8 * self.code_rate.1 + (self.constraint_length - 1) * self.code_rate.1 + 7
                <= usize::MAX,
        ensures
            r == (input_len * 8 * self.code_rate.1 + (self.constraint_length - 1)
                * self.code_rate.1 + 7) / 8,
    {
        let input_bits = input_len * 8;
        let output_bits = input_bits * self.code_rate.1 / self.code_rate.0;
        let tail_bits = (self.constraint_length - 1) * self.code_rate.1;
        (output_bits + tail_bits + 7) / 8
    }
}

impl FecDecoder for Convolutional {
    open spec fn decode_req(&self) -> bool {
        self.code_rate.0 == 1 && self.code_rate.1 >= 1
    }

    open spec fn decode_spec(&self, encoded: Seq<u8>) -> Option<Seq<u8>> {
        Some(Seq::new((encoded.len() as int / self.code_rate.1 as int) as nat, |i: int| 0u8))
    }

    open spec fn correctable_spec(&self, encoded: Seq<u8>) -> bool {
        true
    }

    open spec fn stats_spec(&self) -> ErrorStats {
        ErrorStats { corrected_errors: 0, detected_errors: 0, uncorrectable_errors: 0 }
    }

    /// Viterbi decoding placeholder: emits a zero byte per code-rate group.
    fn decode(&mut self, encoded_data: &[u8]) -> (r: Result<Vec<u8>, FrameError>) {
        let rate_ratio = self.code_rate.1 / self.code_rate.0;
        let decoded_len = encoded_data.len() / rate_ratio;
        let decoded = vec![0u8; decoded_len];
        assert(decoded@ =~= Seq::new(
            (encoded_data@.len() as int / self.code_rate.1 as int) as nat,
            |i: int| 0u8,
        ));
        Ok(decoded)
    }

    fn can_correct(&self, _encoded_data: &[u8]) -> (r: bool) {
        true
    }

    fn error_stats(&self) -> (r: ErrorStats) {
        ErrorStats { corrected_errors: 0, detected_errors: 0, uncorrectable_errors: 0 }
    }
}

/// XOR of the per-byte one-bit counts of a byte sequence.
pub open spec fn parity_fold(s: Seq<u8>) -> u8
    decreases s.len(),
{
    if s.len() == 0 {
        0
    } else {
        parity_fold(s.drop_last()) ^ (ones32(s.last() as u32) as u8)
    }
}

/// The parity byte stored for a data sequence: the low bit of the folded
/// count, inverted for odd parity.
pub open spec fn parity_byte(s: Seq<u8>, even_parity: bool) -> u8 {
    if even_parity {
        parity_fold(s) & 1
    } else {
        (parity_fold(s) & 1) ^ 1
    }
}

/// Simple parity check encoder/decoder
pub struct ParityCheck {
    pub even_parity: bool,
}

impl ParityCheck {
    /// Create a new parity check codec
    pub fn new(even_parity: bool) -> (r: Self)
        ensures
            r.even_parity == even_parity,
    {
        Self { even_parity }
    }

    /// Calculate parity bit for data
    fn calculate_parity(&self, data: &[u8]) -> (r: u8)
        ensures
            r == parity_byte(data@, self.even_parity),
    {
        let mut parity: u8 = 0;
        let mut i: usize = 0;
        while i < data.len()
            invariant
                0 <= i <= data@.len(),
                parity == parity_fold(data@.subrange(0, i as int)),
            decreases data@.len() - i,
        {
            let ones = count_ones8(data[i]);
            parity = parity ^ ones;
            i = i + 1;
            assert(data@.subrange(0, i as int).drop_last() =~= data@.subrange(0, i as int - 1));
        }
        assert(data@.subrange(0, data@.len() as int) =~= data@);
        if self.even_parity {
            parity & 1
        } else {
            (parity & 1) ^ 1
        }
    }

    /// Encode data with error correction: the data followed by its parity
    /// byte.
    pub fn encode(&mut self, data: &[u8]) -> (r: Result<Vec<u8>, FrameError>)
        ensures
            *final(self) == *old(self),
            r matches Ok(v) && v@ == data@ + seq![parity_byte(data@, old(self).even_parity)],
    {
        let mut encoded = vstd::slice::slice_to_vec(data);
        let parity = self.calculate_parity(data);
        encoded.push(parity);
        assert(encoded@ =~= data@ + seq![parity_byte(data@, self.even_parity)]);
        Ok(encoded)
    }
}

impl FecDecoder for ParityCheck {
    open spec fn decode_req(&self) -> bool {
        true
    }

    open spec fn decode_spec(&self, encoded: Seq<u8>) -> Option<Seq<u8>> {
        if encoded.len() == 0 {
            None
        } else {
            let data = encoded.drop_last();
            if encoded.last() == parity_byte(data, self.even_parity) {
                Some(data)
            } else {
                None
            }
        }
    }

    open spec fn correctable_spec(&self, encoded: Seq<u8>) -> bool {
        encoded.len() > 0 && encoded.last() == parity_byte(
            encoded.drop_last(),
            self.even_parity,
        )
    }

    open spec fn stats_spec(&self) -> ErrorStats {
        ErrorStats { corrected_errors: 0, detected_errors: 0, uncorrectable_errors: 0 }
    }

    fn decode(&mut self, encoded_data: &[u8]) -> (r: Result<Vec<u8>, FrameError>) {
        if encoded_data.is_empty() {
            return Err(FrameError::FecDecodingFailed {
                msg: "empty encoded data".to_owned(),
            });
        }
        let data = vstd::slice::slice_subrange(encoded_data, 0, encoded_data.len() - 1);
        let received_parity = *vstd::slice::slice_index_get(
            encoded_data,
            encoded_data.len() - 1,
        );
        let calculated_parity = self.calculate_parity(data);
        assert(data@ =~= encoded_data@.drop_last());
        if received_parity != calculated_parity {
            return Err(FrameError::FecDecodingFailed {
                msg: "parity check failed".to_owned(),
            });
        }
        Ok(vstd::slice::slice_to_vec(data))
    }

    fn can_correct(&self, encoded_data: &[u8]) -> (r: bool) {
        if encoded_data.is_empty() {
            return false;
        }
        let data = vstd::slice::slice_subrange(encoded_data, 0, encoded_data.len() - 1);
        let received_parity = *vstd::slice::slice_index_get(
            encoded_data,
            encoded_data.len() - 1,
        );
        let calculated_parity = self.calculate_parity(data);
        assert(data@ =~= encoded_data@.drop_last());
        received_parity == calculated_parity
    }

    fn error_stats(&self) -> (r: ErrorStats) {
        ErrorStats { corrected_errors: 0, detected_errors: 0, uncorrectable_errors: 0 }
    }
}

/// Number of one bits in a byte.
fn count_ones8(b: u8) -> (r: u8)
    ensures
        r == ones32(b as u32) as u8,
        ones32(b as u32) <= 8,
{
    proof {
        assert((1u64 << 8u64) == 256) by (bit_vector);
        lemma_ones32_bound(b as u32, 8);
    }
    let mut v: u32 = b as u32;
    let mut c: u32 = 0;
    while v != 0
        invariant
            c + ones32(v) == ones32(b as u32),
            ones32(b as u32) <= 8,
        decreases v,
    {
        proof {
            assert((v & 1) == v % 2 && (v >> 1u32) == v / 2) by (bit_vector);
        }
        c = c + (v & 1);
        v = v >> 1;
    }
    c as u8
}

/// A word below `2^k` has at most `k` one bits.
proof fn lemma_ones32_bound(x: u32, k: nat)
    requires
        x < (1u64 << (k as u64)),
        k <= 32,
    ensures
        ones32(x) <= k,
    decreases k,
{
    if k == 0 {
        assert((1u64 << 0u64) == 1) by (bit_vector);
    } else {
        let kk = k as u64;
        let xx = x as u64;
        assert(xx / 2 < (1u64 << ((kk - 1) as u64))) by (bit_vector)
            requires
                xx < (1u64 << kk) && 1 <= kk <= 32,
        ;
        lemma_ones32_bound(x / 2, (k - 1) as nat);
    }
}

} // verus!
