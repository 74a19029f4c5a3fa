//! Voice codec configuration state.  The sample conversion paths work on
//! floating-point audio and live outside the verified core; the codec
//! objects, their rates, and their lifecycle are kept here.

use vstd::prelude::*;
use crate::errors::CodecError;

verus! {

/// Placeholder Opus codec (the encoder itself is not implemented).
pub struct OpusCodec {
    sample_rate: u32,
    bit_rate: u32,
}

impl OpusCodec {
    /// The configured sample rate.
    pub closed spec fn spec_sample_rate(&self) -> u32 {
        self.sample_rate
    }

    /// The configured bit rate.
    pub closed spec fn spec_bit_rate(&self) -> u32 {
        self.bit_rate
    }

    /// Create a new Opus codec
    pub fn new(sample_rate: u32, bit_rate: u32) -> (r: Result<Self, CodecError>)
        ensures
            r matches Ok(c) && c.spec_sample_rate() == sample_rate && c.spec_bit_rate()
                == bit_rate,
    {
        Ok(Self { sample_rate, bit_rate })
    }

    /// Get codec bit rate
    pub fn bit_rate(&self) -> (r: u32)
        ensures
            r == self.spec_bit_rate(),
    {
        self.bit_rate
    }

    /// Get sample rate
    pub fn sample_rate(&self) -> (r: u32)
        ensures
            r == self.spec_sample_rate(),
    {
        self.sample_rate
    }

    /// Reset codec state
    pub fn reset(&mut self)
        ensures
            *final(self) == *old(self),
    {
    }
}

/// Simple PCM codec (no compression)
pub struct PcmCodec {
    sample_rate: u32,
}

impl PcmCodec {
    /// The configured sample rate.
    pub closed spec fn spec_sample_rate(&self) -> u32 {
        self.sample_rate
    }

    /// Create a new PCM codec
    pub fn new(sample_rate: u32) -> (r: Self)
        ensures
            r.spec_sample_rate() == sample_rate,
    {
        Self { sample_rate }
    }

    /// Get codec bit rate: sixteen bits per sample.
    pub fn bit_rate(&self) -> (r: u32)
        requires
            self.spec_sample_rate() * 16 <= u32::MAX,
        ensures
            r == self.spec_sample_rate() * 16,
    {
        self.sample_rate * 16
    }

    /// Get sample rate
    pub fn sample_rate(&self) -> (r: u32)
        ensures
            r == self.spec_sample_rate(),
    {
        self.sample_rate
    }

    /// Reset codec state
    pub fn reset(&mut self)
        ensures
            *final(self) == *old(self),
    {
    }
}

} // verus!
