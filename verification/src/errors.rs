//! Error types of the modem core.

use vstd::prelude::*;

verus! {

/// Frame-layer errors: malformed headers, short buffers, FEC and
/// interleaver parameter problems.
#[derive(Debug)]
pub enum FrameError {
    InvalidFormat { msg: String },
    SizeMismatch { expected: usize, actual: usize },
    FecDecodingFailed { msg: String },
    InvalidFecParameters { msg: String },
    InterleavingError { msg: String },
}

/// Codec-layer errors: text encoding and decoding failures.
#[derive(Debug)]
pub enum CodecError {
    UnsupportedCodec { name: String },
    EncodingFailed { msg: String },
    DecodingFailed { msg: String },
    InvalidParameters { msg: String },
    NotInitialized,
    Frame(FrameError),
}

/// Modem-layer errors: bad modulation parameters and failed runs.
#[derive(Debug)]
pub enum ModemError {
    UnsupportedModulation { name: String },
    ModulationFailed { msg: String },
    DemodulationFailed { msg: String },
    InvalidParameters { msg: String },
    SynchronizationFailed { msg: String },
}

} // verus!
