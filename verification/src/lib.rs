//! Verified core of an amateur-radio digital-mode modem.
//!
//! The library covers the discrete signal chain of the modem: framing with a
//! checksummed header, sync-preamble emission and multi-alignment recovery,
//! canonical Huffman text compression with a bit-level container format,
//! forward-error-correction block framing, interleaving, Morse translation,
//! and the byte-level halves of the TX/RX coordinators.  Floating-point
//! sample processing (carrier synthesis, mixing, FFTs) lives outside the
//! verified core and exchanges plain bytes and bits with it.

pub mod bits;
pub mod buildinfo;
pub mod errors;
pub mod fec;
pub mod frame;
pub mod frame_flags;
pub mod frame_types;
pub mod interleave;
pub mod modem;
pub mod morse;
pub mod registry;
pub mod strutil;
pub mod sync;
pub mod text;
pub mod tools;
pub mod txrx;
pub mod voice;

pub use errors::{CodecError, FrameError, ModemError};
pub use frame::{Frame, FrameBuilder, FrameHeader};
