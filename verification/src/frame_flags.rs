//! Frame flag bits carried in the sixth header byte.

use vstd::prelude::*;

verus! {

pub const NONE: u8 = 0x00;

pub const MORE_FRAGMENTS: u8 = 0x01;

pub const PRIORITY: u8 = 0x02;

/// Kept for wire compatibility; encryption is not used on amateur bands.
pub const ENCRYPTED: u8 = 0x04;

pub const COMPRESSED: u8 = 0x08;

} // verus!
