//! Frame type identifiers carried in the first header byte.

use vstd::prelude::*;

verus! {

pub const DATA: u8 = 0x01;

pub const CONTROL: u8 = 0x02;

pub const KEEPALIVE: u8 = 0x03;

pub const ACK: u8 = 0x04;

pub const NACK: u8 = 0x05;

} // verus!
