//! Frame opcodes: the low four bits of a frame's first byte.
use vstd::prelude::*;

verus! {

pub const CONTINUATION: u8 = 0x0;

pub const TEXT: u8 = 0x1;

pub const BINARY: u8 = 0x2;

pub const CLOSE: u8 = 0x8;

pub const PING: u8 = 0x9;

pub const PONG: u8 = 0xA;

} // verus!
