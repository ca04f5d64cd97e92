//! Wire constants of MAVLink v1 frames.

use vstd::prelude::*;

verus! {

pub const PACKET_MAGIC: u8 = 0xFE;

pub const MIN_PACKET_LEN: usize = 8;

pub const MAX_PACKET_LEN: usize = 263;

pub const HEADER_LEN: usize = 6;

pub const CHECKSUM_LEN: usize = 2;

} // verus!
