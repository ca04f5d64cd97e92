//! Wire constants of MAVLink v2 frames.

use vstd::prelude::*;

verus! {

pub const PACKET_MAGIC: u8 = 0xFD;

/// Incompatibility flag: the frame carries a signature.
pub const IFLAG_SIGNED: u8 = 0x01;

pub const MIN_PACKET_LEN: usize = 12;

pub const MAX_PACKET_LEN: usize = 280;

pub const HEADER_LEN: usize = 10;

pub const CHECKSUM_LEN: usize = 2;

pub const SIGNATURE_LEN: usize = 13;

} // verus!
