//! What the bytes of a MAVLink frame say: its length, its sender, its
//! message id and, with the table of offsets, its target.

use super::definitions::{Offsets, ID};
use super::{v1, v2, MessageView, SysCompId};
use std::collections::HashMap;
use vstd::prelude::*;

verus! {

/// The byte at `i` of a payload, or zero where the payload is shorter.
pub open spec fn spec_byte_or_zero(payload: Seq<u8>, i: usize) -> u8 {
    if i < payload.len() {
        payload[i as int]
    } else {
        0
    }
}

/// The target of a message: read from the payload at the offsets that the
/// table gives for the message id. A message that the table does not know
/// addresses everyone.
pub open spec fn spec_target(table: Map<ID, Offsets>, msg_id: ID, payload: Seq<u8>) -> (u8, u8) {
    if table.contains_key(msg_id) {
        let offsets = table[msg_id];
        (
            spec_byte_or_zero(payload, offsets.system_id),
            match offsets.component_id {
                Some(i) => spec_byte_or_zero(payload, i),
                None => 0,
            },
        )
    } else {
        (0, 0)
    }
}

/// Length of the v1 frame that starts with `bytes`, which hold its header.
pub open spec fn spec_v1_len(bytes: Seq<u8>) -> nat {
    (v1::HEADER_LEN + bytes[1] + v1::CHECKSUM_LEN) as nat
}

/// Length of the v2 frame that starts with `bytes`, which hold its header.
/// A signed frame carries a signature behind its checksum.
pub open spec fn spec_v2_len(bytes: Seq<u8>) -> nat {
    if bytes[2] & v2::IFLAG_SIGNED != 0 {
        (v2::HEADER_LEN + bytes[1] + v2::CHECKSUM_LEN + v2::SIGNATURE_LEN) as nat
    } else {
        (v2::HEADER_LEN + bytes[1] + v2::CHECKSUM_LEN) as nat
    }
}

/// The message id of a v2 frame: three bytes, least significant first.
pub open spec fn spec_v2_msg_id(data: Seq<u8>) -> ID {
    (data[7] + data[8] * 0x100 + data[9] * 0x1_0000) as ID
}

/// The v1 frame with the bytes `data`.
pub open spec fn spec_v1_frame(table: Map<ID, Offsets>, data: Seq<u8>) -> MessageView {
    MessageView {
        sender: (data[3], data[4]),
        target: spec_target(
            table,
            data[5] as ID,
            data.subrange(v1::HEADER_LEN as int, v1::HEADER_LEN + data[1]),
        ),
        data,
    }
}

/// The v2 frame with the bytes `data`.
pub open spec fn spec_v2_frame(table: Map<ID, Offsets>, data: Seq<u8>) -> MessageView {
    MessageView {
        sender: (data[5], data[6]),
        target: spec_target(
            table,
            spec_v2_msg_id(data),
            data.subrange(v2::HEADER_LEN as int, v2::HEADER_LEN + data[1]),
        ),
        data,
    }
}

/// The byte at `i` of `payload`, or zero where the payload is shorter.
pub fn byte_or_zero(payload: &[u8], i: usize) -> (r: u8)
    ensures
        r == spec_byte_or_zero(payload@, i),
{
    if i < payload.len() {
        payload[i]
    } else {
        0
    }
}

/// Reads the target of a message from its payload.
pub fn target_from_payload(table: &HashMap<ID, Offsets>, msg_id: ID, payload: &[u8]) -> (r:
    SysCompId)
    ensures
        r@ == spec_target(table@, msg_id, payload@),
{
    broadcast use vstd::std_specs::hash::group_hash_axioms;

    match table.get(&msg_id) {
        Some(offsets) => {
            let target_sys_id = byte_or_zero(payload, offsets.system_id);
            let target_comp_id = match offsets.component_id {
                Some(i) => byte_or_zero(payload, i),
                None => 0,
            };
            SysCompId::new(target_sys_id, target_comp_id)
        },
        None => SysCompId::new(0, 0),
    }
}

/// Reads the message id of a v2 frame.
pub fn v2_msg_id(b7: u8, b8: u8, b9: u8) -> (r: ID)
    ensures
        r == b7 + b8 * 0x100 + b9 * 0x1_0000,
{
    b7 as u32 + b8 as u32 * 0x100 + b9 as u32 * 0x1_0000
}

} // verus!
