//! Reads one datagram as one MAVLink frame.

use super::buffer::{frozen_slice, spec_frozen};
use super::definitions::{Offsets, ID};
use super::frame::{
    spec_v1_frame, spec_v1_len, spec_v2_frame, spec_v2_len, target_from_payload, v2_msg_id,
};
use super::{v1, v2, Message, MessageView, RoutingInfo, SysCompId};
use std::collections::HashMap;
use tokio_util::bytes::Bytes;
use vstd::prelude::*;
use vstd::slice::slice_subrange;

verus! {

/// Why a datagram is no frame.
#[derive(Debug, Clone, Copy, PartialEq, Eq, Hash, Structural)]
pub enum DeserializationError {
    /// The datagram is shorter than the shortest frame of its version.
    TooShort,
    /// The datagram is not as long as its header says: expected, actual.
    InvalidLength(usize, usize),
    /// The datagram starts with this byte, which is no magic byte.
    InvalidMagic(u8),
}

/// The frame that a datagram holds. The datagram must start with a magic
/// byte, reach the shortest length of its version, and be exactly as long
/// as its header says.
pub open spec fn spec_deserialize(table: Map<ID, Offsets>, msg: Seq<u8>) -> Result<
    MessageView,
    DeserializationError,
> {
    if msg.len() == 0 {
        Err(DeserializationError::TooShort)
    } else if msg[0] == v1::PACKET_MAGIC {
        if msg.len() < v1::MIN_PACKET_LEN {
            Err(DeserializationError::TooShort)
        } else if msg.len() != spec_v1_len(msg) {
            Err(DeserializationError::InvalidLength(spec_v1_len(msg) as usize, msg.len() as usize))
        } else {
            Ok(spec_v1_frame(table, msg))
        }
    } else if msg[0] == v2::PACKET_MAGIC {
        if msg.len() < v2::MIN_PACKET_LEN {
            Err(DeserializationError::TooShort)
        } else if msg.len() != spec_v2_len(msg) {
            Err(DeserializationError::InvalidLength(spec_v2_len(msg) as usize, msg.len() as usize))
        } else {
            Ok(spec_v2_frame(table, msg))
        }
    } else {
        Err(DeserializationError::InvalidMagic(msg[0]))
    }
}

/// Does the exec result say what the model says?
pub open spec fn spec_same_frame(
    r: Result<Message, DeserializationError>,
    model: Result<MessageView, DeserializationError>,
) -> bool {
    match r {
        Ok(m) => model == Ok::<_, DeserializationError>(m@),
        Err(e) => model == Err::<MessageView, _>(e),
    }
}

/// Reads datagrams as frames, with the table of offsets by which it finds
/// the target of a frame.
#[derive(Debug)]
pub struct Deserializer {
    offsets: HashMap<ID, Offsets>,
}

impl Deserializer {
    /// The table of offsets.
    pub closed spec fn table(&self) -> Map<ID, Offsets> {
        self.offsets@
    }

    pub fn new(offsets: HashMap<ID, Offsets>) -> (r: Self)
        ensures
            r.table() == offsets@,
    {
        Self { offsets }
    }

    /// Reads the datagram `msg` as one frame, which keeps the bytes of
    /// `msg`.
    pub fn deserialize(&self, msg: Bytes) -> (r: Result<Message, DeserializationError>)
        ensures
            spec_same_frame(r, spec_deserialize(self.table(), spec_frozen(msg))),
    {
        let bytes = frozen_slice(&msg);
        if bytes.len() == 0 {
            return Err(DeserializationError::TooShort);
        }
        let magic = bytes[0];
        if magic == v1::PACKET_MAGIC {
            self.deserialize_v1(msg)
        } else if magic == v2::PACKET_MAGIC {
            self.deserialize_v2(msg)
        } else {
            Err(DeserializationError::InvalidMagic(magic))
        }
    }

    fn deserialize_v1(&self, msg: Bytes) -> (r: Result<Message, DeserializationError>)
        requires
            spec_frozen(msg).len() > 0,
            spec_frozen(msg)[0] == v1::PACKET_MAGIC,
        ensures
            spec_same_frame(r, spec_deserialize(self.table(), spec_frozen(msg))),
    {
        let bytes = frozen_slice(&msg);
        if bytes.len() < v1::MIN_PACKET_LEN {
            return Err(DeserializationError::TooShort);
        }
        let payload_len = bytes[1] as usize;
        let expected_len = v1::HEADER_LEN + payload_len + v1::CHECKSUM_LEN;
        if bytes.len() != expected_len {
            return Err(DeserializationError::InvalidLength(expected_len, bytes.len()));
        }
        let sender = SysCompId::new(bytes[3], bytes[4]);
        let msg_id = bytes[5] as u32;

        // The payload is the frame minus the header and checksum.
        let payload = slice_subrange(bytes, v1::HEADER_LEN, payload_len + v1::HEADER_LEN);

        let target = self.target_from_payload(msg_id, payload);

        Ok(Message { routing_info: RoutingInfo { sender, target }, data: msg })
    }

    fn deserialize_v2(&self, msg: Bytes) -> (r: Result<Message, DeserializationError>)
        requires
            spec_frozen(msg).len() > 0,
            spec_frozen(msg)[0] == v2::PACKET_MAGIC,
        ensures
            spec_same_frame(r, spec_deserialize(self.table(), spec_frozen(msg))),
    {
        let bytes = frozen_slice(&msg);
        if bytes.len() < v2::MIN_PACKET_LEN {
            return Err(DeserializationError::TooShort);
        }
        let payload_len = bytes[1] as usize;
        let mut expected_len = v2::HEADER_LEN + payload_len + v2::CHECKSUM_LEN;
        let inc_flags = bytes[2];
        if inc_flags & v2::IFLAG_SIGNED != 0 {
            expected_len += v2::SIGNATURE_LEN;
        }
        if bytes.len() != expected_len {
            return Err(DeserializationError::InvalidLength(expected_len, bytes.len()));
        }
        let sender = SysCompId::new(bytes[5], bytes[6]);
        let msg_id = v2_msg_id(bytes[7], bytes[8], bytes[9]);

        // The payload is the frame minus the header and checksum.
        let payload = slice_subrange(bytes, v2::HEADER_LEN, payload_len + v2::HEADER_LEN);

        let target = self.target_from_payload(msg_id, payload);

        Ok(Message { routing_info: RoutingInfo { sender, target }, data: msg })
    }

    /// Reads the target of a message from its payload.
    pub fn target_from_payload(&self, msg_id: ID, payload: &[u8]) -> (r: SysCompId)
        ensures
            r@ == super::frame::spec_target(self.table(), msg_id, payload@),
    {
        target_from_payload(&self.offsets, msg_id, payload)
    }
}

/// A datagram is read as a frame exactly when it is one whole frame, and
/// the streaming codec then yields the same frame from it.
pub proof fn lemma_deserialize_agrees_with_decode(table: Map<ID, Offsets>, msg: Seq<u8>)
    ensures
        spec_deserialize(table, msg) is Ok <==> super::codec::spec_well_formed(msg),
        spec_deserialize(table, msg) matches Ok(frame) ==> super::codec::spec_decode(table, msg)
            == (Some(frame), Seq::<u8>::empty()),
{
    if super::codec::spec_well_formed(msg) {
        super::codec::lemma_round_trip(table, msg);
    }
}

} // verus!
