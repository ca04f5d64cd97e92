//! The streaming codec: takes MAVLink v1 and v2 frames off the front of a
//! byte buffer, and writes frames back as bytes.

use super::buffer::{
    buf_advance, buf_byte, buf_clear, buf_extend, buf_freeze, buf_len, buf_reserve, buf_split_to,
    frozen_slice, spec_contents, spec_frozen,
};
use super::definitions::{Offsets, ID};
use super::frame::{
    spec_v1_frame, spec_v1_len, spec_v2_frame, spec_v2_len, target_from_payload, v2_msg_id,
};
use super::{v1, v2, Message, MessageView, RoutingInfo, SysCompId};
use std::collections::HashMap;
use std::sync::Arc;
use tokio_util::bytes::BytesMut;
use vstd::prelude::*;
use vstd::slice::slice_subrange;

verus! {

/// A frame starts with one of two magic bytes.
pub open spec fn spec_is_magic(b: u8) -> bool {
    b == v1::PACKET_MAGIC || b == v2::PACKET_MAGIC
}

/// Position of the first magic byte at or after `from`.
pub open spec fn spec_first_magic(bytes: Seq<u8>, from: int) -> Option<int>
    decreases bytes.len() - from,
{
    if from < 0 || from >= bytes.len() {
        None
    } else if spec_is_magic(bytes[from]) {
        Some(from)
    } else {
        spec_first_magic(bytes, from + 1)
    }
}

/// The length of the frame that `bytes`, which start with a magic byte,
/// begin: known once the shortest frame of that version is there.
pub open spec fn spec_frame_len(bytes: Seq<u8>) -> Option<nat> {
    if bytes[0] == v1::PACKET_MAGIC {
        if bytes.len() < v1::MIN_PACKET_LEN {
            None
        } else {
            Some(spec_v1_len(bytes))
        }
    } else {
        if bytes.len() < v2::MIN_PACKET_LEN {
            None
        } else {
            Some(spec_v2_len(bytes))
        }
    }
}

/// The frame with the bytes `data`, which start with a magic byte.
pub open spec fn spec_frame(table: Map<ID, Offsets>, data: Seq<u8>) -> MessageView {
    if data[0] == v1::PACKET_MAGIC {
        spec_v1_frame(table, data)
    } else {
        spec_v2_frame(table, data)
    }
}

/// One decoding step on the bytes `bytes` of a buffer: the frame that it
/// yields, if any, and the bytes that it leaves. Bytes before the first
/// magic byte are dropped; without a magic byte all are dropped. From the
/// magic byte on, a frame is taken as soon as all its bytes are there;
/// until then nothing more is taken.
pub open spec fn spec_decode(table: Map<ID, Offsets>, bytes: Seq<u8>) -> (
    Option<MessageView>,
    Seq<u8>,
) {
    match spec_first_magic(bytes, 0) {
        None => (None, Seq::empty()),
        Some(start) => {
            let rest = bytes.skip(start);
            match spec_frame_len(rest) {
                Some(n) => if rest.len() < n {
                    (None, rest)
                } else {
                    (Some(spec_frame(table, rest.take(n as int))), rest.skip(n as int))
                },
                None => (None, rest),
            }
        },
    }
}

/// Does the exec result say what the model says?
pub open spec fn spec_yields(r: Option<Message>, model: Option<MessageView>) -> bool {
    match r {
        Some(m) => model == Some(m@),
        None => model is None,
    }
}

/// The codec, with the table of offsets by which it finds the target of a
/// frame.
#[derive(Debug, Clone)]
pub struct Codec {
    offsets: Arc<HashMap<ID, Offsets>>,
}

impl Codec {
    /// The table of offsets.
    pub closed spec fn table(&self) -> Map<ID, Offsets> {
        (*self.offsets)@
    }

    pub fn new(offsets: Arc<HashMap<ID, Offsets>>) -> (r: Self)
        ensures
            r.table() == (*offsets)@,
    {
        Self { offsets }
    }

    /// How far a buffer is from starting with a magic byte.
    pub open spec fn spec_out_of_sync(bytes: Seq<u8>) -> nat {
        if bytes.len() > 0 && !spec_is_magic(bytes[0]) {
            1
        } else {
            0
        }
    }

    fn base_decode(&self, src: &mut BytesMut) -> (r: Option<Message>)
        ensures
            spec_yields(r, spec_decode(self.table(), spec_contents(*old(src))).0),
            spec_contents(*final(src)) == spec_decode(self.table(), spec_contents(*old(src))).1,
        decreases Self::spec_out_of_sync(spec_contents(*old(src))), 1nat,
    {
        if buf_len(src) == 0 {
            assert(spec_contents(*src) == Seq::<u8>::empty());
            return None;
        }
        let magic = buf_byte(src, 0);
        assert(spec_contents(*src).skip(0) == spec_contents(*src));
        if magic == v1::PACKET_MAGIC {
            self.decode_v1(src)
        } else if magic == v2::PACKET_MAGIC {
            self.decode_v2(src)
        } else {
            // Out of step with the sender: try to resync.
            self.resync(src)
        }
    }

    fn decode_v1(&self, src: &mut BytesMut) -> (r: Option<Message>)
        requires
            spec_contents(*old(src)).len() > 0,
            spec_contents(*old(src))[0] == v1::PACKET_MAGIC,
        ensures
            match spec_frame_len(spec_contents(*old(src))) {
                Some(n) if spec_contents(*old(src)).len() >= n => {
                    &&& r matches Some(m)
                    &&& m@ == spec_frame(self.table(), spec_contents(*old(src)).take(n as int))
                    &&& spec_contents(*final(src)) == spec_contents(*old(src)).skip(n as int)
                },
                _ => r is None && spec_contents(*final(src)) == spec_contents(*old(src)),
            },
    {
        let len = buf_len(src);
        if len < v1::MIN_PACKET_LEN {
            buf_reserve(src, v1::MIN_PACKET_LEN - len);
            return None;
        }
        let payload_len = buf_byte(src, 1) as usize;
        let expected_len = v1::HEADER_LEN + payload_len + v1::CHECKSUM_LEN;
        if len < expected_len {
            buf_reserve(src, expected_len - len);
            return None;
        }
        let data = buf_freeze(buf_split_to(src, expected_len));
        let bytes = frozen_slice(&data);

        let sender = SysCompId::new(bytes[3], bytes[4]);
        let msg_id = bytes[5] as u32;

        // The payload is the frame minus the header and checksum.
        let payload = slice_subrange(bytes, v1::HEADER_LEN, payload_len + v1::HEADER_LEN);

        let target = target_from_payload(&self.offsets, msg_id, payload);

        Some(Message { routing_info: RoutingInfo { sender, target }, data })
    }

    fn decode_v2(&self, src: &mut BytesMut) -> (r: Option<Message>)
        requires
            spec_contents(*old(src)).len() > 0,
            spec_contents(*old(src))[0] == v2::PACKET_MAGIC,
        ensures
            match spec_frame_len(spec_contents(*old(src))) {
                Some(n) if spec_contents(*old(src)).len() >= n => {
                    &&& r matches Some(m)
                    &&& m@ == spec_frame(self.table(), spec_contents(*old(src)).take(n as int))
                    &&& spec_contents(*final(src)) == spec_contents(*old(src)).skip(n as int)
                },
                _ => r is None && spec_contents(*final(src)) == spec_contents(*old(src)),
            },
    {
        let len = buf_len(src);
        if len < v2::MIN_PACKET_LEN {
            buf_reserve(src, v2::MIN_PACKET_LEN - len);
            return None;
        }
        let payload_len = buf_byte(src, 1) as usize;
        let mut expected_len = v2::HEADER_LEN + payload_len + v2::CHECKSUM_LEN;
        let inc_flags = buf_byte(src, 2);
        if inc_flags & v2::IFLAG_SIGNED != 0 {
            expected_len += v2::SIGNATURE_LEN;
        }
        if len < expected_len {
            buf_reserve(src, expected_len - len);
            return None;
        }
        let data = buf_freeze(buf_split_to(src, expected_len));
        let bytes = frozen_slice(&data);

        let sender = SysCompId::new(bytes[5], bytes[6]);
        let msg_id = v2_msg_id(bytes[7], bytes[8], bytes[9]);

        // The payload is the frame minus the header and checksum.
        let payload = slice_subrange(bytes, v2::HEADER_LEN, payload_len + v2::HEADER_LEN);

        let target = target_from_payload(&self.offsets, msg_id, payload);

        Some(Message { routing_info: RoutingInfo { sender, target }, data })
    }

    /// Reads the target of a message from its payload.
    pub fn target_from_payload(&self, msg_id: ID, payload: &[u8]) -> (r: SysCompId)
        ensures
            r@ == super::frame::spec_target(self.table(), msg_id, payload@),
    {
        target_from_payload(&self.offsets, msg_id, payload)
    }

    /// Drops the bytes before the first magic byte and decodes from there;
    /// without a magic byte, drops all.
    fn resync(&self, src: &mut BytesMut) -> (r: Option<Message>)
        requires
            spec_contents(*old(src)).len() > 0,
            !spec_is_magic(spec_contents(*old(src))[0]),
        ensures
            spec_yields(r, spec_decode(self.table(), spec_contents(*old(src))).0),
            spec_contents(*final(src)) == spec_decode(self.table(), spec_contents(*old(src))).1,
        decreases Self::spec_out_of_sync(spec_contents(*old(src))), 0nat,
    {
        let len = buf_len(src);
        let ghost bytes = spec_contents(*src);
        let mut pos: usize = 0;
        while pos < len
            invariant
                pos <= len,
                len == bytes.len(),
                bytes == spec_contents(*src),
                bytes == spec_contents(*old(src)),
                bytes.len() > 0 && !spec_is_magic(bytes[0]),
                spec_first_magic(bytes, 0) == spec_first_magic(bytes, pos as int),
            decreases len - pos,
        {
            let b = buf_byte(src, pos);
            if b == v1::PACKET_MAGIC || b == v2::PACKET_MAGIC {
                // Go on from the first magic byte.
                buf_advance(src, pos);
                proof {
                    let rest = bytes.skip(pos as int);
                    assert(rest[0] == bytes[pos as int]);
                    assert(rest.skip(0) == rest);
                }
                return self.base_decode(src);
            }
            pos += 1;
        }
        // No magic byte: nothing in the buffer is of use.
        buf_clear(src);
        None
    }

    /// Takes the next frame off the front of `src`, if it is there in
    /// full. Decoding never fails: bytes that belong to no frame are
    /// dropped.
    pub fn decode(&self, src: &mut BytesMut) -> (r: Option<Message>)
        ensures
            spec_yields(r, spec_decode(self.table(), spec_contents(*old(src))).0),
            spec_contents(*final(src)) == spec_decode(self.table(), spec_contents(*old(src))).1,
    {
        self.base_decode(src)
    }

    /// Writes the bytes of a frame to the end of `dst`, unless the buffer
    /// would grow beyond what can be allocated: then `dst` stays as it is.
    /// Returns whether the frame was written.
    pub fn try_encode(&self, item: Message, dst: &mut BytesMut) -> (ok: bool)
        ensures
            ok == (spec_contents(*old(dst)).len() + item@.data.len() <= isize::MAX),
            spec_contents(*final(dst)) == if ok {
                spec_contents(*old(dst)) + item@.data
            } else {
                spec_contents(*old(dst))
            },
    {
        let held = buf_len(dst);
        let added = frozen_slice(&item.data).len();
        let limit: usize = isize::MAX as usize;
        if held > limit || added > limit - held {
            return false;
        }
        self.encode(item, dst);
        true
    }

    /// Writes the bytes of a frame to the end of `dst`.
    pub fn encode(&self, item: Message, dst: &mut BytesMut)
        requires
            spec_contents(*old(dst)).len() + item@.data.len() <= isize::MAX,
        ensures
            spec_contents(*final(dst)) == spec_contents(*old(dst)) + item@.data,
    {
        buf_extend(dst, frozen_slice(&item.data));
    }
}

/// A whole frame as it stands on the wire: it starts with a magic byte and
/// is as long as its header says.
pub open spec fn spec_well_formed(frame: Seq<u8>) -> bool {
    frame.len() > 0 && spec_is_magic(frame[0]) && spec_frame_len(frame) == Some(frame.len())
}

/// Bytes without a magic byte.
pub open spec fn spec_no_magic(bytes: Seq<u8>) -> bool {
    forall|i: int| 0 <= i < bytes.len() ==> !spec_is_magic(#[trigger] bytes[i])
}

/// Where the bytes from `from` up to `at` hold no magic byte and the byte at
/// `at` is one, the first magic byte from `from` on is at `at`.
pub proof fn lemma_first_magic_at(bytes: Seq<u8>, from: int, at: int)
    requires
        0 <= from <= at < bytes.len(),
        forall|i: int| from <= i < at ==> !spec_is_magic(#[trigger] bytes[i]),
        spec_is_magic(bytes[at]),
    ensures
        spec_first_magic(bytes, from) == Some(at),
    decreases at - from,
{
    if from < at {
        lemma_first_magic_at(bytes, from + 1, at);
    }
}

/// Bytes without a magic byte are dropped as a whole.
pub proof fn lemma_first_magic_none(bytes: Seq<u8>, from: int)
    requires
        0 <= from,
        forall|i: int| from <= i < bytes.len() ==> !spec_is_magic(#[trigger] bytes[i]),
    ensures
        spec_first_magic(bytes, from) is None,
    decreases bytes.len() - from,
{
    if from < bytes.len() {
        lemma_first_magic_none(bytes, from + 1);
    }
}

/// Decoding resynchronizes: from a buffer that holds bytes without a magic
/// byte, then a whole frame, then anything, one step yields that frame and
/// leaves what stood behind it.
pub proof fn lemma_decode_resyncs(
    table: Map<ID, Offsets>,
    prefix: Seq<u8>,
    frame: Seq<u8>,
    suffix: Seq<u8>,
)
    requires
        spec_no_magic(prefix),
        spec_well_formed(frame),
    ensures
        spec_decode(table, prefix + frame + suffix) == (Some(spec_frame(table, frame)), suffix),
        spec_frame(table, frame).data == frame,
{
    let bytes = prefix + frame + suffix;
    let at = prefix.len() as int;
    assert(bytes[at] == frame[0]);
    assert forall|i: int| 0 <= i < at implies !spec_is_magic(#[trigger] bytes[i]) by {
        assert(bytes[i] == prefix[i]);
    }
    lemma_first_magic_at(bytes, 0, at);
    let rest = bytes.skip(at);
    assert(rest == frame + suffix);
    assert(rest[0] == frame[0]);
    assert(rest[1] == frame[1]);
    assert(rest[2] == frame[2]);
    assert(spec_frame_len(rest) == Some(frame.len()));
    assert(rest.take(frame.len() as int) == frame);
    assert(rest.skip(frame.len() as int) == suffix);
}

/// Decoding a buffer that holds one whole frame and nothing else yields the
/// frame with exactly those bytes and leaves the buffer empty; encoding the
/// frame writes those bytes again.
pub proof fn lemma_round_trip(table: Map<ID, Offsets>, frame: Seq<u8>)
    requires
        spec_well_formed(frame),
    ensures
        spec_decode(table, frame) == (Some(spec_frame(table, frame)), Seq::<u8>::empty()),
        spec_frame(table, frame).data == frame,
{
    lemma_decode_resyncs(table, Seq::empty(), frame, Seq::empty());
    assert(Seq::<u8>::empty() + frame + Seq::<u8>::empty() == frame);
}

/// A buffer without a magic byte yields nothing and is emptied.
pub proof fn lemma_decode_drops_noise(table: Map<ID, Offsets>, bytes: Seq<u8>)
    requires
        spec_no_magic(bytes),
    ensures
        spec_decode(table, bytes) == (None::<MessageView>, Seq::<u8>::empty()),
{
    lemma_first_magic_none(bytes, 0);
}

/// What holds of every frame that decoding yields: its bytes run from a
/// magic byte over header, payload and checksum, and over the signature of
/// a signed v2 frame; they stood at the front of the bytes kept; and its
/// sender is read at the place that its version fixes.
pub proof fn lemma_decoded_frame(table: Map<ID, Offsets>, bytes: Seq<u8>)
    requires
        spec_decode(table, bytes).0 is Some,
    ensures
        ({
            let frame = spec_decode(table, bytes).0->0;
            let start = spec_first_magic(bytes, 0)->0;
            &&& spec_first_magic(bytes, 0) is Some
            &&& spec_well_formed(frame.data)
            &&& frame.data + spec_decode(table, bytes).1 == bytes.skip(start)
            &&& frame.data[0] == v1::PACKET_MAGIC ==> frame.data.len() == v1::HEADER_LEN
                + frame.data[1] + v1::CHECKSUM_LEN && frame.sender == (
                frame.data[3],
                frame.data[4],
            )
            &&& frame.data[0] == v2::PACKET_MAGIC ==> frame.sender == (
                frame.data[5],
                frame.data[6],
            ) && frame.data.len() == v2::HEADER_LEN + frame.data[1] + v2::CHECKSUM_LEN + (if
                frame.data[2] & v2::IFLAG_SIGNED != 0 {
                v2::SIGNATURE_LEN as int
            } else {
                0
            })
        }),
{
    let start = spec_first_magic(bytes, 0)->0;
    lemma_first_magic_is_magic(bytes, 0);
    let rest = bytes.skip(start);
    let n = spec_frame_len(rest)->0;
    let data = rest.take(n as int);
    assert(data[0] == rest[0]);
    assert(data[1] == rest[1]);
    assert(data[2] == rest[2]);
    assert(data + rest.skip(n as int) == rest);
}

/// The first magic byte, where there is one, is a magic byte within the
/// bytes.
pub proof fn lemma_first_magic_is_magic(bytes: Seq<u8>, from: int)
    requires
        0 <= from,
    ensures
        spec_first_magic(bytes, from) matches Some(at) ==> from <= at < bytes.len()
            && spec_is_magic(bytes[at]),
    decreases bytes.len() - from,
{
    if from < bytes.len() && !spec_is_magic(bytes[from]) {
        lemma_first_magic_is_magic(bytes, from + 1);
    }
}

} // verus!
