use mavlink_shouter::mavlink::definitions::Offsets;
use mavlink_shouter::mavlink::{Codec, DeserializationError, Deserializer, SysCompId};
use std::collections::HashMap;
use std::sync::Arc;
use tokio_util::bytes::{Bytes, BytesMut};

fn table() -> HashMap<u32, Offsets> {
    let mut table = HashMap::new();
    table.insert(76, Offsets::new(0, Some(1)));
    table.insert(300, Offsets::new(2, None));
    table.insert(11, Offsets::new(4, Some(9)));
    table
}

fn codec() -> Codec {
    Codec::new(Arc::new(table()))
}

fn v1_frame(sender: (u8, u8), msg_id: u8, payload: &[u8]) -> Vec<u8> {
    let mut f = vec![0xFE, payload.len() as u8, 0, sender.0, sender.1, msg_id];
    f.extend_from_slice(payload);
    f.extend_from_slice(&[0xAA, 0xBB]);
    f
}

fn v2_frame(sender: (u8, u8), msg_id: u32, payload: &[u8], signed: bool) -> Vec<u8> {
    let id = msg_id.to_le_bytes();
    let flags = if signed { 0x01 } else { 0x00 };
    let mut f =
        vec![0xFD, payload.len() as u8, flags, 0, 7, sender.0, sender.1, id[0], id[1], id[2]];
    f.extend_from_slice(payload);
    f.extend_from_slice(&[0xCC, 0xDD]);
    if signed {
        f.extend_from_slice(&[0x55; 13]);
    }
    f
}

#[test]
fn decode_empty_buffer_yields_nothing() {
    let mut buf = BytesMut::new();
    assert!(codec().decode(&mut buf).is_none());
    assert_eq!(buf.len(), 0);
}

#[test]
fn decode_v1_round_trip() {
    let frame = v1_frame((1, 2), 76, &[9, 8, 7]);
    assert_eq!(frame.len(), 6 + 3 + 2);
    let mut buf = BytesMut::from(&frame[..]);
    let codec = codec();
    let msg = codec.decode(&mut buf).unwrap();
    assert_eq!(&msg.data[..], &frame[..]);
    assert_eq!(buf.len(), 0);
    assert_eq!(msg.routing_info.sender, SysCompId::from((1, 2)));
    assert_eq!(msg.routing_info.target, SysCompId::from((9, 8)));
    let mut out = BytesMut::new();
    codec.encode(msg, &mut out);
    assert_eq!(&out[..], &frame[..]);
}

#[test]
fn decode_v2_round_trip_with_24_bit_id() {
    let frame = v2_frame((3, 4), 300, &[1, 2, 42, 4], false);
    let mut buf = BytesMut::from(&frame[..]);
    let codec = codec();
    let msg = codec.decode(&mut buf).unwrap();
    assert_eq!(&msg.data[..], &frame[..]);
    assert_eq!(buf.len(), 0);
    assert_eq!(msg.routing_info.sender, SysCompId::from((3, 4)));
    assert_eq!(msg.routing_info.target, SysCompId::from((42, 0)));
    let mut out = BytesMut::from(&[1u8, 2][..]);
    assert!(codec.try_encode(msg, &mut out));
    assert_eq!(&out[..2], &[1, 2]);
    assert_eq!(&out[2..], &frame[..]);
}

#[test]
fn decode_v2_id_uses_all_three_bytes() {
    let mut table = HashMap::new();
    table.insert(0x01_02_03, Offsets::new(0, None));
    let codec = Codec::new(Arc::new(table));
    let frame = v2_frame((1, 1), 0x01_02_03, &[77], false);
    let mut buf = BytesMut::from(&frame[..]);
    let msg = codec.decode(&mut buf).unwrap();
    assert_eq!(msg.routing_info.target, SysCompId::from((77, 0)));
}

#[test]
fn decode_unknown_message_is_broadcast() {
    let frame = v1_frame((1, 2), 1, &[9, 8, 7]);
    let mut buf = BytesMut::from(&frame[..]);
    let msg = codec().decode(&mut buf).unwrap();
    assert_eq!(msg.routing_info.target, SysCompId::from((0, 0)));
}

#[test]
fn decode_target_offsets_out_of_range_fall_back_to_zero() {
    // Message 11 has its system id at 4 and its component id at 9.
    let frame = v1_frame((1, 2), 11, &[0, 0, 0, 0, 5]);
    let mut buf = BytesMut::from(&frame[..]);
    let msg = codec().decode(&mut buf).unwrap();
    assert_eq!(msg.routing_info.target, SysCompId::from((5, 0)));
    let frame = v1_frame((1, 2), 11, &[0, 0]);
    let mut buf = BytesMut::from(&frame[..]);
    let msg = codec().decode(&mut buf).unwrap();
    assert_eq!(msg.routing_info.target, SysCompId::from((0, 0)));
}

#[test]
fn decode_resyncs_and_keeps_what_follows() {
    let frame = v1_frame((1, 1), 76, &[3, 4]);
    assert_eq!(frame.len(), 10);
    let mut stream = vec![0x00, 0x01];
    stream.extend_from_slice(&frame);
    stream.push(0xAB);
    let mut buf = BytesMut::from(&stream[..]);
    let codec = codec();
    let msg = codec.decode(&mut buf).unwrap();
    assert_eq!(&msg.data[..], &frame[..]);
    assert_eq!(&buf[..], &[0xAB]);
    // The stray byte behind the frame is dropped by the next step.
    assert!(codec.decode(&mut buf).is_none());
    assert_eq!(buf.len(), 0);
}

#[test]
fn decode_signed_v2_takes_thirty_bytes() {
    let frame = v2_frame((1, 1), 76, &[1, 2, 3, 4, 5], true);
    assert_eq!(frame.len(), 30);
    let mut stream = frame.clone();
    stream.extend_from_slice(&[0xFD, 0x00]);
    let mut buf = BytesMut::from(&stream[..]);
    let msg = codec().decode(&mut buf).unwrap();
    assert_eq!(msg.data.len(), 30);
    assert_eq!(&msg.data[..], &frame[..]);
    assert_eq!(&buf[..], &[0xFD, 0x00]);
}

#[test]
fn decode_waits_for_the_whole_frame() {
    let frame = v2_frame((1, 1), 76, &[1, 2, 3, 4, 5], true);
    let codec = codec();
    for cut in 1..frame.len() {
        let mut buf = BytesMut::from(&frame[..cut]);
        assert!(codec.decode(&mut buf).is_none());
        assert_eq!(&buf[..], &frame[..cut]);
    }
    let frame = v1_frame((1, 1), 76, &[1, 2, 3]);
    for cut in 1..frame.len() {
        let mut buf = BytesMut::from(&frame[..cut]);
        assert!(codec.decode(&mut buf).is_none());
        assert_eq!(&buf[..], &frame[..cut]);
    }
}

#[test]
fn decode_drops_noise_before_a_partial_frame() {
    let mut buf = BytesMut::from(&[1u8, 2, 3, 0xFE, 2, 0][..]);
    assert!(codec().decode(&mut buf).is_none());
    assert_eq!(&buf[..], &[0xFE, 2, 0]);
    let mut buf = BytesMut::from(&[1u8, 2, 3][..]);
    assert!(codec().decode(&mut buf).is_none());
    assert_eq!(buf.len(), 0);
}

#[test]
fn decode_two_frames_in_a_row() {
    let a = v1_frame((1, 1), 76, &[]);
    assert_eq!(a.len(), 8);
    let b = v2_frame((2, 2), 76, &[], false);
    assert_eq!(b.len(), 12);
    let mut stream = a.clone();
    stream.extend_from_slice(&b);
    let mut buf = BytesMut::from(&stream[..]);
    let codec = codec();
    assert_eq!(&codec.decode(&mut buf).unwrap().data[..], &a[..]);
    assert_eq!(&codec.decode(&mut buf).unwrap().data[..], &b[..]);
    assert!(codec.decode(&mut buf).is_none());
}

#[test]
fn spurious_magic_can_swallow_a_frame() {
    // A stray magic byte starts a frame of its own, which may take the
    // first bytes of the frame behind it.
    let frame = v1_frame((1, 1), 76, &[3, 4]);
    let mut stream = vec![0xFE, 0x02];
    stream.extend_from_slice(&frame);
    let mut buf = BytesMut::from(&stream[..]);
    let codec = codec();
    let first = codec.decode(&mut buf).unwrap();
    assert_eq!(&first.data[..], &stream[..10]);
    assert_eq!(&buf[..], &frame[8..]);
}

#[test]
fn target_from_payload_reads_at_the_offsets() {
    let codec = codec();
    assert_eq!(codec.target_from_payload(76, &[5, 6, 7]), SysCompId::from((5, 6)));
    assert_eq!(codec.target_from_payload(300, &[5, 6, 7]), SysCompId::from((7, 0)));
    assert_eq!(codec.target_from_payload(76, &[5]), SysCompId::from((5, 0)));
    assert_eq!(codec.target_from_payload(76, &[]), SysCompId::from((0, 0)));
    assert_eq!(codec.target_from_payload(1, &[5, 6, 7]), SysCompId::from((0, 0)));
}

#[test]
fn deserialize_whole_datagrams() {
    let d = Deserializer::new(table());
    let frame = v1_frame((1, 2), 76, &[9, 8, 7]);
    let msg = d.deserialize(Bytes::from(frame.clone())).unwrap();
    assert_eq!(&msg.data[..], &frame[..]);
    assert_eq!(msg.routing_info.sender, SysCompId::from((1, 2)));
    assert_eq!(msg.routing_info.target, SysCompId::from((9, 8)));
    let frame = v2_frame((3, 4), 300, &[1, 2, 42, 4], true);
    let msg = d.deserialize(Bytes::from(frame.clone())).unwrap();
    assert_eq!(&msg.data[..], &frame[..]);
    assert_eq!(msg.routing_info.sender, SysCompId::from((3, 4)));
    assert_eq!(msg.routing_info.target, SysCompId::from((42, 0)));
}

#[test]
fn deserialize_errors() {
    let d = Deserializer::new(table());
    assert_eq!(d.deserialize(Bytes::new()).unwrap_err(), DeserializationError::TooShort);
    assert_eq!(
        d.deserialize(Bytes::from(vec![0xFE, 0, 0, 1, 1, 0, 0])).unwrap_err(),
        DeserializationError::TooShort
    );
    assert_eq!(
        d.deserialize(Bytes::from(vec![0xFD; 11])).unwrap_err(),
        DeserializationError::TooShort
    );
    assert_eq!(
        d.deserialize(Bytes::from(vec![0x42, 0, 0])).unwrap_err(),
        DeserializationError::InvalidMagic(0x42)
    );
    let mut long = v1_frame((1, 2), 76, &[9, 8, 7]);
    long.push(0);
    assert_eq!(
        d.deserialize(Bytes::from(long)).unwrap_err(),
        DeserializationError::InvalidLength(11, 12)
    );
    let mut unsigned = v2_frame((1, 2), 76, &[9, 8, 7], true);
    unsigned.truncate(15);
    assert_eq!(
        d.deserialize(Bytes::from(unsigned)).unwrap_err(),
        DeserializationError::InvalidLength(28, 15)
    );
}
