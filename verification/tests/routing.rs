use mavlink_shouter::endpoint::receiver::{
    continues_after_publish, Receiver, ReceiverAction, ReceiverEvent,
};
use mavlink_shouter::endpoint::sender::{
    continues_after_write, deliveries, Sender, SenderAction, SenderEvent, SenderState,
};
use mavlink_shouter::endpoint::target_database::{PeerAddr, TargetDatabase};
use mavlink_shouter::mavlink::definitions::Offsets;
use mavlink_shouter::mavlink::{v1, v2, Codec, Message, RoutingInfo, SysCompId};
use std::collections::HashMap;
use std::sync::Arc;
use tokio_util::bytes::BytesMut;

fn peer(port: u16) -> PeerAddr {
    PeerAddr::V4(0x0A00_0001, port)
}

fn frame(sender: (u8, u8), target: (u8, u8)) -> Message {
    let mut table = HashMap::new();
    table.insert(76, Offsets::new(0, Some(1)));
    let codec = Codec::new(Arc::new(table));
    let bytes =
        [0xFD, 2, 0, 0, 0, sender.0, sender.1, 76, 0, 0, target.0, target.1, 0x11, 0x22];
    let mut buf = BytesMut::from(&bytes[..]);
    codec.decode(&mut buf).unwrap()
}

struct Endpoint {
    db: Arc<TargetDatabase>,
    receiver: Receiver,
    sender: Sender,
}

fn endpoint() -> Endpoint {
    let db = Arc::new(TargetDatabase::new());
    Endpoint { db: db.clone(), receiver: Receiver::new(db.clone()), sender: Sender::new(db) }
}

fn sent_by(e: &Endpoint, msg: &Message) -> Vec<PeerAddr> {
    match e.sender.on_event(SenderState::Running, SenderEvent::Frame(msg.share())) {
        (SenderState::Running, SenderAction::Send(_, targets)) => targets,
        _ => panic!("a running sender sends"),
    }
}

fn published(e: &Endpoint, msg: Message, from: PeerAddr) -> Message {
    match e.receiver.on_event(ReceiverEvent::Frame(msg, from)) {
        ReceiverAction::Publish(m, learn) => {
            e.receiver.update_db(learn);
            m
        }
        _ => panic!("a frame is published"),
    }
}

#[test]
fn constants_of_the_wire_format() {
    assert_eq!(v1::PACKET_MAGIC, 0xFE);
    assert_eq!((v1::HEADER_LEN, v1::CHECKSUM_LEN), (6, 2));
    assert_eq!((v1::MIN_PACKET_LEN, v1::MAX_PACKET_LEN), (8, 263));
    assert_eq!(v2::PACKET_MAGIC, 0xFD);
    assert_eq!(v2::IFLAG_SIGNED, 0x01);
    assert_eq!((v2::HEADER_LEN, v2::CHECKSUM_LEN, v2::SIGNATURE_LEN), (10, 2, 13));
    assert_eq!((v2::MIN_PACKET_LEN, v2::MAX_PACKET_LEN), (12, 280));
}

#[test]
fn sys_comp_id_predicates() {
    let id = SysCompId::from((1, 2));
    assert_eq!((id.sys_id(), id.comp_id()), (1, 2));
    assert!(id.is_valid_sender());
    assert!(!id.is_broadcast());
    assert!(!id.is_sys_broadcast());
    assert!(SysCompId::from((0, 0)).is_broadcast());
    assert!(SysCompId::from((0, 5)).is_broadcast());
    assert!(!SysCompId::from((0, 5)).is_sys_broadcast());
    assert!(SysCompId::from((3, 0)).is_sys_broadcast());
    assert!(!SysCompId::from((3, 0)).is_valid_sender());
    assert!(!SysCompId::from((0, 3)).is_valid_sender());
}

#[test]
fn broadcast_match_semantics() {
    for s in [1u8, 2, 255] {
        for c in [1u8, 7, 255] {
            let peer = SysCompId::from((s, c));
            assert!(SysCompId::from((0, 0)).matches(peer));
            assert!(SysCompId::from((s, 0)).matches(peer));
            assert!(SysCompId::from((s, c)).matches(peer));
            assert!(peer.matches(SysCompId::from((s, 0))));
            for other in [3u8, 4] {
                for oc in [0u8, c] {
                    assert!(!SysCompId::from((other, oc)).matches(peer));
                }
            }
            for oc in [c.wrapping_add(1).max(1), c.wrapping_add(2).max(1)] {
                if oc != c {
                    assert!(!SysCompId::from((s, oc)).matches(peer));
                }
            }
        }
    }
}

#[test]
fn routing_info_never_matches_the_sender() {
    let sender = SysCompId::from((1, 1));
    for target in [(0, 0), (1, 0), (1, 1), (2, 2)] {
        let info = RoutingInfo { sender, target: SysCompId::from(target) };
        assert!(!info.matches(sender));
    }
    let info = RoutingInfo { sender, target: SysCompId::from((1, 0)) };
    assert!(info.matches(SysCompId::from((1, 2))));
    assert!(!info.matches(SysCompId::from((2, 2))));
}

#[test]
fn simple_v2_unicast() {
    let a = endpoint();
    let b = endpoint();
    let pa = peer(1);
    let pb = peer(2);
    // B has learned (1,2) at PB.
    published(&b, frame((1, 2), (0, 0)), pb);
    // A receives the frame from PA.
    let msg = published(&a, frame((1, 1), (1, 2)), pa);
    assert_eq!(msg.routing_info.sender, SysCompId::from((1, 1)));
    assert_eq!(msg.routing_info.target, SysCompId::from((1, 2)));
    assert_eq!(sent_by(&b, &msg), vec![pb]);
    assert_eq!(sent_by(&a, &msg), Vec::new());
    let out = deliveries(&msg, &sent_by(&b, &msg));
    assert_eq!(out.len(), 1);
    assert_eq!(out[0].1, pb);
    assert_eq!(&out[0].0.data[..], &msg.data[..]);
}

#[test]
fn broadcast_reaches_every_other_peer() {
    let a = endpoint();
    let b = endpoint();
    let c = endpoint();
    published(&a, frame((1, 1), (0, 0)), peer(1));
    published(&a, frame((1, 5), (0, 0)), peer(5));
    published(&b, frame((1, 2), (0, 0)), peer(2));
    published(&b, frame((2, 1), (0, 0)), peer(3));
    published(&c, frame((1, 1), (0, 0)), peer(4));
    let msg = published(&a, frame((1, 1), (0, 0)), peer(1));
    assert_eq!(sent_by(&a, &msg), vec![peer(5)]);
    assert_eq!(sent_by(&b, &msg), vec![peer(2), peer(3)]);
    assert_eq!(sent_by(&c, &msg), Vec::new());
}

#[test]
fn invalid_senders_are_forwarded_but_not_learned() {
    let a = endpoint();
    let msg = published(&a, frame((0, 1), (0, 0)), peer(1));
    assert_eq!(msg.routing_info.sender, SysCompId::from((0, 1)));
    let probe = RoutingInfo { sender: SysCompId::from((9, 9)), target: SysCompId::from((0, 0)) };
    assert_eq!(a.db.get_target_addresses(&probe), Vec::new());
    assert_eq!(Receiver::validate(&frame((1, 0), (0, 0)), peer(1)), None);
    assert_eq!(Receiver::validate(&frame((0, 0), (0, 0)), peer(1)), None);
    assert_eq!(
        Receiver::validate(&frame((1, 1), (1, 2)), peer(1)),
        Some((SysCompId::from((1, 1)), peer(1)))
    );
    a.receiver.update_db(None);
    assert_eq!(a.db.get_target_addresses(&probe), Vec::new());
    a.receiver.update_db(Some((SysCompId::from((1, 1)), peer(1))));
    assert_eq!(a.db.get_target_addresses(&probe), vec![peer(1)]);
    match a.receiver.on_event(ReceiverEvent::Frame(frame((2, 3), (0, 0)), peer(7))) {
        ReceiverAction::Publish(m, learn) => {
            assert_eq!(m.routing_info.sender, SysCompId::from((2, 3)));
            assert_eq!(learn, Some((SysCompId::from((2, 3)), peer(7))));
        }
        _ => panic!("a frame is published"),
    }
    match a.receiver.on_event(ReceiverEvent::Frame(frame((2, 0), (0, 0)), peer(7))) {
        ReceiverAction::Publish(m, learn) => {
            assert_eq!(m.routing_info.sender, SysCompId::from((2, 0)));
            assert_eq!(learn, None);
        }
        _ => panic!("a frame is published"),
    }
    // Deciding records nothing.
    assert_eq!(a.db.get_target_addresses(&probe), vec![peer(1)]);
}

#[test]
fn receiver_events() {
    let a = endpoint();
    assert!(matches!(a.receiver.on_event(ReceiverEvent::ReadFailed), ReceiverAction::Skip));
    assert!(matches!(a.receiver.on_event(ReceiverEvent::EndOfStream), ReceiverAction::Stop));
    assert!(continues_after_publish(true));
    assert!(!continues_after_publish(false));
    assert!(continues_after_write(true));
    assert!(continues_after_write(false));
}

#[test]
fn sender_state_machine() {
    let a = endpoint();
    assert!(matches!(
        a.sender.on_event(SenderState::Running, SenderEvent::Lagged(17)),
        (SenderState::Running, SenderAction::ReportLag(17))
    ));
    assert!(matches!(
        a.sender.on_event(SenderState::Running, SenderEvent::Closed),
        (SenderState::Stopped, SenderAction::Idle)
    ));
    assert!(matches!(
        a.sender.on_event(SenderState::Stopped, SenderEvent::Frame(frame((1, 1), (0, 0)))),
        (SenderState::Stopped, SenderAction::Idle)
    ));
    assert!(matches!(
        a.sender.on_event(SenderState::Stopped, SenderEvent::Lagged(1)),
        (SenderState::Stopped, SenderAction::Idle)
    ));
}
