use mavlink_shouter::endpoint::target_database::{PeerAddr, TargetDatabase, TargetList};
use mavlink_shouter::mavlink::{RoutingInfo, SysCompId};

fn local(port: u16) -> PeerAddr {
    // 127.0.0.1
    PeerAddr::V4(0x7F00_0001, port)
}

#[test]
fn test_insert_or_update() {
    let db = TargetDatabase::new();
    let sender = SysCompId::from((1, 1));
    let target = SysCompId::from((1, 2));
    let routing_info = RoutingInfo { sender, target };

    let addr = local(14550);
    db.insert_or_update(target, addr);
    assert_eq!(db.get_target_addresses(&routing_info), vec![addr]);
}

#[test]
fn test_insert_or_update_updates() {
    let db = TargetDatabase::new();
    let sender = SysCompId::from((1, 1));
    let target = SysCompId::from((1, 2));
    let routing_info = RoutingInfo { sender, target };

    let addr = local(14550);
    db.insert_or_update(target, addr);
    let addr = local(14551);
    db.insert_or_update(target, addr);
    assert_eq!(db.get_target_addresses(&routing_info), vec![addr]);
}

#[test]
fn test_insert_or_update_does_nothing_when_inserting_twice() {
    let db = TargetDatabase::new();
    let sender = SysCompId::from((1, 1));
    let target = SysCompId::from((1, 2));
    let routing_info = RoutingInfo { sender, target };

    let addr = local(14550);
    db.insert_or_update(target, addr);
    db.insert_or_update(target, addr);
    assert_eq!(db.get_target_addresses(&routing_info), vec![addr]);
}

#[test]
fn test_get_matching_returns_empty_when_target_not_found() {
    let db = TargetDatabase::new();

    let target = SysCompId::from((1, 1));
    let addr1 = local(14550);
    db.insert_or_update(target, addr1);

    let sender = SysCompId::from((1, 1));
    let target = SysCompId::from((1, 2));
    let routing_info = RoutingInfo { sender, target };
    assert_eq!(db.get_target_addresses(&routing_info), Vec::new());
}

#[test]
fn test_get_matching_returns_matching_targets() {
    let db = TargetDatabase::new();

    let target = SysCompId::from((1, 1));
    let addr1 = local(14550);
    db.insert_or_update(target, addr1);

    let target = SysCompId::from((1, 2));
    let addr2 = local(14551);
    db.insert_or_update(target, addr2);

    let target = SysCompId::from((2, 1));
    let addr3 = local(14552);
    db.insert_or_update(target, addr3);

    let sender = SysCompId::from((2, 1));
    let target = SysCompId::from((1, 0));
    let routing_info = RoutingInfo { sender, target };
    assert_eq!(db.get_target_addresses(&routing_info), vec![addr1, addr2]);
}

#[test]
fn list_insert_twice_changes_nothing_the_second_time() {
    let mut list = TargetList::new();
    let s = SysCompId::from((3, 4));
    assert!(list.needs_update(s, local(1)));
    list.insert_or_update(s, local(1));
    assert_eq!(list.len(), 1);
    assert!(!list.needs_update(s, local(1)));
    list.insert_or_update(s, local(1));
    assert_eq!(list.len(), 1);
    assert_eq!(list.position(s), Some(0));
}

#[test]
fn list_second_address_replaces_the_first() {
    let mut list = TargetList::new();
    let s = SysCompId::from((3, 4));
    let other = SysCompId::from((3, 5));
    list.insert_or_update(other, local(9));
    list.insert_or_update(s, local(1));
    assert!(list.needs_update(s, local(2)));
    list.insert_or_update(s, local(2));
    assert_eq!(list.len(), 2);
    let all = RoutingInfo { sender: SysCompId::from((9, 9)), target: SysCompId::from((0, 0)) };
    assert_eq!(list.get_target_addresses(&all), vec![local(9), local(2)]);
}

#[test]
fn list_never_reflects_to_the_sender() {
    let mut list = TargetList::new();
    list.insert_or_update(SysCompId::from((1, 1)), local(1));
    list.insert_or_update(SysCompId::from((1, 2)), local(2));
    list.insert_or_update(SysCompId::from((2, 1)), local(3));
    for target in [(0, 0), (1, 0), (1, 1)] {
        let info =
            RoutingInfo { sender: SysCompId::from((1, 1)), target: SysCompId::from(target) };
        assert!(!list.get_target_addresses(&info).contains(&local(1)));
    }
    let info = RoutingInfo { sender: SysCompId::from((1, 1)), target: SysCompId::from((0, 0)) };
    assert_eq!(list.get_target_addresses(&info), vec![local(2), local(3)]);
}

#[test]
fn v6_addresses_differ_by_scope() {
    let mut list = TargetList::new();
    let s = SysCompId::from((1, 1));
    list.insert_or_update(s, PeerAddr::V6(1, 14550, 0, 0));
    assert!(list.needs_update(s, PeerAddr::V6(1, 14550, 0, 1)));
    assert!(!list.needs_update(s, PeerAddr::V6(1, 14550, 0, 0)));
}
