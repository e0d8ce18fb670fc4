//! Rooms, the registry, and the connection table.

use klee_chat::connections::ConnectionTable;
use klee_chat::registry::RoomRegistry;
use klee_chat::room::{constant_time_eq, str_eq, Room};

fn sample_room(password: Option<&str>) -> Room {
    Room::new(
        "room-id-1".to_string(),
        "lounge".to_string(),
        "a quiet corner".to_string(),
        password.map(|p| p.to_string()),
        "key-material".to_string(),
    )
}

#[test]
fn text_equality() {
    assert!(str_eq("abc", "abc"));
    assert!(!str_eq("abc", "abd"));
    assert!(!str_eq("abc", "ab"));
}

#[test]
fn constant_time_comparison() {
    assert!(constant_time_eq(b"same", b"same"));
    assert!(!constant_time_eq(b"same", b"sbme"));
    assert!(!constant_time_eq(b"same", b"sam"));
    assert!(constant_time_eq(b"", b""));
}

#[test]
fn room_reports_password_presence() {
    let open_room = sample_room(None);
    assert!(!open_room.get_info().has_password);
    let gated = sample_room(Some("s"));
    assert!(gated.get_info().has_password);
}

#[test]
fn room_derives_its_join_key() {
    let room = sample_room(Some("s"));
    let expected = klee_chat::crypto::RoomCrypto::generate_join_key("room-id-1", Some("s"));
    assert_eq!(room.get_info().join_key, expected);
}

#[test]
fn verify_password_cases() {
    let open_room = sample_room(None);
    assert!(open_room.verify_password(None));
    assert!(!open_room.verify_password(Some("s")));
    let gated = sample_room(Some("s"));
    assert!(gated.verify_password(Some("s")));
    assert!(!gated.verify_password(Some("x")));
    assert!(!gated.verify_password(None));
}

#[test]
fn roster_keeps_order_and_is_idempotent() {
    let mut room = sample_room(None);
    room.add_participant("p1".to_string(), "A".to_string());
    room.add_participant("p2".to_string(), "B".to_string());
    room.add_participant("p1".to_string(), "A-again".to_string());
    assert_eq!(
        room.get_participants(),
        vec![
            ("p1".to_string(), "A".to_string()),
            ("p2".to_string(), "B".to_string()),
        ]
    );
    assert_eq!(room.member_names(), vec!["A".to_string(), "B".to_string()]);
    assert!(room.contains_participant("p1"));
    assert_eq!(room.participant_name("p2"), Some("B".to_string()));
    assert_eq!(room.participant_name("p9"), None);
    room.remove_participant("p1");
    assert_eq!(room.member_names(), vec!["B".to_string()]);
    room.remove_participant("p1");
    assert_eq!(room.member_names(), vec!["B".to_string()]);
}

#[test]
fn registry_finds_first_admitting_room() {
    let mut reg = RoomRegistry::new();
    let r1 = sample_room(Some("s"));
    let key1 = r1.get_info().join_key;
    reg.insert_room(r1);
    let mut r2 = Room::new(
        "room-id-2".to_string(),
        "other".to_string(),
        "".to_string(),
        None,
        "key2".to_string(),
    );
    r2.add_participant("p9".to_string(), "Z".to_string());
    let key2 = r2.get_info().join_key;
    let mut reg2 = RoomRegistry::new();
    reg2.insert_room(r2);
    assert_eq!(reg.find_joinable(&key1, Some("s")), Some(0));
    assert_eq!(reg.find_joinable(&key1, Some("x")), None);
    assert_eq!(reg.find_joinable(&key1, None), None);
    assert_eq!(reg.find_joinable("deadbeef", None), None);
    assert_eq!(reg2.find_joinable(&key2, None), Some(0));
}

#[test]
fn registry_moves_and_removes_participants() {
    let mut reg = RoomRegistry::new();
    reg.insert_room(sample_room(None));
    reg.add_participant_at(0, "p1".to_string(), "A".to_string());
    reg.add_participant_at(0, "p2".to_string(), "B".to_string());
    assert_eq!(reg.room_of("p1"), Some(0));
    let left = reg.leave("p1");
    assert_eq!(left, Some((0, "A".to_string())));
    assert_eq!(reg.room_of("p1"), None);
    assert_eq!(reg.leave("p1"), None);
    assert_eq!(reg.get_room(0).member_names(), vec!["B".to_string()]);
    assert!(reg.has_room_id("room-id-1"));
    assert!(!reg.has_room_id("room-id-9"));
    assert_eq!(reg.room_count(), 1);
}

#[test]
fn connection_table_membership() {
    let mut table = ConnectionTable::new();
    table.insert("c1".to_string());
    table.insert("c2".to_string());
    table.insert("c1".to_string());
    assert_eq!(table.count(), 2);
    assert!(table.contains("c1"));
    assert!(table.contains("c2"));
    assert!(!table.contains("c3"));
    assert_eq!(table.all_ids(), vec!["c1".to_string(), "c2".to_string()]);
    table.remove("c1");
    assert!(!table.contains("c1"));
    assert_eq!(table.count(), 1);
    table.remove("c1");
    assert_eq!(table.count(), 1);
}
