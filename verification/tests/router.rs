//! End-to-end router scenarios over the server state machine.

use base64::Engine;

use klee_chat::messages::{ClientMessage, ServerMessage};
use klee_chat::server::Server;

fn create_room(
    server: &mut Server,
    creator: &str,
    creator_name: &str,
    password: Option<&str>,
    room_id: &str,
) -> Vec<(String, ServerMessage)> {
    server.route_create_room(
        creator,
        "r".to_string(),
        "d".to_string(),
        password.map(|p| p.to_string()),
        creator_name.to_string(),
        room_id.to_string(),
        "room-key-material".to_string(),
    )
}

#[test]
fn happy_path_create_then_join() {
    let mut server = Server::new();
    server.register_connection("A-id".to_string());
    let emissions = create_room(&mut server, "A-id", "A", None, "room-1");
    assert_eq!(emissions.len(), 2);
    assert_eq!(emissions[0].0, "A-id");
    let join_key = match &emissions[0].1 {
        ServerMessage::RoomCreated { room_info, encryption_key } => {
            assert_eq!(room_info.id, "room-1");
            assert_eq!(room_info.name, "r");
            assert_eq!(room_info.description, "d");
            assert!(!room_info.has_password);
            assert_eq!(encryption_key, "room-key-material");
            room_info.join_key.clone()
        },
        other => panic!("expected room_created, got {:?}", other),
    };
    assert_eq!(
        emissions[1],
        ("A-id".to_string(), ServerMessage::MemberList { members: vec!["A".to_string()] })
    );

    server.register_connection("B-id".to_string());
    let emissions = server.route_join_room("B-id", join_key, None, "B".to_string());
    // B hears the admission, A hears the arrival, both hear the fresh list.
    assert_eq!(emissions.len(), 4);
    match &emissions[0] {
        (to, ServerMessage::RoomJoined { room_info, encryption_key, participants }) => {
            assert_eq!(to, "B-id");
            assert_eq!(room_info.id, "room-1");
            assert_eq!(encryption_key, "room-key-material");
            assert_eq!(participants, &vec!["A".to_string(), "B".to_string()]);
        },
        other => panic!("expected room_joined, got {:?}", other),
    }
    assert_eq!(
        emissions[1],
        ("A-id".to_string(), ServerMessage::ParticipantJoined { name: "B".to_string() })
    );
    let list = ServerMessage::MemberList { members: vec!["A".to_string(), "B".to_string()] };
    assert_eq!(emissions[2], ("A-id".to_string(), list.clone()));
    assert_eq!(emissions[3], ("B-id".to_string(), list));
}

#[test]
fn wrong_password_is_one_error_to_the_sender() {
    let mut server = Server::new();
    server.register_connection("A-id".to_string());
    let emissions = create_room(&mut server, "A-id", "A", Some("s"), "room-1");
    let join_key = match &emissions[0].1 {
        ServerMessage::RoomCreated { room_info, .. } => room_info.join_key.clone(),
        other => panic!("expected room_created, got {:?}", other),
    };
    server.register_connection("C-id".to_string());
    let emissions = server.route_join_room("C-id", join_key, Some("x".to_string()), "C".to_string());
    assert_eq!(
        emissions,
        vec![
            (
                "C-id".to_string(),
                ServerMessage::Error { message: "Invalid room key or password".to_string() },
            ),
        ]
    );
}

#[test]
fn unknown_join_key_is_indistinguishable_from_wrong_password() {
    let mut server = Server::new();
    server.register_connection("D-id".to_string());
    let emissions = server.route_join_room("D-id", "deadbeef".to_string(), None, "D".to_string());
    assert_eq!(
        emissions,
        vec![
            (
                "D-id".to_string(),
                ServerMessage::Error { message: "Invalid room key or password".to_string() },
            ),
        ]
    );
}

fn two_member_room(server: &mut Server) -> String {
    server.register_connection("A-id".to_string());
    let emissions = create_room(server, "A-id", "A", None, "room-1");
    let join_key = match &emissions[0].1 {
        ServerMessage::RoomCreated { room_info, .. } => room_info.join_key.clone(),
        other => panic!("expected room_created, got {:?}", other),
    };
    server.register_connection("B-id".to_string());
    server.route_join_room("B-id", join_key.clone(), None, "B".to_string());
    join_key
}

#[test]
fn chat_is_not_echoed_to_its_sender() {
    let mut server = Server::new();
    two_member_room(&mut server);
    let emissions = server.route_chat_message("B-id", "ciphertext".to_string());
    assert_eq!(
        emissions,
        vec![
            (
                "A-id".to_string(),
                ServerMessage::ChatMessage {
                    sender: "B".to_string(),
                    content: "ciphertext".to_string(),
                },
            ),
        ]
    );
}

#[test]
fn chat_from_roomless_sender_goes_nowhere() {
    let mut server = Server::new();
    server.register_connection("X-id".to_string());
    assert_eq!(server.route_chat_message("X-id", "hello".to_string()), vec![]);
}

#[test]
fn disconnect_notifies_the_remaining_members() {
    let mut server = Server::new();
    two_member_room(&mut server);
    let emissions = server.handle_disconnect("A-id");
    assert_eq!(
        emissions,
        vec![
            ("B-id".to_string(), ServerMessage::ParticipantLeft { name: "A".to_string() }),
            (
                "B-id".to_string(),
                ServerMessage::MemberList { members: vec!["B".to_string()] },
            ),
        ]
    );
    let emissions = server.route_get_members("B-id");
    assert_eq!(
        emissions,
        vec![
            (
                "B-id".to_string(),
                ServerMessage::MemberList { members: vec!["B".to_string()] },
            ),
        ]
    );
    // Cleanup is idempotent: a second disconnect changes nothing and says
    // nothing.
    assert_eq!(server.handle_disconnect("A-id"), vec![]);
}

#[test]
fn get_members_outside_a_room_says_nothing() {
    let mut server = Server::new();
    server.register_connection("X-id".to_string());
    assert_eq!(server.route_get_members("X-id"), vec![]);
}

#[test]
fn file_lifecycle_through_the_router() {
    let mut server = Server::new();
    two_member_room(&mut server);
    let content_b64 = base64::engine::general_purpose::STANDARD.encode([0x41u8, 0x42, 0x43]);
    let emissions = server.route_upload_file(
        "A-id",
        "f.txt".to_string(),
        "text/plain".to_string(),
        content_b64,
        "file-1".to_string(),
        1_000,
    );
    // The whole room hears the synthesized link, then the uploader hears the
    // metadata.
    assert_eq!(emissions.len(), 3);
    let link = ServerMessage::ChatMessage {
        sender: "A-id".to_string(),
        content: "[File: f.txt](/files/file-1)".to_string(),
    };
    assert_eq!(emissions[0], ("A-id".to_string(), link.clone()));
    assert_eq!(emissions[1], ("B-id".to_string(), link));
    let expires_at = match &emissions[2] {
        (to, ServerMessage::FileUploaded { metadata }) => {
            assert_eq!(to, "A-id");
            assert_eq!(metadata.id, "file-1");
            assert_eq!(metadata.name, "f.txt");
            assert_eq!(metadata.size, 3);
            metadata.expires_at
        },
        other => panic!("expected file_uploaded, got {:?}", other),
    };

    let emissions = server.route_get_file("B-id", "file-1", 2_000);
    match &emissions[0] {
        (to, ServerMessage::FileContent { metadata, content }) => {
            assert_eq!(to, "B-id");
            assert_eq!(metadata.id, "file-1");
            assert_eq!(content, "QUJD");
        },
        other => panic!("expected file_content, got {:?}", other),
    }

    // Past the TTL the same request earns only the error.
    let emissions = server.route_get_file("B-id", "file-1", expires_at + 1);
    assert_eq!(
        emissions,
        vec![
            (
                "B-id".to_string(),
                ServerMessage::Error { message: "File not found or expired".to_string() },
            ),
        ]
    );
    // The HTTP path honors the same expiry.
    assert!(server.get_file("file-1", 2_000).is_some());
    assert!(server.get_file("file-1", expires_at + 1).is_none());
}

#[test]
fn upload_of_invalid_base64_is_refused() {
    let mut server = Server::new();
    server.register_connection("A-id".to_string());
    let emissions = server.route_upload_file(
        "A-id",
        "f".to_string(),
        "t".to_string(),
        "!!not-base64!!".to_string(),
        "file-1".to_string(),
        0,
    );
    assert_eq!(
        emissions,
        vec![
            (
                "A-id".to_string(),
                ServerMessage::Error { message: "Invalid file data".to_string() },
            ),
        ]
    );
}

#[test]
fn dispatcher_routes_by_frame_type() {
    let mut server = Server::new();
    server.register_connection("A-id".to_string());
    let emissions = server.handle_client_message(
        "A-id",
        ClientMessage::CreateRoom {
            name: "r".to_string(),
            description: "d".to_string(),
            password: None,
            user_name: "A".to_string(),
        },
        0,
    );
    assert_eq!(emissions.len(), 2);
    match &emissions[0].1 {
        ServerMessage::RoomCreated { room_info, encryption_key } => {
            assert_eq!(room_info.id.len(), 36);
            assert_eq!(encryption_key.len(), 44);
        },
        other => panic!("expected room_created, got {:?}", other),
    }
    let emissions = server.handle_client_message("A-id", ClientMessage::GetMembers, 0);
    assert_eq!(
        emissions,
        vec![
            (
                "A-id".to_string(),
                ServerMessage::MemberList { members: vec!["A".to_string()] },
            ),
        ]
    );
    let emissions = server.handle_client_message("A-id", ClientMessage::LeaveRoom, 0);
    assert_eq!(emissions, vec![]);
}

#[test]
fn fake_messages_reach_every_connection() {
    let mut server = Server::new();
    server.register_connection("c1".to_string());
    server.register_connection("c2".to_string());
    let noise = server.generate_fake_message();
    match &noise {
        ServerMessage::ChatMessage { sender, content } => {
            assert_eq!(sender.len(), 7);
            assert_eq!(content.len(), 20);
        },
        other => panic!("expected chat_message, got {:?}", other),
    }
    let emissions = server.send_fake_message(&noise);
    assert_eq!(emissions.len(), 2);
    assert_eq!(emissions[0].0, "c1");
    assert_eq!(emissions[1].0, "c2");
    assert_eq!(emissions[0].1, noise);
    assert_eq!(emissions[1].1, noise);
}

#[test]
fn joining_a_second_room_moves_the_participant() {
    let mut server = Server::new();
    server.register_connection("A-id".to_string());
    server.register_connection("B-id".to_string());
    let em1 = create_room(&mut server, "A-id", "A", None, "room-1");
    let key1 = match &em1[0].1 {
        ServerMessage::RoomCreated { room_info, .. } => room_info.join_key.clone(),
        other => panic!("expected room_created, got {:?}", other),
    };
    let em2 = server.route_create_room(
        "B-id",
        "r2".to_string(),
        "d2".to_string(),
        None,
        "B".to_string(),
        "room-2".to_string(),
        "key2".to_string(),
    );
    assert_eq!(em2.len(), 2);
    // B joins the first room: the second room's roster loses B.
    server.route_join_room("B-id", key1, None, "B".to_string());
    let emissions = server.route_get_members("B-id");
    assert_eq!(
        emissions,
        vec![
            (
                "B-id".to_string(),
                ServerMessage::MemberList {
                    members: vec!["A".to_string(), "B".to_string()],
                },
            ),
        ]
    );
}

#[test]
fn member_count_grows_by_one_per_join() {
    let mut server = Server::new();
    server.register_connection("A-id".to_string());
    let emissions = create_room(&mut server, "A-id", "A", None, "room-1");
    let join_key = match &emissions[0].1 {
        ServerMessage::RoomCreated { room_info, .. } => room_info.join_key.clone(),
        other => panic!("expected room_created, got {:?}", other),
    };
    let joiners = ["B", "C", "D"];
    for name in joiners {
        let pid = format!("{}-id", name);
        server.register_connection(pid.clone());
        server.route_join_room(&pid, join_key.clone(), None, name.to_string());
    }
    // Three joins after the creator: the observed member list has four names.
    let emissions = server.route_get_members("C-id");
    assert_eq!(
        emissions,
        vec![
            (
                "C-id".to_string(),
                ServerMessage::MemberList {
                    members: vec![
                        "A".to_string(),
                        "B".to_string(),
                        "C".to_string(),
                        "D".to_string(),
                    ],
                },
            ),
        ]
    );
}
