//! The frames clients send and the messages the server emits. The wire JSON
//! lives outside the core; these are the typed values the router works on.

use vstd::prelude::*;

verus! {

use crate::files::{FileMetadata, FileMetadataView};
use crate::room::{names_view, RoomInfo, RoomInfoView};

/// A frame from a client. Unknown or malformed frames never reach the
/// router: the transport layer drops them silently.
#[derive(Debug, PartialEq)]
pub enum ClientMessage {
    CreateRoom { name: String, description: String, password: Option<String>, user_name: String },
    JoinRoom { join_key: String, password: Option<String>, name: String },
    LeaveRoom,
    ChatMessage { content: String },
    GetMembers,
    UploadFile { name: String, mime_type: String, content: String },
    GetFile { file_id: String },
}

/// A message for one recipient's outbound sink.
#[derive(Debug, PartialEq)]
pub enum ServerMessage {
    RoomCreated { room_info: RoomInfo, encryption_key: String },
    RoomJoined { room_info: RoomInfo, encryption_key: String, participants: Vec<String> },
    ParticipantJoined { name: String },
    ParticipantLeft { name: String },
    ChatMessage { sender: String, content: String },
    MemberList { members: Vec<String> },
    Error { message: String },
    FileUploaded { metadata: FileMetadata },
    FileContent { metadata: FileMetadata, content: String },
}

/// The view of a `ServerMessage`.
#[verifier::ext_equal]
pub ghost enum ServerMessageView {
    RoomCreated { room_info: RoomInfoView, encryption_key: Seq<char> },
    RoomJoined { room_info: RoomInfoView, encryption_key: Seq<char>, participants: Seq<Seq<char>> },
    ParticipantJoined { name: Seq<char> },
    ParticipantLeft { name: Seq<char> },
    ChatMessage { sender: Seq<char>, content: Seq<char> },
    MemberList { members: Seq<Seq<char>> },
    Error { message: Seq<char> },
    FileUploaded { metadata: FileMetadataView },
    FileContent { metadata: FileMetadataView, content: Seq<char> },
}

impl View for ServerMessage {
    type V = ServerMessageView;

    open spec fn view(&self) -> ServerMessageView {
        match self {
            ServerMessage::RoomCreated { room_info, encryption_key } => {
                ServerMessageView::RoomCreated {
                    room_info: room_info@,
                    encryption_key: encryption_key@,
                }
            },
            ServerMessage::RoomJoined { room_info, encryption_key, participants } => {
                ServerMessageView::RoomJoined {
                    room_info: room_info@,
                    encryption_key: encryption_key@,
                    participants: names_view(participants@),
                }
            },
            ServerMessage::ParticipantJoined { name } => ServerMessageView::ParticipantJoined {
                name: name@,
            },
            ServerMessage::ParticipantLeft { name } => ServerMessageView::ParticipantLeft {
                name: name@,
            },
            ServerMessage::ChatMessage { sender, content } => ServerMessageView::ChatMessage {
                sender: sender@,
                content: content@,
            },
            ServerMessage::MemberList { members } => ServerMessageView::MemberList {
                members: names_view(members@),
            },
            ServerMessage::Error { message } => ServerMessageView::Error { message: message@ },
            ServerMessage::FileUploaded { metadata } => ServerMessageView::FileUploaded {
                metadata: metadata@,
            },
            ServerMessage::FileContent { metadata, content } => ServerMessageView::FileContent {
                metadata: metadata@,
                content: content@,
            },
        }
    }
}

/// An exact copy of a list of owned strings.
pub fn clone_string_vec(v: &Vec<String>) -> (r: Vec<String>)
    ensures
        r@ == v@,
{
    let n = v.len();
    let mut out: Vec<String> = Vec::new();
    let mut i: usize = 0;
    while i < n
        invariant
            n == v@.len(),
            i <= n,
            out@ =~= v@.take(i as int),
        decreases n - i,
    {
        out.push(v[i].clone());
        proof {
            assert(out@ =~= v@.take(i + 1 as int));
        }
        i = i + 1;
    }
    proof {
        assert(v@.take(n as int) =~= v@);
    }
    out
}

impl Clone for ServerMessage {
    /// A clone carries exactly the same variant, and fields with the same
    /// views.
    fn clone(&self) -> (r: Self)
        ensures
            r@ == self@,
    {
        match self {
            ServerMessage::RoomCreated { room_info, encryption_key } => {
                ServerMessage::RoomCreated {
                    room_info: room_info.clone(),
                    encryption_key: encryption_key.clone(),
                }
            },
            ServerMessage::RoomJoined { room_info, encryption_key, participants } => {
                let c = ServerMessage::RoomJoined {
                    room_info: room_info.clone(),
                    encryption_key: encryption_key.clone(),
                    participants: clone_string_vec(participants),
                };
                proof {
                    assert(c@ =~= self@);
                }
                c
            },
            ServerMessage::ParticipantJoined { name } => ServerMessage::ParticipantJoined {
                name: name.clone(),
            },
            ServerMessage::ParticipantLeft { name } => ServerMessage::ParticipantLeft {
                name: name.clone(),
            },
            ServerMessage::ChatMessage { sender, content } => ServerMessage::ChatMessage {
                sender: sender.clone(),
                content: content.clone(),
            },
            ServerMessage::MemberList { members } => {
                let c = ServerMessage::MemberList { members: clone_string_vec(members) };
                proof {
                    assert(c@ =~= self@);
                }
                c
            },
            ServerMessage::Error { message } => ServerMessage::Error { message: message.clone() },
            ServerMessage::FileUploaded { metadata } => ServerMessage::FileUploaded {
                metadata: metadata.clone(),
            },
            ServerMessage::FileContent { metadata, content } => ServerMessage::FileContent {
                metadata: metadata.clone(),
                content: content.clone(),
            },
        }
    }
}

} // verus!
