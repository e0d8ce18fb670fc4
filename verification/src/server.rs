//! The server state and its message router: each client frame becomes a
//! state transition plus an ordered list of (recipient, message) emissions,
//! which the transport layer fans out to the recipients' sinks.

use vstd::prelude::*;

verus! {

use vstd::string::StringExecFns;
use crate::connections::{
    conn_ids_distinct, conn_remove_rel, lemma_conn_remove_keeps_others, ConnectionTable,
};
use crate::encoding::{b64_decode_of, b64_encode_of, hex_of};
use crate::files::{
    expiry_of, file_upload_rel, has_live_dup, live_dup_at, store_has_id, store_wf, FileEntryView,
    FileManager, FileMetadata, FileMetadataView, MAX_FILE_SIZE,
};
use crate::messages::{ClientMessage, ServerMessage, ServerMessageView};
use crate::crypto::join_key_of;
use crate::hashing::sha256_of;
use crate::registry::{
    joinable, leave_rel, lemma_leave_rel_has_pid, registry_has_pid, registry_has_room_id,
    registry_wf, RoomRegistry,
};
use crate::room::{
    lemma_roster_except_push, lemma_roster_push_has_pid, opt_string_view, pairs_view, roster_except,
    names_view, roster_has_pid, roster_name_of, roster_names, Room, RoomInfoView, RoomView,
};

/// The view of the emissions a transition produces: recipient ids paired
/// with message views, in sink order.
pub open spec fn emissions_view(e: Seq<(String, ServerMessage)>) -> Seq<
    (Seq<char>, ServerMessageView),
> {
    e.map_values(|p: (String, ServerMessage)| (p.0@, p.1@))
}

/// One message fanned out to each roster entry, in roster order.
pub open spec fn fanout(
    recipients: Seq<(Seq<char>, Seq<char>)>,
    m: ServerMessageView,
) -> Seq<(Seq<char>, ServerMessageView)> {
    recipients.map_values(|p: (Seq<char>, Seq<char>)| (p.0, m))
}

/// One message addressed to each connection id, in registration order.
pub open spec fn fanout_ids(ids: Seq<Seq<char>>, m: ServerMessageView) -> Seq<
    (Seq<char>, ServerMessageView),
> {
    ids.map_values(|id: Seq<char>| (id, m))
}

/// The broadcast list: the whole roster, or the roster without the sender.
pub open spec fn except_filter(
    roster: Seq<(Seq<char>, Seq<char>)>,
    except: Option<Seq<char>>,
) -> Seq<(Seq<char>, Seq<char>)> {
    match except {
        Some(x) => roster_except(roster, x),
        None => roster,
    }
}

/// The view of an optional borrowed participant id.
pub open spec fn opt_pid_view(p: Option<&str>) -> Option<Seq<char>> {
    match p {
        Some(s) => Some(s@),
        None => None,
    }
}

/// One copy of a message addressed to each roster member, skipping the
/// excluded participant when one is given. The transition functions build
/// every broadcast through this.
pub fn fanout_except(
    participants: &Vec<(String, String)>,
    message: &ServerMessage,
    except: Option<&str>,
) -> (r: Vec<(String, ServerMessage)>)
    ensures
        emissions_view(r@) == fanout(
            except_filter(pairs_view(participants@), opt_pid_view(except)),
            message@,
        ),
{
    let n = participants.len();
    let mut out: Vec<(String, ServerMessage)> = Vec::new();
    let mut i: usize = 0;
    proof {
        assert(pairs_view(participants@).take(0) =~= Seq::<(Seq<char>, Seq<char>)>::empty());
        assert(emissions_view(out@) =~= fanout(
            except_filter(pairs_view(participants@).take(0), opt_pid_view(except)),
            message@,
        ));
    }
    while i < n
        invariant
            n == participants@.len(),
            i <= n,
            emissions_view(out@) =~= fanout(
                except_filter(pairs_view(participants@).take(i as int), opt_pid_view(except)),
                message@,
            ),
        decreases n - i,
    {
        let ghost roster = pairs_view(participants@);
        let ghost entry = roster[i as int];
        proof {
            assert(roster[i as int] == (participants@[i as int].0@, participants@[i as int].1@));
            assert(roster.take(i + 1 as int) =~= roster.take(i as int).push(entry));
            if let Some(x) = except {
                lemma_roster_except_push(roster.take(i as int), entry, x@);
            }
        }
        let skip = match except {
            Some(x) => crate::room::str_eq(participants[i].0.as_str(), x),
            None => false,
        };
        if !skip {
            let ghost out_prev = out@;
            let recipient = participants[i].0.clone();
            let copy = message.clone();
            out.push((recipient, copy));
            proof {
                assert(out@ =~= out_prev.push(out@[out@.len() - 1]));
                assert(out@[out@.len() - 1].0@ == entry.0);
                assert(out@[out@.len() - 1].1@ == message@);
                assert(emissions_view(out@) =~= emissions_view(out_prev).push(
                    (entry.0, message@),
                ));
                assert(except_filter(roster.take(i + 1 as int), opt_pid_view(except))
                    =~= except_filter(roster.take(i as int), opt_pid_view(except)).push(entry));
                assert(emissions_view(out@) =~= fanout(
                    except_filter(roster.take(i + 1 as int), opt_pid_view(except)),
                    message@,
                ));
            }
        } else {
            proof {
                assert(except_filter(roster.take(i + 1 as int), opt_pid_view(except))
                    =~= except_filter(roster.take(i as int), opt_pid_view(except)));
                assert(emissions_view(out@) =~= fanout(
                    except_filter(roster.take(i + 1 as int), opt_pid_view(except)),
                    message@,
                ));
            }
        }
        i = i + 1;
    }
    proof {
        assert(pairs_view(participants@).take(n as int) =~= pairs_view(participants@));
    }
    out
}

/// The view of the whole server state.
#[verifier::ext_equal]
pub ghost struct ServerView {
    pub rooms: Seq<RoomView>,
    pub connections: Seq<Seq<char>>,
    pub files: Seq<FileEntryView>,
}

/// The server's in-memory state: live rooms, live connections, and the
/// ephemeral file store.
pub struct Server {
    rooms: RoomRegistry,
    connections: ConnectionTable,
    file_manager: FileManager,
}

impl View for Server {
    type V = ServerView;

    closed spec fn view(&self) -> ServerView {
        ServerView { rooms: self.rooms@, connections: self.connections@, files: self.file_manager@ }
    }
}

/// A well-formed server: well-formed registry and store, distinct
/// connection ids, and every participant on some roster owning a live
/// connection.
pub open spec fn server_wf(s: ServerView) -> bool {
    &&& registry_wf(s.rooms)
    &&& conn_ids_distinct(s.connections)
    &&& store_wf(s.files)
    &&& forall|pid: Seq<char>| #[trigger]
        registry_has_pid(s.rooms, pid) ==> s.connections.contains(pid)
}

/// What a disconnect (or an explicit leave) does: the participant's sink
/// entry goes away; if they sat in a room, their roster entry goes away and
/// the remaining members hear a departure notice followed by the fresh
/// member list.
pub open spec fn disconnect_post(
    pre: ServerView,
    post: ServerView,
    pid: Seq<char>,
    emissions: Seq<(Seq<char>, ServerMessageView)>,
) -> bool {
    &&& post.files == pre.files
    &&& conn_remove_rel(pre.connections, post.connections, pid)
    &&& if !registry_has_pid(pre.rooms, pid) {
        post.rooms == pre.rooms && emissions.len() == 0
    } else {
        exists|i: int, k: int|
            {
                &&& 0 <= i < pre.rooms.len()
                &&& 0 <= k < pre.rooms[i].roster.len()
                &&& #[trigger] pre.rooms[i].roster[k].0 == pid
                &&& post.rooms == pre.rooms.update(
                    i,
                    (RoomView { roster: pre.rooms[i].roster.remove(k), ..pre.rooms[i] }),
                )
                &&& emissions == fanout(
                    pre.rooms[i].roster.remove(k),
                    ServerMessageView::ParticipantLeft {
                        name: roster_name_of(pre.rooms[i].roster, pid),
                    },
                ) + fanout(
                    pre.rooms[i].roster.remove(k),
                    ServerMessageView::MemberList {
                        members: roster_names(pre.rooms[i].roster.remove(k)),
                    },
                )
            }
    }
}

/// What creating a room does when the drawn room id is fresh: the sender
/// leaves any room they sat in, a new room appears whose join key derives
/// from the id and password, the sender is its only member, and the sender
/// hears the room's description and encryption key followed by the
/// one-member list.
pub open spec fn create_post(
    pre: ServerView,
    post: ServerView,
    pid: Seq<char>,
    name: Seq<char>,
    description: Seq<char>,
    password: Option<Seq<char>>,
    user_name: Seq<char>,
    room_id: Seq<char>,
    encryption_key: Seq<char>,
    emissions: Seq<(Seq<char>, ServerMessageView)>,
) -> bool {
    let info = RoomInfoView {
        id: room_id,
        name,
        description,
        has_password: password is Some,
        join_key: join_key_of(room_id, password),
    };
    let room = RoomView { info, password, encryption_key, roster: seq![(pid, user_name)] };
    &&& post.files == pre.files
    &&& post.connections == pre.connections
    &&& exists|mid: Seq<RoomView>|
        #[trigger] leave_rel(pre.rooms, mid, pid) && post.rooms == mid.push(room)
    &&& emissions == seq![
        (pid, ServerMessageView::RoomCreated { room_info: info, encryption_key }),
        (pid, ServerMessageView::MemberList { members: seq![user_name] }),
    ]
}

/// Whether position i holds the first room that admits the key and
/// password.
pub open spec fn first_joinable(
    rs: Seq<RoomView>,
    join_key: Seq<char>,
    password: Option<Seq<char>>,
    i: int,
) -> bool {
    0 <= i < rs.len() && joinable(rs[i], join_key, password) && forall|j: int|
        0 <= j < i ==> !joinable(#[trigger] rs[j], join_key, password)
}

/// The emissions of a successful admission, over the room as it stands
/// after it: the joiner hears the room's description, encryption key and
/// member names; everyone else hears the arrival; the whole room hears the
/// fresh member list.
pub open spec fn join_emissions(room: RoomView, pid: Seq<char>, joiner_name: Seq<char>) -> Seq<
    (Seq<char>, ServerMessageView),
> {
    seq![
        (
            pid,
            ServerMessageView::RoomJoined {
                room_info: room.info,
                encryption_key: room.encryption_key,
                participants: roster_names(room.roster),
            },
        ),
    ] + fanout(
        roster_except(room.roster, pid),
        ServerMessageView::ParticipantJoined { name: joiner_name },
    ) + fanout(
        room.roster,
        ServerMessageView::MemberList { members: roster_names(room.roster) },
    )
}

/// What a join attempt does. With no admitting room the sender hears one
/// error that does not tell a wrong password from a missing room, and
/// nothing changes. Else the first admitting room takes the sender in —
/// idempotently when they already sat there, otherwise out of whatever room
/// they sat in before — and the admission emissions go out.
pub open spec fn join_post(
    pre: ServerView,
    post: ServerView,
    pid: Seq<char>,
    join_key: Seq<char>,
    password: Option<Seq<char>>,
    name: Seq<char>,
    emissions: Seq<(Seq<char>, ServerMessageView)>,
) -> bool {
    &&& post.files == pre.files
    &&& post.connections == pre.connections
    &&& if (forall|j: int|
        0 <= j < pre.rooms.len() ==> !joinable(#[trigger] pre.rooms[j], join_key, password)) {
        post.rooms == pre.rooms && emissions == seq![
            (pid, ServerMessageView::Error { message: "Invalid room key or password"@ }),
        ]
    } else {
        exists|i: int|
            #[trigger] first_joinable(pre.rooms, join_key, password, i) && if roster_has_pid(
                pre.rooms[i].roster,
                pid,
            ) {
                post.rooms == pre.rooms && emissions == join_emissions(pre.rooms[i], pid, name)
            } else {
                exists|mid: Seq<RoomView>|
                    {
                        &&& #[trigger] leave_rel(pre.rooms, mid, pid)
                        &&& mid.len() == pre.rooms.len()
                        &&& post.rooms == mid.update(
                            i,
                            (RoomView {
                                roster: pre.rooms[i].roster.push((pid, name)),
                                ..pre.rooms[i]
                            }),
                        )
                        &&& emissions == join_emissions(post.rooms[i], pid, name)
                    }
            }
    }
}

/// Two first-admitting positions are the same position.
pub proof fn lemma_first_joinable_unique(
    rs: Seq<RoomView>,
    join_key: Seq<char>,
    password: Option<Seq<char>>,
    a: int,
    b: int,
)
    requires
        first_joinable(rs, join_key, password, a),
        first_joinable(rs, join_key, password, b),
    ensures
        a == b,
{
    if a < b {
        assert(!joinable(rs[a], join_key, password));
    } else if b < a {
        assert(!joinable(rs[b], join_key, password));
    }
}

/// One room created, then joined by any number of participants, each
/// presenting the right credentials and not already in that room when they
/// join — fresh participants and room-switchers alike: the room's roster
/// grows by exactly one name per join, so a member-list request after N
/// such joins observes the initial membership — the creator alone, when
/// the room is fresh — plus N names.
pub proof fn lemma_member_count_after_joins(
    states: Seq<ServerView>,
    i: int,
    join_key: Seq<char>,
    password: Option<Seq<char>>,
    joiners: Seq<(Seq<char>, Seq<char>)>,
    emseq: Seq<Seq<(Seq<char>, ServerMessageView)>>,
)
    requires
        states.len() == joiners.len() + 1,
        emseq.len() == joiners.len(),
        0 <= i < states[0].rooms.len(),
        first_joinable(states[0].rooms, join_key, password, i),
        forall|k: int| #![trigger joiners[k], states[k]]
            0 <= k < joiners.len() ==> !roster_has_pid(states[k].rooms[i].roster, joiners[k].0),
        forall|k: int| #![trigger joiners[k], states[k], emseq[k]]
            0 <= k < joiners.len() ==> join_post(
                states[k],
                states[k + 1],
                joiners[k].0,
                join_key,
                password,
                joiners[k].1,
                emseq[k],
            ),
    ensures
        states[states.len() - 1].rooms.len() == states[0].rooms.len(),
        states[states.len() - 1].rooms[i].roster.len() == states[0].rooms[i].roster.len()
            + joiners.len(),
        roster_names(states[states.len() - 1].rooms[i].roster).len()
            == states[0].rooms[i].roster.len() + joiners.len(),
    decreases joiners.len(),
{
    if joiners.len() == 0 {
    } else {
        let pre = states[0];
        let post = states[1];
        let pid = joiners[0].0;
        let nm = joiners[0].1;
        let em = emseq[0];
        assert(join_post(pre, post, pid, join_key, password, nm, em));
        assert(joinable(pre.rooms[i], join_key, password));
        assert(!roster_has_pid(pre.rooms[i].roster, pid));
        let i2 = choose|i2: int|
            #[trigger] first_joinable(pre.rooms, join_key, password, i2) && if roster_has_pid(
                pre.rooms[i2].roster,
                pid,
            ) {
                post.rooms == pre.rooms && em == join_emissions(pre.rooms[i2], pid, nm)
            } else {
                exists|mid: Seq<RoomView>|
                    {
                        &&& #[trigger] leave_rel(pre.rooms, mid, pid)
                        &&& mid.len() == pre.rooms.len()
                        &&& post.rooms == mid.update(
                            i2,
                            (RoomView {
                                roster: pre.rooms[i2].roster.push((pid, nm)),
                                ..pre.rooms[i2]
                            }),
                        )
                        &&& em == join_emissions(post.rooms[i2], pid, nm)
                    }
            };
        lemma_first_joinable_unique(pre.rooms, join_key, password, i, i2);
        let mid = choose|mid: Seq<RoomView>|
            {
                &&& #[trigger] leave_rel(pre.rooms, mid, pid)
                &&& mid.len() == pre.rooms.len()
                &&& post.rooms == mid.update(
                    i,
                    (RoomView { roster: pre.rooms[i].roster.push((pid, nm)), ..pre.rooms[i] }),
                )
                &&& em == join_emissions(post.rooms[i], pid, nm)
            };
        assert(post.rooms.len() == pre.rooms.len());
        assert(post.rooms[i].roster.len() == pre.rooms[i].roster.len() + 1);
        assert forall|j: int| 0 <= j < pre.rooms.len() implies #[trigger] post.rooms[j].info
            == pre.rooms[j].info && post.rooms[j].password == pre.rooms[j].password by {
            if j != i {
                assert(post.rooms[j] == mid[j]);
                if !(!registry_has_pid(pre.rooms, pid) && mid == pre.rooms) {
                    let (w, kk) = choose|w: int, kk: int|
                        0 <= w < pre.rooms.len() && 0 <= kk < pre.rooms[w].roster.len()
                            && #[trigger] pre.rooms[w].roster[kk].0 == pid && mid
                            == pre.rooms.update(
                            w,
                            (RoomView { roster: pre.rooms[w].roster.remove(kk), ..pre.rooms[w] }),
                        );
                    if j == w {
                        assert(mid[j].info == pre.rooms[j].info);
                        assert(mid[j].password == pre.rooms[j].password);
                    } else {
                        assert(mid[j] == pre.rooms[j]);
                    }
                }
            }
        }
        assert(first_joinable(post.rooms, join_key, password, i)) by {
            assert(joinable(post.rooms[i], join_key, password));
            assert forall|j: int| 0 <= j < i implies !joinable(
                #[trigger] post.rooms[j],
                join_key,
                password,
            ) by {
                assert(post.rooms[j].info == pre.rooms[j].info);
                assert(post.rooms[j].password == pre.rooms[j].password);
            }
        }
        let rest_states = states.drop_first();
        let rest_joiners = joiners.drop_first();
        let rest_emseq = emseq.drop_first();
        assert(rest_states.len() == rest_joiners.len() + 1);
        assert(rest_states[0] == states[1]);
        assert(0 <= i < rest_states[0].rooms.len());
        assert(first_joinable(rest_states[0].rooms, join_key, password, i));
        assert forall|k: int| #![trigger rest_joiners[k], rest_states[k]]
            0 <= k < rest_joiners.len() implies !roster_has_pid(
            rest_states[k].rooms[i].roster,
            rest_joiners[k].0,
        ) by {
            assert(rest_states[k] == states[k + 1]);
            assert(rest_joiners[k] == joiners[k + 1]);
        }
        assert forall|k: int| #![trigger rest_joiners[k], rest_states[k], rest_emseq[k]]
            0 <= k < rest_joiners.len() implies join_post(
            rest_states[k],
            rest_states[k + 1],
            rest_joiners[k].0,
            join_key,
            password,
            rest_joiners[k].1,
            rest_emseq[k],
        ) by {
            assert(rest_states[k] == states[k + 1]);
            assert(rest_states[k + 1] == states[k + 2]);
            assert(rest_joiners[k] == joiners[k + 1]);
            assert(rest_emseq[k] == emseq[k + 1]);
            assert(join_post(
                states[k + 1],
                states[k + 2],
                joiners[k + 1].0,
                join_key,
                password,
                joiners[k + 1].1,
                emseq[k + 1],
            ));
        }
        lemma_member_count_after_joins(rest_states, i, join_key, password, rest_joiners, rest_emseq);
        assert(rest_states[rest_states.len() - 1] == states[states.len() - 1]);
    }
}

/// What a chat frame does: the server stores nothing; every member of the
/// sender's room except the sender hears the content, verbatim and opaque,
/// under the sender's display name. A sender in no room is ignored.
pub open spec fn chat_post(
    pre: ServerView,
    post: ServerView,
    pid: Seq<char>,
    content: Seq<char>,
    emissions: Seq<(Seq<char>, ServerMessageView)>,
) -> bool {
    &&& post == pre
    &&& if registry_has_pid(pre.rooms, pid) {
        exists|i: int|
            0 <= i < pre.rooms.len() && #[trigger] roster_has_pid(pre.rooms[i].roster, pid)
                && emissions == fanout(
                roster_except(pre.rooms[i].roster, pid),
                ServerMessageView::ChatMessage {
                    sender: roster_name_of(pre.rooms[i].roster, pid),
                    content,
                },
            )
    } else {
        emissions.len() == 0
    }
}

/// What a member-list request does: the sender, when in a room, hears its
/// display names in roster order; otherwise nothing.
pub open spec fn get_members_post(
    pre: ServerView,
    post: ServerView,
    pid: Seq<char>,
    emissions: Seq<(Seq<char>, ServerMessageView)>,
) -> bool {
    &&& post == pre
    &&& if registry_has_pid(pre.rooms, pid) {
        exists|i: int|
            0 <= i < pre.rooms.len() && #[trigger] roster_has_pid(pre.rooms[i].roster, pid)
                && emissions == seq![
                (
                    pid,
                    ServerMessageView::MemberList {
                        members: roster_names(pre.rooms[i].roster),
                    },
                ),
            ]
    } else {
        emissions.len() == 0
    }
}

/// The body of the chat message the server synthesizes for an upload.
pub open spec fn file_link_text(name: Seq<char>, id: Seq<char>) -> Seq<char> {
    "[File: "@ + name + "](/files/"@ + id + ")"@
}

/// What an upload frame does. Undecodable base64 and oversize content each
/// earn the sender one error; a drawn file id some entry already carries is
/// dropped like a malformed frame. Otherwise the store takes the upload (or
/// deduplicates it), the sender's room — when they sit in one — hears a
/// synthesized chat line linking the file, and the sender hears the
/// metadata.
pub open spec fn upload_post(
    pre: ServerView,
    post: ServerView,
    pid: Seq<char>,
    name: Seq<char>,
    mime: Seq<char>,
    content_b64: Seq<char>,
    file_id: Seq<char>,
    now: u64,
    emissions: Seq<(Seq<char>, ServerMessageView)>,
) -> bool {
    &&& post.rooms == pre.rooms
    &&& post.connections == pre.connections
    &&& match b64_decode_of(content_b64) {
        None => post.files == pre.files && emissions == seq![
            (pid, ServerMessageView::Error { message: "Invalid file data"@ }),
        ],
        Some(bytes) => {
            if store_has_id(pre.files, file_id) {
                post.files == pre.files && emissions.len() == 0
            } else if bytes.len() > MAX_FILE_SIZE {
                post.files == pre.files && emissions == seq![
                    (
                        pid,
                        ServerMessageView::Error {
                            message: "File size exceeds maximum allowed size"@,
                        },
                    ),
                ]
            } else {
                exists|meta: FileMetadataView|
                    {
                        &&& #[trigger] file_upload_rel(
                            pre.files,
                            post.files,
                            file_id,
                            name,
                            mime,
                            bytes,
                            now,
                            meta,
                        )
                        &&& if registry_has_pid(pre.rooms, pid) {
                            exists|i: int|
                                0 <= i < pre.rooms.len() && #[trigger] roster_has_pid(
                                    pre.rooms[i].roster,
                                    pid,
                                ) && emissions == fanout(
                                    pre.rooms[i].roster,
                                    ServerMessageView::ChatMessage {
                                        sender: pid,
                                        content: file_link_text(meta.name, meta.id),
                                    },
                                ) + seq![
                                    (pid, ServerMessageView::FileUploaded { metadata: meta }),
                                ]
                        } else {
                            emissions == seq![
                                (pid, ServerMessageView::FileUploaded { metadata: meta }),
                            ]
                        }
                    }
            }
        },
    }
}

/// What a file request does: an unexpired entry under the id earns the
/// sender its metadata and base64 content; anything else — no entry, or one
/// past its expiry — earns one error.
pub open spec fn get_file_post(
    pre: ServerView,
    post: ServerView,
    pid: Seq<char>,
    file_id: Seq<char>,
    now: u64,
    emissions: Seq<(Seq<char>, ServerMessageView)>,
) -> bool {
    &&& post == pre
    &&& if (forall|j: int|
        0 <= j < pre.files.len() && #[trigger] pre.files[j].metadata.id == file_id ==> now
            > pre.files[j].metadata.expires_at) {
        emissions == seq![
            (pid, ServerMessageView::Error { message: "File not found or expired"@ }),
        ]
    } else {
        exists|j: int|
            0 <= j < pre.files.len() && #[trigger] pre.files[j].metadata.id == file_id && now
                <= pre.files[j].metadata.expires_at && emissions == seq![
                (
                    pid,
                    ServerMessageView::FileContent {
                        metadata: pre.files[j].metadata,
                        content: b64_encode_of(pre.files[j].content),
                    },
                ),
            ]
    }
}

/// What a create-room frame does under the ids the dispatcher drew: if the
/// drawn room id collides with a live room, nothing; else a fresh room with
/// the sender as first member.
pub open spec fn created_with(
    pre: ServerView,
    post: ServerView,
    pid: Seq<char>,
    name: Seq<char>,
    description: Seq<char>,
    password: Option<Seq<char>>,
    user_name: Seq<char>,
    room_id: Seq<char>,
    encryption_key: Seq<char>,
    emissions: Seq<(Seq<char>, ServerMessageView)>,
) -> bool {
    if registry_has_room_id(pre.rooms, room_id) {
        post == pre && emissions.len() == 0
    } else {
        create_post(
            pre,
            post,
            pid,
            name,
            description,
            password,
            user_name,
            room_id,
            encryption_key,
            emissions,
        )
    }
}

/// Builds the chat line that links an upload: `[File: <name>](/files/<id>)`.
pub fn build_file_link(name: &str, id: &str) -> (r: String)
    ensures
        r@ == file_link_text(name@, id@),
{
    let mut out = String::from_str("[File: ");
    out.append(name);
    out.append("](/files/");
    out.append(id);
    out.append(")");
    out
}

impl Server {
    /// A fresh server with no rooms, no connections, and no files.
    pub fn new() -> (r: Server)
        ensures
            server_wf(r@),
            r@.rooms.len() == 0,
            r@.connections.len() == 0,
            r@.files.len() == 0,
    {
        Server {
            rooms: RoomRegistry::new(),
            connections: ConnectionTable::new(),
            file_manager: FileManager::new(),
        }
    }

    /// Registers a fresh connection's participant id; the transport calls
    /// this at socket upgrade, before any frame is routed.
    pub fn register_connection(&mut self, participant_id: String)
        requires
            server_wf(old(self)@),
        ensures
            server_wf(final (self)@),
            final (self)@.rooms == old(self)@.rooms,
            final (self)@.files == old(self)@.files,
            old(self)@.connections.contains(participant_id@) ==> final (self)@.connections == old(
                self,
            )@.connections,
            !old(self)@.connections.contains(participant_id@) ==> final (self)@.connections == old(
                self,
            )@.connections.push(participant_id@),
            final (self)@.connections.contains(participant_id@),
    {
        let ghost pre = self@;
        self.connections.insert(participant_id);
        proof {
            assert forall|pid: Seq<char>| #[trigger]
                registry_has_pid(self@.rooms, pid) implies self@.connections.contains(pid) by {
                assert(pre.connections.contains(pid));
                if !pre.connections.contains(pre.connections[0]) {
                }
                if self@.connections != pre.connections {
                    let m = choose|m: int|
                        0 <= m < pre.connections.len() && pre.connections[m] == pid;
                    assert(self@.connections[m] == pid);
                }
            }
        }
    }

    /// Cleans up after a closed connection: takes the participant out of
    /// their room, tells the remaining members, and drops the sink entry.
    /// Calling it again for the same id is a no-op with no emissions.
    pub fn handle_disconnect(&mut self, participant_id: &str) -> (emissions: Vec<
        (String, ServerMessage),
    >)
        requires
            server_wf(old(self)@),
        ensures
            server_wf(final (self)@),
            disconnect_post(old(self)@, final (self)@, participant_id@, emissions_view(emissions@)),
            !final (self)@.connections.contains(participant_id@),
            !registry_has_pid(final (self)@.rooms, participant_id@),
    {
        let ghost pre = self@;
        let mut emissions: Vec<(String, ServerMessage)> = Vec::new();
        let left = self.rooms.leave(participant_id);
        match left {
            Some((i, name)) => {
                let roster = self.rooms.get_room(i).get_participants();
                let departure = ServerMessage::ParticipantLeft { name };
                let mut note = fanout_except(&roster, &departure, None);
                let members = self.rooms.get_room(i).member_names();
                let list = ServerMessage::MemberList { members };
                let mut snapshot = fanout_except(&roster, &list, None);
                let ghost note_view = emissions_view(note@);
                let ghost snapshot_view = emissions_view(snapshot@);
                emissions.append(&mut note);
                emissions.append(&mut snapshot);
                proof {
                    assert(emissions_view(emissions@) =~= note_view + snapshot_view);
                }
            },
            None => {
                proof {
                    assert(emissions_view(emissions@) =~= Seq::<
                        (Seq<char>, ServerMessageView),
                    >::empty());
                }
            },
        }
        let ghost mid = self@;
        self.connections.remove(participant_id);
        proof {
            assert(self@.rooms == mid.rooms);
            assert forall|pid: Seq<char>| #[trigger]
                registry_has_pid(self@.rooms, pid) implies self@.connections.contains(pid) by {
                lemma_leave_rel_has_pid(pre.rooms, self@.rooms, participant_id@, pid);
                assert(registry_has_pid(pre.rooms, pid));
                assert(pre.connections.contains(pid));
                lemma_conn_remove_keeps_others(
                    pre.connections,
                    self@.connections,
                    participant_id@,
                    pid,
                );
            }
        }
        emissions
    }

    /// Creates a room under a caller-drawn fresh room id and encryption
    /// key: the sender becomes its first member and hears the room's
    /// description and key. A drawn id some live room already carries is
    /// dropped like a malformed frame.
    pub fn route_create_room(
        &mut self,
        participant_id: &str,
        name: String,
        description: String,
        password: Option<String>,
        user_name: String,
        room_id: String,
        encryption_key: String,
    ) -> (emissions: Vec<(String, ServerMessage)>)
        requires
            server_wf(old(self)@),
            old(self)@.connections.contains(participant_id@),
        ensures
            server_wf(final (self)@),
            registry_has_room_id(old(self)@.rooms, room_id@) ==> final (self)@ == old(self)@
                && emissions@.len() == 0,
            !registry_has_room_id(old(self)@.rooms, room_id@) ==> create_post(
                old(self)@,
                final (self)@,
                participant_id@,
                name@,
                description@,
                opt_string_view(password),
                user_name@,
                room_id@,
                encryption_key@,
                emissions_view(emissions@),
            ),
    {
        let mut emissions: Vec<(String, ServerMessage)> = Vec::new();
        if self.rooms.has_room_id(room_id.as_str()) {
            return emissions;
        }
        let ghost pre = self@;
        let ghost pid_view = participant_id@;
        let ghost user_name_view = user_name@;
        let departed = self.rooms.leave(participant_id);
        let ghost mid = self@.rooms;
        proof {
            assert(leave_rel(pre.rooms, mid, pid_view));
            assert(mid.len() == pre.rooms.len());
            assert forall|j: int| 0 <= j < mid.len() implies #[trigger] mid[j].info
                == pre.rooms[j].info by {
                match departed {
                    Some((w, _)) => {
                        if j != w as int {
                            assert(mid[j] == pre.rooms[j]);
                        }
                    },
                    None => {},
                }
            }
            if registry_has_room_id(mid, room_id@) {
                let j = choose|j: int| 0 <= j < mid.len() && #[trigger] mid[j].info.id == room_id@;
                assert(pre.rooms[j].info.id == room_id@);
            }
        }
        let room = Room::new(room_id, name, description, password, encryption_key.clone());
        let info = room.get_info();
        let ghost room_empty = room@;
        self.rooms.insert_room(room);
        proof {
            if registry_has_pid(self@.rooms, pid_view) {
                let j = choose|j: int|
                    0 <= j < self@.rooms.len() && roster_has_pid(
                        #[trigger] self@.rooms[j].roster,
                        pid_view,
                    );
                if j < mid.len() {
                    assert(roster_has_pid(mid[j].roster, pid_view));
                }
            }
        }
        let idx = self.rooms.room_count() - 1;
        self.rooms.add_participant_at(idx, participant_id.to_owned(), user_name);
        let ghost post_rooms = self@.rooms;
        let ghost full_room = RoomView {
            roster: seq![(pid_view, user_name_view)],
            ..room_empty
        };
        proof {
            assert(room_empty.roster.push((pid_view, user_name_view)) =~= seq![
                (pid_view, user_name_view),
            ]);
            assert(post_rooms =~= mid.push(full_room));
            assert(full_room.info =~= (RoomInfoView {
                id: room_id@,
                name: name@,
                description: description@,
                has_password: opt_string_view(password) is Some,
                join_key: join_key_of(room_id@, opt_string_view(password)),
            }));
            assert(full_room =~= (RoomView {
                info: full_room.info,
                password: opt_string_view(password),
                encryption_key: encryption_key@,
                roster: seq![(pid_view, user_name_view)],
            }));
        }
        emissions.push(
            (
                participant_id.to_owned(),
                ServerMessage::RoomCreated { room_info: info, encryption_key },
            ),
        );
        let roster = self.rooms.get_room(idx).get_participants();
        let members = self.rooms.get_room(idx).member_names();
        let list = ServerMessage::MemberList { members };
        let mut snapshot = fanout_except(&roster, &list, None);
        let ghost head = emissions_view(emissions@);
        let ghost snapshot_view = emissions_view(snapshot@);
        emissions.append(&mut snapshot);
        proof {
            assert(emissions_view(emissions@) =~= head + snapshot_view);
            assert(roster_names(full_room.roster) =~= seq![user_name_view]);
            assert(fanout(full_room.roster, ServerMessageView::MemberList {
                members: seq![user_name_view],
            }) =~= seq![
                (
                    pid_view,
                    ServerMessageView::MemberList { members: seq![user_name_view] },
                ),
            ]);
            assert(emissions_view(emissions@) =~= seq![
                (
                    pid_view,
                    ServerMessageView::RoomCreated {
                        room_info: full_room.info,
                        encryption_key: encryption_key@,
                    },
                ),
                (
                    pid_view,
                    ServerMessageView::MemberList { members: seq![user_name_view] },
                ),
            ]);
            assert forall|pid: Seq<char>| #[trigger]
                registry_has_pid(self@.rooms, pid) implies self@.connections.contains(pid) by {
                let j = choose|j: int|
                    0 <= j < self@.rooms.len() && roster_has_pid(
                        #[trigger] self@.rooms[j].roster,
                        pid,
                    );
                if j == self@.rooms.len() - 1 {
                    let k = choose|k: int|
                        0 <= k < full_room.roster.len() && #[trigger] full_room.roster[k].0 == pid;
                    assert(pid == pid_view);
                } else {
                    assert(self@.rooms[j] == mid[j]);
                    lemma_leave_rel_has_pid(pre.rooms, mid, pid_view, pid);
                    assert(registry_has_pid(pre.rooms, pid));
                }
            }
        }
        emissions
    }

    /// Admits the sender to the first room whose join key and password
    /// match, moving them out of any room they sat in before; admission of
    /// a participant already in the room changes nothing. With no matching
    /// room the sender hears one error that deliberately conflates a wrong
    /// password with a missing room.
    pub fn route_join_room(
        &mut self,
        participant_id: &str,
        join_key: String,
        password: Option<String>,
        name: String,
    ) -> (emissions: Vec<(String, ServerMessage)>)
        requires
            server_wf(old(self)@),
            old(self)@.connections.contains(participant_id@),
        ensures
            server_wf(final (self)@),
            join_post(
                old(self)@,
                final (self)@,
                participant_id@,
                join_key@,
                opt_string_view(password),
                name@,
                emissions_view(emissions@),
            ),
    {
        let ghost pre = self@;
        let ghost pid_view = participant_id@;
        let ghost pw_view = opt_string_view(password);
        let pw_ref = match &password {
            Some(p) => Some(p.as_str()),
            None => None,
        };
        let found = self.rooms.find_joinable(join_key.as_str(), pw_ref);
        proof {
            assert(crate::crypto::opt_str_view(pw_ref) == pw_view);
        }
        match found {
            None => {
                let mut emissions: Vec<(String, ServerMessage)> = Vec::new();
                emissions.push(
                    (
                        participant_id.to_owned(),
                        ServerMessage::Error {
                            message: String::from_str("Invalid room key or password"),
                        },
                    ),
                );
                proof {
                    assert(emissions_view(emissions@) =~= seq![
                        (
                            pid_view,
                            ServerMessageView::Error {
                                message: "Invalid room key or password"@,
                            },
                        ),
                    ]);
                }
                emissions
            },
            Some(i) => {
                let ghost ii = i as int;
                proof {
                    assert(first_joinable(pre.rooms, join_key@, pw_view, ii));
                }
                let already = self.rooms.get_room(i).contains_participant(participant_id);
                if !already {
                    let departed = self.rooms.leave(participant_id);
                    let ghost mid = self@.rooms;
                    proof {
                        assert(leave_rel(pre.rooms, mid, pid_view));
                        match departed {
                            Some((w, _)) => {
                                assert(w as int != ii);
                                assert(mid[ii] == pre.rooms[ii]);
                            },
                            None => {},
                        }
                    }
                    self.rooms.add_participant_at(i, participant_id.to_owned(), name.clone());
                    proof {
                        assert(self@.rooms =~= mid.update(
                            ii,
                            (RoomView {
                                roster: pre.rooms[ii].roster.push((pid_view, name@)),
                                ..pre.rooms[ii]
                            }),
                        ));
                    }
                }
                let ghost post_room = self@.rooms[ii];
                let info = self.rooms.get_room(i).get_info();
                let key = self.rooms.get_room(i).get_encryption_key().to_owned();
                let members = self.rooms.get_room(i).member_names();
                let roster = self.rooms.get_room(i).get_participants();
                let mut emissions: Vec<(String, ServerMessage)> = Vec::new();
                emissions.push(
                    (
                        participant_id.to_owned(),
                        ServerMessage::RoomJoined {
                            room_info: info,
                            encryption_key: key,
                            participants: members,
                        },
                    ),
                );
                let arrival_msg = ServerMessage::ParticipantJoined { name };
                let mut arrival = fanout_except(&roster, &arrival_msg, Some(participant_id));
                let list = ServerMessage::MemberList {
                    members: self.rooms.get_room(i).member_names(),
                };
                let mut snapshot = fanout_except(&roster, &list, None);
                let ghost head = emissions_view(emissions@);
                let ghost arrival_view = emissions_view(arrival@);
                let ghost snapshot_view = emissions_view(snapshot@);
                emissions.append(&mut arrival);
                emissions.append(&mut snapshot);
                proof {
                    assert(emissions_view(emissions@) =~= head + arrival_view + snapshot_view);
                    assert(head =~= seq![
                        (
                            pid_view,
                            ServerMessageView::RoomJoined {
                                room_info: post_room.info,
                                encryption_key: post_room.encryption_key,
                                participants: roster_names(post_room.roster),
                            },
                        ),
                    ]);
                    assert(emissions_view(emissions@) =~= join_emissions(
                        post_room,
                        pid_view,
                        name@,
                    ));
                    if !roster_has_pid(pre.rooms[ii].roster, pid_view) {
                        assert(self@.rooms[ii] == post_room);
                    }
                    assert forall|pid: Seq<char>| #[trigger]
                        registry_has_pid(self@.rooms, pid) implies self@.connections.contains(
                        pid,
                    ) by {
                        let j = choose|j: int|
                            0 <= j < self@.rooms.len() && roster_has_pid(
                                #[trigger] self@.rooms[j].roster,
                                pid,
                            );
                        if roster_has_pid(pre.rooms[ii].roster, pid_view) {
                            assert(self@.rooms == pre.rooms);
                            assert(pre.connections.contains(pid));
                        } else {
                            if j == ii {
                                lemma_roster_push_has_pid(
                                    pre.rooms[ii].roster,
                                    (pid_view, name@),
                                    pid,
                                );
                                if pid != pid_view {
                                    assert(roster_has_pid(pre.rooms[ii].roster, pid));
                                    assert(registry_has_pid(pre.rooms, pid));
                                }
                            } else {
                                let ghost mid2 = choose|mid2: Seq<RoomView>|
                                    #[trigger] leave_rel(pre.rooms, mid2, pid_view) && self@.rooms
                                        == mid2.update(
                                        ii,
                                        (RoomView {
                                            roster: pre.rooms[ii].roster.push((pid_view, name@)),
                                            ..pre.rooms[ii]
                                        }),
                                    );
                                assert(self@.rooms[j] == mid2[j]);
                                lemma_leave_rel_has_pid(pre.rooms, mid2, pid_view, pid);
                                assert(registry_has_pid(pre.rooms, pid));
                            }
                        }
                    }
                }
                emissions
            },
        }
    }

    /// Relays a chat message to the other members of the sender's room.
    /// The server never inspects the content.
    pub fn route_chat_message(&self, participant_id: &str, content: String) -> (emissions: Vec<
        (String, ServerMessage),
    >)
        requires
            server_wf(self@),
        ensures
            chat_post(self@, self@, participant_id@, content@, emissions_view(emissions@)),
    {
        match self.rooms.room_of(participant_id) {
            Some(i) => {
                let sender = match self.rooms.get_room(i).participant_name(participant_id) {
                    Some(nm) => nm,
                    None => {
                        proof {
                            assert(false);
                        }
                        String::new()
                    },
                };
                let roster = self.rooms.get_room(i).get_participants();
                let message = ServerMessage::ChatMessage { sender, content };
                let emissions = fanout_except(&roster, &message, Some(participant_id));
                emissions
            },
            None => {
                let emissions: Vec<(String, ServerMessage)> = Vec::new();
                proof {
                    assert(emissions_view(emissions@) =~= Seq::<
                        (Seq<char>, ServerMessageView),
                    >::empty());
                }
                emissions
            },
        }
    }

    /// Answers a member-list request with the sender's room roster names.
    pub fn route_get_members(&self, participant_id: &str) -> (emissions: Vec<
        (String, ServerMessage),
    >)
        requires
            server_wf(self@),
        ensures
            get_members_post(self@, self@, participant_id@, emissions_view(emissions@)),
    {
        match self.rooms.room_of(participant_id) {
            Some(i) => {
                let members = self.rooms.get_room(i).member_names();
                let mut emissions: Vec<(String, ServerMessage)> = Vec::new();
                emissions.push(
                    (participant_id.to_owned(), ServerMessage::MemberList { members }),
                );
                proof {
                    assert(emissions_view(emissions@) =~= seq![
                        (
                            participant_id@,
                            ServerMessageView::MemberList {
                                members: roster_names(self@.rooms[i as int].roster),
                            },
                        ),
                    ]);
                }
                emissions
            },
            None => {
                let emissions: Vec<(String, ServerMessage)> = Vec::new();
                proof {
                    assert(emissions_view(emissions@) =~= Seq::<
                        (Seq<char>, ServerMessageView),
                    >::empty());
                }
                emissions
            },
        }
    }

    /// Stores an upload under a caller-drawn fresh file id, announces it to
    /// the sender's room as a synthesized chat line, and returns the
    /// metadata to the sender. Undecodable or oversize content earns the
    /// sender one error instead; a drawn id already in the store is dropped
    /// like a malformed frame.
    pub fn route_upload_file(
        &mut self,
        participant_id: &str,
        name: String,
        mime_type: String,
        content: String,
        file_id: String,
        now_ms: u64,
    ) -> (emissions: Vec<(String, ServerMessage)>)
        requires
            server_wf(old(self)@),
        ensures
            server_wf(final (self)@),
            upload_post(
                old(self)@,
                final (self)@,
                participant_id@,
                name@,
                mime_type@,
                content@,
                file_id@,
                now_ms,
                emissions_view(emissions@),
            ),
    {
        let ghost pre = self@;
        let ghost pid_view = participant_id@;
        let mut emissions: Vec<(String, ServerMessage)> = Vec::new();
        let bytes = match crate::encoding::b64_decode(content.as_str()) {
            Some(v) => v,
            None => {
                emissions.push(
                    (
                        participant_id.to_owned(),
                        ServerMessage::Error { message: String::from_str("Invalid file data") },
                    ),
                );
                proof {
                    assert(emissions_view(emissions@) =~= seq![
                        (
                            pid_view,
                            ServerMessageView::Error { message: "Invalid file data"@ },
                        ),
                    ]);
                }
                return emissions;
            },
        };
        if self.file_manager.contains_id(file_id.as_str()) {
            proof {
                assert(emissions_view(emissions@) =~= Seq::<
                    (Seq<char>, ServerMessageView),
                >::empty());
            }
            return emissions;
        }
        let ghost bytes_view = bytes@;
        let ghost fid_view = file_id@;
        let ghost name_view = name@;
        let ghost mime_view = mime_type@;
        let metadata = match self.file_manager.upload_file(
            file_id,
            name,
            mime_type,
            bytes,
            now_ms,
        ) {
            Ok(m) => m,
            Err(e) => {
                emissions.push(
                    (participant_id.to_owned(), ServerMessage::Error { message: e.message() }),
                );
                proof {
                    assert(emissions_view(emissions@) =~= seq![
                        (
                            pid_view,
                            ServerMessageView::Error {
                                message: "File size exceeds maximum allowed size"@,
                            },
                        ),
                    ]);
                }
                return emissions;
            },
        };
        let ghost meta_view = metadata@;
        proof {
            assert(file_upload_rel(
                pre.files,
                self@.files,
                fid_view,
                name_view,
                mime_view,
                bytes_view,
                now_ms,
                meta_view,
            ));
        }
        match self.rooms.room_of(participant_id) {
            Some(i) => {
                let roster = self.rooms.get_room(i).get_participants();
                let link = build_file_link(metadata.name.as_str(), metadata.id.as_str());
                let note = ServerMessage::ChatMessage {
                    sender: participant_id.to_owned(),
                    content: link,
                };
                let mut broadcast = fanout_except(&roster, &note, None);
                let ghost broadcast_view = emissions_view(broadcast@);
                emissions.append(&mut broadcast);
                emissions.push(
                    (participant_id.to_owned(), ServerMessage::FileUploaded { metadata }),
                );
                proof {
                    assert(emissions_view(emissions@) =~= broadcast_view + seq![
                        (
                            pid_view,
                            ServerMessageView::FileUploaded { metadata: meta_view },
                        ),
                    ]);
                }
            },
            None => {
                emissions.push(
                    (participant_id.to_owned(), ServerMessage::FileUploaded { metadata }),
                );
                proof {
                    assert(emissions_view(emissions@) =~= seq![
                        (
                            pid_view,
                            ServerMessageView::FileUploaded { metadata: meta_view },
                        ),
                    ]);
                }
            },
        }
        emissions
    }

    /// Answers a file request with the metadata and base64 content of an
    /// unexpired upload, or with one error.
    pub fn route_get_file(&self, participant_id: &str, file_id: &str, now_ms: u64) -> (emissions:
        Vec<(String, ServerMessage)>)
        requires
            server_wf(self@),
        ensures
            get_file_post(
                self@,
                self@,
                participant_id@,
                file_id@,
                now_ms,
                emissions_view(emissions@),
            ),
    {
        let mut emissions: Vec<(String, ServerMessage)> = Vec::new();
        match self.file_manager.get_file(file_id, now_ms) {
            Some((metadata, bytes)) => {
                let content = crate::encoding::b64_encode(bytes.as_slice());
                let ghost meta_view = metadata@;
                let ghost content_view = content@;
                emissions.push(
                    (
                        participant_id.to_owned(),
                        ServerMessage::FileContent { metadata, content },
                    ),
                );
                proof {
                    assert(emissions_view(emissions@) =~= seq![
                        (
                            participant_id@,
                            ServerMessageView::FileContent {
                                metadata: meta_view,
                                content: content_view,
                            },
                        ),
                    ]);
                }
            },
            None => {
                emissions.push(
                    (
                        participant_id.to_owned(),
                        ServerMessage::Error {
                            message: String::from_str("File not found or expired"),
                        },
                    ),
                );
                proof {
                    assert(emissions_view(emissions@) =~= seq![
                        (
                            participant_id@,
                            ServerMessageView::Error { message: "File not found or expired"@ },
                        ),
                    ]);
                }
            },
        }
        emissions
    }

    /// Applies one client frame: draws whatever fresh random ids the frame
    /// needs, makes the state transition, and returns the ordered
    /// (recipient, message) emissions for the transport to deliver. In the
    /// vanishingly unlikely case that a drawn UUID collides with a live
    /// room or file id, the frame is dropped like a malformed one rather
    /// than overwriting the live entry.
    pub fn handle_client_message(
        &mut self,
        participant_id: &str,
        message: ClientMessage,
        now_ms: u64,
    ) -> (emissions: Vec<(String, ServerMessage)>)
        requires
            server_wf(old(self)@),
            old(self)@.connections.contains(participant_id@),
        ensures
            server_wf(final (self)@),
            match message {
                ClientMessage::CreateRoom { name, description, password, user_name } => exists|
                    room_id: Seq<char>,
                    encryption_key: Seq<char>,
                |
                    room_id.len() == 36 && #[trigger] created_with(
                        old(self)@,
                        final (self)@,
                        participant_id@,
                        name@,
                        description@,
                        opt_string_view(password),
                        user_name@,
                        room_id,
                        encryption_key,
                        emissions_view(emissions@),
                    ),
                ClientMessage::JoinRoom { join_key, password, name } => join_post(
                    old(self)@,
                    final (self)@,
                    participant_id@,
                    join_key@,
                    opt_string_view(password),
                    name@,
                    emissions_view(emissions@),
                ),
                ClientMessage::LeaveRoom => disconnect_post(
                    old(self)@,
                    final (self)@,
                    participant_id@,
                    emissions_view(emissions@),
                ),
                ClientMessage::ChatMessage { content } => chat_post(
                    old(self)@,
                    final (self)@,
                    participant_id@,
                    content@,
                    emissions_view(emissions@),
                ),
                ClientMessage::GetMembers => get_members_post(
                    old(self)@,
                    final (self)@,
                    participant_id@,
                    emissions_view(emissions@),
                ),
                ClientMessage::UploadFile { name, mime_type, content } => exists|
                    file_id: Seq<char>,
                |
                    file_id.len() == 36 && #[trigger] upload_post(
                        old(self)@,
                        final (self)@,
                        participant_id@,
                        name@,
                        mime_type@,
                        content@,
                        file_id,
                        now_ms,
                        emissions_view(emissions@),
                    ),
                ClientMessage::GetFile { file_id } => get_file_post(
                    old(self)@,
                    final (self)@,
                    participant_id@,
                    file_id@,
                    now_ms,
                    emissions_view(emissions@),
                ),
            },
    {
        match message {
            ClientMessage::CreateRoom { name, description, password, user_name } => {
                let room_id = crate::randomness::generate_uuid_string();
                let pair = crate::crypto::RoomCrypto::new();
                let encryption_key = pair.1;
                let ghost rid_view = room_id@;
                let ghost key_view = encryption_key@;
                let emissions = self.route_create_room(
                    participant_id,
                    name,
                    description,
                    password,
                    user_name,
                    room_id,
                    encryption_key,
                );
                proof {
                    assert(rid_view.len() == 36);
                    assert(created_with(
                        old(self)@,
                        self@,
                        participant_id@,
                        name@,
                        description@,
                        opt_string_view(password),
                        user_name@,
                        rid_view,
                        key_view,
                        emissions_view(emissions@),
                    ));
                }
                emissions
            },
            ClientMessage::JoinRoom { join_key, password, name } => self.route_join_room(
                participant_id,
                join_key,
                password,
                name,
            ),
            ClientMessage::LeaveRoom => self.handle_disconnect(participant_id),
            ClientMessage::ChatMessage { content } => self.route_chat_message(
                participant_id,
                content,
            ),
            ClientMessage::GetMembers => self.route_get_members(participant_id),
            ClientMessage::UploadFile { name, mime_type, content } => {
                let file_id = crate::randomness::generate_uuid_string();
                let ghost fid_view = file_id@;
                let emissions = self.route_upload_file(
                    participant_id,
                    name,
                    mime_type,
                    content,
                    file_id,
                    now_ms,
                );
                proof {
                    assert(fid_view.len() == 36);
                }
                emissions
            },
            ClientMessage::GetFile { file_id } => self.route_get_file(
                participant_id,
                file_id.as_str(),
                now_ms,
            ),
        }
    }

    /// Builds one synthetic chat frame of random alphanumeric noise: a
    /// seven-character sender and twenty characters of content. Optional
    /// traffic chaff, kept apart from real frames; operators gate its use.
    pub fn generate_fake_message(&self) -> (m: ServerMessage)
        ensures
            exists|s: Seq<char>, c: Seq<char>|
                m@ == (ServerMessageView::ChatMessage { sender: s, content: c }) && s.len() == 7
                    && c.len() == 20,
    {
        let sender = crate::randomness::random_alphanumeric(7);
        let content = crate::randomness::random_alphanumeric(20);
        let ghost s_view = sender@;
        let ghost c_view = content@;
        let m = ServerMessage::ChatMessage { sender, content };
        proof {
            assert(m@ == (ServerMessageView::ChatMessage { sender: s_view, content: c_view }));
        }
        m
    }

    /// Addresses one copy of a message to every live connection, in
    /// registration order.
    pub fn send_fake_message(&self, message: &ServerMessage) -> (emissions: Vec<
        (String, ServerMessage),
    >)
        ensures
            emissions_view(emissions@) == fanout_ids(self@.connections, message@),
    {
        let ids = self.connections.all_ids();
        let n = ids.len();
        let mut out: Vec<(String, ServerMessage)> = Vec::new();
        let mut i: usize = 0;
        proof {
            assert(emissions_view(out@) =~= fanout_ids(self@.connections.take(0), message@));
        }
        while i < n
            invariant
                n == ids@.len(),
                names_view(ids@) == self@.connections,
                i <= n,
                out@.len() == i,
                emissions_view(out@) =~= fanout_ids(self@.connections.take(i as int), message@),
            decreases n - i,
        {
            let ghost out_prev = out@;
            let recipient = ids[i].clone();
            out.push((recipient, message.clone()));
            proof {
                assert(out@ =~= out_prev.push(out@[out@.len() - 1]));
                assert(names_view(ids@)[i as int] == ids@[i as int]@);
                assert(out@[out@.len() - 1].0@ == self@.connections[i as int]);
                assert(out@[out@.len() - 1].1@ == message@);
                assert forall|k: int| 0 <= k < out@.len() implies #[trigger] emissions_view(
                    out@,
                )[k] == fanout_ids(self@.connections.take(i + 1 as int), message@)[k] by {
                    assert(emissions_view(out@)[k] == (out@[k].0@, out@[k].1@));
                    assert(fanout_ids(self@.connections.take(i + 1 as int), message@)[k] == (
                        self@.connections.take(i + 1 as int)[k],
                        message@,
                    ));
                    if k < i {
                        assert(out@[k] == out_prev[k]);
                        assert(emissions_view(out_prev)[k] == (out_prev[k].0@, out_prev[k].1@));
                        assert(emissions_view(out_prev)[k] == fanout_ids(
                            self@.connections.take(i as int),
                            message@,
                        )[k]);
                        assert(fanout_ids(self@.connections.take(i as int), message@)[k] == (
                            self@.connections.take(i as int)[k],
                            message@,
                        ));
                    } else {
                        assert(out@[k] == out@[out@.len() - 1]);
                    }
                }
                assert(emissions_view(out@) =~= fanout_ids(
                    self@.connections.take(i + 1 as int),
                    message@,
                ));
            }
            i = i + 1;
        }
        proof {
            assert(self@.connections.take(n as int) =~= self@.connections);
        }
        out
    }

    /// Whether a participant id owns a live connection; the transport
    /// checks this before routing a frame.
    pub fn is_connected(&self, participant_id: &str) -> (r: bool)
        ensures
            r == self@.connections.contains(participant_id@),
    {
        self.connections.contains(participant_id)
    }

    /// Sweeps expired uploads out of the store.
    pub fn cleanup_expired_files(&mut self, now_ms: u64)
        requires
            server_wf(old(self)@),
        ensures
            server_wf(final (self)@),
            final (self)@.rooms == old(self)@.rooms,
            final (self)@.connections == old(self)@.connections,
            final (self)@.files == crate::files::live_entries(old(self)@.files, now_ms),
    {
        self.file_manager.cleanup_expired_files(now_ms);
    }

    /// Retrieves an unexpired upload for the HTTP file path.
    pub fn get_file(&self, file_id: &str, now_ms: u64) -> (r: Option<(FileMetadata, Vec<u8>)>)
        requires
            server_wf(self@),
        ensures
            match r {
                Some(found) => exists|j: int|
                    0 <= j < self@.files.len() && #[trigger] self@.files[j].metadata.id == file_id@
                        && now_ms <= self@.files[j].metadata.expires_at && found.0@
                        == self@.files[j].metadata && found.1@ == self@.files[j].content,
                None => forall|j: int|
                    0 <= j < self@.files.len() && #[trigger] self@.files[j].metadata.id == file_id@
                        ==> now_ms > self@.files[j].metadata.expires_at,
            },
    {
        self.file_manager.get_file(file_id, now_ms)
    }
}

} // verus!
