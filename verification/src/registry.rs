//! The room registry: the set of live rooms, looked up by join key for
//! admission and scanned on departure, under the invariant that a
//! participant id sits in the roster of at most one room.

use vstd::prelude::*;

verus! {

use crate::crypto::opt_str_view;
use crate::room::{
    lemma_roster_push_has_pid, lemma_roster_remove_has_pid, password_matches, room_wf,
    roster_has_pid, roster_name_of, Room, RoomView,
};

/// Room ids never repeat across the registry.
pub open spec fn room_ids_distinct(rs: Seq<RoomView>) -> bool {
    forall|i: int, j: int|
        0 <= i < rs.len() && 0 <= j < rs.len() && #[trigger] rs[i].info.id == #[trigger] rs[j].info.id
            ==> i == j
}

/// A participant id appears in the roster of at most one room.
pub open spec fn rosters_disjoint(rs: Seq<RoomView>) -> bool {
    forall|i: int, j: int, pid: Seq<char>|
        0 <= i < rs.len() && 0 <= j < rs.len() && #[trigger] roster_has_pid(rs[i].roster, pid)
            && #[trigger] roster_has_pid(rs[j].roster, pid) ==> i == j
}

/// A well-formed registry: every room well formed, room ids distinct, and
/// rosters pairwise disjoint.
pub open spec fn registry_wf(rs: Seq<RoomView>) -> bool {
    &&& forall|i: int| 0 <= i < rs.len() ==> room_wf(#[trigger] rs[i])
    &&& room_ids_distinct(rs)
    &&& rosters_disjoint(rs)
}

/// Whether any room's roster holds the given participant id.
pub open spec fn registry_has_pid(rs: Seq<RoomView>, pid: Seq<char>) -> bool {
    exists|i: int| 0 <= i < rs.len() && roster_has_pid(#[trigger] rs[i].roster, pid)
}

/// Whether any room carries the given room id.
pub open spec fn registry_has_room_id(rs: Seq<RoomView>, id: Seq<char>) -> bool {
    exists|i: int| 0 <= i < rs.len() && #[trigger] rs[i].info.id == id
}

/// Whether a room admits the given join key and password.
pub open spec fn joinable(r: RoomView, join_key: Seq<char>, password: Option<Seq<char>>) -> bool {
    r.info.join_key == join_key && password_matches(r.password, password)
}

/// A live participant sits in at most one room: in a well-formed registry,
/// two rooms whose rosters hold the same participant id are the same room.
pub proof fn lemma_participant_in_at_most_one_room(
    rs: Seq<RoomView>,
    pid: Seq<char>,
    i: int,
    j: int,
)
    requires
        registry_wf(rs),
        0 <= i < rs.len(),
        0 <= j < rs.len(),
        roster_has_pid(rs[i].roster, pid),
        roster_has_pid(rs[j].roster, pid),
    ensures
        i == j,
{
}

/// How the room set changes when a participant leaves: untouched when the
/// participant sat in no room, else exactly one roster entry gone.
pub open spec fn leave_rel(pre: Seq<RoomView>, post: Seq<RoomView>, pid: Seq<char>) -> bool {
    (!registry_has_pid(pre, pid) && post == pre) || exists|i: int, k: int|
        0 <= i < pre.len() && 0 <= k < pre[i].roster.len() && #[trigger] pre[i].roster[k].0 == pid
            && post == pre.update(i, (RoomView { roster: pre[i].roster.remove(k), ..pre[i] }))
}

/// Leaving introduces no participant into any room.
pub proof fn lemma_leave_rel_has_pid(
    pre: Seq<RoomView>,
    post: Seq<RoomView>,
    pid: Seq<char>,
    q: Seq<char>,
)
    requires
        leave_rel(pre, post, pid),
    ensures
        registry_has_pid(post, q) ==> registry_has_pid(pre, q),
{
    if registry_has_pid(post, q) {
        let j = choose|j: int|
            0 <= j < post.len() && roster_has_pid(#[trigger] post[j].roster, q);
        if !registry_has_pid(pre, pid) {
            assert(roster_has_pid(pre[j].roster, q));
        } else {
            let (i, k) = choose|i: int, k: int|
                0 <= i < pre.len() && 0 <= k < pre[i].roster.len() && #[trigger] pre[i].roster[k].0
                    == pid && post == pre.update(
                    i,
                    (RoomView { roster: pre[i].roster.remove(k), ..pre[i] }),
                );
            if j == i {
                lemma_roster_remove_has_pid(pre[i].roster, k, q);
                assert(roster_has_pid(pre[i].roster, q));
            } else {
                assert(post[j] == pre[j]);
                assert(roster_has_pid(pre[j].roster, q));
            }
        }
    }
}

/// The set of live rooms.
pub struct RoomRegistry {
    rooms: Vec<Room>,
}

impl View for RoomRegistry {
    type V = Seq<RoomView>;

    closed spec fn view(&self) -> Seq<RoomView> {
        self.rooms@.map_values(|r: Room| r@)
    }
}

impl RoomRegistry {
    /// An empty registry.
    pub fn new() -> (r: RoomRegistry)
        ensures
            r@.len() == 0,
            registry_wf(r@),
    {
        let r = RoomRegistry { rooms: Vec::new() };
        proof {
            assert(r@ =~= Seq::<RoomView>::empty());
        }
        r
    }

    /// How many rooms are live.
    pub fn room_count(&self) -> (r: usize)
        ensures
            r == self@.len(),
    {
        self.rooms.len()
    }

    /// The room at the given position.
    pub fn get_room(&self, i: usize) -> (r: &Room)
        requires
            i < self@.len(),
        ensures
            r@ == self@[i as int],
    {
        &self.rooms[i]
    }

    /// Whether some live room carries the given room id.
    pub fn has_room_id(&self, id: &str) -> (r: bool)
        ensures
            r == registry_has_room_id(self@, id@),
    {
        let n = self.rooms.len();
        let mut i: usize = 0;
        while i < n
            invariant
                n == self.rooms@.len(),
                i <= n,
                forall|j: int| 0 <= j < i ==> #[trigger] self@[j].info.id != id@,
            decreases n - i,
        {
            let info = self.rooms[i].get_info();
            if crate::room::str_eq(info.id.as_str(), id) {
                proof {
                    assert(self@[i as int].info.id == id@);
                }
                return true;
            }
            i = i + 1;
        }
        false
    }

    /// Adds a freshly built, still empty room under an id no live room
    /// carries.
    pub fn insert_room(&mut self, room: Room)
        requires
            registry_wf(old(self)@),
            room_wf(room@),
            room@.roster.len() == 0,
            !registry_has_room_id(old(self)@, room@.info.id),
        ensures
            final (self)@ == old(self)@.push(room@),
            registry_wf(final (self)@),
    {
        let ghost old_rs = self@;
        let ghost room_view = room@;
        self.rooms.push(room);
        proof {
            assert(self@ =~= old_rs.push(room_view));
            let rs = self@;
            assert forall|i: int, j: int|
                0 <= i < rs.len() && 0 <= j < rs.len() && #[trigger] rs[i].info.id
                    == #[trigger] rs[j].info.id implies i == j by {
                if i < rs.len() - 1 && j < rs.len() - 1 {
                    assert(old_rs[i].info.id == old_rs[j].info.id);
                } else if i == rs.len() - 1 && j < rs.len() - 1 {
                    assert(old_rs[j].info.id == room_view.info.id);
                } else if j == rs.len() - 1 && i < rs.len() - 1 {
                    assert(old_rs[i].info.id == room_view.info.id);
                }
            }
            assert forall|i: int, j: int, pid: Seq<char>|
                0 <= i < rs.len() && 0 <= j < rs.len() && #[trigger] roster_has_pid(
                    rs[i].roster,
                    pid,
                ) && #[trigger] roster_has_pid(rs[j].roster, pid) implies i == j by {
                assert(!roster_has_pid(room_view.roster, pid));
                if i < rs.len() - 1 && j < rs.len() - 1 {
                    assert(roster_has_pid(old_rs[i].roster, pid));
                    assert(roster_has_pid(old_rs[j].roster, pid));
                }
            }
        }
    }

    /// Appends a participant who currently sits in no room to the roster of
    /// the room at the given position.
    pub fn add_participant_at(&mut self, i: usize, participant_id: String, name: String)
        requires
            registry_wf(old(self)@),
            i < old(self)@.len(),
            !registry_has_pid(old(self)@, participant_id@),
        ensures
            final (self)@ == old(self)@.update(
                i as int,
                (RoomView {
                    roster: old(self)@[i as int].roster.push((participant_id@, name@)),
                    ..old(self)@[i as int]
                }),
            ),
            registry_wf(final (self)@),
    {
        let ghost old_rs = self@;
        let ghost pid_view = participant_id@;
        let ghost name_view = name@;
        proof {
            if roster_has_pid(old_rs[i as int].roster, pid_view) {
                assert(registry_has_pid(old_rs, pid_view));
            }
        }
        let mut room = self.rooms.remove(i);
        room.add_participant(participant_id, name);
        let ghost new_room = room@;
        self.rooms.insert(i, room);
        proof {
            assert(new_room == (RoomView {
                roster: old_rs[i as int].roster.push((pid_view, name_view)),
                ..old_rs[i as int]
            }));
            assert(self@ =~= old_rs.update(i as int, new_room));
            let rs = self@;
            assert forall|a: int, b: int|
                0 <= a < rs.len() && 0 <= b < rs.len() && #[trigger] rs[a].info.id
                    == #[trigger] rs[b].info.id implies a == b by {
                assert(rs[a].info == old_rs[a].info);
                assert(rs[b].info == old_rs[b].info);
            }
            assert forall|a: int, b: int, pid: Seq<char>|
                0 <= a < rs.len() && 0 <= b < rs.len() && #[trigger] roster_has_pid(
                    rs[a].roster,
                    pid,
                ) && #[trigger] roster_has_pid(rs[b].roster, pid) implies a == b by {
                lemma_roster_push_has_pid(old_rs[i as int].roster, (pid_view, name_view), pid);
                if a != b {
                    if a == i || b == i {
                        let other = if a == i {
                            b
                        } else {
                            a
                        };
                        if pid == pid_view {
                            assert(roster_has_pid(old_rs[other].roster, pid));
                            assert(registry_has_pid(old_rs, pid_view));
                        } else {
                            assert(roster_has_pid(old_rs[a].roster, pid));
                            assert(roster_has_pid(old_rs[b].roster, pid));
                        }
                    } else {
                        assert(roster_has_pid(old_rs[a].roster, pid));
                        assert(roster_has_pid(old_rs[b].roster, pid));
                    }
                }
            }
        }
    }

    /// Takes a participant out of whatever room holds them. Returns the
    /// room's position and the participant's display name when one did;
    /// leaves the registry unchanged when none did. Departure is idempotent.
    pub fn leave(&mut self, participant_id: &str) -> (r: Option<(usize, String)>)
        requires
            registry_wf(old(self)@),
        ensures
            registry_wf(final (self)@),
            !registry_has_pid(final (self)@, participant_id@),
            leave_rel(old(self)@, final (self)@, participant_id@),
            match r {
                None => final (self)@ == old(self)@ && !registry_has_pid(
                    old(self)@,
                    participant_id@,
                ),
                Some((i, name)) => 0 <= i < old(self)@.len() && roster_has_pid(
                    old(self)@[i as int].roster,
                    participant_id@,
                ) && name@ == roster_name_of(old(self)@[i as int].roster, participant_id@)
                    && exists|k: int|
                    0 <= k < old(self)@[i as int].roster.len() && #[trigger] old(
                        self,
                    )@[i as int].roster[k].0 == participant_id@ && final (self)@ == old(
                        self,
                    )@.update(
                        i as int,
                        (RoomView {
                            roster: old(self)@[i as int].roster.remove(k),
                            ..old(self)@[i as int]
                        }),
                    ),
            },
    {
        let n = self.rooms.len();
        let mut i: usize = 0;
        while i < n
            invariant
                *self == *old(self),
                n == self.rooms@.len(),
                i <= n,
                registry_wf(self@),
                forall|j: int|
                    0 <= j < i ==> !roster_has_pid(#[trigger] self@[j].roster, participant_id@),
            decreases n - i,
        {
            if self.rooms[i].contains_participant(participant_id) {
                let name = match self.rooms[i].participant_name(participant_id) {
                    Some(nm) => nm,
                    None => {
                        proof {
                            assert(false);
                        }
                        String::new()
                    },
                };
                let ghost old_rs = self@;
                let ghost pid_view = participant_id@;
                let mut room = self.rooms.remove(i);
                room.remove_participant(participant_id);
                let ghost new_room = room@;
                self.rooms.insert(i, room);
                proof {
                    assert(self@ =~= old_rs.update(i as int, new_room));
                    let rs = self@;
                    let ki = choose|k: int|
                        0 <= k < old_rs[i as int].roster.len() && #[trigger] old_rs[i as int].roster[k].0
                            == pid_view && new_room == (RoomView {
                            roster: old_rs[i as int].roster.remove(k),
                            ..old_rs[i as int]
                        });
                    assert forall|a: int, b: int|
                        0 <= a < rs.len() && 0 <= b < rs.len() && #[trigger] rs[a].info.id
                            == #[trigger] rs[b].info.id implies a == b by {
                        assert(rs[a].info == old_rs[a].info);
                        assert(rs[b].info == old_rs[b].info);
                    }
                    assert forall|a: int, b: int, pid: Seq<char>|
                        0 <= a < rs.len() && 0 <= b < rs.len() && #[trigger] roster_has_pid(
                            rs[a].roster,
                            pid,
                        ) && #[trigger] roster_has_pid(rs[b].roster, pid) implies a == b by {
                        lemma_roster_remove_has_pid(old_rs[i as int].roster, ki, pid);
                        assert(roster_has_pid(old_rs[a].roster, pid));
                        assert(roster_has_pid(old_rs[b].roster, pid));
                    }
                    assert forall|j: int| 0 <= j < rs.len() implies !roster_has_pid(
                        #[trigger] rs[j].roster,
                        pid_view,
                    ) by {
                        if j != i {
                            if roster_has_pid(old_rs[j].roster, pid_view) {
                                assert(roster_has_pid(old_rs[i as int].roster, pid_view));
                            }
                        }
                    }
                }
                proof {
                    assert(leave_rel(old(self)@, self@, pid_view));
                }
                return Some((i, name));
            }
            i = i + 1;
        }
        proof {
            if registry_has_pid(self@, participant_id@) {
                let j = choose|j: int|
                    0 <= j < self@.len() && roster_has_pid(
                        #[trigger] self@[j].roster,
                        participant_id@,
                    );
                assert(false);
            }
        }
        None
    }

    /// The position of the first room that admits the given join key and
    /// password, scanning rooms in insertion order.
    pub fn find_joinable(&self, join_key: &str, password: Option<&str>) -> (r: Option<usize>)
        ensures
            match r {
                Some(i) => 0 <= i < self@.len() && joinable(
                    self@[i as int],
                    join_key@,
                    opt_str_view(password),
                ) && forall|j: int|
                    0 <= j < i ==> !joinable(#[trigger] self@[j], join_key@, opt_str_view(password)),
                None => forall|j: int|
                    0 <= j < self@.len() ==> !joinable(
                        #[trigger] self@[j],
                        join_key@,
                        opt_str_view(password),
                    ),
            },
    {
        let n = self.rooms.len();
        let mut i: usize = 0;
        while i < n
            invariant
                n == self.rooms@.len(),
                i <= n,
                forall|j: int|
                    0 <= j < i ==> !joinable(#[trigger] self@[j], join_key@, opt_str_view(password)),
            decreases n - i,
        {
            if self.rooms[i].has_join_key(join_key) {
                if self.rooms[i].verify_password(password) {
                    return Some(i);
                }
            }
            i = i + 1;
        }
        None
    }

    /// The position of the room whose roster holds the given participant,
    /// when one does.
    pub fn room_of(&self, participant_id: &str) -> (r: Option<usize>)
        ensures
            match r {
                Some(i) => 0 <= i < self@.len() && roster_has_pid(
                    self@[i as int].roster,
                    participant_id@,
                ),
                None => !registry_has_pid(self@, participant_id@),
            },
    {
        let n = self.rooms.len();
        let mut i: usize = 0;
        while i < n
            invariant
                n == self.rooms@.len(),
                i <= n,
                forall|j: int|
                    0 <= j < i ==> !roster_has_pid(#[trigger] self@[j].roster, participant_id@),
            decreases n - i,
        {
            if self.rooms[i].contains_participant(participant_id) {
                return Some(i);
            }
            i = i + 1;
        }
        proof {
            if registry_has_pid(self@, participant_id@) {
                let j = choose|j: int|
                    0 <= j < self@.len() && roster_has_pid(
                        #[trigger] self@[j].roster,
                        participant_id@,
                    );
                assert(false);
            }
        }
        None
    }
}

} // verus!
