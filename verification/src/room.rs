//! Rooms, rosters, and the room registry: lifecycle, password-gated
//! admission, and the invariant that a participant sits in at most one room.

use vstd::prelude::*;

verus! {

use vstd::string::StringExecFns;
use vstd::utf8::encode_utf8;
use crate::crypto::{join_key_of, lemma_encode_utf8_injective, opt_str_view, RoomCrypto};

/// The view of an optional owned string.
pub open spec fn opt_string_view(p: Option<String>) -> Option<Seq<char>> {
    match p {
        Some(s) => Some(s@),
        None => None,
    }
}

/// The views of a list of owned strings.
pub open spec fn names_view(v: Seq<String>) -> Seq<Seq<char>> {
    v.map_values(|s: String| s@)
}

/// The views of a roster held as (participant id, display name) pairs.
pub open spec fn pairs_view(v: Seq<(String, String)>) -> Seq<(Seq<char>, Seq<char>)> {
    v.map_values(|p: (String, String)| (p.0@, p.1@))
}

/// True exactly when the two pieces of text are equal.
pub fn str_eq(a: &str, b: &str) -> (r: bool)
    ensures
        r == (a@ == b@),
{
    let sa = a.to_owned();
    let sb = b.to_owned();
    sa.eq(&sb)
}

/// Compares two byte strings in time that depends only on their lengths,
/// never on where they first differ.
pub fn constant_time_eq(a: &[u8], b: &[u8]) -> (r: bool)
    ensures
        r == (a@ == b@),
{
    if a.len() != b.len() {
        proof {
            assert(a@.len() != b@.len());
        }
        return false;
    }
    let n = a.len();
    let mut diff: u8 = 0;
    let mut i: usize = 0;
    while i < n
        invariant
            n == a@.len(),
            n == b@.len(),
            i <= n,
            (diff == 0) <==> (a@.take(i as int) =~= b@.take(i as int)),
        decreases n - i,
    {
        let ai = a[i];
        let bi = b[i];
        let new_diff = diff | (ai ^ bi);
        proof {
            assert((new_diff == 0) == (diff == 0 && ai == bi)) by (bit_vector)
                requires
                    new_diff == diff | (ai ^ bi),
            ;
            assert(a@.take(i + 1 as int) =~= a@.take(i as int).push(ai));
            assert(b@.take(i + 1 as int) =~= b@.take(i as int).push(bi));
            if new_diff == 0 {
                assert(a@.take(i + 1 as int) =~= b@.take(i + 1 as int));
            } else {
                if a@.take(i + 1 as int) =~= b@.take(i + 1 as int) {
                    assert(a@.take(i + 1 as int)[i as int] == ai);
                    assert(b@.take(i + 1 as int)[i as int] == bi);
                    assert(a@.take(i as int) =~= a@.take(i + 1 as int).take(i as int));
                    assert(b@.take(i as int) =~= b@.take(i + 1 as int).take(i as int));
                    assert(false);
                }
            }
        }
        diff = new_diff;
        i = i + 1;
    }
    proof {
        assert(a@.take(n as int) =~= a@);
        assert(b@.take(n as int) =~= b@);
    }
    diff == 0
}

/// Whether a supplied password satisfies a room's password: both absent, or
/// both present and equal.
pub open spec fn password_matches(room_pw: Option<Seq<char>>, given: Option<Seq<char>>) -> bool {
    match (room_pw, given) {
        (None, None) => true,
        (Some(a), Some(b)) => a == b,
        _ => false,
    }
}

/// The public description of a room, as sent to clients. The room password
/// itself never appears in it.
#[derive(Debug, PartialEq)]
pub struct RoomInfo {
    pub id: String,
    pub name: String,
    pub description: String,
    pub has_password: bool,
    pub join_key: String,
}

/// The view of a `RoomInfo`.
#[verifier::ext_equal]
pub ghost struct RoomInfoView {
    pub id: Seq<char>,
    pub name: Seq<char>,
    pub description: Seq<char>,
    pub has_password: bool,
    pub join_key: Seq<char>,
}

impl View for RoomInfo {
    type V = RoomInfoView;

    open spec fn view(&self) -> RoomInfoView {
        RoomInfoView {
            id: self.id@,
            name: self.name@,
            description: self.description@,
            has_password: self.has_password,
            join_key: self.join_key@,
        }
    }
}

impl Clone for RoomInfo {
    /// A clone carries exactly the same fields.
    fn clone(&self) -> (r: Self)
        ensures
            r == *self,
    {
        RoomInfo {
            id: self.id.clone(),
            name: self.name.clone(),
            description: self.description.clone(),
            has_password: self.has_password,
            join_key: self.join_key.clone(),
        }
    }
}

/// A room: its public info, its secret password and encryption key, and the
/// ordered roster of (participant id, display name) pairs.
pub struct Room {
    info: RoomInfo,
    password: Option<String>,
    encryption_key: String,
    participants: Vec<(String, String)>,
}

/// The view of a `Room`.
#[verifier::ext_equal]
pub ghost struct RoomView {
    pub info: RoomInfoView,
    pub password: Option<Seq<char>>,
    pub encryption_key: Seq<char>,
    pub roster: Seq<(Seq<char>, Seq<char>)>,
}

impl View for Room {
    type V = RoomView;

    closed spec fn view(&self) -> RoomView {
        RoomView {
            info: self.info@,
            password: opt_string_view(self.password),
            encryption_key: self.encryption_key@,
            roster: pairs_view(self.participants@),
        }
    }
}

/// Participant ids never repeat within one roster.
pub open spec fn pids_distinct(roster: Seq<(Seq<char>, Seq<char>)>) -> bool {
    forall|i: int, j: int|
        0 <= i < roster.len() && 0 <= j < roster.len() && #[trigger] roster[i].0 == #[trigger] roster[j].0
            ==> i == j
}

/// Whether the roster holds the given participant id.
pub open spec fn roster_has_pid(roster: Seq<(Seq<char>, Seq<char>)>, pid: Seq<char>) -> bool {
    exists|k: int| 0 <= k < roster.len() && #[trigger] roster[k].0 == pid
}

/// The display name of the first roster entry with the given participant id.
pub open spec fn roster_name_of(roster: Seq<(Seq<char>, Seq<char>)>, pid: Seq<char>) -> Seq<char>
    decreases roster.len(),
{
    if roster.len() == 0 {
        Seq::empty()
    } else if roster[0].0 == pid {
        roster[0].1
    } else {
        roster_name_of(roster.drop_first(), pid)
    }
}

/// The display names of the roster, in roster order.
pub open spec fn roster_names(roster: Seq<(Seq<char>, Seq<char>)>) -> Seq<Seq<char>> {
    roster.map_values(|p: (Seq<char>, Seq<char>)| p.1)
}

/// The roster without the entries of one participant, in roster order: the
/// recipients of a broadcast that excludes its sender.
pub open spec fn roster_except(
    roster: Seq<(Seq<char>, Seq<char>)>,
    pid: Seq<char>,
) -> Seq<(Seq<char>, Seq<char>)>
    decreases roster.len(),
{
    if roster.len() == 0 {
        Seq::empty()
    } else if roster[0].0 == pid {
        roster_except(roster.drop_first(), pid)
    } else {
        seq![roster[0]] + roster_except(roster.drop_first(), pid)
    }
}

/// Extending the roster by one entry extends the broadcast list by that
/// entry exactly when it is not the excluded participant's.
pub proof fn lemma_roster_except_push(
    roster: Seq<(Seq<char>, Seq<char>)>,
    e: (Seq<char>, Seq<char>),
    pid: Seq<char>,
)
    ensures
        e.0 == pid ==> roster_except(roster.push(e), pid) == roster_except(roster, pid),
        e.0 != pid ==> roster_except(roster.push(e), pid) == roster_except(roster, pid).push(e),
    decreases roster.len(),
{
    let s = roster.push(e);
    assert(s.len() == roster.len() + 1);
    if roster.len() == 0 {
        assert(s[0] == e);
        assert(s.drop_first() =~= roster);
        if e.0 == pid {
            assert(s[0].0 == pid);
            assert(roster_except(s, pid) == roster_except(s.drop_first(), pid));
            assert(roster_except(s, pid) =~= roster_except(roster, pid));
        } else {
            assert(roster_except(s, pid) == seq![e] + roster_except(s.drop_first(), pid));
            assert(roster_except(s, pid) =~= roster_except(roster, pid).push(e));
        }
    } else {
        assert(s[0] == roster[0]);
        assert(s.drop_first() =~= roster.drop_first().push(e));
        lemma_roster_except_push(roster.drop_first(), e, pid);
        if roster[0].0 == pid {
            assert(roster_except(s, pid) == roster_except(s.drop_first(), pid));
            if e.0 == pid {
                assert(roster_except(s, pid) =~= roster_except(roster, pid));
            } else {
                assert(roster_except(s, pid) =~= roster_except(roster, pid).push(e));
            }
        } else {
            assert(roster_except(s, pid) == seq![s[0]] + roster_except(s.drop_first(), pid));
            if e.0 == pid {
                assert(roster_except(s, pid) =~= roster_except(roster, pid));
            } else {
                assert(roster_except(s, pid) =~= roster_except(roster, pid).push(e));
            }
        }
    }
}

/// Pushing an entry onto a roster adds exactly that entry's participant id.
pub proof fn lemma_roster_push_has_pid(
    roster: Seq<(Seq<char>, Seq<char>)>,
    entry: (Seq<char>, Seq<char>),
    q: Seq<char>,
)
    ensures
        roster_has_pid(roster.push(entry), q) <==> (roster_has_pid(roster, q) || entry.0 == q),
{
    let pushed = roster.push(entry);
    if roster_has_pid(pushed, q) {
        let k = choose|k: int| 0 <= k < pushed.len() && #[trigger] pushed[k].0 == q;
        if k < roster.len() {
            assert(roster[k].0 == q);
        }
    }
    if roster_has_pid(roster, q) {
        let k = choose|k: int| 0 <= k < roster.len() && #[trigger] roster[k].0 == q;
        assert(pushed[k].0 == q);
    }
    if entry.0 == q {
        assert(pushed[roster.len() as int].0 == q);
    }
}

/// Removing a roster entry introduces no participant id.
pub proof fn lemma_roster_remove_has_pid(
    roster: Seq<(Seq<char>, Seq<char>)>,
    k: int,
    q: Seq<char>,
)
    requires
        0 <= k < roster.len(),
    ensures
        roster_has_pid(roster.remove(k), q) ==> roster_has_pid(roster, q),
{
    let shrunk = roster.remove(k);
    if roster_has_pid(shrunk, q) {
        let m = choose|m: int| 0 <= m < shrunk.len() && #[trigger] shrunk[m].0 == q;
        let m0 = if m < k {
            m
        } else {
            m + 1
        };
        assert(roster[m0] == shrunk[m]);
    }
}

/// A well-formed room: distinct participant ids, the `has_password` flag
/// telling the truth, and the join key derived from the room id and password.
pub open spec fn room_wf(r: RoomView) -> bool {
    &&& pids_distinct(r.roster)
    &&& r.info.has_password == (r.password is Some)
    &&& r.info.join_key == join_key_of(r.info.id, r.password)
}

impl Room {
    /// Makes a room under a caller-supplied fresh id: derives the join key
    /// from the id and password, records whether a password gates admission,
    /// and starts with an empty roster.
    pub fn new(
        id: String,
        name: String,
        description: String,
        password: Option<String>,
        encryption_key: String,
    ) -> (r: Room)
        ensures
            r@.info.id == id@,
            r@.info.name == name@,
            r@.info.description == description@,
            r@.info.has_password == (password is Some),
            r@.info.join_key == join_key_of(id@, opt_string_view(password)),
            r@.password == opt_string_view(password),
            r@.encryption_key == encryption_key@,
            r@.roster.len() == 0,
            room_wf(r@),
    {
        let join_key = match &password {
            Some(p) => RoomCrypto::generate_join_key(id.as_str(), Some(p.as_str())),
            None => RoomCrypto::generate_join_key(id.as_str(), None),
        };
        let has_password = match &password {
            Some(_) => true,
            None => false,
        };
        let r = Room {
            info: RoomInfo { id, name, description, has_password, join_key },
            password,
            encryption_key,
            participants: Vec::new(),
        };
        proof {
            assert(r@.roster =~= Seq::<(Seq<char>, Seq<char>)>::empty());
        }
        r
    }

    /// A copy of the room's public description.
    pub fn get_info(&self) -> (r: RoomInfo)
        ensures
            r@ == self@.info,
    {
        self.info.clone()
    }

    /// Whether the room sits behind the given join key.
    pub fn has_join_key(&self, join_key: &str) -> (r: bool)
        ensures
            r == (self@.info.join_key == join_key@),
    {
        str_eq(self.info.join_key.as_str(), join_key)
    }

    /// Whether the given participant id is on the roster.
    pub fn contains_participant(&self, participant_id: &str) -> (r: bool)
        ensures
            r == roster_has_pid(self@.roster, participant_id@),
    {
        let n = self.participants.len();
        let mut i: usize = 0;
        while i < n
            invariant
                n == self.participants@.len(),
                i <= n,
                forall|k: int| 0 <= k < i ==> #[trigger] self@.roster[k].0 != participant_id@,
            decreases n - i,
        {
            if str_eq(self.participants[i].0.as_str(), participant_id) {
                proof {
                    assert(self@.roster[i as int].0 == participant_id@);
                }
                return true;
            }
            i = i + 1;
        }
        false
    }

    /// The display name under which the given participant sits on the
    /// roster, when it does.
    pub fn participant_name(&self, participant_id: &str) -> (r: Option<String>)
        ensures
            match r {
                Some(name) => roster_has_pid(self@.roster, participant_id@) && name@
                    == roster_name_of(self@.roster, participant_id@),
                None => !roster_has_pid(self@.roster, participant_id@),
            },
    {
        let n = self.participants.len();
        let mut i: usize = 0;
        proof {
            assert(self@.roster.skip(0) =~= self@.roster);
        }
        while i < n
            invariant
                n == self.participants@.len(),
                i <= n,
                forall|k: int| 0 <= k < i ==> #[trigger] self@.roster[k].0 != participant_id@,
                roster_name_of(self@.roster, participant_id@) == roster_name_of(
                    self@.roster.skip(i as int),
                    participant_id@,
                ),
            decreases n - i,
        {
            proof {
                assert(self@.roster.skip(i as int)[0] == self@.roster[i as int]);
            }
            if str_eq(self.participants[i].0.as_str(), participant_id) {
                proof {
                    assert(self@.roster[i as int].0 == participant_id@);
                    assert(roster_name_of(self@.roster.skip(i as int), participant_id@)
                        == self@.roster[i as int].1);
                }
                return Some(self.participants[i].1.clone());
            }
            proof {
                assert(self@.roster.skip(i as int).drop_first() =~= self@.roster.skip(i + 1 as int));
            }
            i = i + 1;
        }
        proof {
            assert(self@.roster.skip(n as int) =~= Seq::<(Seq<char>, Seq<char>)>::empty());
        }
        None
    }

    /// Appends a participant to the roster. A participant already present is
    /// left untouched: admission is idempotent.
    pub fn add_participant(&mut self, participant_id: String, name: String)
        ensures
            roster_has_pid(old(self)@.roster, participant_id@) ==> final (self)@ == old(self)@,
            !roster_has_pid(old(self)@.roster, participant_id@) ==> final (self)@ == (RoomView {
                roster: old(self)@.roster.push((participant_id@, name@)),
                ..old(self)@
            }),
            room_wf(old(self)@) ==> room_wf(final (self)@),
    {
        if !self.contains_participant(participant_id.as_str()) {
            let ghost old_roster = self@.roster;
            let ghost pid_view = participant_id@;
            let ghost name_view = name@;
            self.participants.push((participant_id, name));
            proof {
                assert(self@.roster =~= old_roster.push((pid_view, name_view)));
                assert(self@ =~= (RoomView {
                    roster: old(self)@.roster.push((pid_view, name_view)),
                    ..old(self)@
                }));
                if room_wf(old(self)@) {
                    let r = self@.roster;
                    assert forall|i: int, j: int|
                        0 <= i < r.len() && 0 <= j < r.len() && #[trigger] r[i].0 == #[trigger] r[j].0
                        implies i == j by {
                        if i < r.len() - 1 && j < r.len() - 1 {
                            assert(old_roster[i].0 == old_roster[j].0);
                        } else if i == r.len() - 1 && j < r.len() - 1 {
                            assert(old_roster[j].0 == pid_view);
                        } else if j == r.len() - 1 && i < r.len() - 1 {
                            assert(old_roster[i].0 == pid_view);
                        }
                    }
                }
            }
        }
    }

    /// Takes a participant off the roster; other entries keep their order.
    /// Absent participants leave the room unchanged.
    pub fn remove_participant(&mut self, participant_id: &str)
        requires
            pids_distinct(old(self)@.roster),
        ensures
            !roster_has_pid(old(self)@.roster, participant_id@) ==> final (self)@ == old(self)@,
            roster_has_pid(old(self)@.roster, participant_id@) ==> exists|k: int|
                0 <= k < old(self)@.roster.len() && #[trigger] old(self)@.roster[k].0
                    == participant_id@ && final (self)@ == (RoomView {
                    roster: old(self)@.roster.remove(k),
                    ..old(self)@
                }),
            room_wf(old(self)@) ==> room_wf(final (self)@),
            !roster_has_pid(final (self)@.roster, participant_id@),
    {
        let n = self.participants.len();
        let mut i: usize = 0;
        while i < n
            invariant
                *self == *old(self),
                n == self.participants@.len(),
                i <= n,
                pids_distinct(self@.roster),
                forall|k: int| 0 <= k < i ==> #[trigger] self@.roster[k].0 != participant_id@,
            decreases n - i,
        {
            if str_eq(self.participants[i].0.as_str(), participant_id) {
                let ghost old_roster = self@.roster;
                let ghost ki = i as int;
                proof {
                    assert(old_roster[ki] == (self.participants@[ki].0@, self.participants@[ki].1@));
                    assert(old_roster[ki].0 == participant_id@);
                }
                self.participants.remove(i);
                proof {
                    assert(self@.roster =~= old_roster.remove(ki));
                    assert(self@ =~= (RoomView { roster: old_roster.remove(ki), ..old(self)@ }));
                    let r = self@.roster;
                    assert forall|a: int, b: int|
                        0 <= a < r.len() && 0 <= b < r.len() && #[trigger] r[a].0 == #[trigger] r[b].0
                        implies a == b by {
                        let a0 = if a < ki { a } else { a + 1 };
                        let b0 = if b < ki { b } else { b + 1 };
                        assert(r[a] == old_roster[a0]);
                        assert(r[b] == old_roster[b0]);
                        assert(old_roster[a0].0 == old_roster[b0].0);
                    }
                    assert forall|k: int| 0 <= k < r.len() implies #[trigger] r[k].0
                        != participant_id@ by {
                        let k0 = if k < ki { k } else { k + 1 };
                        assert(r[k] == old_roster[k0]);
                        if old_roster[k0].0 == old_roster[ki].0 {
                            assert(k0 == ki);
                        }
                    }
                    assert(0 <= ki < old_roster.len() && old_roster[ki].0 == participant_id@
                        && self@ == (RoomView { roster: old_roster.remove(ki), ..old(self)@ }));
                }
                return ;
            }
            i = i + 1;
        }
    }

    /// A snapshot of the roster as (participant id, display name) pairs, in
    /// roster order.
    pub fn get_participants(&self) -> (r: Vec<(String, String)>)
        ensures
            pairs_view(r@) == self@.roster,
    {
        let n = self.participants.len();
        let mut out: Vec<(String, String)> = Vec::new();
        let mut i: usize = 0;
        while i < n
            invariant
                n == self.participants@.len(),
                i <= n,
                out@.len() == i,
                pairs_view(out@) =~= self@.roster.take(i as int),
            decreases n - i,
        {
            let ghost out_prev = out@;
            let pid = self.participants[i].0.clone();
            let name = self.participants[i].1.clone();
            out.push((pid, name));
            proof {
                assert(out@ =~= out_prev.push((pid, name)));
                assert forall|k: int| 0 <= k < out@.len() implies #[trigger] pairs_view(out@)[k]
                    == self@.roster.take(i + 1 as int)[k] by {
                    assert(pairs_view(out@)[k] == (out@[k].0@, out@[k].1@));
                    assert(self@.roster[k] == (self.participants@[k].0@, self.participants@[k].1@));
                    if k < i {
                        assert(out@[k] == out_prev[k]);
                        assert(pairs_view(out_prev)[k] == (out_prev[k].0@, out_prev[k].1@));
                        assert(pairs_view(out_prev)[k] == self@.roster.take(i as int)[k]);
                    } else {
                        assert(out@[k] == (pid, name));
                        assert(pid@ == self.participants@[k].0@);
                        assert(name@ == self.participants@[k].1@);
                    }
                }
                assert(pairs_view(out@) =~= self@.roster.take(i + 1 as int));
            }
            i = i + 1;
        }
        proof {
            assert(self@.roster.take(n as int) =~= self@.roster);
        }
        out
    }

    /// The display names on the roster, in roster order.
    pub fn member_names(&self) -> (r: Vec<String>)
        ensures
            names_view(r@) == roster_names(self@.roster),
    {
        let n = self.participants.len();
        let mut out: Vec<String> = Vec::new();
        let mut i: usize = 0;
        while i < n
            invariant
                n == self.participants@.len(),
                i <= n,
                out@.len() == i,
                names_view(out@) =~= roster_names(self@.roster).take(i as int),
            decreases n - i,
        {
            let ghost out_prev = out@;
            let name = self.participants[i].1.clone();
            out.push(name);
            proof {
                assert(out@ =~= out_prev.push(name));
                assert forall|k: int| 0 <= k < out@.len() implies #[trigger] names_view(out@)[k]
                    == roster_names(self@.roster).take(i + 1 as int)[k] by {
                    assert(names_view(out@)[k] == out@[k]@);
                    assert(roster_names(self@.roster)[k] == self@.roster[k].1);
                    assert(self@.roster[k] == (self.participants@[k].0@, self.participants@[k].1@));
                    if k < i {
                        assert(out@[k] == out_prev[k]);
                        assert(names_view(out_prev)[k] == out_prev[k]@);
                        assert(names_view(out_prev)[k] == roster_names(self@.roster).take(i as int)[k]);
                    } else {
                        assert(out@[k] == name);
                        assert(name@ == self.participants@[k].1@);
                    }
                }
                assert(names_view(out@) =~= roster_names(self@.roster).take(i + 1 as int));
            }
            i = i + 1;
        }
        proof {
            assert(roster_names(self@.roster).take(n as int) =~= roster_names(self@.roster));
        }
        out
    }

    /// Checks a supplied password against the room's: both must be absent,
    /// or both present and equal. Present passwords are compared in constant
    /// time over their UTF-8 bytes.
    pub fn verify_password(&self, password: Option<&str>) -> (r: bool)
        ensures
            r == password_matches(self@.password, opt_str_view(password)),
    {
        match (&self.password, password) {
            (None, None) => true,
            (Some(room_pass), Some(provided_pass)) => {
                let r = constant_time_eq(room_pass.as_str().as_bytes(), provided_pass.as_bytes());
                proof {
                    if encode_utf8(room_pass@) == encode_utf8(provided_pass@) {
                        lemma_encode_utf8_injective(room_pass@, provided_pass@);
                    }
                }
                r
            },
            _ => false,
        }
    }

    /// The room's encryption key in its base64 text form, as handed to every
    /// admitted participant.
    pub fn get_encryption_key(&self) -> (r: &str)
        ensures
            r@ == self@.encryption_key,
    {
        self.encryption_key.as_str()
    }
}

} // verus!
