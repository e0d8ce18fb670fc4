//! The connection table: which participant ids currently own a live
//! outbound sink. The sinks themselves live at the transport edge; the core
//! tracks only membership.

use vstd::prelude::*;

verus! {

use crate::room::{names_view, str_eq};

/// Connection ids never repeat in the table.
pub open spec fn conn_ids_distinct(c: Seq<Seq<char>>) -> bool {
    forall|i: int, j: int| #![trigger c[i], c[j]]
        0 <= i < c.len() && 0 <= j < c.len() && c[i] == c[j] ==> i == j
}

/// How the table changes when a connection is dropped: untouched when the
/// id was not registered, else that one entry gone.
pub open spec fn conn_remove_rel(pre: Seq<Seq<char>>, post: Seq<Seq<char>>, pid: Seq<char>) -> bool {
    (!pre.contains(pid) && post == pre) || exists|k: int|
        0 <= k < pre.len() && #[trigger] pre[k] == pid && post == pre.remove(k)
}

/// Dropping one id keeps every other registered id registered.
pub proof fn lemma_conn_remove_keeps_others(
    pre: Seq<Seq<char>>,
    post: Seq<Seq<char>>,
    pid: Seq<char>,
    q: Seq<char>,
)
    requires
        conn_remove_rel(pre, post, pid),
        pre.contains(q),
        q != pid,
    ensures
        post.contains(q),
{
    if !pre.contains(pid) {
    } else {
        let k = choose|k: int| 0 <= k < pre.len() && #[trigger] pre[k] == pid && post == pre.remove(
            k,
        );
        let m = choose|m: int| 0 <= m < pre.len() && pre[m] == q;
        if m < k {
            assert(post[m] == q);
        } else {
            assert(post[m - 1] == q);
        }
    }
}

/// The registered participant ids, in registration order.
pub struct ConnectionTable {
    ids: Vec<String>,
}

impl View for ConnectionTable {
    type V = Seq<Seq<char>>;

    closed spec fn view(&self) -> Seq<Seq<char>> {
        names_view(self.ids@)
    }
}

impl ConnectionTable {
    /// An empty table.
    pub fn new() -> (r: ConnectionTable)
        ensures
            r@.len() == 0,
            conn_ids_distinct(r@),
    {
        let r = ConnectionTable { ids: Vec::new() };
        proof {
            assert(r@ =~= Seq::<Seq<char>>::empty());
        }
        r
    }

    /// How many connections are live.
    pub fn count(&self) -> (r: usize)
        ensures
            r == self@.len(),
    {
        self.ids.len()
    }

    /// Whether the given participant id owns a live connection.
    pub fn contains(&self, participant_id: &str) -> (r: bool)
        ensures
            r == self@.contains(participant_id@),
    {
        let n = self.ids.len();
        let mut i: usize = 0;
        while i < n
            invariant
                n == self.ids@.len(),
                i <= n,
                forall|j: int| 0 <= j < i ==> #[trigger] self@[j] != participant_id@,
            decreases n - i,
        {
            if str_eq(self.ids[i].as_str(), participant_id) {
                proof {
                    assert(self@[i as int] == participant_id@);
                }
                return true;
            }
            i = i + 1;
        }
        proof {
            if self@.contains(participant_id@) {
                let j = choose|j: int| 0 <= j < self@.len() && self@[j] == participant_id@;
                assert(self@[j] != participant_id@);
            }
        }
        false
    }

    /// Registers a connection; registering an id twice leaves the table
    /// unchanged the second time.
    pub fn insert(&mut self, participant_id: String)
        requires
            conn_ids_distinct(old(self)@),
        ensures
            old(self)@.contains(participant_id@) ==> final (self)@ == old(self)@,
            !old(self)@.contains(participant_id@) ==> final (self)@ == old(self)@.push(
                participant_id@,
            ),
            conn_ids_distinct(final (self)@),
            final (self)@.contains(participant_id@),
    {
        if !self.contains(participant_id.as_str()) {
            let ghost old_c = self@;
            let ghost pid_view = participant_id@;
            self.ids.push(participant_id);
            proof {
                assert(self@ =~= old_c.push(pid_view));
                let c = self@;
                assert forall|i: int, j: int|
                    0 <= i < c.len() && 0 <= j < c.len() && c[i] == c[j] implies i == j by {
                    if i < c.len() - 1 && j == c.len() - 1 {
                        assert(old_c.contains(pid_view));
                    } else if j < c.len() - 1 && i == c.len() - 1 {
                        assert(old_c.contains(pid_view));
                    } else if i < c.len() - 1 && j < c.len() - 1 {
                        assert(old_c[i] == old_c[j]);
                    }
                }
                assert(c[c.len() - 1] == pid_view);
            }
        }
    }

    /// Drops a connection; dropping twice is a no-op the second time.
    pub fn remove(&mut self, participant_id: &str)
        requires
            conn_ids_distinct(old(self)@),
        ensures
            !old(self)@.contains(participant_id@) ==> final (self)@ == old(self)@,
            old(self)@.contains(participant_id@) ==> exists|k: int|
                0 <= k < old(self)@.len() && #[trigger] old(self)@[k] == participant_id@
                    && final (self)@ == old(self)@.remove(k),
            conn_ids_distinct(final (self)@),
            !final (self)@.contains(participant_id@),
            conn_remove_rel(old(self)@, final (self)@, participant_id@),
    {
        let n = self.ids.len();
        let mut i: usize = 0;
        while i < n
            invariant
                *self == *old(self),
                conn_ids_distinct(self@),
                n == self.ids@.len(),
                i <= n,
                forall|j: int| 0 <= j < i ==> #[trigger] self@[j] != participant_id@,
            decreases n - i,
        {
            if str_eq(self.ids[i].as_str(), participant_id) {
                let ghost old_c = self@;
                let ghost ki = i as int;
                proof {
                    assert(old_c[ki] == participant_id@);
                }
                self.ids.remove(i);
                proof {
                    assert(self@ =~= old_c.remove(ki));
                    let c = self@;
                    assert forall|a: int, b: int| #![trigger c[a], c[b]]
                        0 <= a < c.len() && 0 <= b < c.len() && c[a] == c[b] implies a == b by {
                        let a0 = if a < ki {
                            a
                        } else {
                            a + 1
                        };
                        let b0 = if b < ki {
                            b
                        } else {
                            b + 1
                        };
                        assert(c[a] == old_c[a0]);
                        assert(c[b] == old_c[b0]);
                        assert(a0 == b0);
                    }
                    assert forall|k: int| 0 <= k < c.len() implies #[trigger] c[k]
                        != participant_id@ by {
                        let k0 = if k < ki {
                            k
                        } else {
                            k + 1
                        };
                        assert(c[k] == old_c[k0]);
                        if old_c[k0] == old_c[ki] {
                            assert(k0 == ki);
                        }
                    }
                    if self@.contains(participant_id@) {
                        let w = choose|w: int|
                            0 <= w < c.len() && c[w] == participant_id@;
                        assert(c[w] != participant_id@);
                    }
                }
                return ;
            }
            i = i + 1;
        }
        proof {
            if self@.contains(participant_id@) {
                let j = choose|j: int| 0 <= j < self@.len() && self@[j] == participant_id@;
                assert(self@[j] != participant_id@);
            }
        }
    }

    /// A snapshot of every live connection id, in registration order.
    pub fn all_ids(&self) -> (r: Vec<String>)
        ensures
            names_view(r@) == self@,
    {
        crate::messages::clone_string_vec(&self.ids)
    }
}

} // verus!
