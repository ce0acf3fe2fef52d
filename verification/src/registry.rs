//! The connection registry: the state of the fan-out actor.
//!
//! One logical writer owns the set of live connections.  Each connection
//! is a handle (an opaque id the transport layer maps to a socket) bound
//! to its owning user at subscribe time.  The registry decides which
//! connections a broadcast targets (everyone but the author, minus the
//! recipients whose encoder suppresses the event: admins for updates,
//! non-admins for a hidden message's first broadcast), removes exactly
//! the connections whose sends failed, prunes handles the liveness pass
//! found dead, and answers live-count requests.  The transport —
//! sending, polling, awaiting — stays outside; the registry's every
//! transition is verified.

use vstd::prelude::*;
use crate::jsonout::{count_json, count_json_chars};
use crate::messages::FullMessage;
use crate::user::User;
use crate::wire::{is_encoding_for, suppressed_for, WsPayload};
use vstd::utf8::encode_utf8;

verus! {

/// One live connection: an opaque transport handle and its owner.
pub struct Conn {
    /// The transport layer's handle for the socket.
    pub conn_id: u64,
    /// The owning user, bound at subscribe time.
    pub user: User,
}

impl Clone for User {
    /// Clones a user value field by field.
    fn clone(&self) -> (res: User)
        ensures
            res == *self,
    {
        User { id: self.id, code: self.code.clone(), admin: self.admin, banned: self.banned }
    }
}

impl Clone for Conn {
    /// Clones a connection entry.
    fn clone(&self) -> (res: Conn)
        ensures
            res == *self,
    {
        Conn { conn_id: self.conn_id, user: self.user.clone() }
    }
}

/// Whether a broadcast of a message by `author` attempts delivery to
/// this connection: the author's own connections are skipped, and so
/// are the recipients for whom the event is suppressed — admins for
/// update events, and non-admins for the first broadcast of an
/// unpublished message, whose content only its author and admins may
/// see.
pub open spec fn is_target(c: Conn, author: u128, is_update: bool, published: bool) -> bool {
    c.user.id != author && !(is_update && c.user.admin) && (published || c.user.admin
        || is_update)
}

/// The indices, in order, of the broadcast targets among the first `n`
/// connections.
pub open spec fn target_idx_upto(
    s: Seq<Conn>,
    author: u128,
    is_update: bool,
    published: bool,
    n: int,
) -> Seq<int>
    recommends
        n <= s.len(),
    decreases n,
{
    if n <= 0 {
        Seq::empty()
    } else {
        target_idx_upto(s, author, is_update, published, n - 1) + (if is_target(
            s[n - 1],
            author,
            is_update,
            published,
        ) {
            seq![n - 1]
        } else {
            Seq::empty()
        })
    }
}

/// How many of the first `n` connections the author owns.
pub open spec fn author_conns_upto(s: Seq<Conn>, author: u128, n: int) -> int
    recommends
        n <= s.len(),
    decreases n,
{
    if n <= 0 {
        0
    } else {
        author_conns_upto(s, author, n - 1) + (if s[n - 1].user.id == author {
            1int
        } else {
            0int
        })
    }
}

/// The first `n` connections with the listed handles removed.
pub open spec fn retain_without(s: Seq<Conn>, ids: Seq<u64>, n: int) -> Seq<Conn>
    recommends
        n <= s.len(),
    decreases n,
{
    if n <= 0 {
        Seq::empty()
    } else {
        retain_without(s, ids, n - 1) + (if ids.contains(s[n - 1].conn_id) {
            Seq::empty()
        } else {
            seq![s[n - 1]]
        })
    }
}

/// The handles, in order, of the admin-owned connections among the
/// first `n`.
pub open spec fn admin_conn_ids(s: Seq<Conn>, n: int) -> Seq<u64>
    recommends
        n <= s.len(),
    decreases n,
{
    if n <= 0 {
        Seq::empty()
    } else {
        admin_conn_ids(s, n - 1) + (if s[n - 1].user.admin {
            seq![s[n - 1].conn_id]
        } else {
            Seq::empty()
        })
    }
}

/// The index of the first of the connections from `i` on that `uid`
/// owns, if any.
pub open spec fn find_user_from(s: Seq<Conn>, uid: u128, i: int) -> Option<int>
    recommends
        0 <= i,
    decreases s.len() - i,
{
    if i < 0 || i >= s.len() {
        None
    } else if s[i].user.id == uid {
        Some(i)
    } else {
        find_user_from(s, uid, i + 1)
    }
}

/// Every target index points into the sequence, at a connection the
/// broadcast targets.
pub proof fn lemma_target_idx_range(
    s: Seq<Conn>,
    author: u128,
    is_update: bool,
    published: bool,
    n: int,
)
    requires
        n <= s.len(),
    ensures
        forall|k: int|
            0 <= k < target_idx_upto(s, author, is_update, published, n).len()
                ==> 0 <= #[trigger] target_idx_upto(s, author, is_update, published, n)[k] < n
                && is_target(
                s[target_idx_upto(s, author, is_update, published, n)[k]],
                author,
                is_update,
                published,
            ),
    decreases n,
{
    if n > 0 {
        lemma_target_idx_range(s, author, is_update, published, n - 1);
        let prev = target_idx_upto(s, author, is_update, published, n - 1);
        let cur = target_idx_upto(s, author, is_update, published, n);
        assert forall|k: int| 0 <= k < cur.len() implies 0 <= cur[k] < n && is_target(
            s[cur[k]],
            author,
            is_update,
            published,
        ) by {
            if is_target(s[n - 1], author, is_update, published) {
                if k < prev.len() {
                    assert(cur[k] == prev[k]);
                } else {
                    assert(cur[k] == n - 1);
                }
            } else {
                assert(cur =~= prev);
                assert(cur[k] == prev[k]);
            }
        }
    }
}

/// For a published new message, exactly the non-author connections are
/// targeted: the target count is the connection count less the author's
/// own.
pub proof fn lemma_targets_count(s: Seq<Conn>, author: u128, n: int)
    requires
        0 <= n <= s.len(),
    ensures
        target_idx_upto(s, author, false, true, n).len() == n - author_conns_upto(s, author, n),
        author_conns_upto(s, author, n) >= 0,
    decreases n,
{
    if n > 0 {
        lemma_targets_count(s, author, n - 1);
    }
}

/// A broadcast of a published message to `N` registered connections
/// where the author owns exactly one of them makes exactly `N - 1`
/// delivery attempts.
pub proof fn lemma_broadcast_excludes_author(s: Seq<Conn>, author: u128)
    requires
        author_conns_upto(s, author, s.len() as int) == 1,
    ensures
        target_idx_upto(s, author, false, true, s.len() as int).len() == s.len() - 1,
{
    lemma_targets_count(s, author, s.len() as int);
}

/// No connection with a removed handle survives the removal.
pub proof fn lemma_retain_without_ok(s: Seq<Conn>, ids: Seq<u64>, n: int)
    requires
        n <= s.len(),
    ensures
        forall|j: int|
            0 <= j < retain_without(s, ids, n).len() ==> !ids.contains(
                #[trigger] retain_without(s, ids, n)[j].conn_id,
            ),
    decreases n,
{
    if n > 0 {
        lemma_retain_without_ok(s, ids, n - 1);
        let prev = retain_without(s, ids, n - 1);
        let cur = retain_without(s, ids, n);
        assert forall|j: int| 0 <= j < cur.len() implies !ids.contains(cur[j].conn_id) by {
            if ids.contains(s[n - 1].conn_id) {
                assert(cur =~= prev);
                assert(cur[j] == prev[j]);
            } else {
                if j < prev.len() {
                    assert(cur[j] == prev[j]);
                } else {
                    assert(cur[j] == s[n - 1]);
                }
            }
        }
    }
}

/// After a send failure prunes a connection, a subsequent broadcast no
/// longer attempts delivery to it: no target of the pruned registry has
/// a failed handle.
pub proof fn lemma_failed_never_targeted(
    s: Seq<Conn>,
    failed: Seq<u64>,
    author: u128,
    is_update: bool,
    published: bool,
)
    ensures
        ({
            let t = retain_without(s, failed, s.len() as int);
            let idx = target_idx_upto(t, author, is_update, published, t.len() as int);
            forall|k: int| 0 <= k < idx.len() ==> !failed.contains(#[trigger] t[idx[k]].conn_id)
        }),
{
    let t = retain_without(s, failed, s.len() as int);
    lemma_retain_without_ok(s, failed, s.len() as int);
    lemma_target_idx_range(t, author, is_update, published, t.len() as int);
}

/// Whether `v` holds `x`.
fn contains_u64(v: &Vec<u64>, x: u64) -> (r: bool)
    ensures
        r == v@.contains(x),
{
    let mut i: usize = 0;
    while i < v.len()
        invariant
            0 <= i <= v@.len(),
            forall|j: int| 0 <= j < i ==> v@[j] != x,
        decreases v@.len() - i,
    {
        if v[i] == x {
            return true;
        }
        i = i + 1;
    }
    false
}

/// The live-connection set, owned exclusively by the fan-out actor.
pub struct Registry {
    /// The live connections, in subscription order.
    pub conns: Vec<Conn>,
}

impl Registry {
    /// An actor restart starts with no connections; clients re-subscribe
    /// on reconnect.
    pub fn new() -> (r: Registry)
        ensures
            r.conns@.len() == 0,
    {
        Registry { conns: Vec::new() }
    }

    /// The current live-connection count.
    pub fn count(&self) -> (r: usize)
        ensures
            r == self.conns@.len(),
    {
        self.conns.len()
    }

    /// The connection at an index.
    pub fn conn_at(&self, i: usize) -> (r: &Conn)
        requires
            i < self.conns@.len(),
        ensures
            *r == self.conns@[i as int],
    {
        &self.conns[i]
    }

    /// Registers a new live connection under its owning user.  No
    /// acknowledgement: the effect is observable only through later
    /// broadcasts.
    pub fn subscribe(&mut self, conn_id: u64, user: User)
        ensures
            final(self).conns@ == old(self).conns@.push((Conn { conn_id, user })),
    {
        self.conns.push(Conn { conn_id, user });
    }

    /// The indices of the connections a broadcast of a message by
    /// `author` targets, in registration order.
    pub fn broadcast_targets(&self, author: u128, is_update: bool, published: bool) -> (r: Vec<
        usize,
    >)
        ensures
            r@.map_values(|v: usize| v as int) == target_idx_upto(
                self.conns@,
                author,
                is_update,
                published,
                self.conns@.len() as int,
            ),
            forall|k: int| 0 <= k < r@.len() ==> #[trigger] r@[k] < self.conns@.len(),
    {
        let mut r: Vec<usize> = Vec::new();
        let mut i: usize = 0;
        while i < self.conns.len()
            invariant
                0 <= i <= self.conns@.len(),
                r@.map_values(|v: usize| v as int) == target_idx_upto(
                    self.conns@,
                    author,
                    is_update,
                    published,
                    i as int,
                ),
                forall|k: int| 0 <= k < r@.len() ==> #[trigger] r@[k] < i,
            decreases self.conns@.len() - i,
        {
            let c = &self.conns[i];
            if c.user.id != author && !(is_update && c.user.admin) && (published || c.user.admin
                || is_update) {
                r.push(i);
                proof {
                    assert(r@.map_values(|v: usize| v as int) =~= target_idx_upto(
                        self.conns@,
                        author,
                        is_update,
                        published,
                        i as int + 1,
                    ));
                }
            } else {
                proof {
                    assert(r@.map_values(|v: usize| v as int) =~= target_idx_upto(
                        self.conns@,
                        author,
                        is_update,
                        published,
                        i as int + 1,
                    ));
                }
            }
            i = i + 1;
        }
        r
    }

    /// The per-recipient payloads of one broadcast: one delivery attempt
    /// for every target, in registration order, each payload a correct
    /// encoding of the event for that target's owner.  Fan-out is per
    /// connection; a failure of one delivery never affects another.
    pub fn build_broadcast(&self, m: &FullMessage, is_update: bool) -> (r: Vec<(u64, WsPayload)>)
        requires
            m.created_at_ms >= 0,
            encode_utf8(m.content@).len() < 0xffff_ff00,
        ensures
            ({
                let idx = target_idx_upto(
                    self.conns@,
                    m.author,
                    is_update,
                    m.published,
                    self.conns@.len() as int,
                );
                r@.len() == idx.len() && forall|k: int|
                    0 <= k < idx.len() ==> #[trigger] r@[k].0 == self.conns@[idx[k]].conn_id
                        && is_encoding_for(r@[k].1, self.conns@[idx[k]].user, *m, is_update)
            }),
    {
        let targets = self.broadcast_targets(m.author, is_update, m.published);
        let mut r: Vec<(u64, WsPayload)> = Vec::new();
        let mut i: usize = 0;
        proof {
            lemma_target_idx_range(
                self.conns@,
                m.author,
                is_update,
                m.published,
                self.conns@.len() as int,
            );
            assert forall|k: int| 0 <= k < targets@.len() implies is_target(
                self.conns@[#[trigger] targets@[k] as int],
                m.author,
                is_update,
                m.published,
            ) by {
                assert(targets@.map_values(|v: usize| v as int)[k] == targets@[k] as int);
            }
        }
        while i < targets.len()
            invariant
                0 <= i <= targets@.len(),
                m.created_at_ms >= 0,
                encode_utf8(m.content@).len() < 0xffff_ff00,
                targets@.map_values(|v: usize| v as int) == target_idx_upto(
                    self.conns@,
                    m.author,
                    is_update,
                    m.published,
                    self.conns@.len() as int,
                ),
                forall|k: int| 0 <= k < targets@.len() ==> #[trigger] targets@[k]
                    < self.conns@.len(),
                forall|k: int|
                    0 <= k < targets@.len() ==> is_target(
                        self.conns@[#[trigger] targets@[k] as int],
                        m.author,
                        is_update,
                        m.published,
                    ),
                r@.len() == i,
                forall|k: int|
                    0 <= k < i ==> #[trigger] r@[k].0 == self.conns@[targets@[k] as int].conn_id
                        && is_encoding_for(
                        r@[k].1,
                        self.conns@[targets@[k] as int].user,
                        *m,
                        is_update,
                    ),
            decreases targets@.len() - i,
        {
            let t = targets[i];
            let c = &self.conns[t];
            let payload = m.encode_message_for(&c.user, is_update);
            match payload {
                Some(p) => {
                    r.push((c.conn_id, p));
                },
                None => {
                    proof {
                        assert(is_target(self.conns@[t as int], m.author, is_update, m.published));
                        assert(suppressed_for(c.user, *m, is_update));
                        assert(false);
                    }
                },
            }
            i = i + 1;
        }
        proof {
            assert(targets@.map_values(|v: usize| v as int).len() == targets@.len());
        }
        r
    }

    /// Removes exactly the connections whose sends failed, by handle.  A
    /// dead connection is assumed permanently dead: no retry, and the
    /// owner's other connections stay.
    pub fn apply_send_failures(&mut self, failed: &Vec<u64>)
        ensures
            final(self).conns@ == retain_without(
                old(self).conns@,
                failed@,
                old(self).conns@.len() as int,
            ),
            forall|j: int|
                0 <= j < final(self).conns@.len() ==> !failed@.contains(
                    #[trigger] final(self).conns@[j].conn_id,
                ),
    {
        let ghost gold = self.conns@;
        let mut kept: Vec<Conn> = Vec::new();
        let mut i: usize = 0;
        while i < self.conns.len()
            invariant
                0 <= i <= self.conns@.len(),
                self.conns@ == gold,
                kept@ == retain_without(gold, failed@, i as int),
            decreases self.conns@.len() - i,
        {
            let c = &self.conns[i];
            if !contains_u64(failed, c.conn_id) {
                kept.push(c.clone());
            }
            proof {
                assert(kept@ =~= retain_without(gold, failed@, i as int + 1));
            }
            i = i + 1;
        }
        self.conns = kept;
        proof {
            lemma_retain_without_ok(gold, failed@, gold.len() as int);
        }
    }

    /// Removes the connections whose handles the liveness pass found
    /// dead.  If the live count changed, returns the admin handles to
    /// notify together with the new count payload; if nothing was
    /// pruned, nobody is notified.
    pub fn apply_prune(&mut self, dead: &Vec<u64>) -> (r: Option<(Vec<u64>, String)>)
        ensures
            final(self).conns@ == retain_without(
                old(self).conns@,
                dead@,
                old(self).conns@.len() as int,
            ),
            final(self).conns@.len() == old(self).conns@.len() ==> r is None,
            final(self).conns@.len() != old(self).conns@.len() ==> (r matches Some(p) && p.0@
                == admin_conn_ids(final(self).conns@, final(self).conns@.len() as int) && p.1@
                == count_json_chars(final(self).conns@.len() as int)),
    {
        let ghost gold = self.conns@;
        let before = self.conns.len();
        let mut kept: Vec<Conn> = Vec::new();
        let mut i: usize = 0;
        while i < self.conns.len()
            invariant
                0 <= i <= self.conns@.len(),
                self.conns@ == gold,
                kept@ == retain_without(gold, dead@, i as int),
            decreases self.conns@.len() - i,
        {
            let c = &self.conns[i];
            if !contains_u64(dead, c.conn_id) {
                kept.push(c.clone());
            }
            proof {
                assert(kept@ =~= retain_without(gold, dead@, i as int + 1));
            }
            i = i + 1;
        }
        self.conns = kept;
        let after = self.conns.len();
        if after == before {
            return None;
        }
        let mut admins: Vec<u64> = Vec::new();
        let mut j: usize = 0;
        while j < self.conns.len()
            invariant
                0 <= j <= self.conns@.len(),
                admins@ == admin_conn_ids(self.conns@, j as int),
            decreases self.conns@.len() - j,
        {
            let c = &self.conns[j];
            if c.user.admin {
                admins.push(c.conn_id);
            }
            proof {
                assert(admins@ =~= admin_conn_ids(self.conns@, j as int + 1));
            }
            j = j + 1;
        }
        let payload = count_json(after as u64);
        Some((admins, payload))
    }

    /// Answers a live-count request: finds the first connection owned by
    /// `uid` and pairs its handle with the current total count (the
    /// requester's own connection included).  No connection, no reply.
    pub fn count_reply(&self, uid: u128) -> (r: Option<(u64, String)>)
        ensures
            find_user_from(self.conns@, uid, 0) matches Some(ix) ==> (r matches Some(p) && p.0
                == self.conns@[ix].conn_id && p.1@ == count_json_chars(
                self.conns@.len() as int,
            )),
            find_user_from(self.conns@, uid, 0) is None ==> r is None,
    {
        let total = self.conns.len();
        let mut i: usize = 0;
        while i < self.conns.len()
            invariant
                0 <= i <= self.conns@.len(),
                total == self.conns@.len(),
                find_user_from(self.conns@, uid, 0) == find_user_from(self.conns@, uid, i as int),
            decreases self.conns@.len() - i,
        {
            let c = &self.conns[i];
            if c.user.id == uid {
                let payload = count_json(total as u64);
                proof {
                    assert(find_user_from(self.conns@, uid, i as int) == Some(i as int));
                    assert(find_user_from(self.conns@, uid, 0) == Some(i as int));
                    assert(total as int == self.conns@.len() as int);
                    assert((total as u64) as int == total as int);
                    assert(payload@ == count_json_chars(self.conns@.len() as int));
                }
                return Some((c.conn_id, payload));
            }
            proof {
                assert(find_user_from(self.conns@, uid, i as int) == find_user_from(
                    self.conns@,
                    uid,
                    i as int + 1,
                ));
            }
            i = i + 1;
        }
        proof {
            assert(find_user_from(self.conns@, uid, self.conns@.len() as int) is None);
        }
        None
    }
}

} // verus!
