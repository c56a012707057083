//! The ephemeral lease cache: a key/value store with per-key expiry.
//!
//! Presence of a key (not yet expired) is the only signal the rest of
//! the system reads from it: a `PriorityPing` lease keeps a ticket's
//! recurring notification task alive, and an `EditSession` lease keeps
//! a configuration wizard exclusive to one operator.  The cache offers
//! atomic set / get / delete and nothing else; in particular there is
//! no compare-and-swap.

use vstd::prelude::*;

use crate::records::Priority;

verus! {

/// Time-to-live of a priority lease, in seconds.
pub const PRIORITY_LEASE_TTL_SECS: u64 = 86400;

/// Time-to-live of an edit-session lock, in seconds.
pub const EDIT_SESSION_TTL_SECS: u64 = 600;

/// The two key families the core stores in the cache.
#[derive(Clone, Copy, Debug, PartialEq, Eq, Structural)]
pub enum LeaseKey {
    /// Keyed by ticket id; its presence keeps that ticket's recurring
    /// priority pings running.
    PriorityPing(u64),
    /// Keyed by operator user id; its presence blocks a second
    /// configuration wizard session for that operator.
    EditSession(u64),
}

/// The value stored under a lease key.
#[derive(Clone, Copy, Debug, PartialEq, Eq, Structural)]
pub enum LeaseValue {
    /// A priority lease records the level that was set.
    Priority(Priority),
    /// An edit-session lock records the operator who holds it.
    Operator(u64),
}

/// One cache entry: a key, its value, and the instant it expires.
#[derive(Clone, Copy, Debug)]
pub struct LeaseEntry {
    pub key: LeaseKey,
    pub value: LeaseValue,
    pub expires_at: u64,
}

/// Whether `m` holds a key `k` that has not expired by instant `now`.
/// An entry is live strictly before its expiry instant.
pub open spec fn spec_live(m: Map<LeaseKey, LeaseEntry>, k: LeaseKey, now: u64) -> bool {
    m.dom().contains(k) && now < m[k].expires_at
}

/// The in-memory lease cache.
pub struct LeaseCache {
    pub entries: Vec<LeaseEntry>,
}

impl LeaseCache {
    /// Well-formed: no key occurs twice.
    pub open spec fn wf(self) -> bool {
        forall|i: int, j: int|
            0 <= i < j < self.entries@.len() ==> (#[trigger] self.entries@[i]).key != (
            #[trigger] self.entries@[j]).key
    }

    pub open spec fn has_key(self, k: LeaseKey) -> bool {
        exists|i: int| 0 <= i < self.entries@.len() && (#[trigger] self.entries@[i]).key == k
    }

    pub open spec fn idx_of(self, k: LeaseKey) -> int {
        choose|i: int| 0 <= i < self.entries@.len() && (#[trigger] self.entries@[i]).key == k
    }

    pub open spec fn entry_of(self, k: LeaseKey) -> LeaseEntry {
        self.entries@[self.idx_of(k)]
    }

    /// The cache seen as a map from keys to entries.  All contracts
    /// speak in terms of this view.
    pub open spec fn contents(self) -> Map<LeaseKey, LeaseEntry> {
        Map::new(|k: LeaseKey| self.has_key(k), |k: LeaseKey| self.entry_of(k))
    }

    /// With unique keys, any index holding `k` is the index `idx_of`
    /// picks, so `entry_of` is the entry at that index.
    proof fn lemma_key_index(self, i: int, k: LeaseKey)
        requires
            self.wf(),
            0 <= i < self.entries@.len(),
            self.entries@[i].key == k,
        ensures
            self.has_key(k),
            self.idx_of(k) == i,
            self.entry_of(k) == self.entries@[i],
    {
        assert(self.has_key(k));
        let j = self.idx_of(k);
        assert(0 <= j < self.entries@.len() && self.entries@[j].key == k);
        if j < i {
            assert(self.entries@[j].key != self.entries@[i].key);
        }
        if i < j {
            assert(self.entries@[i].key != self.entries@[j].key);
        }
    }

    /// An empty cache.
    pub fn new() -> (c: LeaseCache)
        ensures
            c.wf(),
            c.contents() == Map::<LeaseKey, LeaseEntry>::empty(),
    {
        let c = LeaseCache { entries: Vec::new() };
        proof {
            assert(c.contents() =~= Map::<LeaseKey, LeaseEntry>::empty());
        }
        c
    }

    /// Index of the entry holding `k`, if any.
    fn find(&self, k: LeaseKey) -> (r: Option<usize>)
        requires
            self.wf(),
        ensures
            match r {
                Some(i) => {
                    &&& i < self.entries@.len()
                    &&& self.entries@[i as int].key == k
                    &&& self.has_key(k)
                    &&& self.idx_of(k) == i
                },
                None => !self.has_key(k),
            },
    {
        let mut i: usize = 0;
        while i < self.entries.len()
            invariant
                self.wf(),
                i <= self.entries@.len(),
                forall|j: int| 0 <= j < i ==> (#[trigger] self.entries@[j]).key != k,
            decreases self.entries@.len() - i,
        {
            if self.entries[i].key == k {
                proof {
                    self.lemma_key_index(i as int, k);
                }
                return Some(i);
            }
            i = i + 1;
        }
        None
    }

    /// Atomic read: the value under `k`, provided the entry has not
    /// expired by `now`.
    pub fn get(&self, k: LeaseKey, now: u64) -> (r: Option<LeaseValue>)
        requires
            self.wf(),
        ensures
            r == (if spec_live(self.contents(), k, now) {
                Some(self.contents()[k].value)
            } else {
                None::<LeaseValue>
            }),
    {
        match self.find(k) {
            Some(i) => {
                let e = self.entries[i];
                if now < e.expires_at {
                    Some(e.value)
                } else {
                    None
                }
            },
            None => None,
        }
    }

    /// Atomic delete.  Returns whether the key was present (expired or
    /// not).  Deleting an absent key leaves the cache untouched.
    pub fn delete(&mut self, k: LeaseKey) -> (was: bool)
        requires
            old(self).wf(),
        ensures
            final(self).wf(),
            was == old(self).contents().dom().contains(k),
            final(self).contents() == old(self).contents().remove(k),
            !was ==> *final(self) == *old(self),
    {
        let ghost before = *old(self);
        match self.find(k) {
            Some(i) => {
                self.entries.remove(i);
                proof {
                    self.lemma_after_remove(before, i as int, k);
                }
                true
            },
            None => {
                proof {
                    assert(before.contents() =~= before.contents().remove(k));
                }
                false
            },
        }
    }

    /// After removing index `i` (which held key `k`) from a
    /// well-formed cache, the map view has lost exactly `k`.
    proof fn lemma_after_remove(self, before: LeaseCache, i: int, k: LeaseKey)
        requires
            before.wf(),
            0 <= i < before.entries@.len(),
            before.entries@[i].key == k,
            self.entries@ == before.entries@.remove(i),
        ensures
            self.wf(),
            self.contents() == before.contents().remove(k),
    {
        let sa = self.entries@;
        let sb = before.entries@;
        assert forall|p: int, q: int| 0 <= p < q < sa.len() implies (#[trigger] sa[p]).key != (
        #[trigger] sa[q]).key by {
            let p0 = if p < i {
                p
            } else {
                p + 1
            };
            let q0 = if q < i {
                q
            } else {
                q + 1
            };
            assert(sa[p] == sb[p0]);
            assert(sa[q] == sb[q0]);
            assert(sb[p0].key != sb[q0].key);
        }
        assert forall|k2: LeaseKey| #[trigger] self.has_key(k2) implies k2 != k
            && before.has_key(k2) && self.entry_of(k2) == before.entry_of(k2) by {
            let j = self.idx_of(k2);
            assert(0 <= j < sa.len() && sa[j].key == k2);
            let j0 = if j < i {
                j
            } else {
                j + 1
            };
            assert(sa[j] == sb[j0]);
            before.lemma_key_index(j0, k2);
            if k2 == k {
                assert(sb[j0].key != sb[i].key || j0 == i);
                assert(false);
            }
            self.lemma_key_index(j, k2);
        }
        assert forall|k2: LeaseKey| k2 != k && #[trigger] before.has_key(k2) implies self.has_key(
            k2,
        ) by {
            let j0 = before.idx_of(k2);
            assert(0 <= j0 < sb.len() && sb[j0].key == k2);
            if j0 < i {
                assert(sa[j0] == sb[j0]);
                self.lemma_key_index(j0, k2);
            } else {
                assert(sb[j0].key != sb[i].key);
                assert(sa[j0 - 1] == sb[j0]);
                self.lemma_key_index(j0 - 1, k2);
            }
        }
        assert(self.contents() =~= before.contents().remove(k));
    }

    /// Atomic write with a time-to-live: the entry for `k` becomes
    /// `(v, now + ttl)`, replacing any prior entry for `k`.
    pub fn set(&mut self, k: LeaseKey, v: LeaseValue, ttl: u64, now: u64)
        requires
            old(self).wf(),
            now + ttl <= u64::MAX,
        ensures
            final(self).wf(),
            final(self).contents() == old(self).contents().insert(
                k,
                LeaseEntry { key: k, value: v, expires_at: (now + ttl) as u64 },
            ),
    {
        let ghost before = *old(self);
        self.delete(k);
        let ghost mid = *self;
        let e = LeaseEntry { key: k, value: v, expires_at: now + ttl };
        self.entries.push(e);
        proof {
            assert(!mid.contents().dom().contains(k));
            assert(!mid.has_key(k));
            self.lemma_after_push(mid, e);
            assert(self.contents() =~= before.contents().insert(k, e));
        }
    }

    /// Pushing an entry whose key is absent adds exactly that key to
    /// the map view.
    proof fn lemma_after_push(self, mid: LeaseCache, e: LeaseEntry)
        requires
            mid.wf(),
            !mid.has_key(e.key),
            self.entries@ == mid.entries@.push(e),
        ensures
            self.wf(),
            self.contents() == mid.contents().insert(e.key, e),
    {
        let sa = self.entries@;
        let sb = mid.entries@;
        let n = sb.len() as int;
        assert forall|p: int, q: int| 0 <= p < q < sa.len() implies (#[trigger] sa[p]).key != (
        #[trigger] sa[q]).key by {
            if q < n {
                assert(sa[p] == sb[p]);
                assert(sa[q] == sb[q]);
            } else {
                assert(sa[q] == e);
                assert(sa[p] == sb[p]);
                if sb[p].key == e.key {
                    mid.lemma_key_index(p, e.key);
                    assert(false);
                }
            }
        }
        assert forall|k2: LeaseKey| #[trigger] self.has_key(k2) implies (k2 == e.key
            && self.entry_of(k2) == e) || (k2 != e.key && mid.has_key(k2) && self.entry_of(k2)
            == mid.entry_of(k2)) by {
            let j = self.idx_of(k2);
            assert(0 <= j < sa.len() && sa[j].key == k2);
            if j == n {
                assert(sa[j] == e);
                self.lemma_key_index(j, k2);
            } else {
                assert(sa[j] == sb[j]);
                mid.lemma_key_index(j, k2);
                self.lemma_key_index(j, k2);
                if k2 == e.key {
                    assert(mid.has_key(e.key));
                    assert(false);
                }
            }
        }
        assert(self.has_key(e.key)) by {
            assert(sa[n] == e);
        }
        assert forall|k2: LeaseKey| k2 != e.key && #[trigger] mid.has_key(k2) implies self.has_key(
            k2,
        ) by {
            let j0 = mid.idx_of(k2);
            assert(0 <= j0 < sb.len() && sb[j0].key == k2);
            assert(sa[j0] == sb[j0]);
            self.lemma_key_index(j0, k2);
        }
        assert(self.contents() =~= mid.contents().insert(e.key, e));
    }
}

/// Outcome of trying to open an edit session.
#[derive(Clone, Copy, Debug, PartialEq, Eq, Structural)]
pub enum AcquireOutcome {
    Acquired,
    SessionActive,
}

/// Writes the priority lease for `ticket_id`, recording the level that
/// was set, with the standard time-to-live.
pub fn set_priority_lease(cache: &mut LeaseCache, ticket_id: u64, level: Priority, now: u64)
    requires
        old(cache).wf(),
        now + PRIORITY_LEASE_TTL_SECS <= u64::MAX,
    ensures
        final(cache).wf(),
        final(cache).contents() == old(cache).contents().insert(
            LeaseKey::PriorityPing(ticket_id),
            (LeaseEntry {
                key: LeaseKey::PriorityPing(ticket_id),
                value: LeaseValue::Priority(level),
                expires_at: (now + PRIORITY_LEASE_TTL_SECS) as u64,
            }),
        ),
{
    cache.set(
        LeaseKey::PriorityPing(ticket_id),
        LeaseValue::Priority(level),
        PRIORITY_LEASE_TTL_SECS,
        now,
    );
}

/// Deletes the priority lease for `ticket_id`.  Returns whether a
/// lease entry was present.  Deleting an absent lease is a no-op, so
/// the operation is idempotent.
pub fn cancel_priority_lease(cache: &mut LeaseCache, ticket_id: u64) -> (was: bool)
    requires
        old(cache).wf(),
    ensures
        final(cache).wf(),
        was == old(cache).contents().dom().contains(LeaseKey::PriorityPing(ticket_id)),
        final(cache).contents() == old(cache).contents().remove(
            LeaseKey::PriorityPing(ticket_id),
        ),
        !was ==> *final(cache) == *old(cache),
{
    cache.delete(LeaseKey::PriorityPing(ticket_id))
}

/// Law: cancelling the same ticket's priority lease twice is a no-op
/// the second time.  The first cancellation leaves the key absent, so
/// the second one reports the key missing and changes nothing: at the
/// map level, removing a key twice equals removing it once.
pub proof fn lemma_cancel_priority_lease_idempotent(
    m: Map<LeaseKey, LeaseEntry>,
    ticket_id: u64,
)
    ensures
        !m.remove(LeaseKey::PriorityPing(ticket_id)).dom().contains(
            LeaseKey::PriorityPing(ticket_id),
        ),
        m.remove(LeaseKey::PriorityPing(ticket_id)).remove(LeaseKey::PriorityPing(ticket_id))
            == m.remove(LeaseKey::PriorityPing(ticket_id)),
{
    let k = LeaseKey::PriorityPing(ticket_id);
    assert(m.remove(k).remove(k) =~= m.remove(k));
}

/// Opens an edit session for `operator_id`: fails while a non-expired
/// lock for that operator exists, and otherwise writes a lock that
/// lasts `EDIT_SESSION_TTL_SECS`.
pub fn acquire_edit_session(cache: &mut LeaseCache, operator_id: u64, now: u64) -> (r:
    AcquireOutcome)
    requires
        old(cache).wf(),
        now + EDIT_SESSION_TTL_SECS <= u64::MAX,
    ensures
        final(cache).wf(),
        r == (if spec_live(old(cache).contents(), LeaseKey::EditSession(operator_id), now) {
            AcquireOutcome::SessionActive
        } else {
            AcquireOutcome::Acquired
        }),
        r == AcquireOutcome::SessionActive ==> *final(cache) == *old(cache),
        r == AcquireOutcome::Acquired ==> final(cache).contents() == old(
            cache,
        ).contents().insert(
            LeaseKey::EditSession(operator_id),
            (LeaseEntry {
                key: LeaseKey::EditSession(operator_id),
                value: LeaseValue::Operator(operator_id),
                expires_at: (now + EDIT_SESSION_TTL_SECS) as u64,
            }),
        ),
{
    let key = LeaseKey::EditSession(operator_id);
    match cache.get(key, now) {
        Some(_) => AcquireOutcome::SessionActive,
        None => {
            cache.set(key, LeaseValue::Operator(operator_id), EDIT_SESSION_TTL_SECS, now);
            AcquireOutcome::Acquired
        },
    }
}

/// Closes an operator's edit session by deleting the lock.  No
/// ownership token is checked: the key is scoped to the operator's own
/// id.
pub fn release_edit_session(cache: &mut LeaseCache, operator_id: u64) -> (was: bool)
    requires
        old(cache).wf(),
    ensures
        final(cache).wf(),
        was == old(cache).contents().dom().contains(LeaseKey::EditSession(operator_id)),
        final(cache).contents() == old(cache).contents().remove(
            LeaseKey::EditSession(operator_id),
        ),
{
    cache.delete(LeaseKey::EditSession(operator_id))
}

/// Law: once an operator acquires an edit session at `t_acquire`, a
/// second acquire for the same operator fails at any instant before
/// the lock's expiry; after an explicit release, or once the
/// time-to-live has passed, an acquire succeeds again.  (An acquire
/// fails exactly when the lock is live — see `acquire_edit_session`.)
pub proof fn lemma_edit_session_mutual_exclusion(
    m: Map<LeaseKey, LeaseEntry>,
    operator_id: u64,
    t_acquire: u64,
    t_retry: u64,
)
    requires
        !spec_live(m, LeaseKey::EditSession(operator_id), t_acquire),
        t_acquire + EDIT_SESSION_TTL_SECS <= u64::MAX,
    ensures
        ({
            let k = LeaseKey::EditSession(operator_id);
            let m1 = m.insert(
                k,
                (LeaseEntry {
                    key: k,
                    value: LeaseValue::Operator(operator_id),
                    expires_at: (t_acquire + EDIT_SESSION_TTL_SECS) as u64,
                }),
            );
            &&& t_retry < t_acquire + EDIT_SESSION_TTL_SECS ==> spec_live(m1, k, t_retry)
            &&& !spec_live(m1.remove(k), k, t_retry)
            &&& t_retry >= t_acquire + EDIT_SESSION_TTL_SECS ==> !spec_live(m1, k, t_retry)
        }),
{
}

} // verus!
