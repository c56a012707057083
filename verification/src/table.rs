//! A tiny theory of tables: vectors of records keyed by one `u64`,
//! with no key stored twice, seen in contracts as a `Map` from key to
//! record.  The durable store keeps each of its record kinds in such a
//! table.

use vstd::prelude::*;

use crate::records::{Escalation, GuildConfig, Reminder, Ticket};

verus! {

/// A record type carried in a table keyed by one `u64`.
pub trait Keyed: Sized {
    spec fn key(self) -> u64;

    fn key_of(&self) -> (k: u64)
        ensures
            k == self.key(),
    ;
}

impl Keyed for Ticket {
    open spec fn key(self) -> u64 {
        self.id
    }

    fn key_of(&self) -> (k: u64)
        ensures
            k == self.key(),
    {
        self.id
    }
}

impl Keyed for Escalation {
    open spec fn key(self) -> u64 {
        self.ticket_id
    }

    fn key_of(&self) -> (k: u64)
        ensures
            k == self.key(),
    {
        self.ticket_id
    }
}

impl Keyed for Reminder {
    open spec fn key(self) -> u64 {
        self.id
    }

    fn key_of(&self) -> (k: u64)
        ensures
            k == self.key(),
    {
        self.id
    }
}

impl Keyed for GuildConfig {
    open spec fn key(self) -> u64 {
        self.guild_id
    }

    fn key_of(&self) -> (k: u64)
        ensures
            k == self.key(),
    {
        self.guild_id
    }
}

/// Well-formed: no key occurs twice.
pub open spec fn tbl_wf<T: Keyed>(s: Seq<T>) -> bool {
    forall|i: int, j: int|
        0 <= i < j < s.len() ==> (#[trigger] s[i]).key() != (#[trigger] s[j]).key()
}

pub open spec fn tbl_has<T: Keyed>(s: Seq<T>, k: u64) -> bool {
    exists|i: int| 0 <= i < s.len() && (#[trigger] s[i]).key() == k
}

pub open spec fn tbl_idx<T: Keyed>(s: Seq<T>, k: u64) -> int {
    choose|i: int| 0 <= i < s.len() && (#[trigger] s[i]).key() == k
}

pub open spec fn tbl_at<T: Keyed>(s: Seq<T>, k: u64) -> T {
    s[tbl_idx(s, k)]
}

/// The table seen as a map from key to record.
pub open spec fn tbl_map<T: Keyed>(s: Seq<T>) -> Map<u64, T> {
    Map::new(|k: u64| tbl_has(s, k), |k: u64| tbl_at(s, k))
}

/// A table holds a key exactly when its map view does.
pub broadcast proof fn lemma_tbl_has_dom<T: Keyed>(s: Seq<T>, k: u64)
    ensures
        #[trigger] tbl_has(s, k) == tbl_map(s).dom().contains(k),
{
}

/// The record a table holds under `k` is the map view's value there.
pub broadcast proof fn lemma_tbl_at_map<T: Keyed>(s: Seq<T>, k: u64)
    ensures
        tbl_has(s, k) ==> #[trigger] tbl_at(s, k) == tbl_map(s)[k],
{
}

/// With unique keys, any index holding `k` is the one `tbl_idx` picks.
pub proof fn tbl_key_index<T: Keyed>(s: Seq<T>, i: int, k: u64)
    requires
        tbl_wf(s),
        0 <= i < s.len(),
        s[i].key() == k,
    ensures
        tbl_has(s, k),
        tbl_idx(s, k) == i,
        tbl_at(s, k) == s[i],
{
    assert(tbl_has(s, k));
    let j = tbl_idx(s, k);
    assert(0 <= j < s.len() && s[j].key() == k);
    if j < i {
        assert(s[j].key() != s[i].key());
    }
    if i < j {
        assert(s[i].key() != s[j].key());
    }
}

/// Removing the index that holds `k` removes exactly `k` from the map
/// view.
pub proof fn tbl_after_remove<T: Keyed>(sb: Seq<T>, i: int, k: u64, sa: Seq<T>)
    requires
        tbl_wf(sb),
        0 <= i < sb.len(),
        sb[i].key() == k,
        sa == sb.remove(i),
    ensures
        tbl_wf(sa),
        tbl_map(sa) == tbl_map(sb).remove(k),
{
    assert forall|p: int, q: int| 0 <= p < q < sa.len() implies (#[trigger] sa[p]).key() != (
    #[trigger] sa[q]).key() by {
        let p0 = if p < i {
            p
        } else {
            p + 1
        };
        let q0 = if q < i {
            q
        } else {
            q + 1
        };
        assert(sa[p] == sb[p0]);
        assert(sa[q] == sb[q0]);
        assert(sb[p0].key() != sb[q0].key());
    }
    assert forall|k2: u64| #[trigger] tbl_has(sa, k2) implies k2 != k && tbl_has(sb, k2)
        && tbl_at(sa, k2) == tbl_at(sb, k2) by {
        let j = tbl_idx(sa, k2);
        assert(0 <= j < sa.len() && sa[j].key() == k2);
        let j0 = if j < i {
            j
        } else {
            j + 1
        };
        assert(sa[j] == sb[j0]);
        tbl_key_index(sb, j0, k2);
        if k2 == k {
            assert(sb[j0].key() != sb[i].key() || j0 == i);
            assert(false);
        }
        tbl_key_index(sa, j, k2);
    }
    assert forall|k2: u64| k2 != k && #[trigger] tbl_has(sb, k2) implies tbl_has(sa, k2) by {
        let j0 = tbl_idx(sb, k2);
        assert(0 <= j0 < sb.len() && sb[j0].key() == k2);
        if j0 < i {
            assert(sa[j0] == sb[j0]);
            tbl_key_index(sa, j0, k2);
        } else {
            assert(sb[j0].key() != sb[i].key());
            assert(sa[j0 - 1] == sb[j0]);
            tbl_key_index(sa, j0 - 1, k2);
        }
    }
    assert(tbl_map(sa) =~= tbl_map(sb).remove(k));
}

/// Pushing a record with a fresh key adds exactly that key to the map
/// view.
pub proof fn tbl_after_push<T: Keyed>(sb: Seq<T>, e: T, sa: Seq<T>)
    requires
        tbl_wf(sb),
        !tbl_has(sb, e.key()),
        sa == sb.push(e),
    ensures
        tbl_wf(sa),
        tbl_map(sa) == tbl_map(sb).insert(e.key(), e),
{
    let n = sb.len() as int;
    assert forall|p: int, q: int| 0 <= p < q < sa.len() implies (#[trigger] sa[p]).key() != (
    #[trigger] sa[q]).key() by {
        if q < n {
            assert(sa[p] == sb[p]);
            assert(sa[q] == sb[q]);
        } else {
            assert(sa[q] == e);
            assert(sa[p] == sb[p]);
            if sb[p].key() == e.key() {
                tbl_key_index(sb, p, e.key());
                assert(false);
            }
        }
    }
    assert forall|k2: u64| #[trigger] tbl_has(sa, k2) implies (k2 == e.key() && tbl_at(sa, k2)
        == e) || (k2 != e.key() && tbl_has(sb, k2) && tbl_at(sa, k2) == tbl_at(sb, k2)) by {
        let j = tbl_idx(sa, k2);
        assert(0 <= j < sa.len() && sa[j].key() == k2);
        if j == n {
            assert(sa[j] == e);
            tbl_key_index(sa, j, k2);
        } else {
            assert(sa[j] == sb[j]);
            tbl_key_index(sb, j, k2);
            tbl_key_index(sa, j, k2);
            if k2 == e.key() {
                assert(tbl_has(sb, e.key()));
                assert(false);
            }
        }
    }
    assert(tbl_has(sa, e.key())) by {
        assert(sa[n] == e);
    }
    assert forall|k2: u64| k2 != e.key() && #[trigger] tbl_has(sb, k2) implies tbl_has(
        sa,
        k2,
    ) by {
        let j0 = tbl_idx(sb, k2);
        assert(0 <= j0 < sb.len() && sb[j0].key() == k2);
        assert(sa[j0] == sb[j0]);
        tbl_key_index(sa, j0, k2);
    }
    assert(tbl_map(sa) =~= tbl_map(sb).insert(e.key(), e));
}

/// Replacing the record at index `i` by one with the same key updates
/// exactly that key in the map view.
pub proof fn tbl_after_update<T: Keyed>(sb: Seq<T>, i: int, e: T, sa: Seq<T>)
    requires
        tbl_wf(sb),
        0 <= i < sb.len(),
        sb[i].key() == e.key(),
        sa == sb.update(i, e),
    ensures
        tbl_wf(sa),
        tbl_map(sa) == tbl_map(sb).insert(e.key(), e),
{
    assert forall|p: int, q: int| 0 <= p < q < sa.len() implies (#[trigger] sa[p]).key() != (
    #[trigger] sa[q]).key() by {
        assert(sa[p].key() == sb[p].key());
        assert(sa[q].key() == sb[q].key());
        assert(sb[p].key() != sb[q].key());
    }
    assert forall|k2: u64| #[trigger] tbl_has(sa, k2) implies (k2 == e.key() && tbl_at(sa, k2)
        == e) || (k2 != e.key() && tbl_has(sb, k2) && tbl_at(sa, k2) == tbl_at(sb, k2)) by {
        let j = tbl_idx(sa, k2);
        assert(0 <= j < sa.len() && sa[j].key() == k2);
        if j == i {
            assert(sa[j] == e);
            tbl_key_index(sa, j, k2);
        } else {
            assert(sa[j] == sb[j]);
            tbl_key_index(sb, j, k2);
            tbl_key_index(sa, j, k2);
            if k2 == e.key() {
                tbl_key_index(sb, i, e.key());
                assert(false);
            }
        }
    }
    assert(tbl_has(sa, e.key())) by {
        assert(sa[i] == e);
    }
    assert forall|k2: u64| k2 != e.key() && #[trigger] tbl_has(sb, k2) implies tbl_has(
        sa,
        k2,
    ) by {
        let j0 = tbl_idx(sb, k2);
        assert(0 <= j0 < sb.len() && sb[j0].key() == k2);
        if j0 == i {
            tbl_key_index(sb, i, e.key());
            assert(false);
        }
        assert(sa[j0] == sb[j0]);
        tbl_key_index(sa, j0, k2);
    }
    assert(tbl_map(sa) =~= tbl_map(sb).insert(e.key(), e));
}

/// Index of the record holding key `k`, if any.
pub fn tbl_find<T: Keyed>(v: &Vec<T>, k: u64) -> (r: Option<usize>)
    requires
        tbl_wf(v@),
    ensures
        match r {
            Some(i) => {
                &&& i < v@.len()
                &&& v@[i as int].key() == k
                &&& tbl_has(v@, k)
                &&& tbl_idx(v@, k) == i
            },
            None => !tbl_has(v@, k),
        },
{
    let mut i: usize = 0;
    while i < v.len()
        invariant
            tbl_wf(v@),
            i <= v@.len(),
            forall|j: int| 0 <= j < i ==> (#[trigger] v@[j]).key() != k,
        decreases v@.len() - i,
    {
        if v[i].key_of() == k {
            proof {
                tbl_key_index(v@, i as int, k);
            }
            return Some(i);
        }
        i = i + 1;
    }
    None
}

} // verus!
