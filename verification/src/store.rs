//! An in-memory key-value store with insertion-order iteration.
//!
//! One instance backs each entity kind and each relation kind. Entries are
//! kept as a list in insertion order, with pairwise-distinct keys; lookups
//! are specified through [`kv_find`], and per-owner iteration through
//! [`kv_owner_slice`].

use vstd::prelude::*;
use vstd::pervasive::VecAdditionalExecFns;

use crate::entity::{EntityId, OwnerId};

verus! {

/// The logical address of a row: the owning account plus the entity or
/// anchor id. Every operation rebuilds the key from the caller's own
/// identity, so rows of different owners can never alias.
#[derive(Clone, Copy, Debug, PartialEq, Eq, Structural)]
pub struct StoreKey {
    pub owner: OwnerId,
    pub id: EntityId,
}

/// The value stored under `k`, scanning from the end of the list.
/// Under [`kv_wf`] at most one entry carries `k`, so the scan direction
/// does not matter.
pub open spec fn kv_find<V>(s: Seq<(StoreKey, V)>, k: StoreKey) -> Option<V>
    decreases s.len(),
{
    if s.len() == 0 {
        None
    } else if s.last().0 == k {
        Some(s.last().1)
    } else {
        kv_find(s.drop_last(), k)
    }
}

/// The position of the entry carrying `k` (meaningful only when one exists).
pub open spec fn kv_index_of<V>(s: Seq<(StoreKey, V)>, k: StoreKey) -> int
    decreases s.len(),
{
    if s.len() == 0 {
        -1
    } else if s.last().0 == k {
        s.len() - 1
    } else {
        kv_index_of(s.drop_last(), k)
    }
}

/// Keys are pairwise distinct.
pub open spec fn kv_wf<V>(s: Seq<(StoreKey, V)>) -> bool {
    forall|i: int, j: int| 0 <= i < j < s.len() ==> s[i].0 != s[j].0
}

/// Selects the entries of one owner, keeping their relative order.
pub open spec fn kv_owner_slice<V>(s: Seq<(StoreKey, V)>, owner: OwnerId) -> Seq<(StoreKey, V)>
    decreases s.len(),
{
    if s.len() == 0 {
        Seq::empty()
    } else if s.last().0.owner == owner {
        kv_owner_slice(s.drop_last(), owner).push(s.last())
    } else {
        kv_owner_slice(s.drop_last(), owner)
    }
}

/// A key is present exactly when some entry carries it.
pub proof fn lemma_find_present<V>(s: Seq<(StoreKey, V)>, k: StoreKey)
    ensures
        (exists|i: int| 0 <= i < s.len() && s[i].0 == k) <==> kv_find(s, k) is Some,
    decreases s.len(),
{
    if s.len() > 0 {
        lemma_find_present(s.drop_last(), k);
        if s.last().0 != k {
            assert forall|i: int| 0 <= i < s.len() && s[i].0 == k implies
                exists|j: int| 0 <= j < s.drop_last().len() && s.drop_last()[j].0 == k by {
                assert(s.drop_last()[i] == s[i]);
            }
            assert forall|j: int| 0 <= j < s.drop_last().len() && s.drop_last()[j].0 == k implies
                exists|i: int| 0 <= i < s.len() && s[i].0 == k by {
                assert(s[j] == s.drop_last()[j]);
            }
        }
    }
}

/// With distinct keys, the entry at the key's position is what lookup yields.
pub proof fn lemma_find_at<V>(s: Seq<(StoreKey, V)>, k: StoreKey, i: int)
    requires
        kv_wf(s),
        0 <= i < s.len(),
        s[i].0 == k,
    ensures
        kv_find(s, k) == Some(s[i].1),
        kv_index_of(s, k) == i,
    decreases s.len(),
{
    if i == s.len() - 1 {
    } else {
        assert(s.last().0 != k);
        assert(kv_wf(s.drop_last())) by {
            assert forall|x: int, y: int| 0 <= x < y < s.drop_last().len() implies
                s.drop_last()[x].0 != s.drop_last()[y].0 by {
                assert(s.drop_last()[x] == s[x] && s.drop_last()[y] == s[y]);
            }
        }
        assert(s.drop_last()[i] == s[i]);
        lemma_find_at(s.drop_last(), k, i);
    }
}

/// Appending an entry changes lookups only at its own key.
pub proof fn lemma_find_push<V>(s: Seq<(StoreKey, V)>, e: (StoreKey, V), k: StoreKey)
    ensures
        kv_find(s.push(e), k) == if e.0 == k { Some(e.1) } else { kv_find(s, k) },
        kv_index_of(s.push(e), k) == if e.0 == k { s.len() as int } else { kv_index_of(s, k) },
{
    assert(s.push(e).drop_last() =~= s);
}

/// Appending keeps the slices of all other owners, and extends its own.
pub proof fn lemma_slice_push<V>(s: Seq<(StoreKey, V)>, e: (StoreKey, V), owner: OwnerId)
    ensures
        kv_owner_slice(s.push(e), owner) == if e.0.owner == owner {
            kv_owner_slice(s, owner).push(e)
        } else {
            kv_owner_slice(s, owner)
        },
{
    assert(s.push(e).drop_last() =~= s);
}

/// Replacing the value under a key leaves every other key, and every other
/// owner's slice, as it was.
pub proof fn lemma_find_update<V>(s: Seq<(StoreKey, V)>, i: int, k: StoreKey, v: V)
    requires
        kv_wf(s),
        0 <= i < s.len(),
        s[i].0 == k,
    ensures
        kv_wf(s.update(i, (k, v))),
        kv_find(s.update(i, (k, v)), k) == Some(v),
        forall|k2: StoreKey| k2 != k ==> kv_find(s.update(i, (k, v)), k2) == kv_find(s, k2),
    decreases s.len(),
{
    let s2 = s.update(i, (k, v));
    assert forall|x: int, y: int| 0 <= x < y < s2.len() implies s2[x].0 != s2[y].0 by {
        assert(s2[x].0 == s[x].0 && s2[y].0 == s[y].0);
    }
    lemma_find_at(s2, k, i);
    assert forall|k2: StoreKey| k2 != k implies kv_find(s2, k2) == kv_find(s, k2) by {
        lemma_find_present(s, k2);
        lemma_find_present(s2, k2);
        if kv_find(s, k2) is Some {
            let j = choose|j: int| 0 <= j < s.len() && s[j].0 == k2;
            lemma_find_at(s, k2, j);
            lemma_find_at(s2, k2, j);
        } else {
            assert forall|j: int| 0 <= j < s2.len() implies s2[j].0 != k2 by {
                assert(s2[j].0 == s[j].0);
            }
        }
    }
}

/// An update that keeps the entry's key keeps every owner slice whose owner
/// differs from that key's.
pub proof fn lemma_slice_update<V>(s: Seq<(StoreKey, V)>, i: int, k: StoreKey, v: V, owner: OwnerId)
    requires
        0 <= i < s.len(),
        s[i].0 == k,
        k.owner != owner,
    ensures
        kv_owner_slice(s.update(i, (k, v)), owner) == kv_owner_slice(s, owner),
    decreases s.len(),
{
    let s2 = s.update(i, (k, v));
    if i == s.len() - 1 {
        assert(s2.drop_last() =~= s.drop_last());
    } else {
        assert(s2.drop_last() =~= s.drop_last().update(i, (k, v)));
        lemma_slice_update(s.drop_last(), i, k, v, owner);
        assert(s2.last() == s.last());
    }
}

/// Removing an entry erases its key and leaves every other key as it was.
pub proof fn lemma_find_remove<V>(s: Seq<(StoreKey, V)>, i: int, k: StoreKey)
    requires
        kv_wf(s),
        0 <= i < s.len(),
        s[i].0 == k,
    ensures
        kv_wf(s.remove(i)),
        kv_find(s.remove(i), k) is None,
        forall|k2: StoreKey| k2 != k ==> kv_find(s.remove(i), k2) == kv_find(s, k2),
{
    let s2 = s.remove(i);
    assert forall|x: int, y: int| 0 <= x < y < s2.len() implies s2[x].0 != s2[y].0 by {
        let x0 = if x < i { x } else { x + 1 };
        let y0 = if y < i { y } else { y + 1 };
        assert(s2[x].0 == s[x0].0 && s2[y].0 == s[y0].0);
    }
    lemma_find_present(s2, k);
    assert forall|j: int| 0 <= j < s2.len() implies s2[j].0 != k by {
        let j0 = if j < i { j } else { j + 1 };
        assert(s2[j].0 == s[j0].0 && j0 != i);
    }
    assert forall|k2: StoreKey| k2 != k implies kv_find(s2, k2) == kv_find(s, k2) by {
        lemma_find_present(s, k2);
        lemma_find_present(s2, k2);
        if kv_find(s, k2) is Some {
            let j = choose|j: int| 0 <= j < s.len() && s[j].0 == k2;
            lemma_find_at(s, k2, j);
            let j2 = if j < i { j } else { j - 1 };
            assert(s2[j2] == s[j]);
            lemma_find_at(s2, k2, j2);
        } else {
            assert forall|j: int| 0 <= j < s2.len() implies s2[j].0 != k2 by {
                let j0 = if j < i { j } else { j + 1 };
                assert(s2[j].0 == s[j0].0);
            }
        }
    }
}

/// Removing an entry keeps every owner slice whose owner differs from the
/// removed key's.
pub proof fn lemma_slice_remove<V>(s: Seq<(StoreKey, V)>, i: int, owner: OwnerId)
    requires
        0 <= i < s.len(),
        s[i].0.owner != owner,
    ensures
        kv_owner_slice(s.remove(i), owner) == kv_owner_slice(s, owner),
    decreases s.len(),
{
    let s2 = s.remove(i);
    if i == s.len() - 1 {
        assert(s2 =~= s.drop_last());
    } else {
        assert(s2.drop_last() =~= s.drop_last().remove(i));
        lemma_slice_remove(s.drop_last(), i, owner);
        assert(s2.last() == s.last());
    }
}

/// One storage instance: a list of key-value entries in insertion order,
/// with pairwise-distinct keys.
pub struct KvStore<V> {
    entries: Vec<(StoreKey, V)>,
}

impl<V> KvStore<V> {
    /// The entries, oldest first.
    pub closed spec fn entries_seq(self) -> Seq<(StoreKey, V)> {
        self.entries@
    }

    pub open spec fn wf(self) -> bool {
        kv_wf(self.entries_seq())
    }

    /// The value stored under `k`, if any.
    pub open spec fn spec_find(self, k: StoreKey) -> Option<V> {
        kv_find(self.entries_seq(), k)
    }

    pub open spec fn spec_contains(self, k: StoreKey) -> bool {
        self.spec_find(k) is Some
    }

    pub fn new() -> (s: Self)
        ensures
            s.entries_seq() == Seq::<(StoreKey, V)>::empty(),
            s.wf(),
    {
        KvStore { entries: Vec::new() }
    }

    pub fn len(&self) -> (n: usize)
        ensures
            n == self.entries_seq().len(),
    {
        self.entries.len()
    }

    pub fn entry_at(&self, i: usize) -> (e: &(StoreKey, V))
        requires
            i < self.entries_seq().len(),
        ensures
            *e == self.entries_seq()[i as int],
    {
        &self.entries[i]
    }

    /// The position of the entry carrying `k`, scanning oldest first.
    fn index_of(&self, k: StoreKey) -> (r: Option<usize>)
        ensures
            match r {
                Some(i) => i < self.entries_seq().len() && self.entries_seq()[i as int].0 == k,
                None => forall|i: int|
                    0 <= i < self.entries_seq().len() ==> self.entries_seq()[i].0 != k,
            },
    {
        let mut i: usize = 0;
        while i < self.entries.len()
            invariant
                i <= self.entries_seq().len(),
                forall|j: int| 0 <= j < i ==> self.entries_seq()[j].0 != k,
            decreases self.entries_seq().len() - i,
        {
            if self.entries[i].0 == k {
                return Some(i);
            }
            i = i + 1;
        }
        None
    }

    pub fn contains_key(&self, k: StoreKey) -> (b: bool)
        ensures
            b == self.spec_contains(k),
    {
        let r = self.index_of(k);
        proof {
            lemma_find_present(self.entries_seq(), k);
        }
        r.is_some()
    }

    pub fn get(&self, k: StoreKey) -> (r: Option<&V>)
        requires
            self.wf(),
        ensures
            match r {
                Some(v) => self.spec_find(k) == Some(*v),
                None => self.spec_find(k) is None,
            },
    {
        proof {
            lemma_find_present(self.entries_seq(), k);
        }
        match self.index_of(k) {
            Some(i) => {
                proof {
                    lemma_find_at(self.entries_seq(), k, i as int);
                }
                Some(&self.entries[i].1)
            }
            None => None,
        }
    }

    /// Appends a fresh entry; the key must not be present yet.
    pub fn insert(&mut self, k: StoreKey, v: V)
        requires
            old(self).wf(),
            !old(self).spec_contains(k),
        ensures
            final(self).wf(),
            final(self).entries_seq() == old(self).entries_seq().push((k, v)),
            final(self).spec_find(k) == Some(v),
            forall|k2: StoreKey| k2 != k ==> #[trigger] kv_find(final(self).entries_seq(), k2)
                == kv_find(old(self).entries_seq(), k2),
            forall|o: OwnerId| o != k.owner ==> #[trigger] kv_owner_slice(
                final(self).entries_seq(),
                o,
            ) == kv_owner_slice(old(self).entries_seq(), o),
    {
        proof {
            lemma_find_present(self.entries_seq(), k);
        }
        let ghost s0 = self.entries_seq();
        self.entries.push((k, v));
        proof {
            assert forall|k2: StoreKey| k2 != k implies
                kv_find(s0.push((k, v)), k2) == kv_find(s0, k2) by {
                lemma_find_push(s0, (k, v), k2);
            }
            lemma_find_push(s0, (k, v), k);
            assert forall|o: OwnerId| o != k.owner implies
                kv_owner_slice(s0.push((k, v)), o) == kv_owner_slice(s0, o) by {
                lemma_slice_push(s0, (k, v), o);
            }
        }
    }

    /// Replaces the value under a present key, keeping the entry's position.
    pub fn set_value(&mut self, k: StoreKey, v: V)
        requires
            old(self).wf(),
            old(self).spec_contains(k),
        ensures
            final(self).wf(),
            final(self).entries_seq() == old(self).entries_seq().update(
                kv_index_of(old(self).entries_seq(), k),
                (k, v),
            ),
            final(self).spec_find(k) == Some(v),
            forall|k2: StoreKey| k2 != k ==> #[trigger] kv_find(final(self).entries_seq(), k2)
                == kv_find(old(self).entries_seq(), k2),
            forall|o: OwnerId| o != k.owner ==> #[trigger] kv_owner_slice(
                final(self).entries_seq(),
                o,
            ) == kv_owner_slice(old(self).entries_seq(), o),
    {
        proof {
            lemma_find_present(self.entries_seq(), k);
        }
        match self.index_of(k) {
            Some(i) => {
                proof {
                    lemma_find_at(self.entries_seq(), k, i as int);
                    lemma_find_update(self.entries_seq(), i as int, k, v);
                    assert forall|o: OwnerId| o != k.owner implies
                        kv_owner_slice(self.entries_seq().update(i as int, (k, v)), o)
                            == kv_owner_slice(self.entries_seq(), o) by {
                        lemma_slice_update(self.entries_seq(), i as int, k, v, o);
                    }
                }
                self.entries.set(i, (k, v));
            }
            None => {
                proof {
                    assert(false);
                }
            }
        }
    }

    /// Deletes the entry under a present key.
    pub fn remove(&mut self, k: StoreKey)
        requires
            old(self).wf(),
            old(self).spec_contains(k),
        ensures
            final(self).wf(),
            final(self).entries_seq() == old(self).entries_seq().remove(
                kv_index_of(old(self).entries_seq(), k),
            ),
            final(self).spec_find(k) is None,
            forall|k2: StoreKey| k2 != k ==> #[trigger] kv_find(final(self).entries_seq(), k2)
                == kv_find(old(self).entries_seq(), k2),
            forall|o: OwnerId| o != k.owner ==> #[trigger] kv_owner_slice(
                final(self).entries_seq(),
                o,
            ) == kv_owner_slice(old(self).entries_seq(), o),
    {
        proof {
            lemma_find_present(self.entries_seq(), k);
        }
        match self.index_of(k) {
            Some(i) => {
                proof {
                    lemma_find_at(self.entries_seq(), k, i as int);
                    lemma_find_remove(self.entries_seq(), i as int, k);
                    assert forall|o: OwnerId| o != k.owner implies
                        kv_owner_slice(self.entries_seq().remove(i as int), o)
                            == kv_owner_slice(self.entries_seq(), o) by {
                        lemma_slice_remove(self.entries_seq(), i as int, o);
                    }
                }
                self.entries.remove(i);
            }
            None => {
                proof {
                    assert(false);
                }
            }
        }
    }
}

} // verus!
