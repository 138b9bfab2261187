//! The access-control service: three entity stores, four relation stores,
//! and the operations over them.
//!
//! Roles, permissions, and groups share one contract, stated by
//! [`entity_created`], [`entity_updated`], and [`entity_disabled`] over
//! [`entity_view_of`] (point lookup) and [`enabled_of`] (per-owner listing
//! of enabled entities, in insertion order); the four relation kinds share
//! [`relation_assigned`] and [`relation_unassigned`]. Every mutating
//! operation either commits one store change or fails and leaves every
//! store as it was; each also pins down that rows of other owners are
//! untouched.

use vstd::prelude::*;

use crate::entity::{Entity, EntityError, EntityId, EntityView, OwnerId, NAME_LIMIT};
use crate::entity::{Permission2Role, Role2Group, Role2User, User2Group};
use crate::store::{
    kv_find, kv_index_of, kv_owner_slice, kv_wf, lemma_find_at, lemma_find_present, KvStore,
    StoreKey,
};

verus! {

/// The relation list stored under an anchor key, if any.
pub open spec fn rel_list_of<P>(s: Seq<(StoreKey, Vec<P>)>, k: StoreKey) -> Option<Seq<P>> {
    match kv_find(s, k) {
        Some(v) => Some(v@),
        None => None,
    }
}

/// The relation list stored under an anchor key, or empty when absent.
pub open spec fn rel_list_or_empty<P>(s: Seq<(StoreKey, Vec<P>)>, k: StoreKey) -> Seq<P> {
    match kv_find(s, k) {
        Some(v) => v@,
        None => Seq::empty(),
    }
}

/// Entries of a relation store are sound: distinct anchor keys, no list
/// ever left present but empty, every pair anchored under its own anchor
/// id, and no pair repeated within a list.
pub open spec fn relation_store_wf<P>(
    s: Seq<(StoreKey, Vec<P>)>,
    anchor: spec_fn(P) -> EntityId,
) -> bool {
    &&& kv_wf(s)
    &&& forall|i: int| 0 <= i < s.len() ==> (#[trigger] s[i]).1@.len() > 0
    &&& forall|i: int, a: int|
        0 <= i < s.len() && 0 <= a < s[i].1@.len() ==> anchor(#[trigger] s[i].1@[a]) == s[i].0.id
    &&& forall|i: int, a: int, b: int|
        #![trigger s[i].1@[a], s[i].1@[b]]
        0 <= i < s.len() && 0 <= a < b < s[i].1@.len() ==> s[i].1@[a] != s[i].1@[b]
}

/// How assignment changes one relation store, given whether the entities
/// the pair refers to exist (`prereq_ok`). A missing referenced entity is
/// refused first; a pair already in the anchor's list next; otherwise the
/// pair is appended to the anchor's list (created if absent), and no other
/// anchor moves.
pub open spec fn relation_assigned<P>(
    pre: Seq<(StoreKey, Vec<P>)>,
    post: Seq<(StoreKey, Vec<P>)>,
    owner: OwnerId,
    anchor_id: EntityId,
    pair: P,
    prereq_ok: bool,
    r: Result<(), EntityError>,
) -> bool {
    let k = StoreKey { owner, id: anchor_id };
    match r {
        Ok(()) => {
            &&& prereq_ok
            &&& !rel_list_or_empty(pre, k).contains(pair)
            &&& rel_list_of(post, k) == Some(rel_list_or_empty(pre, k).push(pair))
            &&& forall|k2: StoreKey| k2 != k
                ==> #[trigger] kv_find(post, k2) == kv_find(pre, k2)
        },
        Err(EntityError::EntityDoesNotExist) => {
            &&& !prereq_ok
            &&& post == pre
        },
        Err(EntityError::EntityAlreadyExist) => {
            &&& prereq_ok
            &&& rel_list_or_empty(pre, k).contains(pair)
            &&& post == pre
        },
        Err(_) => false,
    }
}

/// How unassignment changes one relation store: the pair, present in the
/// anchor's list, is removed with the remaining order kept, and the anchor
/// key itself is deleted when its list empties; an absent anchor or absent
/// pair is reported as not existing.
pub open spec fn relation_unassigned<P>(
    pre: Seq<(StoreKey, Vec<P>)>,
    post: Seq<(StoreKey, Vec<P>)>,
    owner: OwnerId,
    anchor_id: EntityId,
    pair: P,
    r: Result<(), EntityError>,
) -> bool {
    let k = StoreKey { owner, id: anchor_id };
    let l0 = rel_list_or_empty(pre, k);
    match r {
        Ok(()) => {
            &&& kv_find(pre, k) is Some
            &&& exists|j: int|
                #![trigger l0[j]]
                0 <= j < l0.len() && l0[j] == pair && if l0.len() == 1 {
                    kv_find(post, k) is None
                } else {
                    rel_list_of(post, k) == Some(l0.remove(j))
                }
            &&& forall|k2: StoreKey| k2 != k
                ==> #[trigger] kv_find(post, k2) == kv_find(pre, k2)
        },
        Err(EntityError::EntityDoesNotExist) => {
            &&& (kv_find(pre, k) is None || !l0.contains(pair))
            &&& post == pre
        },
        Err(_) => false,
    }
}

/// Copies a list of pairs element by element.
pub(crate) fn copy_list<P: Copy>(v: &Vec<P>) -> (r: Vec<P>)
    ensures
        r@ == v@,
{
    let mut out: Vec<P> = Vec::new();
    let mut i: usize = 0;
    while i < v.len()
        invariant
            i <= v.len(),
            out@ == v@.subrange(0, i as int),
        decreases v.len() - i,
    {
        out.push(v[i]);
        i = i + 1;
    }
    proof {
        assert(out@ =~= v@);
    }
    out
}

/// The view of the entity stored under `k`, if any.
pub open spec fn entity_view_of(s: Seq<(StoreKey, Entity)>, k: StoreKey) -> Option<EntityView> {
    match kv_find(s, k) {
        Some(e) => Some(e@),
        None => None,
    }
}

/// The views of the enabled entities among `s`, oldest first.
pub open spec fn enabled_of(s: Seq<(StoreKey, Entity)>) -> Seq<EntityView>
    decreases s.len(),
{
    if s.len() == 0 {
        Seq::empty()
    } else if s.last().1.enabled {
        enabled_of(s.drop_last()).push(s.last().1@)
    } else {
        enabled_of(s.drop_last())
    }
}

/// Entries of an entity store are sound: distinct keys, each record carrying
/// its key's id, and every name within the limit.
pub open spec fn entity_store_wf(s: Seq<(StoreKey, Entity)>) -> bool {
    &&& kv_wf(s)
    &&& forall|i: int| 0 <= i < s.len() ==> (#[trigger] s[i]).1.id == s[i].0.id
    &&& forall|i: int| 0 <= i < s.len() ==> (#[trigger] s[i]).1.name@.len() <= NAME_LIMIT
}

/// How creation changes one entity store. An over-long name is refused
/// before the key is examined; an occupied key is refused next; otherwise
/// the new enabled entity is appended, and no other key and no other
/// owner's listing moves.
pub open spec fn entity_created(
    pre: Seq<(StoreKey, Entity)>,
    post: Seq<(StoreKey, Entity)>,
    owner: OwnerId,
    id: EntityId,
    name: Seq<u8>,
    r: Result<(), EntityError>,
) -> bool {
    match r {
        Ok(()) => {
            &&& name.len() <= NAME_LIMIT
            &&& entity_view_of(pre, (StoreKey { owner, id })) is None
            &&& exists|e: Entity|
                post == pre.push(((StoreKey { owner, id }), e)) && e@ == (EntityView {
                    id,
                    name,
                    enabled: true,
                })
            &&& entity_view_of(post, (StoreKey { owner, id })) == Some(
                EntityView { id, name, enabled: true },
            )
            &&& forall|k2: StoreKey| k2 != (StoreKey { owner, id })
                ==> #[trigger] kv_find(post, k2) == kv_find(pre, k2)
            &&& forall|o: OwnerId| o != owner
                ==> #[trigger] kv_owner_slice(post, o) == kv_owner_slice(pre, o)
        },
        Err(EntityError::NameExceedMaxChar) => {
            &&& name.len() > NAME_LIMIT
            &&& post == pre
        },
        Err(EntityError::EntityAlreadyExist) => {
            &&& name.len() <= NAME_LIMIT
            &&& entity_view_of(pre, (StoreKey { owner, id })) is Some
            &&& post == pre
        },
        Err(_) => false,
    }
}

/// How a name update changes one entity store: a present entity keeps its
/// id and enabled flag and takes the new name; entry order, every other
/// key, and every other owner's listing stay.
pub open spec fn entity_updated(
    pre: Seq<(StoreKey, Entity)>,
    post: Seq<(StoreKey, Entity)>,
    owner: OwnerId,
    id: EntityId,
    name: Seq<u8>,
    r: Result<(), EntityError>,
) -> bool {
    match r {
        Ok(()) => {
            &&& name.len() <= NAME_LIMIT
            &&& match entity_view_of(pre, (StoreKey { owner, id })) {
                Some(v0) => entity_view_of(post, (StoreKey { owner, id })) == Some(
                    EntityView { id: v0.id, name, enabled: v0.enabled },
                ) && exists|e: Entity|
                    post == pre.update(
                        kv_index_of(pre, (StoreKey { owner, id })),
                        ((StoreKey { owner, id }), e),
                    ) && e@ == (EntityView { id: v0.id, name, enabled: v0.enabled }),
                None => false,
            }
            &&& post.len() == pre.len()
            &&& forall|k2: StoreKey| k2 != (StoreKey { owner, id })
                ==> #[trigger] kv_find(post, k2) == kv_find(pre, k2)
            &&& forall|o: OwnerId| o != owner
                ==> #[trigger] kv_owner_slice(post, o) == kv_owner_slice(pre, o)
        },
        Err(EntityError::NameExceedMaxChar) => {
            &&& name.len() > NAME_LIMIT
            &&& post == pre
        },
        Err(EntityError::EntityDoesNotExist) => {
            &&& name.len() <= NAME_LIMIT
            &&& entity_view_of(pre, (StoreKey { owner, id })) is None
            &&& post == pre
        },
        Err(_) => false,
    }
}

/// How disabling changes one entity store: a present, still-enabled entity
/// keeps id and name and loses its enabled flag; an absent or already
/// disabled entity is reported as not existing.
pub open spec fn entity_disabled(
    pre: Seq<(StoreKey, Entity)>,
    post: Seq<(StoreKey, Entity)>,
    owner: OwnerId,
    id: EntityId,
    r: Result<(), EntityError>,
) -> bool {
    match r {
        Ok(()) => {
            &&& match entity_view_of(pre, (StoreKey { owner, id })) {
                Some(v0) => v0.enabled && entity_view_of(post, (StoreKey { owner, id })) == Some(
                    EntityView { id: v0.id, name: v0.name, enabled: false },
                ) && exists|e: Entity|
                    post == pre.update(
                        kv_index_of(pre, (StoreKey { owner, id })),
                        ((StoreKey { owner, id }), e),
                    ) && e@ == (EntityView { id: v0.id, name: v0.name, enabled: false }),
                None => false,
            }
            &&& post.len() == pre.len()
            &&& forall|k2: StoreKey| k2 != (StoreKey { owner, id })
                ==> #[trigger] kv_find(post, k2) == kv_find(pre, k2)
            &&& forall|o: OwnerId| o != owner
                ==> #[trigger] kv_owner_slice(post, o) == kv_owner_slice(pre, o)
        },
        Err(EntityError::EntityDoesNotExist) => {
            &&& match entity_view_of(pre, (StoreKey { owner, id })) {
                Some(v0) => !v0.enabled,
                None => true,
            }
            &&& post == pre
        },
        Err(_) => false,
    }
}

/// Looks an entity up without filtering on `enabled`.
fn entity_get(store: &KvStore<Entity>, owner: OwnerId, id: EntityId) -> (r: Option<Entity>)
    requires
        store.wf(),
    ensures
        match r {
            Some(e) => entity_view_of(store.entries_seq(), (StoreKey { owner, id })) == Some(e@),
            None => entity_view_of(store.entries_seq(), (StoreKey { owner, id })) is None,
        },
{
    match store.get(StoreKey { owner, id }) {
        Some(e) => Some(e.duplicate()),
        None => None,
    }
}

/// Lists the owner's enabled entities in insertion order.
fn entity_get_all(store: &KvStore<Entity>, owner: OwnerId) -> (r: Vec<Entity>)
    ensures
        r@.map_values(|e: Entity| e@) == enabled_of(kv_owner_slice(store.entries_seq(), owner)),
{
    let mut out: Vec<Entity> = Vec::new();
    let n = store.len();
    let mut i: usize = 0;
    while i < n
        invariant
            i <= n,
            n == store.entries_seq().len(),
            out@.map_values(|e: Entity| e@) == enabled_of(
                kv_owner_slice(store.entries_seq().subrange(0, i as int), owner),
            ),
        decreases n - i,
    {
        let ghost prefix = store.entries_seq().subrange(0, i as int);
        let entry = store.entry_at(i);
        proof {
            assert(store.entries_seq().subrange(0, i + 1int).drop_last() =~= prefix);
            assert(store.entries_seq().subrange(0, i + 1int).last() == store.entries_seq()[i as int]);
        }
        if entry.0.owner == owner && entry.1.enabled {
            let e = entry.1.duplicate();
            out.push(e);
            proof {
                let next = kv_owner_slice(store.entries_seq().subrange(0, i + 1int), owner);
                assert(next.drop_last() =~= kv_owner_slice(prefix, owner));
                assert(out@.map_values(|e: Entity| e@) =~= enabled_of(next));
            }
        } else {
            proof {
                let next = kv_owner_slice(store.entries_seq().subrange(0, i + 1int), owner);
                if entry.0.owner == owner {
                    assert(next.drop_last() =~= kv_owner_slice(prefix, owner));
                }
                assert(out@.map_values(|e: Entity| e@) =~= enabled_of(next));
            }
        }
        i = i + 1;
    }
    proof {
        assert(store.entries_seq().subrange(0, n as int) =~= store.entries_seq());
    }
    out
}

/// Inserts a fresh enabled entity.
fn entity_create(store: &mut KvStore<Entity>, owner: OwnerId, id: EntityId, name: Vec<u8>) -> (r:
    Result<(), EntityError>)
    requires
        entity_store_wf(old(store).entries_seq()),
    ensures
        entity_store_wf(final(store).entries_seq()),
        entity_created(
            old(store).entries_seq(),
            final(store).entries_seq(),
            owner,
            id,
            name@,
            r,
        ),
{
    if name.len() > NAME_LIMIT {
        return Err(EntityError::NameExceedMaxChar);
    }
    let key = StoreKey { owner, id };
    if store.contains_key(key) {
        return Err(EntityError::EntityAlreadyExist);
    }
    let entity = Entity { id, name, enabled: true };
    let ghost pushed = entity;
    let ghost s0 = store.entries_seq();
    store.insert(key, entity);
    proof {
        assert(store.entries_seq() == s0.push((key, pushed)) && pushed@ == (EntityView {
            id,
            name: pushed.name@,
            enabled: true,
        }));
        assert forall|i: int| 0 <= i < store.entries_seq().len() implies
            (#[trigger] store.entries_seq()[i]).1.id == store.entries_seq()[i].0.id
                && store.entries_seq()[i].1.name@.len() <= NAME_LIMIT by {
            if i < s0.len() {
                assert(store.entries_seq()[i] == s0[i]);
            }
        }
    }
    Ok(())
}

/// Replaces a present entity's name.
fn entity_update(store: &mut KvStore<Entity>, owner: OwnerId, id: EntityId, name: Vec<u8>) -> (r:
    Result<(), EntityError>)
    requires
        entity_store_wf(old(store).entries_seq()),
    ensures
        entity_store_wf(final(store).entries_seq()),
        entity_updated(
            old(store).entries_seq(),
            final(store).entries_seq(),
            owner,
            id,
            name@,
            r,
        ),
{
    if name.len() > NAME_LIMIT {
        return Err(EntityError::NameExceedMaxChar);
    }
    let key = StoreKey { owner, id };
    match store.get(key) {
        Some(existing) => {
            let enabled = existing.enabled;
            let entity = Entity { id, name, enabled };
            let ghost ge = entity;
            let ghost s0 = store.entries_seq();
            proof {
                lemma_find_present(s0, key);
                let j = choose|j: int| 0 <= j < s0.len() && s0[j].0 == key;
                lemma_find_at(s0, key, j);
            }
            store.set_value(key, entity);
            proof {
                let j = kv_index_of(s0, key);
                assert(store.entries_seq() == s0.update(j, (key, ge)));
                assert forall|i: int| 0 <= i < store.entries_seq().len() implies
                    (#[trigger] store.entries_seq()[i]).1.id == store.entries_seq()[i].0.id
                        && store.entries_seq()[i].1.name@.len() <= NAME_LIMIT by {
                    if i != j {
                        assert(store.entries_seq()[i] == s0[i]);
                    }
                }
            }
            Ok(())
        }
        None => Err(EntityError::EntityDoesNotExist),
    }
}

/// Marks a present, still-enabled entity as disabled.
fn entity_disable(store: &mut KvStore<Entity>, owner: OwnerId, id: EntityId) -> (r: Result<
    (),
    EntityError,
>)
    requires
        entity_store_wf(old(store).entries_seq()),
    ensures
        entity_store_wf(final(store).entries_seq()),
        entity_disabled(old(store).entries_seq(), final(store).entries_seq(), owner, id, r),
{
    let key = StoreKey { owner, id };
    match store.get(key) {
        Some(existing) => {
            if !existing.enabled {
                return Err(EntityError::EntityDoesNotExist);
            }
            let entity = Entity { id, name: existing.duplicate().name, enabled: false };
            let ghost ge = entity;
            let ghost s0 = store.entries_seq();
            proof {
                lemma_find_present(s0, key);
                let j = choose|j: int| 0 <= j < s0.len() && s0[j].0 == key;
                lemma_find_at(s0, key, j);
            }
            store.set_value(key, entity);
            proof {
                let j = kv_index_of(s0, key);
                assert(store.entries_seq() == s0.update(j, (key, ge)));
                assert forall|i: int| 0 <= i < store.entries_seq().len() implies
                    (#[trigger] store.entries_seq()[i]).1.id == store.entries_seq()[i].0.id
                        && store.entries_seq()[i].1.name@.len() <= NAME_LIMIT by {
                    if i != j {
                        assert(store.entries_seq()[i] == s0[i]);
                    }
                }
            }
            Ok(())
        }
        None => Err(EntityError::EntityDoesNotExist),
    }
}

/// Role-to-user lists are anchored by the user.
pub open spec fn r2u_anchor() -> spec_fn(Role2User) -> EntityId {
    |p: Role2User| p.user
}

fn r2u_find_pair(v: &Vec<Role2User>, p: Role2User) -> (r: Option<usize>)
    ensures
        match r {
            Some(j) => j < v@.len() && v@[j as int] == p,
            None => !v@.contains(p),
        },
{
    let mut i: usize = 0;
    while i < v.len()
        invariant
            i <= v.len(),
            forall|j: int| 0 <= j < i ==> v@[j] != p,
        decreases v.len() - i,
    {
        if v[i] == p {
            return Some(i);
        }
        i = i + 1;
    }
    None
}

/// Appends the pair to the anchor's list, creating the list if absent;
/// refuses a pair already present. Referenced-entity checks are the
/// caller's.
fn r2u_assign(
    store: &mut KvStore<Vec<Role2User>>,
    owner: OwnerId,
    anchor_id: EntityId,
    pair: Role2User,
) -> (r: Result<(), EntityError>)
    requires
        relation_store_wf(old(store).entries_seq(), r2u_anchor()),
        pair.user == anchor_id,
    ensures
        relation_store_wf(final(store).entries_seq(), r2u_anchor()),
        relation_assigned(
            old(store).entries_seq(),
            final(store).entries_seq(),
            owner,
            anchor_id,
            pair,
            true,
            r,
        ),
{
    let key = StoreKey { owner, id: anchor_id };
    let ghost s0 = store.entries_seq();
    match store.get(key) {
        Some(existing) => {
            let mut list = copy_list(existing);
            match r2u_find_pair(&list, pair) {
                Some(_) => Err(EntityError::EntityAlreadyExist),
                None => {
                    list.push(pair);
                    let ghost newlist = list@;
                    proof {
                        lemma_find_present(s0, key);
                        let j = choose|j: int| 0 <= j < s0.len() && s0[j].0 == key;
                        lemma_find_at(s0, key, j);
                    }
                    store.set_value(key, list);
                    proof {
                        let j = kv_index_of(s0, key);
                        let s1 = store.entries_seq();
                        assert forall|i: int| 0 <= i < s1.len() implies (#[trigger] s1[i]).1@.len()
                            > 0 by {
                            if i != j {
                                assert(s1[i] == s0[i]);
                            }
                        }
                        assert forall|i: int, a: int|
                            0 <= i < s1.len() && 0 <= a < s1[i].1@.len() implies r2u_anchor()(
                            #[trigger] s1[i].1@[a],
                        ) == s1[i].0.id by {
                            if i != j {
                                assert(s1[i] == s0[i]);
                            } else {
                                assert(s1[i].1@ == newlist);
                                if a < newlist.len() - 1 {
                                    assert(s0[j].1@[a] == newlist[a]);
                                }
                            }
                        }
                        assert forall|i: int, a: int, b: int|
                            #![trigger s1[i].1@[a], s1[i].1@[b]]
                            0 <= i < s1.len() && 0 <= a < b < s1[i].1@.len() implies s1[i].1@[a]
                            != s1[i].1@[b] by {
                            if i != j {
                                assert(s1[i] == s0[i]);
                            } else {
                                assert(s1[i].1@ == newlist);
                                if b < newlist.len() - 1 {
                                    assert(s0[j].1@[a] == newlist[a] && s0[j].1@[b] == newlist[b]);
                                } else {
                                    assert(newlist[b] == pair);
                                    assert(newlist[a] == s0[j].1@[a]);
                                    assert(!s0[j].1@.contains(pair));
                                }
                            }
                        }
                    }
                    Ok(())
                }
            }
        }
        None => {
            let mut list: Vec<Role2User> = Vec::new();
            list.push(pair);
            let ghost newlist = list@;
            store.insert(key, list);
            proof {
                let s1 = store.entries_seq();
                assert(s1 == s0.push((key, list)));
                assert forall|i: int| 0 <= i < s1.len() implies (#[trigger] s1[i]).1@.len() > 0 by {
                    if i < s0.len() {
                        assert(s1[i] == s0[i]);
                    } else {
                        assert(s1[i].1@ == newlist);
                    }
                }
                assert forall|i: int, a: int|
                    0 <= i < s1.len() && 0 <= a < s1[i].1@.len() implies r2u_anchor()(
                    #[trigger] s1[i].1@[a],
                ) == s1[i].0.id by {
                    if i < s0.len() {
                        assert(s1[i] == s0[i]);
                    } else {
                        assert(s1[i].1@ == newlist && s1[i].0 == key);
                    }
                }
                assert forall|i: int, a: int, b: int|
                    #![trigger s1[i].1@[a], s1[i].1@[b]]
                    0 <= i < s1.len() && 0 <= a < b < s1[i].1@.len() implies s1[i].1@[a]
                    != s1[i].1@[b] by {
                    if i < s0.len() {
                        assert(s1[i] == s0[i]);
                    }
                }
            }
            Ok(())
        }
    }
}

/// Removes the pair from the anchor's list, deleting the list when it
/// empties; an absent anchor or absent pair is reported as not existing.
fn r2u_unassign(
    store: &mut KvStore<Vec<Role2User>>,
    owner: OwnerId,
    anchor_id: EntityId,
    pair: Role2User,
) -> (r: Result<(), EntityError>)
    requires
        relation_store_wf(old(store).entries_seq(), r2u_anchor()),
    ensures
        relation_store_wf(final(store).entries_seq(), r2u_anchor()),
        relation_unassigned(
            old(store).entries_seq(),
            final(store).entries_seq(),
            owner,
            anchor_id,
            pair,
            r,
        ),
{
    let key = StoreKey { owner, id: anchor_id };
    let ghost s0 = store.entries_seq();
    match store.get(key) {
        Some(existing) => {
            let mut list = copy_list(existing);
            match r2u_find_pair(&list, pair) {
                Some(jx) => {
                    let ghost l0 = list@;
                    proof {
                        lemma_find_present(s0, key);
                        let j = choose|j: int| 0 <= j < s0.len() && s0[j].0 == key;
                        lemma_find_at(s0, key, j);
                    }
                    list.remove(jx);
                    let ghost newlist = list@;
                    proof {
                        assert(newlist == l0.remove(jx as int));
                    }
                    if list.len() == 0 {
                        store.remove(key);
                        proof {
                            let j = kv_index_of(s0, key);
                            let s1 = store.entries_seq();
                            assert forall|i: int| 0 <= i < s1.len() implies
                                (#[trigger] s1[i]).1@.len() > 0 by {
                                let i0 = if i < j { i } else { i + 1 };
                                assert(s1[i] == s0[i0]);
                            }
                            assert forall|i: int, a: int|
                                0 <= i < s1.len() && 0 <= a < s1[i].1@.len() implies r2u_anchor()(
                                #[trigger] s1[i].1@[a],
                            ) == s1[i].0.id by {
                                let i0 = if i < j { i } else { i + 1 };
                                assert(s1[i] == s0[i0]);
                            }
                            assert forall|i: int, a: int, b: int|
                                #![trigger s1[i].1@[a], s1[i].1@[b]]
                                0 <= i < s1.len() && 0 <= a < b < s1[i].1@.len() implies s1[i].1@[a]
                                != s1[i].1@[b] by {
                                let i0 = if i < j { i } else { i + 1 };
                                assert(s1[i] == s0[i0]);
                            }
                            let l0p = rel_list_or_empty(s0, key);
                            assert(l0p == l0 && l0p[jx as int] == pair);
                            assert(exists|j2: int|
                                #![trigger l0p[j2]]
                                0 <= j2 < l0p.len() && l0p[j2] == pair && if l0p.len() == 1 {
                                    kv_find(s1, key) is None
                                } else {
                                    rel_list_of(s1, key) == Some(l0p.remove(j2))
                                });
                        }
                        Ok(())
                    } else {
                        store.set_value(key, list);
                        proof {
                            let j = kv_index_of(s0, key);
                            let s1 = store.entries_seq();
                            assert forall|i: int| 0 <= i < s1.len() implies
                                (#[trigger] s1[i]).1@.len() > 0 by {
                                if i != j {
                                    assert(s1[i] == s0[i]);
                                }
                            }
                            assert forall|i: int, a: int|
                                0 <= i < s1.len() && 0 <= a < s1[i].1@.len() implies r2u_anchor()(
                                #[trigger] s1[i].1@[a],
                            ) == s1[i].0.id by {
                                if i != j {
                                    assert(s1[i] == s0[i]);
                                } else {
                                    assert(s1[i].1@ == newlist);
                                    let a0 = if a < jx as int { a } else { a + 1 };
                                    assert(newlist[a] == s0[j].1@[a0]);
                                }
                            }
                            assert forall|i: int, a: int, b: int|
                                #![trigger s1[i].1@[a], s1[i].1@[b]]
                                0 <= i < s1.len() && 0 <= a < b < s1[i].1@.len() implies s1[i].1@[a]
                                != s1[i].1@[b] by {
                                if i != j {
                                    assert(s1[i] == s0[i]);
                                } else {
                                    assert(s1[i].1@ == newlist);
                                    let a0 = if a < jx as int { a } else { a + 1 };
                                    let b0 = if b < jx as int { b } else { b + 1 };
                                    assert(newlist[a] == s0[j].1@[a0]
                                        && newlist[b] == s0[j].1@[b0]);
                                }
                            }
                            let l0p = rel_list_or_empty(s0, key);
                            assert(l0p == l0 && l0p[jx as int] == pair);
                            assert(exists|j2: int|
                                #![trigger l0p[j2]]
                                0 <= j2 < l0p.len() && l0p[j2] == pair && if l0p.len() == 1 {
                                    kv_find(s1, key) is None
                                } else {
                                    rel_list_of(s1, key) == Some(l0p.remove(j2))
                                });
                        }
                        Ok(())
                    }
                }
                None => Err(EntityError::EntityDoesNotExist),
            }
        }
        None => Err(EntityError::EntityDoesNotExist),
    }
}

/// Role-to-group lists are anchored by the group.
pub open spec fn r2g_anchor() -> spec_fn(Role2Group) -> EntityId {
    |p: Role2Group| p.group
}

fn r2g_find_pair(v: &Vec<Role2Group>, p: Role2Group) -> (r: Option<usize>)
    ensures
        match r {
            Some(j) => j < v@.len() && v@[j as int] == p,
            None => !v@.contains(p),
        },
{
    let mut i: usize = 0;
    while i < v.len()
        invariant
            i <= v.len(),
            forall|j: int| 0 <= j < i ==> v@[j] != p,
        decreases v.len() - i,
    {
        if v[i] == p {
            return Some(i);
        }
        i = i + 1;
    }
    None
}

/// Appends the pair to the anchor's list, creating the list if absent;
/// refuses a pair already present. Referenced-entity checks are the
/// caller's.
fn r2g_assign(
    store: &mut KvStore<Vec<Role2Group>>,
    owner: OwnerId,
    anchor_id: EntityId,
    pair: Role2Group,
) -> (r: Result<(), EntityError>)
    requires
        relation_store_wf(old(store).entries_seq(), r2g_anchor()),
        pair.group == anchor_id,
    ensures
        relation_store_wf(final(store).entries_seq(), r2g_anchor()),
        relation_assigned(
            old(store).entries_seq(),
            final(store).entries_seq(),
            owner,
            anchor_id,
            pair,
            true,
            r,
        ),
{
    let key = StoreKey { owner, id: anchor_id };
    let ghost s0 = store.entries_seq();
    match store.get(key) {
        Some(existing) => {
            let mut list = copy_list(existing);
            match r2g_find_pair(&list, pair) {
                Some(_) => Err(EntityError::EntityAlreadyExist),
                None => {
                    list.push(pair);
                    let ghost newlist = list@;
                    proof {
                        lemma_find_present(s0, key);
                        let j = choose|j: int| 0 <= j < s0.len() && s0[j].0 == key;
                        lemma_find_at(s0, key, j);
                    }
                    store.set_value(key, list);
                    proof {
                        let j = kv_index_of(s0, key);
                        let s1 = store.entries_seq();
                        assert forall|i: int| 0 <= i < s1.len() implies (#[trigger] s1[i]).1@.len()
                            > 0 by {
                            if i != j {
                                assert(s1[i] == s0[i]);
                            }
                        }
                        assert forall|i: int, a: int|
                            0 <= i < s1.len() && 0 <= a < s1[i].1@.len() implies r2g_anchor()(
                            #[trigger] s1[i].1@[a],
                        ) == s1[i].0.id by {
                            if i != j {
                                assert(s1[i] == s0[i]);
                            } else {
                                assert(s1[i].1@ == newlist);
                                if a < newlist.len() - 1 {
                                    assert(s0[j].1@[a] == newlist[a]);
                                }
                            }
                        }
                        assert forall|i: int, a: int, b: int|
                            #![trigger s1[i].1@[a], s1[i].1@[b]]
                            0 <= i < s1.len() && 0 <= a < b < s1[i].1@.len() implies s1[i].1@[a]
                            != s1[i].1@[b] by {
                            if i != j {
                                assert(s1[i] == s0[i]);
                            } else {
                                assert(s1[i].1@ == newlist);
                                if b < newlist.len() - 1 {
                                    assert(s0[j].1@[a] == newlist[a] && s0[j].1@[b] == newlist[b]);
                                } else {
                                    assert(newlist[b] == pair);
                                    assert(newlist[a] == s0[j].1@[a]);
                                    assert(!s0[j].1@.contains(pair));
                                }
                            }
                        }
                    }
                    Ok(())
                }
            }
        }
        None => {
            let mut list: Vec<Role2Group> = Vec::new();
            list.push(pair);
            let ghost newlist = list@;
            store.insert(key, list);
            proof {
                let s1 = store.entries_seq();
                assert(s1 == s0.push((key, list)));
                assert forall|i: int| 0 <= i < s1.len() implies (#[trigger] s1[i]).1@.len() > 0 by {
                    if i < s0.len() {
                        assert(s1[i] == s0[i]);
                    } else {
                        assert(s1[i].1@ == newlist);
                    }
                }
                assert forall|i: int, a: int|
                    0 <= i < s1.len() && 0 <= a < s1[i].1@.len() implies r2g_anchor()(
                    #[trigger] s1[i].1@[a],
                ) == s1[i].0.id by {
                    if i < s0.len() {
                        assert(s1[i] == s0[i]);
                    } else {
                        assert(s1[i].1@ == newlist && s1[i].0 == key);
                    }
                }
                assert forall|i: int, a: int, b: int|
                    #![trigger s1[i].1@[a], s1[i].1@[b]]
                    0 <= i < s1.len() && 0 <= a < b < s1[i].1@.len() implies s1[i].1@[a]
                    != s1[i].1@[b] by {
                    if i < s0.len() {
                        assert(s1[i] == s0[i]);
                    }
                }
            }
            Ok(())
        }
    }
}

/// Removes the pair from the anchor's list, deleting the list when it
/// empties; an absent anchor or absent pair is reported as not existing.
fn r2g_unassign(
    store: &mut KvStore<Vec<Role2Group>>,
    owner: OwnerId,
    anchor_id: EntityId,
    pair: Role2Group,
) -> (r: Result<(), EntityError>)
    requires
        relation_store_wf(old(store).entries_seq(), r2g_anchor()),
    ensures
        relation_store_wf(final(store).entries_seq(), r2g_anchor()),
        relation_unassigned(
            old(store).entries_seq(),
            final(store).entries_seq(),
            owner,
            anchor_id,
            pair,
            r,
        ),
{
    let key = StoreKey { owner, id: anchor_id };
    let ghost s0 = store.entries_seq();
    match store.get(key) {
        Some(existing) => {
            let mut list = copy_list(existing);
            match r2g_find_pair(&list, pair) {
                Some(jx) => {
                    let ghost l0 = list@;
                    proof {
                        lemma_find_present(s0, key);
                        let j = choose|j: int| 0 <= j < s0.len() && s0[j].0 == key;
                        lemma_find_at(s0, key, j);
                    }
                    list.remove(jx);
                    let ghost newlist = list@;
                    proof {
                        assert(newlist == l0.remove(jx as int));
                    }
                    if list.len() == 0 {
                        store.remove(key);
                        proof {
                            let j = kv_index_of(s0, key);
                            let s1 = store.entries_seq();
                            assert forall|i: int| 0 <= i < s1.len() implies
                                (#[trigger] s1[i]).1@.len() > 0 by {
                                let i0 = if i < j { i } else { i + 1 };
                                assert(s1[i] == s0[i0]);
                            }
                            assert forall|i: int, a: int|
                                0 <= i < s1.len() && 0 <= a < s1[i].1@.len() implies r2g_anchor()(
                                #[trigger] s1[i].1@[a],
                            ) == s1[i].0.id by {
                                let i0 = if i < j { i } else { i + 1 };
                                assert(s1[i] == s0[i0]);
                            }
                            assert forall|i: int, a: int, b: int|
                                #![trigger s1[i].1@[a], s1[i].1@[b]]
                                0 <= i < s1.len() && 0 <= a < b < s1[i].1@.len() implies s1[i].1@[a]
                                != s1[i].1@[b] by {
                                let i0 = if i < j { i } else { i + 1 };
                                assert(s1[i] == s0[i0]);
                            }
                            let l0p = rel_list_or_empty(s0, key);
                            assert(l0p == l0 && l0p[jx as int] == pair);
                            assert(exists|j2: int|
                                #![trigger l0p[j2]]
                                0 <= j2 < l0p.len() && l0p[j2] == pair && if l0p.len() == 1 {
                                    kv_find(s1, key) is None
                                } else {
                                    rel_list_of(s1, key) == Some(l0p.remove(j2))
                                });
                        }
                        Ok(())
                    } else {
                        store.set_value(key, list);
                        proof {
                            let j = kv_index_of(s0, key);
                            let s1 = store.entries_seq();
                            assert forall|i: int| 0 <= i < s1.len() implies
                                (#[trigger] s1[i]).1@.len() > 0 by {
                                if i != j {
                                    assert(s1[i] == s0[i]);
                                }
                            }
                            assert forall|i: int, a: int|
                                0 <= i < s1.len() && 0 <= a < s1[i].1@.len() implies r2g_anchor()(
                                #[trigger] s1[i].1@[a],
                            ) == s1[i].0.id by {
                                if i != j {
                                    assert(s1[i] == s0[i]);
                                } else {
                                    assert(s1[i].1@ == newlist);
                                    let a0 = if a < jx as int { a } else { a + 1 };
                                    assert(newlist[a] == s0[j].1@[a0]);
                                }
                            }
                            assert forall|i: int, a: int, b: int|
                                #![trigger s1[i].1@[a], s1[i].1@[b]]
                                0 <= i < s1.len() && 0 <= a < b < s1[i].1@.len() implies s1[i].1@[a]
                                != s1[i].1@[b] by {
                                if i != j {
                                    assert(s1[i] == s0[i]);
                                } else {
                                    assert(s1[i].1@ == newlist);
                                    let a0 = if a < jx as int { a } else { a + 1 };
                                    let b0 = if b < jx as int { b } else { b + 1 };
                                    assert(newlist[a] == s0[j].1@[a0]
                                        && newlist[b] == s0[j].1@[b0]);
                                }
                            }
                            let l0p = rel_list_or_empty(s0, key);
                            assert(l0p == l0 && l0p[jx as int] == pair);
                            assert(exists|j2: int|
                                #![trigger l0p[j2]]
                                0 <= j2 < l0p.len() && l0p[j2] == pair && if l0p.len() == 1 {
                                    kv_find(s1, key) is None
                                } else {
                                    rel_list_of(s1, key) == Some(l0p.remove(j2))
                                });
                        }
                        Ok(())
                    }
                }
                None => Err(EntityError::EntityDoesNotExist),
            }
        }
        None => Err(EntityError::EntityDoesNotExist),
    }
}

/// Permission-to-role lists are anchored by the role.
pub open spec fn p2r_anchor() -> spec_fn(Permission2Role) -> EntityId {
    |p: Permission2Role| p.role
}

fn p2r_find_pair(v: &Vec<Permission2Role>, p: Permission2Role) -> (r: Option<usize>)
    ensures
        match r {
            Some(j) => j < v@.len() && v@[j as int] == p,
            None => !v@.contains(p),
        },
{
    let mut i: usize = 0;
    while i < v.len()
        invariant
            i <= v.len(),
            forall|j: int| 0 <= j < i ==> v@[j] != p,
        decreases v.len() - i,
    {
        if v[i] == p {
            return Some(i);
        }
        i = i + 1;
    }
    None
}

/// Appends the pair to the anchor's list, creating the list if absent;
/// refuses a pair already present. Referenced-entity checks are the
/// caller's.
fn p2r_assign(
    store: &mut KvStore<Vec<Permission2Role>>,
    owner: OwnerId,
    anchor_id: EntityId,
    pair: Permission2Role,
) -> (r: Result<(), EntityError>)
    requires
        relation_store_wf(old(store).entries_seq(), p2r_anchor()),
        pair.role == anchor_id,
    ensures
        relation_store_wf(final(store).entries_seq(), p2r_anchor()),
        relation_assigned(
            old(store).entries_seq(),
            final(store).entries_seq(),
            owner,
            anchor_id,
            pair,
            true,
            r,
        ),
{
    let key = StoreKey { owner, id: anchor_id };
    let ghost s0 = store.entries_seq();
    match store.get(key) {
        Some(existing) => {
            let mut list = copy_list(existing);
            match p2r_find_pair(&list, pair) {
                Some(_) => Err(EntityError::EntityAlreadyExist),
                None => {
                    list.push(pair);
                    let ghost newlist = list@;
                    proof {
                        lemma_find_present(s0, key);
                        let j = choose|j: int| 0 <= j < s0.len() && s0[j].0 == key;
                        lemma_find_at(s0, key, j);
                    }
                    store.set_value(key, list);
                    proof {
                        let j = kv_index_of(s0, key);
                        let s1 = store.entries_seq();
                        assert forall|i: int| 0 <= i < s1.len() implies (#[trigger] s1[i]).1@.len()
                            > 0 by {
                            if i != j {
                                assert(s1[i] == s0[i]);
                            }
                        }
                        assert forall|i: int, a: int|
                            0 <= i < s1.len() && 0 <= a < s1[i].1@.len() implies p2r_anchor()(
                            #[trigger] s1[i].1@[a],
                        ) == s1[i].0.id by {
                            if i != j {
                                assert(s1[i] == s0[i]);
                            } else {
                                assert(s1[i].1@ == newlist);
                                if a < newlist.len() - 1 {
                                    assert(s0[j].1@[a] == newlist[a]);
                                }
                            }
                        }
                        assert forall|i: int, a: int, b: int|
                            #![trigger s1[i].1@[a], s1[i].1@[b]]
                            0 <= i < s1.len() && 0 <= a < b < s1[i].1@.len() implies s1[i].1@[a]
                            != s1[i].1@[b] by {
                            if i != j {
                                assert(s1[i] == s0[i]);
                            } else {
                                assert(s1[i].1@ == newlist);
                                if b < newlist.len() - 1 {
                                    assert(s0[j].1@[a] == newlist[a] && s0[j].1@[b] == newlist[b]);
                                } else {
                                    assert(newlist[b] == pair);
                                    assert(newlist[a] == s0[j].1@[a]);
                                    assert(!s0[j].1@.contains(pair));
                                }
                            }
                        }
                    }
                    Ok(())
                }
            }
        }
        None => {
            let mut list: Vec<Permission2Role> = Vec::new();
            list.push(pair);
            let ghost newlist = list@;
            store.insert(key, list);
            proof {
                let s1 = store.entries_seq();
                assert(s1 == s0.push((key, list)));
                assert forall|i: int| 0 <= i < s1.len() implies (#[trigger] s1[i]).1@.len() > 0 by {
                    if i < s0.len() {
                        assert(s1[i] == s0[i]);
                    } else {
                        assert(s1[i].1@ == newlist);
                    }
                }
                assert forall|i: int, a: int|
                    0 <= i < s1.len() && 0 <= a < s1[i].1@.len() implies p2r_anchor()(
                    #[trigger] s1[i].1@[a],
                ) == s1[i].0.id by {
                    if i < s0.len() {
                        assert(s1[i] == s0[i]);
                    } else {
                        assert(s1[i].1@ == newlist && s1[i].0 == key);
                    }
                }
                assert forall|i: int, a: int, b: int|
                    #![trigger s1[i].1@[a], s1[i].1@[b]]
                    0 <= i < s1.len() && 0 <= a < b < s1[i].1@.len() implies s1[i].1@[a]
                    != s1[i].1@[b] by {
                    if i < s0.len() {
                        assert(s1[i] == s0[i]);
                    }
                }
            }
            Ok(())
        }
    }
}

/// Removes the pair from the anchor's list, deleting the list when it
/// empties; an absent anchor or absent pair is reported as not existing.
fn p2r_unassign(
    store: &mut KvStore<Vec<Permission2Role>>,
    owner: OwnerId,
    anchor_id: EntityId,
    pair: Permission2Role,
) -> (r: Result<(), EntityError>)
    requires
        relation_store_wf(old(store).entries_seq(), p2r_anchor()),
    ensures
        relation_store_wf(final(store).entries_seq(), p2r_anchor()),
        relation_unassigned(
            old(store).entries_seq(),
            final(store).entries_seq(),
            owner,
            anchor_id,
            pair,
            r,
        ),
{
    let key = StoreKey { owner, id: anchor_id };
    let ghost s0 = store.entries_seq();
    match store.get(key) {
        Some(existing) => {
            let mut list = copy_list(existing);
            match p2r_find_pair(&list, pair) {
                Some(jx) => {
                    let ghost l0 = list@;
                    proof {
                        lemma_find_present(s0, key);
                        let j = choose|j: int| 0 <= j < s0.len() && s0[j].0 == key;
                        lemma_find_at(s0, key, j);
                    }
                    list.remove(jx);
                    let ghost newlist = list@;
                    proof {
                        assert(newlist == l0.remove(jx as int));
                    }
                    if list.len() == 0 {
                        store.remove(key);
                        proof {
                            let j = kv_index_of(s0, key);
                            let s1 = store.entries_seq();
                            assert forall|i: int| 0 <= i < s1.len() implies
                                (#[trigger] s1[i]).1@.len() > 0 by {
                                let i0 = if i < j { i } else { i + 1 };
                                assert(s1[i] == s0[i0]);
                            }
                            assert forall|i: int, a: int|
                                0 <= i < s1.len() && 0 <= a < s1[i].1@.len() implies p2r_anchor()(
                                #[trigger] s1[i].1@[a],
                            ) == s1[i].0.id by {
                                let i0 = if i < j { i } else { i + 1 };
                                assert(s1[i] == s0[i0]);
                            }
                            assert forall|i: int, a: int, b: int|
                                #![trigger s1[i].1@[a], s1[i].1@[b]]
                                0 <= i < s1.len() && 0 <= a < b < s1[i].1@.len() implies s1[i].1@[a]
                                != s1[i].1@[b] by {
                                let i0 = if i < j { i } else { i + 1 };
                                assert(s1[i] == s0[i0]);
                            }
                            let l0p = rel_list_or_empty(s0, key);
                            assert(l0p == l0 && l0p[jx as int] == pair);
                            assert(exists|j2: int|
                                #![trigger l0p[j2]]
                                0 <= j2 < l0p.len() && l0p[j2] == pair && if l0p.len() == 1 {
                                    kv_find(s1, key) is None
                                } else {
                                    rel_list_of(s1, key) == Some(l0p.remove(j2))
                                });
                        }
                        Ok(())
                    } else {
                        store.set_value(key, list);
                        proof {
                            let j = kv_index_of(s0, key);
                            let s1 = store.entries_seq();
                            assert forall|i: int| 0 <= i < s1.len() implies
                                (#[trigger] s1[i]).1@.len() > 0 by {
                                if i != j {
                                    assert(s1[i] == s0[i]);
                                }
                            }
                            assert forall|i: int, a: int|
                                0 <= i < s1.len() && 0 <= a < s1[i].1@.len() implies p2r_anchor()(
                                #[trigger] s1[i].1@[a],
                            ) == s1[i].0.id by {
                                if i != j {
                                    assert(s1[i] == s0[i]);
                                } else {
                                    assert(s1[i].1@ == newlist);
                                    let a0 = if a < jx as int { a } else { a + 1 };
                                    assert(newlist[a] == s0[j].1@[a0]);
                                }
                            }
                            assert forall|i: int, a: int, b: int|
                                #![trigger s1[i].1@[a], s1[i].1@[b]]
                                0 <= i < s1.len() && 0 <= a < b < s1[i].1@.len() implies s1[i].1@[a]
                                != s1[i].1@[b] by {
                                if i != j {
                                    assert(s1[i] == s0[i]);
                                } else {
                                    assert(s1[i].1@ == newlist);
                                    let a0 = if a < jx as int { a } else { a + 1 };
                                    let b0 = if b < jx as int { b } else { b + 1 };
                                    assert(newlist[a] == s0[j].1@[a0]
                                        && newlist[b] == s0[j].1@[b0]);
                                }
                            }
                            let l0p = rel_list_or_empty(s0, key);
                            assert(l0p == l0 && l0p[jx as int] == pair);
                            assert(exists|j2: int|
                                #![trigger l0p[j2]]
                                0 <= j2 < l0p.len() && l0p[j2] == pair && if l0p.len() == 1 {
                                    kv_find(s1, key) is None
                                } else {
                                    rel_list_of(s1, key) == Some(l0p.remove(j2))
                                });
                        }
                        Ok(())
                    }
                }
                None => Err(EntityError::EntityDoesNotExist),
            }
        }
        None => Err(EntityError::EntityDoesNotExist),
    }
}

/// User-to-group lists are anchored by the user.
pub open spec fn u2g_anchor() -> spec_fn(User2Group) -> EntityId {
    |p: User2Group| p.user
}

fn u2g_find_pair(v: &Vec<User2Group>, p: User2Group) -> (r: Option<usize>)
    ensures
        match r {
            Some(j) => j < v@.len() && v@[j as int] == p,
            None => !v@.contains(p),
        },
{
    let mut i: usize = 0;
    while i < v.len()
        invariant
            i <= v.len(),
            forall|j: int| 0 <= j < i ==> v@[j] != p,
        decreases v.len() - i,
    {
        if v[i] == p {
            return Some(i);
        }
        i = i + 1;
    }
    None
}

/// Appends the pair to the anchor's list, creating the list if absent;
/// refuses a pair already present. Referenced-entity checks are the
/// caller's.
fn u2g_assign(
    store: &mut KvStore<Vec<User2Group>>,
    owner: OwnerId,
    anchor_id: EntityId,
    pair: User2Group,
) -> (r: Result<(), EntityError>)
    requires
        relation_store_wf(old(store).entries_seq(), u2g_anchor()),
        pair.user == anchor_id,
    ensures
        relation_store_wf(final(store).entries_seq(), u2g_anchor()),
        relation_assigned(
            old(store).entries_seq(),
            final(store).entries_seq(),
            owner,
            anchor_id,
            pair,
            true,
            r,
        ),
{
    let key = StoreKey { owner, id: anchor_id };
    let ghost s0 = store.entries_seq();
    match store.get(key) {
        Some(existing) => {
            let mut list = copy_list(existing);
            match u2g_find_pair(&list, pair) {
                Some(_) => Err(EntityError::EntityAlreadyExist),
                None => {
                    list.push(pair);
                    let ghost newlist = list@;
                    proof {
                        lemma_find_present(s0, key);
                        let j = choose|j: int| 0 <= j < s0.len() && s0[j].0 == key;
                        lemma_find_at(s0, key, j);
                    }
                    store.set_value(key, list);
                    proof {
                        let j = kv_index_of(s0, key);
                        let s1 = store.entries_seq();
                        assert forall|i: int| 0 <= i < s1.len() implies (#[trigger] s1[i]).1@.len()
                            > 0 by {
                            if i != j {
                                assert(s1[i] == s0[i]);
                            }
                        }
                        assert forall|i: int, a: int|
                            0 <= i < s1.len() && 0 <= a < s1[i].1@.len() implies u2g_anchor()(
                            #[trigger] s1[i].1@[a],
                        ) == s1[i].0.id by {
                            if i != j {
                                assert(s1[i] == s0[i]);
                            } else {
                                assert(s1[i].1@ == newlist);
                                if a < newlist.len() - 1 {
                                    assert(s0[j].1@[a] == newlist[a]);
                                }
                            }
                        }
                        assert forall|i: int, a: int, b: int|
                            #![trigger s1[i].1@[a], s1[i].1@[b]]
                            0 <= i < s1.len() && 0 <= a < b < s1[i].1@.len() implies s1[i].1@[a]
                            != s1[i].1@[b] by {
                            if i != j {
                                assert(s1[i] == s0[i]);
                            } else {
                                assert(s1[i].1@ == newlist);
                                if b < newlist.len() - 1 {
                                    assert(s0[j].1@[a] == newlist[a] && s0[j].1@[b] == newlist[b]);
                                } else {
                                    assert(newlist[b] == pair);
                                    assert(newlist[a] == s0[j].1@[a]);
                                    assert(!s0[j].1@.contains(pair));
                                }
                            }
                        }
                    }
                    Ok(())
                }
            }
        }
        None => {
            let mut list: Vec<User2Group> = Vec::new();
            list.push(pair);
            let ghost newlist = list@;
            store.insert(key, list);
            proof {
                let s1 = store.entries_seq();
                assert(s1 == s0.push((key, list)));
                assert forall|i: int| 0 <= i < s1.len() implies (#[trigger] s1[i]).1@.len() > 0 by {
                    if i < s0.len() {
                        assert(s1[i] == s0[i]);
                    } else {
                        assert(s1[i].1@ == newlist);
                    }
                }
                assert forall|i: int, a: int|
                    0 <= i < s1.len() && 0 <= a < s1[i].1@.len() implies u2g_anchor()(
                    #[trigger] s1[i].1@[a],
                ) == s1[i].0.id by {
                    if i < s0.len() {
                        assert(s1[i] == s0[i]);
                    } else {
                        assert(s1[i].1@ == newlist && s1[i].0 == key);
                    }
                }
                assert forall|i: int, a: int, b: int|
                    #![trigger s1[i].1@[a], s1[i].1@[b]]
                    0 <= i < s1.len() && 0 <= a < b < s1[i].1@.len() implies s1[i].1@[a]
                    != s1[i].1@[b] by {
                    if i < s0.len() {
                        assert(s1[i] == s0[i]);
                    }
                }
            }
            Ok(())
        }
    }
}

/// Removes the pair from the anchor's list, deleting the list when it
/// empties; an absent anchor or absent pair is reported as not existing.
fn u2g_unassign(
    store: &mut KvStore<Vec<User2Group>>,
    owner: OwnerId,
    anchor_id: EntityId,
    pair: User2Group,
) -> (r: Result<(), EntityError>)
    requires
        relation_store_wf(old(store).entries_seq(), u2g_anchor()),
    ensures
        relation_store_wf(final(store).entries_seq(), u2g_anchor()),
        relation_unassigned(
            old(store).entries_seq(),
            final(store).entries_seq(),
            owner,
            anchor_id,
            pair,
            r,
        ),
{
    let key = StoreKey { owner, id: anchor_id };
    let ghost s0 = store.entries_seq();
    match store.get(key) {
        Some(existing) => {
            let mut list = copy_list(existing);
            match u2g_find_pair(&list, pair) {
                Some(jx) => {
                    let ghost l0 = list@;
                    proof {
                        lemma_find_present(s0, key);
                        let j = choose|j: int| 0 <= j < s0.len() && s0[j].0 == key;
                        lemma_find_at(s0, key, j);
                    }
                    list.remove(jx);
                    let ghost newlist = list@;
                    proof {
                        assert(newlist == l0.remove(jx as int));
                    }
                    if list.len() == 0 {
                        store.remove(key);
                        proof {
                            let j = kv_index_of(s0, key);
                            let s1 = store.entries_seq();
                            assert forall|i: int| 0 <= i < s1.len() implies
                                (#[trigger] s1[i]).1@.len() > 0 by {
                                let i0 = if i < j { i } else { i + 1 };
                                assert(s1[i] == s0[i0]);
                            }
                            assert forall|i: int, a: int|
                                0 <= i < s1.len() && 0 <= a < s1[i].1@.len() implies u2g_anchor()(
                                #[trigger] s1[i].1@[a],
                            ) == s1[i].0.id by {
                                let i0 = if i < j { i } else { i + 1 };
                                assert(s1[i] == s0[i0]);
                            }
                            assert forall|i: int, a: int, b: int|
                                #![trigger s1[i].1@[a], s1[i].1@[b]]
                                0 <= i < s1.len() && 0 <= a < b < s1[i].1@.len() implies s1[i].1@[a]
                                != s1[i].1@[b] by {
                                let i0 = if i < j { i } else { i + 1 };
                                assert(s1[i] == s0[i0]);
                            }
                            let l0p = rel_list_or_empty(s0, key);
                            assert(l0p == l0 && l0p[jx as int] == pair);
                            assert(exists|j2: int|
                                #![trigger l0p[j2]]
                                0 <= j2 < l0p.len() && l0p[j2] == pair && if l0p.len() == 1 {
                                    kv_find(s1, key) is None
                                } else {
                                    rel_list_of(s1, key) == Some(l0p.remove(j2))
                                });
                        }
                        Ok(())
                    } else {
                        store.set_value(key, list);
                        proof {
                            let j = kv_index_of(s0, key);
                            let s1 = store.entries_seq();
                            assert forall|i: int| 0 <= i < s1.len() implies
                                (#[trigger] s1[i]).1@.len() > 0 by {
                                if i != j {
                                    assert(s1[i] == s0[i]);
                                }
                            }
                            assert forall|i: int, a: int|
                                0 <= i < s1.len() && 0 <= a < s1[i].1@.len() implies u2g_anchor()(
                                #[trigger] s1[i].1@[a],
                            ) == s1[i].0.id by {
                                if i != j {
                                    assert(s1[i] == s0[i]);
                                } else {
                                    assert(s1[i].1@ == newlist);
                                    let a0 = if a < jx as int { a } else { a + 1 };
                                    assert(newlist[a] == s0[j].1@[a0]);
                                }
                            }
                            assert forall|i: int, a: int, b: int|
                                #![trigger s1[i].1@[a], s1[i].1@[b]]
                                0 <= i < s1.len() && 0 <= a < b < s1[i].1@.len() implies s1[i].1@[a]
                                != s1[i].1@[b] by {
                                if i != j {
                                    assert(s1[i] == s0[i]);
                                } else {
                                    assert(s1[i].1@ == newlist);
                                    let a0 = if a < jx as int { a } else { a + 1 };
                                    let b0 = if b < jx as int { b } else { b + 1 };
                                    assert(newlist[a] == s0[j].1@[a0]
                                        && newlist[b] == s0[j].1@[b0]);
                                }
                            }
                            let l0p = rel_list_or_empty(s0, key);
                            assert(l0p == l0 && l0p[jx as int] == pair);
                            assert(exists|j2: int|
                                #![trigger l0p[j2]]
                                0 <= j2 < l0p.len() && l0p[j2] == pair && if l0p.len() == 1 {
                                    kv_find(s1, key) is None
                                } else {
                                    rel_list_of(s1, key) == Some(l0p.remove(j2))
                                });
                        }
                        Ok(())
                    }
                }
                None => Err(EntityError::EntityDoesNotExist),
            }
        }
        None => Err(EntityError::EntityDoesNotExist),
    }
}


/// The whole service state: one store per entity kind and per relation
/// kind. The boundary layer owns the instance and passes every operation
/// the caller's authenticated identity as `owner`.
pub struct Rbac {
    pub roles: KvStore<Entity>,
    pub permissions: KvStore<Entity>,
    pub groups: KvStore<Entity>,
    pub role2user: KvStore<Vec<Role2User>>,
    pub role2group: KvStore<Vec<Role2Group>>,
    pub permission2role: KvStore<Vec<Permission2Role>>,
    pub user2group: KvStore<Vec<User2Group>>,
}

impl Rbac {
    pub open spec fn roles_seq(self) -> Seq<(StoreKey, Entity)> {
        self.roles.entries_seq()
    }

    pub open spec fn permissions_seq(self) -> Seq<(StoreKey, Entity)> {
        self.permissions.entries_seq()
    }

    pub open spec fn groups_seq(self) -> Seq<(StoreKey, Entity)> {
        self.groups.entries_seq()
    }

    pub open spec fn r2u_seq(self) -> Seq<(StoreKey, Vec<Role2User>)> {
        self.role2user.entries_seq()
    }

    pub open spec fn r2g_seq(self) -> Seq<(StoreKey, Vec<Role2Group>)> {
        self.role2group.entries_seq()
    }

    pub open spec fn p2r_seq(self) -> Seq<(StoreKey, Vec<Permission2Role>)> {
        self.permission2role.entries_seq()
    }

    pub open spec fn u2g_seq(self) -> Seq<(StoreKey, Vec<User2Group>)> {
        self.user2group.entries_seq()
    }

    /// Every store is sound.
    pub open spec fn wf(self) -> bool {
        &&& entity_store_wf(self.roles_seq())
        &&& entity_store_wf(self.permissions_seq())
        &&& entity_store_wf(self.groups_seq())
        &&& relation_store_wf(self.r2u_seq(), r2u_anchor())
        &&& relation_store_wf(self.r2g_seq(), r2g_anchor())
        &&& relation_store_wf(self.p2r_seq(), p2r_anchor())
        &&& relation_store_wf(self.u2g_seq(), u2g_anchor())
    }

    /// The view of the role stored for `(owner, id)`, enabled or not.
    pub open spec fn role_view(self, owner: OwnerId, id: EntityId) -> Option<EntityView> {
        entity_view_of(self.roles_seq(), (StoreKey { owner, id }))
    }

    pub open spec fn permission_view(self, owner: OwnerId, id: EntityId) -> Option<EntityView> {
        entity_view_of(self.permissions_seq(), (StoreKey { owner, id }))
    }

    pub open spec fn group_view(self, owner: OwnerId, id: EntityId) -> Option<EntityView> {
        entity_view_of(self.groups_seq(), (StoreKey { owner, id }))
    }

    pub fn new() -> (s: Self)
        ensures
            s.wf(),
            s.roles_seq() == Seq::<(StoreKey, Entity)>::empty(),
            s.permissions_seq() == Seq::<(StoreKey, Entity)>::empty(),
            s.groups_seq() == Seq::<(StoreKey, Entity)>::empty(),
            s.r2u_seq() == Seq::<(StoreKey, Vec<Role2User>)>::empty(),
            s.r2g_seq() == Seq::<(StoreKey, Vec<Role2Group>)>::empty(),
            s.p2r_seq() == Seq::<(StoreKey, Vec<Permission2Role>)>::empty(),
            s.u2g_seq() == Seq::<(StoreKey, Vec<User2Group>)>::empty(),
    {
        Rbac {
            roles: KvStore::new(),
            permissions: KvStore::new(),
            groups: KvStore::new(),
            role2user: KvStore::new(),
            role2group: KvStore::new(),
            permission2role: KvStore::new(),
            user2group: KvStore::new(),
        }
    }
}

/// The two states agree on the role store.
pub open spec fn same_roles(a: Rbac, b: Rbac) -> bool {
    a.roles_seq() == b.roles_seq()
}

/// The two states agree on the permission store.
pub open spec fn same_permissions(a: Rbac, b: Rbac) -> bool {
    a.permissions_seq() == b.permissions_seq()
}

/// The two states agree on the group store.
pub open spec fn same_groups(a: Rbac, b: Rbac) -> bool {
    a.groups_seq() == b.groups_seq()
}

/// The two states agree on all four relation stores.
pub open spec fn same_relations(a: Rbac, b: Rbac) -> bool {
    &&& a.r2u_seq() == b.r2u_seq()
    &&& a.r2g_seq() == b.r2g_seq()
    &&& a.p2r_seq() == b.p2r_seq()
    &&& a.u2g_seq() == b.u2g_seq()
}

/// The two states agree on the role-to-user store.
pub open spec fn same_role2user(a: Rbac, b: Rbac) -> bool {
    a.r2u_seq() == b.r2u_seq()
}

/// The two states agree on the role-to-group store.
pub open spec fn same_role2group(a: Rbac, b: Rbac) -> bool {
    a.r2g_seq() == b.r2g_seq()
}

/// The two states agree on the permission-to-role store.
pub open spec fn same_permission2role(a: Rbac, b: Rbac) -> bool {
    a.p2r_seq() == b.p2r_seq()
}

/// The two states agree on the user-to-group store.
pub open spec fn same_user2group(a: Rbac, b: Rbac) -> bool {
    a.u2g_seq() == b.u2g_seq()
}

/// The two states agree on all three entity stores.
pub open spec fn same_entities(a: Rbac, b: Rbac) -> bool {
    same_roles(a, b) && same_permissions(a, b) && same_groups(a, b)
}

impl Rbac {
    /// Fetches one role by id, disabled or not.
    pub fn get_role(&self, owner: OwnerId, id: EntityId) -> (r: Option<Entity>)
        requires
            self.wf(),
        ensures
            match r {
                Some(e) => self.role_view(owner, id) == Some(e@),
                None => self.role_view(owner, id) is None,
            },
    {
        entity_get(&self.roles, owner, id)
    }

    /// Lists the owner's enabled roles in creation order.
    pub fn get_roles(&self, owner: OwnerId) -> (r: Vec<Entity>)
        ensures
            r@.map_values(|e: Entity| e@) == enabled_of(kv_owner_slice(self.roles_seq(), owner)),
    {
        entity_get_all(&self.roles, owner)
    }

    /// Creates a role: see [`entity_created`].
    pub fn create_role(&mut self, owner: OwnerId, id: EntityId, name: Vec<u8>) -> (r: Result<
        (),
        EntityError,
    >)
        requires
            old(self).wf(),
        ensures
            final(self).wf(),
            entity_created(old(self).roles_seq(), final(self).roles_seq(), owner, id, name@, r),
            same_permissions(*old(self), *final(self)),
            same_groups(*old(self), *final(self)),
            same_relations(*old(self), *final(self)),
    {
        entity_create(&mut self.roles, owner, id, name)
    }

    /// Renames a role: see [`entity_updated`].
    pub fn update_existing_role(&mut self, owner: OwnerId, id: EntityId, name: Vec<u8>) -> (r:
        Result<(), EntityError>)
        requires
            old(self).wf(),
        ensures
            final(self).wf(),
            entity_updated(old(self).roles_seq(), final(self).roles_seq(), owner, id, name@, r),
            same_permissions(*old(self), *final(self)),
            same_groups(*old(self), *final(self)),
            same_relations(*old(self), *final(self)),
    {
        entity_update(&mut self.roles, owner, id, name)
    }

    /// Disables a role: see [`entity_disabled`]. Relations that refer to
    /// it are left untouched.
    pub fn disable_existing_role(&mut self, owner: OwnerId, id: EntityId) -> (r: Result<
        (),
        EntityError,
    >)
        requires
            old(self).wf(),
        ensures
            final(self).wf(),
            entity_disabled(old(self).roles_seq(), final(self).roles_seq(), owner, id, r),
            same_permissions(*old(self), *final(self)),
            same_groups(*old(self), *final(self)),
            same_relations(*old(self), *final(self)),
    {
        entity_disable(&mut self.roles, owner, id)
    }
}

impl Rbac {
    /// Fetches one permission by id, disabled or not.
    pub fn get_permission(&self, owner: OwnerId, id: EntityId) -> (r: Option<Entity>)
        requires
            self.wf(),
        ensures
            match r {
                Some(e) => self.permission_view(owner, id) == Some(e@),
                None => self.permission_view(owner, id) is None,
            },
    {
        entity_get(&self.permissions, owner, id)
    }

    /// Lists the owner's enabled permissions in creation order.
    pub fn get_permissions(&self, owner: OwnerId) -> (r: Vec<Entity>)
        ensures
            r@.map_values(|e: Entity| e@) == enabled_of(kv_owner_slice(self.permissions_seq(), owner)),
    {
        entity_get_all(&self.permissions, owner)
    }

    /// Creates a permission: see [`entity_created`].
    pub fn create_permission(&mut self, owner: OwnerId, id: EntityId, name: Vec<u8>) -> (r: Result<
        (),
        EntityError,
    >)
        requires
            old(self).wf(),
        ensures
            final(self).wf(),
            entity_created(old(self).permissions_seq(), final(self).permissions_seq(), owner, id, name@, r),
            same_roles(*old(self), *final(self)),
            same_groups(*old(self), *final(self)),
            same_relations(*old(self), *final(self)),
    {
        entity_create(&mut self.permissions, owner, id, name)
    }

    /// Renames a permission: see [`entity_updated`].
    pub fn update_existing_permission(&mut self, owner: OwnerId, id: EntityId, name: Vec<u8>) -> (r:
        Result<(), EntityError>)
        requires
            old(self).wf(),
        ensures
            final(self).wf(),
            entity_updated(old(self).permissions_seq(), final(self).permissions_seq(), owner, id, name@, r),
            same_roles(*old(self), *final(self)),
            same_groups(*old(self), *final(self)),
            same_relations(*old(self), *final(self)),
    {
        entity_update(&mut self.permissions, owner, id, name)
    }

    /// Disables a permission: see [`entity_disabled`]. Relations that refer to
    /// it are left untouched.
    pub fn disable_existing_permission(&mut self, owner: OwnerId, id: EntityId) -> (r: Result<
        (),
        EntityError,
    >)
        requires
            old(self).wf(),
        ensures
            final(self).wf(),
            entity_disabled(old(self).permissions_seq(), final(self).permissions_seq(), owner, id, r),
            same_roles(*old(self), *final(self)),
            same_groups(*old(self), *final(self)),
            same_relations(*old(self), *final(self)),
    {
        entity_disable(&mut self.permissions, owner, id)
    }
}

impl Rbac {
    /// Fetches one group by id, disabled or not.
    pub fn get_group(&self, owner: OwnerId, id: EntityId) -> (r: Option<Entity>)
        requires
            self.wf(),
        ensures
            match r {
                Some(e) => self.group_view(owner, id) == Some(e@),
                None => self.group_view(owner, id) is None,
            },
    {
        entity_get(&self.groups, owner, id)
    }

    /// Lists the owner's enabled groups in creation order.
    pub fn get_groups(&self, owner: OwnerId) -> (r: Vec<Entity>)
        ensures
            r@.map_values(|e: Entity| e@) == enabled_of(kv_owner_slice(self.groups_seq(), owner)),
    {
        entity_get_all(&self.groups, owner)
    }

    /// Creates a group: see [`entity_created`].
    pub fn create_group(&mut self, owner: OwnerId, id: EntityId, name: Vec<u8>) -> (r: Result<
        (),
        EntityError,
    >)
        requires
            old(self).wf(),
        ensures
            final(self).wf(),
            entity_created(old(self).groups_seq(), final(self).groups_seq(), owner, id, name@, r),
            same_roles(*old(self), *final(self)),
            same_permissions(*old(self), *final(self)),
            same_relations(*old(self), *final(self)),
    {
        entity_create(&mut self.groups, owner, id, name)
    }

    /// Renames a group: see [`entity_updated`].
    pub fn update_existing_group(&mut self, owner: OwnerId, id: EntityId, name: Vec<u8>) -> (r:
        Result<(), EntityError>)
        requires
            old(self).wf(),
        ensures
            final(self).wf(),
            entity_updated(old(self).groups_seq(), final(self).groups_seq(), owner, id, name@, r),
            same_roles(*old(self), *final(self)),
            same_permissions(*old(self), *final(self)),
            same_relations(*old(self), *final(self)),
    {
        entity_update(&mut self.groups, owner, id, name)
    }

    /// Disables a group: see [`entity_disabled`]. Relations that refer to
    /// it are left untouched.
    pub fn disable_existing_group(&mut self, owner: OwnerId, id: EntityId) -> (r: Result<
        (),
        EntityError,
    >)
        requires
            old(self).wf(),
        ensures
            final(self).wf(),
            entity_disabled(old(self).groups_seq(), final(self).groups_seq(), owner, id, r),
            same_roles(*old(self), *final(self)),
            same_permissions(*old(self), *final(self)),
            same_relations(*old(self), *final(self)),
    {
        entity_disable(&mut self.groups, owner, id)
    }
}

impl Rbac {
    /// The relation list stored for `(owner, user_id)`, if any.
    pub open spec fn get_user_roles_view(self, owner: OwnerId, user_id: EntityId) -> Option<
        Seq<Role2User>,
    > {
        rel_list_of(self.r2u_seq(), (StoreKey { owner, id: user_id }))
    }

    /// Fetches the role-to-user list anchored at `user_id`.
    pub fn get_user_roles(&self, owner: OwnerId, user_id: EntityId) -> (r: Option<Vec<Role2User>>)
        requires
            self.wf(),
        ensures
            match r {
                Some(v) => self.get_user_roles_view(owner, user_id) == Some(v@),
                None => self.get_user_roles_view(owner, user_id) is None,
            },
    {
        match self.role2user.get(StoreKey { owner, id: user_id }) {
            Some(v) => Some(copy_list(v)),
            None => None,
        }
    }

    /// Records a role assigned directly to a user: see [`relation_assigned`]; the referenced
    /// role must exist (enabled or not).
    pub fn create_role_to_user(&mut self, owner: OwnerId, role_id: EntityId, user_id: EntityId) -> (r: Result<
        (),
        EntityError,
    >)
        requires
            old(self).wf(),
        ensures
            final(self).wf(),
            relation_assigned(
                old(self).r2u_seq(),
                final(self).r2u_seq(),
                owner,
                user_id,
                (Role2User { role: role_id, user: user_id }),
                old(self).role_view(owner, role_id) is Some,
                r,
            ),
            same_entities(*old(self), *final(self)),
            same_role2group(*old(self), *final(self)),
            same_permission2role(*old(self), *final(self)),
            same_user2group(*old(self), *final(self)),
    {
        if !self.roles.contains_key(StoreKey { owner, id: role_id }) {
            return Err(EntityError::EntityDoesNotExist);
        }
        r2u_assign(&mut self.role2user, owner, user_id, Role2User { role: role_id, user: user_id })
    }

    /// Removes a role assigned directly to a user: see [`relation_unassigned`].
    pub fn revoke_role_to_user(&mut self, owner: OwnerId, role_id: EntityId, user_id: EntityId) -> (r: Result<
        (),
        EntityError,
    >)
        requires
            old(self).wf(),
        ensures
            final(self).wf(),
            relation_unassigned(
                old(self).r2u_seq(),
                final(self).r2u_seq(),
                owner,
                user_id,
                (Role2User { role: role_id, user: user_id }),
                r,
            ),
            same_entities(*old(self), *final(self)),
            same_role2group(*old(self), *final(self)),
            same_permission2role(*old(self), *final(self)),
            same_user2group(*old(self), *final(self)),
    {
        r2u_unassign(&mut self.role2user, owner, user_id, Role2User { role: role_id, user: user_id })
    }
}

impl Rbac {
    /// The relation list stored for `(owner, group_id)`, if any.
    pub open spec fn get_group_roles_view(self, owner: OwnerId, group_id: EntityId) -> Option<
        Seq<Role2Group>,
    > {
        rel_list_of(self.r2g_seq(), (StoreKey { owner, id: group_id }))
    }

    /// Fetches the role-to-group list anchored at `group_id`.
    pub fn get_group_roles(&self, owner: OwnerId, group_id: EntityId) -> (r: Option<Vec<Role2Group>>)
        requires
            self.wf(),
        ensures
            match r {
                Some(v) => self.get_group_roles_view(owner, group_id) == Some(v@),
                None => self.get_group_roles_view(owner, group_id) is None,
            },
    {
        match self.role2group.get(StoreKey { owner, id: group_id }) {
            Some(v) => Some(copy_list(v)),
            None => None,
        }
    }

    /// Records a role granted to a group: see [`relation_assigned`]; the referenced
    /// role and group must exist (enabled or not).
    pub fn create_role_to_group(&mut self, owner: OwnerId, role_id: EntityId, group_id: EntityId) -> (r: Result<
        (),
        EntityError,
    >)
        requires
            old(self).wf(),
        ensures
            final(self).wf(),
            relation_assigned(
                old(self).r2g_seq(),
                final(self).r2g_seq(),
                owner,
                group_id,
                (Role2Group { role: role_id, group: group_id }),
                old(self).role_view(owner, role_id) is Some && old(self).group_view(owner, group_id) is Some,
                r,
            ),
            same_entities(*old(self), *final(self)),
            same_role2user(*old(self), *final(self)),
            same_permission2role(*old(self), *final(self)),
            same_user2group(*old(self), *final(self)),
    {
        if !self.roles.contains_key(StoreKey { owner, id: role_id }) {
            return Err(EntityError::EntityDoesNotExist);
        }
        if !self.groups.contains_key(StoreKey { owner, id: group_id }) {
            return Err(EntityError::EntityDoesNotExist);
        }
        r2g_assign(&mut self.role2group, owner, group_id, Role2Group { role: role_id, group: group_id })
    }

    /// Removes a role granted to a group: see [`relation_unassigned`].
    pub fn revoke_role_to_group(&mut self, owner: OwnerId, role_id: EntityId, group_id: EntityId) -> (r: Result<
        (),
        EntityError,
    >)
        requires
            old(self).wf(),
        ensures
            final(self).wf(),
            relation_unassigned(
                old(self).r2g_seq(),
                final(self).r2g_seq(),
                owner,
                group_id,
                (Role2Group { role: role_id, group: group_id }),
                r,
            ),
            same_entities(*old(self), *final(self)),
            same_role2user(*old(self), *final(self)),
            same_permission2role(*old(self), *final(self)),
            same_user2group(*old(self), *final(self)),
    {
        r2g_unassign(&mut self.role2group, owner, group_id, Role2Group { role: role_id, group: group_id })
    }
}

impl Rbac {
    /// The relation list stored for `(owner, role_id)`, if any.
    pub open spec fn get_role_permissions_view(self, owner: OwnerId, role_id: EntityId) -> Option<
        Seq<Permission2Role>,
    > {
        rel_list_of(self.p2r_seq(), (StoreKey { owner, id: role_id }))
    }

    /// Fetches the permission-to-role list anchored at `role_id`.
    pub fn get_role_permissions(&self, owner: OwnerId, role_id: EntityId) -> (r: Option<Vec<Permission2Role>>)
        requires
            self.wf(),
        ensures
            match r {
                Some(v) => self.get_role_permissions_view(owner, role_id) == Some(v@),
                None => self.get_role_permissions_view(owner, role_id) is None,
            },
    {
        match self.permission2role.get(StoreKey { owner, id: role_id }) {
            Some(v) => Some(copy_list(v)),
            None => None,
        }
    }

    /// Records a permission carried by a role: see [`relation_assigned`]; the referenced
    /// role and permission must exist (enabled or not).
    pub fn create_permission_to_role(&mut self, owner: OwnerId, permission_id: EntityId, role_id: EntityId) -> (r: Result<
        (),
        EntityError,
    >)
        requires
            old(self).wf(),
        ensures
            final(self).wf(),
            relation_assigned(
                old(self).p2r_seq(),
                final(self).p2r_seq(),
                owner,
                role_id,
                (Permission2Role { permission: permission_id, role: role_id }),
                old(self).role_view(owner, role_id) is Some && old(self).permission_view(owner, permission_id) is Some,
                r,
            ),
            same_entities(*old(self), *final(self)),
            same_role2user(*old(self), *final(self)),
            same_role2group(*old(self), *final(self)),
            same_user2group(*old(self), *final(self)),
    {
        if !self.roles.contains_key(StoreKey { owner, id: role_id }) {
            return Err(EntityError::EntityDoesNotExist);
        }
        if !self.permissions.contains_key(StoreKey { owner, id: permission_id }) {
            return Err(EntityError::EntityDoesNotExist);
        }
        p2r_assign(&mut self.permission2role, owner, role_id, Permission2Role { permission: permission_id, role: role_id })
    }

    /// Removes a permission carried by a role: see [`relation_unassigned`].
    pub fn revoke_permission_to_role(&mut self, owner: OwnerId, permission_id: EntityId, role_id: EntityId) -> (r: Result<
        (),
        EntityError,
    >)
        requires
            old(self).wf(),
        ensures
            final(self).wf(),
            relation_unassigned(
                old(self).p2r_seq(),
                final(self).p2r_seq(),
                owner,
                role_id,
                (Permission2Role { permission: permission_id, role: role_id }),
                r,
            ),
            same_entities(*old(self), *final(self)),
            same_role2user(*old(self), *final(self)),
            same_role2group(*old(self), *final(self)),
            same_user2group(*old(self), *final(self)),
    {
        p2r_unassign(&mut self.permission2role, owner, role_id, Permission2Role { permission: permission_id, role: role_id })
    }
}

impl Rbac {
    /// The relation list stored for `(owner, user_id)`, if any.
    pub open spec fn get_user_groups_view(self, owner: OwnerId, user_id: EntityId) -> Option<
        Seq<User2Group>,
    > {
        rel_list_of(self.u2g_seq(), (StoreKey { owner, id: user_id }))
    }

    /// Fetches the user-to-group list anchored at `user_id`.
    pub fn get_user_groups(&self, owner: OwnerId, user_id: EntityId) -> (r: Option<Vec<User2Group>>)
        requires
            self.wf(),
        ensures
            match r {
                Some(v) => self.get_user_groups_view(owner, user_id) == Some(v@),
                None => self.get_user_groups_view(owner, user_id) is None,
            },
    {
        match self.user2group.get(StoreKey { owner, id: user_id }) {
            Some(v) => Some(copy_list(v)),
            None => None,
        }
    }

    /// Records a user's membership in a group: see [`relation_assigned`]; the referenced
    /// group must exist (enabled or not).
    pub fn create_user_to_group(&mut self, owner: OwnerId, user_id: EntityId, group_id: EntityId) -> (r: Result<
        (),
        EntityError,
    >)
        requires
            old(self).wf(),
        ensures
            final(self).wf(),
            relation_assigned(
                old(self).u2g_seq(),
                final(self).u2g_seq(),
                owner,
                user_id,
                (User2Group { user: user_id, group: group_id }),
                old(self).group_view(owner, group_id) is Some,
                r,
            ),
            same_entities(*old(self), *final(self)),
            same_role2user(*old(self), *final(self)),
            same_role2group(*old(self), *final(self)),
            same_permission2role(*old(self), *final(self)),
    {
        if !self.groups.contains_key(StoreKey { owner, id: group_id }) {
            return Err(EntityError::EntityDoesNotExist);
        }
        u2g_assign(&mut self.user2group, owner, user_id, User2Group { user: user_id, group: group_id })
    }

    /// Removes a user's membership in a group: see [`relation_unassigned`].
    pub fn revoke_user_to_group(&mut self, owner: OwnerId, user_id: EntityId, group_id: EntityId) -> (r: Result<
        (),
        EntityError,
    >)
        requires
            old(self).wf(),
        ensures
            final(self).wf(),
            relation_unassigned(
                old(self).u2g_seq(),
                final(self).u2g_seq(),
                owner,
                user_id,
                (User2Group { user: user_id, group: group_id }),
                r,
            ),
            same_entities(*old(self), *final(self)),
            same_role2user(*old(self), *final(self)),
            same_role2group(*old(self), *final(self)),
            same_permission2role(*old(self), *final(self)),
    {
        u2g_unassign(&mut self.user2group, owner, user_id, User2Group { user: user_id, group: group_id })
    }
}

} // verus!
