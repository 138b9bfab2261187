//! Laws of the service.
//!
//! Ownership isolation: every operation derives its keys from the caller's
//! own identity, so a mutation by one owner can touch only that owner's
//! rows ([`owner_frame`], established from each operation's contract), and
//! every lookup reads only the caller's rows — so nothing one owner does is
//! visible to another ([`lemma_owner_isolation`]).
//!
//! Resolution: a role already seen contributes nothing when reached again
//! ([`lemma_seen_roles_add_nothing`]), while two distinct roles granting
//! the same permission contribute it twice
//! ([`lemma_no_cross_role_dedup`]).

use vstd::prelude::*;

use crate::entity::{Entity, EntityError, EntityId, EntityView, OwnerId};
use crate::entity::{Permission2Role, Role2Group, Role2User, User2Group};
use crate::resolve::{seen_after_r2g, seen_after_r2u};
use crate::service::{
    enabled_of, entity_created, entity_disabled, entity_updated, rel_list_or_empty,
    relation_assigned, relation_unassigned, same_entities, same_groups, same_permission2role,
    same_permissions, same_relations, same_role2group, same_user2group, Rbac,
};
use crate::store::{kv_find, kv_owner_slice, StoreKey};

verus! {

/// Between the two states, no row of any owner but `actor` moved.
pub open spec fn store_frame<V>(
    pre: Seq<(StoreKey, V)>,
    post: Seq<(StoreKey, V)>,
    actor: OwnerId,
) -> bool {
    forall|k: StoreKey|
        #![trigger kv_find(post, k)]
        #![trigger kv_find(pre, k)]
        k.owner != actor ==> kv_find(post, k) == kv_find(pre, k)
}

/// [`store_frame`], and additionally every other owner's listing order is
/// untouched.
pub open spec fn entity_store_frame(
    pre: Seq<(StoreKey, Entity)>,
    post: Seq<(StoreKey, Entity)>,
    actor: OwnerId,
) -> bool {
    &&& store_frame(pre, post, actor)
    &&& forall|o: OwnerId|
        #![trigger kv_owner_slice(post, o)]
        #![trigger kv_owner_slice(pre, o)]
        o != actor ==> kv_owner_slice(post, o) == kv_owner_slice(pre, o)
}

/// Everything the step touched belongs to `actor`: all seven stores keep
/// every other owner's rows.
pub open spec fn owner_frame(pre: Rbac, post: Rbac, actor: OwnerId) -> bool {
    &&& entity_store_frame(pre.roles_seq(), post.roles_seq(), actor)
    &&& entity_store_frame(pre.permissions_seq(), post.permissions_seq(), actor)
    &&& entity_store_frame(pre.groups_seq(), post.groups_seq(), actor)
    &&& store_frame(pre.r2u_seq(), post.r2u_seq(), actor)
    &&& store_frame(pre.r2g_seq(), post.r2g_seq(), actor)
    &&& store_frame(pre.p2r_seq(), post.p2r_seq(), actor)
    &&& store_frame(pre.u2g_seq(), post.u2g_seq(), actor)
}

/// Every lookup the observer can perform answers alike in the two states:
/// point fetches, enabled listings, relation fetches, and both resolvers.
pub open spec fn observer_agrees(a: Rbac, b: Rbac, o: OwnerId) -> bool {
    &&& forall|id: EntityId| #![auto] a.role_view(o, id) == b.role_view(o, id)
    &&& forall|id: EntityId| #![auto] a.permission_view(o, id) == b.permission_view(o, id)
    &&& forall|id: EntityId| #![auto] a.group_view(o, id) == b.group_view(o, id)
    &&& enabled_of(kv_owner_slice(a.roles_seq(), o)) == enabled_of(kv_owner_slice(b.roles_seq(), o))
    &&& enabled_of(kv_owner_slice(a.permissions_seq(), o)) == enabled_of(
        kv_owner_slice(b.permissions_seq(), o),
    )
    &&& enabled_of(kv_owner_slice(a.groups_seq(), o)) == enabled_of(
        kv_owner_slice(b.groups_seq(), o),
    )
    &&& forall|id: EntityId| #![auto] a.get_user_roles_view(o, id) == b.get_user_roles_view(o, id)
    &&& forall|id: EntityId| #![auto] a.get_group_roles_view(o, id) == b.get_group_roles_view(o, id)
    &&& forall|id: EntityId| #![auto] a.get_role_permissions_view(o, id)
        == b.get_role_permissions_view(o, id)
    &&& forall|id: EntityId| #![auto] a.get_user_groups_view(o, id) == b.get_user_groups_view(o, id)
    &&& forall|u: EntityId| #![auto] a.user_permissions_spec(o, u) == b.user_permissions_spec(o, u)
    &&& forall|g: EntityId| #![auto] a.group_permissions_spec(o, g)
        == b.group_permissions_spec(o, g)
}

/// A creation step touches only the actor's rows.
pub proof fn lemma_entity_created_frame(
    pre: Seq<(StoreKey, Entity)>,
    post: Seq<(StoreKey, Entity)>,
    owner: OwnerId,
    id: EntityId,
    name: Seq<u8>,
    r: Result<(), EntityError>,
)
    requires
        entity_created(pre, post, owner, id, name, r),
    ensures
        entity_store_frame(pre, post, owner),
{
    if r is Ok {
        assert forall|k: StoreKey| k.owner != owner implies kv_find(post, k) == kv_find(pre, k) by {
            assert(k != (StoreKey { owner, id }));
        }
    }
}

/// An update step touches only the actor's rows.
pub proof fn lemma_entity_updated_frame(
    pre: Seq<(StoreKey, Entity)>,
    post: Seq<(StoreKey, Entity)>,
    owner: OwnerId,
    id: EntityId,
    name: Seq<u8>,
    r: Result<(), EntityError>,
)
    requires
        entity_updated(pre, post, owner, id, name, r),
    ensures
        entity_store_frame(pre, post, owner),
{
    if r is Ok {
        assert forall|k: StoreKey| k.owner != owner implies kv_find(post, k) == kv_find(pre, k) by {
            assert(k != (StoreKey { owner, id }));
        }
    }
}

/// A disable step touches only the actor's rows.
pub proof fn lemma_entity_disabled_frame(
    pre: Seq<(StoreKey, Entity)>,
    post: Seq<(StoreKey, Entity)>,
    owner: OwnerId,
    id: EntityId,
    r: Result<(), EntityError>,
)
    requires
        entity_disabled(pre, post, owner, id, r),
    ensures
        entity_store_frame(pre, post, owner),
{
    if r is Ok {
        assert forall|k: StoreKey| k.owner != owner implies kv_find(post, k) == kv_find(pre, k) by {
            assert(k != (StoreKey { owner, id }));
        }
    }
}

/// An assignment step touches only the actor's rows.
pub proof fn lemma_relation_assigned_frame<P>(
    pre: Seq<(StoreKey, Vec<P>)>,
    post: Seq<(StoreKey, Vec<P>)>,
    owner: OwnerId,
    anchor_id: EntityId,
    pair: P,
    prereq_ok: bool,
    r: Result<(), EntityError>,
)
    requires
        relation_assigned(pre, post, owner, anchor_id, pair, prereq_ok, r),
    ensures
        store_frame(pre, post, owner),
{
    if r is Ok {
        assert forall|k: StoreKey| k.owner != owner implies kv_find(post, k) == kv_find(pre, k) by {
            assert(k != (StoreKey { owner, id: anchor_id }));
        }
    }
}

/// An unassignment step touches only the actor's rows.
pub proof fn lemma_relation_unassigned_frame<P>(
    pre: Seq<(StoreKey, Vec<P>)>,
    post: Seq<(StoreKey, Vec<P>)>,
    owner: OwnerId,
    anchor_id: EntityId,
    pair: P,
    r: Result<(), EntityError>,
)
    requires
        relation_unassigned(pre, post, owner, anchor_id, pair, r),
    ensures
        store_frame(pre, post, owner),
{
    if r is Ok {
        assert forall|k: StoreKey| k.owner != owner implies kv_find(post, k) == kv_find(pre, k) by {
            assert(k != (StoreKey { owner, id: anchor_id }));
        }
    }
}

/// When the permission rows the observer owns agree, the permissions a
/// pair list grants agree.
proof fn lemma_perms_of_pairs_agree(a: Rbac, b: Rbac, o: OwnerId, l: Seq<Permission2Role>)
    requires
        forall|k: StoreKey|
            #![trigger kv_find(a.permissions_seq(), k)]
            k.owner == o ==> kv_find(a.permissions_seq(), k) == kv_find(b.permissions_seq(), k),
    ensures
        a.perms_of_pairs(o, l) == b.perms_of_pairs(o, l),
    decreases l.len(),
{
    if l.len() > 0 {
        lemma_perms_of_pairs_agree(a, b, o, l.drop_last());
        assert(kv_find(a.permissions_seq(), (StoreKey { owner: o, id: l.last().permission }))
            == kv_find(b.permissions_seq(), (StoreKey { owner: o, id: l.last().permission })));
    }
}

/// When the observer's permission and permission-to-role rows agree, every
/// role grants the same permissions in the two states.
proof fn lemma_role_perms_agree(a: Rbac, b: Rbac, o: OwnerId, role: EntityId)
    requires
        forall|k: StoreKey|
            #![trigger kv_find(a.permissions_seq(), k)]
            k.owner == o ==> kv_find(a.permissions_seq(), k) == kv_find(b.permissions_seq(), k),
        forall|k: StoreKey|
            #![trigger kv_find(a.p2r_seq(), k)]
            k.owner == o ==> kv_find(a.p2r_seq(), k) == kv_find(b.p2r_seq(), k),
    ensures
        a.role_perms(o, role) == b.role_perms(o, role),
{
    assert(kv_find(a.p2r_seq(), (StoreKey { owner: o, id: role })) == kv_find(
        b.p2r_seq(),
        (StoreKey { owner: o, id: role }),
    ));
    lemma_perms_of_pairs_agree(
        a,
        b,
        o,
        rel_list_or_empty(a.p2r_seq(), (StoreKey { owner: o, id: role })),
    );
}

proof fn lemma_direct_perms_agree(a: Rbac, b: Rbac, o: OwnerId, l: Seq<Role2User>)
    requires
        forall|k: StoreKey|
            #![trigger kv_find(a.permissions_seq(), k)]
            k.owner == o ==> kv_find(a.permissions_seq(), k) == kv_find(b.permissions_seq(), k),
        forall|k: StoreKey|
            #![trigger kv_find(a.p2r_seq(), k)]
            k.owner == o ==> kv_find(a.p2r_seq(), k) == kv_find(b.p2r_seq(), k),
    ensures
        a.direct_perms(o, l) == b.direct_perms(o, l),
    decreases l.len(),
{
    if l.len() > 0 {
        lemma_direct_perms_agree(a, b, o, l.drop_last());
        lemma_role_perms_agree(a, b, o, l.last().role);
    }
}

proof fn lemma_group_role_perms_agree(
    a: Rbac,
    b: Rbac,
    o: OwnerId,
    l: Seq<Role2Group>,
    seen: Set<EntityId>,
)
    requires
        forall|k: StoreKey|
            #![trigger kv_find(a.permissions_seq(), k)]
            k.owner == o ==> kv_find(a.permissions_seq(), k) == kv_find(b.permissions_seq(), k),
        forall|k: StoreKey|
            #![trigger kv_find(a.p2r_seq(), k)]
            k.owner == o ==> kv_find(a.p2r_seq(), k) == kv_find(b.p2r_seq(), k),
    ensures
        a.group_role_perms(o, l, seen) == b.group_role_perms(o, l, seen),
    decreases l.len(),
{
    if l.len() > 0 {
        if seen.contains(l.first().role) {
            lemma_group_role_perms_agree(a, b, o, l.drop_first(), seen);
        } else {
            lemma_role_perms_agree(a, b, o, l.first().role);
            lemma_group_role_perms_agree(a, b, o, l.drop_first(), seen.insert(l.first().role));
        }
    }
}

proof fn lemma_group_part_agree(
    a: Rbac,
    b: Rbac,
    o: OwnerId,
    l: Seq<User2Group>,
    seen: Set<EntityId>,
)
    requires
        forall|k: StoreKey|
            #![trigger kv_find(a.permissions_seq(), k)]
            k.owner == o ==> kv_find(a.permissions_seq(), k) == kv_find(b.permissions_seq(), k),
        forall|k: StoreKey|
            #![trigger kv_find(a.p2r_seq(), k)]
            k.owner == o ==> kv_find(a.p2r_seq(), k) == kv_find(b.p2r_seq(), k),
        forall|k: StoreKey|
            #![trigger kv_find(a.r2g_seq(), k)]
            k.owner == o ==> kv_find(a.r2g_seq(), k) == kv_find(b.r2g_seq(), k),
    ensures
        a.group_part(o, l, seen) == b.group_part(o, l, seen),
    decreases l.len(),
{
    if l.len() > 0 {
        let gk = StoreKey { owner: o, id: l.first().group };
        assert(kv_find(a.r2g_seq(), gk) == kv_find(b.r2g_seq(), gk));
        let gl = rel_list_or_empty(a.r2g_seq(), gk);
        lemma_group_role_perms_agree(a, b, o, gl, seen);
        lemma_group_part_agree(a, b, o, l.drop_first(), seen_after_r2g(gl, seen));
    }
}

/// Ownership isolation: after a step in which only `actor`'s rows moved,
/// every lookup any other owner can perform — point fetches, enabled
/// listings, relation fetches, and both resolvers — answers exactly as
/// before the step.
pub proof fn lemma_owner_isolation(pre: Rbac, post: Rbac, actor: OwnerId, observer: OwnerId)
    requires
        owner_frame(pre, post, actor),
        observer != actor,
    ensures
        observer_agrees(pre, post, observer),
{
    assert forall|k: StoreKey| #![trigger kv_find(pre.permissions_seq(), k)]
        k.owner == observer implies kv_find(pre.permissions_seq(), k) == kv_find(
        post.permissions_seq(),
        k,
    ) by {}
    assert forall|k: StoreKey| #![trigger kv_find(pre.p2r_seq(), k)]
        k.owner == observer implies kv_find(pre.p2r_seq(), k) == kv_find(post.p2r_seq(), k) by {}
    assert forall|k: StoreKey| #![trigger kv_find(pre.r2g_seq(), k)]
        k.owner == observer implies kv_find(pre.r2g_seq(), k) == kv_find(post.r2g_seq(), k) by {}
    assert forall|id: EntityId| #![auto] pre.role_view(observer, id) == post.role_view(
        observer,
        id,
    ) by {
        assert(kv_find(pre.roles_seq(), (StoreKey { owner: observer, id })) == kv_find(
            post.roles_seq(),
            (StoreKey { owner: observer, id }),
        ));
    }
    assert forall|id: EntityId| #![auto] pre.permission_view(observer, id) == post.permission_view(
        observer,
        id,
    ) by {
        assert(kv_find(pre.permissions_seq(), (StoreKey { owner: observer, id })) == kv_find(
            post.permissions_seq(),
            (StoreKey { owner: observer, id }),
        ));
    }
    assert forall|id: EntityId| #![auto] pre.group_view(observer, id) == post.group_view(
        observer,
        id,
    ) by {
        assert(kv_find(pre.groups_seq(), (StoreKey { owner: observer, id })) == kv_find(
            post.groups_seq(),
            (StoreKey { owner: observer, id }),
        ));
    }
    assert forall|id: EntityId| #![auto] pre.get_user_roles_view(observer, id)
        == post.get_user_roles_view(observer, id) by {
        assert(kv_find(pre.r2u_seq(), (StoreKey { owner: observer, id })) == kv_find(
            post.r2u_seq(),
            (StoreKey { owner: observer, id }),
        ));
    }
    assert forall|id: EntityId| #![auto] pre.get_group_roles_view(observer, id)
        == post.get_group_roles_view(observer, id) by {
        assert(kv_find(pre.r2g_seq(), (StoreKey { owner: observer, id })) == kv_find(
            post.r2g_seq(),
            (StoreKey { owner: observer, id }),
        ));
    }
    assert forall|id: EntityId| #![auto] pre.get_role_permissions_view(observer, id)
        == post.get_role_permissions_view(observer, id) by {
        assert(kv_find(pre.p2r_seq(), (StoreKey { owner: observer, id })) == kv_find(
            post.p2r_seq(),
            (StoreKey { owner: observer, id }),
        ));
    }
    assert forall|id: EntityId| #![auto] pre.get_user_groups_view(observer, id)
        == post.get_user_groups_view(observer, id) by {
        assert(kv_find(pre.u2g_seq(), (StoreKey { owner: observer, id })) == kv_find(
            post.u2g_seq(),
            (StoreKey { owner: observer, id }),
        ));
    }
    assert forall|u: EntityId| #![auto] pre.user_permissions_spec(observer, u)
        == post.user_permissions_spec(observer, u) by {
        let uk = StoreKey { owner: observer, id: u };
        assert(kv_find(pre.r2u_seq(), uk) == kv_find(post.r2u_seq(), uk));
        assert(kv_find(pre.u2g_seq(), uk) == kv_find(post.u2g_seq(), uk));
        let r2u = rel_list_or_empty(pre.r2u_seq(), uk);
        let u2g = rel_list_or_empty(pre.u2g_seq(), uk);
        lemma_direct_perms_agree(pre, post, observer, r2u);
        lemma_group_part_agree(pre, post, observer, u2g, seen_after_r2u(r2u, Set::empty()));
    }
    assert forall|g: EntityId| #![auto] pre.group_permissions_spec(observer, g)
        == post.group_permissions_spec(observer, g) by {
        let gk = StoreKey { owner: observer, id: g };
        assert(kv_find(pre.r2g_seq(), gk) == kv_find(post.r2g_seq(), gk));
        lemma_plain_group_perms_agree(pre, post, observer, rel_list_or_empty(pre.r2g_seq(), gk));
    }
}

proof fn lemma_plain_group_perms_agree(a: Rbac, b: Rbac, o: OwnerId, l: Seq<Role2Group>)
    requires
        forall|k: StoreKey|
            #![trigger kv_find(a.permissions_seq(), k)]
            k.owner == o ==> kv_find(a.permissions_seq(), k) == kv_find(b.permissions_seq(), k),
        forall|k: StoreKey|
            #![trigger kv_find(a.p2r_seq(), k)]
            k.owner == o ==> kv_find(a.p2r_seq(), k) == kv_find(b.p2r_seq(), k),
    ensures
        a.plain_group_perms(o, l) == b.plain_group_perms(o, l),
    decreases l.len(),
{
    if l.len() > 0 {
        lemma_plain_group_perms_agree(a, b, o, l.drop_last());
        lemma_role_perms_agree(a, b, o, l.last().role);
    }
}

/// Creating a role under one owner changes no answer another owner can
/// observe. The same composition holds for every other operation, through
/// its frame lemma.
pub proof fn lemma_create_role_isolated(
    pre: Rbac,
    post: Rbac,
    actor: OwnerId,
    observer: OwnerId,
    id: EntityId,
    name: Seq<u8>,
    r: Result<(), EntityError>,
)
    requires
        observer != actor,
        entity_created(pre.roles_seq(), post.roles_seq(), actor, id, name, r),
        same_permissions(pre, post),
        same_groups(pre, post),
        same_relations(pre, post),
    ensures
        observer_agrees(pre, post, observer),
{
    lemma_entity_created_frame(pre.roles_seq(), post.roles_seq(), actor, id, name, r);
    lemma_owner_isolation(pre, post, actor, observer);
}

/// Assigning a role to a user under one owner changes no answer another
/// owner can observe.
pub proof fn lemma_assign_role_to_user_isolated(
    pre: Rbac,
    post: Rbac,
    actor: OwnerId,
    observer: OwnerId,
    role_id: EntityId,
    user_id: EntityId,
    prereq_ok: bool,
    r: Result<(), EntityError>,
)
    requires
        observer != actor,
        relation_assigned(
            pre.r2u_seq(),
            post.r2u_seq(),
            actor,
            user_id,
            (Role2User { role: role_id, user: user_id }),
            prereq_ok,
            r,
        ),
        same_entities(pre, post),
        same_role2group(pre, post),
        same_permission2role(pre, post),
        same_user2group(pre, post),
    ensures
        observer_agrees(pre, post, observer),
{
    lemma_relation_assigned_frame(
        pre.r2u_seq(),
        post.r2u_seq(),
        actor,
        user_id,
        Role2User { role: role_id, user: user_id },
        prereq_ok,
        r,
    );
    lemma_owner_isolation(pre, post, actor, observer);
}

/// A role already seen contributes nothing: when every role a group grants
/// is in the seen set, walking the group's list emits no permission.
pub proof fn lemma_seen_roles_add_nothing(
    s: Rbac,
    owner: OwnerId,
    l: Seq<Role2Group>,
    seen: Set<EntityId>,
)
    requires
        forall|i: int| 0 <= i < l.len() ==> seen.contains((#[trigger] l[i]).role),
    ensures
        s.group_role_perms(owner, l, seen) == Seq::<EntityView>::empty(),
    decreases l.len(),
{
    if l.len() > 0 {
        assert(seen.contains(l[0].role));
        assert forall|i: int| 0 <= i < l.drop_first().len() implies seen.contains(
            (#[trigger] l.drop_first()[i]).role,
        ) by {
            assert(l.drop_first()[i] == l[i + 1]);
        }
        lemma_seen_roles_add_nothing(s, owner, l.drop_first(), seen);
    }
}

/// Every directly assigned role ends up in the seen set the direct walk
/// leaves behind.
pub proof fn lemma_seen_after_r2u_contains(l: Seq<Role2User>, seen: Set<EntityId>)
    ensures
        forall|i: int| 0 <= i < l.len() ==> seen_after_r2u(l, seen).contains(
            (#[trigger] l[i]).role,
        ),
        forall|x: EntityId| seen.contains(x) ==> #[trigger] seen_after_r2u(l, seen).contains(x),
    decreases l.len(),
{
    if l.len() > 0 {
        lemma_seen_after_r2u_contains(l.drop_last(), seen);
        assert forall|i: int| 0 <= i < l.len() implies seen_after_r2u(l, seen).contains(
            (#[trigger] l[i]).role,
        ) by {
            if i < l.len() - 1 {
                assert(l.drop_last()[i] == l[i]);
            }
        }
        assert forall|x: EntityId| seen.contains(x) implies #[trigger] seen_after_r2u(
            l,
            seen,
        ).contains(x) by {
            assert(seen_after_r2u(l, seen) == seen_after_r2u(l.drop_last(), seen).insert(
                l.last().role,
            ));
        }
    }
}

/// Permissions are not deduplicated across roles: a user directly holding
/// two distinct roles that each grant the one permission `p` receives that
/// permission's entity twice.
pub proof fn lemma_no_cross_role_dedup(
    s: Rbac,
    owner: OwnerId,
    user: EntityId,
    r1: EntityId,
    r2: EntityId,
    p: EntityId,
    e: EntityView,
)
    requires
        r1 != r2,
        rel_list_or_empty(s.r2u_seq(), (StoreKey { owner, id: user })) == seq![
            Role2User { role: r1, user },
            Role2User { role: r2, user },
        ],
        rel_list_or_empty(s.p2r_seq(), (StoreKey { owner, id: r1 })) == seq![
            Permission2Role { permission: p, role: r1 },
        ],
        rel_list_or_empty(s.p2r_seq(), (StoreKey { owner, id: r2 })) == seq![
            Permission2Role { permission: p, role: r2 },
        ],
        s.permission_view(owner, p) == Some(e),
        kv_find(s.u2g_seq(), (StoreKey { owner, id: user })) is None,
    ensures
        s.user_permissions_spec(owner, user) == seq![e, e],
{
    let l = rel_list_or_empty(s.r2u_seq(), (StoreKey { owner, id: user }));
    let l1 = seq![Permission2Role { permission: p, role: r1 }];
    let l2 = seq![Permission2Role { permission: p, role: r2 }];
    assert(l1.drop_last() =~= Seq::<Permission2Role>::empty());
    assert(l2.drop_last() =~= Seq::<Permission2Role>::empty());
    assert(s.perms_of_pairs(owner, Seq::<Permission2Role>::empty()) == Seq::<EntityView>::empty());
    assert(s.direct_perms(owner, Seq::<Role2User>::empty()) == Seq::<EntityView>::empty());
    assert(s.group_part(
        owner,
        Seq::<User2Group>::empty(),
        seen_after_r2u(l, Set::empty()),
    ) == Seq::<EntityView>::empty());
    assert(s.role_perms(owner, r1) =~= seq![e]);
    assert(s.role_perms(owner, r2) =~= seq![e]);
    assert(l.drop_last() =~= seq![Role2User { role: r1, user }]);
    assert(l.drop_last().drop_last() =~= Seq::<Role2User>::empty());
    assert(s.direct_perms(owner, l.drop_last()) =~= seq![e]);
    assert(s.direct_perms(owner, l) =~= seq![e, e]);
    assert(rel_list_or_empty(s.u2g_seq(), (StoreKey { owner, id: user }))
        =~= Seq::<User2Group>::empty());
    assert(s.user_permissions_spec(owner, user) =~= seq![e, e]);
}

} // verus!
