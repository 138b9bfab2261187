//! Resolution of effective permissions.
//!
//! A user's permissions are gathered in two fixed hops: the roles assigned
//! directly to the user, then the roles granted to each group the user
//! belongs to. Each role contributes the permission entities its
//! permission-to-role list names, in list order, skipping ids whose
//! permission record is gone. A role reached twice — directly and through
//! a group, or through two groups — is traversed only once; two distinct
//! roles that grant the same permission contribute it twice.

use vstd::prelude::*;

use crate::entity::{Entity, EntityId, EntityView, OwnerId};
use crate::entity::{Permission2Role, Role2Group, Role2User, User2Group};
use crate::service::{copy_list, rel_list_of, rel_list_or_empty, Rbac};
use crate::store::StoreKey;

verus! {

/// The views of a list of entities, in order.
pub open spec fn views_of(v: Seq<Entity>) -> Seq<EntityView> {
    v.map_values(|e: Entity| e@)
}

/// The view of one permission as a one-element sequence, or empty when the
/// permission record does not exist.
pub open spec fn perm_opt(p: Option<EntityView>) -> Seq<EntityView> {
    match p {
        Some(v) => seq![v],
        None => Seq::empty(),
    }
}

impl Rbac {
    /// The permissions granted by the pairs `l`, in list order.
    pub open spec fn perms_of_pairs(self, owner: OwnerId, l: Seq<Permission2Role>) -> Seq<
        EntityView,
    >
        decreases l.len(),
    {
        if l.len() == 0 {
            Seq::empty()
        } else {
            self.perms_of_pairs(owner, l.drop_last()) + perm_opt(
                self.permission_view(owner, l.last().permission),
            )
        }
    }

    /// The permissions one role grants: those its permission-to-role list
    /// names, in list order.
    pub open spec fn role_perms(self, owner: OwnerId, role: EntityId) -> Seq<EntityView> {
        self.perms_of_pairs(owner, rel_list_or_empty(self.p2r_seq(), (StoreKey { owner, id: role })))
    }

    /// The permissions of the roles assigned directly, in assignment order.
    pub open spec fn direct_perms(self, owner: OwnerId, l: Seq<Role2User>) -> Seq<EntityView>
        decreases l.len(),
    {
        if l.len() == 0 {
            Seq::empty()
        } else {
            self.direct_perms(owner, l.drop_last()) + self.role_perms(owner, l.last().role)
        }
    }

    /// The permissions of the roles granted to one group, in list order,
    /// skipping roles already seen.
    pub open spec fn group_role_perms(
        self,
        owner: OwnerId,
        l: Seq<Role2Group>,
        seen: Set<EntityId>,
    ) -> Seq<EntityView>
        decreases l.len(),
    {
        if l.len() == 0 {
            Seq::empty()
        } else if seen.contains(l.first().role) {
            self.group_role_perms(owner, l.drop_first(), seen)
        } else {
            self.role_perms(owner, l.first().role) + self.group_role_perms(
                owner,
                l.drop_first(),
                seen.insert(l.first().role),
            )
        }
    }

    /// The group-derived permissions: for each membership in order, the
    /// group's not-yet-seen roles contribute their permissions, and its
    /// roles join the seen set.
    pub open spec fn group_part(self, owner: OwnerId, l: Seq<User2Group>, seen: Set<EntityId>) -> Seq<
        EntityView,
    >
        decreases l.len(),
    {
        if l.len() == 0 {
            Seq::empty()
        } else {
            let gl = rel_list_or_empty(
                self.r2g_seq(),
                (StoreKey { owner, id: l.first().group }),
            );
            self.group_role_perms(owner, gl, seen) + self.group_part(
                owner,
                l.drop_first(),
                seen_after_r2g(gl, seen),
            )
        }
    }

    /// Every permission the user effectively holds: direct-role
    /// permissions first, then group-derived ones.
    pub open spec fn user_permissions_spec(self, owner: OwnerId, user: EntityId) -> Seq<
        EntityView,
    > {
        let r2u = rel_list_or_empty(self.r2u_seq(), (StoreKey { owner, id: user }));
        let u2g = rel_list_or_empty(self.u2g_seq(), (StoreKey { owner, id: user }));
        self.direct_perms(owner, r2u) + self.group_part(
            owner,
            u2g,
            seen_after_r2u(r2u, Set::empty()),
        )
    }

    /// The permissions of every role granted to the group, in list order,
    /// with no skipping: one group's roles are pairwise distinct.
    pub open spec fn plain_group_perms(self, owner: OwnerId, l: Seq<Role2Group>) -> Seq<EntityView>
        decreases l.len(),
    {
        if l.len() == 0 {
            Seq::empty()
        } else {
            self.plain_group_perms(owner, l.drop_last()) + self.role_perms(owner, l.last().role)
        }
    }

    /// Every permission the group grants its members.
    pub open spec fn group_permissions_spec(self, owner: OwnerId, group: EntityId) -> Seq<
        EntityView,
    > {
        self.plain_group_perms(
            owner,
            rel_list_or_empty(self.r2g_seq(), (StoreKey { owner, id: group })),
        )
    }
}

/// The seen set after walking a role-to-user list: every listed role joins.
pub open spec fn seen_after_r2u(l: Seq<Role2User>, seen: Set<EntityId>) -> Set<EntityId>
    decreases l.len(),
{
    if l.len() == 0 {
        seen
    } else {
        seen_after_r2u(l.drop_last(), seen).insert(l.last().role)
    }
}

/// The seen set after walking a role-to-group list: roles not seen before
/// join, exactly as the walk inserts them.
pub open spec fn seen_after_r2g(l: Seq<Role2Group>, seen: Set<EntityId>) -> Set<EntityId>
    decreases l.len(),
{
    if l.len() == 0 {
        seen
    } else if seen.contains(l.first().role) {
        seen_after_r2g(l.drop_first(), seen)
    } else {
        seen_after_r2g(l.drop_first(), seen.insert(l.first().role))
    }
}

fn contains_id(v: &Vec<EntityId>, x: EntityId) -> (b: bool)
    ensures
        b == v@.contains(x),
{
    let mut i: usize = 0;
    while i < v.len()
        invariant
            i <= v.len(),
            forall|j: int| 0 <= j < i ==> v@[j] != x,
        decreases v.len() - i,
    {
        if v[i] == x {
            return true;
        }
        i = i + 1;
    }
    false
}

/// Appending an id to the list and inserting it into the set keep the two
/// in step: the list holds an id exactly when the set does.
proof fn lemma_push_insert_iff(p0: Seq<EntityId>, s0: Set<EntityId>, x: EntityId)
    requires
        forall|y: EntityId| p0.contains(y) <==> s0.contains(y),
    ensures
        forall|y: EntityId| p0.push(x).contains(y) <==> s0.insert(x).contains(y),
{
    assert forall|y: EntityId| p0.push(x).contains(y) <==> s0.insert(x).contains(y) by {
        if p0.push(x).contains(y) {
            let j = choose|j: int| 0 <= j < p0.push(x).len() && p0.push(x)[j] == y;
            if j < p0.len() {
                assert(p0[j] == y);
                assert(p0.contains(y));
            }
        }
        if s0.insert(x).contains(y) {
            if y == x {
                assert(p0.push(x)[p0.len() as int] == y);
            } else {
                assert(s0.contains(y));
                let j = choose|j: int| 0 <= j < p0.len() && p0[j] == y;
                assert(p0.push(x)[j] == y);
            }
        }
    }
}

impl Rbac {
    /// Appends to `out` the permissions granted by `role`.
    fn push_role_perms(&self, owner: OwnerId, role: EntityId, out: &mut Vec<Entity>)
        requires
            self.wf(),
        ensures
            views_of(final(out)@) == views_of(old(out)@) + self.role_perms(owner, role),
    {
        let ghost base = views_of(old(out)@);
        match self.permission2role.get(StoreKey { owner, id: role }) {
            Some(pl) => {
                let n = pl.len();
                let mut i: usize = 0;
                while i < n
                    invariant
                        i <= n,
                        self.wf(),
                        n == pl@.len(),
                        rel_list_of(self.p2r_seq(), (StoreKey { owner, id: role })) == Some(pl@),
                        views_of(out@) == base + self.perms_of_pairs(
                            owner,
                            pl@.subrange(0, i as int),
                        ),
                    decreases n - i,
                {
                    let ghost prefix = pl@.subrange(0, i as int);
                    let ghost next = pl@.subrange(0, i + 1int);
                    proof {
                        assert(next.drop_last() =~= prefix);
                        assert(next.last() == pl@[i as int]);
                        assert(self.perms_of_pairs(owner, next) == self.perms_of_pairs(
                            owner,
                            prefix,
                        ) + perm_opt(self.permission_view(owner, pl@[i as int].permission)));
                    }
                    let pair = pl[i];
                    let ghost out0 = out@;
                    match self.get_permission(owner, pair.permission) {
                        Some(e) => {
                            let ghost ev = e@;
                            out.push(e);
                            proof {
                                assert(out@ == out0.push(out@.last()));
                                assert(views_of(out@) =~= views_of(out0).push(ev));
                                assert(perm_opt(self.permission_view(owner, pair.permission))
                                    == seq![ev]);
                                assert(views_of(out@) =~= base + self.perms_of_pairs(owner, next));
                            }
                        }
                        None => {
                            proof {
                                assert(views_of(out@) =~= base + self.perms_of_pairs(owner, next));
                            }
                        }
                    }
                    i = i + 1;
                }
                proof {
                    assert(pl@.subrange(0, n as int) =~= pl@);
                }
            }
            None => {
                proof {
                    assert(rel_list_or_empty(self.p2r_seq(), (StoreKey { owner, id: role }))
                        =~= Seq::<Permission2Role>::empty());
                    assert(views_of(out@) =~= base + self.role_perms(owner, role));
                }
            }
        }
    }

    /// Resolves every permission the user effectively holds, by direct
    /// role assignment and by group membership. Always succeeds; a user
    /// with no roles and no groups yields an empty list.
    pub fn get_user_permissions(&self, owner: OwnerId, user_id: EntityId) -> (r: Option<
        Vec<Entity>,
    >)
        requires
            self.wf(),
        ensures
            match r {
                Some(v) => views_of(v@) == self.user_permissions_spec(owner, user_id),
                None => false,
            },
    {
        let user_key = StoreKey { owner, id: user_id };
        let mut out: Vec<Entity> = Vec::new();
        let mut processed: Vec<EntityId> = Vec::new();
        let ghost mut seen = Set::<EntityId>::empty();
        let ghost r2u_list = rel_list_or_empty(self.r2u_seq(), user_key);

        match self.role2user.get(user_key) {
            Some(rl_ref) => {
                let rl = copy_list(rl_ref);
                let n = rl.len();
                let mut i: usize = 0;
                while i < n
                    invariant
                        i <= n,
                        self.wf(),
                        n == rl@.len(),
                        rl@ == r2u_list,
                        views_of(out@) == self.direct_perms(owner, rl@.subrange(0, i as int)),
                        seen == seen_after_r2u(rl@.subrange(0, i as int), Set::<EntityId>::empty()),
                        forall|x: EntityId| processed@.contains(x) <==> seen.contains(x),
                    decreases n - i,
                {
                    let ghost prefix = rl@.subrange(0, i as int);
                    let ghost next = rl@.subrange(0, i + 1int);
                    proof {
                        assert(next.drop_last() =~= prefix);
                        assert(next.last() == rl@[i as int]);
                    }
                    let role = rl[i].role;
                    proof {
                        lemma_push_insert_iff(processed@, seen, role);
                        seen = seen.insert(role);
                    }
                    processed.push(role);
                    self.push_role_perms(owner, role, &mut out);
                    i = i + 1;
                }
                proof {
                    assert(rl@.subrange(0, n as int) =~= rl@);
                }
            }
            None => {
                proof {
                    assert(r2u_list =~= Seq::<Role2User>::empty());
                }
            }
        }

        let ghost direct = self.direct_perms(owner, r2u_list);
        let ghost seen0 = seen_after_r2u(r2u_list, Set::<EntityId>::empty());
        let ghost u2g_list = rel_list_or_empty(self.u2g_seq(), user_key);
        let ghost total = self.user_permissions_spec(owner, user_id);
        proof {
            assert(views_of(out@) == direct);
            assert(seen == seen0);
        }

        match self.user2group.get(user_key) {
            Some(ul_ref) => {
                let ul = copy_list(ul_ref);
                let n = ul.len();
                let mut gi: usize = 0;
                proof {
                    assert(ul@.subrange(0, n as int) =~= ul@);
                }
                while gi < n
                    invariant
                        gi <= n,
                        self.wf(),
                        n == ul@.len(),
                        ul@ == u2g_list,
                        total == self.user_permissions_spec(owner, user_id),
                        views_of(out@) + self.group_part(
                            owner,
                            ul@.subrange(gi as int, n as int),
                            seen,
                        ) == total,
                        forall|x: EntityId| processed@.contains(x) <==> seen.contains(x),
                    decreases n - gi,
                {
                    let ghost rest = ul@.subrange(gi as int, n as int);
                    let ghost rest_next = ul@.subrange(gi + 1int, n as int);
                    proof {
                        assert(rest.first() == ul@[gi as int]);
                        assert(rest.drop_first() =~= rest_next);
                    }
                    let group = ul[gi].group;
                    let group_key = StoreKey { owner, id: group };
                    let ghost gl_spec = rel_list_or_empty(self.r2g_seq(), group_key);
                    let ghost seen_g0 = seen;
                    let ghost gend = seen_after_r2g(gl_spec, seen_g0);
                    proof {
                        assert(self.group_part(owner, rest, seen) == self.group_role_perms(
                            owner,
                            gl_spec,
                            seen,
                        ) + self.group_part(owner, rest_next, gend));
                    }
                    match self.role2group.get(group_key) {
                        Some(gl_ref) => {
                            let gl = copy_list(gl_ref);
                            let m = gl.len();
                            let mut ai: usize = 0;
                            proof {
                                assert(gl@.subrange(0, m as int) =~= gl@);
                            }
                            while ai < m
                                invariant
                                    ai <= m,
                                    self.wf(),
                                    m == gl@.len(),
                                    gl@ == gl_spec,
                                    gend == seen_after_r2g(gl_spec, seen_g0),
                                    views_of(out@) + self.group_role_perms(
                                        owner,
                                        gl@.subrange(ai as int, m as int),
                                        seen,
                                    ) + self.group_part(owner, rest_next, gend) == total,
                                    seen_after_r2g(gl@.subrange(ai as int, m as int), seen)
                                        == gend,
                                    forall|x: EntityId| processed@.contains(x) <==> seen.contains(
                                        x,
                                    ),
                                decreases m - ai,
                            {
                                let ghost grest = gl@.subrange(ai as int, m as int);
                                proof {
                                    assert(grest.first() == gl@[ai as int]);
                                    assert(grest.drop_first() =~= gl@.subrange(ai + 1int, m as int));
                                }
                                let role = gl[ai].role;
                                if !contains_id(&processed, role) {
                                    proof {
                                        assert(!seen.contains(role));
                                        lemma_push_insert_iff(processed@, seen, role);
                                        seen = seen.insert(role);
                                    }
                                    processed.push(role);
                                    self.push_role_perms(owner, role, &mut out);
                                } else {
                                    proof {
                                        assert(seen.contains(role));
                                    }
                                }
                                ai = ai + 1;
                            }
                            proof {
                                assert(gl@.subrange(m as int, m as int)
                                    =~= Seq::<Role2Group>::empty());
                                assert(seen == gend);
                                assert(views_of(out@) + Seq::<EntityView>::empty()
                                    + self.group_part(owner, rest_next, gend) == total);
                                assert(views_of(out@) + Seq::<EntityView>::empty()
                                    =~= views_of(out@));
                            }
                        }
                        None => {
                            proof {
                                assert(gl_spec =~= Seq::<Role2Group>::empty());
                                assert(self.group_role_perms(owner, gl_spec, seen)
                                    == Seq::<EntityView>::empty());
                                assert(seen == gend);
                                assert(views_of(out@) + Seq::<EntityView>::empty()
                                    + self.group_part(owner, rest_next, gend) == total);
                                assert(views_of(out@) + Seq::<EntityView>::empty()
                                    =~= views_of(out@));
                            }
                        }
                    }
                    gi = gi + 1;
                }
                proof {
                    assert(ul@.subrange(n as int, n as int) =~= Seq::<User2Group>::empty());
                    assert(views_of(out@) + Seq::<EntityView>::empty() =~= views_of(out@));
                }
            }
            None => {
                proof {
                    assert(u2g_list =~= Seq::<User2Group>::empty());
                    assert(self.group_part(owner, u2g_list, seen0)
                        == Seq::<EntityView>::empty());
                    assert(views_of(out@) + Seq::<EntityView>::empty() =~= views_of(out@));
                }
            }
        }
        Some(out)
    }

    /// Resolves every permission the group grants, by its granted roles.
    /// Always succeeds; a group with no roles yields an empty list.
    pub fn get_group_permissions(&self, owner: OwnerId, group_id: EntityId) -> (r: Option<
        Vec<Entity>,
    >)
        requires
            self.wf(),
        ensures
            match r {
                Some(v) => views_of(v@) == self.group_permissions_spec(owner, group_id),
                None => false,
            },
    {
        let group_key = StoreKey { owner, id: group_id };
        let mut out: Vec<Entity> = Vec::new();
        match self.role2group.get(group_key) {
            Some(gl_ref) => {
                let gl = copy_list(gl_ref);
                let n = gl.len();
                let mut i: usize = 0;
                while i < n
                    invariant
                        i <= n,
                        self.wf(),
                        n == gl@.len(),
                        rel_list_of(self.r2g_seq(), group_key) == Some(gl@),
                        views_of(out@) == self.plain_group_perms(owner, gl@.subrange(0, i as int)),
                    decreases n - i,
                {
                    let ghost prefix = gl@.subrange(0, i as int);
                    let ghost next = gl@.subrange(0, i + 1int);
                    proof {
                        assert(next.drop_last() =~= prefix);
                        assert(next.last() == gl@[i as int]);
                    }
                    let role = gl[i].role;
                    self.push_role_perms(owner, role, &mut out);
                    i = i + 1;
                }
                proof {
                    assert(gl@.subrange(0, n as int) =~= gl@);
                }
            }
            None => {
                proof {
                    assert(rel_list_or_empty(self.r2g_seq(), group_key)
                        =~= Seq::<Role2Group>::empty());
                }
            }
        }
        Some(out)
    }
}
} // verus!
