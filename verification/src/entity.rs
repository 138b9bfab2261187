//! The data carried by the store: entities, relation pairs, and the error
//! kinds every fallible operation reports.

use vstd::prelude::*;

verus! {

/// Identifier of a role, permission, group, or user inside one owner's
/// namespace.
pub type EntityId = u32;

/// The account whose identity scopes every entity and relation.
pub type OwnerId = u64;

/// Longest admissible entity name, in bytes.
pub const NAME_LIMIT: usize = 64;

/// A named role, permission, or group. Disabling only clears `enabled`;
/// the record itself is never removed.
#[derive(Clone, Debug)]
pub struct Entity {
    pub id: EntityId,
    pub name: Vec<u8>,
    pub enabled: bool,
}

/// Mathematical image of an [`Entity`].
#[verifier::ext_equal]
pub struct EntityView {
    pub id: EntityId,
    pub name: Seq<u8>,
    pub enabled: bool,
}

impl View for Entity {
    type V = EntityView;

    open spec fn view(&self) -> EntityView {
        EntityView { id: self.id, name: self.name@, enabled: self.enabled }
    }
}

impl Entity {
    /// Copies the record field by field; `Entity` holds a `Vec`, so the
    /// copy is spelled out to keep its view equal to the original's.
    pub fn duplicate(&self) -> (r: Entity)
        ensures
            r@ == self@,
    {
        let mut name: Vec<u8> = Vec::new();
        let mut i: usize = 0;
        while i < self.name.len()
            invariant
                i <= self.name.len(),
                name@ == self.name@.subrange(0, i as int),
            decreases self.name.len() - i,
        {
            name.push(self.name[i]);
            i = i + 1;
        }
        proof {
            assert(name@ =~= self.name@);
        }
        Entity { id: self.id, name, enabled: self.enabled }
    }
}

/// Why an operation was refused. Every failure leaves the store untouched.
#[derive(Clone, Copy, Debug, PartialEq, Eq, Structural)]
pub enum EntityError {
    /// Creation or assignment hit an occupied key or an already present pair.
    EntityAlreadyExist,
    /// Lookup, update, disable, or unassignment found nothing to act on;
    /// also reported when disabling an entity that is already disabled.
    EntityDoesNotExist,
    /// The supplied name is longer than [`NAME_LIMIT`] bytes.
    NameExceedMaxChar,
    /// Reserved for ownership violations; key scoping makes them
    /// unreachable through the operations offered here.
    EntityAuthorizationFailed,
}

/// A role assigned directly to a user; stored under the user's key.
#[derive(Clone, Copy, Debug, PartialEq, Eq, Structural)]
pub struct Role2User {
    pub role: EntityId,
    pub user: EntityId,
}

/// A role granted to every member of a group; stored under the group's key.
#[derive(Clone, Copy, Debug, PartialEq, Eq, Structural)]
pub struct Role2Group {
    pub role: EntityId,
    pub group: EntityId,
}

/// A permission carried by a role; stored under the role's key.
#[derive(Clone, Copy, Debug, PartialEq, Eq, Structural)]
pub struct Permission2Role {
    pub permission: EntityId,
    pub role: EntityId,
}

/// A user's membership in a group; stored under the user's key.
#[derive(Clone, Copy, Debug, PartialEq, Eq, Structural)]
pub struct User2Group {
    pub user: EntityId,
    pub group: EntityId,
}

} // verus!
