use rbac::{EntityError, Rbac, Role2User, User2Group};

fn name(s: &str) -> Vec<u8> {
    s.as_bytes().to_vec()
}

#[test]
fn assign_twice_fails_and_list_stays_single() {
    let mut rbac = Rbac::new();
    assert_eq!(rbac.create_role(1, 3, name("r")), Ok(()));
    assert_eq!(rbac.create_role_to_user(1, 3, 50), Ok(()));
    assert_eq!(
        rbac.create_role_to_user(1, 3, 50),
        Err(EntityError::EntityAlreadyExist)
    );
    let list = rbac.get_user_roles(1, 50).expect("anchor must be present");
    assert_eq!(list, vec![Role2User { role: 3, user: 50 }]);
}

#[test]
fn assign_requires_referenced_entities() {
    let mut rbac = Rbac::new();
    assert_eq!(
        rbac.create_role_to_user(1, 3, 50),
        Err(EntityError::EntityDoesNotExist)
    );
    assert_eq!(rbac.create_role(1, 3, name("r")), Ok(()));
    // the group is still missing
    assert_eq!(
        rbac.create_role_to_group(1, 3, 9),
        Err(EntityError::EntityDoesNotExist)
    );
    assert_eq!(
        rbac.create_user_to_group(1, 50, 9),
        Err(EntityError::EntityDoesNotExist)
    );
    assert_eq!(
        rbac.create_permission_to_role(1, 77, 3),
        Err(EntityError::EntityDoesNotExist)
    );
}

#[test]
fn assign_allows_disabled_entities() {
    let mut rbac = Rbac::new();
    assert_eq!(rbac.create_role(1, 3, name("r")), Ok(()));
    assert_eq!(rbac.disable_existing_role(1, 3), Ok(()));
    assert_eq!(rbac.create_role_to_user(1, 3, 50), Ok(()));
}

#[test]
fn unassign_deletes_emptied_anchor() {
    let mut rbac = Rbac::new();
    assert_eq!(rbac.create_role(1, 3, name("r")), Ok(()));
    assert_eq!(rbac.create_role_to_user(1, 3, 50), Ok(()));
    assert_eq!(rbac.revoke_role_to_user(1, 3, 50), Ok(()));
    // "not found", never "found but empty"
    assert!(rbac.get_user_roles(1, 50).is_none());
    assert_eq!(
        rbac.revoke_role_to_user(1, 3, 50),
        Err(EntityError::EntityDoesNotExist)
    );
}

#[test]
fn unassign_keeps_remaining_pairs_in_order() {
    let mut rbac = Rbac::new();
    assert_eq!(rbac.create_role(1, 3, name("r1")), Ok(()));
    assert_eq!(rbac.create_role(1, 4, name("r2")), Ok(()));
    assert_eq!(rbac.create_role_to_user(1, 3, 50), Ok(()));
    assert_eq!(rbac.create_role_to_user(1, 4, 50), Ok(()));
    assert_eq!(rbac.revoke_role_to_user(1, 3, 50), Ok(()));
    let list = rbac.get_user_roles(1, 50).expect("anchor must be present");
    assert_eq!(list, vec![Role2User { role: 4, user: 50 }]);
}

#[test]
fn unassign_missing_pair_fails() {
    let mut rbac = Rbac::new();
    assert_eq!(rbac.create_role(1, 3, name("r")), Ok(()));
    assert_eq!(rbac.create_role_to_user(1, 3, 50), Ok(()));
    assert_eq!(
        rbac.revoke_role_to_user(1, 4, 50),
        Err(EntityError::EntityDoesNotExist)
    );
    assert_eq!(
        rbac.revoke_permission_to_role(1, 9, 3),
        Err(EntityError::EntityDoesNotExist)
    );
}

#[test]
fn user_to_group_round_trip() {
    let mut rbac = Rbac::new();
    assert_eq!(rbac.create_group(1, 9, name("eng")), Ok(()));
    assert_eq!(rbac.create_user_to_group(1, 50, 9), Ok(()));
    let list = rbac.get_user_groups(1, 50).expect("anchor must be present");
    assert_eq!(list, vec![User2Group { user: 50, group: 9 }]);
    assert_eq!(rbac.revoke_user_to_group(1, 50, 9), Ok(()));
    assert!(rbac.get_user_groups(1, 50).is_none());
}

#[test]
fn disable_does_not_cascade_into_relations() {
    let mut rbac = Rbac::new();
    assert_eq!(rbac.create_role(1, 3, name("r")), Ok(()));
    assert_eq!(rbac.create_role_to_user(1, 3, 50), Ok(()));
    assert_eq!(rbac.disable_existing_role(1, 3), Ok(()));
    let list = rbac.get_user_roles(1, 50).expect("relation must survive disable");
    assert_eq!(list, vec![Role2User { role: 3, user: 50 }]);
}
