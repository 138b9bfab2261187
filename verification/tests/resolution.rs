use rbac::{Entity, Rbac};

fn name(s: &str) -> Vec<u8> {
    s.as_bytes().to_vec()
}

fn fields(e: &Entity) -> (u32, Vec<u8>, bool) {
    (e.id, e.name.clone(), e.enabled)
}

/// Owner A creates role 1 ("admin"), permission 10 ("read"), wires
/// permission 10 to role 1, creates group 100 ("eng"), grants role 1 to the
/// group, and puts user 5000 into it.
fn group_setup() -> Rbac {
    let mut rbac = Rbac::new();
    assert_eq!(rbac.create_role(1, 1, name("admin")), Ok(()));
    assert_eq!(rbac.create_permission(1, 10, name("read")), Ok(()));
    assert_eq!(rbac.create_permission_to_role(1, 10, 1), Ok(()));
    assert_eq!(rbac.create_group(1, 100, name("eng")), Ok(()));
    assert_eq!(rbac.create_role_to_group(1, 1, 100), Ok(()));
    assert_eq!(rbac.create_user_to_group(1, 5000, 100), Ok(()));
    rbac
}

#[test]
fn user_without_direct_role_resolves_through_group() {
    let rbac = group_setup();
    let perms = rbac.get_user_permissions(1, 5000).expect("resolution always succeeds");
    assert_eq!(perms.len(), 1);
    assert_eq!(fields(&perms[0]), (10, name("read"), true));
}

#[test]
fn role_reached_directly_and_through_group_counts_once() {
    let mut rbac = group_setup();
    assert_eq!(rbac.create_role_to_user(1, 1, 5000), Ok(()));
    let perms = rbac.get_user_permissions(1, 5000).expect("resolution always succeeds");
    assert_eq!(perms.len(), 1);
    assert_eq!(fields(&perms[0]), (10, name("read"), true));
}

#[test]
fn two_roles_granting_one_permission_yield_it_twice() {
    let mut rbac = Rbac::new();
    assert_eq!(rbac.create_role(1, 1, name("r1")), Ok(()));
    assert_eq!(rbac.create_role(1, 2, name("r2")), Ok(()));
    assert_eq!(rbac.create_permission(1, 10, name("p")), Ok(()));
    assert_eq!(rbac.create_permission_to_role(1, 10, 1), Ok(()));
    assert_eq!(rbac.create_permission_to_role(1, 10, 2), Ok(()));
    assert_eq!(rbac.create_role_to_user(1, 1, 5000), Ok(()));
    assert_eq!(rbac.create_role_to_user(1, 2, 5000), Ok(()));
    let perms = rbac.get_user_permissions(1, 5000).expect("resolution always succeeds");
    assert_eq!(perms.len(), 2);
    assert_eq!(perms[0].id, 10);
    assert_eq!(perms[1].id, 10);
}

#[test]
fn role_reached_through_two_groups_counts_once() {
    let mut rbac = group_setup();
    assert_eq!(rbac.create_group(1, 200, name("ops")), Ok(()));
    assert_eq!(rbac.create_role_to_group(1, 1, 200), Ok(()));
    assert_eq!(rbac.create_user_to_group(1, 5000, 200), Ok(()));
    let perms = rbac.get_user_permissions(1, 5000).expect("resolution always succeeds");
    assert_eq!(perms.len(), 1);
    assert_eq!(perms[0].id, 10);
}

#[test]
fn user_with_nothing_resolves_to_empty() {
    let rbac = Rbac::new();
    let perms = rbac.get_user_permissions(1, 5000).expect("resolution always succeeds");
    assert!(perms.is_empty());
}

#[test]
fn direct_permissions_come_before_group_permissions() {
    let mut rbac = group_setup();
    assert_eq!(rbac.create_role(1, 2, name("direct")), Ok(()));
    assert_eq!(rbac.create_permission(1, 20, name("write")), Ok(()));
    assert_eq!(rbac.create_permission_to_role(1, 20, 2), Ok(()));
    assert_eq!(rbac.create_role_to_user(1, 2, 5000), Ok(()));
    let perms = rbac.get_user_permissions(1, 5000).expect("resolution always succeeds");
    let ids: Vec<u32> = perms.iter().map(|e| e.id).collect();
    assert_eq!(ids, vec![20, 10]);
}

#[test]
fn missing_permission_record_is_skipped() {
    let mut rbac = group_setup();
    // wire a second permission id into role 1's list, then resolve:
    // permission 11 has no record, so only permission 10 appears
    assert_eq!(rbac.create_permission(1, 11, name("ghostly")), Ok(()));
    assert_eq!(rbac.create_permission_to_role(1, 11, 1), Ok(()));
    let perms = rbac.get_group_permissions(1, 100).expect("resolution always succeeds");
    assert_eq!(perms.len(), 2);
    let ids: Vec<u32> = perms.iter().map(|e| e.id).collect();
    assert_eq!(ids, vec![10, 11]);
}

#[test]
fn group_permissions_resolve_without_user() {
    let rbac = group_setup();
    let perms = rbac.get_group_permissions(1, 100).expect("resolution always succeeds");
    assert_eq!(perms.len(), 1);
    assert_eq!(fields(&perms[0]), (10, name("read"), true));
}

#[test]
fn group_without_roles_resolves_to_empty() {
    let mut rbac = Rbac::new();
    assert_eq!(rbac.create_group(1, 100, name("eng")), Ok(()));
    let perms = rbac.get_group_permissions(1, 100).expect("resolution always succeeds");
    assert!(perms.is_empty());
}

#[test]
fn disabled_permission_still_resolves() {
    let mut rbac = group_setup();
    assert_eq!(rbac.disable_existing_permission(1, 10), Ok(()));
    let perms = rbac.get_user_permissions(1, 5000).expect("resolution always succeeds");
    assert_eq!(perms.len(), 1);
    assert_eq!(fields(&perms[0]), (10, name("read"), false));
}
