use rbac::{Entity, EntityError, Rbac};

fn name(s: &str) -> Vec<u8> {
    s.as_bytes().to_vec()
}

fn entity_fields(e: &Entity) -> (u32, Vec<u8>, bool) {
    (e.id, e.name.clone(), e.enabled)
}

#[test]
fn create_then_fetch_role() {
    let mut rbac = Rbac::new();
    assert_eq!(rbac.create_role(1, 7, name("admin")), Ok(()));
    let fetched = rbac.get_role(1, 7).expect("role must be present");
    assert_eq!(entity_fields(&fetched), (7, name("admin"), true));
}

#[test]
fn create_twice_fails_and_keeps_first_name() {
    let mut rbac = Rbac::new();
    assert_eq!(rbac.create_role(1, 7, name("a")), Ok(()));
    assert_eq!(
        rbac.create_role(1, 7, name("b")),
        Err(EntityError::EntityAlreadyExist)
    );
    let fetched = rbac.get_role(1, 7).expect("role must be present");
    assert_eq!(fetched.name, name("a"));
}

#[test]
fn over_long_name_is_refused() {
    let mut rbac = Rbac::new();
    let long = vec![b'x'; 65];
    assert_eq!(
        rbac.create_role(1, 7, long.clone()),
        Err(EntityError::NameExceedMaxChar)
    );
    assert!(rbac.get_role(1, 7).is_none());
    assert_eq!(rbac.create_role(1, 7, vec![b'x'; 64]), Ok(()));
    assert_eq!(
        rbac.update_existing_role(1, 7, long),
        Err(EntityError::NameExceedMaxChar)
    );
}

#[test]
fn update_replaces_name_only() {
    let mut rbac = Rbac::new();
    assert_eq!(rbac.create_permission(1, 10, name("read")), Ok(()));
    assert_eq!(rbac.update_existing_permission(1, 10, name("write")), Ok(()));
    let fetched = rbac.get_permission(1, 10).expect("permission must be present");
    assert_eq!(entity_fields(&fetched), (10, name("write"), true));
}

#[test]
fn update_missing_entity_fails() {
    let mut rbac = Rbac::new();
    assert_eq!(
        rbac.update_existing_group(1, 4, name("eng")),
        Err(EntityError::EntityDoesNotExist)
    );
}

#[test]
fn disable_twice_fails() {
    let mut rbac = Rbac::new();
    assert_eq!(rbac.create_role(1, 7, name("r")), Ok(()));
    assert_eq!(rbac.disable_existing_role(1, 7), Ok(()));
    assert_eq!(
        rbac.disable_existing_role(1, 7),
        Err(EntityError::EntityDoesNotExist)
    );
}

#[test]
fn disable_missing_entity_fails() {
    let mut rbac = Rbac::new();
    assert_eq!(
        rbac.disable_existing_permission(1, 10),
        Err(EntityError::EntityDoesNotExist)
    );
}

#[test]
fn fetch_one_returns_disabled_fetch_all_filters() {
    let mut rbac = Rbac::new();
    assert_eq!(rbac.create_group(1, 1, name("g1")), Ok(()));
    assert_eq!(rbac.create_group(1, 2, name("g2")), Ok(()));
    assert_eq!(rbac.create_group(1, 3, name("g3")), Ok(()));
    assert_eq!(rbac.disable_existing_group(1, 2), Ok(()));

    let all = rbac.get_groups(1);
    assert_eq!(all.len(), 2);
    assert_eq!(entity_fields(&all[0]), (1, name("g1"), true));
    assert_eq!(entity_fields(&all[1]), (3, name("g3"), true));

    let disabled = rbac.get_group(1, 2).expect("disabled group is still fetchable");
    assert_eq!(entity_fields(&disabled), (2, name("g2"), false));
}

#[test]
fn fetch_all_keeps_creation_order() {
    let mut rbac = Rbac::new();
    assert_eq!(rbac.create_role(1, 30, name("c")), Ok(()));
    assert_eq!(rbac.create_role(1, 10, name("a")), Ok(()));
    assert_eq!(rbac.create_role(1, 20, name("b")), Ok(()));
    let all = rbac.get_roles(1);
    let ids: Vec<u32> = all.iter().map(|e| e.id).collect();
    assert_eq!(ids, vec![30, 10, 20]);
}

#[test]
fn update_keeps_disabled_flag() {
    let mut rbac = Rbac::new();
    assert_eq!(rbac.create_role(1, 7, name("r")), Ok(()));
    assert_eq!(rbac.disable_existing_role(1, 7), Ok(()));
    assert_eq!(rbac.update_existing_role(1, 7, name("renamed")), Ok(()));
    let fetched = rbac.get_role(1, 7).expect("role must be present");
    assert_eq!(entity_fields(&fetched), (7, name("renamed"), false));
}
