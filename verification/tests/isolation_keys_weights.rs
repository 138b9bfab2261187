use rbac::key::{generate_key, key_material};
use rbac::{Rbac, Tag, WeightInfo};

fn name(s: &str) -> Vec<u8> {
    s.as_bytes().to_vec()
}

#[test]
fn owners_never_see_each_other() {
    let mut rbac = Rbac::new();
    assert_eq!(rbac.create_role(1, 7, name("admin")), Ok(()));
    assert_eq!(rbac.create_permission(1, 10, name("read")), Ok(()));
    assert_eq!(rbac.create_group(1, 100, name("eng")), Ok(()));
    assert_eq!(rbac.create_permission_to_role(1, 10, 7), Ok(()));
    assert_eq!(rbac.create_role_to_user(1, 7, 5000), Ok(()));
    assert_eq!(rbac.create_role_to_group(1, 7, 100), Ok(()));
    assert_eq!(rbac.create_user_to_group(1, 5000, 100), Ok(()));

    // every lookup owner 2 can perform comes back empty
    assert!(rbac.get_role(2, 7).is_none());
    assert!(rbac.get_permission(2, 10).is_none());
    assert!(rbac.get_group(2, 100).is_none());
    assert!(rbac.get_roles(2).is_empty());
    assert!(rbac.get_permissions(2).is_empty());
    assert!(rbac.get_groups(2).is_empty());
    assert!(rbac.get_user_roles(2, 5000).is_none());
    assert!(rbac.get_group_roles(2, 100).is_none());
    assert!(rbac.get_role_permissions(2, 7).is_none());
    assert!(rbac.get_user_groups(2, 5000).is_none());
    let perms = rbac.get_user_permissions(2, 5000).expect("resolution always succeeds");
    assert!(perms.is_empty());
}

#[test]
fn same_id_under_two_owners_stays_separate() {
    let mut rbac = Rbac::new();
    assert_eq!(rbac.create_role(1, 7, name("one")), Ok(()));
    assert_eq!(rbac.create_role(2, 7, name("two")), Ok(()));
    assert_eq!(rbac.get_role(1, 7).unwrap().name, name("one"));
    assert_eq!(rbac.get_role(2, 7).unwrap().name, name("two"));
    assert_eq!(rbac.disable_existing_role(1, 7), Ok(()));
    assert!(rbac.get_role(2, 7).unwrap().enabled);
}

#[test]
fn key_material_layout_is_exact() {
    // owner little-endian, id little-endian, then the tag's label bytes
    let m = key_material(1, 2, Tag::Role);
    assert_eq!(
        m,
        vec![1, 0, 0, 0, 0, 0, 0, 0, 2, 0, 0, 0, b'R', b'o', b'l', b'e']
    );
    let m2 = key_material(0x0102030405060708, 0x0a0b0c0d, Tag::User2Group);
    let mut expected = vec![8, 7, 6, 5, 4, 3, 2, 1, 0x0d, 0x0c, 0x0b, 0x0a];
    expected.extend_from_slice(b"User2Group");
    assert_eq!(m2, expected);
}

#[test]
fn generated_keys_are_deterministic_and_scoped() {
    let k = generate_key(1, 2, Tag::Role);
    assert_eq!(k, generate_key(1, 2, Tag::Role));
    assert_ne!(k, generate_key(3, 2, Tag::Role));
    assert_ne!(k, generate_key(1, 4, Tag::Role));
    assert_ne!(k, generate_key(1, 2, Tag::Role2User));
    assert_ne!(k, generate_key(1, 2, Tag::Permission));
}

#[test]
fn weight_totals() {
    let w = WeightInfo::add_role();
    assert_eq!(w, WeightInfo { reads: 2, writes: 2 });
    assert_eq!(w.total(10, 25), Some(70));
    assert_eq!(WeightInfo::fetch_user_permissions().total(3, 1000), Some(15));
    let heavy = WeightInfo { reads: u64::MAX, writes: u64::MAX };
    assert_eq!(heavy.total(2, 2), None);
}
