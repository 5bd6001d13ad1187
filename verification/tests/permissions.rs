use system_access::access::{
    permissions_for, permissions_of, AccessDescriptor, AccessKind, Category, PermissionSet,
    SystemAccess, SystemError,
};

fn read_res(id: u64) -> AccessDescriptor {
    AccessDescriptor::Read(Category::Resource, id)
}

fn write_res(id: u64) -> AccessDescriptor {
    AccessDescriptor::Write(Category::Resource, id)
}

fn read_comp(id: u64) -> AccessDescriptor {
    AccessDescriptor::Read(Category::Component, id)
}

fn write_comp(id: u64) -> AccessDescriptor {
    AccessDescriptor::Write(Category::Component, id)
}

#[test]
fn disjoint_descriptors_compose_to_plain_union() {
    let descs = vec![read_res(1), write_res(2), read_comp(3), write_comp(4)];
    let access = permissions_of(&descs).unwrap();
    assert_eq!(access.resources.reads(), &vec![1]);
    assert_eq!(access.resources.writes(), &vec![2]);
    assert_eq!(access.components.reads(), &vec![3]);
    assert_eq!(access.components.writes(), &vec![4]);
}

#[test]
fn composition_of_disjoint_descriptors_is_commutative() {
    let forward = vec![read_comp(10), write_comp(20), read_comp(30)];
    let backward = vec![read_comp(30), write_comp(20), read_comp(10)];
    let a = permissions_for(&forward, Category::Component).unwrap();
    let b = permissions_for(&backward, Category::Component).unwrap();
    for id in [10u64, 20, 30, 40] {
        assert_eq!(a.can_read(id), b.can_read(id));
        assert_eq!(a.can_write(id), b.can_write(id));
    }
}

#[test]
fn composition_of_disjoint_descriptors_is_associative() {
    // The same three descriptors grouped differently: composing the first two
    // and then the third yields the same sets as composing them in one list.
    let first_two = vec![read_comp(1), write_comp(2)];
    let p12 = permissions_for(&first_two, Category::Component).unwrap();
    let regrouped = vec![read_comp(1), write_comp(2), read_comp(3)];
    let p123 = permissions_for(&regrouped, Category::Component).unwrap();
    assert!(p12.can_read(1) && p123.can_read(1));
    assert!(p12.can_write(2) && p123.can_write(2));
    assert!(!p12.can_read(3) && p123.can_read(3));
}

#[test]
fn duplicate_reads_are_idempotent() {
    let descs = vec![read_comp(5), read_comp(5)];
    let p = permissions_for(&descs, Category::Component).unwrap();
    assert_eq!(p.reads(), &vec![5]);
    assert_eq!(p.writes(), &vec![] as &Vec<u64>);
}

#[test]
fn read_and_write_of_same_identity_is_rejected() {
    let descs = vec![read_comp(7), write_comp(7)];
    let r = permissions_of(&descs);
    assert_eq!(
        r.unwrap_err(),
        SystemError::DeclarationConflict(Category::Component, 7)
    );
    let descs = vec![write_comp(7), read_comp(7)];
    let r = permissions_of(&descs);
    assert_eq!(
        r.unwrap_err(),
        SystemError::DeclarationConflict(Category::Component, 7)
    );
}

#[test]
fn double_write_of_same_identity_is_rejected() {
    let descs = vec![write_res(9), write_res(9)];
    let r = permissions_of(&descs);
    assert_eq!(
        r.unwrap_err(),
        SystemError::DeclarationConflict(Category::Resource, 9)
    );
}

#[test]
fn same_identity_in_different_categories_is_no_conflict() {
    let descs = vec![write_res(9), write_comp(9)];
    let access = permissions_of(&descs).unwrap();
    assert!(access.resources.can_write(9));
    assert!(access.components.can_write(9));
}

#[test]
fn no_access_descriptor_contributes_nothing() {
    let descs = vec![AccessDescriptor::NoAccess];
    let access = permissions_of(&descs).unwrap();
    assert!(!access.resources.can_read(0));
    assert!(!access.components.can_read(0));
}

#[test]
fn declared_kind_reports_what_was_declared() {
    let descs = vec![read_comp(1), write_comp(2)];
    let p = permissions_for(&descs, Category::Component).unwrap();
    assert_eq!(p.declared_kind(1), AccessKind::Read);
    assert_eq!(p.declared_kind(2), AccessKind::Write);
    assert_eq!(p.declared_kind(3), AccessKind::NoAccess);
    assert!(p.can_read(2), "a write grants reading too");
    assert!(!p.can_write(1));
}

fn access_of(descs: Vec<AccessDescriptor>) -> SystemAccess {
    permissions_of(&descs).unwrap()
}

#[test]
fn writer_and_reader_of_same_component_conflict() {
    let position: u64 = 11;
    let writer = access_of(vec![write_comp(position)]);
    let reader = access_of(vec![read_comp(position)]);
    assert!(writer.conflicts_with(&reader));
    assert!(reader.conflicts_with(&writer));
}

#[test]
fn two_readers_of_same_component_do_not_conflict() {
    let position: u64 = 11;
    let a = access_of(vec![read_comp(position), read_res(1)]);
    let b = access_of(vec![read_comp(position), read_res(1)]);
    assert!(!a.conflicts_with(&b));
    assert!(!b.conflicts_with(&a));
}

#[test]
fn writers_of_distinct_identities_do_not_conflict() {
    let a = access_of(vec![write_comp(1)]);
    let b = access_of(vec![write_comp(2)]);
    assert!(!a.conflicts_with(&b));
}

#[test]
fn empty_permission_set_permits_nothing() {
    let p = PermissionSet::empty();
    assert!(!p.can_read(0));
    assert!(!p.can_write(0));
}
