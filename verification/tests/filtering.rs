use system_access::access::{permissions_for, AccessDescriptor, Category, PermissionSet};
use system_access::filter::{
    filter, same_access, Archetype, ArchetypeAccess, QueryPredicate, StorageSnapshot,
};
use system_access::world::RestrictedWorldView;

fn arch(id: usize, components: Vec<u64>, entities: Vec<u64>) -> Archetype {
    Archetype {
        id,
        components,
        entities,
    }
}

const POSITION: u64 = 1;
const VELOCITY: u64 = 2;
const STATIC_MARK: u64 = 3;

fn two_archetype_snapshot() -> StorageSnapshot {
    StorageSnapshot {
        world: 0,
        archetypes: vec![
            arch(0, vec![POSITION, VELOCITY], vec![100, 101]),
            arch(1, vec![POSITION], vec![102]),
        ],
    }
}

#[test]
fn predicate_selects_matching_archetypes_only() {
    let s = two_archetype_snapshot();
    let p = QueryPredicate {
        must_have: vec![POSITION, VELOCITY],
        must_lack: vec![],
    };
    let r = filter(&s, &PermissionSet::empty(), &p);
    assert!(r.allows(0));
    assert!(!r.allows(1));
}

#[test]
fn negative_clause_excludes_archetypes() {
    let s = StorageSnapshot {
        world: 0,
        archetypes: vec![
            arch(0, vec![POSITION, STATIC_MARK], vec![]),
            arch(1, vec![POSITION], vec![]),
        ],
    };
    let p = QueryPredicate {
        must_have: vec![POSITION],
        must_lack: vec![STATIC_MARK],
    };
    let r = filter(&s, &PermissionSet::empty(), &p);
    assert!(!r.allows(0));
    assert!(r.allows(1));
}

#[test]
fn empty_predicate_yields_the_all_sentinel() {
    let s = two_archetype_snapshot();
    let p = QueryPredicate {
        must_have: vec![],
        must_lack: vec![],
    };
    let r = filter(&s, &PermissionSet::empty(), &p);
    assert!(matches!(r, ArchetypeAccess::All));
    assert!(r.allows(0));
    assert!(r.allows(12345), "the sentinel admits every archetype");
}

#[test]
fn filter_is_idempotent_on_an_unchanged_snapshot() {
    let s = two_archetype_snapshot();
    let p = QueryPredicate {
        must_have: vec![POSITION],
        must_lack: vec![],
    };
    let r1 = filter(&s, &PermissionSet::empty(), &p);
    let r2 = filter(&s, &PermissionSet::empty(), &p);
    assert!(same_access(&r1, &r2));
    let empty = QueryPredicate {
        must_have: vec![],
        must_lack: vec![],
    };
    let a1 = filter(&s, &PermissionSet::empty(), &empty);
    let a2 = filter(&s, &PermissionSet::empty(), &empty);
    assert!(same_access(&a1, &a2));
}

#[test]
fn filter_picks_up_new_and_dropped_archetypes() {
    let mut s = two_archetype_snapshot();
    let p = QueryPredicate {
        must_have: vec![POSITION, VELOCITY],
        must_lack: vec![],
    };
    let before = filter(&s, &PermissionSet::empty(), &p);
    assert!(!before.allows(2));
    s.archetypes
        .push(arch(2, vec![POSITION, VELOCITY], vec![103]));
    let after = filter(&s, &PermissionSet::empty(), &p);
    assert!(after.allows(2));
    assert!(after.allows(0));
    s.archetypes.remove(0);
    let dropped = filter(&s, &PermissionSet::empty(), &p);
    assert!(!dropped.allows(0));
    assert!(dropped.allows(2));
}

#[test]
fn entities_outside_the_filter_are_not_found() {
    let s = two_archetype_snapshot();
    let p = QueryPredicate {
        must_have: vec![POSITION, VELOCITY],
        must_lack: vec![],
    };
    let descs = vec![AccessDescriptor::Read(Category::Component, POSITION)];
    let perms = permissions_for(&descs, Category::Component).unwrap();
    let aa = filter(&s, &perms, &p);
    let view = RestrictedWorldView {
        components: &perms,
        filter: &aa,
        snapshot: &s,
    };
    // Entity 100 sits in archetype 0, which matches the filter.
    assert_eq!(view.get_component(100, POSITION).unwrap(), Some(0));
    // Entity 102 sits in archetype 1, outside the filter: not found, no error.
    assert_eq!(view.get_component(102, POSITION).unwrap(), None);
    // An unknown entity is not found.
    assert_eq!(view.get_component(999, POSITION).unwrap(), None);
}
