//! The restricted world view and the resource collection.
//!
//! During its run a system sees the world only through a read/write-gated
//! facade: a component access outside the declared permission set fails fast
//! with an access violation, while an entity whose archetype lies outside the
//! current archetype filter is simply not found — a query legitimately only
//! sees matching entities. The view never outlives one pass.
use vstd::prelude::*;

verus! {

use crate::access::{contains_id, AccessKind, PermissionSet, SystemError};
use crate::filter::{ArchetypeAccess, StorageSnapshot};

/// Whether `i` is the index of the first archetype of the snapshot that holds
/// entity `e`: the entity's archetype.
pub open spec fn first_archetype_of(s: StorageSnapshot, e: u64, i: int) -> bool {
    &&& 0 <= i < s.archetypes@.len()
    &&& s.archetypes@[i].entities@.contains(e)
    &&& forall|j: int| 0 <= j < i ==> !(#[trigger] s.archetypes@[j]).entities@.contains(e)
}

/// Whether the slot for component `comp` of entity `e` is visible under the
/// archetype filter: the entity's archetype is archetype `i`, the filter
/// admits it, and it owns the component type.
pub open spec fn visible_slot(
    s: StorageSnapshot,
    aa: ArchetypeAccess,
    e: u64,
    comp: u64,
    i: int,
) -> bool {
    &&& first_archetype_of(s, e, i)
    &&& aa.spec_allows(s.archetypes@[i].id)
    &&& s.archetypes@[i].components@.contains(comp)
}

/// A read/write-gated facade over one storage snapshot, scoped to a system's
/// component permission set and its current archetype filter. It lives for a
/// single pass.
pub struct RestrictedWorldView<'a> {
    pub components: &'a PermissionSet,
    pub filter: &'a ArchetypeAccess,
    pub snapshot: &'a StorageSnapshot,
}

impl<'a> RestrictedWorldView<'a> {
    /// Looks up, without gating, the index of the entity's archetype.
    fn locate(&self, entity: u64) -> (r: Option<usize>)
        ensures
            match r {
                Some(i) => first_archetype_of(*self.snapshot, entity, i as int),
                None => forall|i: int| !first_archetype_of(*self.snapshot, entity, i),
            },
    {
        let mut i: usize = 0;
        while i < self.snapshot.archetypes.len()
            invariant
                0 <= i <= self.snapshot.archetypes@.len(),
                forall|j: int|
                    0 <= j < i ==> !(#[trigger] self.snapshot.archetypes@[j]).entities@.contains(
                        entity,
                    ),
            decreases self.snapshot.archetypes@.len() - i,
        {
            if contains_id(&self.snapshot.archetypes[i].entities, entity) {
                return Some(i);
            }
            i = i + 1;
        }
        None
    }

    /// Shared (read) access to component `identity` of `entity`: the identity
    /// must be declared read or write; an entity outside the filter, absent
    /// from the world, or lacking the component is not found, which is not an
    /// error. On success returns the index of the entity's archetype in the
    /// snapshot, the slot's address for the storage engine.
    pub fn get_component(&self, entity: u64, identity: u64) -> (r: Result<
        Option<usize>,
        SystemError,
    >)
        ensures
            !self.components.spec_can_read(identity) ==> r == Err::<Option<usize>, SystemError>(
                SystemError::AccessViolation {
                    identity,
                    attempted: AccessKind::Read,
                    declared: self.components.spec_declared_kind(identity),
                },
            ),
            self.components.spec_can_read(identity) ==> match r {
                Ok(Some(i)) => visible_slot(*self.snapshot, *self.filter, entity, identity, i as int),
                Ok(None) => forall|i: int|
                    !visible_slot(*self.snapshot, *self.filter, entity, identity, i),
                Err(_) => false,
            },
    {
        if !self.components.can_read(identity) {
            let declared = self.components.declared_kind(identity);
            return Err(
                SystemError::AccessViolation { identity, attempted: AccessKind::Read, declared },
            );
        }
        self.lookup_visible(entity, identity)
    }

    /// Exclusive (write) access to component `identity` of `entity`: the
    /// identity must be declared write; otherwise as `get_component`.
    pub fn get_component_mut(&self, entity: u64, identity: u64) -> (r: Result<
        Option<usize>,
        SystemError,
    >)
        ensures
            !self.components.spec_can_write(identity) ==> r == Err::<Option<usize>, SystemError>(
                SystemError::AccessViolation {
                    identity,
                    attempted: AccessKind::Write,
                    declared: self.components.spec_declared_kind(identity),
                },
            ),
            self.components.spec_can_write(identity) ==> match r {
                Ok(Some(i)) => visible_slot(*self.snapshot, *self.filter, entity, identity, i as int),
                Ok(None) => forall|i: int|
                    !visible_slot(*self.snapshot, *self.filter, entity, identity, i),
                Err(_) => false,
            },
    {
        if !self.components.can_write(identity) {
            let declared = self.components.declared_kind(identity);
            return Err(
                SystemError::AccessViolation { identity, attempted: AccessKind::Write, declared },
            );
        }
        self.lookup_visible(entity, identity)
    }

    /// The ungated lookup shared by both accessors.
    fn lookup_visible(&self, entity: u64, identity: u64) -> (r: Result<Option<usize>, SystemError>)
        ensures
            match r {
                Ok(Some(i)) => visible_slot(*self.snapshot, *self.filter, entity, identity, i as int),
                Ok(None) => forall|i: int|
                    !visible_slot(*self.snapshot, *self.filter, entity, identity, i),
                Err(_) => false,
            },
    {
        match self.locate(entity) {
            None => Ok(None),
            Some(i) => {
                let a = &self.snapshot.archetypes[i];
                if self.filter.allows(a.id) && contains_id(&a.components, identity) {
                    Ok(Some(i))
                } else {
                    proof {
                        assert forall|k: int|
                            !visible_slot(*self.snapshot, *self.filter, entity, identity, k) by {
                            if first_archetype_of(*self.snapshot, entity, k) {
                                if k < i as int {
                                    assert(self.snapshot.archetypes@[k].entities@.contains(entity));
                                } else if k > i as int {
                                    assert(!(self.snapshot.archetypes@[i as int]).entities@.contains(
                                        entity,
                                    ));
                                }
                            }
                        }
                    }
                    Ok(None)
                }
            },
        }
    }
}

/// The registry of world-global resource identities: which resources exist.
/// The values themselves live with the external resource collection; this core
/// gates access by identity.
pub struct Resources {
    pub registered: Vec<u64>,
}

impl Resources {
    pub open spec fn spec_has(&self, id: u64) -> bool {
        self.registered@.contains(id)
    }

    pub fn new() -> (r: Resources)
        ensures
            forall|id: u64| !r.spec_has(id),
    {
        Resources { registered: Vec::new() }
    }

    /// Registers a resource identity; registration is idempotent.
    pub fn register(&mut self, id: u64)
        ensures
            forall|x: u64| final(self).spec_has(x) == (old(self).spec_has(x) || x == id),
    {
        let ghost pre = self.registered@;
        if !contains_id(&self.registered, id) {
            self.registered.push(id);
            proof {
                assert forall|x: u64| #[trigger]
                    final(self).spec_has(x) == (pre.contains(x) || x == id) by {
                    vstd::seq_lib::lemma_seq_contains_after_push(pre, id, x);
                }
            }
        }
    }

    pub fn has(&self, id: u64) -> (r: bool)
        ensures
            r == self.spec_has(id),
    {
        contains_id(&self.registered, id)
    }
}

/// The first identity of `ids`, in order, that is not registered.
pub open spec fn first_missing_of(ids: Seq<u64>, res: Resources) -> Option<u64>
    decreases ids.len(),
{
    if ids.len() == 0 {
        None
    } else if !res.spec_has(ids[0]) {
        Some(ids[0])
    } else {
        first_missing_of(ids.drop_first(), res)
    }
}

/// The first declared resource identity with no registered value: reads are
/// checked first, then writes.
pub open spec fn first_missing(perms: PermissionSet, res: Resources) -> Option<u64> {
    match first_missing_of(perms.read_ids@, res) {
        Some(id) => Some(id),
        None => first_missing_of(perms.write_ids@, res),
    }
}

/// The resource handles granted to one run: every declared read and write
/// identity, each validated as registered.
#[derive(Debug)]
pub struct FetchedResources {
    pub read_ids: Vec<u64>,
    pub write_ids: Vec<u64>,
}

/// Scans `ids` for the first identity that is not registered.
fn scan_missing(ids: &Vec<u64>, res: &Resources) -> (r: Option<u64>)
    ensures
        r == first_missing_of(ids@, *res),
{
    let mut i: usize = 0;
    proof {
        assert(ids@.skip(0) =~= ids@);
    }
    while i < ids.len()
        invariant
            0 <= i <= ids@.len(),
            first_missing_of(ids@, *res) == first_missing_of(ids@.skip(i as int), *res),
            forall|j: int| 0 <= j < i ==> res.spec_has(#[trigger] ids@[j]),
        decreases ids@.len() - i,
    {
        proof {
            assert(ids@.skip(i as int)[0] == ids@[i as int]);
            assert(ids@.skip(i as int).drop_first() =~= ids@.skip(i as int + 1));
        }
        if !res.has(ids[i]) {
            return Some(ids[i]);
        }
        i = i + 1;
    }
    proof {
        assert(ids@.skip(ids@.len() as int) =~= Seq::<u64>::empty());
    }
    None
}

/// Fetches the resources a system declared: shared handles for reads,
/// exclusive handles for writes. Fails with the first declared identity that
/// has no registered value; the failure is fatal to that system's run only.
pub fn fetch(res: &Resources, perms: &PermissionSet) -> (r: Result<FetchedResources, SystemError>)
    ensures
        match first_missing(*perms, *res) {
            Some(id) => r == Err::<FetchedResources, SystemError>(SystemError::ResourceMissing(id)),
            None => r matches Ok(f) && f.read_ids@ == perms.read_ids@ && f.write_ids@
                == perms.write_ids@,
        },
{
    if let Some(id) = scan_missing(&perms.read_ids, res) {
        return Err(SystemError::ResourceMissing(id));
    }
    if let Some(id) = scan_missing(&perms.write_ids, res) {
        return Err(SystemError::ResourceMissing(id));
    }
    let read_ids = copy_ids(&perms.read_ids);
    let write_ids = copy_ids(&perms.write_ids);
    Ok(FetchedResources { read_ids, write_ids })
}

/// Copies a vector of identities.
fn copy_ids(v: &Vec<u64>) -> (r: Vec<u64>)
    ensures
        r@ == v@,
{
    let mut out: Vec<u64> = Vec::new();
    let mut i: usize = 0;
    while i < v.len()
        invariant
            0 <= i <= v@.len(),
            out@ == v@.take(i as int),
        decreases v@.len() - i,
    {
        out.push(v[i]);
        proof {
            assert(v@.take(i as int).push(v@[i as int]) =~= v@.take(i as int + 1));
        }
        i = i + 1;
    }
    proof {
        assert(v@.take(v@.len() as int) =~= v@);
    }
    out
}

} // verus!
