//! Access declarations and permission sets.
//!
//! A system declares, once at registration time, which resource and component
//! identities it reads or writes. Those declarations compose, by a fold over
//! the declaration list, into one permission set per category. Composition
//! rejects a declaration list in which two independent sibling declarations
//! claim the same identity with at least one write: such a conflict is a
//! property of the system's shape and is reported at registration, never
//! mid-pass.
use vstd::prelude::*;

verus! {

/// Whether an identity names a world-global resource type or a per-entity
/// component type. Identities of different categories never collide.
#[derive(Clone, Copy, Debug, PartialEq, Eq, Structural)]
pub enum Category {
    Resource,
    Component,
}

/// The kind of access a permission set holds for one identity.
#[derive(Clone, Copy, Debug, PartialEq, Eq, Structural)]
pub enum AccessKind {
    NoAccess,
    Read,
    Write,
}

/// One per-declaration unit: read or write access to a single identity of one
/// category, or the degenerate descriptor that carries no data.
#[derive(Clone, Copy, Debug, PartialEq, Eq, Structural)]
pub enum AccessDescriptor {
    NoAccess,
    Read(Category, u64),
    Write(Category, u64),
}

/// The error taxonomy of the core.
#[derive(Clone, Copy, Debug, PartialEq, Eq, Structural)]
pub enum SystemError {
    /// Two sibling declarations in one system claim conflicting access to the
    /// same identity. Detected at registration, never surfaces mid-pass.
    DeclarationConflict(Category, u64),
    /// A declared resource identity has no registered value. Fatal to that
    /// system's run; other systems are unaffected.
    ResourceMissing(u64),
    /// Logic attempted to touch an identity outside its declared permissions,
    /// surfaced with the offending identity and the declared-vs-attempted
    /// access kinds.
    AccessViolation { identity: u64, attempted: AccessKind, declared: AccessKind },
}

/// Two disjoint sets of identities over one category: what a system may read
/// and what it may write. A write grants exclusive access and therefore also
/// permits reading.
#[derive(Debug)]
pub struct PermissionSet {
    pub read_ids: Vec<u64>,
    pub write_ids: Vec<u64>,
}

impl PermissionSet {
    pub open spec fn read_set(&self) -> Set<u64> {
        self.read_ids@.to_set()
    }

    pub open spec fn write_set(&self) -> Set<u64> {
        self.write_ids@.to_set()
    }

    /// Well-formed: no identity is listed twice, and no identity is listed as
    /// both read and write.
    pub open spec fn wf(&self) -> bool {
        &&& self.read_ids@.no_duplicates()
        &&& self.write_ids@.no_duplicates()
        &&& forall|id: u64|
            !(#[trigger] self.read_set().contains(id) && self.write_set().contains(id))
    }

    /// A shared read of `id` is permitted: a write grants reading too.
    pub open spec fn spec_can_read(&self, id: u64) -> bool {
        self.read_set().contains(id) || self.write_set().contains(id)
    }

    /// An exclusive write of `id` is permitted.
    pub open spec fn spec_can_write(&self, id: u64) -> bool {
        self.write_set().contains(id)
    }

    /// What this set declares for `id`, for diagnostics.
    pub open spec fn spec_declared_kind(&self, id: u64) -> AccessKind {
        if self.write_set().contains(id) {
            AccessKind::Write
        } else if self.read_set().contains(id) {
            AccessKind::Read
        } else {
            AccessKind::NoAccess
        }
    }

    pub fn empty() -> (r: PermissionSet)
        ensures
            r.wf(),
            r.read_set() == Set::<u64>::empty(),
            r.write_set() == Set::<u64>::empty(),
    {
        let r = PermissionSet { read_ids: Vec::new(), write_ids: Vec::new() };
        proof {
            assert(r.read_set() =~= Set::<u64>::empty());
            assert(r.write_set() =~= Set::<u64>::empty());
        }
        r
    }

    pub fn reads(&self) -> (r: &Vec<u64>)
        ensures
            r == &self.read_ids,
    {
        &self.read_ids
    }

    pub fn writes(&self) -> (r: &Vec<u64>)
        ensures
            r == &self.write_ids,
    {
        &self.write_ids
    }

    pub fn can_read(&self, id: u64) -> (r: bool)
        ensures
            r == self.spec_can_read(id),
    {
        contains_id(&self.read_ids, id) || contains_id(&self.write_ids, id)
    }

    pub fn can_write(&self, id: u64) -> (r: bool)
        ensures
            r == self.spec_can_write(id),
    {
        contains_id(&self.write_ids, id)
    }

    pub fn declared_kind(&self, id: u64) -> (r: AccessKind)
        ensures
            r == self.spec_declared_kind(id),
    {
        if contains_id(&self.write_ids, id) {
            AccessKind::Write
        } else if contains_id(&self.read_ids, id) {
            AccessKind::Read
        } else {
            AccessKind::NoAccess
        }
    }
}

/// The aggregated permission pair of one system: resource identities and
/// component identities, kept apart.
#[derive(Debug)]
pub struct SystemAccess {
    pub resources: PermissionSet,
    pub components: PermissionSet,
}

impl SystemAccess {
    pub open spec fn wf(&self) -> bool {
        self.resources.wf() && self.components.wf()
    }
}

/// Linear membership test on a vector of identities.
pub fn contains_id(v: &Vec<u64>, id: u64) -> (r: bool)
    ensures
        r == v@.contains(id),
{
    let mut i: usize = 0;
    while i < v.len()
        invariant
            0 <= i <= v@.len(),
            forall|j: int| 0 <= j < i ==> v@[j] != id,
        decreases v@.len() - i,
    {
        if v[i] == id {
            proof {
                assert(v@[i as int] == id);
            }
            return true;
        }
        i = i + 1;
    }
    false
}

/// The identities a single descriptor declares for reading in one category.
pub open spec fn descriptor_reads(d: AccessDescriptor, cat: Category) -> Set<u64> {
    match d {
        AccessDescriptor::Read(c, id) => if c == cat {
            Set::empty().insert(id)
        } else {
            Set::empty()
        },
        _ => Set::empty(),
    }
}

/// The identities a single descriptor declares for writing in one category.
pub open spec fn descriptor_writes(d: AccessDescriptor, cat: Category) -> Set<u64> {
    match d {
        AccessDescriptor::Write(c, id) => if c == cat {
            Set::empty().insert(id)
        } else {
            Set::empty()
        },
        _ => Set::empty(),
    }
}

/// The category and identity a descriptor names, if any.
pub open spec fn descriptor_identity(d: AccessDescriptor) -> Option<(Category, u64)> {
    match d {
        AccessDescriptor::NoAccess => None,
        AccessDescriptor::Read(c, id) => Some((c, id)),
        AccessDescriptor::Write(c, id) => Some((c, id)),
    }
}

/// Two descriptors have disjoint identities: they never name the same identity
/// of the same category.
pub open spec fn disjoint_descriptors(a: AccessDescriptor, b: AccessDescriptor) -> bool {
    descriptor_identity(a) is None || descriptor_identity(b) is None || descriptor_identity(a)
        != descriptor_identity(b)
}

/// One step of declaration composition in one category. A read of an identity
/// already written, or a write of an identity already touched, is a conflict:
/// the sibling declarations are independent, so neither subsumes the other.
pub open spec fn compose_step(
    reads: Set<u64>,
    writes: Set<u64>,
    d: AccessDescriptor,
    cat: Category,
) -> Result<(Set<u64>, Set<u64>), u64> {
    match d {
        AccessDescriptor::NoAccess => Ok((reads, writes)),
        AccessDescriptor::Read(c, id) => if c != cat {
            Ok((reads, writes))
        } else if writes.contains(id) {
            Err(id)
        } else {
            Ok((reads.insert(id), writes))
        },
        AccessDescriptor::Write(c, id) => if c != cat {
            Ok((reads, writes))
        } else if writes.contains(id) || reads.contains(id) {
            Err(id)
        } else {
            Ok((reads, writes.insert(id)))
        },
    }
}

/// The composed (reads, writes) pair of a declaration list in one category, or
/// the first identity on which two sibling declarations conflict.
pub open spec fn compose_cat(descs: Seq<AccessDescriptor>, cat: Category) -> Result<
    (Set<u64>, Set<u64>),
    u64,
>
    decreases descs.len(),
{
    if descs.len() == 0 {
        Ok((Set::empty(), Set::empty()))
    } else {
        match compose_cat(descs.drop_last(), cat) {
            Ok(rw) => compose_step(rw.0, rw.1, descs.last(), cat),
            Err(id) => Err(id),
        }
    }
}

/// Once composition has failed on a prefix, the whole list fails the same way.
proof fn lemma_compose_err_extends(descs: Seq<AccessDescriptor>, cat: Category, n: int)
    requires
        0 <= n <= descs.len(),
        compose_cat(descs.take(n), cat) is Err,
    ensures
        compose_cat(descs, cat) == compose_cat(descs.take(n), cat),
    decreases descs.len() - n,
{
    if n == descs.len() {
        assert(descs.take(n) =~= descs);
    } else {
        assert(descs.take(n + 1).drop_last() =~= descs.take(n));
        assert(descs.take(n + 1).last() == descs[n]);
        lemma_compose_err_extends(descs, cat, n + 1);
    }
}

/// Folds a declaration list into the permission set of one category,
/// rejecting the list on the first conflicting identity.
pub fn permissions_for(descs: &Vec<AccessDescriptor>, cat: Category) -> (r: Result<
    PermissionSet,
    SystemError,
>)
    ensures
        match compose_cat(descs@, cat) {
            Ok(rw) => r matches Ok(p) && p.wf() && p.read_set() == rw.0 && p.write_set() == rw.1,
            Err(id) => r == Err::<PermissionSet, SystemError>(
                SystemError::DeclarationConflict(cat, id),
            ),
        },
{
    let mut read_ids: Vec<u64> = Vec::new();
    let mut write_ids: Vec<u64> = Vec::new();
    let mut i: usize = 0;
    proof {
        assert(descs@.take(0) =~= Seq::<AccessDescriptor>::empty());
        assert(read_ids@.to_set() =~= Set::<u64>::empty());
        assert(write_ids@.to_set() =~= Set::<u64>::empty());
    }
    while i < descs.len()
        invariant
            0 <= i <= descs@.len(),
            compose_cat(descs@.take(i as int), cat) matches Ok(rw) && rw.0 == read_ids@.to_set()
                && rw.1 == write_ids@.to_set(),
            read_ids@.no_duplicates(),
            write_ids@.no_duplicates(),
            forall|id: u64| !(#[trigger] read_ids@.contains(id) && write_ids@.contains(id)),
        decreases descs@.len() - i,
    {
        proof {
            assert(descs@.take(i as int + 1).drop_last() =~= descs@.take(i as int));
            assert(descs@.take(i as int + 1).last() == descs@[i as int]);
        }
        let ghost old_reads = read_ids@.to_set();
        let ghost old_writes = write_ids@.to_set();
        let d = descs[i];
        match d {
            AccessDescriptor::NoAccess => {},
            AccessDescriptor::Read(c, id) => {
                if c == cat {
                    if contains_id(&write_ids, id) {
                        proof {
                            assert(compose_cat(descs@.take(i as int + 1), cat) == Err::<
                                (Set<u64>, Set<u64>),
                                u64,
                            >(id));
                            lemma_compose_err_extends(descs@, cat, i as int + 1);
                        }
                        return Err(SystemError::DeclarationConflict(cat, id));
                    }
                    let ghost pre = read_ids@;
                    if !contains_id(&read_ids, id) {
                        read_ids.push(id);
                        proof {
                            pre.lemma_push_to_set_commute(id);
                            assert forall|x: u64| #[trigger] read_ids@.contains(x) implies (
                            pre.contains(x) || x == id) by {
                                vstd::seq_lib::lemma_seq_contains_after_push(pre, id, x);
                            }
                        }
                    }
                    proof {
                        assert(read_ids@.to_set() =~= old_reads.insert(id));
                    }
                }
            },
            AccessDescriptor::Write(c, id) => {
                if c == cat {
                    if contains_id(&write_ids, id) || contains_id(&read_ids, id) {
                        proof {
                            assert(compose_cat(descs@.take(i as int + 1), cat) == Err::<
                                (Set<u64>, Set<u64>),
                                u64,
                            >(id));
                            lemma_compose_err_extends(descs@, cat, i as int + 1);
                        }
                        return Err(SystemError::DeclarationConflict(cat, id));
                    }
                    let ghost pre = write_ids@;
                    write_ids.push(id);
                    proof {
                        pre.lemma_push_to_set_commute(id);
                        assert forall|x: u64| #[trigger] write_ids@.contains(x) implies (
                        pre.contains(x) || x == id) by {
                            vstd::seq_lib::lemma_seq_contains_after_push(pre, id, x);
                        }
                        assert(write_ids@.to_set() =~= old_writes.insert(id));
                    }
                }
            },
        }
        i = i + 1;
    }
    proof {
        assert(descs@.take(descs@.len() as int) =~= descs@);
    }
    Ok(PermissionSet { read_ids, write_ids })
}

/// Aggregates one system's whole declaration list into its resource and
/// component permission sets, rejecting it on the first declaration conflict
/// (resource conflicts are reported first).
pub fn permissions_of(descs: &Vec<AccessDescriptor>) -> (r: Result<SystemAccess, SystemError>)
    ensures
        match (compose_cat(descs@, Category::Resource), compose_cat(descs@, Category::Component)) {
            (Err(id), _) => r == Err::<SystemAccess, SystemError>(
                SystemError::DeclarationConflict(Category::Resource, id),
            ),
            (Ok(_), Err(id)) => r == Err::<SystemAccess, SystemError>(
                SystemError::DeclarationConflict(Category::Component, id),
            ),
            (Ok(rrw), Ok(crw)) => r matches Ok(sa) && sa.wf() && sa.resources.read_set() == rrw.0
                && sa.resources.write_set() == rrw.1 && sa.components.read_set() == crw.0
                && sa.components.write_set() == crw.1,
        },
{
    let resources = match permissions_for(descs, Category::Resource) {
        Ok(p) => p,
        Err(e) => {
            return Err(e);
        },
    };
    let components = match permissions_for(descs, Category::Component) {
        Ok(p) => p,
        Err(e) => {
            return Err(e);
        },
    };
    Ok(SystemAccess { resources, components })
}

/// Two permission sets of the same category conflict when one's write set
/// meets anything the other touches. Read-read overlap never conflicts.
pub open spec fn spec_sets_conflict(a: PermissionSet, b: PermissionSet) -> bool {
    ||| exists|id: u64|
        #[trigger] a.write_ids@.contains(id) && (b.read_ids@.contains(id) || b.write_ids@.contains(
            id,
        ))
    ||| exists|id: u64|
        #[trigger] b.write_ids@.contains(id) && (a.read_ids@.contains(id) || a.write_ids@.contains(
            id,
        ))
}

/// Two systems may run concurrently in one pass iff this is false: no write
/// identity of either overlaps anything the other touches, in either category.
pub open spec fn spec_conflicts(a: SystemAccess, b: SystemAccess) -> bool {
    spec_sets_conflict(a.resources, b.resources) || spec_sets_conflict(a.components, b.components)
}

/// Does any identity of `v` appear in `reads` or `writes`?
fn any_common(v: &Vec<u64>, reads: &Vec<u64>, writes: &Vec<u64>) -> (r: bool)
    ensures
        r == exists|id: u64|
            #[trigger] v@.contains(id) && (reads@.contains(id) || writes@.contains(id)),
{
    let mut i: usize = 0;
    while i < v.len()
        invariant
            0 <= i <= v@.len(),
            forall|j: int|
                0 <= j < i ==> !(reads@.contains(#[trigger] v@[j]) || writes@.contains(v@[j])),
        decreases v@.len() - i,
    {
        let id = v[i];
        if contains_id(reads, id) || contains_id(writes, id) {
            proof {
                assert(v@.contains(id));
            }
            return true;
        }
        i = i + 1;
    }
    proof {
        assert forall|id: u64|
            #[trigger] v@.contains(id) implies !(reads@.contains(id) || writes@.contains(
            id,
        )) by {
            let j = choose|j: int| 0 <= j < v@.len() && v@[j] == id;
            assert(!(reads@.contains(v@[j]) || writes@.contains(v@[j])));
        }
    }
    false
}

impl SystemAccess {
    /// The scheduler-facing conflict test: true iff the two systems must be
    /// serialized, i.e. some write identity of one overlaps an identity the
    /// other reads or writes, in the same category.
    pub fn conflicts_with(&self, other: &SystemAccess) -> (r: bool)
        ensures
            r == spec_conflicts(*self, *other),
    {
        let rr = any_common(
            &self.resources.write_ids,
            &other.resources.read_ids,
            &other.resources.write_ids,
        ) || any_common(
            &other.resources.write_ids,
            &self.resources.read_ids,
            &self.resources.write_ids,
        );
        let cc = any_common(
            &self.components.write_ids,
            &other.components.read_ids,
            &other.components.write_ids,
        ) || any_common(
            &other.components.write_ids,
            &self.components.read_ids,
            &self.components.write_ids,
        );
        rr || cc
    }
}

/// Law: composing a single descriptor yields exactly its own permission sets.
pub proof fn lemma_compose_singleton(d: AccessDescriptor, cat: Category)
    ensures
        compose_cat(seq![d], cat) matches Ok(rw) && rw.0 == descriptor_reads(d, cat) && rw.1
            == descriptor_writes(d, cat),
{
    let s = seq![d];
    assert(s.drop_last() =~= Seq::<AccessDescriptor>::empty());
    assert(s.last() == d);
    assert(compose_cat(Seq::<AccessDescriptor>::empty(), cat) == Ok::<(Set<u64>, Set<u64>), u64>(
        (Set::empty(), Set::empty()),
    ));
    assert(compose_cat(s, cat) == compose_step(Set::empty(), Set::empty(), d, cat));
    match d {
        AccessDescriptor::NoAccess => {
            assert(Set::<u64>::empty() =~= descriptor_reads(d, cat));
            assert(Set::<u64>::empty() =~= descriptor_writes(d, cat));
        },
        AccessDescriptor::Read(c, id) => {
            if c == cat {
                assert(Set::<u64>::empty() =~= descriptor_writes(d, cat));
            } else {
                assert(Set::<u64>::empty() =~= descriptor_reads(d, cat));
                assert(Set::<u64>::empty() =~= descriptor_writes(d, cat));
            }
        },
        AccessDescriptor::Write(c, id) => {
            if c == cat {
                assert(Set::<u64>::empty() =~= descriptor_reads(d, cat));
            } else {
                assert(Set::<u64>::empty() =~= descriptor_reads(d, cat));
                assert(Set::<u64>::empty() =~= descriptor_writes(d, cat));
            }
        },
    }
}

/// Law: two access descriptors with disjoint identities always compose, and
/// the composed permission sets are the plain union of each descriptor's own
/// reads and writes.
pub proof fn lemma_compose_disjoint_pair_is_union(
    a: AccessDescriptor,
    b: AccessDescriptor,
    cat: Category,
)
    requires
        disjoint_descriptors(a, b),
    ensures
        compose_cat(seq![a, b], cat) matches Ok(rw) && rw.0 == descriptor_reads(a, cat).union(
            descriptor_reads(b, cat),
        ) && rw.1 == descriptor_writes(a, cat).union(descriptor_writes(b, cat)),
{
    let s = seq![a, b];
    assert(s.drop_last() =~= seq![a]);
    assert(s.last() == b);
    lemma_compose_singleton(a, cat);
    let ra = descriptor_reads(a, cat);
    let wa = descriptor_writes(a, cat);
    match b {
        AccessDescriptor::NoAccess => {
            assert(ra =~= ra.union(descriptor_reads(b, cat)));
            assert(wa =~= wa.union(descriptor_writes(b, cat)));
        },
        AccessDescriptor::Read(c, id) => {
            if c == cat {
                assert(!wa.contains(id));
                assert(ra.insert(id) =~= ra.union(descriptor_reads(b, cat)));
                assert(wa =~= wa.union(descriptor_writes(b, cat)));
            } else {
                assert(ra =~= ra.union(descriptor_reads(b, cat)));
                assert(wa =~= wa.union(descriptor_writes(b, cat)));
            }
        },
        AccessDescriptor::Write(c, id) => {
            if c == cat {
                assert(!wa.contains(id));
                assert(!ra.contains(id));
                assert(ra =~= ra.union(descriptor_reads(b, cat)));
                assert(wa.insert(id) =~= wa.union(descriptor_writes(b, cat)));
            } else {
                assert(ra =~= ra.union(descriptor_reads(b, cat)));
                assert(wa =~= wa.union(descriptor_writes(b, cat)));
            }
        },
    }
}

/// Law: composition of disjoint descriptors is commutative: both orders
/// compose, to the same permission sets.
pub proof fn lemma_compose_disjoint_pair_commutative(
    a: AccessDescriptor,
    b: AccessDescriptor,
    cat: Category,
)
    requires
        disjoint_descriptors(a, b),
    ensures
        compose_cat(seq![a, b], cat) matches Ok(ab) && compose_cat(seq![b, a], cat) matches Ok(ba)
            && ab.0 == ba.0 && ab.1 == ba.1,
{
    lemma_compose_disjoint_pair_is_union(a, b, cat);
    lemma_compose_disjoint_pair_is_union(b, a, cat);
    assert(descriptor_reads(a, cat).union(descriptor_reads(b, cat)) =~= descriptor_reads(
        b,
        cat,
    ).union(descriptor_reads(a, cat)));
    assert(descriptor_writes(a, cat).union(descriptor_writes(b, cat)) =~= descriptor_writes(
        b,
        cat,
    ).union(descriptor_writes(a, cat)));
}

/// Law: composition of pairwise disjoint descriptors is associative: the
/// composed sets are the flat union of all three descriptors' own sets, so any
/// grouping of the unions yields the same permission sets.
pub proof fn lemma_compose_disjoint_triple_is_union(
    a: AccessDescriptor,
    b: AccessDescriptor,
    c: AccessDescriptor,
    cat: Category,
)
    requires
        disjoint_descriptors(a, b),
        disjoint_descriptors(a, c),
        disjoint_descriptors(b, c),
    ensures
        compose_cat(seq![a, b, c], cat) matches Ok(rw) && rw.0 == descriptor_reads(a, cat).union(
            descriptor_reads(b, cat),
        ).union(descriptor_reads(c, cat)) && rw.0 == descriptor_reads(a, cat).union(
            descriptor_reads(b, cat).union(descriptor_reads(c, cat)),
        ) && rw.1 == descriptor_writes(a, cat).union(descriptor_writes(b, cat)).union(
            descriptor_writes(c, cat),
        ) && rw.1 == descriptor_writes(a, cat).union(
            descriptor_writes(b, cat).union(descriptor_writes(c, cat)),
        ),
{
    let s = seq![a, b, c];
    assert(s.drop_last() =~= seq![a, b]);
    assert(s.last() == c);
    lemma_compose_disjoint_pair_is_union(a, b, cat);
    let rab = descriptor_reads(a, cat).union(descriptor_reads(b, cat));
    let wab = descriptor_writes(a, cat).union(descriptor_writes(b, cat));
    match c {
        AccessDescriptor::NoAccess => {
            assert(rab =~= rab.union(descriptor_reads(c, cat)));
            assert(wab =~= wab.union(descriptor_writes(c, cat)));
        },
        AccessDescriptor::Read(cc, id) => {
            if cc == cat {
                assert(!wab.contains(id));
                assert(rab.insert(id) =~= rab.union(descriptor_reads(c, cat)));
                assert(wab =~= wab.union(descriptor_writes(c, cat)));
            } else {
                assert(rab =~= rab.union(descriptor_reads(c, cat)));
                assert(wab =~= wab.union(descriptor_writes(c, cat)));
            }
        },
        AccessDescriptor::Write(cc, id) => {
            if cc == cat {
                assert(!wab.contains(id));
                assert(!rab.contains(id));
                assert(rab =~= rab.union(descriptor_reads(c, cat)));
                assert(wab.insert(id) =~= wab.union(descriptor_writes(c, cat)));
            } else {
                assert(rab =~= rab.union(descriptor_reads(c, cat)));
                assert(wab =~= wab.union(descriptor_writes(c, cat)));
            }
        },
    }
    assert(rab.union(descriptor_reads(c, cat)) =~= descriptor_reads(a, cat).union(
        descriptor_reads(b, cat).union(descriptor_reads(c, cat)),
    ));
    assert(wab.union(descriptor_writes(c, cat)) =~= descriptor_writes(a, cat).union(
        descriptor_writes(b, cat).union(descriptor_writes(c, cat)),
    ));
}

/// Law: a declaration list holding both a read and a write of the same
/// identity, in either order, is a declaration conflict on that identity, for
/// every identity and category.
pub proof fn lemma_read_write_same_identity_conflict(cat: Category, t: u64)
    ensures
        compose_cat(seq![AccessDescriptor::Read(cat, t), AccessDescriptor::Write(cat, t)], cat)
            == Err::<(Set<u64>, Set<u64>), u64>(t),
        compose_cat(seq![AccessDescriptor::Write(cat, t), AccessDescriptor::Read(cat, t)], cat)
            == Err::<(Set<u64>, Set<u64>), u64>(t),
{
    let rw = seq![AccessDescriptor::Read(cat, t), AccessDescriptor::Write(cat, t)];
    assert(rw.drop_last() =~= seq![AccessDescriptor::Read(cat, t)]);
    assert(rw.last() == AccessDescriptor::Write(cat, t));
    lemma_compose_singleton(AccessDescriptor::Read(cat, t), cat);
    assert(descriptor_reads(AccessDescriptor::Read(cat, t), cat).contains(t));
    let wr = seq![AccessDescriptor::Write(cat, t), AccessDescriptor::Read(cat, t)];
    assert(wr.drop_last() =~= seq![AccessDescriptor::Write(cat, t)]);
    assert(wr.last() == AccessDescriptor::Read(cat, t));
    lemma_compose_singleton(AccessDescriptor::Write(cat, t), cat);
    assert(descriptor_writes(AccessDescriptor::Write(cat, t), cat).contains(t));
}

/// Law: a system writing component identity `t` conflicts with every system
/// that reads or writes `t`: the scheduler never runs the two concurrently.
pub proof fn lemma_write_vs_touch_conflicts(a: SystemAccess, b: SystemAccess, t: u64)
    requires
        a.components.write_ids@.contains(t),
        b.components.read_ids@.contains(t) || b.components.write_ids@.contains(t),
    ensures
        spec_conflicts(a, b),
        spec_conflicts(b, a),
{
}

/// Law: two systems that declare no writes at all never conflict: read-read
/// overlap is always permitted concurrently.
pub proof fn lemma_read_only_never_conflicts(a: SystemAccess, b: SystemAccess)
    requires
        a.resources.write_ids@.len() == 0,
        a.components.write_ids@.len() == 0,
        b.resources.write_ids@.len() == 0,
        b.components.write_ids@.len() == 0,
    ensures
        !spec_conflicts(a, b),
{
}

} // verus!
