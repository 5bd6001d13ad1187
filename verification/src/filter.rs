//! The archetype filter.
//!
//! Before each scheduling pass, every system recomputes which archetypes it
//! may touch: the bitset of identifiers of exactly those archetypes, in the
//! current storage snapshot, that match the system's query predicate. An empty
//! predicate matches every archetype and is represented by an explicit "all"
//! sentinel rather than an enumerated bitset.
use vstd::prelude::*;

verus! {

use crate::access::{contains_id, PermissionSet};
use crate::bits::{bitset_contains, bitset_elems, bitset_eq, bitset_insert, bitset_new, FilterBits};

/// One archetype of the external storage engine, seen through plain values:
/// its identifier, the set of component identities its entities own, and the
/// entities stored in it, by row.
pub struct Archetype {
    pub id: usize,
    pub components: Vec<u64>,
    pub entities: Vec<u64>,
}

impl Archetype {
    pub open spec fn has_component(&self, id: u64) -> bool {
        self.components@.contains(id)
    }
}

/// What the storage engine shows at the start of a pass: the world's identity
/// and every archetype currently known.
pub struct StorageSnapshot {
    pub world: u64,
    pub archetypes: Vec<Archetype>,
}

/// A query's shape requirement: a conjunction of "has component" and "lacks
/// component" clauses over component identities.
pub struct QueryPredicate {
    pub must_have: Vec<u64>,
    pub must_lack: Vec<u64>,
}

impl QueryPredicate {
    /// An empty predicate has no clauses and matches every archetype.
    pub open spec fn is_empty(&self) -> bool {
        self.must_have@.len() == 0 && self.must_lack@.len() == 0
    }

    pub open spec fn spec_matches(&self, a: Archetype) -> bool {
        &&& forall|i: int|
            0 <= i < self.must_have@.len() ==> a.components@.contains(
                #[trigger] self.must_have@[i],
            )
        &&& forall|i: int|
            0 <= i < self.must_lack@.len() ==> !a.components@.contains(
                #[trigger] self.must_lack@[i],
            )
    }

    /// Evaluates the predicate against one archetype's component-type set.
    pub fn matches(&self, a: &Archetype) -> (r: bool)
        ensures
            r == self.spec_matches(*a),
    {
        let mut i: usize = 0;
        while i < self.must_have.len()
            invariant
                0 <= i <= self.must_have@.len(),
                forall|j: int| 0 <= j < i ==> a.components@.contains(#[trigger] self.must_have@[j]),
            decreases self.must_have@.len() - i,
        {
            if !contains_id(&a.components, self.must_have[i]) {
                return false;
            }
            i = i + 1;
        }
        let mut k: usize = 0;
        while k < self.must_lack.len()
            invariant
                0 <= k <= self.must_lack@.len(),
                forall|j: int| 0 <= j < i ==> a.components@.contains(#[trigger] self.must_have@[j]),
                i >= self.must_have@.len(),
                forall|j: int|
                    0 <= j < k ==> !a.components@.contains(#[trigger] self.must_lack@[j]),
            decreases self.must_lack@.len() - k,
        {
            if contains_id(&a.components, self.must_lack[k]) {
                return false;
            }
            k = k + 1;
        }
        true
    }
}

/// The archetypes a system may iterate this pass: every archetype, or exactly
/// the identifiers in the bitset.
pub enum ArchetypeAccess {
    All,
    Selected(FilterBits),
}

impl ArchetypeAccess {
    pub open spec fn spec_allows(&self, id: usize) -> bool {
        match self {
            ArchetypeAccess::All => true,
            ArchetypeAccess::Selected(b) => bitset_elems(*b).contains(id),
        }
    }

    pub fn allows(&self, id: usize) -> (r: bool)
        ensures
            r == self.spec_allows(id),
    {
        match self {
            ArchetypeAccess::All => true,
            ArchetypeAccess::Selected(b) => bitset_contains(b, id),
        }
    }
}

/// Two filter results admit the same archetypes (the "all" sentinel is only
/// equal to itself).
pub open spec fn spec_same_access(a: ArchetypeAccess, b: ArchetypeAccess) -> bool {
    match (a, b) {
        (ArchetypeAccess::All, ArchetypeAccess::All) => true,
        (ArchetypeAccess::Selected(x), ArchetypeAccess::Selected(y)) => bitset_elems(x)
            == bitset_elems(y),
        _ => false,
    }
}

pub fn same_access(a: &ArchetypeAccess, b: &ArchetypeAccess) -> (r: bool)
    ensures
        r == spec_same_access(*a, *b),
{
    match (a, b) {
        (ArchetypeAccess::All, ArchetypeAccess::All) => true,
        (ArchetypeAccess::Selected(x), ArchetypeAccess::Selected(y)) => bitset_eq(x, y),
        _ => false,
    }
}

/// Every archetype identifier fits the bitset: a machine limit, since the
/// bitset's backing storage grows to the largest inserted value plus one.
pub open spec fn ids_bounded(s: StorageSnapshot) -> bool {
    forall|i: int| 0 <= i < s.archetypes@.len() ==> (#[trigger] s.archetypes@[i]).id < usize::MAX
}

/// Whether some archetype among the first `n` of the snapshot has identifier
/// `id` and matches the predicate.
pub open spec fn matched_in_prefix(
    s: StorageSnapshot,
    p: QueryPredicate,
    id: usize,
    n: int,
) -> bool {
    exists|j: int|
        0 <= j < n && (#[trigger] s.archetypes@[j]).id == id && p.spec_matches(s.archetypes@[j])
}

/// The identifiers of exactly those archetypes of the snapshot that match the
/// predicate.
pub open spec fn matching_ids(s: StorageSnapshot, p: QueryPredicate) -> Set<usize> {
    Set::new(|id: usize| matched_in_prefix(s, p, id, s.archetypes@.len() as int))
}

/// The exact contract of the filter: an empty predicate yields the "all"
/// sentinel; otherwise a bitset holding precisely the matching identifiers.
pub open spec fn filter_post(s: StorageSnapshot, p: QueryPredicate, r: ArchetypeAccess) -> bool {
    if p.is_empty() {
        r is All
    } else {
        r matches ArchetypeAccess::Selected(b) && bitset_elems(b) == matching_ids(s, p)
    }
}

/// Recomputes, once per scheduling pass, the bitset of archetype identifiers a
/// system may iterate: every archetype of the current snapshot whose
/// component-type set matches the query predicate.
///
/// The component permission set does not narrow the result: correctness of
/// scheduling holds from the identity-level permission sets alone, and the
/// filter is purely the query's shape requirement.
pub fn filter(
    s: &StorageSnapshot,
    _components: &PermissionSet,
    p: &QueryPredicate,
) -> (r: ArchetypeAccess)
    requires
        ids_bounded(*s),
    ensures
        filter_post(*s, *p, r),
{
    if p.must_have.len() == 0 && p.must_lack.len() == 0 {
        return ArchetypeAccess::All;
    }
    let mut bits = bitset_new();
    let mut i: usize = 0;
    while i < s.archetypes.len()
        invariant
            0 <= i <= s.archetypes@.len(),
            forall|k: int| 0 <= k < s.archetypes@.len() ==> (#[trigger] s.archetypes@[k]).id
                < usize::MAX,
            forall|id: usize| #[trigger]
                bitset_elems(bits).contains(id) == matched_in_prefix(*s, *p, id, i as int),
        decreases s.archetypes@.len() - i,
    {
        let ghost pre = bitset_elems(bits);
        let a = &s.archetypes[i];
        if p.matches(a) {
            bitset_insert(&mut bits, a.id);
            proof {
                assert forall|id: usize| #[trigger]
                    bitset_elems(bits).contains(id) == matched_in_prefix(
                    *s,
                    *p,
                    id,
                    i as int + 1,
                ) by {
                    if bitset_elems(bits).contains(id) {
                        if id == a.id {
                            assert((s.archetypes@[i as int]).id == id && p.spec_matches(
                                s.archetypes@[i as int],
                            ));
                        }
                    }
                    if matched_in_prefix(*s, *p, id, i as int + 1) {
                        let j = choose|j: int|
                            0 <= j < i as int + 1 && (#[trigger] s.archetypes@[j]).id == id
                                && p.spec_matches(s.archetypes@[j]);
                        if j < i as int {
                            assert(matched_in_prefix(*s, *p, id, i as int));
                        } else {
                            assert(id == a.id);
                        }
                    }
                }
            }
        } else {
            proof {
                assert forall|id: usize| #[trigger]
                    bitset_elems(bits).contains(id) == matched_in_prefix(
                    *s,
                    *p,
                    id,
                    i as int + 1,
                ) by {
                    if matched_in_prefix(*s, *p, id, i as int + 1) {
                        let j = choose|j: int|
                            0 <= j < i as int + 1 && (#[trigger] s.archetypes@[j]).id == id
                                && p.spec_matches(s.archetypes@[j]);
                        assert(j < i as int);
                        assert(matched_in_prefix(*s, *p, id, i as int));
                    }
                }
            }
        }
        i = i + 1;
    }
    proof {
        assert(bitset_elems(bits) =~= matching_ids(*s, *p));
    }
    ArchetypeAccess::Selected(bits)
}

/// Law: the filter is an idempotent pure function of the snapshot: re-running
/// it against an unchanged snapshot admits exactly the same archetypes.
pub proof fn lemma_filter_idempotent(
    s: StorageSnapshot,
    p: QueryPredicate,
    r1: ArchetypeAccess,
    r2: ArchetypeAccess,
)
    requires
        filter_post(s, p, r1),
        filter_post(s, p, r2),
    ensures
        forall|id: usize| r1.spec_allows(id) == r2.spec_allows(id),
        spec_same_access(r1, r2),
{
}

/// Law: an archetype newly added to the snapshot and matching a system's
/// predicate appears in the filter recomputed from that snapshot. (It never
/// appears retroactively within a pass: only `prepare` replaces the filter.)
pub proof fn lemma_new_archetype_appears(
    s1: StorageSnapshot,
    s2: StorageSnapshot,
    p: QueryPredicate,
    a: Archetype,
    r2: ArchetypeAccess,
)
    requires
        s2.archetypes@ == s1.archetypes@.push(a),
        p.spec_matches(a),
        filter_post(s2, p, r2),
    ensures
        r2.spec_allows(a.id),
{
    if !p.is_empty() {
        let n = s1.archetypes@.len() as int;
        assert(s2.archetypes@[n] == a);
        assert(matched_in_prefix(s2, p, a.id, s2.archetypes@.len() as int));
        assert(matching_ids(s2, p).contains(a.id));
    }
}

} // verus!
