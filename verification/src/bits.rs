//! Trusted boundary around the `bit_set` crate.
//!
//! The archetype filter is a bitset of archetype identifiers, backed by
//! `bit_set::BitSet`. Verus sees the bitset only through the uninterpreted
//! contents function `bitset_elems` and the wrappers below, whose contracts
//! state what the crate's source shows.
use vstd::prelude::*;

verus! {

/// A set of archetype identifiers, backed by `bit_set::BitSet`.
#[verifier::external_body]
pub struct FilterBits {
    bits: bit_set::BitSet,
}

/// The set of values a `FilterBits` holds.
pub uninterp spec fn bitset_elems(b: FilterBits) -> Set<usize>;

/// Relies on bit_set::BitSet::new: a freshly created bitset is empty.
#[verifier::external_body]
pub(crate) fn bitset_new() -> (r: FilterBits)
    ensures
        bitset_elems(r) == Set::<usize>::empty(),
{
    FilterBits { bits: bit_set::BitSet::new() }
}

/// Relies on bit_set::BitSet::insert: adds `value` to the set, growing the
/// backing storage as needed, and reports whether the value was new.
#[verifier::external_body]
pub(crate) fn bitset_insert(b: &mut FilterBits, value: usize) -> (r: bool)
    requires
        value < usize::MAX,
    ensures
        bitset_elems(*final(b)) == bitset_elems(*old(b)).insert(value),
        r == !bitset_elems(*old(b)).contains(value),
{
    b.bits.insert(value)
}

/// Relies on bit_set::BitSet::contains: membership of `value` in the set.
#[verifier::external_body]
pub(crate) fn bitset_contains(b: &FilterBits, value: usize) -> (r: bool)
    ensures
        r == bitset_elems(*b).contains(value),
{
    b.bits.contains(value)
}

/// Relies on bit_set::BitSet's PartialEq, which compares the two sequences of
/// set bits: two bitsets are equal exactly when they hold the same values.
#[verifier::external_body]
pub(crate) fn bitset_eq(a: &FilterBits, b: &FilterBits) -> (r: bool)
    ensures
        r == (bitset_elems(*a) =~= bitset_elems(*b)),
{
    a.bits == b.bits
}

} // verus!
