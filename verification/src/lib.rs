//! Access-declaration and conflict-free parallel-scheduling core for an
//! entity-component-system runtime.
//!
//! Systems declare, at construction time, which resource and component
//! identities they read or write. The library aggregates those declarations
//! into disjoint permission sets, filters archetypes against a query
//! predicate, gates every component access through a restricted world view,
//! and wraps a unit of logic as a schedulable node with a private
//! deferred-mutation buffer.
use vstd::prelude::*;

pub mod access;
pub mod bits;
pub mod buffer;
pub mod filter;
pub mod schedule;
pub mod world;

verus! {

/// Mints process-lifetime identity tokens for resource and component types.
///
/// Assignment is deterministic and append-only: the `k`-th minted identity is
/// always `k`, and an identity is never reused for a different logical type.
pub struct IdentityRegistry {
    next: u64,
}

impl IdentityRegistry {
    pub closed spec fn minted(&self) -> nat {
        self.next as nat
    }

    pub fn new() -> (r: IdentityRegistry)
        ensures
            r.minted() == 0,
    {
        IdentityRegistry { next: 0 }
    }

    /// Returns a fresh identity, distinct from every identity minted before.
    pub fn mint(&mut self) -> (r: u64)
        requires
            old(self).minted() < u64::MAX,
        ensures
            r == old(self).minted(),
            final(self).minted() == old(self).minted() + 1,
    {
        let r = self.next;
        self.next = self.next + 1;
        r
    }
}

} // verus!
