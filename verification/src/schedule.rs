//! The schedulable adapter.
//!
//! A `SystemWrapper` exposes a permission-bearing unit of logic to the
//! external multi-system scheduler as a node with a name, declared reads and
//! writes, an archetype filter recomputed by `prepare` before each pass, and a
//! `run` entry point that fetches the declared resources, constructs the
//! restricted world view, and invokes the wrapped logic against the adapter's
//! private deferred-mutation buffer for the current world.
use vstd::prelude::*;

verus! {

use crate::access::{
    compose_cat,
    AccessDescriptor,
    Category,
    PermissionSet,
    SystemAccess,
    SystemError,
};
use crate::buffer::{Command, CommandBuffer};
use crate::filter::{
    filter,
    filter_post,
    ids_bounded,
    ArchetypeAccess,
    QueryPredicate,
    StorageSnapshot,
};
use crate::world::{fetch, first_missing, FetchedResources, Resources, RestrictedWorldView};

/// A system's whole declaration: the ordered list of access descriptors it was
/// registered with, and its query's shape requirement. Constructed once at
/// registration time; immutable in shape for the system's lifetime.
pub struct Declaration {
    pub accesses: Vec<AccessDescriptor>,
    pub predicate: QueryPredicate,
}

/// What a system's declaration provides: its descriptor list, its query
/// predicate, the permission sets they compose to, and the per-pass archetype
/// filter.
pub trait SystemData {
    spec fn descriptors(&self) -> Seq<AccessDescriptor>;

    spec fn query(&self) -> QueryPredicate;

    /// The component permission set composed from the declaration, or the
    /// first conflicting component identity.
    fn component_permissions(&self) -> (r: Result<PermissionSet, SystemError>)
        ensures
            match compose_cat(self.descriptors(), Category::Component) {
                Ok(rw) => r matches Ok(p) && p.wf() && p.read_set() == rw.0 && p.write_set()
                    == rw.1,
                Err(id) => r == Err::<PermissionSet, SystemError>(
                    SystemError::DeclarationConflict(Category::Component, id),
                ),
            },
    ;

    /// The resource permission set composed from the declaration, or the first
    /// conflicting resource identity.
    fn resource_permissions(&self) -> (r: Result<PermissionSet, SystemError>)
        ensures
            match compose_cat(self.descriptors(), Category::Resource) {
                Ok(rw) => r matches Ok(p) && p.wf() && p.read_set() == rw.0 && p.write_set()
                    == rw.1,
                Err(id) => r == Err::<PermissionSet, SystemError>(
                    SystemError::DeclarationConflict(Category::Resource, id),
                ),
            },
    ;

    /// Recomputes the archetype filter against the current snapshot.
    fn filter_archetypes(&self, snapshot: &StorageSnapshot, components: &PermissionSet) -> (r:
        ArchetypeAccess)
        requires
            ids_bounded(*snapshot),
        ensures
            filter_post(*snapshot, self.query(), r),
    ;
}

impl SystemData for Declaration {
    open spec fn descriptors(&self) -> Seq<AccessDescriptor> {
        self.accesses@
    }

    open spec fn query(&self) -> QueryPredicate {
        self.predicate
    }

    fn component_permissions(&self) -> (r: Result<PermissionSet, SystemError>) {
        crate::access::permissions_for(&self.accesses, Category::Component)
    }

    fn resource_permissions(&self) -> (r: Result<PermissionSet, SystemError>) {
        crate::access::permissions_for(&self.accesses, Category::Resource)
    }

    fn filter_archetypes(&self, snapshot: &StorageSnapshot, components: &PermissionSet) -> (r:
        ArchetypeAccess) {
        filter(snapshot, components, &self.predicate)
    }
}

/// A unit of per-frame logic. The wrapped logic receives its declaration, the
/// fetched resource handles, its private deferred-mutation buffer, and the
/// restricted world view; it may only append to the buffer, never reorder or
/// drop what it recorded earlier in the pass, and never retarget the buffer to
/// another world.
pub trait System {
    type Data: SystemData;

    fn run(
        &mut self,
        data: &Self::Data,
        resources: &FetchedResources,
        command_buffer: &mut CommandBuffer,
        world: &RestrictedWorldView<'_>,
    ) -> (r: Result<(), SystemError>)
        ensures
            final(command_buffer).spec_world() == old(command_buffer).spec_world(),
            old(command_buffer).spec_commands().is_prefix_of(final(command_buffer).spec_commands()),
    ;
}

/// Finds the buffer that targets world `w`, if one exists.
fn find_buffer(bufs: &Vec<CommandBuffer>, w: u64) -> (r: Option<usize>)
    ensures
        match r {
            Some(i) => i < bufs@.len() && bufs@[i as int].spec_world() == w,
            None => forall|j: int| 0 <= j < bufs@.len() ==> (#[trigger] bufs@[j]).spec_world() != w,
        },
{
    let mut i: usize = 0;
    while i < bufs.len()
        invariant
            0 <= i <= bufs@.len(),
            forall|j: int| 0 <= j < i ==> (#[trigger] bufs@[j]).spec_world() != w,
        decreases bufs@.len() - i,
    {
        if bufs[i].world_id() == w {
            return Some(i);
        }
        i = i + 1;
    }
    None
}

/// The adapter that the external scheduler dispatches: one registered system,
/// its aggregated permission sets, its per-pass archetype filter, and one
/// private deferred-mutation buffer per world it has run against.
pub struct SystemWrapper<S: System> {
    name: String,
    data: S::Data,
    archetypes: ArchetypeAccess,
    access: SystemAccess,
    buffers: Vec<CommandBuffer>,
    system: S,
}

impl<S: System> SystemWrapper<S> {
    pub closed spec fn spec_name(&self) -> Seq<char> {
        self.name@
    }

    pub closed spec fn spec_data(&self) -> S::Data {
        self.data
    }

    pub closed spec fn spec_access(&self) -> SystemAccess {
        self.access
    }

    pub closed spec fn spec_archetypes(&self) -> ArchetypeAccess {
        self.archetypes
    }

    pub closed spec fn spec_buffers(&self) -> Seq<CommandBuffer> {
        self.buffers@
    }

    /// Well-formed: the permission sets are well-formed and no two buffers
    /// target the same world.
    pub open spec fn wf(&self) -> bool {
        &&& self.spec_access().wf()
        &&& forall|i: int, j: int|
            0 <= i < j < self.spec_buffers().len() ==> (#[trigger] self.spec_buffers()[i]).spec_world()
                != (#[trigger] self.spec_buffers()[j]).spec_world()
    }

    /// The adapter holds a buffer for world `w`.
    pub open spec fn spec_has_buffer(&self, w: u64) -> bool {
        exists|i: int|
            0 <= i < self.spec_buffers().len() && (#[trigger] self.spec_buffers()[i]).spec_world()
                == w
    }

    /// The commands buffered for world `w` (meaningful when such a buffer
    /// exists and worlds are unique).
    pub open spec fn spec_buffer_commands(&self, w: u64) -> Seq<Command> {
        let i = choose|i: int|
            0 <= i < self.spec_buffers().len() && (#[trigger] self.spec_buffers()[i]).spec_world()
                == w;
        self.spec_buffers()[i].spec_commands()
    }

    /// Registers a system: aggregates its declaration into the permission
    /// pair, rejecting it on a declaration conflict (resource conflicts are
    /// reported first). A fresh adapter admits no archetypes until its first
    /// `prepare` and holds no buffers.
    pub fn new(name: String, data: S::Data, system: S) -> (r: Result<SystemWrapper<S>, SystemError>)
        ensures
            match (
                compose_cat(data.descriptors(), Category::Resource),
                compose_cat(data.descriptors(), Category::Component),
            ) {
                (Err(id), _) => r == Err::<SystemWrapper<S>, SystemError>(
                    SystemError::DeclarationConflict(Category::Resource, id),
                ),
                (Ok(_), Err(id)) => r == Err::<SystemWrapper<S>, SystemError>(
                    SystemError::DeclarationConflict(Category::Component, id),
                ),
                (Ok(rrw), Ok(crw)) => r matches Ok(w) && w.wf() && w.spec_name() == name@
                    && w.spec_data() == data && w.spec_access().resources.read_set() == rrw.0
                    && w.spec_access().resources.write_set() == rrw.1
                    && w.spec_access().components.read_set() == crw.0
                    && w.spec_access().components.write_set() == crw.1 && w.spec_buffers()
                    == Seq::<CommandBuffer>::empty(),
            },
    {
        let resources = match data.resource_permissions() {
            Ok(p) => p,
            Err(e) => {
                return Err(e);
            },
        };
        let components = match data.component_permissions() {
            Ok(p) => p,
            Err(e) => {
                return Err(e);
            },
        };
        Ok(
            SystemWrapper {
                name,
                data,
                archetypes: ArchetypeAccess::Selected(crate::bits::bitset_new()),
                access: SystemAccess { resources, components },
                buffers: Vec::new(),
                system,
            },
        )
    }

    pub fn name(&self) -> (r: &String)
        ensures
            r@ == self.spec_name(),
    {
        &self.name
    }

    pub fn access(&self) -> (r: &SystemAccess)
        ensures
            *r == self.spec_access(),
    {
        &self.access
    }

    /// The declared read identities: resources, then components.
    pub fn reads(&self) -> (r: (&Vec<u64>, &Vec<u64>))
        ensures
            r.0@ == self.spec_access().resources.read_ids@,
            r.1@ == self.spec_access().components.read_ids@,
    {
        (&self.access.resources.read_ids, &self.access.components.read_ids)
    }

    /// The declared write identities: resources, then components.
    pub fn writes(&self) -> (r: (&Vec<u64>, &Vec<u64>))
        ensures
            r.0@ == self.spec_access().resources.write_ids@,
            r.1@ == self.spec_access().components.write_ids@,
    {
        (&self.access.resources.write_ids, &self.access.components.write_ids)
    }

    pub fn accesses_archetypes(&self) -> (r: &ArchetypeAccess)
        ensures
            *r == self.spec_archetypes(),
    {
        &self.archetypes
    }

    /// Recomputes the archetype filter against the current snapshot. Must run
    /// before the scheduler builds the pass's conflict graph. Nothing else of
    /// the adapter changes: archetypes appear in the filter only here, never
    /// retroactively within a pass.
    pub fn prepare(&mut self, snapshot: &StorageSnapshot)
        requires
            old(self).wf(),
            ids_bounded(*snapshot),
        ensures
            final(self).wf(),
            filter_post(*snapshot, final(self).spec_data().query(), final(self).spec_archetypes()),
            final(self).spec_name() == old(self).spec_name(),
            final(self).spec_data() == old(self).spec_data(),
            final(self).spec_access() == old(self).spec_access(),
            final(self).spec_buffers() == old(self).spec_buffers(),
    {
        self.archetypes = self.data.filter_archetypes(snapshot, &self.access.components);
        proof {
            assert forall|i: int, j: int|
                0 <= i < j < self.spec_buffers().len() implies (
            #[trigger] self.spec_buffers()[i]).spec_world() != (
            #[trigger] self.spec_buffers()[j]).spec_world() by {
                assert(self.buffers@ == old(self).buffers@);
                assert((old(self).spec_buffers()[i]).spec_world() != (
                old(self).spec_buffers()[j]).spec_world());
            }
        }
    }

    /// The adapter's deferred-mutation buffer for `world`, if one exists: what
    /// the replay step will drain after the pass.
    pub fn command_buffer(&self, world: u64) -> (r: Option<&CommandBuffer>)
        requires
            self.wf(),
        ensures
            match r {
                Some(b) => self.spec_has_buffer(world) && b.spec_world() == world
                    && b.spec_commands() == self.spec_buffer_commands(world),
                None => !self.spec_has_buffer(world),
            },
    {
        match find_buffer(&self.buffers, world) {
            Some(i) => {
                proof {
                    lemma_unique_world_index(self.spec_buffers(), world, i as int);
                }
                Some(&self.buffers[i])
            },
            None => None,
        }
    }

    /// Hands the buffered commands for `world` to the external replay step,
    /// atomically: the buffer is left empty but retained for the next pass, so
    /// its backing storage amortizes instead of being reallocated. Buffers of
    /// other worlds, and everything else of the adapter, are untouched.
    pub fn drain_commands(&mut self, world: u64) -> (r: Option<Vec<Command>>)
        requires
            old(self).wf(),
        ensures
            final(self).wf(),
            final(self).spec_name() == old(self).spec_name(),
            final(self).spec_data() == old(self).spec_data(),
            final(self).spec_access() == old(self).spec_access(),
            final(self).spec_archetypes() == old(self).spec_archetypes(),
            match r {
                Some(cmds) => {
                    &&& old(self).spec_has_buffer(world)
                    &&& cmds@ == old(self).spec_buffer_commands(world)
                    &&& final(self).spec_has_buffer(world)
                    &&& final(self).spec_buffer_commands(world) == Seq::<Command>::empty()
                },
                None => !old(self).spec_has_buffer(world) && final(self).spec_buffers() == old(
                    self,
                ).spec_buffers(),
            },
            forall|w2: u64|
                w2 != world ==> #[trigger] final(self).spec_has_buffer(w2) == old(
                    self,
                ).spec_has_buffer(w2),
            forall|w2: u64|
                w2 != world && old(self).spec_has_buffer(w2)
                    ==> #[trigger] final(self).spec_buffer_commands(w2) == old(
                    self,
                ).spec_buffer_commands(w2),
    {
        let i: usize = match find_buffer(&self.buffers, world) {
            Some(i) => i,
            None => {
                return None;
            },
        };
        let ghost orig = self.buffers@;
        let buf = vstd::std_specs::vec::vec_index_mut(&mut self.buffers, i);
        let cmds = buf.drain();
        proof {
            let post = self.buffers@;
            assert(post == orig.update(i as int, post[i as int]));
            assert(post[i as int].spec_world() == world);
            assert forall|a: int, b: int|
                0 <= a < b < post.len() implies (#[trigger] post[a]).spec_world() != (
            #[trigger] post[b]).spec_world() by {
                assert(orig[a].spec_world() != orig[b].spec_world());
                assert(post[a].spec_world() == orig[a].spec_world());
                assert(post[b].spec_world() == orig[b].spec_world());
            }
            lemma_unique_world_index(orig, world, i as int);
            lemma_unique_world_index(post, world, i as int);
            assert(old(self).spec_buffers()[i as int].spec_world() == world);
            assert(old(self).spec_has_buffer(world));
            assert(self.spec_buffers()[i as int].spec_world() == world);
            assert(self.spec_has_buffer(world));
            assert forall|w2: u64|
                w2 != world implies #[trigger] self.spec_has_buffer(w2) == old(
                self,
            ).spec_has_buffer(w2) by {
                if old(self).spec_has_buffer(w2) {
                    let k = choose|k: int|
                        0 <= k < orig.len() && (#[trigger] orig[k]).spec_world() == w2;
                    assert(k != i as int);
                    assert(post[k].spec_world() == w2);
                    assert(self.spec_has_buffer(w2));
                }
                if self.spec_has_buffer(w2) {
                    let k = choose|k: int|
                        0 <= k < post.len() && (#[trigger] post[k]).spec_world() == w2;
                    assert(k != i as int);
                    assert(orig[k].spec_world() == w2);
                    assert(old(self).spec_has_buffer(w2));
                }
            }
            assert forall|w2: u64|
                w2 != world && old(self).spec_has_buffer(w2)
                    implies #[trigger] self.spec_buffer_commands(w2) == old(
                self,
            ).spec_buffer_commands(w2) by {
                let k = choose|k: int| 0 <= k < orig.len() && (#[trigger] orig[k]).spec_world() == w2;
                assert(k != i as int);
                assert(post[k] == orig[k]);
                lemma_unique_world_index(orig, w2, k);
                lemma_unique_world_index(post, w2, k);
            }
        }
        Some(cmds)
    }

    /// One dispatch of the system within a pass: fetches the declared
    /// resources (failing fast on a missing one), builds the restricted world
    /// view scoped to the current filter, obtains — creating on first use —
    /// the private buffer for this world, and invokes the wrapped logic. The
    /// buffer is retained afterwards: it only ever grows during a pass, and
    /// buffers of other worlds are untouched. The filter and the permission
    /// sets never change here.
    pub fn run(&mut self, snapshot: &StorageSnapshot, resources: &Resources) -> (r: Result<
        (),
        SystemError,
    >)
        requires
            old(self).wf(),
        ensures
            final(self).wf(),
            final(self).spec_name() == old(self).spec_name(),
            final(self).spec_data() == old(self).spec_data(),
            final(self).spec_access() == old(self).spec_access(),
            final(self).spec_archetypes() == old(self).spec_archetypes(),
            match first_missing(old(self).spec_access().resources, *resources) {
                Some(id) => {
                    &&& r == Err::<(), SystemError>(SystemError::ResourceMissing(id))
                    &&& final(self).spec_buffers() == old(self).spec_buffers()
                },
                None => {
                    &&& final(self).spec_has_buffer(snapshot.world)
                    &&& (old(self).spec_has_buffer(snapshot.world) ==> old(self).spec_buffer_commands(
                        snapshot.world,
                    ).is_prefix_of(final(self).spec_buffer_commands(snapshot.world)))
                    &&& forall|w: u64|
                        w != snapshot.world ==> #[trigger] final(self).spec_has_buffer(w) == old(
                            self,
                        ).spec_has_buffer(w)
                    &&& forall|w: u64|
                        w != snapshot.world && old(self).spec_has_buffer(w)
                            ==> #[trigger] final(self).spec_buffer_commands(w) == old(
                            self,
                        ).spec_buffer_commands(w)
                },
            },
    {
        let fetched = match fetch(resources, &self.access.resources) {
            Ok(f) => f,
            Err(e) => {
                return Err(e);
            },
        };
        let w = snapshot.world;
        let ghost orig = self.buffers@;
        let ghost existed = old(self).spec_has_buffer(w);
        let i: usize = match find_buffer(&self.buffers, w) {
            Some(i) => {
                proof {
                    assert(old(self).spec_buffers()[i as int].spec_world() == w);
                    assert(existed);
                }
                i
            },
            None => {
                let n = self.buffers.len();
                self.buffers.push(CommandBuffer::new(w));
                proof {
                    assert(!existed) by {
                        if existed {
                            let k = choose|k: int|
                                0 <= k < orig.len() && (#[trigger] orig[k]).spec_world() == w;
                            assert(orig[k].spec_world() != w);
                        }
                    }
                }
                n
            },
        };
        let ghost pre = self.buffers@;
        proof {
            assert(pre[i as int].spec_world() == w);
            assert forall|a: int, b: int|
                0 <= a < b < pre.len() implies (#[trigger] pre[a]).spec_world() != (
            #[trigger] pre[b]).spec_world() by {
                if b < orig.len() as int {
                    assert(orig[a].spec_world() != orig[b].spec_world());
                } else if pre.len() == orig.len() {
                    assert(orig[a].spec_world() != orig[b].spec_world());
                } else {
                    assert(pre[b].spec_world() == w);
                    assert(orig[a].spec_world() != w);
                }
            }
        }
        let view = RestrictedWorldView {
            components: &self.access.components,
            filter: &self.archetypes,
            snapshot,
        };
        let buf = vstd::std_specs::vec::vec_index_mut(&mut self.buffers, i);
        let result = self.system.run(&self.data, &fetched, buf, &view);
        proof {
            let post = self.buffers@;
            assert(post == pre.update(i as int, post[i as int]));
            assert(post[i as int].spec_world() == w);
            assert forall|a: int, b: int|
                0 <= a < b < post.len() implies (#[trigger] post[a]).spec_world() != (
            #[trigger] post[b]).spec_world() by {
                assert(pre[a].spec_world() != pre[b].spec_world());
                assert(post[a].spec_world() == pre[a].spec_world());
                assert(post[b].spec_world() == pre[b].spec_world());
            }
            lemma_unique_world_index(post, w, i as int);
            lemma_unique_world_index(pre, w, i as int);
            assert(self.spec_buffers()[i as int].spec_world() == w);
            assert(self.spec_has_buffer(w));
            if existed {
                assert(orig == old(self).spec_buffers());
                lemma_unique_world_index(orig, w, i as int);
                assert(old(self).spec_buffer_commands(w) == orig[i as int].spec_commands());
                assert(self.spec_buffer_commands(w) == post[i as int].spec_commands());
                assert(orig[i as int] == pre[i as int]);
            }
            assert forall|w2: u64|
                w2 != w implies #[trigger] self.spec_has_buffer(w2) == old(self).spec_has_buffer(
                w2,
            ) by {
                if old(self).spec_has_buffer(w2) {
                    let k = choose|k: int|
                        0 <= k < orig.len() && (#[trigger] orig[k]).spec_world() == w2;
                    assert(k != i as int);
                    assert(pre[k] == orig[k]);
                    assert(post[k].spec_world() == w2);
                    assert(self.spec_has_buffer(w2));
                }
                if self.spec_has_buffer(w2) {
                    let k = choose|k: int|
                        0 <= k < post.len() && (#[trigger] post[k]).spec_world() == w2;
                    assert(k != i as int);
                    assert(post[k] == pre[k]);
                    if k < orig.len() as int {
                        assert(orig[k].spec_world() == w2);
                        assert(old(self).spec_has_buffer(w2));
                    } else {
                        assert(pre[k].spec_world() == w);
                    }
                }
            }
            assert forall|w2: u64|
                w2 != w && old(self).spec_has_buffer(w2) implies #[trigger] self.spec_buffer_commands(
                w2,
            ) == old(self).spec_buffer_commands(w2) by {
                let k = choose|k: int| 0 <= k < orig.len() && (#[trigger] orig[k]).spec_world() == w2;
                assert(k != i as int);
                assert(pre[k] == orig[k]);
                assert(post[k] == orig[k]);
                lemma_unique_world_index(orig, w2, k);
                lemma_unique_world_index(post, w2, k);
            }
        }
        result
    }
}

/// A minimal unit of logic: each run it counts itself and records one
/// deferred entity creation, numbered by its run count.
pub struct CountingSystem {
    pub runs: u64,
}

impl System for CountingSystem {
    type Data = Declaration;

    fn run(
        &mut self,
        data: &Declaration,
        resources: &FetchedResources,
        command_buffer: &mut CommandBuffer,
        world: &RestrictedWorldView<'_>,
    ) -> (r: Result<(), SystemError>) {
        if self.runs < u64::MAX {
            self.runs = self.runs + 1;
        }
        let ghost pre = command_buffer.spec_commands();
        command_buffer.push(Command::CreateEntity(self.runs));
        proof {
            assert(command_buffer.spec_commands().take(pre.len() as int) =~= pre);
        }
        Ok(())
    }
}

/// In a buffer sequence with pairwise distinct worlds, the index holding world
/// `w` is the chosen one.
proof fn lemma_unique_world_index(bufs: Seq<CommandBuffer>, w: u64, i: int)
    requires
        forall|a: int, b: int|
            0 <= a < b < bufs.len() ==> (#[trigger] bufs[a]).spec_world() != (
            #[trigger] bufs[b]).spec_world(),
        0 <= i < bufs.len(),
        bufs[i].spec_world() == w,
    ensures
        (choose|k: int| 0 <= k < bufs.len() && (#[trigger] bufs[k]).spec_world() == w) == i,
{
    let k = choose|k: int| 0 <= k < bufs.len() && (#[trigger] bufs[k]).spec_world() == w;
    assert(bufs[i].spec_world() == w);
    if k < i {
        assert(bufs[k].spec_world() != bufs[i].spec_world());
    } else if k > i {
        assert(bufs[i].spec_world() != bufs[k].spec_world());
    }
}

} // verus!
