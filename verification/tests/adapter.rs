use system_access::access::{
    permissions_for, AccessDescriptor, AccessKind, Category, SystemError,
};
use system_access::filter::ArchetypeAccess;
use system_access::buffer::{Command, CommandBuffer};
use system_access::filter::{Archetype, QueryPredicate, StorageSnapshot};
use system_access::schedule::{
    CountingSystem, Declaration, System, SystemData, SystemWrapper,
};
use system_access::world::{fetch, FetchedResources, Resources, RestrictedWorldView};
use system_access::IdentityRegistry;

const POSITION: u64 = 1;
const VELOCITY: u64 = 2;
const RESOURCE_X: u64 = 50;

fn empty_declaration() -> Declaration {
    Declaration {
        accesses: vec![],
        predicate: QueryPredicate {
            must_have: vec![],
            must_lack: vec![],
        },
    }
}

fn snapshot(world: u64, archetypes: Vec<Archetype>) -> StorageSnapshot {
    StorageSnapshot { world, archetypes }
}

#[test]
fn registry_mints_deterministic_sequential_identities() {
    let mut reg = IdentityRegistry::new();
    assert_eq!(reg.mint(), 0);
    assert_eq!(reg.mint(), 1);
    assert_eq!(reg.mint(), 2);
}

#[test]
fn registration_rejects_conflicting_declarations() {
    let decl = Declaration {
        accesses: vec![
            AccessDescriptor::Read(Category::Component, POSITION),
            AccessDescriptor::Write(Category::Component, POSITION),
        ],
        predicate: QueryPredicate {
            must_have: vec![],
            must_lack: vec![],
        },
    };
    let r = SystemWrapper::new(String::from("conflicted"), decl, CountingSystem { runs: 0 });
    match r {
        Err(e) => assert_eq!(
            e,
            SystemError::DeclarationConflict(Category::Component, POSITION)
        ),
        Ok(_) => panic!("a system reading and writing the same identity must be rejected"),
    }
}

#[test]
fn adapter_exposes_name_reads_and_writes() {
    let decl = Declaration {
        accesses: vec![
            AccessDescriptor::Read(Category::Resource, RESOURCE_X),
            AccessDescriptor::Write(Category::Component, POSITION),
            AccessDescriptor::Read(Category::Component, VELOCITY),
        ],
        predicate: QueryPredicate {
            must_have: vec![POSITION, VELOCITY],
            must_lack: vec![],
        },
    };
    let w = SystemWrapper::new(String::from("update positions"), decl, CountingSystem { runs: 0 })
        .unwrap();
    assert_eq!(w.name().as_str(), "update positions");
    let (res_reads, comp_reads) = w.reads();
    assert_eq!(res_reads, &vec![RESOURCE_X]);
    assert_eq!(comp_reads, &vec![VELOCITY]);
    let (res_writes, comp_writes) = w.writes();
    assert!(res_writes.is_empty());
    assert_eq!(comp_writes, &vec![POSITION]);
}

#[test]
fn prepare_picks_up_new_archetypes_never_retroactively() {
    let decl = Declaration {
        accesses: vec![AccessDescriptor::Read(Category::Component, POSITION)],
        predicate: QueryPredicate {
            must_have: vec![POSITION],
            must_lack: vec![],
        },
    };
    let mut w =
        SystemWrapper::new(String::from("watcher"), decl, CountingSystem { runs: 0 }).unwrap();
    let resources = Resources::new();

    let s1 = snapshot(0, vec![]);
    w.prepare(&s1);
    assert!(!w.accesses_archetypes().allows(4));

    // A matching archetype appears mid-pass: running against the new snapshot
    // does not admit it retroactively.
    let s2 = snapshot(0, vec![Archetype {
        id: 4,
        components: vec![POSITION],
        entities: vec![7],
    }]);
    w.run(&s2, &resources).unwrap();
    assert!(!w.accesses_archetypes().allows(4));

    // The next prepare picks it up.
    w.prepare(&s2);
    assert!(w.accesses_archetypes().allows(4));
}

#[test]
fn run_fails_fast_on_a_missing_resource() {
    let decl = Declaration {
        accesses: vec![AccessDescriptor::Read(Category::Resource, RESOURCE_X)],
        predicate: QueryPredicate {
            must_have: vec![],
            must_lack: vec![],
        },
    };
    let mut w =
        SystemWrapper::new(String::from("needs x"), decl, CountingSystem { runs: 0 }).unwrap();
    let mut resources = Resources::new();
    let s = snapshot(0, vec![]);
    assert_eq!(
        w.run(&s, &resources).unwrap_err(),
        SystemError::ResourceMissing(RESOURCE_X)
    );
    // Once the resource is registered the run goes through.
    resources.register(RESOURCE_X);
    assert!(w.run(&s, &resources).is_ok());
}

#[test]
fn buffer_persists_across_passes_and_drains_atomically() {
    let mut w = SystemWrapper::new(
        String::from("counter"),
        empty_declaration(),
        CountingSystem { runs: 0 },
    )
    .unwrap();
    let resources = Resources::new();
    let world_nine = snapshot(9, vec![]);

    assert!(w.command_buffer(9).is_none());
    w.run(&world_nine, &resources).unwrap();
    assert_eq!(w.command_buffer(9).unwrap().len(), 1);

    // Second pass against the same world: the same buffer, grown, not a fresh
    // one.
    w.run(&world_nine, &resources).unwrap();
    let buf = w.command_buffer(9).unwrap();
    assert_eq!(buf.len(), 2);
    assert_eq!(buf.get(0), Command::CreateEntity(1));
    assert_eq!(buf.get(1), Command::CreateEntity(2));

    // Another world gets its own buffer; world nine's is untouched.
    let world_three = snapshot(3, vec![]);
    w.run(&world_three, &resources).unwrap();
    assert_eq!(w.command_buffer(9).unwrap().len(), 2);
    assert_eq!(w.command_buffer(3).unwrap().len(), 1);

    // The replay step drains atomically; the buffer stays alive and empty.
    let drained = w.drain_commands(9).unwrap();
    assert_eq!(
        drained,
        vec![Command::CreateEntity(1), Command::CreateEntity(2)]
    );
    assert_eq!(w.command_buffer(9).unwrap().len(), 0);
    assert_eq!(w.command_buffer(3).unwrap().len(), 1);
    assert!(w.drain_commands(5).is_none());
}

/// A system that attempts an undeclared mutable component access.
struct MutablePoker {
    target: u64,
}

impl System for MutablePoker {
    type Data = Declaration;

    fn run(
        &mut self,
        _data: &Declaration,
        _resources: &FetchedResources,
        _command_buffer: &mut CommandBuffer,
        world: &RestrictedWorldView<'_>,
    ) -> Result<(), SystemError> {
        match world.get_component_mut(7, self.target) {
            Err(e) => Err(e),
            Ok(_) => Ok(()),
        }
    }
}

#[test]
fn undeclared_mutable_access_is_a_violation_naming_the_identity() {
    // The system declares only a resource read; component writes were never
    // declared.
    let decl = Declaration {
        accesses: vec![AccessDescriptor::Read(Category::Resource, RESOURCE_X)],
        predicate: QueryPredicate {
            must_have: vec![],
            must_lack: vec![],
        },
    };
    let mut w =
        SystemWrapper::new(String::from("poker"), decl, MutablePoker { target: POSITION }).unwrap();
    let mut resources = Resources::new();
    resources.register(RESOURCE_X);
    let s = snapshot(0, vec![Archetype {
        id: 0,
        components: vec![POSITION],
        entities: vec![7],
    }]);
    w.prepare(&s);
    assert_eq!(
        w.run(&s, &resources).unwrap_err(),
        SystemError::AccessViolation {
            identity: POSITION,
            attempted: AccessKind::Write,
            declared: AccessKind::NoAccess,
        }
    );
}

#[test]
fn declared_reader_may_not_write_but_writer_may_read() {
    let descs = vec![
        AccessDescriptor::Read(Category::Component, VELOCITY),
        AccessDescriptor::Write(Category::Component, POSITION),
    ];
    let perms = permissions_for(&descs, Category::Component).unwrap();
    let s = snapshot(0, vec![Archetype {
        id: 0,
        components: vec![POSITION, VELOCITY],
        entities: vec![7],
    }]);
    let all = ArchetypeAccess::All;
    let view = RestrictedWorldView {
        components: &perms,
        filter: &all,
        snapshot: &s,
    };
    // Reading a declared read, and reading a declared write, both succeed.
    assert_eq!(view.get_component(7, VELOCITY).unwrap(), Some(0));
    assert_eq!(view.get_component(7, POSITION).unwrap(), Some(0));
    // Writing a declared write succeeds; writing a mere read is a violation.
    assert_eq!(view.get_component_mut(7, POSITION).unwrap(), Some(0));
    assert_eq!(
        view.get_component_mut(7, VELOCITY).unwrap_err(),
        SystemError::AccessViolation {
            identity: VELOCITY,
            attempted: AccessKind::Write,
            declared: AccessKind::Read,
        }
    );
    // Reading an identity that was never declared at all is a violation too.
    assert_eq!(view.get_component(7, 99).unwrap_err(), SystemError::AccessViolation {
        identity: 99,
        attempted: AccessKind::Read,
        declared: AccessKind::NoAccess,
    });
}

#[test]
fn fetch_reports_the_first_missing_resource() {
    let descs = vec![
        AccessDescriptor::Read(Category::Resource, 1),
        AccessDescriptor::Read(Category::Resource, 2),
        AccessDescriptor::Write(Category::Resource, 3),
    ];
    let perms = permissions_for(&descs, Category::Resource).unwrap();
    let mut resources = Resources::new();
    resources.register(1);
    resources.register(3);
    assert_eq!(
        fetch(&resources, &perms).unwrap_err(),
        SystemError::ResourceMissing(2)
    );
    resources.register(2);
    let fetched = fetch(&resources, &perms).unwrap();
    assert_eq!(fetched.read_ids, vec![1, 2]);
    assert_eq!(fetched.write_ids, vec![3]);
}

#[test]
fn command_buffer_drains_in_order_and_keeps_its_world() {
    let mut b = CommandBuffer::new(5);
    assert_eq!(b.world_id(), 5);
    b.push(Command::AddComponent(1, POSITION));
    b.push(Command::RemoveComponent(1, VELOCITY));
    b.push(Command::DestroyEntity(2));
    b.push(Command::SetResource(RESOURCE_X));
    assert_eq!(b.len(), 4);
    let drained = b.drain();
    assert_eq!(
        drained,
        vec![
            Command::AddComponent(1, POSITION),
            Command::RemoveComponent(1, VELOCITY),
            Command::DestroyEntity(2),
            Command::SetResource(RESOURCE_X),
        ]
    );
    assert_eq!(b.len(), 0);
    assert_eq!(b.world_id(), 5);
}

#[test]
fn declaration_exposes_its_permissions() {
    let decl = Declaration {
        accesses: vec![
            AccessDescriptor::Read(Category::Resource, RESOURCE_X),
            AccessDescriptor::Write(Category::Component, POSITION),
        ],
        predicate: QueryPredicate {
            must_have: vec![POSITION],
            must_lack: vec![],
        },
    };
    let res = decl.resource_permissions().unwrap();
    assert!(res.can_read(RESOURCE_X));
    assert!(!res.can_write(RESOURCE_X));
    let comp = decl.component_permissions().unwrap();
    assert!(comp.can_write(POSITION));
}
