//! The deferred-mutation buffer.
//!
//! A system never mutates the world directly during a pass: it records
//! mutation commands in a private buffer owned by its adapter, one buffer per
//! (system, world) pair. After the pass an external replay step drains the
//! buffer atomically; the buffer object itself is retained, so its backing
//! storage amortizes across passes instead of being reallocated.
use vstd::prelude::*;

verus! {

/// One buffered world mutation, over plain identities: entities and component
/// or resource identities.
#[derive(Clone, Copy, Debug, PartialEq, Eq, Structural)]
pub enum Command {
    CreateEntity(u64),
    DestroyEntity(u64),
    AddComponent(u64, u64),
    RemoveComponent(u64, u64),
    SetResource(u64),
}

/// A self-draining buffer of deferred mutation commands, tagged with the
/// identity of the world the commands target.
pub struct CommandBuffer {
    world: u64,
    commands: Vec<Command>,
}

impl CommandBuffer {
    /// The world this buffer's commands target.
    pub closed spec fn spec_world(&self) -> u64 {
        self.world
    }

    /// The commands buffered so far, in the order they were recorded.
    pub closed spec fn spec_commands(&self) -> Seq<Command> {
        self.commands@
    }

    pub fn new(world: u64) -> (r: CommandBuffer)
        ensures
            r.spec_world() == world,
            r.spec_commands() == Seq::<Command>::empty(),
    {
        CommandBuffer { world, commands: Vec::new() }
    }

    pub fn world_id(&self) -> (r: u64)
        ensures
            r == self.spec_world(),
    {
        self.world
    }

    /// Appends one command; earlier commands are never reordered or dropped.
    pub fn push(&mut self, c: Command)
        ensures
            final(self).spec_world() == old(self).spec_world(),
            final(self).spec_commands() == old(self).spec_commands().push(c),
    {
        self.commands.push(c);
    }

    pub fn len(&self) -> (r: usize)
        ensures
            r == self.spec_commands().len(),
    {
        self.commands.len()
    }

    pub fn get(&self, i: usize) -> (r: Command)
        requires
            i < self.spec_commands().len(),
        ensures
            r == self.spec_commands()[i as int],
    {
        self.commands[i]
    }

    /// Hands every buffered command to the replay step, atomically: the
    /// result holds them all, in order, and the buffer is left empty but
    /// alive, still tagged with its world.
    pub fn drain(&mut self) -> (r: Vec<Command>)
        ensures
            final(self).spec_world() == old(self).spec_world(),
            final(self).spec_commands() == Seq::<Command>::empty(),
            r@ == old(self).spec_commands(),
    {
        let mut out: Vec<Command> = Vec::new();
        core::mem::swap(&mut out, &mut self.commands);
        out
    }
}

} // verus!
