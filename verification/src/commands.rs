//! Deferred, kind-typed commands for one entity.
//!
//! The host engine applies deferred commands later; here they are recorded
//! against a handle, so that code designing commands for a specific kind of
//! entity stays type-safe. Every recorded command targets the handle's
//! entity — the accessor is constructed under that invariant and every
//! operation preserves it. What applying the commands does to the world is
//! the host's business, not this crate's.

use vstd::prelude::*;

use crate::accessor::ContainsInstance;
use crate::entity::{EntityId, EntityView};
use crate::instance::{CastError, Instance};
use crate::predicate::Predicate;
use crate::registry::KindRegistry;

verus! {

/// One deferred mutation, addressed to an entity by id.
#[derive(Clone, Copy, Debug, PartialEq, Eq, Structural)]
pub enum Command {
    /// Insert a component with the given data.
    Insert { entity: EntityId, component: usize, value: u64 },
    /// Remove a component.
    Remove { entity: EntityId, component: usize },
    /// Despawn the entity.
    Despawn { entity: EntityId },
}

impl Command {
    /// The entity the command is addressed to.
    pub open spec fn spec_target(self) -> EntityId {
        match self {
            Command::Insert { entity, .. } => entity,
            Command::Remove { entity, .. } => entity,
            Command::Despawn { entity } => entity,
        }
    }
}

/// A deferred-mutation proxy for one kind-typed handle: commands recorded
/// here all target the handle's entity.
#[derive(Debug)]
pub struct InstanceCommands {
    instance: Instance,
    commands: Vec<Command>,
}

impl InstanceCommands {
    /// The commands recorded so far, in order.
    pub closed spec fn spec_commands(self) -> Seq<Command> {
        self.commands@
    }

    /// The proxy's invariant: every recorded command targets the handle's
    /// entity.
    pub open spec fn wf(self) -> bool {
        forall|i: int|
            0 <= i < self.spec_commands().len() ==> (#[trigger] self.spec_commands()[i]).spec_target()
                == self.spec_instance().spec_entity()
    }

    /// An empty command list for an existing handle, as the command queue
    /// hands one out for an instance.
    pub fn for_instance(instance: Instance) -> (r: InstanceCommands)
        ensures
            r.wf(),
            r.spec_instance() == instance,
            r.spec_commands().len() == 0,
    {
        InstanceCommands { instance, commands: Vec::new() }
    }

    /// An empty command list over an entity taken to be of kind `kind` with
    /// no validation; the caller owes the membership fact.
    pub fn from_entity_unchecked(entity: EntityId, kind: usize) -> (r: InstanceCommands)
        ensures
            r.wf(),
            r.spec_instance().spec_entity() == entity,
            r.spec_instance().spec_kind() == kind,
            r.spec_commands().len() == 0,
    {
        InstanceCommands { instance: Instance::from_entity_unchecked(entity, kind), commands: Vec::new() }
    }

    /// An empty command list over the viewed entity, exactly when it holds
    /// component `c` — the membership test of kind `kind`.
    pub fn from_entity(reg: &KindRegistry, kind: usize, c: usize, view: &EntityView) -> (r: Option<
        InstanceCommands,
    >)
        requires
            reg.is_kind(kind),
            reg.pred_of(kind) == Predicate::Has(c),
        ensures
            r is Some <==> view.spec_has_component(c),
            r is Some <==> reg.spec_matches(kind, view.component_ids()),
            r matches Some(a) ==> {
                &&& a.wf()
                &&& a.spec_instance().spec_entity() == view.id
                &&& a.spec_instance().spec_kind() == kind
                &&& a.spec_commands().len() == 0
            },
    {
        if view.has_component(c) {
            Some(
                InstanceCommands {
                    instance: Instance::from_entity_unchecked(view.id, kind),
                    commands: Vec::new(),
                },
            )
        } else {
            None
        }
    }

    /// Records a deferred insert of component `c` with the given data on the
    /// handle's entity.
    pub fn insert(&mut self, c: usize, value: u64)
        requires
            old(self).wf(),
        ensures
            final(self).wf(),
            final(self).spec_instance() == old(self).spec_instance(),
            final(self).spec_commands() == old(self).spec_commands().push(
                Command::Insert {
                    entity: old(self).spec_instance().spec_entity(),
                    component: c,
                    value,
                },
            ),
    {
        let entity = self.instance.entity();
        self.commands.push(Command::Insert { entity, component: c, value });
        proof {
            assert forall|i: int|
                0 <= i < self.spec_commands().len() implies (#[trigger] self.spec_commands()[i]).spec_target()
                == self.spec_instance().spec_entity() by {
                if i < old(self).spec_commands().len() {
                    assert(self.spec_commands()[i] == old(self).spec_commands()[i]);
                }
            }
        }
    }

    /// Records a deferred removal of component `c` from the handle's entity.
    pub fn remove(&mut self, c: usize)
        requires
            old(self).wf(),
        ensures
            final(self).wf(),
            final(self).spec_instance() == old(self).spec_instance(),
            final(self).spec_commands() == old(self).spec_commands().push(
                Command::Remove { entity: old(self).spec_instance().spec_entity(), component: c },
            ),
    {
        let entity = self.instance.entity();
        self.commands.push(Command::Remove { entity, component: c });
        proof {
            assert forall|i: int|
                0 <= i < self.spec_commands().len() implies (#[trigger] self.spec_commands()[i]).spec_target()
                == self.spec_instance().spec_entity() by {
                if i < old(self).spec_commands().len() {
                    assert(self.spec_commands()[i] == old(self).spec_commands()[i]);
                }
            }
        }
    }

    /// Records a deferred despawn of the handle's entity.
    pub fn despawn(&mut self)
        requires
            old(self).wf(),
        ensures
            final(self).wf(),
            final(self).spec_instance() == old(self).spec_instance(),
            final(self).spec_commands() == old(self).spec_commands().push(
                Command::Despawn { entity: old(self).spec_instance().spec_entity() },
            ),
    {
        let entity = self.instance.entity();
        self.commands.push(Command::Despawn { entity });
        proof {
            assert forall|i: int|
                0 <= i < self.spec_commands().len() implies (#[trigger] self.spec_commands()[i]).spec_target()
                == self.spec_instance().spec_entity() by {
                if i < old(self).spec_commands().len() {
                    assert(self.spec_commands()[i] == old(self).spec_commands()[i]);
                }
            }
        }
    }

    /// The recorded commands, for the host to apply in order.
    pub fn commands(&self) -> (r: &Vec<Command>)
        ensures
            r@ == self.spec_commands(),
    {
        &self.commands
    }

    /// Safely re-tags the proxy's handle, exactly as [`Instance::cast_into`]
    /// does; the recorded commands are kept, and they still target the same
    /// entity.
    pub fn cast_into(self, reg: &KindRegistry, target: usize) -> (r: Result<
        InstanceCommands,
        CastError,
    >)
        requires
            self.wf(),
        ensures
            match r {
                Ok(a) => {
                    &&& reg.spec_castable(self.spec_instance().spec_kind(), target)
                    &&& a.wf()
                    &&& a.spec_instance() == self.spec_instance().spec_cast(target)
                    &&& a.spec_commands() == self.spec_commands()
                },
                Err(e) => {
                    &&& !reg.spec_castable(self.spec_instance().spec_kind(), target)
                    &&& e == (CastError { from: self.spec_instance().spec_kind(), to: target })
                },
            },
    {
        match self.instance.cast_into(reg, target) {
            Ok(instance) => {
                let r = InstanceCommands { instance, commands: self.commands };
                proof {
                    assert forall|i: int|
                        0 <= i < r.spec_commands().len() implies (#[trigger] r.spec_commands()[i]).spec_target()
                        == r.spec_instance().spec_entity() by {
                        assert(r.spec_commands()[i] == self.spec_commands()[i]);
                    }
                }
                Ok(r)
            },
            Err(e) => Err(e),
        }
    }
}

impl ContainsInstance for InstanceCommands {
    closed spec fn spec_instance(&self) -> Instance {
        self.instance
    }

    fn instance(&self) -> (r: Instance)
        ensures
            r == self.spec_instance(),
    {
        self.instance
    }
}

} // verus!
