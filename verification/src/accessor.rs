//! Typed accessors: a handle together with one component's data.
//!
//! When a kind is defined by holding one component, it is convenient to read
//! the handle and that component's data together. Accessors are constructed
//! only after validating membership: construction fails exactly when the
//! entity does not hold the component. Mutation through the mutable accessor
//! marks the component changed, which change-detection consumers observe.

use vstd::prelude::*;

use crate::entity::{
    slot_lookup, unique_slot_ids, ComponentSlot, EntityId, EntityView,
};
use crate::instance::Instance;
use crate::predicate::Predicate;
use crate::registry::KindRegistry;

verus! {

/// Anything that carries a kind-typed handle.
pub trait ContainsInstance {
    /// The handle this value carries.
    spec fn spec_instance(&self) -> Instance;

    /// Returns the carried handle.
    fn instance(&self) -> (r: Instance)
        ensures
            r == self.spec_instance(),
    ;

    /// Returns the entity of the carried handle.
    fn entity(&self) -> (r: EntityId)
        ensures
            r == self.spec_instance().spec_entity(),
    {
        self.instance().entity()
    }
}

/// A handle together with a read of its kind-defining component, taken from
/// an entity view after validating membership.
#[derive(Clone, Copy, Debug)]
pub struct InstanceRef {
    instance: Instance,
    slot: ComponentSlot,
}

impl InstanceRef {
    /// The component slot the accessor read.
    pub closed spec fn spec_slot(self) -> ComponentSlot {
        self.slot
    }

    /// Reads component `c` from the view and returns it with a handle of
    /// kind `kind`, whose predicate is exactly "holds `c`": succeeds exactly
    /// when the entity holds the component, which is the membership check.
    pub fn from_entity(reg: &KindRegistry, kind: usize, c: usize, view: &EntityView) -> (r: Option<
        InstanceRef,
    >)
        requires
            reg.is_kind(kind),
            reg.pred_of(kind) == Predicate::Has(c),
            unique_slot_ids(view.components@),
        ensures
            r is Some <==> view.spec_has_component(c),
            r is Some <==> reg.spec_matches(kind, view.component_ids()),
            r matches Some(a) ==> {
                &&& a.spec_instance().spec_entity() == view.id
                &&& a.spec_instance().spec_kind() == kind
                &&& Some(a.spec_slot()) == slot_lookup(view.components@, c)
                &&& a.spec_slot().id == c
            },
    {
        match crate::entity::find_slot(&view.components, c) {
            Some(i) => {
                proof {
                    crate::entity::lemma_slot_index_of(view.components@, c);
                }
                Some(
                    InstanceRef {
                        instance: Instance::from_entity_unchecked(view.id, kind),
                        slot: view.components[i],
                    },
                )
            },
            None => None,
        }
    }

    /// The data of the component read.
    pub fn value(&self) -> (r: u64)
        ensures
            r == self.spec_slot().value,
    {
        self.slot.value
    }

    /// Whether change detection had marked the component when it was read.
    pub fn is_changed(&self) -> (r: bool)
        ensures
            r == self.spec_slot().changed,
    {
        self.slot.changed
    }

    /// The component slot the accessor read, by value.
    pub fn to_slot(&self) -> (r: ComponentSlot)
        ensures
            r == self.spec_slot(),
    {
        self.slot
    }
}

impl ContainsInstance for InstanceRef {
    closed spec fn spec_instance(&self) -> Instance {
        self.instance
    }

    fn instance(&self) -> (r: Instance)
        ensures
            r == self.spec_instance(),
    {
        self.instance
    }
}

/// A handle together with mutable access to its kind-defining component.
/// Writing through it marks the component changed.
#[derive(Clone, Copy, Debug)]
pub struct InstanceMut {
    instance: Instance,
    slot: ComponentSlot,
}

impl InstanceMut {
    /// The component slot as the accessor currently holds it.
    pub closed spec fn spec_slot(self) -> ComponentSlot {
        self.slot
    }

    /// Reads component `c` from the view for mutation, with a handle of kind
    /// `kind`, whose predicate is exactly "holds `c`": succeeds exactly when
    /// the entity holds the component.
    pub fn from_entity(reg: &KindRegistry, kind: usize, c: usize, view: &EntityView) -> (r: Option<
        InstanceMut,
    >)
        requires
            reg.is_kind(kind),
            reg.pred_of(kind) == Predicate::Has(c),
            unique_slot_ids(view.components@),
        ensures
            r is Some <==> view.spec_has_component(c),
            r is Some <==> reg.spec_matches(kind, view.component_ids()),
            r matches Some(a) ==> {
                &&& a.spec_instance().spec_entity() == view.id
                &&& a.spec_instance().spec_kind() == kind
                &&& Some(a.spec_slot()) == slot_lookup(view.components@, c)
                &&& a.spec_slot().id == c
            },
    {
        match InstanceRef::from_entity(reg, kind, c, view) {
            Some(a) => Some(InstanceMut { instance: a.instance(), slot: a.to_slot() }),
            None => None,
        }
    }

    /// The component's data as the accessor currently holds it.
    pub fn value(&self) -> (r: u64)
        ensures
            r == self.spec_slot().value,
    {
        self.slot.value
    }

    /// Writes the component's data. The write marks the component changed,
    /// observable to change-detection consumers; the handle is untouched.
    pub fn set_value(&mut self, value: u64)
        ensures
            final(self).spec_instance() == old(self).spec_instance(),
            final(self).spec_slot() == (ComponentSlot {
                id: old(self).spec_slot().id,
                value,
                changed: true,
            }),
    {
        self.slot = ComponentSlot { id: self.slot.id, value, changed: true };
    }

    /// Whether the component is marked changed.
    pub fn is_changed(&self) -> (r: bool)
        ensures
            r == self.spec_slot().changed,
    {
        self.slot.changed
    }

    /// Writes the accessor's component back to the world, as ending a
    /// mutable borrow publishes the write: the slot entity's component takes
    /// the accessor's value and is marked changed. Succeeds exactly when the
    /// world still records the entity with that component.
    pub fn apply(&self, world: &mut crate::world::WorldSnapshot) -> (r: bool)
        requires
            old(world).wf(),
        ensures
            final(world).wf(),
            r == (old(world).spec_contains(self.spec_instance().spec_entity()) && old(
                world,
            ).spec_has(self.spec_instance().spec_entity(), self.spec_slot().id)),
            !r ==> *final(world) == *old(world),
            r ==> {
                &&& old(world).same_except(*final(world), self.spec_instance().spec_entity())
                &&& final(world).spec_get(
                    self.spec_instance().spec_entity(),
                    self.spec_slot().id,
                ) == Some(
                    ComponentSlot { id: self.spec_slot().id, value: self.spec_slot().value, changed: true },
                )
            },
    {
        world.set_component(self.instance.entity(), self.slot.id, self.slot.value)
    }
}

impl ContainsInstance for InstanceMut {
    closed spec fn spec_instance(&self) -> Instance {
        self.instance
    }

    fn instance(&self) -> (r: Instance)
        ensures
            r == self.spec_instance(),
    {
        self.instance
    }
}

/// A handle paired with exclusive access to the world, for code that
/// validates once and then works on the entity at will. It carries only the
/// handle; the exclusive world access is the borrow the caller already
/// holds.
#[derive(Clone, Copy, Debug)]
pub struct InstanceWorldMut {
    instance: Instance,
}

impl InstanceWorldMut {
    /// Wraps an entity known to be of kind `kind` with no validation; the
    /// caller owes the membership fact.
    pub fn from_entity_unchecked(entity: EntityId, kind: usize) -> (r: InstanceWorldMut)
        ensures
            r.spec_instance().spec_entity() == entity,
            r.spec_instance().spec_kind() == kind,
    {
        InstanceWorldMut { instance: Instance::from_entity_unchecked(entity, kind) }
    }

    /// Wraps the viewed entity exactly when it holds component `c`, the
    /// membership test of kind `kind`.
    pub fn from_entity(reg: &KindRegistry, kind: usize, c: usize, view: &EntityView) -> (r: Option<
        InstanceWorldMut,
    >)
        requires
            reg.is_kind(kind),
            reg.pred_of(kind) == Predicate::Has(c),
        ensures
            r is Some <==> view.spec_has_component(c),
            r is Some <==> reg.spec_matches(kind, view.component_ids()),
            r matches Some(a) ==> a.spec_instance().spec_entity() == view.id
                && a.spec_instance().spec_kind() == kind,
    {
        if view.has_component(c) {
            Some(InstanceWorldMut { instance: Instance::from_entity_unchecked(view.id, kind) })
        } else {
            None
        }
    }
}

impl ContainsInstance for InstanceWorldMut {
    closed spec fn spec_instance(&self) -> Instance {
        self.instance
    }

    fn instance(&self) -> (r: Instance)
        ensures
            r == self.spec_instance(),
    {
        self.instance
    }
}

} // verus!
