//! Kind-typed entity handles.
//!
//! An [`Instance`] pairs an entity id with a kind discriminant. It owns no
//! resources and adds no storage beyond the discriminant: it is a typed view
//! of an entity id. Handles are created by checked construction against an
//! entity view, by unchecked construction when the caller already owes the
//! membership fact, or by casting an existing handle along a declared rule.
//!
//! Identity is the entity id alone: two handles over the same id compare
//! equal whatever their kinds, because the kind is a view of the entity, not
//! part of its identity.

use vstd::prelude::*;

use crate::entity::{EntityId, EntityView};
use crate::registry::{KindRegistry, ANY_KIND};

verus! {

use vstd::std_specs::cmp::PartialEqSpec;

/// The error of a refused safe cast: no rule from `from` to `to` was
/// declared. It names both kinds so the caller can tell exactly which
/// reinterpretation was rejected. A safe cast never silently succeeds
/// without a declared rule.
#[derive(Clone, Copy, Debug, PartialEq, Eq, Structural)]
pub struct CastError {
    /// The kind the handle had.
    pub from: usize,
    /// The kind the cast asked for.
    pub to: usize,
}

/// An entity handle tagged with a kind discriminant.
///
/// A handle produced by a validated constructor refers to an entity that
/// matched the kind's predicate at construction time, or is the designated
/// placeholder. Only the explicitly named unchecked constructor and cast
/// bypass that check, and their callers bear the proof obligation.
#[derive(Clone, Copy, Debug)]
pub struct Instance {
    entity: EntityId,
    kind: usize,
}

impl Instance {
    /// The entity id the handle refers to.
    pub closed spec fn spec_entity(self) -> EntityId {
        self.entity
    }

    /// The kind discriminant the handle is tagged with.
    pub closed spec fn spec_kind(self) -> usize {
        self.kind
    }

    /// The handle re-tagged with kind `k`: same entity, new kind.
    pub closed spec fn spec_cast(self, k: usize) -> Instance {
        Instance { entity: self.entity, kind: k }
    }

    /// Creates a handle from an entity id with no validation.
    ///
    /// Use only immediately after an operation known to establish that the
    /// entity is a member of kind `kind`: the caller owes that fact, and
    /// nothing here checks it.
    pub fn from_entity_unchecked(entity: EntityId, kind: usize) -> (r: Instance)
        ensures
            r.spec_entity() == entity,
            r.spec_kind() == kind,
    {
        Instance { entity, kind }
    }

    /// Checked construction: a handle of kind `kind` over the viewed entity,
    /// exactly when the view satisfies the kind's predicate. Reads only
    /// membership facts and mutates nothing.
    pub fn from_entity(reg: &KindRegistry, kind: usize, view: &EntityView) -> (r: Option<
        Instance,
    >)
        requires
            reg.is_kind(kind),
        ensures
            r is Some <==> reg.spec_matches(kind, view.component_ids()),
            r matches Some(i) ==> i.spec_entity() == view.id && i.spec_kind() == kind,
    {
        if reg.matches(kind, view) {
            Some(Instance { entity: view.id, kind })
        } else {
            None
        }
    }

    /// The placeholder handle of kind `kind`, bound to no real entity.
    pub fn placeholder(kind: usize) -> (r: Instance)
        ensures
            r.spec_entity() == EntityId::spec_placeholder(),
            r.spec_kind() == kind,
    {
        Instance { entity: EntityId::placeholder(), kind }
    }

    /// The entity id of this handle.
    pub fn entity(&self) -> (r: EntityId)
        ensures
            r == self.spec_entity(),
    {
        self.entity
    }

    /// The kind discriminant of this handle.
    pub fn kind(&self) -> (r: usize)
        ensures
            r == self.spec_kind(),
    {
        self.kind
    }

    /// Safe cast: re-tags the handle as kind `target` exactly when the
    /// registry permits it — identity, the universal kind, or a declared
    /// rule. On success the entity id is preserved; otherwise the cast is
    /// refused with an error naming both kinds. No membership is re-checked:
    /// correctness rests on the declared rules, which
    /// [`KindRegistry::declare_rule`] keeps sound.
    pub fn cast_into(self, reg: &KindRegistry, target: usize) -> (r: Result<Instance, CastError>)
        ensures
            match r {
                Ok(j) => {
                    &&& reg.spec_castable(self.spec_kind(), target)
                    &&& j == self.spec_cast(target)
                    &&& j.spec_entity() == self.spec_entity()
                    &&& j.spec_kind() == target
                },
                Err(e) => {
                    &&& !reg.spec_castable(self.spec_kind(), target)
                    &&& e == (CastError { from: self.spec_kind(), to: target })
                },
            },
    {
        if reg.is_castable(self.kind, target) {
            Ok(Instance { entity: self.entity, kind: target })
        } else {
            Err(CastError { from: self.kind, to: target })
        }
    }

    /// Casts the handle to the universal kind. Every handle is a member of
    /// it, so this needs no declaration and cannot fail.
    pub fn cast_into_any(self) -> (r: Instance)
        ensures
            r == self.spec_cast(ANY_KIND),
            r.spec_entity() == self.spec_entity(),
            r.spec_kind() == ANY_KIND,
    {
        Instance { entity: self.entity, kind: ANY_KIND }
    }

    /// Unchecked cast: re-tags the handle as kind `target` with no rule
    /// lookup. This is the one dangerous primitive the safe cast is built
    /// on; the caller owes that the entity is a member of `target`.
    pub fn cast_into_unchecked(self, target: usize) -> (r: Instance)
        ensures
            r == self.spec_cast(target),
            r.spec_entity() == self.spec_entity(),
            r.spec_kind() == target,
    {
        Instance { entity: self.entity, kind: target }
    }

    /// Re-targets the handle at a new entity id, as a raw id would be
    /// remapped on a world merge. The kind tag is untouched.
    pub fn map_entity(&mut self, target: EntityId)
        ensures
            final(self).spec_entity() == target,
            final(self).spec_kind() == old(self).spec_kind(),
    {
        self.entity = target;
    }
}

impl PartialEq for Instance {
    /// Handle identity is the entity id alone: the kind tag is a view and
    /// plays no part in comparisons.
    fn eq(&self, other: &Instance) -> (r: bool) {
        self.entity == other.entity
    }
}

impl vstd::std_specs::cmp::PartialEqSpecImpl for Instance {
    open spec fn obeys_eq_spec() -> bool {
        true
    }

    open spec fn eq_spec(&self, other: &Instance) -> bool {
        self.spec_entity() == other.spec_entity()
    }
}

impl Eq for Instance {

}

impl PartialEq<EntityId> for Instance {
    /// A handle equals a raw entity id exactly when it refers to it.
    fn eq(&self, other: &EntityId) -> (r: bool) {
        self.entity == *other
    }
}

impl vstd::std_specs::cmp::PartialEqSpecImpl<EntityId> for Instance {
    open spec fn obeys_eq_spec() -> bool {
        true
    }

    open spec fn eq_spec(&self, other: &EntityId) -> bool {
        self.spec_entity() == *other
    }
}

impl PartialEq<Instance> for EntityId {
    /// A raw entity id equals a handle exactly when the handle refers to it.
    fn eq(&self, other: &Instance) -> (r: bool) {
        *self == other.entity
    }
}

impl vstd::std_specs::cmp::PartialEqSpecImpl<Instance> for EntityId {
    open spec fn obeys_eq_spec() -> bool {
        true
    }

    open spec fn eq_spec(&self, other: &Instance) -> bool {
        *self == other.spec_entity()
    }
}

impl PartialOrd for Instance {
    /// Handles order purely by the underlying entity id, the tag playing no
    /// part: first by index, then by generation.
    fn partial_cmp(&self, other: &Instance) -> (r: Option<core::cmp::Ordering>) {
        if self.entity.index < other.entity.index {
            Some(core::cmp::Ordering::Less)
        } else if self.entity.index > other.entity.index {
            Some(core::cmp::Ordering::Greater)
        } else if self.entity.generation < other.entity.generation {
            Some(core::cmp::Ordering::Less)
        } else if self.entity.generation > other.entity.generation {
            Some(core::cmp::Ordering::Greater)
        } else {
            Some(core::cmp::Ordering::Equal)
        }
    }
}

impl vstd::std_specs::cmp::PartialOrdSpecImpl for Instance {
    open spec fn obeys_partial_cmp_spec() -> bool {
        true
    }

    open spec fn partial_cmp_spec(&self, other: &Instance) -> Option<core::cmp::Ordering> {
        if self.spec_entity().index < other.spec_entity().index {
            Some(core::cmp::Ordering::Less)
        } else if self.spec_entity().index > other.spec_entity().index {
            Some(core::cmp::Ordering::Greater)
        } else if self.spec_entity().generation < other.spec_entity().generation {
            Some(core::cmp::Ordering::Less)
        } else if self.spec_entity().generation > other.spec_entity().generation {
            Some(core::cmp::Ordering::Greater)
        } else {
            Some(core::cmp::Ordering::Equal)
        }
    }
}

/// Two handles are one value exactly when both projections agree; a handle
/// holds nothing else.
pub proof fn lemma_instance_ext(a: Instance, b: Instance)
    requires
        a.spec_entity() == b.spec_entity(),
        a.spec_kind() == b.spec_kind(),
    ensures
        a == b,
{
}

/// Identity ignores the tag: two handles compare equal exactly when they
/// refer to the same entity, whatever kinds they are tagged with.
pub proof fn lemma_identity_ignores_kind(a: Instance, b: Instance)
    ensures
        a.eq_spec(&b) <==> a.spec_entity() == b.spec_entity(),
{
}

/// Casting along any chain and then to the universal kind lands on the same
/// handle as casting to the universal kind directly: the entity id is all a
/// cast preserves, and the universal tag is the same either way.
pub proof fn lemma_cast_then_any_is_any(i: Instance, b: usize)
    ensures
        i.spec_cast(b).spec_cast(ANY_KIND) == i.spec_cast(ANY_KIND),
{
}

/// Cast soundness for handles: a safe cast preserves the entity id, and an
/// entity that is a member of the source kind is a member of the target
/// kind, so the invariant a validated handle carries survives the cast.
pub proof fn lemma_cast_preserves_membership(
    reg: KindRegistry,
    i: Instance,
    target: usize,
    comps: Seq<usize>,
)
    requires
        reg.wf(),
        reg.is_kind(i.spec_kind()),
        reg.is_kind(target),
        reg.spec_castable(i.spec_kind(), target),
        reg.spec_matches(i.spec_kind(), comps),
    ensures
        reg.spec_matches(target, comps),
        i.spec_cast(target).spec_entity() == i.spec_entity(),
{
    reg.lemma_castable_sound(i.spec_kind(), target, comps);
}

} // verus!
