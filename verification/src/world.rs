//! A component-membership view of a world.
//!
//! The external storage engine owns entities and components; this crate
//! reasons over a [`WorldSnapshot`] of the facts it consumes: which entities
//! exist, which components each holds, and which entity each is related to
//! under the traversal relation. Entities are recorded in spawn order, and a
//! related entity always precedes the entities that point at it — the natural
//! order for a parent-like relation, and the reason every traversal chain
//! terminates.

use vstd::prelude::*;

use crate::entity::{unique_slot_ids, ComponentSlot, EntityId, EntityView};
use crate::instance::Instance;
use crate::predicate::Predicate;
use crate::registry::KindRegistry;

verus! {

/// The ids of all matching entities, in snapshot order: the entities whose
/// component membership satisfies kind `kind`'s predicate.
pub open spec fn matching_ids(views: Seq<EntityView>, reg: KindRegistry, kind: usize) -> Seq<
    EntityId,
>
    decreases views.len(),
{
    if views.len() == 0 {
        Seq::empty()
    } else {
        let rest = matching_ids(views.drop_last(), reg, kind);
        if reg.spec_matches(kind, views.last().component_ids()) {
            rest.push(views.last().id)
        } else {
            rest
        }
    }
}

/// A snapshot of the world's membership facts, in spawn order.
pub struct WorldSnapshot {
    entities: Vec<EntityView>,
}

impl WorldSnapshot {
    /// The recorded entity views, in spawn order.
    pub closed spec fn views(self) -> Seq<EntityView> {
        self.entities@
    }

    /// How many entities the snapshot records.
    pub open spec fn spec_len(self) -> nat {
        self.views().len()
    }

    /// Whether the snapshot records entity `id`.
    pub open spec fn spec_contains(self, id: EntityId) -> bool {
        exists|i: int| 0 <= i < self.views().len() && self.views()[i].id == id
    }

    /// The position of entity `id` in spawn order.
    pub open spec fn spec_index_of(self, id: EntityId) -> int {
        choose|i: int| 0 <= i < self.views().len() && self.views()[i].id == id
    }

    /// The recorded view of entity `id`.
    pub open spec fn view_of(self, id: EntityId) -> EntityView {
        self.views()[self.spec_index_of(id)]
    }

    /// The component ids entity `id` currently holds.
    pub open spec fn spec_component_ids_of(self, id: EntityId) -> Seq<usize> {
        self.view_of(id).component_ids()
    }

    /// Whether entity `id` holds component `c`.
    pub open spec fn spec_has(self, id: EntityId, c: usize) -> bool {
        self.spec_component_ids_of(id).contains(c)
    }

    /// The slot entity `id` holds for component `c`, if any.
    pub open spec fn spec_get(self, id: EntityId, c: usize) -> Option<ComponentSlot> {
        crate::entity::slot_lookup(self.view_of(id).components@, c)
    }

    /// The entity `id` is related to, if any.
    pub open spec fn spec_related_of(self, id: EntityId) -> Option<EntityId> {
        self.view_of(id).related
    }

    /// The snapshot's invariant: entity ids are unique, every entity's slot
    /// list holds each component at most once, and a related entity is
    /// always recorded earlier than the entities that point at it.
    pub open spec fn wf(self) -> bool {
        &&& forall|i: int, j: int|
            0 <= i < j < self.views().len() ==> self.views()[i].id != self.views()[j].id
        &&& forall|i: int|
            0 <= i < self.views().len() ==> unique_slot_ids(#[trigger] self.views()[i].components@)
        &&& forall|i: int|
            0 <= i < self.views().len() ==> match #[trigger] self.views()[i].related {
                Some(p) => exists|j: int| 0 <= j < i && self.views()[j].id == p,
                None => true,
            }
    }

    /// A recorded entity has exactly one position, and `spec_index_of` finds
    /// it.
    pub proof fn lemma_index_of(self, id: EntityId)
        requires
            self.wf(),
            self.spec_contains(id),
        ensures
            0 <= self.spec_index_of(id) < self.views().len(),
            self.views()[self.spec_index_of(id)].id == id,
            forall|i: int|
                0 <= i < self.views().len() && self.views()[i].id == id ==> i == self.spec_index_of(
                    id,
                ),
    {
        let w = self.spec_index_of(id);
        assert forall|i: int|
            0 <= i < self.views().len() && self.views()[i].id == id implies i == w by {
            if i < w {
                assert(self.views()[i].id != self.views()[w].id);
            } else if w < i {
                assert(self.views()[w].id != self.views()[i].id);
            }
        }
    }

    /// A related entity is recorded, and strictly earlier in spawn order
    /// than the entity that points at it: the traversal relation only ever
    /// hops backwards, so every chain terminates.
    pub proof fn lemma_related_is_earlier(self, id: EntityId)
        requires
            self.wf(),
            self.spec_contains(id),
            self.spec_related_of(id) is Some,
        ensures
            self.spec_contains(self.spec_related_of(id)->Some_0),
            self.spec_index_of(self.spec_related_of(id)->Some_0) < self.spec_index_of(id),
    {
        let p = self.spec_related_of(id)->Some_0;
        self.lemma_index_of(id);
        let i = self.spec_index_of(id);
        let j = choose|j: int| 0 <= j < i && self.views()[j].id == p;
        assert(self.spec_contains(p));
        self.lemma_index_of(p);
    }

    /// Creates an empty snapshot.
    pub fn new() -> (r: WorldSnapshot)
        ensures
            r.wf(),
            r.spec_len() == 0,
            forall|id: EntityId| !r.spec_contains(id),
    {
        WorldSnapshot { entities: Vec::new() }
    }

    /// Finds the position of entity `id` in spawn order.
    fn position_of(&self, id: EntityId) -> (r: Option<usize>)
        requires
            self.wf(),
        ensures
            match r {
                Some(i) => self.spec_contains(id) && i == self.spec_index_of(id),
                None => !self.spec_contains(id),
            },
    {
        let mut i: usize = 0;
        while i < self.entities.len()
            invariant
                self.wf(),
                i <= self.views().len(),
                forall|j: int| 0 <= j < i ==> self.views()[j].id != id,
            decreases self.views().len() - i,
        {
            if self.entities[i].id == id {
                proof {
                    assert(self.spec_contains(id));
                    self.lemma_index_of(id);
                }
                return Some(i);
            }
            i = i + 1;
        }
        None
    }

    /// Whether the snapshot records entity `id`.
    pub fn contains_entity(&self, id: EntityId) -> (r: bool)
        requires
            self.wf(),
        ensures
            r == self.spec_contains(id),
    {
        self.position_of(id).is_some()
    }

    /// The recorded view of entity `id`, if the snapshot records it.
    pub fn get_view(&self, id: EntityId) -> (r: Option<&EntityView>)
        requires
            self.wf(),
        ensures
            match r {
                Some(v) => self.spec_contains(id) && *v == self.view_of(id),
                None => !self.spec_contains(id),
            },
    {
        match self.position_of(id) {
            Some(i) => Some(&self.entities[i]),
            None => None,
        }
    }

    /// Whether `view` can be recorded: its entity is new to the snapshot,
    /// its slots hold each component at most once, and the entity it points
    /// at, if any, is already recorded.
    pub open spec fn can_spawn(self, view: EntityView) -> bool {
        &&& !self.spec_contains(view.id)
        &&& unique_slot_ids(view.components@)
        &&& match view.related {
            Some(p) => self.spec_contains(p),
            None => true,
        }
    }

    /// Frame: `other` records the same entities as `self`, and every entity
    /// but `id` has the same view in both.
    pub open spec fn same_except(self, other: WorldSnapshot, id: EntityId) -> bool {
        &&& other.spec_len() == self.spec_len()
        &&& forall|e: EntityId| other.spec_contains(e) == self.spec_contains(e)
        &&& forall|e: EntityId|
            e != id && self.spec_contains(e) ==> other.view_of(e) == self.view_of(e)
        &&& forall|e: EntityId|
            self.spec_contains(e) ==> other.spec_index_of(e) == self.spec_index_of(e)
    }

    /// Records a new entity, spawned by the external engine. Succeeds
    /// exactly when [`WorldSnapshot::can_spawn`] allows the view; on
    /// failure, nothing changes. Membership established here is what checked
    /// handle construction later validates against.
    pub fn spawn_entity(&mut self, view: EntityView) -> (r: bool)
        requires
            old(self).wf(),
        ensures
            final(self).wf(),
            r == old(self).can_spawn(view),
            !r ==> *final(self) == *old(self),
            r ==> final(self).views() == old(self).views().push(view),
            r ==> final(self).spec_contains(view.id) && final(self).view_of(view.id) == view,
            r ==> forall|e: EntityId|
                final(self).spec_contains(e) == (old(self).spec_contains(e) || e == view.id),
            r ==> forall|e: EntityId|
                old(self).spec_contains(e) ==> final(self).view_of(e) == old(self).view_of(e)
                    && final(self).spec_index_of(e) == old(self).spec_index_of(e),
    {
        let can = match &view.related {
            Some(p) => self.contains_entity(*p),
            None => true,
        };
        let can = can && !self.contains_entity(view.id) && slots_unique(&view.components);
        if !can {
            return false;
        }
        let ghost oldw = *self;
        let ghost v = view;
        self.entities.push(view);
        proof {
            let n = oldw.views().len() as int;
            assert(self.views() == oldw.views().push(v));
            assert(self.views()[n] == v);
            assert forall|e: EntityId|
                self.spec_contains(e) == (oldw.spec_contains(e) || e == v.id) by {
                if oldw.spec_contains(e) {
                    let i = choose|i: int| 0 <= i < oldw.views().len() && oldw.views()[i].id == e;
                    assert(self.views()[i].id == e);
                }
                if e == v.id {
                    assert(self.views()[n].id == e);
                }
                if self.spec_contains(e) {
                    let i = choose|i: int| 0 <= i < self.views().len() && self.views()[i].id == e;
                    if i < n {
                        assert(oldw.views()[i].id == e);
                    }
                }
            }
            assert(self.wf()) by {
                assert forall|i: int|
                    0 <= i < self.views().len() implies unique_slot_ids(
                    #[trigger] self.views()[i].components@,
                ) by {
                    if i < n {
                        assert(self.views()[i] == oldw.views()[i]);
                        assert(unique_slot_ids(oldw.views()[i].components@));
                    } else {
                        assert(self.views()[i] == v);
                    }
                }
                assert forall|i: int, j: int|
                    0 <= i < j < self.views().len() implies self.views()[i].id
                    != self.views()[j].id by {
                    if j < n {
                        assert(oldw.views()[i].id != oldw.views()[j].id);
                    } else {
                        assert(self.views()[j] == v);
                        assert(oldw.views()[i].id == self.views()[i].id);
                        assert(!oldw.spec_contains(v.id));
                        if oldw.views()[i].id == v.id {
                            assert(oldw.spec_contains(v.id));
                        }
                    }
                }
                assert forall|i: int|
                    0 <= i < self.views().len() implies match #[trigger] self.views()[i].related {
                    Some(p) => exists|j: int| 0 <= j < i && self.views()[j].id == p,
                    None => true,
                } by {
                    if i < n {
                        assert(self.views()[i] == oldw.views()[i]);
                        match oldw.views()[i].related {
                            Some(p) => {
                                let j = choose|j: int| 0 <= j < i && oldw.views()[j].id == p;
                                assert(self.views()[j].id == p);
                            },
                            None => {},
                        }
                    } else {
                        match v.related {
                            Some(p) => {
                                assert(oldw.spec_contains(p));
                                let j = choose|j: int|
                                    0 <= j < n && oldw.views()[j].id == p;
                                assert(self.views()[j].id == p);
                            },
                            None => {},
                        }
                    }
                }
            }
            self.lemma_index_of(v.id);
            assert(self.views()[n].id == v.id);
            assert(self.view_of(v.id) == v);
            assert forall|e: EntityId| oldw.spec_contains(e) implies self.view_of(e)
                == oldw.view_of(e) && self.spec_index_of(e) == oldw.spec_index_of(e) by {
                oldw.lemma_index_of(e);
                let i = oldw.spec_index_of(e);
                assert(self.views()[i].id == e);
                self.lemma_index_of(e);
            }
        }
        true
    }

    /// Spawns a new entity and returns a handle of kind `kind` for it,
    /// exactly when the view can be recorded and already satisfies the
    /// kind's predicate; otherwise nothing changes. The handle is valid by
    /// construction: the spawn itself established membership.
    pub fn spawn_instance(&mut self, reg: &KindRegistry, kind: usize, view: EntityView) -> (r:
        Option<Instance>)
        requires
            old(self).wf(),
            reg.is_kind(kind),
        ensures
            final(self).wf(),
            r is Some <==> (old(self).can_spawn(view) && reg.spec_matches(
                kind,
                view.component_ids(),
            )),
            r is None ==> *final(self) == *old(self),
            r matches Some(i) ==> {
                &&& i.spec_entity() == view.id
                &&& i.spec_kind() == kind
                &&& final(self).views() == old(self).views().push(view)
                &&& final(self).spec_contains(view.id)
                &&& final(self).view_of(view.id) == view
                &&& reg.spec_matches(kind, final(self).spec_component_ids_of(view.id))
                &&& forall|e: EntityId|
                    old(self).spec_contains(e) ==> final(self).view_of(e) == old(self).view_of(e)
            },
    {
        if !reg.matches(kind, &view) {
            return None;
        }
        let id = view.id;
        if self.spawn_entity(view) {
            Some(Instance::from_entity_unchecked(id, kind))
        } else {
            None
        }
    }
    /// Writes component `c` on entity `id`, as the deferred insert command
    /// does when the host applies it: overwriting or adding the slot, and
    /// marking it changed. Succeeds exactly when the entity is recorded; on
    /// failure, nothing changes.
    pub fn insert_component(&mut self, id: EntityId, c: usize, value: u64) -> (r: bool)
        requires
            old(self).wf(),
        ensures
            final(self).wf(),
            r == old(self).spec_contains(id),
            !r ==> *final(self) == *old(self),
            r ==> {
                &&& old(self).same_except(*final(self), id)
                &&& final(self).spec_get(id, c) == Some(
                    ComponentSlot { id: c, value, changed: true },
                )
                &&& forall|c2: usize|
                    c2 != c ==> final(self).spec_get(id, c2) == old(self).spec_get(id, c2)
                &&& forall|c2: usize|
                    final(self).spec_has(id, c2) == (old(self).spec_has(id, c2) || c2 == c)
                &&& final(self).spec_related_of(id) == old(self).spec_related_of(id)
            },
    {
        let pos = match self.position_of(id) {
            Some(i) => i,
            None => {
                return false;
            },
        };
        let ghost oldw = *self;
        proof {
            oldw.lemma_index_of(id);
        }
        let ent = &mut self.entities[pos];
        proof {
            assert(unique_slot_ids(ent.components@));
        }
        crate::entity::upsert_slot(&mut ent.components, c, value);
        proof {
            lemma_update_entity(oldw, *self, pos as int, id);
            assert(self.view_of(id) == self.views()[pos as int]);
        }
        true
    }

    /// Removes component `c` from entity `id`, as the deferred remove
    /// command does when the host applies it; removing a component the
    /// entity does not hold is a no-op. Succeeds exactly when the entity is
    /// recorded; on failure, nothing changes.
    pub fn remove_component(&mut self, id: EntityId, c: usize) -> (r: bool)
        requires
            old(self).wf(),
        ensures
            final(self).wf(),
            r == old(self).spec_contains(id),
            !r ==> *final(self) == *old(self),
            r ==> {
                &&& old(self).same_except(*final(self), id)
                &&& final(self).spec_get(id, c) == None::<ComponentSlot>
                &&& forall|c2: usize|
                    c2 != c ==> final(self).spec_get(id, c2) == old(self).spec_get(id, c2)
                &&& forall|c2: usize|
                    final(self).spec_has(id, c2) == (old(self).spec_has(id, c2) && c2 != c)
                &&& final(self).spec_related_of(id) == old(self).spec_related_of(id)
            },
    {
        let pos = match self.position_of(id) {
            Some(i) => i,
            None => {
                return false;
            },
        };
        let ghost oldw = *self;
        proof {
            oldw.lemma_index_of(id);
        }
        let ent = &mut self.entities[pos];
        proof {
            assert(unique_slot_ids(ent.components@));
        }
        crate::entity::remove_slot(&mut ent.components, c);
        proof {
            lemma_update_entity(oldw, *self, pos as int, id);
        }
        true
    }

    /// Reads the slot entity `id` holds for component `c`: its value and
    /// its change mark.
    pub fn get_component(&self, id: EntityId, c: usize) -> (r: Option<ComponentSlot>)
        requires
            self.wf(),
        ensures
            self.spec_contains(id) ==> r == self.spec_get(id, c),
            !self.spec_contains(id) ==> r is None,
    {
        let pos = match self.position_of(id) {
            Some(i) => i,
            None => {
                return None;
            },
        };
        proof {
            self.lemma_index_of(id);
        }
        match crate::entity::find_slot(&self.entities[pos].components, c) {
            Some(s) => {
                proof {
                    crate::entity::lemma_slot_index_of(self.views()[pos as int].components@, c);
                }
                Some(self.entities[pos].components[s])
            },
            None => None,
        }
    }

    /// Overwrites the value of component `c` on entity `id` and marks the
    /// slot changed, as mutation through a mutable accessor does. Succeeds
    /// exactly when the entity is recorded and holds the component; on
    /// failure, nothing changes.
    pub fn set_component(&mut self, id: EntityId, c: usize, value: u64) -> (r: bool)
        requires
            old(self).wf(),
        ensures
            final(self).wf(),
            r == (old(self).spec_contains(id) && old(self).spec_has(id, c)),
            !r ==> *final(self) == *old(self),
            r ==> {
                &&& old(self).same_except(*final(self), id)
                &&& final(self).spec_get(id, c) == Some(
                    ComponentSlot { id: c, value, changed: true },
                )
                &&& forall|c2: usize|
                    c2 != c ==> final(self).spec_get(id, c2) == old(self).spec_get(id, c2)
                &&& forall|c2: usize| final(self).spec_has(id, c2) == old(self).spec_has(id, c2)
                &&& final(self).spec_related_of(id) == old(self).spec_related_of(id)
            },
    {
        let pos = match self.position_of(id) {
            Some(i) => i,
            None => {
                return false;
            },
        };
        proof {
            self.lemma_index_of(id);
        }
        if crate::entity::find_slot(&self.entities[pos].components, c).is_none() {
            return false;
        }
        self.insert_component(id, c, value)
    }

    /// A handle of kind `kind` over entity `id`, exactly when the entity is
    /// recorded and currently satisfies the kind's predicate. Reads only
    /// membership facts and mutates nothing.
    pub fn get_instance(&self, reg: &KindRegistry, kind: usize, id: EntityId) -> (r: Option<
        Instance,
    >)
        requires
            self.wf(),
            reg.is_kind(kind),
        ensures
            r is Some <==> (self.spec_contains(id) && reg.spec_matches(
                kind,
                self.spec_component_ids_of(id),
            )),
            r matches Some(i) ==> i.spec_entity() == id && i.spec_kind() == kind,
    {
        match self.get_view(id) {
            Some(view) => Instance::from_entity(reg, kind, view),
            None => None,
        }
    }

    /// Iterates the snapshot as a kind-filtered query would: one handle of
    /// kind `kind` for each entity whose membership satisfies the kind's
    /// predicate, in snapshot order, and no other. The handles carry no
    /// predicate state of their own: the filter is the registered predicate.
    pub fn query_kind(&self, reg: &KindRegistry, kind: usize) -> (r: Vec<Instance>)
        requires
            self.wf(),
            reg.is_kind(kind),
        ensures
            r@.len() == matching_ids(self.views(), *reg, kind).len(),
            forall|j: int|
                0 <= j < r@.len() ==> (#[trigger] r@[j]).spec_entity() == matching_ids(
                    self.views(),
                    *reg,
                    kind,
                )[j] && r@[j].spec_kind() == kind,
    {
        let ghost all = matching_ids(self.views(), *reg, kind);
        let mut out: Vec<Instance> = Vec::new();
        let mut i: usize = 0;
        while i < self.entities.len()
            invariant
                self.wf(),
                reg.is_kind(kind),
                i <= self.views().len(),
                out@.len() == matching_ids(self.views().take(i as int), *reg, kind).len(),
                forall|j: int|
                    0 <= j < out@.len() ==> (#[trigger] out@[j]).spec_entity() == matching_ids(
                        self.views().take(i as int),
                        *reg,
                        kind,
                    )[j] && out@[j].spec_kind() == kind,
            decreases self.views().len() - i,
        {
            proof {
                assert(self.views().take(i + 1).drop_last() =~= self.views().take(i as int));
                assert(self.views().take(i + 1).last() == self.views()[i as int]);
            }
            let v = &self.entities[i];
            if reg.matches(kind, v) {
                out.push(Instance::from_entity_unchecked(v.id, kind));
            }
            i = i + 1;
        }
        proof {
            assert(self.views().take(self.views().len() as int) =~= self.views());
        }
        out
    }

    /// Inserts component `c` on entity `id` and returns a handle of the
    /// kind whose predicate is exactly "holds `c`": once the insert has
    /// happened, the entity is a member of that kind by construction.
    /// Succeeds exactly when the entity is recorded; on failure, nothing
    /// changes.
    pub fn insert_instance(
        &mut self,
        reg: &KindRegistry,
        kind: usize,
        c: usize,
        value: u64,
        id: EntityId,
    ) -> (r: Option<Instance>)
        requires
            old(self).wf(),
            reg.is_kind(kind),
            reg.pred_of(kind) == Predicate::Has(c),
        ensures
            final(self).wf(),
            r is Some <==> old(self).spec_contains(id),
            r is None ==> *final(self) == *old(self),
            r matches Some(i) ==> {
                &&& i.spec_entity() == id
                &&& i.spec_kind() == kind
                &&& old(self).same_except(*final(self), id)
                &&& final(self).spec_has(id, c)
                &&& reg.spec_matches(kind, final(self).spec_component_ids_of(id))
                &&& final(self).spec_get(id, c) == Some(
                    ComponentSlot { id: c, value, changed: true },
                )
            },
    {
        if self.insert_component(id, c, value) {
            Some(Instance::from_entity_unchecked(id, kind))
        } else {
            None
        }
    }
}

/// One entity's record changed in place, its id and relation kept: what
/// stays the same across the snapshot.
proof fn lemma_update_entity(oldw: WorldSnapshot, neww: WorldSnapshot, pos: int, id: EntityId)
    requires
        oldw.wf(),
        0 <= pos < oldw.views().len(),
        oldw.views()[pos].id == id,
        neww.views().len() == oldw.views().len(),
        forall|k: int|
            0 <= k < oldw.views().len() && k != pos ==> neww.views()[k] == oldw.views()[k],
        neww.views()[pos].id == id,
        neww.views()[pos].related == oldw.views()[pos].related,
        unique_slot_ids(neww.views()[pos].components@),
    ensures
        neww.wf(),
        oldw.spec_contains(id),
        neww.spec_contains(id),
        neww.spec_index_of(id) == pos,
        oldw.spec_index_of(id) == pos,
        neww.view_of(id) == neww.views()[pos],
        oldw.view_of(id) == oldw.views()[pos],
        oldw.same_except(neww, id),
        neww.spec_related_of(id) == oldw.spec_related_of(id),
{
    assert(oldw.spec_contains(id));
    assert(neww.spec_contains(id));
    assert forall|k: int| 0 <= k < neww.views().len() implies #[trigger] neww.views()[k].id
        == oldw.views()[k].id by {}
    assert(neww.wf()) by {
        assert forall|i: int|
            0 <= i < neww.views().len() implies unique_slot_ids(
            #[trigger] neww.views()[i].components@,
        ) by {
            if i != pos {
                assert(neww.views()[i] == oldw.views()[i]);
                assert(unique_slot_ids(oldw.views()[i].components@));
            }
        }
        assert forall|i: int|
            0 <= i < neww.views().len() implies match #[trigger] neww.views()[i].related {
            Some(p) => exists|j: int| 0 <= j < i && neww.views()[j].id == p,
            None => true,
        } by {
            assert(neww.views()[i].related == oldw.views()[i].related);
            match oldw.views()[i].related {
                Some(p) => {
                    let j = choose|j: int| 0 <= j < i && oldw.views()[j].id == p;
                    assert(neww.views()[j].id == p);
                },
                None => {},
            }
        }
    }
    oldw.lemma_index_of(id);
    neww.lemma_index_of(id);
    assert forall|e: EntityId| neww.spec_contains(e) == oldw.spec_contains(e) by {
        if oldw.spec_contains(e) {
            let i = choose|i: int| 0 <= i < oldw.views().len() && oldw.views()[i].id == e;
            assert(neww.views()[i].id == e);
        }
        if neww.spec_contains(e) {
            let i = choose|i: int| 0 <= i < neww.views().len() && neww.views()[i].id == e;
            assert(oldw.views()[i].id == e);
        }
    }
    assert forall|e: EntityId| oldw.spec_contains(e) implies neww.spec_index_of(e)
        == oldw.spec_index_of(e) && (e != id ==> neww.view_of(e) == oldw.view_of(e)) by {
        oldw.lemma_index_of(e);
        let i = oldw.spec_index_of(e);
        assert(neww.views()[i].id == e);
        neww.lemma_index_of(e);
        if e != id {
            assert(i != pos);
        }
    }
}

/// Tests whether a slot list holds each component id at most once.
fn slots_unique(slots: &Vec<ComponentSlot>) -> (r: bool)
    ensures
        r == unique_slot_ids(slots@),
{
    let mut i: usize = 0;
    while i < slots.len()
        invariant
            i <= slots@.len(),
            forall|p: int, q: int| 0 <= p < q < slots@.len() && q < i ==> slots@[p].id != slots@[q].id,
        decreases slots@.len() - i,
    {
        let mut j: usize = 0;
        while j < i
            invariant
                j <= i,
                i < slots@.len(),
                forall|p: int| 0 <= p < j ==> slots@[p].id != slots@[i as int].id,
            decreases i - j,
        {
            if slots[j].id == slots[i].id {
                return false;
            }
            j = j + 1;
        }
        i = i + 1;
    }
    true
}

} // verus!
