//! Entity identities and per-entity membership views.

use vstd::prelude::*;

verus! {

/// The index an entity id uses to mark the designated placeholder, which is
/// bound to no real entity.
pub const PLACEHOLDER_INDEX: u32 = 0xFFFF_FFFF;

/// An opaque entity identity: an index paired with a generation counter.
///
/// Ids are issued by the external storage engine; this crate only compares
/// and stores them. Two ids denote the same entity exactly when both fields
/// agree.
#[derive(Clone, Copy, Debug, PartialEq, Eq, Structural, Hash)]
pub struct EntityId {
    /// Slot index within the storage engine.
    pub index: u32,
    /// Reuse generation of the slot.
    pub generation: u32,
}

impl EntityId {
    /// The designated placeholder id, bound to no real entity.
    pub fn placeholder() -> (r: EntityId)
        ensures
            r == EntityId::spec_placeholder(),
    {
        EntityId { index: PLACEHOLDER_INDEX, generation: 0 }
    }

    /// The placeholder id as a specification value.
    pub open spec fn spec_placeholder() -> EntityId {
        EntityId { index: PLACEHOLDER_INDEX, generation: 0 }
    }
}

/// One component attached to an entity: the component's id, its data, and
/// whether change detection has marked it since it was last observed.
#[derive(Clone, Copy, Debug, PartialEq, Eq, Structural)]
pub struct ComponentSlot {
    /// Which component this slot holds.
    pub id: usize,
    /// The component's data.
    pub value: u64,
    /// Set when the slot was written through a mutating accessor.
    pub changed: bool,
}

/// The component ids present in a sequence of slots: the membership facts
/// the kind predicates read.
pub open spec fn ids_of(slots: Seq<ComponentSlot>) -> Seq<usize> {
    slots.map_values(|s: ComponentSlot| s.id)
}

/// Whether a slot list holds each component id at most once.
pub open spec fn unique_slot_ids(slots: Seq<ComponentSlot>) -> bool {
    forall|p: int, q: int| 0 <= p < q < slots.len() ==> slots[p].id != slots[q].id
}

/// The position of component `c` in a slot list.
pub open spec fn slot_index_of(slots: Seq<ComponentSlot>, c: usize) -> int {
    choose|i: int| 0 <= i < slots.len() && slots[i].id == c
}

/// The slot holding component `c`, if any.
pub open spec fn slot_lookup(slots: Seq<ComponentSlot>, c: usize) -> Option<ComponentSlot> {
    if ids_of(slots).contains(c) {
        Some(slots[slot_index_of(slots, c)])
    } else {
        None
    }
}

/// In a duplicate-free slot list, a held component has exactly one slot, and
/// `slot_index_of` finds it.
pub proof fn lemma_slot_index_of(slots: Seq<ComponentSlot>, c: usize)
    requires
        unique_slot_ids(slots),
        ids_of(slots).contains(c),
    ensures
        0 <= slot_index_of(slots, c) < slots.len(),
        slots[slot_index_of(slots, c)].id == c,
        forall|i: int| 0 <= i < slots.len() && slots[i].id == c ==> i == slot_index_of(slots, c),
{
    let j = choose|j: int| 0 <= j < ids_of(slots).len() && ids_of(slots)[j] == c;
    assert(slots[j].id == c);
    let w = slot_index_of(slots, c);
    assert forall|i: int| 0 <= i < slots.len() && slots[i].id == c implies i == w by {
        if i < w {
            assert(slots[i].id != slots[w].id);
        } else if w < i {
            assert(slots[w].id != slots[i].id);
        }
    }
}

/// A snapshot of one entity: its component slots, and the entity this one is
/// related to under the traversal relation, if any.
#[derive(Debug)]
pub struct EntityView {
    /// The entity this view describes.
    pub id: EntityId,
    /// The components currently attached to the entity.
    pub components: Vec<ComponentSlot>,
    /// The related entity reached by one traversal hop, if any.
    pub related: Option<EntityId>,
}

impl EntityView {
    /// The ids of the components attached to the viewed entity.
    pub open spec fn component_ids(&self) -> Seq<usize> {
        ids_of(self.components@)
    }

    /// Whether the viewed entity currently holds the component `c`.
    pub open spec fn spec_has_component(&self, c: usize) -> bool {
        self.component_ids().contains(c)
    }

    /// Tests whether the viewed entity holds the component `c`.
    pub fn has_component(&self, c: usize) -> (r: bool)
        ensures
            r == self.spec_has_component(c),
    {
        find_slot(&self.components, c).is_some()
    }
}

/// Writes component `c` into a slot list: overwrites the slot already
/// holding `c`, or appends a new one. Either way the written slot carries
/// the new value and is marked changed; every other slot is untouched.
pub fn upsert_slot(slots: &mut Vec<ComponentSlot>, c: usize, value: u64)
    requires
        unique_slot_ids(old(slots)@),
    ensures
        unique_slot_ids(final(slots)@),
        slot_lookup(final(slots)@, c) == Some(ComponentSlot { id: c, value, changed: true }),
        forall|c2: usize| c2 != c ==> slot_lookup(final(slots)@, c2) == slot_lookup(old(slots)@, c2),
        forall|c2: usize|
            ids_of(final(slots)@).contains(c2) == (ids_of(old(slots)@).contains(c2) || c2 == c),
{
    let ghost olds = slots@;
    let slot = ComponentSlot { id: c, value, changed: true };
    match find_slot(slots, c) {
        Some(i) => {
            slots[i] = slot;
            proof {
                lemma_slot_index_of(olds, c);
                assert(i == slot_index_of(olds, c));
                assert(slots@ == olds.update(i as int, slot));
                lemma_upsert_update(olds, slots@, i as int, c, value);
            }
        },
        None => {
            slots.push(slot);
            proof {
                lemma_upsert_push(olds, slots@, c, value);
            }
        },
    }
}

/// Removes component `c` from a slot list, if a slot holds it; reports
/// whether one did. Every other slot is untouched.
pub fn remove_slot(slots: &mut Vec<ComponentSlot>, c: usize) -> (r: bool)
    requires
        unique_slot_ids(old(slots)@),
    ensures
        unique_slot_ids(final(slots)@),
        r == ids_of(old(slots)@).contains(c),
        !r ==> final(slots)@ == old(slots)@,
        slot_lookup(final(slots)@, c) == None::<ComponentSlot>,
        forall|c2: usize| c2 != c ==> slot_lookup(final(slots)@, c2) == slot_lookup(old(slots)@, c2),
        forall|c2: usize|
            ids_of(final(slots)@).contains(c2) == (ids_of(old(slots)@).contains(c2) && c2 != c),
{
    let ghost olds = slots@;
    match find_slot(slots, c) {
        Some(i) => {
            slots.remove(i);
            proof {
                lemma_slot_index_of(olds, c);
                assert(i == slot_index_of(olds, c));
                lemma_remove_at(olds, slots@, i as int, c);
            }
            true
        },
        None => false,
    }
}

/// What overwriting one slot does to the lookups of a duplicate-free list.
proof fn lemma_upsert_update(olds: Seq<ComponentSlot>, news: Seq<ComponentSlot>, i: int, c: usize, value: u64)
    requires
        unique_slot_ids(olds),
        0 <= i < olds.len(),
        olds[i].id == c,
        news == olds.update(i, ComponentSlot { id: c, value, changed: true }),
    ensures
        unique_slot_ids(news),
        slot_lookup(news, c) == Some(ComponentSlot { id: c, value, changed: true }),
        forall|c2: usize| c2 != c ==> slot_lookup(news, c2) == slot_lookup(olds, c2),
        forall|c2: usize| ids_of(news).contains(c2) == (ids_of(olds).contains(c2) || c2 == c),
{
    assert forall|k: int| 0 <= k < news.len() implies #[trigger] news[k].id == olds[k].id by {}
    assert(unique_slot_ids(news));
    lemma_same_ids_same_contains(olds, news);
    assert(ids_of(olds).contains(c)) by {
        assert(ids_of(olds)[i] == c);
    }
    assert(ids_of(news).contains(c));
    lemma_slot_index_of(news, c);
    assert(news[i].id == c);
    assert(slot_index_of(news, c) == i);
    assert forall|c2: usize| c2 != c implies slot_lookup(news, c2) == slot_lookup(olds, c2) by {
        if ids_of(olds).contains(c2) {
            lemma_slot_index_of(olds, c2);
            lemma_slot_index_of(news, c2);
            let j = slot_index_of(olds, c2);
            assert(news[j].id == c2);
            assert(slot_index_of(news, c2) == j);
            assert(j != i);
            assert(news[j] == olds[j]);
        }
    }
}

/// What appending a fresh slot does to the lookups of a duplicate-free list.
proof fn lemma_upsert_push(olds: Seq<ComponentSlot>, news: Seq<ComponentSlot>, c: usize, value: u64)
    requires
        unique_slot_ids(olds),
        !ids_of(olds).contains(c),
        news == olds.push(ComponentSlot { id: c, value, changed: true }),
    ensures
        unique_slot_ids(news),
        slot_lookup(news, c) == Some(ComponentSlot { id: c, value, changed: true }),
        forall|c2: usize| c2 != c ==> slot_lookup(news, c2) == slot_lookup(olds, c2),
        forall|c2: usize| ids_of(news).contains(c2) == (ids_of(olds).contains(c2) || c2 == c),
{
    let n = olds.len() as int;
    assert forall|k: int| 0 <= k < n implies news[k] == olds[k] by {}
    assert(unique_slot_ids(news)) by {
        assert forall|p: int, q: int| 0 <= p < q < news.len() implies news[p].id != news[q].id by {
            if q < n {
                assert(olds[p].id != olds[q].id);
            } else {
                assert(news[q].id == c);
                if olds[p].id == c {
                    assert(ids_of(olds)[p] == c);
                }
            }
        }
    }
    assert forall|c2: usize|
        ids_of(news).contains(c2) == (ids_of(olds).contains(c2) || c2 == c) by {
        if ids_of(olds).contains(c2) {
            let j = choose|j: int| 0 <= j < ids_of(olds).len() && ids_of(olds)[j] == c2;
            assert(ids_of(news)[j] == c2);
        }
        if c2 == c {
            assert(ids_of(news)[n] == c);
        }
        if ids_of(news).contains(c2) {
            let j = choose|j: int| 0 <= j < ids_of(news).len() && ids_of(news)[j] == c2;
            if j < n {
                assert(ids_of(olds)[j] == c2);
            }
        }
    }
    assert(ids_of(news)[n] == c);
    lemma_slot_index_of(news, c);
    assert(news[n].id == c);
    assert(slot_index_of(news, c) == n);
    assert forall|c2: usize| c2 != c implies slot_lookup(news, c2) == slot_lookup(olds, c2) by {
        if ids_of(olds).contains(c2) {
            lemma_slot_index_of(olds, c2);
            lemma_slot_index_of(news, c2);
            let j = slot_index_of(olds, c2);
            assert(news[j].id == c2);
            assert(slot_index_of(news, c2) == j);
        }
    }
}

/// What removing one slot does to the lookups of a duplicate-free list.
proof fn lemma_remove_at(olds: Seq<ComponentSlot>, news: Seq<ComponentSlot>, i: int, c: usize)
    requires
        unique_slot_ids(olds),
        0 <= i < olds.len(),
        olds[i].id == c,
        news == olds.remove(i),
    ensures
        unique_slot_ids(news),
        slot_lookup(news, c) == None::<ComponentSlot>,
        forall|c2: usize| c2 != c ==> slot_lookup(news, c2) == slot_lookup(olds, c2),
        forall|c2: usize| ids_of(news).contains(c2) == (ids_of(olds).contains(c2) && c2 != c),
{
    assert(news.len() == olds.len() - 1);
    assert forall|k: int| 0 <= k < news.len() implies #[trigger] news[k] == (if k < i {
        olds[k]
    } else {
        olds[k + 1]
    }) by {}
    assert(unique_slot_ids(news)) by {
        assert forall|p: int, q: int| 0 <= p < q < news.len() implies news[p].id != news[q].id by {
            let p0: int = if p < i { p } else { p + 1 };
            let q0: int = if q < i { q } else { q + 1 };
            assert(olds[p0].id != olds[q0].id);
        }
    }
    assert forall|c2: usize|
        ids_of(news).contains(c2) == (ids_of(olds).contains(c2) && c2 != c) by {
        if ids_of(news).contains(c2) {
            let j = choose|j: int| 0 <= j < ids_of(news).len() && ids_of(news)[j] == c2;
            let j0: int = if j < i { j } else { j + 1 };
            assert(ids_of(olds)[j0] == c2);
            if c2 == c {
                lemma_slot_index_of(olds, c);
                assert(j0 == i);
                assert(false);
            }
        }
        if ids_of(olds).contains(c2) && c2 != c {
            lemma_slot_index_of(olds, c2);
            let j0 = slot_index_of(olds, c2);
            assert(j0 != i);
            let j: int = if j0 < i { j0 } else { j0 - 1 };
            assert(news[j].id == c2);
            assert(ids_of(news)[j] == c2);
        }
    }
    assert forall|c2: usize| c2 != c implies slot_lookup(news, c2) == slot_lookup(olds, c2) by {
        if ids_of(olds).contains(c2) {
            lemma_slot_index_of(olds, c2);
            lemma_slot_index_of(news, c2);
            let j0 = slot_index_of(olds, c2);
            let j: int = if j0 < i { j0 } else { j0 - 1 };
            assert(news[j].id == c2);
            assert(slot_index_of(news, c2) == j);
            assert(news[j] == olds[j0]);
        }
    }
}

/// Slot lists with the same ids at the same positions hold the same
/// component ids.
proof fn lemma_same_ids_same_contains(a: Seq<ComponentSlot>, b: Seq<ComponentSlot>)
    requires
        a.len() == b.len(),
        forall|k: int| 0 <= k < a.len() ==> a[k].id == b[k].id,
    ensures
        forall|c: usize| ids_of(a).contains(c) == ids_of(b).contains(c),
{
    assert forall|c: usize| ids_of(a).contains(c) == ids_of(b).contains(c) by {
        if ids_of(a).contains(c) {
            let j = choose|j: int| 0 <= j < ids_of(a).len() && ids_of(a)[j] == c;
            assert(ids_of(b)[j] == c);
        }
        if ids_of(b).contains(c) {
            let j = choose|j: int| 0 <= j < ids_of(b).len() && ids_of(b)[j] == c;
            assert(ids_of(a)[j] == c);
        }
    }
}

/// Looks up the slot holding component `c` in a slot list.
pub fn find_slot(slots: &Vec<ComponentSlot>, c: usize) -> (r: Option<usize>)
    ensures
        match r {
            Some(i) => i < slots@.len() && slots@[i as int].id == c && ids_of(slots@).contains(c),
            None => !ids_of(slots@).contains(c),
        },
{
    let ghost ids = ids_of(slots@);
    let mut i: usize = 0;
    while i < slots.len()
        invariant
            i <= slots@.len(),
            ids == ids_of(slots@),
            forall|j: int| 0 <= j < i ==> slots@[j].id != c,
        decreases slots@.len() - i,
    {
        if slots[i].id == c {
            proof {
                assert(ids[i as int] == c);
            }
            return Some(i);
        }
        i = i + 1;
    }
    proof {
        if ids.contains(c) {
            let j = choose|j: int| 0 <= j < ids.len() && ids[j] == c;
            assert(slots@[j].id == c);
        }
    }
    None
}

} // verus!
