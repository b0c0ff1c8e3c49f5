//! The kind-filtered relationship-traversal trigger.
//!
//! One raised event is delivered first to its original target, then
//! re-delivered along the traversal relation: the walk repeatedly hops to
//! the related entity, dispatches wherever the required kind's predicate
//! holds, skips transparently wherever it does not, and stops when the
//! relation is exhausted or a reaction clears the propagation flag.
//!
//! Raising the trigger on an entity that does not match the required kind is
//! a caller contract violation, not a recoverable input: the run fails fast
//! with an error naming the entity and the kind, and dispatches to no one.
//!
//! The host's observer mechanism performs the actual deliveries; the engine
//! here decides, hop by hop, who receives the event and in what order.
//! Reactions influence the walk only through the propagation flag, so a run
//! takes the set of entities whose reactions clear it, and returns the full
//! dispatch order. Dispatch is strictly sequential on the raising thread:
//! nothing here runs concurrently.

use vstd::prelude::*;

use crate::entity::EntityId;
use crate::registry::KindRegistry;
use crate::world::WorldSnapshot;

verus! {

/// The error of a trigger raised on a non-matching entity: a contract
/// violation by the raiser. It names the offending entity and the required
/// kind.
#[derive(Clone, Copy, Debug, PartialEq, Eq, Structural)]
pub struct ContractViolation {
    /// The entity the event was raised on.
    pub target: EntityId,
    /// The kind the trigger requires at each dispatch.
    pub kind: usize,
}

/// What one walk computes: who is dispatched to after the current entity
/// (in order), where the walk ends, and whether propagation is still set
/// when it does.
pub type WalkOutcome = (Seq<EntityId>, EntityId, bool);

/// The walk that continues after a dispatch at `cur` left propagation set:
/// hop to the related entity; if the relation is exhausted, stop; if the
/// reached entity does not match the required kind, skip it silently and
/// keep hopping from it; if it matches, dispatch there, clear propagation
/// when the reaction at that entity does, and repeat.
///
/// The walk terminates because a related entity always stands earlier in
/// the snapshot than the entity pointing at it.
pub open spec fn spec_walk(
    w: WorldSnapshot,
    reg: KindRegistry,
    kind: usize,
    cur: EntityId,
    stops: Seq<EntityId>,
) -> WalkOutcome
    decreases w.spec_index_of(cur),
        when w.wf() && w.spec_contains(cur)
{
    match w.spec_related_of(cur) {
        None => (Seq::empty(), cur, true),
        Some(next) => {
            proof {
                w.lemma_related_is_earlier(cur);
            }
            if !reg.spec_matches(kind, w.spec_component_ids_of(next)) {
                spec_walk(w, reg, kind, next, stops)
            } else if stops.contains(next) {
                (seq![next], next, false)
            } else {
                let rest = spec_walk(w, reg, kind, next, stops);
                (seq![next] + rest.0, rest.1, rest.2)
            }
        },
    }
}

/// The whole dispatch of one raised event: nobody on a contract violation;
/// otherwise the original target first, then — if its reaction left
/// propagation set — everyone [`spec_walk`] reaches. Alongside the order,
/// the outcome records where the engine's cursor ends and the final state
/// of the propagation flag.
pub open spec fn spec_dispatch(
    w: WorldSnapshot,
    reg: KindRegistry,
    kind: usize,
    target: EntityId,
    propagate: bool,
    stops: Seq<EntityId>,
) -> WalkOutcome {
    if !reg.spec_matches(kind, w.spec_component_ids_of(target)) {
        (Seq::empty(), target, propagate)
    } else {
        let p = propagate && !stops.contains(target);
        if !p {
            (seq![target], target, p)
        } else {
            let rest = spec_walk(w, reg, kind, target, stops);
            (seq![target] + rest.0, rest.1, rest.2)
        }
    }
}

/// Non-matching intermediates are transparent: an entity that fails the
/// required kind's predicate receives nothing, never ends the walk by
/// itself, and the walk continues from it exactly as it would have from the
/// entity before it.
pub proof fn lemma_skip_transparent(
    w: WorldSnapshot,
    reg: KindRegistry,
    kind: usize,
    cur: EntityId,
    next: EntityId,
    stops: Seq<EntityId>,
)
    requires
        w.wf(),
        w.spec_contains(cur),
        w.spec_related_of(cur) == Some(next),
        !reg.spec_matches(kind, w.spec_component_ids_of(next)),
    ensures
        spec_walk(w, reg, kind, cur, stops) == spec_walk(w, reg, kind, next, stops),
{
    w.lemma_related_is_earlier(cur);
}

/// Zero-hop: raising the event on a matching entity with no relation
/// dispatches exactly once, to that entity.
pub proof fn lemma_zero_hop(
    w: WorldSnapshot,
    reg: KindRegistry,
    kind: usize,
    target: EntityId,
    propagate: bool,
    stops: Seq<EntityId>,
)
    requires
        w.wf(),
        w.spec_contains(target),
        w.spec_related_of(target) is None,
        reg.spec_matches(kind, w.spec_component_ids_of(target)),
    ensures
        spec_dispatch(w, reg, kind, target, propagate, stops).0 == seq![target],
{
    if propagate && !stops.contains(target) {
        assert(spec_walk(w, reg, kind, target, stops).0 == Seq::<EntityId>::empty());
        assert(seq![target] + Seq::<EntityId>::empty() =~= seq![target]);
    }
}

/// A contract violation dispatches to no one, whatever the rest of the
/// chain looks like.
pub proof fn lemma_violation_dispatches_nobody(
    w: WorldSnapshot,
    reg: KindRegistry,
    kind: usize,
    target: EntityId,
    propagate: bool,
    stops: Seq<EntityId>,
)
    requires
        !reg.spec_matches(kind, w.spec_component_ids_of(target)),
    ensures
        spec_dispatch(w, reg, kind, target, propagate, stops).0.len() == 0,
{
}

/// The propagation engine for one raised event.
///
/// `original_event_target` is fixed for the run; `event_target` is the
/// engine's cursor and moves hop by hop; `propagate` is cleared by a
/// reaction to stop further hops.
#[derive(Clone, Copy, Debug)]
pub struct InstanceTrigger {
    /// The entity the event was first raised on.
    pub original_event_target: EntityId,
    /// The entity the event is currently delivered to.
    pub event_target: EntityId,
    /// Whether the walk keeps hopping after the current dispatch.
    pub propagate: bool,
    /// The kind required of every entity the event is dispatched to.
    pub kind: usize,
}

impl InstanceTrigger {
    /// A fresh trigger for an event raised on `event_target`, requiring
    /// `kind` at each dispatch.
    pub fn new(kind: usize, event_target: EntityId, propagate: bool) -> (r: InstanceTrigger)
        ensures
            r.original_event_target == event_target,
            r.event_target == event_target,
            r.propagate == propagate,
            r.kind == kind,
    {
        InstanceTrigger { original_event_target: event_target, event_target, propagate, kind }
    }

    /// Runs the dispatch for one raised event and returns who received it,
    /// in order. `stops` lists the entities whose reactions clear the
    /// propagation flag.
    ///
    /// Fails fast, dispatching to no one and changing nothing, exactly when
    /// the event was raised on an entity that does not match the required
    /// kind. Otherwise the dispatch order, the final cursor and the final
    /// propagation flag are exactly what [`spec_dispatch`] says.
    pub fn run(&mut self, world: &WorldSnapshot, reg: &KindRegistry, stops: &Vec<EntityId>) -> (r:
        Result<Vec<EntityId>, ContractViolation>)
        requires
            world.wf(),
            reg.is_kind(old(self).kind),
            world.spec_contains(old(self).event_target),
        ensures
            final(self).kind == old(self).kind,
            final(self).original_event_target == old(self).original_event_target,
            match r {
                Ok(ds) => {
                    &&& reg.spec_matches(
                        old(self).kind,
                        world.spec_component_ids_of(old(self).event_target),
                    )
                    &&& ds@ == spec_dispatch(
                        *world,
                        *reg,
                        old(self).kind,
                        old(self).event_target,
                        old(self).propagate,
                        stops@,
                    ).0
                    &&& final(self).event_target == spec_dispatch(
                        *world,
                        *reg,
                        old(self).kind,
                        old(self).event_target,
                        old(self).propagate,
                        stops@,
                    ).1
                    &&& final(self).propagate == spec_dispatch(
                        *world,
                        *reg,
                        old(self).kind,
                        old(self).event_target,
                        old(self).propagate,
                        stops@,
                    ).2
                    &&& ds@.len() >= 1 && ds@[0] == old(self).event_target
                },
                Err(e) => {
                    &&& !reg.spec_matches(
                        old(self).kind,
                        world.spec_component_ids_of(old(self).event_target),
                    )
                    &&& e == (ContractViolation {
                        target: old(self).event_target,
                        kind: old(self).kind,
                    })
                    &&& *final(self) == *old(self)
                },
            },
    {
        let ghost full = spec_dispatch(
            *world,
            *reg,
            self.kind,
            self.event_target,
            self.propagate,
            stops@,
        );
        let start_matches = match world.get_view(self.event_target) {
            Some(v) => reg.matches(self.kind, v),
            None => unreached(),
        };
        if !start_matches {
            return Err(ContractViolation { target: self.event_target, kind: self.kind });
        }
        let mut out: Vec<EntityId> = Vec::new();
        out.push(self.event_target);
        if contains_id(stops, self.event_target) {
            self.propagate = false;
        }
        proof {
            if self.propagate {
                assert(full.0 == seq![old(self).event_target] + spec_walk(
                    *world,
                    *reg,
                    self.kind,
                    self.event_target,
                    stops@,
                ).0);
                assert(out@ == seq![old(self).event_target]);
            } else {
                assert(full.0 =~= out@);
            }
        }
        loop
            invariant
                world.wf(),
                reg.is_kind(self.kind),
                world.spec_contains(self.event_target),
                full == spec_dispatch(
                    *world,
                    *reg,
                    old(self).kind,
                    old(self).event_target,
                    old(self).propagate,
                    stops@,
                ),
                self.kind == old(self).kind,
                self.original_event_target == old(self).original_event_target,
                reg.spec_matches(
                    old(self).kind,
                    world.spec_component_ids_of(old(self).event_target),
                ),
                out@.len() >= 1 && out@[0] == old(self).event_target,
                self.propagate ==> {
                    &&& full.0 == out@ + spec_walk(
                        *world,
                        *reg,
                        self.kind,
                        self.event_target,
                        stops@,
                    ).0
                    &&& full.1 == spec_walk(*world, *reg, self.kind, self.event_target, stops@).1
                    &&& full.2 == spec_walk(*world, *reg, self.kind, self.event_target, stops@).2
                },
                !self.propagate ==> {
                    &&& full.0 == out@
                    &&& full.1 == self.event_target
                    &&& full.2 == false
                },
            decreases world.spec_index_of(self.event_target) + 1,
        {
            proof {
                world.lemma_index_of(self.event_target);
            }
            if !self.propagate {
                return Ok(out);
            }
            let ghost cur = self.event_target;
            let ghost walk_cur = spec_walk(*world, *reg, self.kind, cur, stops@);
            let next = match world.get_view(self.event_target) {
                Some(v) => match &v.related {
                    Some(n) => *n,
                    None => {
                        proof {
                            assert(walk_cur == (Seq::<EntityId>::empty(), cur, true));
                            assert(full.0 =~= out@);
                        }
                        return Ok(out);
                    },
                },
                None => unreached(),
            };
            proof {
                world.lemma_related_is_earlier(cur);
            }
            self.event_target = next;
            let matches_here = match world.get_view(next) {
                Some(v) => reg.matches(self.kind, v),
                None => unreached(),
            };
            if !matches_here {
                proof {
                    assert(walk_cur == spec_walk(*world, *reg, self.kind, next, stops@));
                }
                continue;
            }
            out.push(next);
            if contains_id(stops, next) {
                self.propagate = false;
                proof {
                    assert(walk_cur == (seq![next], next, false));
                    assert(full.0 =~= out@);
                }
            } else {
                proof {
                    let rest = spec_walk(*world, *reg, self.kind, next, stops@);
                    assert(walk_cur == (seq![next] + rest.0, rest.1, rest.2));
                    assert(full.0 =~= out@ + rest.0);
                }
            }
        }
    }
}

/// The next entity the walk dispatches to after `cur`, whatever the
/// reactions later decide: the first entity along the relation from `cur`
/// that matches the required kind, skipping non-matching intermediates, or
/// nothing if the relation is exhausted before one is found.
///
/// This is the per-hop decision of the engine, for a caller that performs
/// one dispatch at a time and reads the propagation flag back from its
/// reactions between hops.
pub fn next_target(world: &WorldSnapshot, reg: &KindRegistry, kind: usize, cur: EntityId) -> (r:
    Option<EntityId>)
    requires
        world.wf(),
        reg.is_kind(kind),
        world.spec_contains(cur),
    ensures
        match r {
            Some(n) => {
                &&& world.spec_contains(n)
                &&& reg.spec_matches(kind, world.spec_component_ids_of(n))
                &&& forall|stops: Seq<EntityId>|
                    (#[trigger] spec_walk(*world, *reg, kind, cur, stops)).0.len() >= 1
                        && spec_walk(*world, *reg, kind, cur, stops).0[0] == n
            },
            None => forall|stops: Seq<EntityId>|
                (#[trigger] spec_walk(*world, *reg, kind, cur, stops)).0.len() == 0,
        },
{
    let mut at = cur;
    loop
        invariant
            world.wf(),
            reg.is_kind(kind),
            world.spec_contains(at),
            forall|stops: Seq<EntityId>|
                #[trigger] spec_walk(*world, *reg, kind, at, stops) == spec_walk(
                    *world,
                    *reg,
                    kind,
                    cur,
                    stops,
                ),
        decreases world.spec_index_of(at),
    {
        proof {
            world.lemma_index_of(at);
        }
        let next = match world.get_view(at) {
            Some(v) => match &v.related {
                Some(n) => *n,
                None => {
                    proof {
                        assert forall|stops: Seq<EntityId>|
                            (#[trigger] spec_walk(*world, *reg, kind, cur, stops)).0.len()
                            == 0 by {
                            assert(spec_walk(*world, *reg, kind, at, stops).0
                                == Seq::<EntityId>::empty());
                        }
                    }
                    return None;
                },
            },
            None => unreached(),
        };
        proof {
            world.lemma_related_is_earlier(at);
        }
        let matches_here = match world.get_view(next) {
            Some(v) => reg.matches(kind, v),
            None => unreached(),
        };
        if matches_here {
            proof {
                assert forall|stops: Seq<EntityId>|
                    (#[trigger] spec_walk(*world, *reg, kind, cur, stops)).0.len() >= 1
                        && spec_walk(*world, *reg, kind, cur, stops).0[0] == next by {
                    let walk_at = spec_walk(*world, *reg, kind, at, stops);
                    if stops.contains(next) {
                        assert(walk_at == (seq![next], next, false));
                    } else {
                        let rest = spec_walk(*world, *reg, kind, next, stops);
                        assert(walk_at == (seq![next] + rest.0, rest.1, rest.2));
                        assert(walk_at.0[0] == next);
                    }
                }
            }
            return Some(next);
        }
        proof {
            assert forall|stops: Seq<EntityId>|
                #[trigger] spec_walk(*world, *reg, kind, next, stops) == spec_walk(
                    *world,
                    *reg,
                    kind,
                    cur,
                    stops,
                ) by {
                lemma_skip_transparent(*world, *reg, kind, at, next, stops);
            }
        }
        at = next;
    }
}

/// Tests whether an entity id occurs in a list.
fn contains_id(ids: &Vec<EntityId>, e: EntityId) -> (r: bool)
    ensures
        r == ids@.contains(e),
{
    let mut i: usize = 0;
    while i < ids.len()
        invariant
            i <= ids@.len(),
            forall|j: int| 0 <= j < i ==> ids@[j] != e,
        decreases ids@.len() - i,
    {
        if ids[i] == e {
            return true;
        }
        i = i + 1;
    }
    false
}

} // verus!
