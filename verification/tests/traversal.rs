use moonshine_kind::entity::{ComponentSlot, EntityId, EntityView};
use moonshine_kind::predicate::Predicate;
use moonshine_kind::registry::KindRegistry;
use moonshine_kind::trigger::{next_target, ContractViolation, InstanceTrigger};
use moonshine_kind::world::WorldSnapshot;

const MATCHING: usize = 1;
const OTHER: usize = 2;

fn eid(index: u32) -> EntityId {
    EntityId { index, generation: 0 }
}

fn node(index: u32, component: usize, related: Option<EntityId>) -> EntityView {
    EntityView {
        id: eid(index),
        components: vec![ComponentSlot {
            id: component,
            value: 0,
            changed: false,
        }],
        related,
    }
}

/// The chain root -> a -> b -> c -> d, where a and b do not match the
/// required kind and the others do. Entities are spawned ends-first so each
/// relation points at an already-recorded entity.
fn chain() -> (WorldSnapshot, KindRegistry, usize) {
    let mut reg = KindRegistry::new();
    let kind = reg.register_kind("Matching".to_string(), Predicate::Has(MATCHING));

    let mut world = WorldSnapshot::new();
    assert!(world.spawn_entity(node(5, MATCHING, None))); // d
    assert!(world.spawn_entity(node(4, MATCHING, Some(eid(5))))); // c -> d
    assert!(world.spawn_entity(node(3, OTHER, Some(eid(4))))); // b -> c
    assert!(world.spawn_entity(node(2, OTHER, Some(eid(3))))); // a -> b
    assert!(world.spawn_entity(node(1, MATCHING, Some(eid(2))))); // root -> a
    (world, reg, kind)
}

#[test]
fn traversal_skips_non_matching() {
    let (world, reg, kind) = chain();
    let mut trigger = InstanceTrigger::new(kind, eid(1), true);
    let dispatched = trigger.run(&world, &reg, &vec![]).unwrap();
    assert_eq!(dispatched, vec![eid(1), eid(4), eid(5)]);
    assert!(trigger.propagate);
    assert_eq!(trigger.original_event_target, eid(1));
}

#[test]
fn early_stop_suppresses_further_hops() {
    let (world, reg, kind) = chain();
    let mut trigger = InstanceTrigger::new(kind, eid(1), true);
    // The reaction at c clears the propagation flag: d never receives it.
    let dispatched = trigger.run(&world, &reg, &vec![eid(4)]).unwrap();
    assert_eq!(dispatched, vec![eid(1), eid(4)]);
    assert!(!trigger.propagate);
    assert_eq!(trigger.event_target, eid(4));
}

#[test]
fn violation_dispatches_to_nobody() {
    let (world, reg, kind) = chain();
    // Raising the trigger on non-matching a is a contract violation.
    let mut trigger = InstanceTrigger::new(kind, eid(2), true);
    let refused = trigger.run(&world, &reg, &vec![]);
    assert_eq!(
        refused,
        Err(ContractViolation {
            target: eid(2),
            kind
        })
    );
    assert_eq!(trigger.event_target, eid(2));
    assert!(trigger.propagate);
}

#[test]
fn zero_hop_dispatches_exactly_once() {
    let mut reg = KindRegistry::new();
    let kind = reg.register_kind("Matching".to_string(), Predicate::Has(MATCHING));
    let mut world = WorldSnapshot::new();
    assert!(world.spawn_entity(node(1, MATCHING, None)));

    let mut trigger = InstanceTrigger::new(kind, eid(1), true);
    let dispatched = trigger.run(&world, &reg, &vec![]).unwrap();
    assert_eq!(dispatched, vec![eid(1)]);
}

#[test]
fn non_matching_tail_dispatches_exactly_twice() {
    let mut reg = KindRegistry::new();
    let kind = reg.register_kind("Matching".to_string(), Predicate::Has(MATCHING));

    // root -> x -> y -> top: x and y do not match, top does.
    let mut world = WorldSnapshot::new();
    assert!(world.spawn_entity(node(4, MATCHING, None))); // top
    assert!(world.spawn_entity(node(3, OTHER, Some(eid(4))))); // y -> top
    assert!(world.spawn_entity(node(2, OTHER, Some(eid(3))))); // x -> y
    assert!(world.spawn_entity(node(1, MATCHING, Some(eid(2))))); // root -> x

    let mut trigger = InstanceTrigger::new(kind, eid(1), true);
    let dispatched = trigger.run(&world, &reg, &vec![]).unwrap();
    assert_eq!(dispatched, vec![eid(1), eid(4)]);
}

#[test]
fn next_target_skips_to_first_match() {
    let (world, reg, kind) = chain();
    // From the root, the next dispatch target is c: a and b are skipped.
    assert_eq!(next_target(&world, &reg, kind, eid(1)), Some(eid(4)));
    // The same hop decision is taken from a skipped intermediate.
    assert_eq!(next_target(&world, &reg, kind, eid(2)), Some(eid(4)));
    assert_eq!(next_target(&world, &reg, kind, eid(4)), Some(eid(5)));
    // At the end of the relation there is nobody left.
    assert_eq!(next_target(&world, &reg, kind, eid(5)), None);
}

#[test]
fn propagation_off_dispatches_once() {
    let (world, reg, kind) = chain();
    let mut trigger = InstanceTrigger::new(kind, eid(1), false);
    let dispatched = trigger.run(&world, &reg, &vec![]).unwrap();
    assert_eq!(dispatched, vec![eid(1)]);
    assert!(!trigger.propagate);
}

#[test]
fn stop_at_root_suppresses_all_hops() {
    let (world, reg, kind) = chain();
    let mut trigger = InstanceTrigger::new(kind, eid(1), true);
    let dispatched = trigger.run(&world, &reg, &vec![eid(1)]).unwrap();
    assert_eq!(dispatched, vec![eid(1)]);
    assert!(!trigger.propagate);
}
