use moonshine_kind::accessor::{ContainsInstance, InstanceMut, InstanceRef, InstanceWorldMut};
use moonshine_kind::commands::{Command, InstanceCommands};
use moonshine_kind::entity::{ComponentSlot, EntityId, EntityView, PLACEHOLDER_INDEX};
use moonshine_kind::instance::{CastError, Instance};
use moonshine_kind::predicate::Predicate;
use moonshine_kind::registry::{KindRegistry, ANY_KIND};
use moonshine_kind::world::WorldSnapshot;

const FOO: usize = 1;
const BAR: usize = 2;
const APPLE: usize = 3;
const ORANGE: usize = 4;

fn eid(index: u32) -> EntityId {
    EntityId { index, generation: 0 }
}

fn slot(c: usize) -> ComponentSlot {
    ComponentSlot {
        id: c,
        value: 0,
        changed: false,
    }
}

fn view(index: u32, components: Vec<usize>) -> EntityView {
    EntityView {
        id: eid(index),
        components: components.into_iter().map(slot).collect(),
        related: None,
    }
}

#[test]
fn kind_with() {
    let mut reg = KindRegistry::new();
    let foo = reg.register_kind("Foo".to_string(), Predicate::Has(FOO));

    let mut world = WorldSnapshot::new();
    assert!(world.spawn_entity(view(1, vec![FOO])));
    assert_eq!(world.query_kind(&reg, foo).len(), 1);
}

#[test]
fn kind_without() {
    let mut reg = KindRegistry::new();
    reg.register_kind("Foo".to_string(), Predicate::Has(FOO));
    let not_foo = reg.register_kind(
        "NotFoo".to_string(),
        Predicate::Not(Box::new(Predicate::Has(FOO))),
    );

    let mut world = WorldSnapshot::new();
    assert!(world.spawn_entity(view(1, vec![FOO])));
    assert_eq!(world.query_kind(&reg, not_foo).len(), 0);
}

#[test]
fn kind_multi() {
    let mut reg = KindRegistry::new();
    let foo = reg.register_kind("Foo".to_string(), Predicate::Has(FOO));
    let bar = reg.register_kind("Bar".to_string(), Predicate::Has(BAR));

    let mut world = WorldSnapshot::new();
    assert!(world.spawn_entity(view(1, vec![FOO, BAR])));
    assert_eq!(world.query_kind(&reg, foo).len(), 1);
    assert_eq!(world.query_kind(&reg, bar).len(), 1);
}

#[test]
fn kind_cast() {
    let mut reg = KindRegistry::new();
    let foo = reg.register_kind("Foo".to_string(), Predicate::Has(FOO));
    // Bar accepts everything Foo does, so the cast rule below is sound.
    let bar = reg.register_kind(
        "Bar".to_string(),
        Predicate::Or(Box::new(Predicate::Has(BAR)), Box::new(Predicate::Has(FOO))),
    );
    reg.declare_rule(foo, bar);

    let any = Instance::placeholder(ANY_KIND);
    let foo_handle = Instance::placeholder(foo);
    let bar_handle = foo_handle.cast_into(&reg, bar).unwrap();
    assert!(foo_handle.cast_into_any() == any);
    assert!(bar_handle.cast_into_any() == any);
    assert!(bar_handle.entity() == foo_handle.entity());
}

#[test]
fn checked_construction_iff_matching() {
    let mut reg = KindRegistry::new();
    let foo = reg.register_kind("Foo".to_string(), Predicate::Has(FOO));

    let with_foo = view(1, vec![FOO]);
    let without_foo = view(2, vec![BAR]);

    let handle = Instance::from_entity(&reg, foo, &with_foo).unwrap();
    assert_eq!(handle.entity(), eid(1));
    assert_eq!(handle.kind(), foo);
    assert!(Instance::from_entity(&reg, foo, &without_foo).is_none());

    // Everything matches the universal kind, even an empty entity.
    let empty = view(3, vec![]);
    assert!(Instance::from_entity(&reg, ANY_KIND, &empty).is_some());
}

#[test]
fn predicate_composition() {
    let mut reg = KindRegistry::new();
    let both = reg.register_kind(
        "Both".to_string(),
        Predicate::And(Box::new(Predicate::Has(FOO)), Box::new(Predicate::Has(BAR))),
    );
    let either = reg.register_kind(
        "Either".to_string(),
        Predicate::Or(Box::new(Predicate::Has(FOO)), Box::new(Predicate::Has(BAR))),
    );

    let foo_only = view(1, vec![FOO]);
    let foo_bar = view(2, vec![FOO, BAR]);
    let neither = view(3, vec![APPLE]);

    assert!(!reg.matches(both, &foo_only));
    assert!(reg.matches(both, &foo_bar));
    assert!(reg.matches(either, &foo_only));
    assert!(reg.matches(either, &foo_bar));
    assert!(!reg.matches(either, &neither));
    assert!(reg.matches(ANY_KIND, &neither));
}

#[test]
fn cast_requires_declared_rule() {
    let mut reg = KindRegistry::new();
    let foo = reg.register_kind("Foo".to_string(), Predicate::Has(FOO));
    let bar = reg.register_kind("Bar".to_string(), Predicate::Has(BAR));

    assert!(reg.is_castable(foo, foo));
    assert!(reg.is_castable(foo, ANY_KIND));
    assert!(!reg.is_castable(foo, bar));

    let handle = Instance::from_entity_unchecked(eid(7), foo);
    let refused = handle.cast_into(&reg, bar);
    assert_eq!(refused, Err(CastError { from: foo, to: bar }));

    // The unchecked escape hatch re-tags without consulting the rules.
    let forced = handle.cast_into_unchecked(bar);
    assert_eq!(forced.entity(), eid(7));
    assert_eq!(forced.kind(), bar);
}

#[test]
fn cast_preserves_entity() {
    let mut reg = KindRegistry::new();
    let apple = reg.register_kind("Apple".to_string(), Predicate::Has(APPLE));
    let fruit = reg.register_kind(
        "Fruit".to_string(),
        Predicate::Or(
            Box::new(Predicate::Has(APPLE)),
            Box::new(Predicate::Has(ORANGE)),
        ),
    );
    reg.declare_rule(apple, fruit);

    let handle = Instance::from_entity_unchecked(eid(11), apple);
    let cast = handle.cast_into(&reg, fruit).unwrap();
    assert_eq!(cast.entity(), eid(11));
    assert_eq!(cast.kind(), fruit);
}

#[test]
fn cast_chain_to_any_agrees() {
    let mut reg = KindRegistry::new();
    let apple = reg.register_kind("Apple".to_string(), Predicate::Has(APPLE));
    let fruit = reg.register_kind(
        "Fruit".to_string(),
        Predicate::Or(
            Box::new(Predicate::Has(APPLE)),
            Box::new(Predicate::Has(ORANGE)),
        ),
    );
    reg.declare_rule(apple, fruit);

    let handle = Instance::from_entity_unchecked(eid(9), apple);
    // Identity needs no declaration.
    assert!(handle.cast_into(&reg, apple).is_ok());

    let via_fruit = handle.cast_into(&reg, fruit).unwrap().cast_into_any();
    let direct = handle.cast_into_any();
    assert!(via_fruit == direct);
    assert_eq!(via_fruit.kind(), ANY_KIND);
    assert_eq!(direct.kind(), ANY_KIND);
    assert_eq!(via_fruit.entity(), direct.entity());
}

#[test]
fn identity_ignores_tag() {
    let a = Instance::from_entity_unchecked(eid(5), FOO);
    let b = Instance::from_entity_unchecked(eid(5), BAR);
    let c = Instance::from_entity_unchecked(eid(6), FOO);
    assert!(a == b);
    assert!(a != c);
    assert_eq!(a.entity(), b.entity());
}

#[test]
fn fruits_query_and_refused_cast() {
    let mut reg = KindRegistry::new();
    let apple = reg.register_kind("Apple".to_string(), Predicate::Has(APPLE));
    let orange = reg.register_kind("Orange".to_string(), Predicate::Has(ORANGE));
    let fruit = reg.register_kind(
        "Fruit".to_string(),
        Predicate::Or(
            Box::new(Predicate::Has(APPLE)),
            Box::new(Predicate::Has(ORANGE)),
        ),
    );
    reg.declare_rule(apple, fruit);
    reg.declare_rule(orange, fruit);

    let mut world = WorldSnapshot::new();
    let apple_handle = world
        .spawn_instance(&reg, apple, view(1, vec![APPLE]))
        .unwrap();
    world
        .spawn_instance(&reg, orange, view(2, vec![ORANGE]))
        .unwrap();

    let fruits = world.query_kind(&reg, fruit);
    assert_eq!(fruits.len(), 2);

    let as_fruit = apple_handle.cast_into(&reg, fruit).unwrap();
    // No rule Fruit -> Orange was declared: the cast must be refused.
    assert_eq!(
        as_fruit.cast_into(&reg, orange),
        Err(CastError {
            from: fruit,
            to: orange
        })
    );
}

#[test]
fn spawn_refuses_duplicates_and_dangling_relations() {
    let mut world = WorldSnapshot::new();
    assert!(world.spawn_entity(view(1, vec![FOO])));
    assert!(!world.spawn_entity(view(1, vec![BAR])));

    let dangling = EntityView {
        id: eid(2),
        components: vec![],
        related: Some(eid(9)),
    };
    assert!(!world.spawn_entity(dangling));

    let rooted = EntityView {
        id: eid(2),
        components: vec![],
        related: Some(eid(1)),
    };
    assert!(world.spawn_entity(rooted));
}

#[test]
fn insert_and_remove_components() {
    let mut reg = KindRegistry::new();
    let foo = reg.register_kind("Foo".to_string(), Predicate::Has(FOO));

    let mut world = WorldSnapshot::new();
    assert!(world.spawn_entity(view(1, vec![])));
    assert!(world.get_instance(&reg, foo, eid(1)).is_none());

    assert!(world.insert_component(eid(1), FOO, 42));
    let handle = world.get_instance(&reg, foo, eid(1)).unwrap();
    assert_eq!(handle.entity(), eid(1));
    let got = world.get_component(eid(1), FOO).unwrap();
    assert_eq!(got.value, 42);
    assert!(got.changed);

    assert!(world.remove_component(eid(1), FOO));
    assert!(world.get_component(eid(1), FOO).is_none());
    assert!(world.get_instance(&reg, foo, eid(1)).is_none());

    // Operations on an unrecorded entity report failure.
    assert!(!world.insert_component(eid(8), FOO, 0));
    assert!(!world.remove_component(eid(8), FOO));
}

#[test]
fn set_component_marks_changed() {
    let mut world = WorldSnapshot::new();
    assert!(world.spawn_entity(view(1, vec![FOO])));
    let before = world.get_component(eid(1), FOO).unwrap();
    assert!(!before.changed);

    assert!(world.set_component(eid(1), FOO, 9));
    let after = world.get_component(eid(1), FOO).unwrap();
    assert_eq!(after.value, 9);
    assert!(after.changed);

    // Setting a component the entity does not hold fails and changes nothing.
    assert!(!world.set_component(eid(1), BAR, 1));
    assert!(world.get_component(eid(1), BAR).is_none());
}

#[test]
fn insert_instance_establishes_membership() {
    let mut reg = KindRegistry::new();
    let foo = reg.register_kind("Foo".to_string(), Predicate::Has(FOO));

    let mut world = WorldSnapshot::new();
    assert!(world.spawn_entity(view(1, vec![])));
    let handle = world.insert_instance(&reg, foo, FOO, 5, eid(1)).unwrap();
    assert_eq!(handle.entity(), eid(1));
    assert_eq!(handle.kind(), foo);
    assert!(world.get_instance(&reg, foo, eid(1)).is_some());
    assert!(world.insert_instance(&reg, foo, FOO, 5, eid(9)).is_none());
}

#[test]
fn accessors_validate_membership() {
    let mut reg = KindRegistry::new();
    let foo = reg.register_kind("Foo".to_string(), Predicate::Has(FOO));

    let mut with_foo = view(1, vec![FOO]);
    with_foo.components[0].value = 3;
    let without_foo = view(2, vec![BAR]);

    let r = InstanceRef::from_entity(&reg, foo, FOO, &with_foo).unwrap();
    assert_eq!(r.instance().entity(), eid(1));
    assert_eq!(r.value(), 3);
    assert!(!r.is_changed());
    assert!(InstanceRef::from_entity(&reg, foo, FOO, &without_foo).is_none());

    let w = InstanceWorldMut::from_entity(&reg, foo, FOO, &with_foo).unwrap();
    assert_eq!(w.entity(), eid(1));
    assert!(InstanceWorldMut::from_entity(&reg, foo, FOO, &without_foo).is_none());

    let unchecked = InstanceWorldMut::from_entity_unchecked(eid(7), foo);
    assert_eq!(unchecked.instance().entity(), eid(7));
    assert_eq!(unchecked.instance().kind(), foo);
}

#[test]
fn mutation_marks_changed() {
    let mut reg = KindRegistry::new();
    let foo = reg.register_kind("Foo".to_string(), Predicate::Has(FOO));

    let mut world = WorldSnapshot::new();
    assert!(world.spawn_entity(view(1, vec![FOO])));

    let v = world.get_view(eid(1)).unwrap();
    let mut m = InstanceMut::from_entity(&reg, foo, FOO, v).unwrap();
    assert!(!m.is_changed());
    m.set_value(77);
    assert!(m.is_changed());
    assert_eq!(m.value(), 77);

    assert!(m.apply(&mut world));
    let written = world.get_component(eid(1), FOO).unwrap();
    assert_eq!(written.value, 77);
    assert!(written.changed);
}

#[test]
fn commands_target_their_instance() {
    let mut reg = KindRegistry::new();
    let foo = reg.register_kind("Foo".to_string(), Predicate::Has(FOO));
    let fruit = reg.register_kind(
        "Fruity".to_string(),
        Predicate::Or(Box::new(Predicate::Has(APPLE)), Box::new(Predicate::Has(FOO))),
    );
    reg.declare_rule(foo, fruit);

    let with_foo = view(4, vec![FOO]);
    let mut cmds = InstanceCommands::from_entity(&reg, foo, FOO, &with_foo).unwrap();
    assert!(InstanceCommands::from_entity(&reg, foo, FOO, &view(5, vec![BAR])).is_none());

    cmds.insert(BAR, 1);
    cmds.remove(FOO);
    cmds.despawn();
    assert_eq!(
        cmds.commands().as_slice(),
        &[
            Command::Insert {
                entity: eid(4),
                component: BAR,
                value: 1
            },
            Command::Remove {
                entity: eid(4),
                component: FOO
            },
            Command::Despawn { entity: eid(4) },
        ]
    );

    let cast = cmds.cast_into(&reg, fruit).unwrap();
    assert_eq!(cast.instance().entity(), eid(4));
    assert_eq!(cast.instance().kind(), fruit);
    assert_eq!(cast.commands().len(), 3);

    let fresh = InstanceCommands::for_instance(Instance::from_entity_unchecked(eid(4), foo));
    assert!(fresh.commands().is_empty());

    let unchecked = InstanceCommands::from_entity_unchecked(eid(6), foo);
    assert_eq!(unchecked.instance().entity(), eid(6));
    assert!(unchecked.commands().is_empty());
}

#[test]
fn handles_remap_like_raw_ids() {
    let mut handle = Instance::from_entity_unchecked(eid(3), FOO);
    handle.map_entity(eid(30));
    assert_eq!(handle.entity(), eid(30));
    assert_eq!(handle.kind(), FOO);
}

#[test]
fn handles_compare_with_raw_ids() {
    let handle = Instance::from_entity_unchecked(eid(5), FOO);
    assert!(handle == eid(5));
    assert!(eid(5) == handle);
    assert!(handle != eid(6));

    let smaller = Instance::from_entity_unchecked(eid(4), BAR);
    assert!(smaller < handle);
    assert!(handle > smaller);
    let same_id_other_kind = Instance::from_entity_unchecked(eid(5), BAR);
    assert!(handle <= same_id_other_kind);
    assert!(handle >= same_id_other_kind);
}

#[test]
fn placeholder_is_bound_to_no_real_entity() {
    let p = Instance::placeholder(FOO);
    assert_eq!(p.entity().index, PLACEHOLDER_INDEX);
    assert_eq!(p.kind(), FOO);
}

#[test]
fn registry_names() {
    let mut reg = KindRegistry::new();
    let foo = reg.register_kind("Foo".to_string(), Predicate::Has(FOO));
    assert_eq!(reg.name_of(ANY_KIND), "Any");
    assert_eq!(reg.name_of(foo), "Foo");
}
