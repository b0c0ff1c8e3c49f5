//! Kind-typed entity handles over a retained entity-component world.
//!
//! An entity belongs to a *kind* when its current component membership
//! satisfies the predicate registered for that kind. This crate provides:
//!
//! - [`predicate::Predicate`]: boolean membership tests over component ids,
//!   composed from conjunction, disjunction and negation;
//! - [`registry::KindRegistry`]: the process-wide, write-once table binding
//!   each kind to its predicate and holding the declared cast rules;
//! - [`instance::Instance`]: an entity id paired with a kind discriminant,
//!   with checked, unchecked and cast constructors;
//! - [`world::WorldSnapshot`]: a component-membership view of a world,
//!   used to validate handles and to answer kind-filtered queries;
//! - [`accessor::InstanceRef`] and [`accessor::InstanceMut`]: a handle
//!   together with one component's data, constructed only after validating
//!   membership, with change marking on mutation;
//! - [`commands::InstanceCommands`]: deferred insert, remove and despawn
//!   commands recorded against a handle, all targeting its entity;
//! - [`trigger::InstanceTrigger`]: an event-propagation engine that walks a
//!   parent-like relation, re-dispatching an event to every related entity
//!   that matches a required kind.
//!
//! The host storage engine (archetypes, schedulers, observers) is an external
//! collaborator: this crate reasons over plain snapshots of the facts it
//! exposes, and every operation here is verified against that model.

pub mod accessor;
pub mod commands;
pub mod entity;
pub mod instance;
pub mod predicate;
pub mod registry;
pub mod trigger;
pub mod world;
