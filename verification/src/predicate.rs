//! Kind membership predicates.
//!
//! A predicate is a pure boolean test over an entity's component membership,
//! composed from component tests with conjunction, disjunction and negation.
//! The universal predicate `True` accepts every entity and defines the `Any`
//! kind.

use vstd::prelude::*;

use crate::entity::{ids_of, ComponentSlot};

verus! {

/// A boolean membership test over an entity's component-membership snapshot.
#[derive(Debug)]
pub enum Predicate {
    /// Accepts every entity; the predicate of the `Any` kind.
    True,
    /// Accepts entities holding the component with this id.
    Has(usize),
    /// Accepts entities rejected by the inner predicate.
    Not(Box<Predicate>),
    /// Accepts entities accepted by both inner predicates.
    And(Box<Predicate>, Box<Predicate>),
    /// Accepts entities accepted by at least one inner predicate.
    Or(Box<Predicate>, Box<Predicate>),
}

impl Predicate {
    /// What the predicate means: whether an entity holding exactly the
    /// components in `comps` belongs to it.
    pub open spec fn spec_eval(self, comps: Seq<usize>) -> bool
        decreases self,
    {
        match self {
            Predicate::True => true,
            Predicate::Has(c) => comps.contains(c),
            Predicate::Not(p) => !p.spec_eval(comps),
            Predicate::And(p, q) => p.spec_eval(comps) && q.spec_eval(comps),
            Predicate::Or(p, q) => p.spec_eval(comps) || q.spec_eval(comps),
        }
    }

    /// Evaluates the predicate against an entity's component slots.
    ///
    /// Pure: reads only membership facts, mutates nothing.
    pub fn eval(&self, slots: &Vec<ComponentSlot>) -> (r: bool)
        ensures
            r == self.spec_eval(ids_of(slots@)),
        decreases *self,
    {
        match self {
            Predicate::True => true,
            Predicate::Has(c) => crate::entity::find_slot(slots, *c).is_some(),
            Predicate::Not(p) => !p.eval(slots),
            Predicate::And(p, q) => p.eval(slots) && q.eval(slots),
            Predicate::Or(p, q) => p.eval(slots) || q.eval(slots),
        }
    }
}

} // verus!
