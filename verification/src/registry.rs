//! The process-wide kind table: predicates and declared cast rules.
//!
//! The registry binds each kind, identified by a small integer discriminant,
//! to exactly one membership predicate, and records the author-declared cast
//! rules. It is built once during startup registration and read-only
//! thereafter; a predicate, once registered, is never redefined.
//!
//! Declaring a cast rule from `a` to `b` asserts that `a`'s predicate implies
//! `b`'s predicate; [`KindRegistry::declare_rule`] demands that implication,
//! so every rule the table holds is sound. Casting a kind to itself, or to
//! the universal kind [`ANY_KIND`], needs no declaration; no other rule is
//! inferred, transitively or otherwise.

use vstd::prelude::*;

use crate::entity::EntityView;
use crate::predicate::Predicate;

verus! {

broadcast use vstd::string::group_string_axioms;

/// The discriminant of the universal kind, whose predicate accepts every
/// entity. It is registered by [`KindRegistry::new`] and exists in every
/// registry.
pub const ANY_KIND: usize = 0;

/// The write-once table binding each kind to its predicate and holding the
/// declared cast rules.
pub struct KindRegistry {
    names: Vec<String>,
    preds: Vec<Predicate>,
    rules: Vec<(usize, usize)>,
}

impl KindRegistry {
    /// How many kinds are registered. Kind discriminants are exactly the
    /// naturals below this count.
    pub closed spec fn kind_count(self) -> nat {
        self.preds@.len()
    }

    /// Whether `k` is a registered kind.
    pub open spec fn is_kind(self, k: usize) -> bool {
        k < self.kind_count()
    }

    /// The predicate bound to kind `k`.
    pub closed spec fn pred_of(self, k: usize) -> Predicate {
        self.preds@[k as int]
    }

    /// The human-readable name of kind `k`.
    pub closed spec fn spec_name_of(self, k: usize) -> Seq<char> {
        self.names@[k as int]@
    }

    /// Whether an entity holding exactly the components in `comps` is a
    /// member of kind `k`.
    pub open spec fn spec_matches(self, k: usize, comps: Seq<usize>) -> bool {
        self.pred_of(k).spec_eval(comps)
    }

    /// Whether a cast rule from `a` to `b` has been declared.
    pub closed spec fn declared(self, a: usize, b: usize) -> bool {
        self.rules@.contains((a, b))
    }

    /// Whether a handle of kind `a` may be safely re-tagged as kind `b`:
    /// identity and casts to the universal kind always hold, everything else
    /// needs a declared rule.
    pub open spec fn spec_castable(self, a: usize, b: usize) -> bool {
        a == b || b == ANY_KIND || self.declared(a, b)
    }

    /// The registry's invariant: the universal kind is registered under
    /// [`ANY_KIND`] with the predicate that accepts everything, every kind
    /// has a name, and every declared rule relates registered kinds whose
    /// predicates stand in implication.
    pub closed spec fn wf(self) -> bool {
        &&& self.preds@.len() >= 1
        &&& self.names@.len() == self.preds@.len()
        &&& self.preds@[ANY_KIND as int] == Predicate::True
        &&& forall|a: usize, b: usize| #[trigger] self.declared(a, b) ==> {
            &&& self.is_kind(a)
            &&& self.is_kind(b)
            &&& forall|comps: Seq<usize>|
                #[trigger] self.spec_matches(a, comps) ==> self.spec_matches(b, comps)
        }
    }

    /// Creates a registry holding only the universal kind and no cast rules.
    pub fn new() -> (r: KindRegistry)
        ensures
            r.wf(),
            r.kind_count() == 1,
            r.pred_of(ANY_KIND) == Predicate::True,
            r.spec_name_of(ANY_KIND) == "Any"@,
            forall|a: usize, b: usize| !r.declared(a, b),
    {
        let names = vec!["Any".to_string()];
        let preds = vec![Predicate::True];
        let r = KindRegistry { names, preds, rules: Vec::new() };
        proof {
            assert forall|a: usize, b: usize| !r.declared(a, b) by {
                assert(r.rules@.len() == 0);
            }
        }
        r
    }

    /// Registers a new kind under the given debug name, binding it to `pred`
    /// for the registry's lifetime, and returns its discriminant. Kinds
    /// already registered are untouched: a predicate is never redefined.
    pub fn register_kind(&mut self, name: String, pred: Predicate) -> (k: usize)
        requires
            old(self).wf(),
        ensures
            final(self).wf(),
            k == old(self).kind_count(),
            final(self).kind_count() == old(self).kind_count() + 1,
            final(self).pred_of(k) == pred,
            final(self).spec_name_of(k) == name@,
            forall|j: usize| old(self).is_kind(j) ==> final(self).pred_of(j) == old(self).pred_of(j),
            forall|j: usize| old(self).is_kind(j)
                ==> final(self).spec_name_of(j) == old(self).spec_name_of(j),
            forall|a: usize, b: usize| final(self).declared(a, b) == old(self).declared(a, b),
    {
        let k = self.preds.len();
        self.names.push(name);
        self.preds.push(pred);
        proof {
            assert forall|a: usize, b: usize| #[trigger] self.declared(a, b) implies {
                &&& self.is_kind(a)
                &&& self.is_kind(b)
                &&& forall|comps: Seq<usize>|
                    #[trigger] self.spec_matches(a, comps) ==> self.spec_matches(b, comps)
            } by {
                assert(old(self).declared(a, b));
                assert(self.pred_of(a) == old(self).pred_of(a));
                assert(self.pred_of(b) == old(self).pred_of(b));
                assert forall|comps: Seq<usize>|
                    #[trigger] self.spec_matches(a, comps) implies self.spec_matches(b, comps) by {
                    assert(old(self).spec_matches(a, comps));
                }
            }
        }
        k
    }

    /// Tests whether `k` is a registered kind.
    pub fn contains_kind(&self, k: usize) -> (r: bool)
        ensures
            r == self.is_kind(k),
    {
        k < self.preds.len()
    }

    /// The debug name of kind `k`, as registered.
    pub fn name_of(&self, k: usize) -> (r: &String)
        requires
            self.wf(),
            self.is_kind(k),
        ensures
            r@ == self.spec_name_of(k),
    {
        &self.names[k]
    }

    /// Tests whether the viewed entity is a member of kind `k`: the pure
    /// membership predicate, reading only component-membership facts.
    pub fn matches(&self, k: usize, view: &EntityView) -> (r: bool)
        requires
            self.is_kind(k),
        ensures
            r == self.spec_matches(k, view.component_ids()),
    {
        self.preds[k].eval(&view.components)
    }

    /// Declares the cast rule from `a` to `b`. The caller owes the fact the
    /// rule states: every entity matching `a`'s predicate matches `b`'s.
    pub fn declare_rule(&mut self, a: usize, b: usize)
        requires
            old(self).wf(),
            old(self).is_kind(a),
            old(self).is_kind(b),
            forall|comps: Seq<usize>|
                #[trigger] old(self).spec_matches(a, comps) ==> old(self).spec_matches(b, comps),
        ensures
            final(self).wf(),
            final(self).declared(a, b),
            final(self).kind_count() == old(self).kind_count(),
            forall|j: usize| old(self).is_kind(j) ==> final(self).pred_of(j) == old(self).pred_of(j),
            forall|j: usize| old(self).is_kind(j)
                ==> final(self).spec_name_of(j) == old(self).spec_name_of(j),
            forall|x: usize, y: usize|
                #[trigger] final(self).declared(x, y)
                    == (old(self).declared(x, y) || (x == a && y == b)),
    {
        self.rules.push((a, b));
        proof {
            assert(self.rules@ == old(self).rules@.push((a, b)));
            assert forall|x: usize, y: usize| #[trigger] self.declared(x, y)
                == (old(self).declared(x, y) || (x == a && y == b)) by {
                if old(self).declared(x, y) {
                    let i = choose|i: int|
                        0 <= i < old(self).rules@.len() && old(self).rules@[i] == (x, y);
                    assert(self.rules@[i] == (x, y));
                    assert(self.declared(x, y));
                }
                if x == a && y == b {
                    assert(self.rules@[self.rules@.len() - 1] == (a, b));
                    assert(self.declared(x, y));
                }
                if self.declared(x, y) {
                    let i = choose|i: int| 0 <= i < self.rules@.len() && self.rules@[i] == (x, y);
                    if i < old(self).rules@.len() {
                        assert(old(self).rules@[i] == (x, y));
                        assert(old(self).declared(x, y));
                    } else {
                        assert((x, y) == (a, b));
                    }
                }
            }
            assert forall|x: usize, y: usize| #[trigger] self.declared(x, y) implies {
                &&& self.is_kind(x)
                &&& self.is_kind(y)
                &&& forall|comps: Seq<usize>|
                    #[trigger] self.spec_matches(x, comps) ==> self.spec_matches(y, comps)
            } by {
                assert(self.pred_of(x) == old(self).pred_of(x));
                assert(self.pred_of(y) == old(self).pred_of(y));
                if old(self).declared(x, y) {
                    assert forall|comps: Seq<usize>|
                        #[trigger] self.spec_matches(x, comps) implies self.spec_matches(y, comps) by {
                        assert(old(self).spec_matches(x, comps));
                    }
                } else {
                    assert(x == a && y == b);
                    assert forall|comps: Seq<usize>|
                        #[trigger] self.spec_matches(x, comps) implies self.spec_matches(y, comps) by {
                        assert(old(self).spec_matches(a, comps));
                    }
                }
            }
        }
    }

    /// Tests whether a handle of kind `a` may be safely re-tagged as `b`.
    pub fn is_castable(&self, a: usize, b: usize) -> (r: bool)
        ensures
            r == self.spec_castable(a, b),
    {
        if a == b || b == ANY_KIND {
            return true;
        }
        let mut i: usize = 0;
        while i < self.rules.len()
            invariant
                i <= self.rules@.len(),
                forall|j: int| 0 <= j < i ==> self.rules@[j] != (a, b),
            decreases self.rules@.len() - i,
        {
            let (x, y) = self.rules[i];
            if x == a && y == b {
                assert(self.rules@[i as int] == (a, b));
                return true;
            }
            i = i + 1;
        }
        assert(!self.declared(a, b)) by {
            if self.declared(a, b) {
                let j = choose|j: int| 0 <= j < self.rules@.len() && self.rules@[j] == (a, b);
            }
        }
        false
    }

    /// Cast soundness: whenever a safe cast from `a` to `b` is permitted,
    /// every entity that is a member of `a` is also a member of `b`. A safe
    /// cast therefore never produces a handle whose entity fails the target
    /// kind's predicate.
    pub proof fn lemma_castable_sound(self, a: usize, b: usize, comps: Seq<usize>)
        requires
            self.wf(),
            self.is_kind(a),
            self.is_kind(b),
            self.spec_castable(a, b),
            self.spec_matches(a, comps),
        ensures
            self.spec_matches(b, comps),
    {
        if b == ANY_KIND {
            assert(self.pred_of(b) == Predicate::True);
        } else if a != b {
            assert(self.declared(a, b));
        }
    }

    /// Identity and the universal kind: every registered kind casts to
    /// itself and to [`ANY_KIND`] without any declaration.
    pub proof fn lemma_identity_and_any_castable(self, k: usize)
        ensures
            self.spec_castable(k, k),
            self.spec_castable(k, ANY_KIND),
    {
    }
}

} // verus!
