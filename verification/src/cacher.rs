//! A memoizing cache for a pure computation.

use vstd::prelude::*;

use core::hash::Hash;
use std::collections::HashMap;
use vstd::std_specs::hash::obeys_key_model;

verus! {

broadcast use vstd::std_specs::hash::group_hash_axioms;

/// A single-argument result cache. It wraps a calculation and a map of the
/// results the calculation has already produced, keyed by exact input
/// equality. A result, once stored, is never recomputed and never evicted.
///
/// The calculation is meant to be pure: what it may return for an input is
/// whatever its own contract allows, and every stored result is one such
/// value. The ghost field counts how often the calculation has been invoked,
/// so that the contracts can say when it is not.
#[verifier::reject_recursive_types(U)]
pub struct Cacher<T, U> where T: Fn(&U) -> U, U: Eq + Hash + Copy {
    calculation: T,
    values: HashMap<U, U>,
    invocations: Ghost<nat>,
}

impl<T, U> Cacher<T, U> where T: Fn(&U) -> U, U: Eq + Hash + Copy {
    /// The results stored so far, as a map from input to output.
    pub closed spec fn cached(self) -> Map<U, U> {
        self.values@
    }

    /// The wrapped calculation.
    pub closed spec fn fun(self) -> T {
        self.calculation
    }

    /// How often the wrapped calculation has been invoked.
    pub closed spec fn invocations(self) -> nat {
        self.invocations@
    }

    /// Every stored result is a value the calculation's own contract allows
    /// for its key. Keys of this type must also behave as hash-map keys:
    /// their equality must agree with logical equality.
    pub open spec fn wf(self) -> bool {
        &&& obeys_key_model::<U>()
        &&& forall|k: U|
            self.cached().contains_key(k) ==> call_ensures(self.fun(), (&k,), self.cached()[k])
    }

    /// Wraps `calculation` with an empty cache. Nothing is computed yet.
    pub fn new(calculation: T) -> (result: Cacher<T, U>)
        ensures
            result.cached() == Map::<U, U>::empty(),
            result.fun() == calculation,
            result.invocations() == 0,
            obeys_key_model::<U>() ==> result.wf(),
    {
        Cacher { calculation, values: HashMap::new(), invocations: Ghost(0) }
    }

    /// The result of the calculation on `val`, from the cache when `val` was
    /// seen before — the calculation is then not invoked — and freshly
    /// computed and stored otherwise.
    pub fn value(&mut self, val: U) -> (result: U)
        requires
            old(self).wf(),
            call_requires(old(self).fun(), (&val,)),
        ensures
            final(self).wf(),
            final(self).fun() == old(self).fun(),
            call_ensures(final(self).fun(), (&val,), result),
            final(self).cached() == old(self).cached().insert(val, result),
            old(self).cached().contains_key(val) ==> result == old(self).cached()[val]
                && final(self).cached() == old(self).cached() && final(self).invocations() == old(
                self,
            ).invocations(),
            !old(self).cached().contains_key(val) ==> final(self).invocations() == old(
                self,
            ).invocations() + 1,
    {
        match self.values.get(&val) {
            Some(v) => {
                proof {
                    assert(old(self).cached().insert(val, *v) =~= old(self).cached());
                }
                *v
            },
            None => {
                let result = (self.calculation)(&val);
                self.values.insert(val, result);
                self.invocations = Ghost(self.invocations@ + 1);
                proof {
                    assert forall|k: U| self.cached().contains_key(k) implies call_ensures(
                        self.fun(),
                        (&k,),
                        self.cached()[k],
                    ) by {
                        if k != val {
                            assert(old(self).cached().contains_key(k));
                        }
                    }
                }
                result
            },
        }
    }
}

} // verus!
