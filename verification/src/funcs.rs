//! Function objects handed to combinators: predicates for filtering,
//! transformations for input/output remapping, and key extractors for
//! grouping.  Each carries its own specification, so that a combinator
//! built from one has an exact contract.

use vstd::prelude::*;

verus! {

/// A predicate over input values.
pub trait Pred: Sized {
    /// The type tested.
    type T;

    /// What the predicate holds of.
    spec fn spec_pred(&self, x: Self::T) -> bool;

    /// Decide the predicate.
    fn test(&self, x: &Self::T) -> (r: bool)
        ensures
            r == self.spec_pred(*x),
    ;
}

/// A transformation of values, used to remap a reducer's inputs or
/// outputs.
pub trait Trans: Sized {
    /// Argument type.
    type In;

    /// Result type.
    type Out;

    /// When the transformation is defined (for instance, free of
    /// overflow).
    spec fn trans_req(&self, x: Self::In) -> bool;

    /// What the transformation computes.
    spec fn spec_trans(&self, x: Self::In) -> Self::Out;

    /// Apply the transformation.
    fn trans(&self, x: Self::In) -> (r: Self::Out)
        requires
            self.trans_req(x),
        ensures
            r == self.spec_trans(x),
    ;
}

/// A key extractor, used to route inputs to per-key accumulators.
pub trait KeyFn: Sized {
    /// The type keyed.
    type T;

    /// The key type.
    type K;

    /// The key of a value.
    spec fn spec_key(&self, x: Self::T) -> Self::K;

    /// Extract the key.
    fn key(&self, x: &Self::T) -> (k: Self::K)
        ensures
            k == self.spec_key(*x),
    ;

    /// Decide equality of two keys.
    fn key_eq(&self, a: &Self::K, b: &Self::K) -> (r: bool)
        ensures
            r == (a == b),
    ;
}

/// Holds of even numbers.
pub struct IsEven;

impl Pred for IsEven {
    type T = usize;

    open spec fn spec_pred(&self, x: usize) -> bool {
        x % 2 == 0
    }

    fn test(&self, x: &usize) -> bool {
        *x % 2 == 0
    }
}

/// The identity transformation.
pub struct IdTrans<A> {
    marker: core::marker::PhantomData<A>,
}

impl<A> IdTrans<A> {
    /// A fresh identity transformation.
    pub fn new() -> IdTrans<A> {
        IdTrans { marker: core::marker::PhantomData }
    }
}

impl<A> Trans for IdTrans<A> {
    type In = A;

    type Out = A;

    open spec fn trans_req(&self, x: A) -> bool {
        true
    }

    open spec fn spec_trans(&self, x: A) -> A {
        x
    }

    fn trans(&self, x: A) -> A {
        x
    }
}

/// Doubles a number.
pub struct Doubler;

impl Trans for Doubler {
    type In = usize;

    type Out = usize;

    open spec fn trans_req(&self, x: usize) -> bool {
        2 * x <= usize::MAX
    }

    open spec fn spec_trans(&self, x: usize) -> usize {
        (2 * x) as usize
    }

    fn trans(&self, x: usize) -> usize {
        2 * x
    }
}

/// Keys a number by its parity: 0 for even, 1 for odd.
pub struct ParityKey;

impl KeyFn for ParityKey {
    type T = usize;

    type K = usize;

    open spec fn spec_key(&self, x: usize) -> usize {
        x % 2
    }

    fn key(&self, x: &usize) -> usize {
        *x % 2
    }

    fn key_eq(&self, a: &usize, b: &usize) -> bool {
        *a == *b
    }
}


/// The sequence of transformed values.
pub open spec fn trans_seq<T: Trans>(t: &T, s: Seq<T::In>) -> Seq<T::Out> {
    s.map_values(|v: T::In| t.spec_trans(v))
}

} // verus!
