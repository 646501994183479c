//! The reducer abstraction: partial folds, total folds, and mergeable folds,
//! together with the spec-level semantics of running a reducer over a
//! sequence of inputs.

use vstd::prelude::*;

use crate::combinators::{Par2, FilteredFold, GroupedFold, PreMap, PostMap, ComposedFold, Batched,
    Many};
use crate::funcs::{Pred, Trans, KeyFn};

verus! {

/// A reduction that is always given at least one input.
///
/// Each implementation carries its own specification.  Contracts are
/// stated over mathematical models of the accumulator and output (`VM`,
/// `VB`): a plain accumulator such as an integer is its own model, while
/// a grouped accumulator held in a vector is modelled by a sequence.
/// `spec_init`, `spec_step` and `spec_output` say exactly what the
/// executable operations compute on those models, and `init_req` /
/// `step_req` / `output_req` say on which inputs the operations are
/// defined (for instance, a sum must not overflow its accumulator).
pub trait Fold1: Sized {
    /// Input type.
    type A;
    /// Output type.
    type B;
    /// Intermediate internal state.
    type M;
    /// Mathematical model of the intermediate state.
    type VM;
    /// Mathematical model of the output.
    type VB;

    /// The model of an accumulator value.
    spec fn m_model(&self, m: Self::M) -> Self::VM;

    /// The model of an output value.
    spec fn b_model(&self, b: Self::B) -> Self::VB;

    /// When the first input may initialize an accumulator.
    spec fn init_req(&self, x: Self::A) -> bool;

    /// The accumulator made from the first input.
    spec fn spec_init(&self, x: Self::A) -> Self::VM;

    /// When one more input may be folded into the accumulator.
    spec fn step_req(&self, x: Self::A, m: Self::VM) -> bool;

    /// The accumulator after one more input.
    spec fn spec_step(&self, x: Self::A, m: Self::VM) -> Self::VM;

    /// When the accumulator may be turned into an output.
    spec fn output_req(&self, m: Self::VM) -> bool;

    /// The output presented for an accumulator.
    spec fn spec_output(&self, m: Self::VM) -> Self::VB;

    /// Initialize state given the first element.
    fn init(&self, x: Self::A) -> (m: Self::M)
        requires
            self.init_req(x),
        ensures
            self.m_model(m) == self.spec_init(x),
    ;

    /// Update rule for the state given a new piece of data.
    fn step(&self, x: Self::A, acc: &mut Self::M)
        requires
            self.step_req(x, self.m_model(*old(acc))),
        ensures
            self.m_model(*final(acc)) == self.spec_step(x, self.m_model(*old(acc))),
    ;

    /// Final step that turns the internal state into an output.
    fn output(&self, acc: Self::M) -> (b: Self::B)
        requires
            self.output_req(self.m_model(acc)),
        ensures
            self.b_model(b) == self.spec_output(self.m_model(acc)),
    ;

    /// Only fold over input values satisfying the given predicate.
    fn filter<P: Pred<T = Self::A>>(self, pred: P) -> (r: FilteredFold<Self, P>)
        ensures
            r.inner == self,
            r.pred == pred,
    {
        FilteredFold { inner: self, pred }
    }

    /// Perform this fold grouped by a key; the output associates each key
    /// seen with the fold's output over that key's inputs.
    fn group_by<G: KeyFn<T = Self::A>>(self, get_key: G) -> (r: GroupedFold<Self, G>)
        ensures
            r.inner == self,
            r.get_key == get_key,
    {
        GroupedFold { inner: self, get_key }
    }

    /// Apply a function to all inputs.  This changes the input type of
    /// the fold (a contravariant map).
    fn pre_map<T: Trans<Out = Self::A>>(self, pre_func: T) -> (r: PreMap<Self, T>)
        ensures
            r.inner == self,
            r.pre_func == pre_func,
    {
        PreMap { inner: self, pre_func }
    }

    /// Apply a function to the output.  This changes the output type of
    /// the fold (a covariant map).
    fn post_map<T: Trans<In = Self::B>>(self, post_func: T) -> (r: PostMap<Self, T>)
        ensures
            r.inner == self,
            r.post_func == post_func,
    {
        PostMap { inner: self, post_func }
    }

    /// Batched version of this fold: the input type becomes a chunk of
    /// items.
    fn batched(self) -> (r: Batched<Self>)
        ensures
            r.inner == self,
    {
        Batched { inner: self }
    }

    /// Parallelize this fold with itself over a wide input: `n`
    /// independent lanes.
    fn many(self, n: usize) -> (r: Many<Self>)
        ensures
            r.inner == self,
            r.n == n,
    {
        Many { inner: self, n }
    }
}

/// Perform one fold in parallel with another over the same inputs.  (A
/// trait method whose type parameter is bound by this same trait is not
/// supported, so pairing is a free function.)
pub fn par<F1: Fold1, F2: Fold1<A = F1::A>>(f1: F1, f2: F2) -> (r: Par2<F1, F2>)
    ensures
        r.f1 == f1,
        r.f2 == f2,
{
    Par2 { f1, f2 }
}

/// Compose two folds sequentially: the second is folded over the running
/// outputs of the first.  (A trait method whose type parameter is bound
/// by this same trait is not supported, so composition is a free
/// function.)
pub fn compose<F1: Fold1, F2: Fold<A = F1::B>>(first: F1, second: F2) -> (r: ComposedFold<
    F1,
    F2,
>)
    ensures
        r.first == first,
        r.second == second,
{
    ComposedFold { first, second }
}

/// A reducer whose output value is its own model.  Remapping or composing
/// on a reducer's output feeds that output to another specified function,
/// which is only meaningful when the output needs no abstraction.
pub trait PlainOutput: Fold1<VB = <Self as Fold1>::B> {
    /// Law: the output model is the output itself.
    proof fn output_is_model(&self, b: Self::B)
        ensures
            self.b_model(b) == b,
    ;
}

/// Update rule for the state given a chunk of data: steps every element
/// of the chunk into the accumulator, in order.  (A trait member cannot
/// state this sequence semantics without a cyclic definition, so the
/// chunk update is a free function over any reducer.)
pub fn step_chunk<F: Fold1>(f: &F, xs: Vec<F::A>, acc: &mut F::M)
    requires
        steps_req(f, xs@, f.m_model(*old(acc))),
    ensures
        f.m_model(*final(acc)) == fold_steps(f, xs@, f.m_model(*old(acc))),
{
    let mut rest = xs;
    while rest.len() > 0
        invariant
            steps_req(f, rest@, f.m_model(*acc)),
            fold_steps(f, rest@, f.m_model(*acc)) == fold_steps(f, xs@, f.m_model(*old(acc))),
        decreases rest.len(),
    {
        let x = rest.remove(0);
        f.step(x, acc);
    }
}

/// A fold with an identity accumulator, usable before any input arrives.
pub trait Fold: Fold1 {
    /// The identity accumulator.
    spec fn spec_empty(&self) -> Self::VM;

    /// When the identity accumulator may be built.
    spec fn empty_req(&self) -> bool;

    /// Whether the identity accumulator truly behaves as an identity:
    /// stepping the first input onto it is the same as `init`.  Reducers
    /// whose `init` is not equivalent to a first `step` (a filter lets the
    /// first input bypass its predicate; a sequential composition feeds
    /// the empty state's output to its second stage) set this to false.
    spec fn empty_ok(&self) -> bool;

    fn empty(&self) -> (m: Self::M)
        requires
            self.empty_req(),
        ensures
            self.m_model(m) == self.spec_empty(),
    ;

    /// Law: when `empty_ok` holds, folding from the identity accumulator
    /// agrees with initializing from the first input.
    proof fn empty_is_identity(&self, x: Self::A)
        requires
            self.empty_ok(),
        ensures
            self.init_req(x) <==> self.step_req(x, self.spec_empty()),
            self.init_req(x) ==> self.spec_step(x, self.spec_empty()) == self.spec_init(x),
    ;
}

/// A fold whose intermediate states can be merged, allowing partial
/// accumulators built over disjoint input partitions to be combined.
pub trait FoldPar: Fold1 {
    /// When two accumulators may be merged.
    spec fn merge_req(&self, m1: Self::VM, m2: Self::VM) -> bool;

    /// The merged accumulator.
    spec fn spec_merge(&self, m1: Self::VM, m2: Self::VM) -> Self::VM;

    /// Whether the merge is exact: combining the accumulators of two runs
    /// gives exactly the accumulator of the concatenated run.  A reducer
    /// whose merge is an approximation (a reservoir sampler replaying one
    /// sample through the other) or whose `init` does not commute with
    /// partitioning (a filter lets the first input of every partition
    /// bypass its predicate) sets this to false, and the
    /// chunking-independence law is not available for it.
    spec fn merge_exact(&self) -> bool;

    /// Merge `m2` into `m1` in place, discarding `m2`.
    fn merge(&self, m1: &mut Self::M, m2: Self::M)
        requires
            self.merge_req(self.m_model(*old(m1)), self.m_model(m2)),
        ensures
            self.m_model(*final(m1)) == self.spec_merge(
                self.m_model(*old(m1)),
                self.m_model(m2),
            ),
    ;

    /// Law: for an exact merge, merging the accumulators of two non-empty
    /// runs yields the accumulator of the run over the concatenation.
    proof fn merge_law(&self, s1: Seq<Self::A>, s2: Seq<Self::A>)
        requires
            self.merge_exact(),
            s1.len() > 0,
            s2.len() > 0,
            fold1_req(self, s1),
            fold1_req(self, s2),
            fold1_req(self, s1 + s2),
        ensures
            self.merge_req(fold1(self, s1), fold1(self, s2)),
            self.spec_merge(fold1(self, s1), fold1(self, s2)) == fold1(self, s1 + s2),
    ;
}

/// The accumulator after stepping every element of `s`, in order, onto `m`.
pub open spec fn fold_steps<F: Fold1>(f: &F, s: Seq<F::A>, m: F::VM) -> F::VM
    decreases s.len(),
{
    if s.len() == 0 {
        m
    } else {
        fold_steps(f, s.drop_first(), f.spec_step(s[0], m))
    }
}

/// Whether every step of `fold_steps(f, s, m)` satisfies `step_req`.
pub open spec fn steps_req<F: Fold1>(f: &F, s: Seq<F::A>, m: F::VM) -> bool
    decreases s.len(),
{
    if s.len() == 0 {
        true
    } else {
        f.step_req(s[0], m) && steps_req(f, s.drop_first(), f.spec_step(s[0], m))
    }
}

/// The accumulator of a partial fold over a non-empty sequence: the first
/// element goes through `init`, the rest through `step`.
pub open spec fn fold1<F: Fold1>(f: &F, s: Seq<F::A>) -> F::VM
    recommends
        s.len() > 0,
{
    fold_steps(f, s.drop_first(), f.spec_init(s[0]))
}

/// Whether a partial fold over `s` is defined at every point.
pub open spec fn fold1_req<F: Fold1>(f: &F, s: Seq<F::A>) -> bool {
    s.len() > 0 && f.init_req(s[0]) && steps_req(f, s.drop_first(), f.spec_init(s[0]))
}

/// The accumulator of a total fold over `s`, starting from the identity.
pub open spec fn fold_total<F: Fold>(f: &F, s: Seq<F::A>) -> F::VM {
    fold_steps(f, s, f.spec_empty())
}

/// Whether a total fold over `s` is defined at every point.
pub open spec fn fold_total_req<F: Fold>(f: &F, s: Seq<F::A>) -> bool {
    f.empty_req() && steps_req(f, s, f.spec_empty())
}

/// Stepping a sequence extended by one element steps that element last.
pub proof fn lemma_fold_steps_snoc<F: Fold1>(f: &F, s: Seq<F::A>, x: F::A, m: F::VM)
    ensures
        fold_steps(f, s.push(x), m) == f.spec_step(x, fold_steps(f, s, m)),
    decreases s.len(),
{
    if s.len() == 0 {
        assert(s.push(x)[0] == x);
        assert(s.push(x).drop_first() =~= Seq::<F::A>::empty());
        assert(fold_steps(f, Seq::<F::A>::empty(), f.spec_step(x, m)) == f.spec_step(x, m));
        assert(fold_steps(f, s, m) == m);
    } else {
        assert(s.push(x)[0] == s[0]);
        assert(s.push(x).drop_first() =~= s.drop_first().push(x));
        lemma_fold_steps_snoc(f, s.drop_first(), x, f.spec_step(s[0], m));
    }
}

/// `steps_req` of a sequence extended by one element.
pub proof fn lemma_steps_req_snoc<F: Fold1>(f: &F, s: Seq<F::A>, x: F::A, m: F::VM)
    ensures
        steps_req(f, s.push(x), m) <==> steps_req(f, s, m) && f.step_req(
            x,
            fold_steps(f, s, m),
        ),
    decreases s.len(),
{
    if s.len() == 0 {
        assert(s.push(x)[0] == x);
        assert(s.push(x).drop_first() =~= Seq::<F::A>::empty());
        assert(steps_req(f, Seq::<F::A>::empty(), f.spec_step(x, m)));
        assert(fold_steps(f, s, m) == m);
        assert(steps_req(f, s, m));
    } else {
        assert(s.push(x)[0] == s[0]);
        assert(s.push(x).drop_first() =~= s.drop_first().push(x));
        lemma_steps_req_snoc(f, s.drop_first(), x, f.spec_step(s[0], m));
    }
}

/// Stepping a concatenation is stepping the two parts in order.
pub proof fn lemma_fold_steps_concat<F: Fold1>(f: &F, s1: Seq<F::A>, s2: Seq<F::A>, m: F::VM)
    ensures
        fold_steps(f, s1 + s2, m) == fold_steps(f, s2, fold_steps(f, s1, m)),
    decreases s1.len(),
{
    if s1.len() == 0 {
        assert(s1 + s2 =~= s2);
        assert(fold_steps(f, s1, m) == m);
    } else {
        assert((s1 + s2)[0] == s1[0]);
        assert((s1 + s2).drop_first() =~= s1.drop_first() + s2);
        lemma_fold_steps_concat(f, s1.drop_first(), s2, f.spec_step(s1[0], m));
    }
}

/// `steps_req` of a concatenation splits into the two parts.
pub proof fn lemma_steps_req_concat<F: Fold1>(f: &F, s1: Seq<F::A>, s2: Seq<F::A>, m: F::VM)
    ensures
        steps_req(f, s1 + s2, m) <==> steps_req(f, s1, m) && steps_req(
            f,
            s2,
            fold_steps(f, s1, m),
        ),
    decreases s1.len(),
{
    if s1.len() == 0 {
        assert(s1 + s2 =~= s2);
        assert(fold_steps(f, s1, m) == m);
        assert(steps_req(f, s1, m));
    } else {
        assert((s1 + s2)[0] == s1[0]);
        assert((s1 + s2).drop_first() =~= s1.drop_first() + s2);
        lemma_steps_req_concat(f, s1.drop_first(), s2, f.spec_step(s1[0], m));
    }
}

/// A partial fold over a concatenation continues the fold of the first
/// part through the second part.
pub proof fn lemma_fold1_concat<F: Fold1>(f: &F, s1: Seq<F::A>, s2: Seq<F::A>)
    requires
        s1.len() > 0,
    ensures
        fold1(f, s1 + s2) == fold_steps(f, s2, fold1(f, s1)),
        fold1_req(f, s1 + s2) <==> fold1_req(f, s1) && steps_req(f, s2, fold1(f, s1)),
{
    assert((s1 + s2).drop_first() =~= s1.drop_first() + s2);
    assert((s1 + s2)[0] == s1[0]);
    lemma_fold_steps_concat(f, s1.drop_first(), s2, f.spec_init(s1[0]));
    lemma_steps_req_concat(f, s1.drop_first(), s2, f.spec_init(s1[0]));
}

/// For a reducer whose identity accumulator is genuine, the total fold of
/// a non-empty sequence equals the partial fold.
pub proof fn lemma_fold_total_is_fold1<F: Fold>(f: &F, s: Seq<F::A>)
    requires
        f.empty_ok(),
        s.len() > 0,
    ensures
        steps_req(f, s, f.spec_empty()) <==> fold1_req(f, s),
        f.init_req(s[0]) ==> fold_total(f, s) == fold1(f, s),
{
    f.empty_is_identity(s[0]);
}

/// For an exact merge with a genuine identity, merging the accumulators
/// of two non-empty total folds yields the total fold over the
/// concatenation.
pub proof fn lemma_merge_law_total<F: Fold + FoldPar>(f: &F, s1: Seq<F::A>, s2: Seq<F::A>)
    requires
        f.merge_exact(),
        f.empty_ok(),
        s1.len() > 0,
        s2.len() > 0,
        fold_total_req(f, s1),
        fold_total_req(f, s2),
        fold_total_req(f, s1 + s2),
    ensures
        f.merge_req(fold_total(f, s1), fold_total(f, s2)),
        f.spec_merge(fold_total(f, s1), fold_total(f, s2)) == fold_total(f, s1 + s2),
{
    lemma_fold_total_is_fold1(f, s1);
    lemma_fold_total_is_fold1(f, s2);
    assert((s1 + s2)[0] == s1[0]);
    assert((s1 + s2).len() > 0);
    lemma_fold_total_is_fold1(f, s1 + s2);
    f.merge_law(s1, s2);
}


/// A partial fold over a sequence extended by one element steps that
/// element last.
pub proof fn lemma_fold1_snoc<F: Fold1>(f: &F, s: Seq<F::A>, x: F::A)
    requires
        s.len() > 0,
    ensures
        fold1(f, s.push(x)) == f.spec_step(x, fold1(f, s)),
        fold1_req(f, s.push(x)) <==> fold1_req(f, s) && f.step_req(x, fold1(f, s)),
{
    assert(s.push(x)[0] == s[0]);
    assert(s.push(x).drop_first() =~= s.drop_first().push(x));
    lemma_fold_steps_snoc(f, s.drop_first(), x, f.spec_init(s[0]));
    lemma_steps_req_snoc(f, s.drop_first(), x, f.spec_init(s[0]));
}

} // verus!
