//! The combinator algebra: operators that build new reducer definitions
//! from existing ones.

use vstd::prelude::*;

use crate::fold::{Fold1, Fold, FoldPar, PlainOutput, step_chunk};
use crate::fold::{fold1, fold1_req, fold_steps, steps_req, lemma_fold1_snoc};
use crate::funcs::{Pred, Trans, KeyFn, IdTrans, trans_seq};

verus! {

/// Runs two reducers over the same inputs; the output is the pair of
/// their outputs.
pub struct Par2<F1, F2> {
    /// The left reducer.
    pub f1: F1,
    /// The right reducer.
    pub f2: F2,
}

impl<I: Copy, F1: Fold1<A = I>, F2: Fold1<A = I>> Fold1 for Par2<F1, F2> {
    type A = I;

    type B = (F1::B, F2::B);

    type M = (F1::M, F2::M);

    type VM = (F1::VM, F2::VM);

    type VB = (F1::VB, F2::VB);

    open spec fn m_model(&self, m: Self::M) -> Self::VM {
        (self.f1.m_model(m.0), self.f2.m_model(m.1))
    }

    open spec fn b_model(&self, b: Self::B) -> Self::VB {
        (self.f1.b_model(b.0), self.f2.b_model(b.1))
    }

    open spec fn init_req(&self, x: I) -> bool {
        self.f1.init_req(x) && self.f2.init_req(x)
    }

    open spec fn spec_init(&self, x: I) -> Self::VM {
        (self.f1.spec_init(x), self.f2.spec_init(x))
    }

    open spec fn step_req(&self, x: I, m: Self::VM) -> bool {
        self.f1.step_req(x, m.0) && self.f2.step_req(x, m.1)
    }

    open spec fn spec_step(&self, x: I, m: Self::VM) -> Self::VM {
        (self.f1.spec_step(x, m.0), self.f2.spec_step(x, m.1))
    }

    open spec fn output_req(&self, m: Self::VM) -> bool {
        self.f1.output_req(m.0) && self.f2.output_req(m.1)
    }

    open spec fn spec_output(&self, m: Self::VM) -> Self::VB {
        (self.f1.spec_output(m.0), self.f2.spec_output(m.1))
    }

    fn init(&self, x: I) -> Self::M {
        (self.f1.init(x), self.f2.init(x))
    }

    fn step(&self, x: I, acc: &mut Self::M) {
        self.f1.step(x, &mut acc.0);
        self.f2.step(x, &mut acc.1);
    }

    fn output(&self, acc: Self::M) -> Self::B {
        let (a1, a2) = acc;
        (self.f1.output(a1), self.f2.output(a2))
    }
}

impl<I: Copy, F1: Fold<A = I>, F2: Fold<A = I>> Fold for Par2<F1, F2> {
    open spec fn spec_empty(&self) -> Self::VM {
        (self.f1.spec_empty(), self.f2.spec_empty())
    }

    open spec fn empty_req(&self) -> bool {
        self.f1.empty_req() && self.f2.empty_req()
    }

    open spec fn empty_ok(&self) -> bool {
        self.f1.empty_ok() && self.f2.empty_ok()
    }

    fn empty(&self) -> Self::M {
        (self.f1.empty(), self.f2.empty())
    }

    proof fn empty_is_identity(&self, x: I) {
        self.f1.empty_is_identity(x);
        self.f2.empty_is_identity(x);
    }
}

impl<I: Copy, F1: Fold1<A = I> + PlainOutput, F2: Fold1<A = I> + PlainOutput> PlainOutput for Par2<
    F1,
    F2,
> {
    proof fn output_is_model(&self, b: Self::B) {
        self.f1.output_is_model(b.0);
        self.f2.output_is_model(b.1);
    }
}

/// Pairwise folds distribute over the pair of component folds.
pub proof fn lemma_par2_steps<I: Copy, F1: Fold1<A = I>, F2: Fold1<A = I>>(
    p: &Par2<F1, F2>,
    s: Seq<I>,
    m: (F1::VM, F2::VM),
)
    ensures
        fold_steps(p, s, m) == (fold_steps(&p.f1, s, m.0), fold_steps(&p.f2, s, m.1)),
        steps_req(p, s, m) <==> steps_req(&p.f1, s, m.0) && steps_req(&p.f2, s, m.1),
    decreases s.len(),
{
    if s.len() == 0 {
        assert(m == (m.0, m.1));
    } else {
        lemma_par2_steps(p, s.drop_first(), p.spec_step(s[0], m));
    }
}

impl<I: Copy, F1: FoldPar<A = I>, F2: FoldPar<A = I>> FoldPar for Par2<F1, F2> {
    open spec fn merge_req(&self, m1: Self::VM, m2: Self::VM) -> bool {
        self.f1.merge_req(m1.0, m2.0) && self.f2.merge_req(m1.1, m2.1)
    }

    open spec fn spec_merge(&self, m1: Self::VM, m2: Self::VM) -> Self::VM {
        (self.f1.spec_merge(m1.0, m2.0), self.f2.spec_merge(m1.1, m2.1))
    }

    open spec fn merge_exact(&self) -> bool {
        self.f1.merge_exact() && self.f2.merge_exact()
    }

    fn merge(&self, m1: &mut Self::M, m2: Self::M) {
        let (a, b) = m2;
        self.f1.merge(&mut m1.0, a);
        self.f2.merge(&mut m1.1, b);
    }

    proof fn merge_law(&self, s1: Seq<I>, s2: Seq<I>) {
        assert((s1 + s2)[0] == s1[0]);
        assert((s1 + s2).drop_first() =~= s1.drop_first() + s2);
        lemma_par2_steps(self, s1.drop_first(), self.spec_init(s1[0]));
        lemma_par2_steps(self, s2.drop_first(), self.spec_init(s2[0]));
        lemma_par2_steps(self, (s1 + s2).drop_first(), self.spec_init((s1 + s2)[0]));
        self.f1.merge_law(s1, s2);
        self.f2.merge_law(s1, s2);
        assert(fold1(self, s1) == (fold1(&self.f1, s1), fold1(&self.f2, s1)));
        assert(fold1(self, s2) == (fold1(&self.f1, s2), fold1(&self.f2, s2)));
        assert(fold1(self, s1 + s2) == (fold1(&self.f1, s1 + s2), fold1(&self.f2, s1 + s2)));
    }
}

/// Applies a reducer only to the inputs that satisfy a predicate.  As in
/// every partial fold, the first input goes through `init` and therefore
/// bypasses the predicate; only `step` consults it.
pub struct FilteredFold<F, P> {
    /// The underlying reducer.
    pub inner: F,
    /// The predicate an input must satisfy to be stepped.
    pub pred: P,
}

impl<F: Fold1, P: Pred<T = F::A>> Fold1 for FilteredFold<F, P> {
    type A = F::A;

    type B = F::B;

    type M = F::M;

    type VM = F::VM;

    type VB = F::VB;

    open spec fn m_model(&self, m: F::M) -> F::VM {
        self.inner.m_model(m)
    }

    open spec fn b_model(&self, b: F::B) -> F::VB {
        self.inner.b_model(b)
    }

    open spec fn init_req(&self, x: F::A) -> bool {
        self.inner.init_req(x)
    }

    open spec fn spec_init(&self, x: F::A) -> F::VM {
        self.inner.spec_init(x)
    }

    open spec fn step_req(&self, x: F::A, m: F::VM) -> bool {
        self.pred.spec_pred(x) ==> self.inner.step_req(x, m)
    }

    open spec fn spec_step(&self, x: F::A, m: F::VM) -> F::VM {
        if self.pred.spec_pred(x) {
            self.inner.spec_step(x, m)
        } else {
            m
        }
    }

    open spec fn output_req(&self, m: F::VM) -> bool {
        self.inner.output_req(m)
    }

    open spec fn spec_output(&self, m: F::VM) -> F::VB {
        self.inner.spec_output(m)
    }

    fn init(&self, x: F::A) -> F::M {
        self.inner.init(x)
    }

    fn step(&self, x: F::A, acc: &mut F::M) {
        if self.pred.test(&x) {
            self.inner.step(x, acc);
        }
    }

    fn output(&self, acc: F::M) -> F::B {
        self.inner.output(acc)
    }
}

impl<F: Fold, P: Pred<T = F::A>> Fold for FilteredFold<F, P> {
    open spec fn spec_empty(&self) -> F::VM {
        self.inner.spec_empty()
    }

    open spec fn empty_req(&self) -> bool {
        self.inner.empty_req()
    }

    /// Not an identity here: `init` bypasses the predicate, so a first
    /// `step` from the identity accumulator may drop an input that `init`
    /// would have kept.
    open spec fn empty_ok(&self) -> bool {
        false
    }

    fn empty(&self) -> F::M {
        self.inner.empty()
    }

    proof fn empty_is_identity(&self, x: F::A) {
    }
}

impl<F: Fold1 + PlainOutput, P: Pred<T = F::A>> PlainOutput for FilteredFold<F, P> {
    proof fn output_is_model(&self, b: Self::B) {
        self.inner.output_is_model(b);
    }
}

impl<F: FoldPar, P: Pred<T = F::A>> FoldPar for FilteredFold<F, P> {
    open spec fn merge_req(&self, m1: F::VM, m2: F::VM) -> bool {
        self.inner.merge_req(m1, m2)
    }

    open spec fn spec_merge(&self, m1: F::VM, m2: F::VM) -> F::VM {
        self.inner.spec_merge(m1, m2)
    }

    /// Not exact: the first input of every partition bypasses the
    /// predicate, so how the input is partitioned shows in the result.
    open spec fn merge_exact(&self) -> bool {
        false
    }

    fn merge(&self, m1: &mut F::M, m2: F::M) {
        self.inner.merge(m1, m2)
    }

    proof fn merge_law(&self, s1: Seq<F::A>, s2: Seq<F::A>) {
    }
}


/// Applies a transformation to every input before handing it to the
/// underlying reducer.
pub struct PreMap<F, T> {
    /// The underlying reducer.
    pub inner: F,
    /// The transformation applied to each input.
    pub pre_func: T,
}

impl<F: Fold1, T: Trans<Out = F::A>> Fold1 for PreMap<F, T> {
    type A = T::In;

    type B = F::B;

    type M = F::M;

    type VM = F::VM;

    type VB = F::VB;

    open spec fn m_model(&self, m: F::M) -> F::VM {
        self.inner.m_model(m)
    }

    open spec fn b_model(&self, b: F::B) -> F::VB {
        self.inner.b_model(b)
    }

    open spec fn init_req(&self, x: T::In) -> bool {
        self.pre_func.trans_req(x) && self.inner.init_req(self.pre_func.spec_trans(x))
    }

    open spec fn spec_init(&self, x: T::In) -> F::VM {
        self.inner.spec_init(self.pre_func.spec_trans(x))
    }

    open spec fn step_req(&self, x: T::In, m: F::VM) -> bool {
        self.pre_func.trans_req(x) && self.inner.step_req(self.pre_func.spec_trans(x), m)
    }

    open spec fn spec_step(&self, x: T::In, m: F::VM) -> F::VM {
        self.inner.spec_step(self.pre_func.spec_trans(x), m)
    }

    open spec fn output_req(&self, m: F::VM) -> bool {
        self.inner.output_req(m)
    }

    open spec fn spec_output(&self, m: F::VM) -> F::VB {
        self.inner.spec_output(m)
    }

    fn init(&self, x: T::In) -> F::M {
        self.inner.init(self.pre_func.trans(x))
    }

    fn step(&self, x: T::In, acc: &mut F::M) {
        self.inner.step(self.pre_func.trans(x), acc)
    }

    fn output(&self, acc: F::M) -> F::B {
        self.inner.output(acc)
    }
}

impl<F: Fold, T: Trans<Out = F::A>> Fold for PreMap<F, T> {
    open spec fn spec_empty(&self) -> F::VM {
        self.inner.spec_empty()
    }

    open spec fn empty_req(&self) -> bool {
        self.inner.empty_req()
    }

    open spec fn empty_ok(&self) -> bool {
        self.inner.empty_ok()
    }

    fn empty(&self) -> F::M {
        self.inner.empty()
    }

    proof fn empty_is_identity(&self, x: T::In) {
        self.inner.empty_is_identity(self.pre_func.spec_trans(x));
    }
}

impl<F: Fold1 + PlainOutput, T: Trans<Out = F::A>> PlainOutput for PreMap<F, T> {
    proof fn output_is_model(&self, b: Self::B) {
        self.inner.output_is_model(b);
    }
}

/// A remapped fold agrees with the underlying fold over the transformed
/// sequence.
pub proof fn lemma_premap_steps<F: Fold1, T: Trans<Out = F::A>>(
    p: &PreMap<F, T>,
    s: Seq<T::In>,
    m: F::VM,
)
    ensures
        fold_steps(p, s, m) == fold_steps(&p.inner, trans_seq(&p.pre_func, s), m),
        steps_req(p, s, m) ==> steps_req(&p.inner, trans_seq(&p.pre_func, s), m),
    decreases s.len(),
{
    let ms = trans_seq(&p.pre_func, s);
    if s.len() == 0 {
        assert(ms =~= Seq::<F::A>::empty());
    } else {
        assert(ms[0] == p.pre_func.spec_trans(s[0]));
        assert(ms.drop_first() =~= trans_seq(&p.pre_func, s.drop_first()));
        lemma_premap_steps(p, s.drop_first(), p.spec_step(s[0], m));
    }
}

impl<F: FoldPar, T: Trans<Out = F::A>> FoldPar for PreMap<F, T> {
    open spec fn merge_req(&self, m1: F::VM, m2: F::VM) -> bool {
        self.inner.merge_req(m1, m2)
    }

    open spec fn spec_merge(&self, m1: F::VM, m2: F::VM) -> F::VM {
        self.inner.spec_merge(m1, m2)
    }

    open spec fn merge_exact(&self) -> bool {
        self.inner.merge_exact()
    }

    fn merge(&self, m1: &mut F::M, m2: F::M) {
        self.inner.merge(m1, m2)
    }

    proof fn merge_law(&self, s1: Seq<T::In>, s2: Seq<T::In>) {
        let t = &self.pre_func;
        let ms1 = trans_seq(t, s1);
        let ms2 = trans_seq(t, s2);
        let ms12 = trans_seq(t, s1 + s2);
        assert(ms12 =~= ms1 + ms2);
        assert(ms1[0] == t.spec_trans(s1[0]));
        assert(ms2[0] == t.spec_trans(s2[0]));
        assert((s1 + s2)[0] == s1[0]);
        assert(ms1.drop_first() =~= trans_seq(t, s1.drop_first()));
        assert(ms2.drop_first() =~= trans_seq(t, s2.drop_first()));
        assert((ms1 + ms2).drop_first() =~= trans_seq(t, (s1 + s2).drop_first()));
        lemma_premap_steps(self, s1.drop_first(), self.spec_init(s1[0]));
        lemma_premap_steps(self, s2.drop_first(), self.spec_init(s2[0]));
        lemma_premap_steps(self, (s1 + s2).drop_first(), self.spec_init((s1 + s2)[0]));
        assert(fold1(self, s1) == fold1(&self.inner, ms1));
        assert(fold1(self, s2) == fold1(&self.inner, ms2));
        assert(fold1(self, s1 + s2) == fold1(&self.inner, ms1 + ms2));
        assert(fold1_req(&self.inner, ms1));
        assert(fold1_req(&self.inner, ms2));
        assert(fold1_req(&self.inner, ms1 + ms2));
        self.inner.merge_law(ms1, ms2);
    }
}

/// Applies a transformation to the underlying reducer's final output.
pub struct PostMap<F, T> {
    /// The underlying reducer.
    pub inner: F,
    /// The transformation applied to the output.
    pub post_func: T,
}

impl<F, T> Fold1 for PostMap<F, T> where
    F: Fold1 + PlainOutput,
    T: Trans<In = <F as Fold1>::B>,
 {
    type A = F::A;

    type B = T::Out;

    type M = F::M;

    type VM = F::VM;

    type VB = T::Out;

    open spec fn m_model(&self, m: F::M) -> F::VM {
        self.inner.m_model(m)
    }

    open spec fn b_model(&self, b: T::Out) -> T::Out {
        b
    }

    open spec fn init_req(&self, x: F::A) -> bool {
        self.inner.init_req(x)
    }

    open spec fn spec_init(&self, x: F::A) -> F::VM {
        self.inner.spec_init(x)
    }

    open spec fn step_req(&self, x: F::A, m: F::VM) -> bool {
        self.inner.step_req(x, m)
    }

    open spec fn spec_step(&self, x: F::A, m: F::VM) -> F::VM {
        self.inner.spec_step(x, m)
    }

    open spec fn output_req(&self, m: F::VM) -> bool {
        self.inner.output_req(m) && self.post_func.trans_req(self.inner.spec_output(m))
    }

    open spec fn spec_output(&self, m: F::VM) -> T::Out {
        self.post_func.spec_trans(self.inner.spec_output(m))
    }

    fn init(&self, x: F::A) -> F::M {
        self.inner.init(x)
    }

    fn step(&self, x: F::A, acc: &mut F::M) {
        self.inner.step(x, acc)
    }

    fn output(&self, acc: F::M) -> T::Out {
        let y = self.inner.output(acc);
        proof {
            self.inner.output_is_model(y);
        }
        self.post_func.trans(y)
    }
}

impl<F, T> Fold for PostMap<F, T> where
    F: Fold + PlainOutput,
    T: Trans<In = <F as Fold1>::B>,
 {
    open spec fn spec_empty(&self) -> F::VM {
        self.inner.spec_empty()
    }

    open spec fn empty_req(&self) -> bool {
        self.inner.empty_req()
    }

    open spec fn empty_ok(&self) -> bool {
        self.inner.empty_ok()
    }

    fn empty(&self) -> F::M {
        self.inner.empty()
    }

    proof fn empty_is_identity(&self, x: F::A) {
        self.inner.empty_is_identity(x);
    }
}

impl<F, T> PlainOutput for PostMap<F, T> where
    F: Fold1 + PlainOutput,
    T: Trans<In = <F as Fold1>::B>,
 {
    proof fn output_is_model(&self, b: T::Out) {
    }
}

/// An output-remapped fold steps exactly as the underlying fold.
pub proof fn lemma_postmap_steps<F, T>(p: &PostMap<F, T>, s: Seq<F::A>, m: F::VM) where
    F: Fold1 + PlainOutput,
    T: Trans<In = <F as Fold1>::B>,

    ensures
        fold_steps(p, s, m) == fold_steps(&p.inner, s, m),
        steps_req(p, s, m) <==> steps_req(&p.inner, s, m),
    decreases s.len(),
{
    if s.len() == 0 {
    } else {
        lemma_postmap_steps(p, s.drop_first(), p.spec_step(s[0], m));
    }
}

impl<F, T> FoldPar for PostMap<F, T> where
    F: FoldPar + PlainOutput,
    T: Trans<In = <F as Fold1>::B>,
 {
    open spec fn merge_req(&self, m1: F::VM, m2: F::VM) -> bool {
        self.inner.merge_req(m1, m2)
    }

    open spec fn spec_merge(&self, m1: F::VM, m2: F::VM) -> F::VM {
        self.inner.spec_merge(m1, m2)
    }

    open spec fn merge_exact(&self) -> bool {
        self.inner.merge_exact()
    }

    fn merge(&self, m1: &mut F::M, m2: F::M) {
        self.inner.merge(m1, m2)
    }

    proof fn merge_law(&self, s1: Seq<F::A>, s2: Seq<F::A>) {
        assert((s1 + s2)[0] == s1[0]);
        lemma_postmap_steps(self, s1.drop_first(), self.spec_init(s1[0]));
        lemma_postmap_steps(self, s2.drop_first(), self.spec_init(s2[0]));
        lemma_postmap_steps(self, (s1 + s2).drop_first(), self.spec_init((s1 + s2)[0]));
        self.inner.merge_law(s1, s2);
    }
}


/// Sequential composition: feeds inputs to the first reducer and, after
/// every step, feeds the first reducer's current output as one input to
/// the second reducer.  The second reducer is folded over the running
/// scan of the first, not over its final value alone.
pub struct ComposedFold<F1, F2> {
    /// The reducer that consumes the inputs.
    pub first: F1,
    /// The reducer folded over the first's running outputs.
    pub second: F2,
}

impl<F1, F2> Fold1 for ComposedFold<F1, F2> where
    F1: Fold1 + PlainOutput,
    F2: Fold1<A = <F1 as Fold1>::B>,
    F1::M: Copy,
 {
    type A = F1::A;

    type B = F2::B;

    type M = (F1::M, F2::M);

    type VM = (F1::VM, F2::VM);

    type VB = F2::VB;

    open spec fn m_model(&self, m: Self::M) -> Self::VM {
        (self.first.m_model(m.0), self.second.m_model(m.1))
    }

    open spec fn b_model(&self, b: F2::B) -> F2::VB {
        self.second.b_model(b)
    }

    open spec fn init_req(&self, x: F1::A) -> bool {
        &&& self.first.init_req(x)
        &&& self.first.output_req(self.first.spec_init(x))
        &&& self.second.init_req(self.first.spec_output(self.first.spec_init(x)))
    }

    open spec fn spec_init(&self, x: F1::A) -> Self::VM {
        let m1 = self.first.spec_init(x);
        (m1, self.second.spec_init(self.first.spec_output(m1)))
    }

    open spec fn step_req(&self, x: F1::A, m: Self::VM) -> bool {
        &&& self.first.step_req(x, m.0)
        &&& self.first.output_req(self.first.spec_step(x, m.0))
        &&& self.second.step_req(self.first.spec_output(self.first.spec_step(x, m.0)), m.1)
    }

    open spec fn spec_step(&self, x: F1::A, m: Self::VM) -> Self::VM {
        let m1 = self.first.spec_step(x, m.0);
        (m1, self.second.spec_step(self.first.spec_output(m1), m.1))
    }

    open spec fn output_req(&self, m: Self::VM) -> bool {
        self.second.output_req(m.1)
    }

    open spec fn spec_output(&self, m: Self::VM) -> F2::VB {
        self.second.spec_output(m.1)
    }

    fn init(&self, x: F1::A) -> Self::M {
        let m1 = self.first.init(x);
        let y = self.first.output(m1);
        proof {
            self.first.output_is_model(y);
        }
        let m2 = self.second.init(y);
        (m1, m2)
    }

    fn step(&self, x: F1::A, acc: &mut Self::M) {
        self.first.step(x, &mut acc.0);
        let y = self.first.output(acc.0);
        proof {
            self.first.output_is_model(y);
        }
        self.second.step(y, &mut acc.1);
    }

    fn output(&self, acc: Self::M) -> F2::B {
        self.second.output(acc.1)
    }
}

impl<F1, F2> Fold for ComposedFold<F1, F2> where
    F1: Fold + PlainOutput,
    F2: Fold1<A = <F1 as Fold1>::B>,
    F1::M: Copy,
 {
    open spec fn spec_empty(&self) -> Self::VM {
        let m1 = self.first.spec_empty();
        (m1, self.second.spec_init(self.first.spec_output(m1)))
    }

    open spec fn empty_req(&self) -> bool {
        &&& self.first.empty_req()
        &&& self.first.output_req(self.first.spec_empty())
        &&& self.second.init_req(self.first.spec_output(self.first.spec_empty()))
    }

    /// Not an identity here: the empty state initializes the second
    /// reducer with the first's output on no inputs, while `init`
    /// initializes it with the output on the first input.
    open spec fn empty_ok(&self) -> bool {
        false
    }

    fn empty(&self) -> Self::M {
        let m1 = self.first.empty();
        let y = self.first.output(m1);
        proof {
            self.first.output_is_model(y);
        }
        let m2 = self.second.init(y);
        (m1, m2)
    }

    proof fn empty_is_identity(&self, x: F1::A) {
    }
}

impl<F1, F2> PlainOutput for ComposedFold<F1, F2> where
    F1: Fold1 + PlainOutput,
    F2: Fold1<A = <F1 as Fold1>::B> + PlainOutput,
    F1::M: Copy,
 {
    proof fn output_is_model(&self, b: F2::B) {
        self.second.output_is_model(b);
    }
}

/// Turns a per-item reducer into one whose input is a chunk of items;
/// the first chunk both initializes and folds.
pub struct Batched<F> {
    /// The underlying per-item reducer.
    pub inner: F,
}

impl<F: Fold> Fold1 for Batched<F> {
    type A = Vec<F::A>;

    type B = F::B;

    type M = F::M;

    type VM = F::VM;

    type VB = F::VB;

    open spec fn m_model(&self, m: F::M) -> F::VM {
        self.inner.m_model(m)
    }

    open spec fn b_model(&self, b: F::B) -> F::VB {
        self.inner.b_model(b)
    }

    open spec fn init_req(&self, x: Vec<F::A>) -> bool {
        self.inner.empty_req() && steps_req(&self.inner, x@, self.inner.spec_empty())
    }

    open spec fn spec_init(&self, x: Vec<F::A>) -> F::VM {
        fold_steps(&self.inner, x@, self.inner.spec_empty())
    }

    open spec fn step_req(&self, x: Vec<F::A>, m: F::VM) -> bool {
        steps_req(&self.inner, x@, m)
    }

    open spec fn spec_step(&self, x: Vec<F::A>, m: F::VM) -> F::VM {
        fold_steps(&self.inner, x@, m)
    }

    open spec fn output_req(&self, m: F::VM) -> bool {
        self.inner.output_req(m)
    }

    open spec fn spec_output(&self, m: F::VM) -> F::VB {
        self.inner.spec_output(m)
    }

    fn init(&self, x: Vec<F::A>) -> F::M {
        let mut acc = self.inner.empty();
        step_chunk(&self.inner, x, &mut acc);
        acc
    }

    fn step(&self, x: Vec<F::A>, acc: &mut F::M) {
        step_chunk(&self.inner, x, acc)
    }

    fn output(&self, acc: F::M) -> F::B {
        self.inner.output(acc)
    }
}

impl<F: Fold> Fold for Batched<F> {
    open spec fn spec_empty(&self) -> F::VM {
        self.inner.spec_empty()
    }

    open spec fn empty_req(&self) -> bool {
        self.inner.empty_req()
    }

    open spec fn empty_ok(&self) -> bool {
        self.inner.empty_req()
    }

    fn empty(&self) -> F::M {
        self.inner.empty()
    }

    proof fn empty_is_identity(&self, x: Vec<F::A>) {
    }
}

impl<F: Fold + PlainOutput> PlainOutput for Batched<F> {
    proof fn output_is_model(&self, b: F::B) {
        self.inner.output_is_model(b);
    }
}

impl<F: Fold + FoldPar> FoldPar for Batched<F> {
    open spec fn merge_req(&self, m1: F::VM, m2: F::VM) -> bool {
        self.inner.merge_req(m1, m2)
    }

    open spec fn spec_merge(&self, m1: F::VM, m2: F::VM) -> F::VM {
        self.inner.spec_merge(m1, m2)
    }

    /// Not certified: a run whose chunks are all empty accumulates no
    /// underlying first input, so the concatenation law has no underlying
    /// history to appeal to.
    open spec fn merge_exact(&self) -> bool {
        false
    }

    fn merge(&self, m1: &mut F::M, m2: F::M) {
        self.inner.merge(m1, m2)
    }

    proof fn merge_law(&self, s1: Seq<Vec<F::A>>, s2: Seq<Vec<F::A>>) {
    }
}

/// Runs `n` independent copies of one reducer lane-wise over a
/// fixed-width vector input.
pub struct Many<F> {
    /// The reducer replicated across the lanes.
    pub inner: F,
    /// The number of lanes.
    pub n: usize,
}

impl<F: Fold1> Fold1 for Many<F> {
    type A = Vec<F::A>;

    type B = Vec<F::B>;

    type M = Vec<F::M>;

    type VM = Seq<F::VM>;

    type VB = Seq<F::VB>;

    open spec fn m_model(&self, m: Vec<F::M>) -> Seq<F::VM> {
        Seq::new(m@.len(), |j: int| self.inner.m_model(m@[j]))
    }

    open spec fn b_model(&self, b: Vec<F::B>) -> Seq<F::VB> {
        Seq::new(b@.len(), |j: int| self.inner.b_model(b@[j]))
    }

    open spec fn init_req(&self, x: Vec<F::A>) -> bool {
        forall|j: int| 0 <= j < x@.len() ==> self.inner.init_req(#[trigger] x@[j])
    }

    open spec fn spec_init(&self, x: Vec<F::A>) -> Seq<F::VM> {
        Seq::new(x@.len(), |j: int| self.inner.spec_init(x@[j]))
    }

    open spec fn step_req(&self, x: Vec<F::A>, m: Seq<F::VM>) -> bool {
        forall|j: int|
            0 <= j < m.len() && j < x@.len() ==> self.inner.step_req(x@[j], #[trigger] m[j])
    }

    open spec fn spec_step(&self, x: Vec<F::A>, m: Seq<F::VM>) -> Seq<F::VM> {
        Seq::new(
            m.len(),
            |j: int|
                if j < x@.len() {
                    self.inner.spec_step(x@[j], m[j])
                } else {
                    m[j]
                },
        )
    }

    open spec fn output_req(&self, m: Seq<F::VM>) -> bool {
        forall|j: int| 0 <= j < m.len() ==> self.inner.output_req(#[trigger] m[j])
    }

    open spec fn spec_output(&self, m: Seq<F::VM>) -> Seq<F::VB> {
        Seq::new(m.len(), |j: int| self.inner.spec_output(m[j]))
    }

    fn init(&self, x: Vec<F::A>) -> (r: Vec<F::M>)
    {
        let ghost xv = x;
        let ghost xs = x@;
        let mut rest = x;
        let mut out: Vec<F::M> = Vec::new();
        while rest.len() > 0
            invariant
                out@.len() + rest@.len() == xs.len(),
                rest@ =~= xs.skip(out@.len() as int),
                forall|j: int|
                    0 <= j < xs.len() ==> self.inner.init_req(#[trigger] xs[j]),
                forall|j: int|
                    0 <= j < out@.len() ==> self.inner.m_model(#[trigger] out@[j])
                        == self.inner.spec_init(xs[j]),
            decreases rest.len(),
        {
            let ghost k = out@.len() as int;
            let v = rest.remove(0);
            proof {
                assert(v == xs[k]);
            }
            out.push(self.inner.init(v));
            proof {
                assert(rest@ =~= xs.skip(out@.len() as int));
            }
        }
        proof {
            assert(self.m_model(out) =~= self.spec_init(xv));
        }
        out
    }

    fn step(&self, x: Vec<F::A>, acc: &mut Vec<F::M>) {
        let ghost xv = x;
        let ghost m0 = self.m_model(*old(acc));
        let ghost xs = x@;
        let mut rest = x;
        let mut i: usize = 0;
        while i < acc.len() && rest.len() > 0
            invariant
                i <= acc@.len(),
                acc@.len() == m0.len(),
                i <= xs.len(),
                rest@ =~= xs.skip(i as int),
                forall|j: int|
                    0 <= j < m0.len() && j < xs.len() ==> self.inner.step_req(
                        xs[j],
                        #[trigger] m0[j],
                    ),
                forall|j: int|
                    0 <= j < m0.len() ==> self.inner.m_model(#[trigger] acc@[j]) == (if j < i {
                        self.inner.spec_step(xs[j], m0[j])
                    } else {
                        m0[j]
                    }),
            decreases acc@.len() - i,
        {
            let v = rest.remove(0);
            proof {
                assert(v == xs[i as int]);
            }
            let ghost accs = acc@;
            let mut mi = acc.remove(i);
            proof {
                assert(self.inner.m_model(mi) == m0[i as int]);
            }
            self.inner.step(v, &mut mi);
            acc.insert(i, mi);
            proof {
                assert(acc@ =~= accs.update(i as int, mi));
            }
            i = i + 1;
            proof {
                assert(rest@ =~= xs.skip(i as int));
            }
        }
        proof {
            assert(self.m_model(*acc) =~= self.spec_step(xv, m0));
        }
    }

    fn output(&self, acc: Vec<F::M>) -> (r: Vec<F::B>)
    {
        let ghost ms = self.m_model(acc);
        let mut rest = acc;
        let mut out: Vec<F::B> = Vec::new();
        while rest.len() > 0
            invariant
                out@.len() + rest@.len() == ms.len(),
                forall|j: int|
                    0 <= j < rest@.len() ==> self.inner.m_model(#[trigger] rest@[j]) == ms[j
                        + out@.len()],
                forall|j: int|
                    0 <= j < out@.len() ==> self.inner.b_model(#[trigger] out@[j])
                        == self.inner.spec_output(ms[j]),
                self.output_req(ms),
            decreases rest.len(),
        {
            let v = rest.remove(0);
            out.push(self.inner.output(v));
        }
        proof {
            assert(self.b_model(out) =~= self.spec_output(ms));
        }
        out
    }
}

impl<F: Fold> Fold for Many<F> {
    open spec fn spec_empty(&self) -> Seq<F::VM> {
        Seq::new(self.n as nat, |j: int| self.inner.spec_empty())
    }

    open spec fn empty_req(&self) -> bool {
        self.inner.empty_req()
    }

    /// Not an identity here: the identity state has `n` lanes while
    /// `init` takes its lane count from the width of the first input.
    open spec fn empty_ok(&self) -> bool {
        false
    }

    fn empty(&self) -> (r: Vec<F::M>)
    {
        let mut out: Vec<F::M> = Vec::new();
        let mut i: usize = 0;
        while i < self.n
            invariant
                self.empty_req(),
                i <= self.n,
                out@.len() == i,
                forall|j: int|
                    0 <= j < i ==> self.inner.m_model(#[trigger] out@[j])
                        == self.inner.spec_empty(),
            decreases self.n - i,
        {
            out.push(self.inner.empty());
            i = i + 1;
        }
        proof {
            assert(self.m_model(out) =~= self.spec_empty());
        }
        out
    }

    proof fn empty_is_identity(&self, x: Vec<F::A>) {
    }
}


/// The first position holding key `k`, or the length if no position does.
pub open spec fn assoc_idx<K, V>(s: Seq<(K, V)>, k: K) -> int
    decreases s.len(),
{
    if s.len() == 0 {
        0
    } else if s[0].0 == k {
        0
    } else {
        1 + assoc_idx(s.drop_first(), k)
    }
}

/// Whether some entry holds key `k`.
pub open spec fn assoc_has<K, V>(s: Seq<(K, V)>, k: K) -> bool {
    assoc_idx(s, k) < s.len()
}

/// `assoc_idx` finds the first entry with the given key.
pub proof fn lemma_assoc_idx<K, V>(s: Seq<(K, V)>, k: K)
    ensures
        0 <= assoc_idx(s, k) <= s.len(),
        assoc_has(s, k) ==> s[assoc_idx(s, k)].0 == k,
        forall|j: int| 0 <= j < assoc_idx(s, k) ==> (#[trigger] s[j]).0 != k,
        !assoc_has(s, k) ==> forall|j: int| 0 <= j < s.len() ==> (#[trigger] s[j]).0 != k,
    decreases s.len(),
{
    if s.len() == 0 {
    } else if s[0].0 == k {
    } else {
        lemma_assoc_idx(s.drop_first(), k);
        assert forall|j: int| 0 <= j < assoc_idx(s, k) implies (#[trigger] s[j]).0 != k by {
            if j > 0 {
                assert(s.drop_first()[j - 1] == s[j]);
            }
        }
        if !assoc_has(s, k) {
            assert forall|j: int| 0 <= j < s.len() implies (#[trigger] s[j]).0 != k by {
                if j > 0 {
                    assert(s.drop_first()[j - 1] == s[j]);
                }
            }
        }
    }
}

/// Routes every input to a per-key accumulator; the accumulator is an
/// association vector whose keys appear in first-occurrence order.
pub struct GroupedFold<F, G> {
    /// The underlying reducer, run once per key.
    pub inner: F,
    /// Extracts the key an input is routed by.
    pub get_key: G,
}

/// The first entry of `acc` holding key `k`, or the length if none does.
fn grouped_find<F: Fold1, G: KeyFn<T = F::A>>(
    g: &GroupedFold<F, G>,
    acc: &Vec<(G::K, F::M)>,
    k: &G::K,
) -> (i: usize)
    ensures
        i == assoc_idx(g.m_model(*acc), *k),
{
    let ghost ms = g.m_model(*acc);
    proof {
        lemma_assoc_idx(ms, *k);
        assert(ms.len() == acc@.len());
        assert(forall|j: int|
            0 <= j < ms.len() ==> #[trigger] ms[j] == (acc@[j].0, g.inner.m_model(acc@[j].1)));
    }
    let mut i: usize = 0;
    while i < acc.len()
        invariant
            i <= ms.len(),
            ms.len() == acc@.len(),
            ms == g.m_model(*acc),
            forall|j: int|
                0 <= j < ms.len() ==> #[trigger] ms[j] == (acc@[j].0, g.inner.m_model(
                    acc@[j].1,
                )),
            forall|j: int| 0 <= j < i ==> (#[trigger] ms[j]).0 != *k,
            0 <= assoc_idx(ms, *k) <= ms.len(),
            assoc_has(ms, *k) ==> ms[assoc_idx(ms, *k)].0 == *k,
            forall|j: int| 0 <= j < assoc_idx(ms, *k) ==> (#[trigger] ms[j]).0 != *k,
            !assoc_has(ms, *k) ==> forall|j: int| 0 <= j < ms.len() ==> (#[trigger] ms[j]).0
                != *k,
        decreases acc@.len() - i,
    {
        if g.get_key.key_eq(&acc[i].0, k) {
            proof {
                assert(ms[i as int].0 == *k);
                let idx = assoc_idx(ms, *k);
                if !assoc_has(ms, *k) {
                    assert(ms[i as int].0 != *k);
                }
                if idx < i as int {
                    assert(ms[idx].0 == *k);
                    assert(ms[idx].0 != *k);
                }
                if idx > i as int {
                    assert(ms[i as int].0 != *k);
                }
            }
            return i;
        }
        proof {
            assert(ms[i as int].0 == acc@[i as int].0);
        }
        i = i + 1;
    }
    i
}

impl<F: Fold1, G: KeyFn<T = F::A>> Fold1 for GroupedFold<F, G> {
    type A = F::A;

    type B = Vec<(G::K, F::B)>;

    type M = Vec<(G::K, F::M)>;

    type VM = Seq<(G::K, F::VM)>;

    type VB = Seq<(G::K, F::VB)>;

    open spec fn m_model(&self, m: Vec<(G::K, F::M)>) -> Seq<(G::K, F::VM)> {
        Seq::new(m@.len(), |j: int| (m@[j].0, self.inner.m_model(m@[j].1)))
    }

    open spec fn b_model(&self, b: Vec<(G::K, F::B)>) -> Seq<(G::K, F::VB)> {
        Seq::new(b@.len(), |j: int| (b@[j].0, self.inner.b_model(b@[j].1)))
    }

    open spec fn init_req(&self, x: F::A) -> bool {
        self.inner.init_req(x)
    }

    open spec fn spec_init(&self, x: F::A) -> Seq<(G::K, F::VM)> {
        seq![(self.get_key.spec_key(x), self.inner.spec_init(x))]
    }

    open spec fn step_req(&self, x: F::A, m: Seq<(G::K, F::VM)>) -> bool {
        let k = self.get_key.spec_key(x);
        if assoc_has(m, k) {
            self.inner.step_req(x, m[assoc_idx(m, k)].1)
        } else {
            self.inner.init_req(x)
        }
    }

    open spec fn spec_step(&self, x: F::A, m: Seq<(G::K, F::VM)>) -> Seq<(G::K, F::VM)> {
        let k = self.get_key.spec_key(x);
        if assoc_has(m, k) {
            m.update(assoc_idx(m, k), (k, self.inner.spec_step(x, m[assoc_idx(m, k)].1)))
        } else {
            m.push((k, self.inner.spec_init(x)))
        }
    }

    open spec fn output_req(&self, m: Seq<(G::K, F::VM)>) -> bool {
        forall|j: int| 0 <= j < m.len() ==> self.inner.output_req((#[trigger] m[j]).1)
    }

    open spec fn spec_output(&self, m: Seq<(G::K, F::VM)>) -> Seq<(G::K, F::VB)> {
        Seq::new(m.len(), |j: int| (m[j].0, self.inner.spec_output(m[j].1)))
    }

    fn init(&self, x: F::A) -> (r: Vec<(G::K, F::M)>)
    {
        let ghost xv = x;
        let k = self.get_key.key(&x);
        let mut out: Vec<(G::K, F::M)> = Vec::new();
        out.push((k, self.inner.init(x)));
        proof {
            assert(self.m_model(out) =~= self.spec_init(xv));
        }
        out
    }

    fn step(&self, x: F::A, acc: &mut Vec<(G::K, F::M)>) {
        let ghost xv = x;
        let ghost ms = self.m_model(*old(acc));
        let k = self.get_key.key(&x);
        proof {
            lemma_assoc_idx(ms, k);
        }
        let i = grouped_find(self, acc, &k);
        if i < acc.len() {
            let ghost accs = acc@;
            let (k0, mut mi) = acc.remove(i);
            proof {
                assert(ms[i as int] == (k0, self.inner.m_model(mi)));
            }
            self.inner.step(x, &mut mi);
            acc.insert(i, (k0, mi));
            proof {
                assert(acc@ =~= accs.update(i as int, (k0, mi)));
                assert(self.m_model(*acc) =~= self.spec_step(xv, ms));
            }
        } else {
            acc.push((k, self.inner.init(x)));
            proof {
                assert(self.m_model(*acc) =~= self.spec_step(xv, ms));
            }
        }
    }

    fn output(&self, acc: Vec<(G::K, F::M)>) -> (r: Vec<(G::K, F::B)>)
    {
        let ghost ms = self.m_model(acc);
        let mut rest = acc;
        let mut out: Vec<(G::K, F::B)> = Vec::new();
        while rest.len() > 0
            invariant
                out@.len() + rest@.len() == ms.len(),
                forall|j: int|
                    0 <= j < rest@.len() ==> ms[j + out@.len()] == ((#[trigger] rest@[j]).0,
                    self.inner.m_model(rest@[j].1)),
                forall|j: int|
                    0 <= j < out@.len() ==> ((#[trigger] out@[j]).0, self.inner.b_model(out@[j].1))
                        == (ms[j].0, self.inner.spec_output(ms[j].1)),
                self.output_req(ms),
            decreases rest.len(),
        {
            let (k, v) = rest.remove(0);
            out.push((k, self.inner.output(v)));
        }
        proof {
            assert(self.b_model(out) =~= self.spec_output(ms));
        }
        out
    }
}

impl<F: Fold1, G: KeyFn<T = F::A>> Fold for GroupedFold<F, G> {
    open spec fn spec_empty(&self) -> Seq<(G::K, F::VM)> {
        Seq::empty()
    }

    open spec fn empty_req(&self) -> bool {
        true
    }

    open spec fn empty_ok(&self) -> bool {
        true
    }

    fn empty(&self) -> (r: Vec<(G::K, F::M)>)
    {
        let out: Vec<(G::K, F::M)> = Vec::new();
        proof {
            assert(self.m_model(out) =~= self.spec_empty());
        }
        out
    }

    proof fn empty_is_identity(&self, x: F::A) {
        let k = self.get_key.spec_key(x);
        let e = Seq::<(G::K, F::VM)>::empty();
        assert(!assoc_has(e, k));
        if self.init_req(x) {
            assert(e.push((k, self.inner.spec_init(x))) =~= self.spec_init(x));
        }
    }
}

/// Folds one entry of a second grouped accumulator into a first: merged
/// into the entry with the same key, or appended if the key is new.
pub open spec fn absorb_entry<F: FoldPar, G: KeyFn<T = F::A>>(
    g: &GroupedFold<F, G>,
    m1: Seq<(G::K, F::VM)>,
    e: (G::K, F::VM),
) -> Seq<(G::K, F::VM)> {
    if assoc_has(m1, e.0) {
        m1.update(assoc_idx(m1, e.0), (e.0, g.inner.spec_merge(m1[assoc_idx(m1, e.0)].1, e.1)))
    } else {
        m1.push(e)
    }
}

/// Whether one entry may be absorbed.
pub open spec fn absorb_entry_req<F: FoldPar, G: KeyFn<T = F::A>>(
    g: &GroupedFold<F, G>,
    m1: Seq<(G::K, F::VM)>,
    e: (G::K, F::VM),
) -> bool {
    assoc_has(m1, e.0) ==> g.inner.merge_req(m1[assoc_idx(m1, e.0)].1, e.1)
}

/// Folds every entry of a second grouped accumulator into a first, in
/// order.
pub open spec fn absorb_entries<F: FoldPar, G: KeyFn<T = F::A>>(
    g: &GroupedFold<F, G>,
    m1: Seq<(G::K, F::VM)>,
    m2: Seq<(G::K, F::VM)>,
) -> Seq<(G::K, F::VM)>
    decreases m2.len(),
{
    if m2.len() == 0 {
        m1
    } else {
        absorb_entries(g, absorb_entry(g, m1, m2[0]), m2.drop_first())
    }
}

/// Whether every entry of the second accumulator may be absorbed.
pub open spec fn absorb_entries_req<F: FoldPar, G: KeyFn<T = F::A>>(
    g: &GroupedFold<F, G>,
    m1: Seq<(G::K, F::VM)>,
    m2: Seq<(G::K, F::VM)>,
) -> bool
    decreases m2.len(),
{
    if m2.len() == 0 {
        true
    } else {
        absorb_entry_req(g, m1, m2[0]) && absorb_entries_req(
            g,
            absorb_entry(g, m1, m2[0]),
            m2.drop_first(),
        )
    }
}


/// Updating an entry in place, keeping its key, leaves every key lookup
/// unchanged.
proof fn lemma_assoc_update<K, V>(s: Seq<(K, V)>, i: int, e: (K, V), k: K)
    requires
        0 <= i < s.len(),
        s[i].0 == e.0,
    ensures
        assoc_idx(s.update(i, e), k) == assoc_idx(s, k),
    decreases s.len(),
{
    if i == 0 {
        assert(s.update(0, e)[0] == e);
        if s[0].0 == k {
        } else {
            assert(s.update(0, e).drop_first() =~= s.drop_first());
        }
    } else {
        assert(s.update(i, e)[0] == s[0]);
        if s[0].0 == k {
        } else {
            assert(s.update(i, e).drop_first() =~= s.drop_first().update(i - 1, e));
            lemma_assoc_update(s.drop_first(), i - 1, e, k);
        }
    }
}

/// Key lookups after appending an entry.
proof fn lemma_assoc_push<K, V>(s: Seq<(K, V)>, e: (K, V), k: K)
    ensures
        assoc_has(s, k) ==> assoc_idx(s.push(e), k) == assoc_idx(s, k),
        !assoc_has(s, k) && e.0 == k ==> assoc_idx(s.push(e), k) == s.len(),
        !assoc_has(s, k) && e.0 != k ==> assoc_idx(s.push(e), k) == s.len() + 1,
    decreases s.len(),
{
    lemma_assoc_idx(s, k);
    if s.len() == 0 {
        assert(s.push(e)[0] == e);
        if e.0 == k {
        } else {
            assert(s.push(e).drop_first() =~= Seq::<(K, V)>::empty());
            assert(assoc_idx(Seq::<(K, V)>::empty(), k) == 0);
        }
    } else {
        assert(s.push(e)[0] == s[0]);
        assert(s.push(e).drop_first() =~= s.drop_first().push(e));
        lemma_assoc_push(s.drop_first(), e, k);
    }
}

/// The inputs of a run that are routed to one key, in arrival order.
pub open spec fn key_items<F: Fold1, G: KeyFn<T = F::A>>(
    g: &GroupedFold<F, G>,
    s: Seq<F::A>,
    k: G::K,
) -> Seq<F::A> {
    s.filter(|x: F::A| g.get_key.spec_key(x) == k)
}

/// One more input goes to its own key's items and to no other's.
proof fn lemma_key_items_push<F: Fold1, G: KeyFn<T = F::A>>(
    g: &GroupedFold<F, G>,
    s: Seq<F::A>,
    x: F::A,
    k: G::K,
)
    ensures
        g.get_key.spec_key(x) == k ==> key_items(g, s.push(x), k) == key_items(g, s, k).push(x),
        g.get_key.spec_key(x) != k ==> key_items(g, s.push(x), k) == key_items(g, s, k),
{
    reveal(Seq::filter);
    assert(s.push(x).drop_last() =~= s);
    assert(s.push(x).last() == x);
}



/// The distinct keys of a run, in first-occurrence order.
pub open spec fn first_keys<F: Fold1, G: KeyFn<T = F::A>>(
    g: &GroupedFold<F, G>,
    s: Seq<F::A>,
) -> Seq<G::K>
    decreases s.len(),
{
    if s.len() == 0 {
        Seq::empty()
    } else {
        let ks = first_keys(g, s.drop_last());
        let k = g.get_key.spec_key(s.last());
        if ks.contains(k) {
            ks
        } else {
            ks.push(k)
        }
    }
}

/// Law: the shape of a grouped partial fold.  Its keys are distinct;
/// each entry holds the underlying reducer's partial fold over exactly
/// the inputs routed to that key, in arrival order; and a key without an
/// entry received no inputs.
pub proof fn lemma_grouped_history<F: Fold1, G: KeyFn<T = F::A>>(g: &GroupedFold<F, G>, s: Seq<F::A>)
    requires
        s.len() > 0,
        fold1_req(g, s),
    ensures
        forall|j1: int, j2: int|
            0 <= j1 < j2 < fold1(g, s).len() ==> (#[trigger] fold1(g, s)[j1]).0 != (
            #[trigger] fold1(g, s)[j2]).0,
        forall|j: int|
            0 <= j < fold1(g, s).len() ==> key_items(g, s, (#[trigger] fold1(g, s)[j]).0).len()
                > 0,
        forall|j: int|
            0 <= j < fold1(g, s).len() ==> fold1_req(
                &g.inner,
                key_items(g, s, (#[trigger] fold1(g, s)[j]).0),
            ),
        forall|j: int|
            0 <= j < fold1(g, s).len() ==> (#[trigger] fold1(g, s)[j]).1 == fold1(
                &g.inner,
                key_items(g, s, fold1(g, s)[j].0),
            ),
        forall|k: G::K|
            !assoc_has(fold1(g, s), k) ==> #[trigger] key_items(g, s, k) == Seq::<F::A>::empty(),
        fold1(g, s).len() == first_keys(g, s).len(),
        forall|j: int| 0 <= j < fold1(g, s).len() ==> (#[trigger] fold1(g, s)[j]).0 == first_keys(
            g,
            s,
        )[j],
    decreases s.len(),
{
    let gk = &g.get_key;
    let inner = &g.inner;
    if s.len() == 1 {
        let x = s[0];
        let k0 = gk.spec_key(x);
        assert(s.drop_first() =~= Seq::<F::A>::empty());
        assert(fold1(g, s) == g.spec_init(x));
        let gm = fold1(g, s);
        assert(gm == seq![(k0, inner.spec_init(x))]);
        assert(gm[0] == (k0, inner.spec_init(x)));
        reveal(Seq::filter);
        assert(s.drop_last() =~= Seq::<F::A>::empty());
        assert(s.last() == x);
        assert(Seq::<F::A>::empty().push(x) =~= seq![x]);
        assert forall|k: G::K| true implies #[trigger] key_items(g, s, k) == (if gk.spec_key(x)
            == k {
            seq![x]
        } else {
            Seq::<F::A>::empty()
        }) by {
            assert(key_items(g, s, k) == (if gk.spec_key(x) == k {
                key_items(g, Seq::<F::A>::empty(), k).push(x)
            } else {
                key_items(g, Seq::<F::A>::empty(), k)
            }));
        }
        assert(key_items(g, s, k0) == seq![x]);
        assert(seq![x].drop_first() =~= Seq::<F::A>::empty());
        assert(fold1(inner, seq![x]) == inner.spec_init(x));
        assert(seq![x][0] == x);
        assert(steps_req(inner, Seq::<F::A>::empty(), inner.spec_init(x)));
        assert(fold1_req(inner, seq![x]));
        assert forall|k: G::K| !assoc_has(gm, k) implies #[trigger] key_items(g, s, k) == Seq::<
            F::A,
        >::empty() by {
            lemma_assoc_idx(gm, k);
            assert(gm[0].0 == k0);
            assert(k != k0);
        }
        assert(s.drop_last() =~= Seq::<F::A>::empty());
        assert(first_keys(g, Seq::<F::A>::empty()) == Seq::<G::K>::empty());
        assert(!Seq::<G::K>::empty().contains(k0));
        assert(first_keys(g, s) =~= seq![k0]);
    } else {
        let s0 = s.drop_last();
        let x = s.last();
        let k = gk.spec_key(x);
        assert(s =~= s0.push(x));
        lemma_fold1_snoc(g, s0, x);
        lemma_grouped_history(g, s0);
        let gm0 = fold1(g, s0);
        let gm = fold1(g, s);
        assert(gm == g.spec_step(x, gm0));
        lemma_assoc_idx(gm0, k);
        assert forall|kk: G::K| true implies #[trigger] key_items(g, s, kk) == (if gk.spec_key(x)
            == kk {
            key_items(g, s0, kk).push(x)
        } else {
            key_items(g, s0, kk)
        }) by {
            lemma_key_items_push(g, s0, x, kk);
        }
        if assoc_has(gm0, k) {
            let i = assoc_idx(gm0, k);
            let e = (k, inner.spec_step(x, gm0[i].1));
            assert(gm == gm0.update(i, e));
            assert(gm0[i].0 == k);
            assert forall|j: int| 0 <= j < gm.len() implies (#[trigger] gm[j]).0 == gm0[j].0 by {
                if j != i {
                    assert(gm[j] == gm0[j]);
                }
            }
            lemma_fold1_snoc(inner, key_items(g, s0, k), x);
            assert(inner.step_req(x, gm0[i].1));
            assert forall|j: int| 0 <= j < gm.len() && j != i implies #[trigger] gm[j]
                == gm0[j] && gm[j].0 != k by {
                if j < i {
                } else {
                }
            }
            assert(gm[i] == e);
            assert(key_items(g, s, k) == key_items(g, s0, k).push(x));
            assert(gm[i].1 == fold1(inner, key_items(g, s, k)));
            assert(fold1_req(inner, key_items(g, s, k)));
            assert forall|kk: G::K| !assoc_has(gm, kk) implies #[trigger] key_items(g, s, kk)
                == Seq::<F::A>::empty() by {
                lemma_assoc_update(gm0, i, e, kk);
                assert(!assoc_has(gm0, kk));
                assert(kk != k);
            }
            let fk0 = first_keys(g, s0);
            assert(fk0[i] == k);
            assert(fk0.contains(k));
            assert(first_keys(g, s) == fk0);
        } else {
            let e = (k, inner.spec_init(x));
            assert(gm == gm0.push(e));
            assert(forall|j: int| 0 <= j < gm0.len() ==> (#[trigger] gm0[j]).0 != k);
            assert forall|j: int| 0 <= j < gm0.len() implies #[trigger] gm[j] == gm0[j] by {}
            assert(gm[gm.len() - 1] == e);
            assert(key_items(g, s0, k) == Seq::<F::A>::empty());
            assert(key_items(g, s, k) == Seq::<F::A>::empty().push(x));
            assert(Seq::<F::A>::empty().push(x) =~= seq![x]);
            assert(seq![x].drop_first() =~= Seq::<F::A>::empty());
            assert(seq![x][0] == x);
            assert(fold1(inner, seq![x]) == inner.spec_init(x));
            assert(inner.init_req(x));
            assert(steps_req(inner, Seq::<F::A>::empty(), inner.spec_init(x)));
            assert(fold1_req(inner, seq![x]));
            assert forall|kk: G::K| !assoc_has(gm, kk) implies #[trigger] key_items(g, s, kk)
                == Seq::<F::A>::empty() by {
                lemma_assoc_push(gm0, e, kk);
                lemma_assoc_idx(gm0, kk);
                assert(!assoc_has(gm0, kk));
                assert(kk != k);
            }
            let fk0 = first_keys(g, s0);
            assert(!fk0.contains(k)) by {
                if fk0.contains(k) {
                    let t = choose|t: int| 0 <= t < fk0.len() && fk0[t] == k;
                    assert(gm0[t].0 == k);
                }
            }
            assert(first_keys(g, s) == fk0.push(k));
            assert forall|j: int| 0 <= j < gm.len() implies (#[trigger] gm[j]).0 == first_keys(
                g,
                s,
            )[j] by {
                if j < gm0.len() {
                } else {
                    assert(gm[j] == e);
                }
            }
        }
    }
}

impl<F: FoldPar, G: KeyFn<T = F::A>> FoldPar for GroupedFold<F, G> {
    open spec fn merge_req(&self, m1: Seq<(G::K, F::VM)>, m2: Seq<(G::K, F::VM)>) -> bool {
        absorb_entries_req(self, m1, m2)
    }

    open spec fn spec_merge(
        &self,
        m1: Seq<(G::K, F::VM)>,
        m2: Seq<(G::K, F::VM)>,
    ) -> Seq<(G::K, F::VM)> {
        absorb_entries(self, m1, m2)
    }

    /// Exact whenever the underlying merge is: the runs' per-key
    /// histories concatenate key by key.
    open spec fn merge_exact(&self) -> bool {
        self.inner.merge_exact()
    }

    fn merge(&self, m1: &mut Vec<(G::K, F::M)>, m2: Vec<(G::K, F::M)>) {
        let ghost target = absorb_entries(self, self.m_model(*old(m1)), self.m_model(m2));
        let mut rest = m2;
        while rest.len() > 0
            invariant
                absorb_entries_req(self, self.m_model(*m1), self.m_model(rest)),
                absorb_entries(self, self.m_model(*m1), self.m_model(rest)) == target,
            decreases rest.len(),
        {
            let ghost ms1 = self.m_model(*m1);
            let ghost rs = self.m_model(rest);
            let (k, v) = rest.remove(0);
            proof {
                assert(rs[0] == (k, self.inner.m_model(v)));
                assert(self.m_model(rest) =~= rs.drop_first());
                lemma_assoc_idx(ms1, k);
            }
            let i = grouped_find(self, m1, &k);
            if i < m1.len() {
                let ghost m1s = m1@;
                let (k0, mut mi) = m1.remove(i);
                proof {
                    assert(ms1[i as int] == (k0, self.inner.m_model(mi)));
                }
                self.inner.merge(&mut mi, v);
                m1.insert(i, (k0, mi));
                proof {
                    assert(m1@ =~= m1s.update(i as int, (k0, mi)));
                    assert(self.m_model(*m1) =~= absorb_entry(self, ms1, rs[0]));
                }
            } else {
                m1.push((k, v));
                proof {
                    assert(self.m_model(*m1) =~= absorb_entry(self, ms1, rs[0]));
                }
            }
        }
        proof {
            assert(self.m_model(rest) =~= Seq::<(G::K, F::VM)>::empty());
        }
    }

    proof fn merge_law(&self, s1: Seq<F::A>, s2: Seq<F::A>) {
        lemma_grouped_merge_law(self, s1, s2);
    }
}



/// The entries of one grouped accumulator, each merged in place with the
/// matching entry of another accumulator when that other holds its key.
pub open spec fn merged_entries<F: FoldPar, G: KeyFn<T = F::A>>(
    g: &GroupedFold<F, G>,
    m1: Seq<(G::K, F::VM)>,
    m2: Seq<(G::K, F::VM)>,
) -> Seq<(G::K, F::VM)> {
    Seq::new(
        m1.len(),
        |j: int|
            if assoc_has(m2, m1[j].0) {
                (m1[j].0, g.inner.spec_merge(m1[j].1, m2[assoc_idx(m2, m1[j].0)].1))
            } else {
                m1[j]
            },
    )
}

/// The entries of a second accumulator whose keys a first does not hold.
pub open spec fn fresh_entries<K, V>(m1: Seq<(K, V)>, m2: Seq<(K, V)>) -> Seq<(K, V)> {
    m2.filter(|e: (K, V)| !assoc_has(m1, e.0))
}

/// Accumulators that hold the same keys keep the same fresh entries.
proof fn lemma_fresh_entries_equiv<K, V>(m1: Seq<(K, V)>, m1b: Seq<(K, V)>, es: Seq<(K, V)>)
    requires
        forall|t: int|
            0 <= t < es.len() ==> (assoc_has(m1, (#[trigger] es[t]).0) <==> assoc_has(
                m1b,
                es[t].0,
            )),
    ensures
        fresh_entries(m1, es) == fresh_entries(m1b, es),
    decreases es.len(),
{
    reveal(Seq::filter);
    if es.len() > 0 {
        assert(forall|t: int| 0 <= t < es.drop_last().len() ==> #[trigger] es.drop_last()[t]
            == es[t]);
        lemma_fresh_entries_equiv(m1, m1b, es.drop_last());
        assert(es.last() == es[es.len() - 1]);
    }
}

/// Law: the shape of a grouped merge.  When both accumulators have
/// distinct keys — as every accumulator a grouped fold builds does —
/// merging is entrywise: an entry of the first accumulator whose key the
/// second also holds absorbs the second's entry in place, and the
/// second's remaining entries are appended, in order.
pub proof fn lemma_grouped_merge_shape<F: FoldPar, G: KeyFn<T = F::A>>(
    g: &GroupedFold<F, G>,
    m1: Seq<(G::K, F::VM)>,
    m2: Seq<(G::K, F::VM)>,
)
    requires
        forall|j1: int, j2: int|
            0 <= j1 < j2 < m1.len() ==> (#[trigger] m1[j1]).0 != (#[trigger] m1[j2]).0,
        forall|t1: int, t2: int|
            0 <= t1 < t2 < m2.len() ==> (#[trigger] m2[t1]).0 != (#[trigger] m2[t2]).0,
    ensures
        absorb_entries(g, m1, m2) == merged_entries(g, m1, m2) + fresh_entries(m1, m2),
        absorb_entries_req(g, m1, m2) <==> forall|t: int|
            0 <= t < m2.len() && assoc_has(m1, (#[trigger] m2[t]).0) ==> g.inner.merge_req(
                m1[assoc_idx(m1, m2[t].0)].1,
                m2[t].1,
            ),
    decreases m2.len(),
{
    reveal(Seq::filter);
    broadcast use Seq::filter_distributes_over_add;

    if m2.len() == 0 {
        assert(fresh_entries(m1, m2) == m2);
        assert(merged_entries(g, m1, m2) + fresh_entries(m1, m2) =~= m1);
    } else {
        let e0 = m2[0];
        let k0 = e0.0;
        let rest = m2.drop_first();
        lemma_assoc_idx(m1, k0);
        assert(forall|t: int| 0 <= t < rest.len() ==> #[trigger] rest[t] == m2[t + 1]);
        assert(forall|t: int| 0 <= t < rest.len() ==> (#[trigger] rest[t]).0 != k0);
        assert(!assoc_has(rest, k0)) by {
            lemma_assoc_idx(rest, k0);
            if assoc_has(rest, k0) {
                assert(rest[assoc_idx(rest, k0)].0 == k0);
            }
        }
        assert(m2[0].0 == k0);
        assert(m2.drop_first() == rest);
        assert forall|k: G::K| k != k0 implies assoc_idx(m2, k) == 1 + assoc_idx(rest, k)
            && (assoc_has(m2, k) <==> assoc_has(rest, k)) && (assoc_has(rest, k) ==> m2[assoc_idx(
            m2,
            k,
        )] == rest[assoc_idx(rest, k)]) by {
            lemma_assoc_idx(rest, k);
            lemma_assoc_idx(m2, k);
        }
        let m1p = absorb_entry(g, m1, e0);
        assert(absorb_entries(g, m1, m2) == absorb_entries(g, m1p, rest));
        // split the fresh entries of `m2` at its first entry
        assert(seq![e0] + rest =~= m2);
        assert(fresh_entries(m1, m2) == fresh_entries(m1, seq![e0] + rest));
        assert(seq![e0].drop_last() =~= Seq::<(G::K, F::VM)>::empty());
        assert(seq![e0].last() == e0);
        assert(fresh_entries(m1, Seq::<(G::K, F::VM)>::empty()) =~= Seq::<(G::K, F::VM)>::empty());
        if assoc_has(m1, k0) {
            let a = assoc_idx(m1, k0);
            assert(m1p == m1.update(a, (k0, g.inner.spec_merge(m1[a].1, e0.1))));
            assert(m1p.len() == m1.len());
            assert(forall|j: int| 0 <= j < m1.len() ==> (#[trigger] m1p[j]).0 == m1[j].0);
            assert forall|k: G::K| true implies assoc_idx(m1p, k) == assoc_idx(m1, k) by {
                lemma_assoc_update(m1, a, (k0, g.inner.spec_merge(m1[a].1, e0.1)), k);
            }
            lemma_grouped_merge_shape(g, m1p, rest);
            assert forall|t: int|
                0 <= t < rest.len() implies (assoc_has(m1p, (#[trigger] rest[t]).0) <==> assoc_has(
                m1,
                rest[t].0,
            )) by {}
            lemma_fresh_entries_equiv(m1p, m1, rest);
            assert(fresh_entries(m1, seq![e0]) =~= Seq::<(G::K, F::VM)>::empty());
            assert(fresh_entries(m1, m2) == fresh_entries(m1, rest));
            assert(merged_entries(g, m1p, rest) =~= merged_entries(g, m1, m2)) by {
                assert forall|j: int| 0 <= j < m1.len() implies merged_entries(g, m1p, rest)[j]
                    == merged_entries(g, m1, m2)[j] by {
                    if j == a {
                        assert(m1[j].0 == k0);
                        assert(!assoc_has(rest, k0));
                        assert(assoc_idx(m2, k0) == 0);
                    } else {
                        assert(m1[j].0 != k0);
                        assert(m1p[j] == m1[j]);
                        lemma_assoc_idx(rest, m1[j].0);
                        lemma_assoc_idx(m2, m1[j].0);
                    }
                }
            }
            assert forall|t: int|
                0 <= t < rest.len() && assoc_has(m1p, (#[trigger] rest[t]).0) implies m1p[assoc_idx(
                m1p,
                rest[t].0,
            )].1 == m1[assoc_idx(m1, rest[t].0)].1 by {
                assert(rest[t].0 != k0);
                lemma_assoc_idx(m1, rest[t].0);
                assert(m1[a].0 == k0);
                assert(assoc_idx(m1, rest[t].0) != a || !assoc_has(m1, rest[t].0));
            }
        } else {
            assert(m1p == m1.push(e0));
            assert forall|k: G::K| true implies (k != k0 ==> (assoc_has(m1p, k) <==> assoc_has(
                m1,
                k,
            )) && (assoc_has(m1, k) ==> assoc_idx(m1p, k) == assoc_idx(m1, k))) && (k == k0
                ==> assoc_has(m1p, k) && assoc_idx(m1p, k) == m1.len()) by {
                lemma_assoc_push(m1, e0, k);
                lemma_assoc_idx(m1, k);
            }
            assert(forall|j1: int, j2: int|
                0 <= j1 < j2 < m1p.len() ==> (#[trigger] m1p[j1]).0 != (#[trigger] m1p[j2]).0);
            lemma_grouped_merge_shape(g, m1p, rest);
            assert forall|t: int|
                0 <= t < rest.len() implies (assoc_has(m1p, (#[trigger] rest[t]).0) <==> assoc_has(
                m1,
                rest[t].0,
            )) by {
                assert(rest[t].0 != k0);
            }
            lemma_fresh_entries_equiv(m1p, m1, rest);
            assert(fresh_entries(m1, seq![e0]) =~= Seq::<(G::K, F::VM)>::empty().push(e0));
            assert(Seq::<(G::K, F::VM)>::empty().push(e0) =~= seq![e0]);
            assert(fresh_entries(m1, m2) == seq![e0] + fresh_entries(m1, rest));
            assert(merged_entries(g, m1p, rest) =~= merged_entries(g, m1, m2).push(e0)) by {
                assert forall|j: int| 0 <= j < m1p.len() implies merged_entries(g, m1p, rest)[j]
                    == merged_entries(g, m1, m2).push(e0)[j] by {
                    if j < m1.len() {
                        assert(m1[j].0 != k0);
                        assert(m1p[j] == m1[j]);
                        lemma_assoc_idx(rest, m1[j].0);
                        lemma_assoc_idx(m2, m1[j].0);
                    } else {
                        assert(m1p[j] == e0);
                        assert(!assoc_has(rest, k0));
                    }
                }
            }
            assert(merged_entries(g, m1, m2).push(e0) + fresh_entries(m1, rest) =~= merged_entries(
                g,
                m1,
                m2,
            ) + (seq![e0] + fresh_entries(m1, rest)));
            assert forall|t: int|
                0 <= t < rest.len() && assoc_has(m1p, (#[trigger] rest[t]).0) implies assoc_has(
                m1,
                rest[t].0,
            ) && m1p[assoc_idx(m1p, rest[t].0)].1 == m1[assoc_idx(m1, rest[t].0)].1 by {
                assert(rest[t].0 != k0);
                lemma_assoc_push(m1, e0, rest[t].0);
                lemma_assoc_idx(m1, rest[t].0);
            }
        }
    }
}

/// Every element of a filtered sequence is an element of the original.
broadcast proof fn lemma_filter_subset<A>(s: Seq<A>, p: spec_fn(A) -> bool)
    ensures
        #![trigger s.filter(p)]
        forall|u: int| 0 <= u < s.filter(p).len() ==> s.contains(s.filter(p)[u]),
    decreases s.len(),
{
    reveal(Seq::filter);
    if s.len() > 0 {
        lemma_filter_subset(s.drop_last(), p);
        let sub = s.drop_last().filter(p);
        assert forall|u: int| 0 <= u < s.filter(p).len() implies s.contains(s.filter(p)[u]) by {
            if u < sub.len() {
                assert(s.filter(p)[u] == sub[u]);
                assert(s.drop_last().contains(sub[u]));
                let i = choose|i: int| 0 <= i < s.drop_last().len() && s.drop_last()[i] == sub[u];
                assert(s[i] == sub[u]);
            } else {
                assert(p(s.last()));
                assert(s.filter(p)[u] == s.last());
                assert(s[s.len() - 1] == s.last());
            }
        }
    }
}

/// Two filters over sequences of the same length whose predicates agree
/// position by position keep the same positions: the results have equal
/// length, and each kept pair comes from one shared position.
broadcast proof fn lemma_filter_align<A, B>(
    s1: Seq<A>,
    p1: spec_fn(A) -> bool,
    s2: Seq<B>,
    p2: spec_fn(B) -> bool,
)
    requires
        s1.len() == s2.len(),
        forall|t: int| 0 <= t < s1.len() ==> p1(#[trigger] s1[t]) == p2(s2[t]),
    ensures
        #![trigger s1.filter(p1), s2.filter(p2)]
        s1.filter(p1).len() == s2.filter(p2).len(),
        forall|u: int|
            0 <= u < s1.filter(p1).len() ==> exists|t: int|
                0 <= t < s1.len() && #[trigger] s1.filter(p1)[u] == s1[t] && s2.filter(p2)[u]
                    == s2[t],
    decreases s1.len(),
{
    reveal(Seq::filter);
    if s1.len() > 0 {
        assert(forall|t: int|
            0 <= t < s1.drop_last().len() ==> #[trigger] s1.drop_last()[t] == s1[t]
                && s2.drop_last()[t] == s2[t]);
        lemma_filter_align(s1.drop_last(), p1, s2.drop_last(), p2);
        let sub1 = s1.drop_last().filter(p1);
        let sub2 = s2.drop_last().filter(p2);
        assert(p1(s1.last()) == p2(s2.last()));
        assert forall|u: int| 0 <= u < s1.filter(p1).len() implies exists|t: int|
            0 <= t < s1.len() && #[trigger] s1.filter(p1)[u] == s1[t] && s2.filter(p2)[u]
                == s2[t] by {
            if u < sub1.len() {
                let t = choose|t: int|
                    0 <= t < s1.drop_last().len() && sub1[u] == s1.drop_last()[t] && sub2[u]
                        == s2.drop_last()[t];
                assert(s1.filter(p1)[u] == s1[t] && s2.filter(p2)[u] == s2[t]);
            } else {
                let t = s1.len() - 1;
                assert(s1.filter(p1)[u] == s1[t] && s2.filter(p2)[u] == s2[t]);
            }
        }
    }
}

/// The second part's distinct keys that the first part does not reach.
pub open spec fn new_keys<F: Fold1, G: KeyFn<T = F::A>>(
    g: &GroupedFold<F, G>,
    u: Seq<F::A>,
    v: Seq<F::A>,
) -> Seq<G::K> {
    first_keys(g, v).filter(|k: G::K| !first_keys(g, u).contains(k))
}

/// The distinct keys of a concatenation: the first part's keys, then the
/// second part's keys that the first part does not hold.
proof fn lemma_first_keys_concat<F: Fold1, G: KeyFn<T = F::A>>(
    g: &GroupedFold<F, G>,
    u: Seq<F::A>,
    v: Seq<F::A>,
)
    ensures
        first_keys(g, u + v) == first_keys(g, u) + new_keys(g, u, v),
    decreases v.len(),
{
    reveal(Seq::filter);
    broadcast use lemma_filter_subset;

    let fku = first_keys(g, u);
    if v.len() == 0 {
        assert(u + v =~= u);
        assert(first_keys(g, v) == Seq::<G::K>::empty());
        assert(new_keys(g, u, v) =~= Seq::<G::K>::empty());
        assert(fku + new_keys(g, u, v) =~= fku);
    } else {
        let w = v.drop_last();
        let x = v.last();
        let k = g.get_key.spec_key(x);
        assert(v =~= w.push(x));
        assert(u + v =~= (u + w).push(x));
        lemma_first_keys_concat(g, u, w);
        let fkw = first_keys(g, w);
        let fkuw = first_keys(g, u + w);
        assert((u + w).push(x).drop_last() =~= u + w);
        assert((u + w).push(x).last() == x);
        assert(w.push(x).drop_last() =~= w);
        assert(w.push(x).last() == x);
        assert(first_keys(g, v) == (if fkw.contains(k) {
            fkw
        } else {
            fkw.push(k)
        }));
        assert(first_keys(g, u + v) == (if fkuw.contains(k) {
            fkuw
        } else {
            fkuw.push(k)
        }));
        if fkw.contains(k) {
            assert(new_keys(g, u, v) == new_keys(g, u, w));
            let t = choose|t: int| 0 <= t < fkw.len() && fkw[t] == k;
            assert(fkuw.contains(k)) by {
                if !fku.contains(k) {
                    assert(first_keys(g, w).filter(
                        |kk: G::K| !first_keys(g, u).contains(kk),
                    ).contains(first_keys(g, w)[t])) by {
                        first_keys(g, w).lemma_filter_contains(
                            |kk: G::K| !first_keys(g, u).contains(kk),
                            t,
                        );
                    }
                    assert(new_keys(g, u, w).contains(fkw[t]));
                    let uu = choose|uu: int|
                        0 <= uu < new_keys(g, u, w).len() && new_keys(g, u, w)[uu] == fkw[t];
                    assert(fkuw[fku.len() + uu] == k);
                } else {
                    let i = choose|i: int| 0 <= i < fku.len() && fku[i] == k;
                    assert(fkuw[i] == k);
                }
            }
            assert(first_keys(g, u + v) == fkuw);
        } else {
            assert(fkw.push(k).drop_last() =~= fkw);
            assert(fkw.push(k).last() == k);
            assert(new_keys(g, u, v) == (if !fku.contains(k) {
                new_keys(g, u, w).push(k)
            } else {
                new_keys(g, u, w)
            }));
            if fku.contains(k) {
                assert(fkuw.contains(k)) by {
                    let i = choose|i: int| 0 <= i < fku.len() && fku[i] == k;
                    assert(fkuw[i] == k);
                }
                assert(first_keys(g, u + v) == fkuw);
            } else {
                assert(!fkuw.contains(k)) by {
                    if fkuw.contains(k) {
                        let j = choose|j: int| 0 <= j < fkuw.len() && fkuw[j] == k;
                        if j < fku.len() {
                            assert(fku[j] == k);
                        } else {
                            assert(new_keys(g, u, w)[j - fku.len()] == k);
                            assert(first_keys(g, w).contains(k));
                            let t2 = choose|t2: int|
                                0 <= t2 < fkw.len() && fkw[t2] == k;
                            assert(fkw[t2] == k);
                        }
                    }
                }
                assert(first_keys(g, u + v) == fkuw.push(k));
                assert(fkuw.push(k) =~= fku + new_keys(g, u, w).push(k));
            }
        }
    }
}


/// The grouped merge law, assembled from the shape of the merge and the
/// per-key histories: for an underlying reducer whose merge is exact,
/// merging the grouped accumulators of two non-empty runs yields the
/// grouped accumulator of the concatenated run.
proof fn lemma_grouped_merge_law<F: FoldPar, G: KeyFn<T = F::A>>(
    g: &GroupedFold<F, G>,
    s1: Seq<F::A>,
    s2: Seq<F::A>,
)
    requires
        g.inner.merge_exact(),
        s1.len() > 0,
        s2.len() > 0,
        fold1_req(g, s1),
        fold1_req(g, s2),
        fold1_req(g, s1 + s2),
    ensures
        absorb_entries_req(g, fold1(g, s1), fold1(g, s2)),
        absorb_entries(g, fold1(g, s1), fold1(g, s2)) == fold1(g, s1 + s2),
{
    broadcast use lemma_filter_subset;
    broadcast use vstd::seq_lib::group_filter_ensures;
    broadcast use Seq::filter_distributes_over_add;

    let inner = &g.inner;
    let m1 = fold1(g, s1);
    let m2 = fold1(g, s2);
    let tt = fold1(g, s1 + s2);
    lemma_grouped_history(g, s1);
    lemma_grouped_history(g, s2);
    lemma_grouped_history(g, s1 + s2);
    lemma_grouped_merge_shape(g, m1, m2);
    lemma_first_keys_concat(g, s1, s2);
    let fk1 = first_keys(g, s1);
    let fk2 = first_keys(g, s2);
    let fkt = first_keys(g, s1 + s2);
    let nk = new_keys(g, s1, s2);
    let fe = fresh_entries(m1, m2);
    let me = merged_entries(g, m1, m2);
    assert forall|k: G::K| #[trigger] assoc_has(m1, k) <==> fk1.contains(k) by {
        lemma_assoc_idx(m1, k);
        if assoc_has(m1, k) {
            assert(fk1[assoc_idx(m1, k)] == k);
        }
        if fk1.contains(k) {
            let i = choose|i: int| 0 <= i < fk1.len() && fk1[i] == k;
            assert(m1[i].0 == k);
        }
    }
    assert forall|k: G::K| #[trigger] assoc_has(m2, k) <==> fk2.contains(k) by {
        lemma_assoc_idx(m2, k);
        if assoc_has(m2, k) {
            assert(fk2[assoc_idx(m2, k)] == k);
        }
        if fk2.contains(k) {
            let i = choose|i: int| 0 <= i < fk2.len() && fk2[i] == k;
            assert(m2[i].0 == k);
        }
    }
    assert(fe == m2.filter(|e: (G::K, F::VM)| !assoc_has(m1, e.0)));
    assert(nk == fk2.filter(|k: G::K| !first_keys(g, s1).contains(k)));
    lemma_filter_align(
        m2,
        |e: (G::K, F::VM)| !assoc_has(m1, e.0),
        fk2,
        |k: G::K| !first_keys(g, s1).contains(k),
    );
    assert(fe.len() == nk.len());
    // every key of the first run keeps a merged entry with an exact
    // per-key history
    assert forall|j: int| 0 <= j < m1.len() implies #[trigger] me[j] == tt[j] by {
        let kj = m1[j].0;
        assert(fk1[j] == kj);
        assert(fkt[j] == kj);
        assert(tt[j].0 == kj);
        assert(key_items(g, s1 + s2, kj) == key_items(g, s1, kj) + key_items(g, s2, kj));
        if assoc_has(m2, kj) {
            let i2 = assoc_idx(m2, kj);
            lemma_assoc_idx(m2, kj);
            assert(m2[i2].0 == kj);
            assert(m1[j].1 == fold1(inner, key_items(g, s1, kj)));
            assert(m2[i2].1 == fold1(inner, key_items(g, s2, kj)));
            inner.merge_law(key_items(g, s1, kj), key_items(g, s2, kj));
            assert(tt[j].1 == fold1(inner, key_items(g, s1 + s2, kj)));
        } else {
            assert(key_items(g, s2, kj) == Seq::<F::A>::empty());
            assert(key_items(g, s1, kj) + Seq::<F::A>::empty() =~= key_items(g, s1, kj));
            assert(tt[j].1 == fold1(inner, key_items(g, s1, kj)));
            assert(me[j] == m1[j]);
        }
    }
    // every remaining entry of the second run is appended with its key
    // and per-key fold intact
    assert forall|u: int| 0 <= u < fe.len() implies #[trigger] fe[u] == tt[m1.len() + u] by {
        let t = choose|t: int| 0 <= t < m2.len() && fe[u] == m2[t] && nk[u] == fk2[t];
        let kj = nk[u];
        assert(fe[u].0 == m2[t].0);
        assert(m2[t].0 == fk2[t]);
        assert(fe[u].0 == kj);
        assert(fkt == fk1 + nk);
        assert(fkt[m1.len() + u] == kj);
        assert(tt[m1.len() + u].0 == kj);
        assert(!fk1.contains(kj));
        assert(!assoc_has(m1, kj));
        assert(key_items(g, s1, kj) == Seq::<F::A>::empty());
        assert(key_items(g, s1 + s2, kj) == key_items(g, s1, kj) + key_items(g, s2, kj));
        assert(Seq::<F::A>::empty() + key_items(g, s2, kj) =~= key_items(g, s2, kj));
        assert(m2[t].1 == fold1(inner, key_items(g, s2, kj)));
        assert(tt[m1.len() + u].1 == fold1(inner, key_items(g, s1 + s2, kj)));
    }
    assert(tt.len() == fkt.len());
    assert(fkt.len() == fk1.len() + nk.len());
    assert(me + fe =~= tt);
    // the merge requirements follow from the underlying merge law at
    // every shared key
    assert forall|t: int|
        0 <= t < m2.len() && assoc_has(m1, (#[trigger] m2[t]).0) implies inner.merge_req(
        m1[assoc_idx(m1, m2[t].0)].1,
        m2[t].1,
    ) by {
        let k = m2[t].0;
        let i1 = assoc_idx(m1, k);
        lemma_assoc_idx(m1, k);
        assert(m1[i1].0 == k);
        assert(fk1[i1] == k);
        assert(fkt == fk1 + nk);
        assert(fkt[i1] == k);
        assert(tt[i1].0 == k);
        assert(key_items(g, s1 + s2, k) == key_items(g, s1, k) + key_items(g, s2, k));
        assert(m1[i1].1 == fold1(inner, key_items(g, s1, k)));
        assert(m2[t].1 == fold1(inner, key_items(g, s2, k)));
        inner.merge_law(key_items(g, s1, k), key_items(g, s2, k));
    }
}

/// Law: remapping inputs through the identity transformation changes
/// nothing.  The wrapped reducer steps exactly as the bare reducer on
/// the same inputs, is defined exactly where it is, and presents the
/// same output for the same accumulator.
pub proof fn lemma_pre_map_identity<F: Fold1>(q: &PreMap<F, IdTrans<F::A>>, s: Seq<F::A>, m: F::VM)
    ensures
        fold_steps(q, s, m) == fold_steps(&q.inner, s, m),
        steps_req(q, s, m) <==> steps_req(&q.inner, s, m),
        q.spec_output(m) == q.inner.spec_output(m),
        q.output_req(m) <==> q.inner.output_req(m),
        s.len() > 0 ==> fold1(q, s) == fold1(&q.inner, s) && (fold1_req(q, s) <==> fold1_req(
            &q.inner,
            s,
        )),
    decreases s.len(),
{
    if s.len() > 0 {
        lemma_pre_map_identity(q, s.drop_first(), q.spec_step(s[0], m));
        lemma_pre_map_identity(q, s.drop_first(), q.spec_init(s[0]));
    }
}

/// Law: remapping the output through the identity transformation changes
/// nothing.  The wrapped reducer steps exactly as the bare reducer, and
/// its output — its own model, by `PlainOutput` — equals the bare
/// reducer's output for the same accumulator.
pub proof fn lemma_post_map_identity<F: Fold1 + PlainOutput>(
    q: &PostMap<F, IdTrans<F::B>>,
    s: Seq<F::A>,
    m: F::VM,
)
    ensures
        fold_steps(q, s, m) == fold_steps(&q.inner, s, m),
        steps_req(q, s, m) <==> steps_req(&q.inner, s, m),
        q.spec_output(m) == q.inner.spec_output(m),
        q.output_req(m) <==> q.inner.output_req(m),
        s.len() > 0 ==> fold1(q, s) == fold1(&q.inner, s) && (fold1_req(q, s) <==> fold1_req(
            &q.inner,
            s,
        )),
{
    lemma_postmap_steps(q, s, m);
    if s.len() > 0 {
        lemma_postmap_steps(q, s.drop_first(), q.spec_init(s[0]));
    }
}

/// The running outputs of a partial fold: element `i` is the output
/// after the first `i + 1` inputs.
pub open spec fn scan1_seq<F: Fold1>(f: &F, s: Seq<F::A>) -> Seq<F::VB> {
    Seq::new(s.len(), |i: int| f.spec_output(fold1(f, s.take(i + 1))))
}

/// Law: a sequential composition folds its second reducer over the
/// sequence of running outputs of its first reducer — not over the
/// first's final output alone.
pub proof fn lemma_compose_runs_on_scan<F1, F2>(c: &ComposedFold<F1, F2>, s: Seq<F1::A>) where
    F1: Fold1 + PlainOutput,
    F2: Fold1<A = <F1 as Fold1>::B>,
    F1::M: Copy,

    requires
        s.len() > 0,
        fold1_req(c, s),
    ensures
        fold1(c, s).0 == fold1(&c.first, s),
        fold1(c, s).1 == fold1(&c.second, scan1_seq(&c.first, s)),
        c.spec_output(fold1(c, s)) == c.second.spec_output(
            fold1(&c.second, scan1_seq(&c.first, s)),
        ),
    decreases s.len(),
{
    let f1 = &c.first;
    let f2 = &c.second;
    if s.len() == 1 {
        assert(s.drop_first() =~= Seq::<F1::A>::empty());
        assert(fold1(c, s) == c.spec_init(s[0]));
        assert(s.take(1) =~= s);
        assert(scan1_seq(f1, s) =~= seq![f1.spec_output(fold1(f1, s))]);
        assert(fold1(f1, s) == f1.spec_init(s[0]));
        assert(scan1_seq(f1, s).drop_first() =~= Seq::<F1::VB>::empty());
        assert(fold1(f2, scan1_seq(f1, s)) == f2.spec_init(f1.spec_output(f1.spec_init(s[0]))));
    } else {
        let s0 = s.drop_last();
        let x = s.last();
        assert(s =~= s0.push(x));
        lemma_fold1_snoc(c, s0, x);
        assert(fold1_req(c, s0));
        lemma_compose_runs_on_scan(c, s0);
        lemma_fold1_snoc(f1, s0, x);
        assert(fold1(c, s) == c.spec_step(x, fold1(c, s0)));
        assert(fold1(c, s).0 == f1.spec_step(x, fold1(f1, s0)));
        assert(fold1(f1, s) == f1.spec_step(x, fold1(f1, s0)));
        let y = f1.spec_output(fold1(f1, s));
        assert(s.take(s.len() as int) =~= s);
        assert forall|i: int| 0 <= i < s0.len() implies #[trigger] s.take(i + 1) == s0.take(i + 1)
        by {
            assert(s.take(i + 1) =~= s0.take(i + 1));
        }
        assert(scan1_seq(f1, s) =~= scan1_seq(f1, s0).push(y));
        lemma_fold1_snoc(f2, scan1_seq(f1, s0), y);
        assert(fold1(c, s).1 == f2.spec_step(y, fold1(c, s0).1));
    }
}

} // verus!
