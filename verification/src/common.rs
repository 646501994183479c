//! The primitive reducers: sum, maximum, minimum, first, last, count.

use vstd::prelude::*;

use crate::fold::{Fold1, Fold, FoldPar, PlainOutput, fold1, fold_steps, steps_req};
use crate::fold::{lemma_fold_steps_snoc, lemma_steps_req_snoc, lemma_fold1_concat};

verus! {

/// Sums its inputs; the identity accumulator is zero.
pub struct Sum<A> {
    marker: core::marker::PhantomData<A>,
}

/// A fresh sum reducer.
pub fn mk_summer<A>() -> Sum<A> {
    Sum { marker: core::marker::PhantomData }
}

/// Keeps the largest input seen so far.
pub struct Max<A> {
    marker: core::marker::PhantomData<A>,
}

/// A fresh maximum reducer.
pub fn mk_maxer<A>() -> Max<A> {
    Max { marker: core::marker::PhantomData }
}

/// Keeps the smallest input seen so far.
pub struct Min<A> {
    marker: core::marker::PhantomData<A>,
}

/// A fresh minimum reducer.
pub fn mk_minner<A>() -> Min<A> {
    Min { marker: core::marker::PhantomData }
}

/// Keeps the first input; order-sensitive, so it offers no merge.
pub struct First<A> {
    marker: core::marker::PhantomData<A>,
}

impl<A> First<A> {
    /// A fresh first-element reducer.
    pub fn new() -> First<A> {
        First { marker: core::marker::PhantomData }
    }
}

/// Keeps the most recent input; order-sensitive, so it offers no merge.
pub struct Last<A> {
    marker: core::marker::PhantomData<A>,
}

impl<A> Last<A> {
    /// A fresh last-element reducer.
    pub fn new() -> Last<A> {
        Last { marker: core::marker::PhantomData }
    }
}

/// Counts its inputs; the identity accumulator is zero.
pub struct Count<A> {
    marker: core::marker::PhantomData<A>,
}

impl<A> Count<A> {
    /// A fresh counting reducer.
    pub fn new() -> Count<A> {
        Count { marker: core::marker::PhantomData }
    }
}

impl Fold1 for Sum<i64> {
    type A = i64;

    type B = i64;

    type M = i64;

    type VM = i64;

    type VB = i64;

    open spec fn m_model(&self, m: i64) -> i64 {
        m
    }

    open spec fn b_model(&self, b: i64) -> i64 {
        b
    }

    open spec fn init_req(&self, x: i64) -> bool {
        true
    }

    open spec fn spec_init(&self, x: i64) -> i64 {
        x
    }

    open spec fn step_req(&self, x: i64, m: i64) -> bool {
        i64::MIN <= m + x <= i64::MAX
    }

    open spec fn spec_step(&self, x: i64, m: i64) -> i64 {
        (m + x) as i64
    }

    open spec fn output_req(&self, m: i64) -> bool {
        true
    }

    open spec fn spec_output(&self, m: i64) -> i64 {
        m
    }

    fn init(&self, x: i64) -> i64 {
        x
    }

    fn step(&self, x: i64, acc: &mut i64) {
        *acc += x;
    }

    fn output(&self, acc: i64) -> i64 {
        acc
    }
}

impl Fold for Sum<i64> {
    open spec fn spec_empty(&self) -> i64 {
        0
    }

    open spec fn empty_req(&self) -> bool {
        true
    }

    open spec fn empty_ok(&self) -> bool {
        true
    }

    fn empty(&self) -> i64 {
        0
    }

    proof fn empty_is_identity(&self, x: i64) {
    }
}

impl FoldPar for Sum<i64> {
    open spec fn merge_req(&self, m1: i64, m2: i64) -> bool {
        i64::MIN <= m1 + m2 <= i64::MAX
    }

    open spec fn spec_merge(&self, m1: i64, m2: i64) -> i64 {
        (m1 + m2) as i64
    }

    open spec fn merge_exact(&self) -> bool {
        true
    }

    fn merge(&self, m1: &mut i64, m2: i64) {
        *m1 += m2;
    }

    proof fn merge_law(&self, s1: Seq<i64>, s2: Seq<i64>) {
        lemma_fold1_concat(self, s1, s2);
        assert(seq![s2[0]] + s2.drop_first() =~= s2);
        lemma_sum_i64_absorb(self, fold1(self, s1), s2.drop_first(), s2[0]);
    }
}

/// Continuing a sum with `x` and the elements of `s` is the same as adding
/// the sum they form on their own.
proof fn lemma_sum_i64_absorb(f: &Sum<i64>, m1: i64, s: Seq<i64>, x: i64)
    requires
        steps_req(f, s, f.spec_init(x)),
        steps_req(f, seq![x] + s, m1),
    ensures
        f.merge_req(m1, fold_steps(f, s, f.spec_init(x))),
        f.spec_merge(m1, fold_steps(f, s, f.spec_init(x))) == fold_steps(f, seq![x] + s, m1),
    decreases s.len(),
{
    if s.len() == 0 {
        assert(seq![x] + s =~= seq![x]);
        assert(seq![x].drop_first() =~= Seq::<i64>::empty());
        assert(fold_steps(f, Seq::<i64>::empty(), f.spec_step(x, m1)) == f.spec_step(x, m1));
        assert(fold_steps(f, seq![x], m1) == f.spec_step(x, m1));
        assert(fold_steps(f, s, f.spec_init(x)) == f.spec_init(x));
    } else {
        let s0 = s.drop_last();
        let y = s.last();
        assert(s =~= s0.push(y));
        assert(seq![x] + s =~= (seq![x] + s0).push(y));
        lemma_fold_steps_snoc(f, s0, y, f.spec_init(x));
        lemma_steps_req_snoc(f, s0, y, f.spec_init(x));
        lemma_fold_steps_snoc(f, seq![x] + s0, y, m1);
        lemma_steps_req_snoc(f, seq![x] + s0, y, m1);
        lemma_sum_i64_absorb(f, m1, s0, x);
    }
}

impl Fold1 for Sum<usize> {
    type A = usize;

    type B = usize;

    type M = usize;

    type VM = usize;

    type VB = usize;

    open spec fn m_model(&self, m: usize) -> usize {
        m
    }

    open spec fn b_model(&self, b: usize) -> usize {
        b
    }

    open spec fn init_req(&self, x: usize) -> bool {
        true
    }

    open spec fn spec_init(&self, x: usize) -> usize {
        x
    }

    open spec fn step_req(&self, x: usize, m: usize) -> bool {
        m + x <= usize::MAX
    }

    open spec fn spec_step(&self, x: usize, m: usize) -> usize {
        (m + x) as usize
    }

    open spec fn output_req(&self, m: usize) -> bool {
        true
    }

    open spec fn spec_output(&self, m: usize) -> usize {
        m
    }

    fn init(&self, x: usize) -> usize {
        x
    }

    fn step(&self, x: usize, acc: &mut usize) {
        *acc += x;
    }

    fn output(&self, acc: usize) -> usize {
        acc
    }
}

impl Fold for Sum<usize> {
    open spec fn spec_empty(&self) -> usize {
        0
    }

    open spec fn empty_req(&self) -> bool {
        true
    }

    open spec fn empty_ok(&self) -> bool {
        true
    }

    fn empty(&self) -> usize {
        0
    }

    proof fn empty_is_identity(&self, x: usize) {
    }
}

impl FoldPar for Sum<usize> {
    open spec fn merge_req(&self, m1: usize, m2: usize) -> bool {
        m1 + m2 <= usize::MAX
    }

    open spec fn spec_merge(&self, m1: usize, m2: usize) -> usize {
        (m1 + m2) as usize
    }

    open spec fn merge_exact(&self) -> bool {
        true
    }

    fn merge(&self, m1: &mut usize, m2: usize) {
        *m1 += m2;
    }

    proof fn merge_law(&self, s1: Seq<usize>, s2: Seq<usize>) {
        lemma_fold1_concat(self, s1, s2);
        assert(seq![s2[0]] + s2.drop_first() =~= s2);
        lemma_sum_usize_absorb(self, fold1(self, s1), s2.drop_first(), s2[0]);
    }
}

/// Continuing a sum with `x` and the elements of `s` is the same as adding
/// the sum they form on their own.
proof fn lemma_sum_usize_absorb(f: &Sum<usize>, m1: usize, s: Seq<usize>, x: usize)
    requires
        steps_req(f, s, f.spec_init(x)),
        steps_req(f, seq![x] + s, m1),
    ensures
        f.merge_req(m1, fold_steps(f, s, f.spec_init(x))),
        f.spec_merge(m1, fold_steps(f, s, f.spec_init(x))) == fold_steps(f, seq![x] + s, m1),
    decreases s.len(),
{
    if s.len() == 0 {
        assert(seq![x] + s =~= seq![x]);
        assert(seq![x].drop_first() =~= Seq::<usize>::empty());
        assert(fold_steps(f, Seq::<usize>::empty(), f.spec_step(x, m1)) == f.spec_step(x, m1));
        assert(fold_steps(f, seq![x], m1) == f.spec_step(x, m1));
        assert(fold_steps(f, s, f.spec_init(x)) == f.spec_init(x));
    } else {
        let s0 = s.drop_last();
        let y = s.last();
        assert(s =~= s0.push(y));
        assert(seq![x] + s =~= (seq![x] + s0).push(y));
        lemma_fold_steps_snoc(f, s0, y, f.spec_init(x));
        lemma_steps_req_snoc(f, s0, y, f.spec_init(x));
        lemma_fold_steps_snoc(f, seq![x] + s0, y, m1);
        lemma_steps_req_snoc(f, seq![x] + s0, y, m1);
        lemma_sum_usize_absorb(f, m1, s0, x);
    }
}

impl Fold1 for Max<i64> {
    type A = i64;

    type B = i64;

    type M = i64;

    type VM = i64;

    type VB = i64;

    open spec fn m_model(&self, m: i64) -> i64 {
        m
    }

    open spec fn b_model(&self, b: i64) -> i64 {
        b
    }

    open spec fn init_req(&self, x: i64) -> bool {
        true
    }

    open spec fn spec_init(&self, x: i64) -> i64 {
        x
    }

    open spec fn step_req(&self, x: i64, m: i64) -> bool {
        true
    }

    open spec fn spec_step(&self, x: i64, m: i64) -> i64 {
        if x < m {
            m
        } else {
            x
        }
    }

    open spec fn output_req(&self, m: i64) -> bool {
        true
    }

    open spec fn spec_output(&self, m: i64) -> i64 {
        m
    }

    fn init(&self, x: i64) -> i64 {
        x
    }

    fn step(&self, x: i64, acc: &mut i64) {
        if x < *acc {
        } else {
            *acc = x;
        }
    }

    fn output(&self, acc: i64) -> i64 {
        acc
    }
}

impl FoldPar for Max<i64> {
    open spec fn merge_req(&self, m1: i64, m2: i64) -> bool {
        true
    }

    open spec fn spec_merge(&self, m1: i64, m2: i64) -> i64 {
        if m1 > m2 {
            m1
        } else {
            m2
        }
    }

    open spec fn merge_exact(&self) -> bool {
        true
    }

    fn merge(&self, m1: &mut i64, m2: i64) {
        if *m1 > m2 {
        } else {
            *m1 = m2;
        }
    }

    proof fn merge_law(&self, s1: Seq<i64>, s2: Seq<i64>) {
        lemma_fold1_concat(self, s1, s2);
        assert(seq![s2[0]] + s2.drop_first() =~= s2);
        lemma_max_i64_absorb(self, fold1(self, s1), s2.drop_first(), s2[0]);
    }
}

/// Merging a running maximum with the maximum of `x` followed by `s` is
/// the same as continuing with those elements.
proof fn lemma_max_i64_absorb(f: &Max<i64>, m1: i64, s: Seq<i64>, x: i64)
    ensures
        f.spec_merge(m1, fold_steps(f, s, f.spec_init(x))) == fold_steps(f, seq![x] + s, m1),
    decreases s.len(),
{
    if s.len() == 0 {
        assert(seq![x] + s =~= seq![x]);
        assert(seq![x].drop_first() =~= Seq::<i64>::empty());
        assert(fold_steps(f, Seq::<i64>::empty(), f.spec_step(x, m1)) == f.spec_step(x, m1));
        assert(fold_steps(f, seq![x], m1) == f.spec_step(x, m1));
        assert(fold_steps(f, s, f.spec_init(x)) == f.spec_init(x));
    } else {
        let s0 = s.drop_last();
        let y = s.last();
        assert(s =~= s0.push(y));
        assert(seq![x] + s =~= (seq![x] + s0).push(y));
        lemma_fold_steps_snoc(f, s0, y, f.spec_init(x));
        lemma_fold_steps_snoc(f, seq![x] + s0, y, m1);
        lemma_max_i64_absorb(f, m1, s0, x);
    }
}

impl Fold1 for Max<usize> {
    type A = usize;

    type B = usize;

    type M = usize;

    type VM = usize;

    type VB = usize;

    open spec fn m_model(&self, m: usize) -> usize {
        m
    }

    open spec fn b_model(&self, b: usize) -> usize {
        b
    }

    open spec fn init_req(&self, x: usize) -> bool {
        true
    }

    open spec fn spec_init(&self, x: usize) -> usize {
        x
    }

    open spec fn step_req(&self, x: usize, m: usize) -> bool {
        true
    }

    open spec fn spec_step(&self, x: usize, m: usize) -> usize {
        if x < m {
            m
        } else {
            x
        }
    }

    open spec fn output_req(&self, m: usize) -> bool {
        true
    }

    open spec fn spec_output(&self, m: usize) -> usize {
        m
    }

    fn init(&self, x: usize) -> usize {
        x
    }

    fn step(&self, x: usize, acc: &mut usize) {
        if x < *acc {
        } else {
            *acc = x;
        }
    }

    fn output(&self, acc: usize) -> usize {
        acc
    }
}

impl FoldPar for Max<usize> {
    open spec fn merge_req(&self, m1: usize, m2: usize) -> bool {
        true
    }

    open spec fn spec_merge(&self, m1: usize, m2: usize) -> usize {
        if m1 > m2 {
            m1
        } else {
            m2
        }
    }

    open spec fn merge_exact(&self) -> bool {
        true
    }

    fn merge(&self, m1: &mut usize, m2: usize) {
        if *m1 > m2 {
        } else {
            *m1 = m2;
        }
    }

    proof fn merge_law(&self, s1: Seq<usize>, s2: Seq<usize>) {
        lemma_fold1_concat(self, s1, s2);
        assert(seq![s2[0]] + s2.drop_first() =~= s2);
        lemma_max_usize_absorb(self, fold1(self, s1), s2.drop_first(), s2[0]);
    }
}

/// Merging a running maximum with the maximum of `x` followed by `s` is
/// the same as continuing with those elements.
proof fn lemma_max_usize_absorb(f: &Max<usize>, m1: usize, s: Seq<usize>, x: usize)
    ensures
        f.spec_merge(m1, fold_steps(f, s, f.spec_init(x))) == fold_steps(f, seq![x] + s, m1),
    decreases s.len(),
{
    if s.len() == 0 {
        assert(seq![x] + s =~= seq![x]);
        assert(seq![x].drop_first() =~= Seq::<usize>::empty());
        assert(fold_steps(f, Seq::<usize>::empty(), f.spec_step(x, m1)) == f.spec_step(x, m1));
        assert(fold_steps(f, seq![x], m1) == f.spec_step(x, m1));
        assert(fold_steps(f, s, f.spec_init(x)) == f.spec_init(x));
    } else {
        let s0 = s.drop_last();
        let y = s.last();
        assert(s =~= s0.push(y));
        assert(seq![x] + s =~= (seq![x] + s0).push(y));
        lemma_fold_steps_snoc(f, s0, y, f.spec_init(x));
        lemma_fold_steps_snoc(f, seq![x] + s0, y, m1);
        lemma_max_usize_absorb(f, m1, s0, x);
    }
}

impl Fold1 for Min<i64> {
    type A = i64;

    type B = i64;

    type M = i64;

    type VM = i64;

    type VB = i64;

    open spec fn m_model(&self, m: i64) -> i64 {
        m
    }

    open spec fn b_model(&self, b: i64) -> i64 {
        b
    }

    open spec fn init_req(&self, x: i64) -> bool {
        true
    }

    open spec fn spec_init(&self, x: i64) -> i64 {
        x
    }

    open spec fn step_req(&self, x: i64, m: i64) -> bool {
        true
    }

    open spec fn spec_step(&self, x: i64, m: i64) -> i64 {
        if x > m {
            m
        } else {
            x
        }
    }

    open spec fn output_req(&self, m: i64) -> bool {
        true
    }

    open spec fn spec_output(&self, m: i64) -> i64 {
        m
    }

    fn init(&self, x: i64) -> i64 {
        x
    }

    fn step(&self, x: i64, acc: &mut i64) {
        if x > *acc {
        } else {
            *acc = x;
        }
    }

    fn output(&self, acc: i64) -> i64 {
        acc
    }
}

impl FoldPar for Min<i64> {
    open spec fn merge_req(&self, m1: i64, m2: i64) -> bool {
        true
    }

    open spec fn spec_merge(&self, m1: i64, m2: i64) -> i64 {
        if m1 < m2 {
            m1
        } else {
            m2
        }
    }

    open spec fn merge_exact(&self) -> bool {
        true
    }

    fn merge(&self, m1: &mut i64, m2: i64) {
        if *m1 < m2 {
        } else {
            *m1 = m2;
        }
    }

    proof fn merge_law(&self, s1: Seq<i64>, s2: Seq<i64>) {
        lemma_fold1_concat(self, s1, s2);
        assert(seq![s2[0]] + s2.drop_first() =~= s2);
        lemma_min_i64_absorb(self, fold1(self, s1), s2.drop_first(), s2[0]);
    }
}

/// Merging a running minimum with the minimum of `x` followed by `s` is
/// the same as continuing with those elements.
proof fn lemma_min_i64_absorb(f: &Min<i64>, m1: i64, s: Seq<i64>, x: i64)
    ensures
        f.spec_merge(m1, fold_steps(f, s, f.spec_init(x))) == fold_steps(f, seq![x] + s, m1),
    decreases s.len(),
{
    if s.len() == 0 {
        assert(seq![x] + s =~= seq![x]);
        assert(seq![x].drop_first() =~= Seq::<i64>::empty());
        assert(fold_steps(f, Seq::<i64>::empty(), f.spec_step(x, m1)) == f.spec_step(x, m1));
        assert(fold_steps(f, seq![x], m1) == f.spec_step(x, m1));
        assert(fold_steps(f, s, f.spec_init(x)) == f.spec_init(x));
    } else {
        let s0 = s.drop_last();
        let y = s.last();
        assert(s =~= s0.push(y));
        assert(seq![x] + s =~= (seq![x] + s0).push(y));
        lemma_fold_steps_snoc(f, s0, y, f.spec_init(x));
        lemma_fold_steps_snoc(f, seq![x] + s0, y, m1);
        lemma_min_i64_absorb(f, m1, s0, x);
    }
}

impl Fold1 for Min<usize> {
    type A = usize;

    type B = usize;

    type M = usize;

    type VM = usize;

    type VB = usize;

    open spec fn m_model(&self, m: usize) -> usize {
        m
    }

    open spec fn b_model(&self, b: usize) -> usize {
        b
    }

    open spec fn init_req(&self, x: usize) -> bool {
        true
    }

    open spec fn spec_init(&self, x: usize) -> usize {
        x
    }

    open spec fn step_req(&self, x: usize, m: usize) -> bool {
        true
    }

    open spec fn spec_step(&self, x: usize, m: usize) -> usize {
        if x > m {
            m
        } else {
            x
        }
    }

    open spec fn output_req(&self, m: usize) -> bool {
        true
    }

    open spec fn spec_output(&self, m: usize) -> usize {
        m
    }

    fn init(&self, x: usize) -> usize {
        x
    }

    fn step(&self, x: usize, acc: &mut usize) {
        if x > *acc {
        } else {
            *acc = x;
        }
    }

    fn output(&self, acc: usize) -> usize {
        acc
    }
}

impl FoldPar for Min<usize> {
    open spec fn merge_req(&self, m1: usize, m2: usize) -> bool {
        true
    }

    open spec fn spec_merge(&self, m1: usize, m2: usize) -> usize {
        if m1 < m2 {
            m1
        } else {
            m2
        }
    }

    open spec fn merge_exact(&self) -> bool {
        true
    }

    fn merge(&self, m1: &mut usize, m2: usize) {
        if *m1 < m2 {
        } else {
            *m1 = m2;
        }
    }

    proof fn merge_law(&self, s1: Seq<usize>, s2: Seq<usize>) {
        lemma_fold1_concat(self, s1, s2);
        assert(seq![s2[0]] + s2.drop_first() =~= s2);
        lemma_min_usize_absorb(self, fold1(self, s1), s2.drop_first(), s2[0]);
    }
}

/// Merging a running minimum with the minimum of `x` followed by `s` is
/// the same as continuing with those elements.
proof fn lemma_min_usize_absorb(f: &Min<usize>, m1: usize, s: Seq<usize>, x: usize)
    ensures
        f.spec_merge(m1, fold_steps(f, s, f.spec_init(x))) == fold_steps(f, seq![x] + s, m1),
    decreases s.len(),
{
    if s.len() == 0 {
        assert(seq![x] + s =~= seq![x]);
        assert(seq![x].drop_first() =~= Seq::<usize>::empty());
        assert(fold_steps(f, Seq::<usize>::empty(), f.spec_step(x, m1)) == f.spec_step(x, m1));
        assert(fold_steps(f, seq![x], m1) == f.spec_step(x, m1));
        assert(fold_steps(f, s, f.spec_init(x)) == f.spec_init(x));
    } else {
        let s0 = s.drop_last();
        let y = s.last();
        assert(s =~= s0.push(y));
        assert(seq![x] + s =~= (seq![x] + s0).push(y));
        lemma_fold_steps_snoc(f, s0, y, f.spec_init(x));
        lemma_fold_steps_snoc(f, seq![x] + s0, y, m1);
        lemma_min_usize_absorb(f, m1, s0, x);
    }
}

impl<A> Fold1 for First<A> {
    type A = A;

    type B = A;

    type M = A;

    type VM = A;

    type VB = A;

    open spec fn m_model(&self, m: A) -> A {
        m
    }

    open spec fn b_model(&self, b: A) -> A {
        b
    }

    open spec fn init_req(&self, x: A) -> bool {
        true
    }

    open spec fn spec_init(&self, x: A) -> A {
        x
    }

    open spec fn step_req(&self, x: A, m: A) -> bool {
        true
    }

    open spec fn spec_step(&self, x: A, m: A) -> A {
        m
    }

    open spec fn output_req(&self, m: A) -> bool {
        true
    }

    open spec fn spec_output(&self, m: A) -> A {
        m
    }

    fn init(&self, x: A) -> A {
        x
    }

    fn step(&self, _x: A, _acc: &mut A) {
    }

    fn output(&self, acc: A) -> A {
        acc
    }
}

impl<A> Fold1 for Last<A> {
    type A = A;

    type B = A;

    type M = A;

    type VM = A;

    type VB = A;

    open spec fn m_model(&self, m: A) -> A {
        m
    }

    open spec fn b_model(&self, b: A) -> A {
        b
    }

    open spec fn init_req(&self, x: A) -> bool {
        true
    }

    open spec fn spec_init(&self, x: A) -> A {
        x
    }

    open spec fn step_req(&self, x: A, m: A) -> bool {
        true
    }

    open spec fn spec_step(&self, x: A, m: A) -> A {
        x
    }

    open spec fn output_req(&self, m: A) -> bool {
        true
    }

    open spec fn spec_output(&self, m: A) -> A {
        m
    }

    fn init(&self, x: A) -> A {
        x
    }

    fn step(&self, x: A, acc: &mut A) {
        *acc = x;
    }

    fn output(&self, acc: A) -> A {
        acc
    }
}

impl<A> Fold1 for Count<A> {
    type A = A;

    type B = usize;

    type M = usize;

    type VM = usize;

    type VB = usize;

    open spec fn m_model(&self, m: usize) -> usize {
        m
    }

    open spec fn b_model(&self, b: usize) -> usize {
        b
    }

    open spec fn init_req(&self, x: A) -> bool {
        true
    }

    open spec fn spec_init(&self, x: A) -> usize {
        1
    }

    open spec fn step_req(&self, x: A, m: usize) -> bool {
        m < usize::MAX
    }

    open spec fn spec_step(&self, x: A, m: usize) -> usize {
        (m + 1) as usize
    }

    open spec fn output_req(&self, m: usize) -> bool {
        true
    }

    open spec fn spec_output(&self, m: usize) -> usize {
        m
    }

    fn init(&self, _x: A) -> usize {
        1
    }

    fn step(&self, _x: A, acc: &mut usize) {
        *acc += 1;
    }

    fn output(&self, acc: usize) -> usize {
        acc
    }
}

impl<A> Fold for Count<A> {
    open spec fn spec_empty(&self) -> usize {
        0
    }

    open spec fn empty_req(&self) -> bool {
        true
    }

    open spec fn empty_ok(&self) -> bool {
        true
    }

    fn empty(&self) -> usize {
        0
    }

    proof fn empty_is_identity(&self, x: A) {
    }
}

impl<A> FoldPar for Count<A> {
    open spec fn merge_req(&self, m1: usize, m2: usize) -> bool {
        m1 + m2 <= usize::MAX
    }

    open spec fn spec_merge(&self, m1: usize, m2: usize) -> usize {
        (m1 + m2) as usize
    }

    open spec fn merge_exact(&self) -> bool {
        true
    }

    fn merge(&self, m1: &mut usize, m2: usize) {
        *m1 += m2;
    }

    proof fn merge_law(&self, s1: Seq<A>, s2: Seq<A>) {
        lemma_fold1_concat(self, s1, s2);
        assert(seq![s2[0]] + s2.drop_first() =~= s2);
        lemma_count_absorb(self, fold1(self, s1), s2.drop_first(), s2[0]);
    }
}

/// Continuing a count with `x` and the elements of `s` is the same as
/// adding the count they form on their own.
proof fn lemma_count_absorb<A>(f: &Count<A>, m1: usize, s: Seq<A>, x: A)
    requires
        steps_req(f, s, f.spec_init(x)),
        steps_req(f, seq![x] + s, m1),
    ensures
        f.merge_req(m1, fold_steps(f, s, f.spec_init(x))),
        f.spec_merge(m1, fold_steps(f, s, f.spec_init(x))) == fold_steps(f, seq![x] + s, m1),
    decreases s.len(),
{
    if s.len() == 0 {
        assert(seq![x] + s =~= seq![x]);
        assert(seq![x].drop_first() =~= Seq::<A>::empty());
        assert(fold_steps(f, Seq::<A>::empty(), f.spec_step(x, m1)) == f.spec_step(x, m1));
        assert(fold_steps(f, seq![x], m1) == f.spec_step(x, m1));
        assert(fold_steps(f, s, f.spec_init(x)) == f.spec_init(x));
    } else {
        let s0 = s.drop_last();
        let y = s.last();
        assert(s =~= s0.push(y));
        assert(seq![x] + s =~= (seq![x] + s0).push(y));
        lemma_fold_steps_snoc(f, s0, y, f.spec_init(x));
        lemma_steps_req_snoc(f, s0, y, f.spec_init(x));
        lemma_fold_steps_snoc(f, seq![x] + s0, y, m1);
        lemma_steps_req_snoc(f, seq![x] + s0, y, m1);
        lemma_count_absorb(f, m1, s0, x);
    }
}


impl PlainOutput for Sum<i64> {
    proof fn output_is_model(&self, b: i64) {
    }
}

impl PlainOutput for Sum<usize> {
    proof fn output_is_model(&self, b: usize) {
    }
}

impl PlainOutput for Max<i64> {
    proof fn output_is_model(&self, b: i64) {
    }
}

impl PlainOutput for Max<usize> {
    proof fn output_is_model(&self, b: usize) {
    }
}

impl PlainOutput for Min<i64> {
    proof fn output_is_model(&self, b: i64) {
    }
}

impl PlainOutput for Min<usize> {
    proof fn output_is_model(&self, b: usize) {
    }
}

impl<A> PlainOutput for First<A> {
    proof fn output_is_model(&self, b: A) {
    }
}

impl<A> PlainOutput for Last<A> {
    proof fn output_is_model(&self, b: A) {
    }
}

impl<A> PlainOutput for Count<A> {
    proof fn output_is_model(&self, b: usize) {
    }
}

} // verus!
