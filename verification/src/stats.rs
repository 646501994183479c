//! The bounded reservoir sampler: a uniform fixed-size sample of a stream
//! of unknown length, O(1) amortized work per item once the reservoir has
//! filled.
//!
//! Which items survive is decided by a skip policy, an explicit,
//! injectable dependency: a deterministic policy makes runs reproducible,
//! while a caller may supply a randomized one drawing its skip lengths
//! from entropy.

use vstd::prelude::*;

use crate::fold::{Fold1, Fold, FoldPar, fold1, fold1_req};
use crate::fold::lemma_fold_steps_snoc;
use crate::fold::lemma_steps_req_snoc;

verus! {

/// Decides, while the reservoir is active, whether the next item replaces
/// a slot or is discarded.  The decision process owns whatever state it
/// needs (a counter, a pseudo-random generator); its model functions pin
/// each implementation's behavior.
pub trait SkipPolicy: Sized {
    /// The policy handed to a fresh accumulator.
    spec fn spec_fresh(&self) -> Self;

    /// The policy state after the reservoir fills.
    spec fn spec_activate(&self, cap: usize) -> Self;

    /// One decision: the successor state and, when a replacement is
    /// chosen, the slot replaced.
    spec fn spec_decide(&self, cap: usize) -> (Self, Option<usize>);

    /// A fresh policy for a new accumulator.
    fn fresh(&self) -> (p: Self)
        ensures
            p == self.spec_fresh(),
    ;

    /// Note the transition from filling to active.
    fn activate(&mut self, cap: usize)
        requires
            cap >= 1,
        ensures
            *final(self) == old(self).spec_activate(cap),
    ;

    /// Decide the fate of the next item.
    fn decide(&mut self, cap: usize) -> (d: Option<usize>)
        requires
            cap >= 1,
        ensures
            *final(self) == old(self).spec_decide(cap).0,
            d == old(self).spec_decide(cap).1,
            d matches Some(i) ==> i < cap,
    ;
}

/// A deterministic skip policy: after every `period` discarded items one
/// replacement is made, walking the slots in order.  Runs with it are
/// reproducible, as a test needs.
#[derive(Clone, Copy)]
pub struct CyclicPolicy {
    /// How many items are discarded between replacements.
    pub period: usize,
    /// Items still to discard before the next replacement.
    pub ctr: usize,
    /// The slot the next replacement writes, before reduction by the
    /// capacity.
    pub slot: usize,
}

impl SkipPolicy for CyclicPolicy {
    open spec fn spec_fresh(&self) -> CyclicPolicy {
        *self
    }

    open spec fn spec_activate(&self, cap: usize) -> CyclicPolicy {
        CyclicPolicy { period: self.period, ctr: self.period, slot: self.slot }
    }

    open spec fn spec_decide(&self, cap: usize) -> (CyclicPolicy, Option<usize>) {
        if self.ctr == 0 {
            (
                CyclicPolicy {
                    period: self.period,
                    ctr: self.period,
                    slot: ((self.slot % cap + 1) % (cap as int)) as usize,
                },
                Some((self.slot % cap) as usize),
            )
        } else {
            (
                CyclicPolicy { period: self.period, ctr: (self.ctr - 1) as usize, slot: self.slot },
                None,
            )
        }
    }

    fn fresh(&self) -> CyclicPolicy {
        *self
    }

    fn activate(&mut self, cap: usize) {
        self.ctr = self.period;
    }

    fn decide(&mut self, cap: usize) -> (d: Option<usize>) {
        if self.ctr == 0 {
            self.ctr = self.period;
            let i = self.slot % cap;
            self.slot = (i + 1) % cap;
            Some(i)
        } else {
            self.ctr = self.ctr - 1;
            None
        }
    }
}

/// The running state of one reservoir: the items held so far and the
/// phase.  While filling, `items` are the inputs in arrival order; once
/// active, `items` is the fixed-size sample.
pub struct Resevoir<P, A> {
    /// The skip policy of this accumulator.
    pub policy: P,
    /// The items held.
    pub items: Vec<A>,
    /// Whether the reservoir has filled and replacement has begun.
    pub active: bool,
}

/// The mathematical model of a reservoir state.
pub struct ResModel<P, A> {
    /// The skip policy state.
    pub policy: P,
    /// The items held.
    pub items: Seq<A>,
    /// Whether the reservoir has filled.
    pub active: bool,
}

/// The model of a reservoir value.
pub open spec fn res_model<P, A>(r: Resevoir<P, A>) -> ResModel<P, A> {
    ResModel { policy: r.policy, items: r.items@, active: r.active }
}

/// The reservoir invariant for capacity `cap`: filling holds fewer than
/// `cap` items; active holds exactly `cap`.
pub open spec fn res_inv<P, A>(cap: usize, m: ResModel<P, A>) -> bool {
    if m.active {
        m.items.len() == cap
    } else {
        m.items.len() < cap
    }
}

/// One sampling step on the model.  Filling appends, and the arrival of
/// the `cap`-th item activates the reservoir, exactly once and
/// irreversibly.  Active consults the policy: a chosen in-range slot is
/// overwritten, any other decision discards the item.
pub open spec fn spec_sample<P: SkipPolicy, A>(cap: usize, m: ResModel<P, A>, x: A) -> ResModel<
    P,
    A,
> {
    if !m.active {
        let s2 = m.items.push(x);
        if s2.len() == cap {
            ResModel { policy: m.policy.spec_activate(cap), items: s2, active: true }
        } else {
            ResModel { policy: m.policy, items: s2, active: false }
        }
    } else {
        let (p2, d) = m.policy.spec_decide(cap);
        match d {
            Some(i) => if i < m.items.len() {
                ResModel { policy: p2, items: m.items.update(i as int, x), active: true }
            } else {
                ResModel { policy: p2, items: m.items, active: true }
            },
            None => ResModel { policy: p2, items: m.items, active: true },
        }
    }
}

/// Sampling preserves the reservoir invariant.
pub proof fn lemma_sample_inv<P: SkipPolicy, A>(cap: usize, m: ResModel<P, A>, x: A)
    requires
        cap >= 1,
        res_inv(cap, m),
    ensures
        res_inv(cap, spec_sample(cap, m, x)),
{
}

impl<P: SkipPolicy, A> Resevoir<P, A> {
    /// A reservoir that has seen no items yet, owning the given policy.
    pub fn new_empty(policy: P) -> (r: Resevoir<P, A>)
        ensures
            res_model(r) == (ResModel::<P, A> {
                policy: policy,
                items: Seq::empty(),
                active: false,
            }),
    {
        let r = Resevoir { policy, items: Vec::new(), active: false };
        proof {
            assert(r.items@ =~= Seq::<A>::empty());
        }
        r
    }

    /// Feed one item to the reservoir.
    pub fn sample(&mut self, x: A, cap: usize)
        requires
            cap >= 1,
            res_inv(cap, res_model(*old(self))),
        ensures
            res_model(*final(self)) == spec_sample(cap, res_model(*old(self)), x),
    {
        if !self.active {
            self.items.push(x);
            if self.items.len() == cap {
                self.policy.activate(cap);
                self.active = true;
            }
        } else {
            let d = self.policy.decide(cap);
            match d {
                Some(i) => {
                    if i < self.items.len() {
                        self.items.set(i, x);
                    }
                },
                None => {},
            }
        }
    }
}

/// Reservoir sampling as a reducer: keeps a uniform sample of at most
/// `cap` items.  The output is `Ok` with the full sample once active, and
/// `Err` with the items collected so far, in arrival order, if the input
/// ended before the reservoir filled.
pub struct SampleN<P, A> {
    /// The sample size.
    pub cap: usize,
    /// The prototype skip policy; each accumulator gets a fresh copy.
    pub policy: P,
    /// Marks the input type.
    pub marker: core::marker::PhantomData<A>,
}

impl<P: SkipPolicy, A> SampleN<P, A> {
    /// A reservoir-sampling reducer of the given capacity.
    pub fn new(cap: usize, policy: P) -> (r: SampleN<P, A>)
        requires
            cap >= 1,
        ensures
            r.cap == cap,
            r.policy == policy,
    {
        SampleN { cap, policy, marker: core::marker::PhantomData }
    }
}

impl<P: SkipPolicy, A> Fold1 for SampleN<P, A> {
    type A = A;

    type B = Result<Vec<A>, Vec<A>>;

    type M = Resevoir<P, A>;

    type VM = ResModel<P, A>;

    type VB = Result<Seq<A>, Seq<A>>;

    open spec fn m_model(&self, m: Resevoir<P, A>) -> ResModel<P, A> {
        res_model(m)
    }

    open spec fn b_model(&self, b: Result<Vec<A>, Vec<A>>) -> Result<Seq<A>, Seq<A>> {
        match b {
            Ok(v) => Ok(v@),
            Err(v) => Err(v@),
        }
    }

    open spec fn init_req(&self, x: A) -> bool {
        self.cap >= 1
    }

    open spec fn spec_init(&self, x: A) -> ResModel<P, A> {
        spec_sample(
            self.cap,
            ResModel { policy: self.policy.spec_fresh(), items: Seq::empty(), active: false },
            x,
        )
    }

    open spec fn step_req(&self, x: A, m: ResModel<P, A>) -> bool {
        self.cap >= 1 && res_inv(self.cap, m)
    }

    open spec fn spec_step(&self, x: A, m: ResModel<P, A>) -> ResModel<P, A> {
        spec_sample(self.cap, m, x)
    }

    open spec fn output_req(&self, m: ResModel<P, A>) -> bool {
        true
    }

    open spec fn spec_output(&self, m: ResModel<P, A>) -> Result<Seq<A>, Seq<A>> {
        if m.active {
            Ok(m.items)
        } else {
            Err(m.items)
        }
    }

    fn init(&self, x: A) -> (m: Resevoir<P, A>)
    {
        let mut r = Resevoir::new_empty(self.policy.fresh());
        r.sample(x, self.cap);
        r
    }

    fn step(&self, x: A, acc: &mut Resevoir<P, A>) {
        acc.sample(x, self.cap);
    }

    fn output(&self, acc: Resevoir<P, A>) -> (b: Result<Vec<A>, Vec<A>>)
    {
        let Resevoir { policy: _, items, active } = acc;
        if active {
            Ok(items)
        } else {
            Err(items)
        }
    }
}

impl<P: SkipPolicy, A> Fold for SampleN<P, A> {
    open spec fn spec_empty(&self) -> ResModel<P, A> {
        ResModel { policy: self.policy.spec_fresh(), items: Seq::empty(), active: false }
    }

    open spec fn empty_req(&self) -> bool {
        self.cap >= 1
    }

    open spec fn empty_ok(&self) -> bool {
        true
    }

    fn empty(&self) -> (m: Resevoir<P, A>)
    {
        Resevoir::new_empty(self.policy.fresh())
    }

    proof fn empty_is_identity(&self, x: A) {
    }
}

/// The replay of a sequence of items through a reservoir, one sampling
/// step per item.
pub open spec fn replay<P: SkipPolicy, A>(cap: usize, m: ResModel<P, A>, items: Seq<A>) -> ResModel<
    P,
    A,
>
    decreases items.len(),
{
    if items.len() == 0 {
        m
    } else {
        replay(cap, spec_sample(cap, m, items[0]), items.drop_first())
    }
}

impl<P: SkipPolicy, A> FoldPar for SampleN<P, A> {
    open spec fn merge_req(&self, m1: ResModel<P, A>, m2: ResModel<P, A>) -> bool {
        self.cap >= 1 && res_inv(self.cap, m1)
    }

    open spec fn spec_merge(&self, m1: ResModel<P, A>, m2: ResModel<P, A>) -> ResModel<P, A> {
        replay(self.cap, m1, m2.items)
    }

    /// Not exact, by design: replaying one reservoir's items through the
    /// other is an approximation of a true weighted reservoir merge, and
    /// does not preserve exact uniformity when the two source streams
    /// have very different lengths.
    open spec fn merge_exact(&self) -> bool {
        false
    }

    fn merge(&self, m1: &mut Resevoir<P, A>, m2: Resevoir<P, A>) {
        let ghost target = replay(self.cap, res_model(*old(m1)), m2.items@);
        let Resevoir { policy: _, items, active: _ } = m2;
        let mut rest = items;
        while rest.len() > 0
            invariant
                self.cap >= 1,
                res_inv(self.cap, res_model(*m1)),
                replay(self.cap, res_model(*m1), rest@) == target,
            decreases rest.len(),
        {
            let ghost before = res_model(*m1);
            let x = rest.remove(0);
            m1.sample(x, self.cap);
            proof {
                lemma_sample_inv(self.cap, before, x);
            }
        }
    }

    proof fn merge_law(&self, s1: Seq<A>, s2: Seq<A>) {
    }
}

/// Law: the reservoir's two phases.  Folding fewer inputs than the
/// capacity leaves it filling and holding exactly those inputs in arrival
/// order, with its policy untouched; folding at least `cap` inputs leaves
/// it active and holding exactly `cap` items.
pub proof fn lemma_reservoir_phases<P: SkipPolicy, A>(f: &SampleN<P, A>, s: Seq<A>)
    requires
        f.cap >= 1,
        s.len() > 0,
    ensures
        fold1_req(f, s),
        res_inv(f.cap, fold1(f, s)),
        s.len() < f.cap ==> fold1(f, s) == (ResModel::<P, A> {
            policy: f.policy.spec_fresh(),
            items: s,
            active: false,
        }),
        s.len() >= f.cap ==> fold1(f, s).active && fold1(f, s).items.len() == f.cap,
    decreases s.len(),
{
    if s.len() == 1 {
        assert(s.drop_first() =~= Seq::<A>::empty());
        assert(fold1(f, s) == f.spec_init(s[0]));
        assert(Seq::<A>::empty().push(s[0]) =~= s);
    } else {
        let s0 = s.drop_last();
        let x = s.last();
        assert(s =~= s0.push(x));
        lemma_reservoir_phases(f, s0);
        assert(s.drop_first() =~= s0.drop_first().push(x));
        lemma_fold_steps_snoc(f, s0.drop_first(), x, f.spec_init(s0[0]));
        lemma_steps_req_snoc(f, s0.drop_first(), x, f.spec_init(s0[0]));
        assert(s[0] == s0[0]);
        assert(fold1(f, s) == f.spec_step(x, fold1(f, s0)));
        lemma_sample_inv(f.cap, fold1(f, s0), x);
        if s.len() < f.cap {
            assert(s0.push(x) =~= s);
        }
    }
}

} // verus!
