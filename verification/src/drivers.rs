//! Execution drivers: stateless functions from a reducer definition and an
//! input source to an output value.

use vstd::prelude::*;
use vstd::seq_lib::lemma_flatten_concat;

use rayon::iter::{IndexedParallelIterator, IntoParallelIterator, ParallelIterator};

use crate::fold::{Fold1, Fold, FoldPar, step_chunk, fold1, fold1_req, fold_total, fold_total_req};
use crate::fold::{steps_req, lemma_fold_steps_snoc, lemma_steps_req_snoc};
use crate::fold::{lemma_fold1_concat, lemma_steps_req_concat, lemma_merge_law_total};

verus! {

/// The number of items each parallel chunk holds.
pub const CHUNK: usize = 1024;

/// The successive chunks of `size` items of a sequence, in order; the
/// last chunk may be shorter, and every chunk is non-empty.
pub open spec fn chunks_of<A>(s: Seq<A>, size: int) -> Seq<Seq<A>>
    recommends
        size > 0,
    decreases s.len(),
    when size > 0
{
    if s.len() == 0 {
        Seq::empty()
    } else if s.len() <= size {
        seq![s]
    } else {
        seq![s.take(size)] + chunks_of(s.skip(size), size)
    }
}

/// The chunks of a sequence cover it exactly, and none is empty.
pub proof fn lemma_chunks_of<A>(s: Seq<A>, size: int)
    requires
        size > 0,
    ensures
        chunks_of(s, size).flatten() == s,
        forall|i: int|
            0 <= i < chunks_of(s, size).len() ==> (#[trigger] chunks_of(s, size)[i]).len() > 0,
        s.len() > 0 ==> chunks_of(s, size).len() > 0,
    decreases s.len(),
{
    let cs = chunks_of(s, size);
    if s.len() == 0 {
        assert(cs.flatten() =~= s);
    } else if s.len() <= size {
        cs.lemma_flatten_one_element();
        assert(cs.flatten() =~= s);
    } else {
        lemma_chunks_of(s.skip(size), size);
        let rest = chunks_of(s.skip(size), size);
        lemma_flatten_concat(seq![s.take(size)], rest);
        seq![s.take(size)].lemma_flatten_one_element();
        assert(cs.flatten() =~= s);
        assert forall|i: int| 0 <= i < cs.len() implies (#[trigger] cs[i]).len() > 0 by {
            if i > 0 {
                assert(cs[i] == rest[i - 1]);
            }
        }
    }
}

/// Folds one chunk from the identity accumulator.
fn fold_chunk<F: Fold>(fold: &F, ch: Vec<F::A>) -> (r: F::M)
    requires
        fold_total_req(fold, ch@),
    ensures
        fold.m_model(r) == fold_total(fold, ch@),
{
    let mut acc = fold.empty();
    step_chunk(fold, ch, &mut acc);
    acc
}

/// Folds one non-empty chunk from its own first element.
fn fold1_chunk<F: Fold1>(fold: &F, ch: Vec<F::A>) -> (r: F::M)
    requires
        fold1_req(fold, ch@),
    ensures
        fold.m_model(r) == fold1(fold, ch@),
{
    let ghost s = ch@;
    let mut rest = ch;
    let first = rest.remove(0);
    proof {
        assert(rest@ =~= s.drop_first());
    }
    let mut acc = fold.init(first);
    step_chunk(fold, rest, &mut acc);
    acc
}

/// Relies on rayon's parallel iterators: `into_par_iter().chunks(size)`
/// yields the successive chunks of `size` items (the last may be shorter)
/// in order, and `map` followed by `collect` on an indexed parallel
/// iterator keeps that order.  Each chunk is folded by the verified
/// `fold_chunk`, so the result holds one accumulator per chunk.
#[verifier::external_body]
fn par_chunk_accs<F: Fold + Sync>(xs: Vec<F::A>, fold: &F, size: usize) -> (r: Vec<F::M>) where
    F::A: Send,
    F::M: Send,

    requires
        size > 0,
        forall|i: int|
            0 <= i < chunks_of(xs@, size as int).len() ==> fold_total_req(
                fold,
                #[trigger] chunks_of(xs@, size as int)[i],
            ),
    ensures
        r@.len() == chunks_of(xs@, size as int).len(),
        forall|i: int|
            0 <= i < r@.len() ==> fold.m_model(#[trigger] r@[i]) == fold_total(
                fold,
                chunks_of(xs@, size as int)[i],
            ),
{
    xs.into_par_iter().chunks(size).map(|ch| fold_chunk(fold, ch)).collect()
}

/// Relies on rayon's parallel iterators exactly as `par_chunk_accs` does;
/// each chunk is folded by the verified `fold1_chunk`, which initializes
/// from the chunk's first element.
#[verifier::external_body]
fn par_chunk_accs1<F: Fold1 + Sync>(xs: Vec<F::A>, fold: &F, size: usize) -> (r: Vec<F::M>) where
    F::A: Send,
    F::M: Send,

    requires
        size > 0,
        forall|i: int|
            0 <= i < chunks_of(xs@, size as int).len() ==> fold1_req(
                fold,
                #[trigger] chunks_of(xs@, size as int)[i],
            ),
    ensures
        r@.len() == chunks_of(xs@, size as int).len(),
        forall|i: int|
            0 <= i < r@.len() ==> fold.m_model(#[trigger] r@[i]) == fold1(
                fold,
                chunks_of(xs@, size as int)[i],
            ),
{
    xs.into_par_iter().chunks(size).map(|ch| fold1_chunk(fold, ch)).collect()
}

/// Data-parallel total fold: the input is split into contiguous chunks,
/// each chunk is folded independently and concurrently from the identity
/// accumulator, and the partial accumulators are merged in order.  For an
/// exact merge with a genuine identity the result equals the sequential
/// total fold, however the input was chunked.
pub fn run_fold_par_iter<F: Fold + FoldPar + Sync>(xs: Vec<F::A>, fold: &F) -> (r: F::B) where
    F::A: Send,
    F::M: Send,

    requires
        fold.merge_exact(),
        fold.empty_ok(),
        fold_total_req(fold, xs@),
        forall|i: int|
            0 <= i < chunks_of(xs@, CHUNK as int).len() ==> fold_total_req(
                fold,
                #[trigger] chunks_of(xs@, CHUNK as int)[i],
            ),
        fold.output_req(fold_total(fold, xs@)),
    ensures
        fold.b_model(r) == fold.spec_output(fold_total(fold, xs@)),
{
    if xs.len() == 0 {
        let acc = fold.empty();
        return fold.output(acc);
    }
    let ghost s = xs@;
    let ghost cs = chunks_of(s, CHUNK as int);
    proof {
        lemma_chunks_of::<F::A>(s, CHUNK as int);
    }
    let mut accs = par_chunk_accs(xs, fold, CHUNK);
    let mut acc = accs.remove(0);
    let ghost mut k: int = 1;
    proof {
        assert(cs.take(1) =~= seq![cs[0]]);
        cs.take(1).lemma_flatten_one_element();
    }
    while accs.len() > 0
        invariant
            cs == chunks_of(s, CHUNK as int),
            cs.flatten() == s,
            1 <= k <= cs.len(),
            accs@.len() == cs.len() - k,
            forall|j: int|
                0 <= j < accs@.len() ==> fold.m_model(#[trigger] accs@[j]) == fold_total(
                    fold,
                    cs[k + j],
                ),
            fold.m_model(acc) == fold_total(fold, cs.take(k).flatten()),
            cs.take(k).flatten().len() > 0,
            fold.merge_exact(),
            fold.empty_ok(),
            fold_total_req(fold, s),
            forall|i: int| 0 <= i < cs.len() ==> fold_total_req(fold, #[trigger] cs[i]),
            forall|i: int| 0 <= i < cs.len() ==> (#[trigger] cs[i]).len() > 0,
        decreases accs@.len(),
    {
        let m2 = accs.remove(0);
        proof {
            let p = cs.take(k).flatten();
            let c = cs[k];
            assert(cs.take(k + 1) =~= cs.take(k).push(c));
            cs.take(k).lemma_flatten_push(c);
            assert(cs =~= cs.take(k + 1) + cs.skip(k + 1));
            lemma_flatten_concat(cs.take(k + 1), cs.skip(k + 1));
            assert(s =~= (p + c) + cs.skip(k + 1).flatten());
            lemma_steps_req_concat(fold, p + c, cs.skip(k + 1).flatten(), fold.spec_empty());
            lemma_steps_req_concat(fold, p, c, fold.spec_empty());
            lemma_merge_law_total(fold, p, c);
        }
        fold.merge(&mut acc, m2);
        proof {
            k = k + 1;
        }
    }
    proof {
        assert(cs.take(k) =~= cs);
    }
    fold.output(acc)
}

/// Data-parallel partial fold: each contiguous chunk is folded from its
/// own first element, and the partial accumulators are merged in order.
/// Returns nothing exactly when the input is empty; for an exact merge
/// the result equals the sequential partial fold, however the input was
/// chunked.
pub fn run_fold1_par_iter<F: FoldPar + Sync>(xs: Vec<F::A>, fold: &F) -> (r: Option<F::B>) where
    F::A: Send,
    F::M: Send,

    requires
        xs@.len() > 0 ==> {
            &&& fold.merge_exact()
            &&& fold1_req(fold, xs@)
            &&& forall|i: int|
                0 <= i < chunks_of(xs@, CHUNK as int).len() ==> fold1_req(
                    fold,
                    #[trigger] chunks_of(xs@, CHUNK as int)[i],
                )
            &&& fold.output_req(fold1(fold, xs@))
        },
    ensures
        r is None <==> xs@.len() == 0,
        xs@.len() > 0 ==> (r matches Some(b) && fold.b_model(b) == fold.spec_output(
            fold1(fold, xs@),
        )),
{
    if xs.len() == 0 {
        return None;
    }
    let ghost s = xs@;
    let ghost cs = chunks_of(s, CHUNK as int);
    proof {
        lemma_chunks_of::<F::A>(s, CHUNK as int);
    }
    let mut accs = par_chunk_accs1(xs, fold, CHUNK);
    let mut acc = accs.remove(0);
    let ghost mut k: int = 1;
    proof {
        assert(cs.take(1) =~= seq![cs[0]]);
        cs.take(1).lemma_flatten_one_element();
    }
    while accs.len() > 0
        invariant
            cs == chunks_of(s, CHUNK as int),
            cs.flatten() == s,
            1 <= k <= cs.len(),
            accs@.len() == cs.len() - k,
            forall|j: int|
                0 <= j < accs@.len() ==> fold.m_model(#[trigger] accs@[j]) == fold1(
                    fold,
                    cs[k + j],
                ),
            fold.m_model(acc) == fold1(fold, cs.take(k).flatten()),
            cs.take(k).flatten().len() > 0,
            fold.merge_exact(),
            fold1_req(fold, s),
            forall|i: int| 0 <= i < cs.len() ==> fold1_req(fold, #[trigger] cs[i]),
            forall|i: int| 0 <= i < cs.len() ==> (#[trigger] cs[i]).len() > 0,
        decreases accs@.len(),
    {
        let m2 = accs.remove(0);
        proof {
            let p = cs.take(k).flatten();
            let c = cs[k];
            assert(cs.take(k + 1) =~= cs.take(k).push(c));
            cs.take(k).lemma_flatten_push(c);
            assert(cs =~= cs.take(k + 1) + cs.skip(k + 1));
            lemma_flatten_concat(cs.take(k + 1), cs.skip(k + 1));
            assert(s =~= (p + c) + cs.skip(k + 1).flatten());
            lemma_fold1_concat(fold, p + c, cs.skip(k + 1).flatten());
            lemma_fold1_concat(fold, p, c);
            fold.merge_law(p, c);
        }
        fold.merge(&mut acc, m2);
        proof {
            k = k + 1;
        }
    }
    proof {
        assert(cs.take(k) =~= cs);
    }
    Some(fold.output(acc))
}

/// The merge decision of the bounded-concurrency streaming driver: a
/// completed task's accumulator is merged into the running accumulator,
/// and a task that produced no accumulator is silently skipped — dropped
/// partitions are not reported here.
pub fn absorb_task<F: FoldPar>(fold: &F, acc: &mut F::M, task: Option<F::M>)
    requires
        task matches Some(m) ==> fold.merge_req(fold.m_model(*old(acc)), fold.m_model(m)),
    ensures
        match task {
            Some(m) => fold.m_model(*final(acc)) == fold.spec_merge(
                fold.m_model(*old(acc)),
                fold.m_model(m),
            ),
            None => *final(acc) == *old(acc),
        },
{
    match task {
        Some(m) => fold.merge(acc, m),
        None => {},
    }
}

/// Runs a total fold over a sequence of values: start from the identity
/// accumulator, step every value in order, and present the output.
pub fn run_fold_iter<F: Fold>(fold: &F, xs: Vec<F::A>) -> (r: F::B)
    requires
        fold_total_req(fold, xs@),
        fold.output_req(fold_total(fold, xs@)),
    ensures
        fold.b_model(r) == fold.spec_output(fold_total(fold, xs@)),
{
    let mut acc = fold.empty();
    step_chunk(fold, xs, &mut acc);
    fold.output(acc)
}

/// Runs a partial fold over a sequence of values: the first value
/// initializes the accumulator and the rest are stepped in order.
/// Returns nothing exactly when the input is empty.
pub fn run_fold1_iter<F: Fold1>(fold: &F, xs: Vec<F::A>) -> (r: Option<F::B>)
    requires
        xs@.len() > 0 ==> fold1_req(fold, xs@) && fold.output_req(fold1(fold, xs@)),
    ensures
        r is None <==> xs@.len() == 0,
        xs@.len() > 0 ==> (r matches Some(b) && fold.b_model(b) == fold.spec_output(
            fold1(fold, xs@),
        )),
{
    if xs.len() == 0 {
        return None;
    }
    let ghost s = xs@;
    let mut rest = xs;
    let first = rest.remove(0);
    proof {
        assert(rest@ =~= s.drop_first());
    }
    let mut acc = fold.init(first);
    step_chunk(fold, rest, &mut acc);
    Some(fold.output(acc))
}

/// Runs a total fold, taking the reducer definition by value.
pub fn run_fold<F: Fold>(fold: F, xs: Vec<F::A>) -> (r: F::B)
    requires
        fold_total_req(&fold, xs@),
        fold.output_req(fold_total(&fold, xs@)),
    ensures
        fold.b_model(r) == fold.spec_output(fold_total(&fold, xs@)),
{
    run_fold_iter(&fold, xs)
}

/// Runs a partial fold, taking the reducer definition by value.
pub fn run_fold1<F: Fold1>(fold: F, xs: Vec<F::A>) -> (r: Option<F::B>)
    requires
        xs@.len() > 0 ==> fold1_req(&fold, xs@) && fold.output_req(fold1(&fold, xs@)),
    ensures
        r is None <==> xs@.len() == 0,
        xs@.len() > 0 ==> (r matches Some(b) && fold.b_model(b) == fold.spec_output(
            fold1(&fold, xs@),
        )),
{
    run_fold1_iter(&fold, xs)
}

/// The running outputs of a total fold: element `i` of the result is the
/// output after folding the first `i + 1` input values.
pub fn scan<F: Fold>(fld: F, xs: Vec<F::A>) -> (r: Vec<F::B>) where F::M: Copy
    requires
        fold_total_req(&fld, xs@),
        forall|i: int|
            0 <= i < xs@.len() ==> fld.output_req(fold_total(&fld, #[trigger] xs@.take(i + 1))),
    ensures
        r@.len() == xs@.len(),
        forall|i: int|
            0 <= i < xs@.len() ==> fld.b_model(r@[i]) == fld.spec_output(
                fold_total(&fld, #[trigger] xs@.take(i + 1)),
            ),
{
    let ghost s = xs@;
    let mut out: Vec<F::B> = Vec::new();
    let mut acc = fld.empty();
    let mut rest = xs;
    while rest.len() > 0
        invariant
            s =~= s.take(out@.len() as int) + rest@,
            out@.len() + rest@.len() == s.len(),
            fld.m_model(acc) == fold_total(&fld, s.take(out@.len() as int)),
            steps_req(&fld, rest@, fld.m_model(acc)),
            forall|i: int|
                0 <= i < out@.len() ==> fld.b_model(out@[i]) == fld.spec_output(
                    fold_total(&fld, #[trigger] s.take(i + 1)),
                ),
            forall|i: int|
                0 <= i < s.len() ==> fld.output_req(fold_total(&fld, #[trigger] s.take(i + 1))),
        decreases rest.len(),
    {
        let ghost k = out@.len() as int;
        let x = rest.remove(0);
        proof {
            assert(x == s[k]);
            assert(s.take(k + 1) =~= s.take(k).push(x));
            lemma_fold_steps_snoc(&fld, s.take(k), x, fld.spec_empty());
            lemma_steps_req_snoc(&fld, s.take(k), x, fld.spec_empty());
        }
        fld.step(x, &mut acc);
        out.push(fld.output(acc));
        proof {
            assert(s =~= s.take(k + 1) + rest@);
        }
    }
    proof {
        assert(s.take(out@.len() as int) =~= s);
    }
    out
}


/// The in-order merge of a sequence of partial accumulators into a
/// running accumulator.
pub open spec fn merge_chain<F: FoldPar>(f: &F, m: F::VM, rest: Seq<F::VM>) -> F::VM
    decreases rest.len(),
{
    if rest.len() == 0 {
        m
    } else {
        merge_chain(f, f.spec_merge(m, rest[0]), rest.drop_first())
    }
}

/// Whether every merge of the chain is permitted.
pub open spec fn merge_chain_req<F: FoldPar>(f: &F, m: F::VM, rest: Seq<F::VM>) -> bool
    decreases rest.len(),
{
    if rest.len() == 0 {
        true
    } else {
        f.merge_req(m, rest[0]) && merge_chain_req(f, f.spec_merge(m, rest[0]), rest.drop_first())
    }
}

/// The merge chain from the fold of the first `k` chunks through the
/// remaining chunk accumulators reaches the sequential fold.
proof fn lemma_merge_chain_chunks<F: Fold + FoldPar>(f: &F, s: Seq<F::A>, size: int, k: int)
    requires
        size > 0,
        s.len() > 0,
        f.merge_exact(),
        f.empty_ok(),
        fold_total_req(f, s),
        forall|i: int|
            0 <= i < chunks_of(s, size).len() ==> fold_total_req(
                f,
                #[trigger] chunks_of(s, size)[i],
            ),
        1 <= k <= chunks_of(s, size).len(),
        chunks_of(s, size).flatten() == s,
        forall|i: int| 0 <= i < chunks_of(s, size).len() ==> (#[trigger] chunks_of(s, size)[i]).len() > 0,
        chunks_of(s, size).take(k).flatten().len() > 0,
    ensures
        merge_chain_req(
            f,
            fold_total(f, chunks_of(s, size).take(k).flatten()),
            Seq::new(chunks_of(s, size).len(), |i: int| fold_total(f, chunks_of(s, size)[i])).skip(
                k,
            ),
        ),
        merge_chain(
            f,
            fold_total(f, chunks_of(s, size).take(k).flatten()),
            Seq::new(chunks_of(s, size).len(), |i: int| fold_total(f, chunks_of(s, size)[i])).skip(
                k,
            ),
        ) == fold_total(f, s),
    decreases chunks_of(s, size).len() - k,
{
    let cs = chunks_of(s, size);
    let accs = Seq::new(cs.len(), |i: int| fold_total(f, cs[i]));
    if k == cs.len() {
        assert(cs.take(k) =~= cs);
        assert(accs.skip(k) =~= Seq::<F::VM>::empty());
    } else {
        let p = cs.take(k).flatten();
        let c = cs[k];
        assert(accs.skip(k)[0] == accs[k]);
        assert(accs.skip(k).drop_first() =~= accs.skip(k + 1));
        assert(cs.take(k + 1) =~= cs.take(k).push(c));
        cs.take(k).lemma_flatten_push(c);
        assert(cs =~= cs.take(k + 1) + cs.skip(k + 1));
        lemma_flatten_concat(cs.take(k + 1), cs.skip(k + 1));
        assert(s =~= (p + c) + cs.skip(k + 1).flatten());
        lemma_steps_req_concat(f, p + c, cs.skip(k + 1).flatten(), f.spec_empty());
        lemma_steps_req_concat(f, p, c, f.spec_empty());
        lemma_merge_law_total(f, p, c);
        lemma_merge_chain_chunks(f, s, size, k + 1);
    }
}

/// Law (chunking independence): splitting a non-empty sequence into
/// chunks of any size, folding every chunk independently from the
/// identity accumulator, and merging the partial accumulators in order
/// yields exactly the sequential total fold — for any reducer whose
/// merge is exact and whose identity is genuine.
pub proof fn lemma_chunked_fold_agrees<F: Fold + FoldPar>(f: &F, s: Seq<F::A>, size: int)
    requires
        size > 0,
        s.len() > 0,
        f.merge_exact(),
        f.empty_ok(),
        fold_total_req(f, s),
        forall|i: int|
            0 <= i < chunks_of(s, size).len() ==> fold_total_req(
                f,
                #[trigger] chunks_of(s, size)[i],
            ),
    ensures
        chunks_of(s, size).len() > 0,
        merge_chain_req(
            f,
            fold_total(f, chunks_of(s, size)[0]),
            Seq::new(chunks_of(s, size).len(), |i: int| fold_total(f, chunks_of(s, size)[i])).skip(
                1,
            ),
        ),
        merge_chain(
            f,
            fold_total(f, chunks_of(s, size)[0]),
            Seq::new(chunks_of(s, size).len(), |i: int| fold_total(f, chunks_of(s, size)[i])).skip(
                1,
            ),
        ) == fold_total(f, s),
{
    let cs = chunks_of(s, size);
    lemma_chunks_of::<F::A>(s, size);
    assert(cs.take(1) =~= seq![cs[0]]);
    cs.take(1).lemma_flatten_one_element();
    assert(cs.take(1).flatten() == cs[0]);
    lemma_merge_chain_chunks(f, s, size, 1);
}


} // verus!
