use folds::common::{mk_summer, Count};
use folds::drivers::{run_fold, run_fold_iter, run_fold1_iter, run_fold_par_iter};
use folds::fold::{compose, Fold1, FoldPar};
use folds::funcs::{Doubler, IdTrans, IsEven, ParityKey};

#[test]
fn group_by_parity_sums() {
    // Grouping by parity and summing: odds total 9, evens total 6.  Keys
    // appear in first-occurrence order.
    let fld = mk_summer::<usize>().group_by(ParityKey);
    let out = run_fold(fld, vec![1usize, 2, 3, 4, 5]);
    assert_eq!(out, vec![(1, 9), (0, 6)]);
}

#[test]
fn group_by_partial_fold_keeps_first() {
    let fld = mk_summer::<usize>().group_by(ParityKey);
    let out = run_fold1_iter(&fld, vec![2usize, 4, 5]);
    assert_eq!(out, Some(vec![(0, 6), (1, 5)]));
}

#[test]
fn grouped_merge_is_entrywise() {
    let fld = mk_summer::<usize>().group_by(ParityKey);
    let mut m1 = fld.init(1);
    fld.step(2, &mut m1);
    let mut m2 = fld.init(3);
    fld.step(4, &mut m2);
    fld.step(7, &mut m2);
    fld.merge(&mut m1, m2);
    assert_eq!(fld.output(m1), vec![(1, 11), (0, 6)]);
}

#[test]
fn filter_keeps_even_steps() {
    let fld = mk_summer::<usize>().filter(IsEven);
    let total = run_fold(fld, vec![1usize, 2, 3, 4, 5]);
    assert_eq!(total, 6);
}

#[test]
fn filter_first_input_bypasses_predicate() {
    // A partial fold feeds its first input through `init`, which does
    // not consult the predicate.
    let fld = mk_summer::<usize>().filter(IsEven);
    let out = run_fold1_iter(&fld, vec![1usize, 2, 3, 4, 5]);
    assert_eq!(out, Some(7));
}

#[test]
fn pre_map_applies_to_inputs() {
    let fld = mk_summer::<usize>().pre_map(Doubler);
    assert_eq!(run_fold(fld, vec![1usize, 2, 3]), 12);
}

#[test]
fn post_map_applies_to_output() {
    let fld = mk_summer::<usize>().post_map(Doubler);
    assert_eq!(run_fold(fld, vec![1usize, 2, 3]), 12);
}

#[test]
fn identity_maps_change_nothing() {
    // Wrapping with the identity pre-map or post-map gives identical
    // results to the bare reducer.
    let xs: Vec<i64> = vec![3, -1, 4, -1, 5, -9];
    let bare = run_fold_iter(&mk_summer::<i64>(), xs.clone());
    let pre = run_fold(mk_summer::<i64>().pre_map(IdTrans::new()), xs.clone());
    let post = run_fold(mk_summer::<i64>().post_map(IdTrans::new()), xs.clone());
    assert_eq!(pre, bare);
    assert_eq!(post, bare);
    let bare1 = run_fold1_iter(&mk_summer::<i64>(), xs.clone());
    let pre1 = run_fold1_iter(&mk_summer::<i64>().pre_map(IdTrans::new()), xs.clone());
    let post1 = run_fold1_iter(&mk_summer::<i64>().post_map(IdTrans::new()), xs);
    assert_eq!(pre1, bare1);
    assert_eq!(post1, bare1);
}

#[test]
fn compose_folds_over_running_outputs() {
    // The second reducer folds over the running outputs of the first:
    // running sums of [1, 2, 3] are [1, 3, 6], and their sum is 10 — not
    // the final sum 6 alone.
    let fld = compose(mk_summer::<i64>(), mk_summer::<i64>());
    assert_eq!(run_fold1_iter(&fld, vec![1i64, 2, 3]), Some(10));
    let cnt = compose(mk_summer::<i64>(), Count::new());
    assert_eq!(run_fold1_iter(&cnt, vec![1i64, 2, 3]), Some(3));
}

#[test]
fn batched_folds_chunks() {
    let fld = mk_summer::<usize>().batched();
    let out = run_fold1_iter(&fld, vec![vec![1usize, 2], Vec::new(), vec![3, 4]]);
    assert_eq!(out, Some(10));
}

#[test]
fn many_runs_lanes_independently() {
    let fld = mk_summer::<usize>().many(3);
    let out = run_fold_iter(&fld, vec![vec![1usize, 2, 3], vec![10, 20, 30]]);
    assert_eq!(out, vec![11, 22, 33]);
}

#[test]
fn grouped_sum_parallel_agrees_with_sequential() {
    // Grouping propagates exact mergeability, so a grouped sum may run
    // under the data-parallel driver and must agree with the sequential
    // fold, keys in first-occurrence order included.
    let xs: Vec<usize> = (0..8192).collect();
    let fld = mk_summer::<usize>().group_by(ParityKey);
    let seq_out = run_fold_iter(&fld, xs.clone());
    let par_out = run_fold_par_iter(xs, &fld);
    assert_eq!(seq_out, par_out);
    assert_eq!(seq_out, vec![(0, 16773120), (1, 16777216)]);
}
