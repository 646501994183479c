use folds::common::{mk_summer, mk_minner, mk_maxer, Count, First, Last};
use folds::drivers::{run_fold, run_fold1, run_fold_iter, run_fold1_iter, run_fold_par_iter,
    run_fold1_par_iter, absorb_task, scan};
use folds::fold::{par, step_chunk, Fold1, FoldPar};

#[test]
fn seq_and_par_folds_agree() {
    // Sum and count, sequentially and data-parallel, over several sizes;
    // on empty input the partial folds return nothing while the total
    // folds return the identity.
    for n in [0usize, 1, 50, 8192] {
        let fld = par(mk_summer::<usize>(), Count::new());
        let xs: Vec<usize> = (0..n).collect();
        let seq_total = run_fold_iter(&fld, xs.clone());
        let par_total = run_fold_par_iter(xs.clone(), &fld);
        assert_eq!(seq_total, (n * n.saturating_sub(1) / 2, n));
        assert_eq!(seq_total, par_total);
        let seq_part = run_fold1_iter(&fld, xs.clone());
        let par_part = run_fold1_par_iter(xs, &fld);
        assert_eq!(seq_part, par_part);
        if n == 0 {
            assert_eq!(seq_part, None);
        } else {
            assert_eq!(seq_part, Some(seq_total));
        }
    }
}

#[test]
fn par_min_max_first_last() {
    for n in [1usize, 50, 500] {
        let xs: Vec<usize> = (0..n).collect();
        let mm = run_fold1_iter(&par(mk_minner::<usize>(), mk_maxer::<usize>()), xs.clone());
        assert_eq!(mm, Some((0, n - 1)));
        let fl = run_fold1_iter(&par(First::new(), Last::new()), xs);
        assert_eq!(fl, Some((0, n - 1)));
    }
}

#[test]
fn min_max_parallel_merge() {
    // Minimum and maximum support merging, so the data-parallel partial
    // fold agrees with the sequential one across chunk boundaries.
    let xs: Vec<usize> = (0..5000).map(|i| (i * 37) % 4999).collect();
    let fld = par(mk_minner::<usize>(), mk_maxer::<usize>());
    let seq = run_fold1_iter(&fld, xs.clone());
    let par_r = run_fold1_par_iter(xs, &fld);
    assert_eq!(seq, par_r);
    assert_eq!(seq, Some((0, 4998)));
}

#[test]
fn fold_by_value_drivers() {
    let xs: Vec<i64> = vec![3, -1, 4, -1, 5];
    assert_eq!(run_fold(mk_summer::<i64>(), xs.clone()), 10);
    assert_eq!(run_fold1(mk_summer::<i64>(), xs), Some(10));
    let empty: Vec<i64> = Vec::new();
    assert_eq!(run_fold(mk_summer::<i64>(), empty.clone()), 0);
    assert_eq!(run_fold1(mk_summer::<i64>(), empty), None);
}

#[test]
fn scan_gives_running_outputs() {
    let out = scan(mk_summer::<i64>(), vec![1, 2, 3, 4]);
    assert_eq!(out, vec![1, 3, 6, 10]);
    let none: Vec<i64> = Vec::new();
    assert_eq!(scan(mk_summer::<i64>(), none), Vec::<i64>::new());
}

#[test]
fn absorb_merges_and_skips() {
    let fld = Count::<usize>::new();
    let mut acc: usize = 5;
    absorb_task(&fld, &mut acc, Some(3));
    assert_eq!(acc, 8);
    absorb_task(&fld, &mut acc, None);
    assert_eq!(acc, 8);
}

#[test]
fn merge_matches_concatenated_run() {
    // Merging the accumulators of two runs equals running over the
    // concatenation, for a mergeable reducer.
    let fld = mk_summer::<i64>();
    let mut m1 = fld.init(10);
    fld.step(4, &mut m1);
    let mut m2 = fld.init(7);
    fld.step(9, &mut m2);
    fld.merge(&mut m1, m2);
    assert_eq!(fld.output(m1), 30);
}

#[test]
fn step_chunk_steps_in_order() {
    let fld = par(First::new(), Last::new());
    let mut acc = fld.init(9usize);
    step_chunk(&fld, vec![1usize, 2, 3], &mut acc);
    assert_eq!(fld.output(acc), (9, 3));
}
