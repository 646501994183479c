use folds::common::{mk_summer, mk_minner, mk_maxer, First, Last, Count};
use folds::drivers::run_fold1_iter;
use folds::fold::par;

#[test]
fn sum_min_max() {
    for n in [2usize, 50, 500] {
        let expected = (n * (n - 1) / 2, (0usize, n - 1));
        let fld = par(mk_summer::<usize>(), par(mk_minner::<usize>(), mk_maxer::<usize>()));
        let xs: Vec<usize> = (0..n).collect();
        let ans = run_fold1_iter(&fld, xs);
        assert_eq!(ans.unwrap(), expected);
    }
}

#[test]
fn fst_lst_cnt() {
    for n in [2usize, 50, 500] {
        let expected = (0usize, (n - 1, n));
        let fld = par(First::new(), par(Last::new(), Count::new()));
        let xs: Vec<usize> = (0..n).collect();
        let ans = run_fold1_iter(&fld, xs);
        assert_eq!(ans.unwrap(), expected);
    }
}
