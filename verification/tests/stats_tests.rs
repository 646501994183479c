use folds::drivers::run_fold1_iter;
use folds::fold::{Fold1, FoldPar};
use folds::stats::{CyclicPolicy, SampleN};

#[test]
fn reservoir_long_stream_keeps_capacity() {
    // A stream longer than the capacity yields an active reservoir of
    // exactly the capacity; with a period-zero policy every later item
    // replaces a slot, walking the slots in order.
    let pol = CyclicPolicy { period: 0, ctr: 0, slot: 0 };
    let samp = SampleN::<CyclicPolicy, usize>::new(3, pol);
    let xs: Vec<usize> = (0..10).collect();
    let out = run_fold1_iter(&samp, xs);
    assert_eq!(out, Some(Ok(vec![9, 7, 8])));
}

#[test]
fn reservoir_short_stream_is_underfull() {
    // A stream no longer than the capacity ends still filling: the
    // output is the error variant with the items in arrival order.
    let pol = CyclicPolicy { period: 1, ctr: 1, slot: 0 };
    let samp = SampleN::<CyclicPolicy, usize>::new(3, pol);
    let out = run_fold1_iter(&samp, vec![7usize, 8]);
    assert_eq!(out, Some(Err(vec![7, 8])));
    let none = run_fold1_iter(&samp, Vec::new());
    assert_eq!(none, None);
}

#[test]
fn reservoir_skips_between_replacements() {
    // With period 2, two items are discarded between replacements.
    let pol = CyclicPolicy { period: 2, ctr: 2, slot: 0 };
    let samp = SampleN::<CyclicPolicy, usize>::new(2, pol);
    let xs: Vec<usize> = (0..8).collect();
    // Fill [0, 1]; then 2, 3 are discarded, 4 replaces slot 0, 5 and 6
    // are discarded, 7 replaces slot 1.
    let out = run_fold1_iter(&samp, xs);
    assert_eq!(out, Some(Ok(vec![4, 7])));
}

#[test]
fn reservoir_merge_replays_items() {
    // Merging replays the second reservoir's items through the first.
    let pol = CyclicPolicy { period: 0, ctr: 0, slot: 0 };
    let samp = SampleN::<CyclicPolicy, usize>::new(3, pol);
    let mut m1 = samp.init(1);
    samp.step(2, &mut m1);
    let mut m2 = samp.init(10);
    samp.step(20, &mut m2);
    samp.merge(&mut m1, m2);
    // The first reservoir was filling with [1, 2]; replaying 10 fills it
    // to [1, 2, 10] (now active), and 20 then replaces slot 0.
    assert_eq!(samp.output(m1), Ok(vec![20, 2, 10]));
}
