//! Walking a universe one timestamp at a time.

use wickra_screener_core::schedule::{lockstep, timeline, Fold};

#[test]
fn the_timeline_is_the_sorted_union() {
    let series = vec![vec![3, 5, 9], vec![1, 5], vec![], vec![9, 2]];
    assert_eq!(timeline(&series), [1, 2, 3, 5, 9]);
    assert!(timeline(&vec![]).is_empty());
    assert_eq!(timeline(&vec![vec![i64::MAX, i64::MIN]]), [i64::MIN, i64::MAX]);
}

#[test]
fn lockstep_and_per_symbol_folds_agree() {
    // Each symbol folds every one of its bars, in order, at its own timestamp.
    let series = vec![vec![1, 2, 3, 4], vec![2, 4], vec![1, 3]];
    let steps = lockstep(&series);
    let times: Vec<i64> = steps.iter().map(|s| s.time).collect();
    assert_eq!(times, [1, 2, 3, 4]);
    for (symbol, bars) in series.iter().enumerate() {
        let folded: Vec<usize> = steps
            .iter()
            .flat_map(|s| s.folds.iter())
            .filter(|f| f.symbol == symbol)
            .map(|f| f.bar)
            .collect();
        assert_eq!(folded, (0..bars.len()).collect::<Vec<_>>());
    }
    assert_eq!(
        steps[1].folds,
        [Fold { symbol: 0, bar: 1 }, Fold { symbol: 1, bar: 0 }]
    );
}

#[test]
fn a_delisted_symbol_does_not_rewind_the_others() {
    let series = vec![vec![10, 20, 30], vec![10]];
    let steps = lockstep(&series);
    assert_eq!(steps.len(), 3);
    assert_eq!(steps[2].folds, [Fold { symbol: 0, bar: 2 }]);
}

#[test]
fn an_unsorted_series_waits_at_the_bar_it_cannot_reach() {
    // The bar at 1 comes after the bar at 5, and the walk has passed 1 by then.
    let steps = lockstep(&vec![vec![5, 1, 7]]);
    let folds: Vec<usize> = steps.iter().flat_map(|s| s.folds.iter()).map(|f| f.bar).collect();
    assert_eq!(folds, [0]);
}

#[test]
fn lockstep_folds_each_symbols_bars_once_and_in_order() {
    let series = vec![vec![1, 3, 5, 9], vec![2, 3, 4], vec![], vec![9, 10]];
    let steps = lockstep(&series);
    for (s, bars) in series.iter().enumerate() {
        let folded: Vec<usize> = steps
            .iter()
            .flat_map(|step| step.folds.iter())
            .filter(|f| f.symbol == s)
            .map(|f| f.bar)
            .collect();
        assert_eq!(folded, (0..bars.len()).collect::<Vec<usize>>(), "symbol {s}");
    }
}
