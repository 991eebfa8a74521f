//! The point-and-figure buy signal read off completed columns.

use wickra_backtest_core::Candle;
use wickra_core::{BarBuilder, PointAndFigureBars};
use wickra_screener_core::num::Num;
use wickra_screener_core::signal::{BuySignal, Column};

fn n(v: f64) -> Num {
    Num { bits: v.to_bits() }
}

fn xs(high: f64, low: f64) -> Column {
    Column {
        direction: 1,
        high: n(high),
        low: n(low),
    }
}

fn os(high: f64, low: f64) -> Column {
    Column {
        direction: -1,
        high: n(high),
        low: n(low),
    }
}

#[test]
fn a_breakout_above_the_last_xs_turns_the_signal_on() {
    let mut s = BuySignal::new();
    assert!(!s.update(&vec![], n(10.0)));
    // A column of Xs topping at 12 completes; a close at 12 is no breakout.
    assert!(!s.update(&vec![xs(12.0, 10.0)], n(12.0)));
    assert!(s.update(&vec![], n(12.5)));
    // It stays on until a breakdown below the last column of Os.
    assert!(s.update(&vec![os(12.0, 9.0)], n(10.0)));
    assert!(!s.update(&vec![], n(8.5)));
    assert_eq!(s.last_x_high, Some(n(12.0)));
    assert_eq!(s.last_o_low, Some(n(9.0)));
}

#[test]
fn a_signal_without_columns_never_turns_on() {
    let mut s = BuySignal::new();
    for close in [10.0, 11.0, 12.0, 13.0, 14.0] {
        assert!(!s.update(&vec![], n(close)));
    }
    assert_eq!(s, BuySignal::new());
}

#[test]
fn a_bar_clearing_both_references_reads_bearish() {
    let mut s = BuySignal::new();
    // The last Xs top at 5 and the last Os bottom at 8: a close at 6 is above
    // the top and below the bottom at once.
    assert!(!s.update(&vec![xs(5.0, 3.0), os(9.0, 8.0)], n(6.0)));
    // Later columns replace earlier ones of their direction.
    assert!(s.update(&vec![os(7.0, 4.0), xs(5.5, 4.0)], n(6.0)));
    assert_eq!(s.last_x_high, Some(n(5.5)));
    assert_eq!(s.last_o_low, Some(n(4.0)));
}

/// The signal along a price path, the columns built by the point-and-figure
/// builder with a box that is `pnf_box` of the first close.
fn buy_signals(path: &[f64], pnf_box: f64, reversal: usize) -> Vec<bool> {
    let mut columns: Option<PointAndFigureBars> = None;
    let mut signal = BuySignal::new();
    path.iter()
        .enumerate()
        .map(|(i, close)| {
            let candle = Candle {
                time: i64::try_from(i).unwrap(),
                open: *close,
                high: close + 1.0,
                low: close - 1.0,
                close: *close,
                volume: 100.0,
            };
            let builder = columns.get_or_insert_with(|| {
                PointAndFigureBars::new(close.abs() * pnf_box, reversal).unwrap()
            });
            match candle.to_core() {
                Ok(core) => {
                    let completed: Vec<Column> = builder
                        .update(core)
                        .into_iter()
                        .map(|c| Column {
                            direction: c.direction,
                            high: n(c.high),
                            low: n(c.low),
                        })
                        .collect();
                    signal.update(&completed, n(*close))
                }
                Err(_) => signal.on,
            }
        })
        .collect()
}

#[test]
fn the_buy_signal_follows_the_point_and_figure_columns() {
    let mut path: Vec<f64> = Vec::new();
    let mut push = |from: i32, to: i32| {
        let step = if to >= from { 1 } else { -1 };
        let mut price = from;
        while price != to {
            path.push(f64::from(price));
            price += step;
        }
        path.push(f64::from(to));
    };
    push(100, 120); // first leg up
    push(120, 104); // reversal down: completes the X column at 120
    push(104, 126); // break above 120: the buy signal starts here
    push(126, 95); // completes an O column and breaks below 104

    // A one-point box on a hundred-point price, three boxes to reverse.
    let signals = buy_signals(&path, 0.01, 3);

    assert!(!signals[0]);
    assert!(
        signals.iter().any(|on| *on),
        "a double-top breakout must turn the signal on"
    );
    assert!(
        !signals[signals.len() - 1],
        "a break below the previous column of Os must take it away"
    );
    let first_on = signals.iter().position(|on| *on).unwrap();
    assert!(
        path[first_on] > 120.0,
        "turned on at {} before clearing the previous column top",
        path[first_on]
    );
}

#[test]
fn a_path_that_never_reverses_gives_no_signal() {
    let path: Vec<f64> = (0..60).map(|i| 100.0 + f64::from(i)).collect();
    assert!(buy_signals(&path, 0.01, 3).iter().all(|on| !*on));
}
