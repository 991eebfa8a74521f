//! Which symbols are scanned, missing or stale; match order and limits; the
//! cross-section rank.

use wickra_screener_core::expr::{Expr, Literal, PriceField};
use wickra_screener_core::num::Num;
use wickra_screener_core::rank::{cross_section_below, cross_section_ranks, order_matches};
use wickra_screener_core::scan::{in_universe, metric_key, metric_value_key, needs_lockstep, stale_symbols};
use wickra_screener_core::spec::{Comparator, Condition, CsMetric, ScanSpec};

fn num(v: f64) -> Num {
    Num { bits: v.to_bits() }
}

fn strings(v: &[&str]) -> Vec<String> {
    v.iter().map(|s| (*s).to_string()).collect()
}

fn close() -> Expr {
    Expr::Price {
        field: PriceField::Close,
    }
}

fn spec(universe: &[&str], condition: Condition) -> ScanSpec {
    ScanSpec {
        universe: strings(universe),
        timeframe: None,
        reference: None,
        breadth: None,
        condition,
        rank: None,
        limit: None,
    }
}

fn gt(v: f64) -> Condition {
    Condition::Cmp {
        left: close(),
        op: Comparator::Gt,
        right: Expr::Const {
            value: Literal::new(num(v).bits, format!("{v}")),
        },
    }
}

fn order(symbols: &[&str], scores: &[Option<f64>], rank: Option<bool>, limit: Option<usize>) -> Vec<String> {
    let syms = strings(symbols);
    let scores: Vec<Option<Num>> = scores.iter().map(|s| s.map(num)).collect();
    order_matches(&syms, &scores, rank, limit)
        .into_iter()
        .map(|i| syms[i].clone())
        .collect()
}

#[test]
fn ranks_descending_and_limits() {
    // B (20) and C (30) match; ranked by close descending, limit 2.
    assert_eq!(order(&["B", "C"], &[Some(20.0), Some(30.0)], Some(true), Some(2)), ["C", "B"]);
    assert_eq!(order(&["B", "C"], &[Some(20.0), Some(30.0)], Some(true), Some(1)), ["C"]);
}

#[test]
fn without_rank_sorts_by_symbol_and_omits_score() {
    assert_eq!(order(&["B", "C"], &[None, None], None, None), ["B", "C"]);
}

#[test]
fn score_ties_break_by_symbol() {
    assert_eq!(
        order(&["A", "B", "C"], &[Some(20.0), Some(20.0), Some(30.0)], Some(true), None),
        ["C", "A", "B"]
    );
}

#[test]
fn ascending_rank_puts_unscored_matches_last() {
    assert_eq!(
        order(
            &["A", "B", "C", "D"],
            &[None, Some(-1.0), Some(f64::NEG_INFINITY), Some(0.0)],
            Some(false),
            None
        ),
        ["C", "B", "D", "A"]
    );
    // The two zeros are the same score, so the symbol decides.
    assert_eq!(
        order(&["A", "B"], &[Some(0.0), Some(-0.0)], Some(true), None),
        ["A", "B"]
    );
    assert_eq!(order(&["A", "B"], &[Some(1.0), None], Some(true), Some(0)).len(), 0);
}

#[test]
fn rank_is_highest_first() {
    let values = vec![Some(num(10.0)), Some(num(20.0)), Some(num(30.0))];
    assert_eq!(cross_section_ranks(&values), [Some(3), Some(2), Some(1)]);
}

#[test]
fn cross_section_top_one() {
    // C, with the highest close, is the only member with rank <= 1.
    let ranks = cross_section_ranks(&vec![Some(num(10.0)), Some(num(20.0)), Some(num(30.0))]);
    let top: Vec<usize> = (0..3).filter(|i| ranks[*i].is_some_and(|r| r <= 1)).collect();
    assert_eq!(top, [2]);
}

#[test]
fn percentile_rank_in_unit_interval() {
    let values = vec![Some(num(10.0)), Some(num(20.0)), Some(num(30.0))];
    let below = cross_section_below(&values);
    assert_eq!(below, [Some(0), Some(1), Some(2)]);
    // Divided by n - 1 = 2 this is 0, 0.5 and 1.
}

#[test]
fn a_cross_section_leaves_out_what_has_no_finite_value() {
    let values = vec![
        Some(num(5.0)),
        None,
        Some(num(f64::NAN)),
        Some(num(5.0)),
        Some(num(f64::INFINITY)),
        Some(num(7.0)),
    ];
    // Ties go to the earlier symbol.
    assert_eq!(cross_section_ranks(&values), [Some(2), None, None, Some(3), None, Some(1)]);
    assert_eq!(cross_section_below(&values), [Some(0), None, None, Some(0), None, Some(2)]);
}

#[test]
fn cross_section_value_is_keyed_with_metric() {
    assert_eq!(metric_value_key(&close(), CsMetric::Rank), "price.close#rank");
    assert_eq!(metric_key(CsMetric::PercentileRank), "percentile_rank");
    assert_eq!(metric_key(CsMetric::ZScore), "z_score");
}

#[test]
fn a_symbol_that_stopped_printing_is_named_stale() {
    let last = 1_700_000_000_i64;
    let series = vec![
        (0..40).map(|i| last - (39 - i) * 3_600).collect::<Vec<i64>>(),
        (0..40).map(|i| last - (39 - i) * 3_600).collect(),
        (0..40).map(|i| last - 10 * 3_600 - (39 - i) * 3_600).collect(),
    ];
    assert_eq!(stale_symbols(&strings(&["AAA", "BBB", "CCC"]), &series), ["CCC"]);
}

#[test]
fn an_aligned_universe_has_nothing_stale() {
    let series = vec![vec![1, 2, 3], vec![1, 2, 3], vec![2, 3]];
    assert!(stale_symbols(&strings(&["AAA", "BBB", "CCC"]), &series).is_empty());
    // A symbol with no bars at all is not stale, just empty.
    assert!(stale_symbols(&strings(&["AAA", "BBB"]), &vec![vec![], vec![5]]).is_empty());
    assert!(stale_symbols(&vec![], &vec![]).is_empty());
}

#[test]
fn a_symbol_outside_the_universe_is_not_scanned() {
    let s = spec(&["AAA", "BBB"], gt(0.0));
    assert_eq!(in_universe(&s, &strings(&["AAA", "BBB", "ZZZ"])), [0, 1]);
    assert_eq!(in_universe(&s, &strings(&["ZZZ", "BBB"])), [1]);
}

#[test]
fn lockstep_is_needed_for_a_benchmark_or_a_derived_panel() {
    let mut s = spec(&["AAA"], gt(0.0));
    assert!(!needs_lockstep(&s, &vec![false]));
    s.reference = Some("AAA".to_string());
    assert!(needs_lockstep(&s, &vec![true]));
    let breadth = spec(
        &["AAA", "BBB"],
        Condition::Cmp {
            left: Expr::Indicator {
                name: "AdvanceDecline".to_string(),
                params: vec![],
                field: None,
            },
            op: Comparator::Gt,
            right: close(),
        },
    );
    assert!(needs_lockstep(&breadth, &vec![true, false]));
    assert!(!needs_lockstep(&breadth, &vec![true, true]));
}

#[test]
fn a_zero_bar_pull_is_refused() {
    let err = wickra_screener_core::scan::check_live_bars(0).unwrap_err();
    assert!(err.message().contains("greater than 0"), "{}", err.message());
    assert!(wickra_screener_core::scan::check_live_bars(100).is_ok());
}

#[test]
fn the_ranks_of_a_cross_section_are_one_to_n() {
    let values = vec![
        Some(num(3.0)),
        Some(num(-0.0)),
        None,
        Some(num(3.0)),
        Some(num(0.0)),
        Some(num(-2.5)),
        Some(num(1e300)),
    ];
    let mut ranks: Vec<usize> = cross_section_ranks(&values).into_iter().flatten().collect();
    ranks.sort_unstable();
    assert_eq!(ranks, [1, 2, 3, 4, 5, 6]);
    // The two zeros are the same value, so neither lies below the other.
    let below = cross_section_below(&values);
    assert_eq!(below[1], Some(1));
    assert_eq!(below[4], Some(1));
    assert!(below.iter().flatten().all(|c| *c <= 5));
}

#[test]
fn a_limit_cuts_the_unlimited_order() {
    let symbols = strings(&["A", "B", "C", "D", "E", "F"]);
    let scores = vec![
        Some(num(1.0)),
        None,
        Some(num(5.0)),
        Some(num(1.0)),
        Some(num(-2.0)),
        None,
    ];
    for rank in [Some(true), Some(false), None] {
        let full = order_matches(&symbols, &scores, rank, None);
        assert_eq!(full.len(), 6);
        for limit in 0..8 {
            let cut = order_matches(&symbols, &scores, rank, Some(limit));
            assert_eq!(cut, full[..limit.min(6)], "rank {rank:?}, limit {limit}");
        }
    }
    assert_eq!(
        order_matches(&symbols, &scores, Some(true), None),
        [2, 0, 3, 4, 1, 5]
    );
}
