//! The values a report shows to explain a match.

use wickra_screener_core::explain::{push_explained, Reading, Shown};
use wickra_screener_core::expr::{Expr, Literal, PriceField};
use wickra_screener_core::num::Num;
use wickra_screener_core::spec::{Comparator, Condition, CsMetric};

fn close() -> Expr {
    Expr::Price {
        field: PriceField::Close,
    }
}

fn constant(v: f64) -> Expr {
    Expr::Const {
        value: Literal::new(v.to_bits(), format!("{v}")),
    }
}

fn shown(cond: &Condition) -> Vec<(String, Option<u32>)> {
    let mut out: Vec<Shown> = Vec::new();
    push_explained(cond, &mut out);
    out.into_iter()
        .map(|s| {
            let back = match s.reading {
                Reading::Value { back, .. } => Some(back),
                Reading::Metric { .. } => None,
            };
            (s.key, back)
        })
        .collect()
}

#[test]
fn a_compound_expression_is_shown_under_its_own_key() {
    let gap = Expr::Sub {
        left: Box::new(close()),
        right: Box::new(constant(5.0)),
    };
    let cond = Condition::Cmp {
        left: gap,
        op: Comparator::Gt,
        right: constant(0.0),
    };
    // The nested close is not repeated, and the constant is left out.
    assert_eq!(
        shown(&cond),
        [("sub(price.close,const(5))".to_string(), Some(0))]
    );
}

#[test]
fn a_trend_names_the_bar_it_compared_against() {
    let cond = Condition::Rising {
        expr: close(),
        bars: 2,
    };
    assert_eq!(
        shown(&cond),
        [
            ("price.close".to_string(), Some(0)),
            ("prev(price.close,2)".to_string(), Some(2)),
        ]
    );
}

#[test]
fn a_cross_section_shows_its_metric_and_combinators_show_every_branch() {
    let cond = Condition::All {
        conditions: vec![
            Condition::CrossSection {
                expr: close(),
                metric: CsMetric::PercentileRank,
                op: Comparator::Ge,
                value: Num {
                    bits: 0.5f64.to_bits(),
                },
            },
            Condition::Not {
                condition: Box::new(Condition::Between {
                    value: close(),
                    low: constant(1.0),
                    high: Expr::Prev {
                        of: Box::new(close()),
                        bars: 3,
                    },
                }),
            },
            Condition::Falling {
                expr: constant(7.0),
                bars: 1,
            },
        ],
    };
    assert_eq!(
        shown(&cond),
        [
            ("price.close".to_string(), Some(0)),
            ("price.close#percentile_rank".to_string(), None),
            ("price.close".to_string(), Some(0)),
            ("prev(price.close,3)".to_string(), Some(0)),
        ]
    );
}
