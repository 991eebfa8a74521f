//! The indicators a spec needs resolved.

use wickra_screener_core::expr::{Expr, Literal, PriceField};
use wickra_screener_core::num::Num;
use wickra_screener_core::spec::{Comparator, Condition, RankSpec, ScanSpec};

fn lit(v: f64) -> Literal {
    Literal::new(v.to_bits(), format!("{v}"))
}

fn indicator(name: &str, params: &[f64], field: Option<&str>) -> Expr {
    Expr::Indicator {
        name: name.to_string(),
        params: params.iter().map(|p| lit(*p)).collect(),
        field: field.map(str::to_string),
    }
}

fn cmp(left: Expr, right: Expr) -> Condition {
    Condition::Cmp {
        left,
        op: Comparator::Gt,
        right,
    }
}

#[test]
fn each_indicator_is_resolved_once_whatever_fields_are_read() {
    let spec = ScanSpec {
        universe: vec!["A".into()],
        timeframe: None,
        reference: None,
        breadth: None,
        condition: Condition::All {
            conditions: vec![
                cmp(
                    indicator("Macd", &[12.0, 26.0, 9.0], Some("signal")),
                    indicator("Macd", &[12.0, 26.0, 9.0], Some("hist")),
                ),
                cmp(
                    indicator("Sma", &[20.0], None),
                    Expr::Price {
                        field: PriceField::Close,
                    },
                ),
                cmp(
                    Expr::Sub {
                        left: Box::new(indicator("Sma", &[20.0], None)),
                        right: Box::new(indicator("Sma", &[50.0], None)),
                    },
                    Expr::Const { value: lit(0.0) },
                ),
            ],
        },
        rank: Some(RankSpec {
            by: indicator("Rsi", &[14.0], None),
            desc: true,
        }),
        limit: None,
    };
    let keys: Vec<String> = spec.indicators().into_iter().map(|(k, _)| k).collect();
    assert_eq!(keys, ["Macd(12,26,9)", "Sma(20)", "Sma(50)", "Rsi(14)"]);
    let (_, first) = &spec.indicators()[0];
    assert!(matches!(first, Expr::Indicator { field: Some(f), .. } if f == "signal"));
}

#[test]
fn a_spec_without_indicators_resolves_none() {
    let spec = ScanSpec {
        universe: vec!["A".into()],
        timeframe: None,
        reference: None,
        breadth: None,
        condition: cmp(
            Expr::Price {
                field: PriceField::Close,
            },
            Expr::Const { value: lit(1.0) },
        ),
        rank: None,
        limit: None,
    };
    assert!(spec.indicators().is_empty());
}
