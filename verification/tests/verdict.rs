//! A condition tree's verdict from its leaves' outcomes.

use wickra_screener_core::expr::{Expr, Literal, PriceField};
use wickra_screener_core::num::Num;
use wickra_screener_core::spec::{Comparator, Condition};
use wickra_screener_core::compare::compare_ordered;
use wickra_screener_core::verdict::{breadth_counts, holds, push_leaves};

fn leaf(v: f64) -> Condition {
    Condition::Cmp {
        left: Expr::Price {
            field: PriceField::Close,
        },
        op: Comparator::Gt,
        right: Expr::Const {
            value: Literal::new(v.to_bits(), format!("{v}")),
        },
    }
}

#[test]
fn all_any_not_combine_the_leaves_in_order() {
    // all(a, any(b, not(c)), d)
    let tree = Condition::All {
        conditions: vec![
            leaf(1.0),
            Condition::Any {
                conditions: vec![
                    leaf(2.0),
                    Condition::Not {
                        condition: Box::new(leaf(3.0)),
                    },
                ],
            },
            leaf(4.0),
        ],
    };
    let mut leaves = Vec::new();
    push_leaves(&tree, &mut leaves);
    assert_eq!(leaves.len(), 4);
    let t = Some(true);
    let f = Some(false);
    assert!(holds(&tree, &vec![t, f, f, t]));
    assert!(holds(&tree, &vec![t, t, t, t]));
    assert!(!holds(&tree, &vec![t, f, t, t]));
    assert!(!holds(&tree, &vec![f, t, t, t]));
    // A missing value makes its leaf false, and under `not` that is true.
    assert!(!holds(&tree, &vec![None, t, t, t]));
    assert!(holds(&tree, &vec![t, f, None, t]));
}

#[test]
fn empty_combinators_and_a_single_leaf() {
    let all = Condition::All { conditions: vec![] };
    let any = Condition::Any { conditions: vec![] };
    assert!(holds(&all, &vec![]));
    assert!(!holds(&any, &vec![]));
    assert!(holds(&leaf(0.0), &vec![Some(true)]));
    assert!(!holds(&leaf(0.0), &vec![None]));
}

#[test]
fn breadth_counts_ready_symbols_and_hits() {
    // Two of three ready symbols pass; a symbol still warming up is left out.
    let outcomes = vec![Some(true), None, Some(false), Some(true)];
    assert_eq!(breadth_counts(&outcomes), (3, 2));
    assert_eq!(breadth_counts(&vec![]), (0, 0));
}

fn close_against(op: Comparator, v: f64) -> Condition {
    Condition::Cmp {
        left: Expr::Price {
            field: PriceField::Close,
        },
        op,
        right: Expr::Const {
            value: Literal::new(v.to_bits(), format!("{v}")),
        },
    }
}

/// The outcome of each leaf of `cond`, in order, on a bar closing at `close`.
fn outcomes(cond: &Condition, close: f64) -> Vec<Option<bool>> {
    let mut leaves = Vec::new();
    push_leaves(cond, &mut leaves);
    leaves
        .iter()
        .map(|leaf| match leaf {
            Condition::Cmp {
                op,
                right: Expr::Const { value },
                ..
            } => compare_ordered(Num { bits: close.to_bits() }, *op, value.value()),
            _ => None,
        })
        .collect()
}

#[test]
fn all_any_not_combine() {
    let gt15 = || close_against(Comparator::Gt, 15.0);
    let lt25 = || close_against(Comparator::Lt, 25.0);
    let all = Condition::All {
        conditions: vec![gt15(), lt25()],
    };
    assert!(!holds(&all, &outcomes(&all, 10.0))); // 10: fails gt15
    assert!(holds(&all, &outcomes(&all, 20.0))); // 20: passes both
    assert!(!holds(&all, &outcomes(&all, 30.0))); // 30: fails lt25

    let not = Condition::Not {
        condition: Box::new(gt15()),
    };
    assert!(holds(&not, &outcomes(&not, 10.0)));
    assert!(!holds(&not, &outcomes(&not, 20.0)));
}
