//! Expression keys, nesting and lookback.

use wickra_screener_core::expr::{base_key, Expr, Literal, Plan, PriceField, Read};
use wickra_screener_core::num::Num;

fn lit(v: f64, text: &str) -> Literal {
    Literal::new(v.to_bits(), text.to_string())
}

fn num(v: f64) -> Literal {
    lit(v, &format!("{v}"))
}

fn close() -> Expr {
    Expr::Price {
        field: PriceField::Close,
    }
}

fn constant(v: f64) -> Expr {
    Expr::Const { value: num(v) }
}

fn sma(period: f64) -> Expr {
    Expr::Indicator {
        name: "Sma".into(),
        params: vec![num(period)],
        field: None,
    }
}

fn bx(e: Expr) -> Box<Expr> {
    Box::new(e)
}

#[test]
fn key_formats() {
    assert_eq!(constant(30.0).key(), "const(30)");
    assert_eq!(constant(1.5).key(), "const(1.5)");
    assert_eq!(close().key(), "price.close");
    assert_eq!(
        Expr::Price {
            field: PriceField::Hlc3
        }
        .key(),
        "price.hlc3"
    );
    assert_eq!(
        Expr::Indicator {
            name: "rsi".into(),
            params: vec![num(14.0)],
            field: None,
        }
        .key(),
        "rsi(14)"
    );
    assert_eq!(
        Expr::Indicator {
            name: "macd".into(),
            params: vec![num(12.0), num(26.0), num(9.0)],
            field: Some("hist".into()),
        }
        .key(),
        "macd(12,26,9).hist"
    );
}

#[test]
fn expr_key_snapshots() {
    assert_eq!(constant(30.0).key(), "const(30)");
    assert_eq!(constant(1.5).key(), "const(1.5)");
    assert_eq!(close().key(), "price.close");
    assert_eq!(
        Expr::Indicator {
            name: "Rsi".into(),
            params: vec![num(14.0)],
            field: None,
        }
        .key(),
        "Rsi(14)"
    );
    assert_eq!(
        Expr::Indicator {
            name: "Macd".into(),
            params: vec![num(12.0), num(26.0), num(9.0)],
            field: Some("hist".into()),
        }
        .key(),
        "Macd(12,26,9).hist"
    );
}

#[test]
fn compound_keys_nest() {
    let gap = Expr::Sub {
        left: bx(close()),
        right: bx(sma(20.0)),
    };
    assert_eq!(gap.key(), "sub(price.close,Sma(20))");
    let back = Expr::Prev { of: bx(gap), bars: 5 };
    assert_eq!(back.key(), "prev(sub(price.close,Sma(20)),5)");
    assert_eq!(
        Expr::Div {
            left: bx(close()),
            right: bx(constant(2.0)),
        }
        .key(),
        "div(price.close,const(2))"
    );
    assert_eq!(
        Expr::Mul {
            left: bx(close()),
            right: bx(Expr::Add {
                left: bx(constant(1.0)),
                right: bx(constant(2.0)),
            }),
        }
        .key(),
        "mul(price.close,add(const(1),const(2)))"
    );
}

#[test]
fn visit_reaches_every_nested_expression() {
    let expr = Expr::Add {
        left: bx(Expr::Prev {
            of: bx(sma(20.0)),
            bars: 3,
        }),
        right: bx(Expr::Mul {
            left: bx(close()),
            right: bx(constant(2.0)),
        }),
    };
    let keys: Vec<String> = expr.visit().iter().map(|e| e.key()).collect();
    assert!(keys.contains(&"Sma(20)".to_string()));
    assert!(keys.contains(&"price.close".to_string()));
    assert!(keys.contains(&"const(2)".to_string()));
    assert_eq!(keys.len(), 6, "self plus five descendants: {keys:?}");
    // Parents come before their children, left before right.
    assert_eq!(keys[0], expr.key());
    assert_eq!(keys[2], "Sma(20)");
    assert_eq!(keys[3], "mul(price.close,const(2))");
}

#[test]
fn lookback_is_the_deepest_reach() {
    assert_eq!(close().lookback(), 0);
    assert_eq!(Expr::Prev { of: bx(close()), bars: 7 }.lookback(), 7);
    // Nested lookbacks add: three bars before the value five bars ago.
    assert_eq!(
        Expr::Prev {
            of: bx(Expr::Prev { of: bx(close()), bars: 5 }),
            bars: 3,
        }
        .lookback(),
        8
    );
    // A binary form reaches as far as its deeper side.
    assert_eq!(
        Expr::Sub {
            left: bx(Expr::Prev { of: bx(close()), bars: 4 }),
            right: bx(close()),
        }
        .lookback(),
        4
    );
}

#[test]
fn price_field_names() {
    let all = [
        (PriceField::Open, "open"),
        (PriceField::High, "high"),
        (PriceField::Low, "low"),
        (PriceField::Close, "close"),
        (PriceField::Volume, "volume"),
        (PriceField::Hlc3, "hlc3"),
        (PriceField::Ohlc4, "ohlc4"),
    ];
    for (field, name) in all {
        assert_eq!(field.as_str(), name);
    }
}

#[test]
fn an_indicator_base_key_drops_the_field() {
    assert_eq!(base_key("Macd", &vec![num(12.0), num(26.0)]), "Macd(12,26)");
    assert_eq!(base_key("Obv", &vec![]), "Obv()");
}

#[test]
fn a_whole_literal_is_keyed_as_an_integer() {
    let thirty = Literal::whole(30.0f64.to_bits()).unwrap();
    assert_eq!(thirty.text(), "30");
    assert_eq!(thirty.value().bits, 30.0f64.to_bits());
    assert_eq!(Expr::Const { value: thirty }.key(), "const(30)");
    let negative = Literal::whole((-2.0f64).to_bits()).unwrap();
    assert_eq!(Expr::Const { value: negative }.key(), "const(-2)");
    assert!(Literal::whole(0.5f64.to_bits()).is_none());
    assert!(Literal::whole(f64::NAN.to_bits()).is_none());
}

#[test]
fn a_whole_value_is_shown_as_its_integer_whatever_text_it_was_given() {
    let forty = Literal::new(40.0f64.to_bits(), "40.000".to_string());
    assert_eq!(forty.text(), "40");
    assert_eq!(Expr::Const { value: forty }.key(), "const(40)");
    let half = Literal::new(0.5f64.to_bits(), "0.5".to_string());
    assert_eq!(half.text(), "0.5");
    assert_eq!(half.value().bits, 0.5f64.to_bits());
}

#[test]
fn a_plan_moves_reads_back_by_each_look_back() {
    // sub(prev(prev(close, 2), 3), sma(14)) read one bar ago
    let e = Expr::Sub {
        left: bx(Expr::Prev {
            of: bx(Expr::Prev {
                of: bx(close()),
                bars: 2,
            }),
            bars: 3,
        }),
        right: bx(sma(14.0)),
    };
    match e.plan_at(1) {
        Plan::Sub(l, r) => {
            assert!(matches!(
                *l,
                Plan::Read(Read::Field {
                    field: PriceField::Close,
                    back: 6
                })
            ));
            match *r {
                Plan::Read(Read::Output { key, back }) => {
                    assert_eq!(key, "Sma(14)");
                    assert_eq!(back, 1);
                }
                other => panic!("unexpected plan {other:?}"),
            }
        }
        other => panic!("unexpected plan {other:?}"),
    }
    let c = constant(2.5);
    assert!(matches!(
        c.plan_at(9),
        Plan::Read(Read::Const { value }) if value == Num { bits: 2.5f64.to_bits() }
    ));
    let far = Expr::Prev {
        of: bx(close()),
        bars: 10,
    };
    assert!(matches!(
        far.plan_at(usize::MAX - 3),
        Plan::Read(Read::Field { back, .. }) if back == usize::MAX
    ));
}
