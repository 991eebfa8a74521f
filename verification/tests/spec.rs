//! Spec validation, the feeds a spec needs, and the universe's missing symbols.

use wickra_screener_core::error::Error;
use wickra_screener_core::expr::{Expr, Literal, PriceField};
use wickra_screener_core::feeds::{Available, FeedKind};
use wickra_screener_core::num::Num;
use wickra_screener_core::spec::{BreadthSpec, Comparator, Condition, RankSpec, ScanSpec};

fn num(v: f64) -> Num {
    Num { bits: v.to_bits() }
}

fn lit(v: f64) -> Literal {
    Literal::new(num(v).bits, format!("{v}"))
}

fn close() -> Expr {
    Expr::Price {
        field: PriceField::Close,
    }
}

fn indicator(name: &str, params: &[f64]) -> Expr {
    Expr::Indicator {
        name: name.to_string(),
        params: params.iter().map(|p| lit(*p)).collect(),
        field: None,
    }
}

fn cmp() -> Condition {
    Condition::Cmp {
        left: close(),
        op: Comparator::Gt,
        right: Expr::Const { value: lit(0.0) },
    }
}

fn always(expr: Expr) -> Condition {
    Condition::Cmp {
        left: expr,
        op: Comparator::Gt,
        right: Expr::Const { value: lit(f64::MIN) },
    }
}

fn spec_with(universe: &[&str], condition: Condition) -> ScanSpec {
    ScanSpec {
        universe: universe.iter().map(|s| (*s).to_string()).collect(),
        timeframe: None,
        reference: None,
        breadth: None,
        condition,
        rank: None,
        limit: None,
    }
}

fn bad_spec(r: Result<(), Error>) -> String {
    match r {
        Err(Error::BadSpec(m)) => m,
        other => panic!("expected BadSpec, got {other:?}"),
    }
}

#[test]
fn empty_universe_rejected() {
    let spec = spec_with(&[], cmp());
    assert!(matches!(spec.validate(), Err(Error::BadSpec(_))));
}

#[test]
fn zero_limit_rejected() {
    let mut spec = spec_with(&["AAA"], cmp());
    spec.limit = Some(0);
    assert!(matches!(spec.validate(), Err(Error::BadSpec(_))));
}

#[test]
fn breadth_in_breadth_rejected() {
    let nested = Condition::Breadth {
        inner: Box::new(Condition::Breadth {
            inner: Box::new(cmp()),
            op: Comparator::Ge,
            ratio: num(0.5),
        }),
        op: Comparator::Ge,
        ratio: num(0.5),
    };
    let spec = spec_with(&["AAA"], nested);
    assert!(matches!(spec.validate(), Err(Error::BadSpec(_))));
}

#[test]
fn top_level_breadth_allowed() {
    let breadth = Condition::Breadth {
        inner: Box::new(cmp()),
        op: Comparator::Ge,
        ratio: num(0.5),
    };
    let spec = spec_with(&["AAA"], breadth);
    assert!(spec.validate().is_ok());
}

#[test]
fn a_breadth_hidden_under_combinators_is_still_found() {
    let inner = Condition::Not {
        condition: Box::new(Condition::Any {
            conditions: vec![
                cmp(),
                Condition::Breadth {
                    inner: Box::new(cmp()),
                    op: Comparator::Gt,
                    ratio: num(0.1),
                },
            ],
        }),
    };
    let spec = spec_with(
        &["AAA"],
        Condition::All {
            conditions: vec![
                cmp(),
                Condition::Breadth {
                    inner: Box::new(inner),
                    op: Comparator::Gt,
                    ratio: num(0.5),
                },
            ],
        },
    );
    assert_eq!(
        bad_spec(spec.validate()),
        "breadth condition nested inside another breadth"
    );
}

#[test]
fn a_zero_bar_lookback_is_refused() {
    let err = spec_with(&["AAA"], Condition::Rising { expr: close(), bars: 0 })
        .validate()
        .expect_err("rising over the bar it stands on can never hold");
    assert!(err.message().contains("at least 1 bar"), "{}", err.message());

    let err = spec_with(&["AAA"], Condition::Falling { expr: close(), bars: 0 })
        .validate()
        .expect_err("same for falling");
    assert!(err.message().contains("at least 1 bar"), "{}", err.message());
}

#[test]
fn a_reference_outside_the_universe_is_refused() {
    let mut spec = spec_with(&["AAA", "BBB", "CCC"], always(close()));
    spec.reference = Some("NOPE".to_string());
    let err = spec
        .validate()
        .expect_err("a benchmark has to be a symbol the scan folds");
    assert!(err.message().contains("NOPE"), "{}", err.message());
    spec.reference = Some("BBB".to_string());
    assert!(spec.validate().is_ok());
}

#[test]
fn the_breadth_configuration_is_validated() {
    let mut spec = spec_with(&["AAA", "BBB", "CCC"], always(close()));
    spec.breadth = Some(BreadthSpec {
        period: Some(0),
        ma_period: None,
        pnf_box: None,
        pnf_reversal: None,
    });
    assert!(spec.validate().is_err());

    spec.breadth = Some(BreadthSpec {
        period: Some(20),
        ma_period: Some(50),
        pnf_box: None,
        pnf_reversal: None,
    });
    assert!(spec.validate().is_ok());
}

fn breadth(
    period: Option<usize>,
    ma_period: Option<usize>,
    pnf_box: Option<f64>,
    pnf_reversal: Option<usize>,
) -> BreadthSpec {
    BreadthSpec {
        period,
        ma_period,
        pnf_box: pnf_box.map(num),
        pnf_reversal,
    }
}

#[test]
fn a_zero_period_is_refused() {
    assert!(breadth(Some(0), None, None, None).validate().is_err());
    assert!(breadth(None, Some(0), None, None).validate().is_err());
    assert!(breadth(None, None, None, None).validate().is_ok());
}

#[test]
fn a_nonsensical_point_and_figure_configuration_is_refused() {
    assert!(breadth(None, None, Some(0.0), None).validate().is_err());
    assert!(breadth(None, None, Some(f64::NAN), None).validate().is_err());
    assert!(breadth(None, None, None, Some(0)).validate().is_err());
}

#[test]
fn a_point_and_figure_box_must_be_a_positive_finite_fraction() {
    for bad in [-0.01, -0.0, f64::INFINITY, f64::NEG_INFINITY] {
        assert_eq!(
            bad_spec(breadth(None, None, Some(bad), None).validate()),
            "breadth pnf_box must be a positive fraction of price"
        );
    }
    for good in [0.01, 1e-300, 5e-324, 3.0] {
        assert!(breadth(None, None, Some(good), None).validate().is_ok());
    }
}

#[test]
fn validation_reports_the_first_problem() {
    let mut spec = spec_with(&[], Condition::Rising { expr: close(), bars: 0 });
    spec.limit = Some(0);
    assert_eq!(bad_spec(spec.validate()), "universe is empty");
    spec.universe = vec!["AAA".to_string()];
    assert_eq!(bad_spec(spec.validate()), "limit must be greater than 0");
    spec.limit = None;
    assert_eq!(bad_spec(spec.validate()), "rising must look back at least 1 bar");
    spec.reference = Some("ZZZ".to_string());
    assert_eq!(
        bad_spec(spec.validate()),
        "reference symbol ZZZ is not in the universe"
    );
}

#[test]
fn missing_keeps_universe_order_and_drops_repeats() {
    let spec = spec_with(&["ZZZ", "AAA", "BBB", "ZZZ"], always(close()));
    let missing = spec.missing_from(&vec!["AAA".to_string()]);
    assert_eq!(missing, ["ZZZ", "BBB"]);
}

#[test]
fn a_universe_symbol_with_no_data_is_reported_missing() {
    let spec = spec_with(&["AAA", "BBB", "CCC"], always(close()));
    let missing = spec.missing_from(&vec!["AAA".to_string()]);
    assert_eq!(missing, ["BBB", "CCC"]);
    assert!(spec
        .missing_from(&vec!["CCC".into(), "AAA".into(), "BBB".into()])
        .is_empty());
}

#[test]
fn the_spec_lists_every_expression_it_references() {
    let gap = Expr::Sub {
        left: Box::new(close()),
        right: Box::new(indicator("Sma", &[20.0])),
    };
    let mut spec = spec_with(
        &["AAA"],
        Condition::All {
            conditions: vec![
                always(gap),
                Condition::Rising {
                    expr: indicator("Rsi", &[14.0]),
                    bars: 2,
                },
            ],
        },
    );
    spec.rank = Some(RankSpec {
        by: indicator("Roc", &[10.0]),
        desc: true,
    });
    let keys: Vec<String> = spec.exprs().iter().map(|e| e.key()).collect();
    assert_eq!(
        keys,
        [
            "sub(price.close,Sma(20))",
            "price.close",
            "Sma(20)",
            "const(-9223372036854775808)",
            "Rsi(14)",
            "Roc(10)",
        ]
    );
}

#[test]
fn a_candle_only_indicator_still_needs_nothing() {
    let spec = spec_with(&["AAA"], always(indicator("Rsi", &[14.0])));
    assert!(spec.required_feeds().is_empty());
    assert!(spec.check_feeds(Available::nothing()).is_ok(), "Rsi scans on candles alone");
}

#[test]
fn required_feeds_lists_each_family_once_in_order() {
    let spec = spec_with(
        &["AAA"],
        Condition::Any {
            conditions: vec![
                always(indicator("FundingRate", &[])),
                always(indicator("Beta", &[5.0])),
                always(indicator("Rsi", &[14.0])),
                always(indicator("FundingRate", &[])),
                always(indicator("AdvanceDecline", &[])),
            ],
        },
    );
    assert_eq!(
        spec.required_feeds(),
        [FeedKind::Derivatives, FeedKind::Pair, FeedKind::CrossSection]
    );
    assert!(spec.needs_cross_section());
}

#[test]
fn pairwise_needs_a_reference_series() {
    let spec = spec_with(&["AAA"], always(indicator("RollingCorrelation", &[20.0])));
    let err = spec.check_feeds(Available::nothing()).unwrap_err();
    assert!(
        matches!(&err, Error::MissingFeed { feed, .. } if feed == "reference"),
        "{err:?}"
    );
    let with_ref = Available {
        reference: true,
        ..Available::nothing()
    };
    assert!(spec.check_feeds(with_ref).is_ok());
}

#[test]
fn trade_quote_indicators_need_trades_and_a_book() {
    let spec = spec_with(&["AAA"], always(indicator("EffectiveSpread", &[])));
    let trades_only = Available {
        trades: true,
        ..Available::nothing()
    };
    let err = spec
        .check_feeds(trades_only)
        .expect_err("EffectiveSpread without a book must be refused");
    assert!(err.message().contains("trades and books"), "got {}", err.message());
    let both = Available {
        trades: true,
        books: true,
        ..Available::nothing()
    };
    assert!(spec.check_feeds(both).is_ok());
}

#[test]
fn unknown_indicator_is_an_error() {
    let spec = spec_with(&["AAA"], always(indicator("NotAnIndicator", &[])));
    assert!(matches!(
        spec.check_feeds(Available::nothing()),
        Err(Error::UnknownIndicator(n)) if n == "NotAnIndicator"
    ));
}

#[test]
fn an_underivable_member_signal_is_refused_not_guessed() {
    let spec = spec_with(
        &["AAA", "BBB", "CCC"],
        always(indicator("BullishPercentIndex", &[])),
    );
    let derived = Available::nothing().with_derived_sections(true);
    match spec.check_feeds(derived) {
        Err(Error::UnderivableSignal { indicator, signal }) => {
            assert_eq!(indicator, "BullishPercentIndex");
            assert!(signal.contains("point-and-figure"), "{signal}");
        }
        other => panic!("expected UnderivableSignal, got {other:?}"),
    }
    // A panel the caller supplied carries the signal.
    let supplied = Available {
        sections: true,
        ..Available::nothing()
    };
    assert!(spec.check_feeds(supplied).is_ok());
}

/// The spec is refused on candles alone, naming the feed, and accepted once the
/// feed is supplied.
fn assert_needs_feed(name: &str, params: &[f64], feed: &str, supplied: Available) {
    let spec = spec_with(&["AAA"], always(indicator(name, params)));
    match spec.check_feeds(Available::nothing()) {
        Err(Error::MissingFeed { indicator, feed: f }) => {
            assert_eq!(indicator, name);
            assert_eq!(f, feed);
        }
        other => panic!("{name}: expected MissingFeed, got {other:?}"),
    }
    assert!(spec.check_feeds(supplied).is_ok(), "{name} with its feed");
}

#[test]
fn derivatives_need_a_tick() {
    let derivs = Available {
        derivs: true,
        ..Available::nothing()
    };
    assert_needs_feed("FundingRate", &[], "derivs", derivs);
}

#[test]
fn order_book_indicators_need_a_book() {
    let books = Available {
        books: true,
        ..Available::nothing()
    };
    assert_needs_feed("Microprice", &[], "books", books);
}

#[test]
fn trade_flow_indicators_need_trades() {
    let trades = Available {
        trades: true,
        ..Available::nothing()
    };
    assert_needs_feed("CumulativeVolumeDelta", &[], "trades", trades);
}

#[test]
fn breadth_indicators_need_a_cross_section() {
    let sections = Available {
        sections: true,
        ..Available::nothing()
    };
    assert_needs_feed("AdvanceDecline", &[], "sections", sections);
}

#[test]
fn every_pairwise_name_behaves_like_one() {
    const PAIRWISE: [(&str, &[f64]); 24] = [
        ("Alpha", &[20.0, 0.0]),
        ("Beta", &[20.0]),
        ("BetaNeutralSpread", &[20.0]),
        ("Cointegration", &[30.0, 1.0]),
        ("DistanceSsd", &[20.0]),
        ("GrangerCausality", &[30.0, 2.0]),
        ("HasbrouckInformationShare", &[20.0]),
        ("InformationRatio", &[20.0]),
        ("KalmanHedgeRatio", &[0.0001, 0.001]),
        ("KendallTau", &[20.0]),
        ("LeadLagCrossCorrelation", &[20.0, 3.0]),
        ("OuHalfLife", &[30.0]),
        ("PairSpreadZScore", &[20.0, 20.0]),
        ("PairwiseBeta", &[20.0]),
        ("PearsonCorrelation", &[20.0]),
        ("RelativeStrengthAB", &[20.0, 14.0]),
        ("RollingCorrelation", &[20.0]),
        ("RollingCovariance", &[20.0]),
        ("SpearmanCorrelation", &[20.0]),
        ("SpreadAr1Coefficient", &[20.0]),
        ("SpreadBollingerBands", &[20.0, 2.0]),
        ("SpreadHurst", &[30.0]),
        ("TreynorRatio", &[20.0, 0.0]),
        ("VarianceRatio", &[20.0, 2.0]),
    ];
    let reference = Available {
        reference: true,
        ..Available::nothing()
    };
    for (name, params) in PAIRWISE {
        assert_needs_feed(name, params, "reference", reference);
    }
}

#[test]
fn a_benchmark_symbol_feeds_the_pairwise_family() {
    let mut spec = spec_with(
        &["AAA", "BBB", "CCC"],
        always(indicator("RollingCorrelation", &[20.0])),
    );
    // Without a reference the spec is refused.
    let err = spec
        .check_feeds(Available::nothing().with_reference_symbol(spec.reference.is_some()))
        .expect_err("no reference, no pairwise");
    assert!(
        matches!(&err, Error::MissingFeed { feed, .. } if feed == "reference"),
        "got {err:?}"
    );
    // Naming one of the universe's own symbols supplies it.
    spec.reference = Some("CCC".to_string());
    assert!(spec.validate().is_ok());
    let available = Available::nothing().with_reference_symbol(spec.reference.is_some());
    assert!(spec.check_feeds(available).is_ok());
}

#[test]
fn the_breadth_defaults_fill_what_the_spec_leaves_out() {
    let empty = breadth(None, None, None, None);
    assert_eq!(empty.period(), 52);
    assert_eq!(empty.ma_period(), 200);
    assert_eq!(f64::from_bits(empty.pnf_box().bits), 0.01);
    assert_eq!(empty.pnf_reversal(), 3);
    let set = BreadthSpec {
        period: Some(20),
        ma_period: Some(50),
        pnf_box: Some(num(0.02)),
        pnf_reversal: Some(2),
    };
    assert_eq!(set.period(), 20);
    assert_eq!(set.ma_period(), 50);
    assert_eq!(f64::from_bits(set.pnf_box().bits), 0.02);
    assert_eq!(set.pnf_reversal(), 2);
}
