//! Feed families: how the registry's answer is refined and which feeds a scan
//! supplies.

use wickra_backtest_core::registry::feed_of;
use wickra_backtest_core::spec::Feed;
use wickra_screener_core::error::Error;
use wickra_screener_core::feeds::{
    feed_kind, pairwise, str_equal, Available, FeedKind, FeedLengths, PAIRWISE,
};

#[test]
fn feed_kind_classifies_each_family() {
    assert_eq!(feed_kind("Rsi"), Some(FeedKind::Candle));
    assert_eq!(feed_kind("Beta"), Some(FeedKind::Pair));
    assert_eq!(feed_kind("Cointegration"), Some(FeedKind::Pair));
    assert_eq!(feed_kind("FundingRate"), Some(FeedKind::Derivatives));
    assert_eq!(feed_kind("Microprice"), Some(FeedKind::OrderBook));
    assert_eq!(feed_kind("Vpin"), Some(FeedKind::Trades));
    assert_eq!(feed_kind("EffectiveSpread"), Some(FeedKind::TradeQuote));
    assert_eq!(feed_kind("AdvanceDecline"), Some(FeedKind::CrossSection));
    assert_eq!(feed_kind("NotAnIndicator"), None);
}

#[test]
fn pairwise_list_is_sorted_and_unique() {
    let mut sorted = PAIRWISE;
    sorted.sort_unstable();
    assert_eq!(sorted, PAIRWISE, "keep PAIRWISE sorted");
    let mut seen = std::collections::BTreeSet::new();
    assert!(PAIRWISE.iter().all(|n| seen.insert(*n)));
}

#[test]
fn every_pairwise_name_is_a_registry_name_classified_as_kline() {
    for name in PAIRWISE {
        assert_eq!(
            feed_of(name),
            Some(Feed::Kline),
            "{name} is not a Kline-classified registry name"
        );
        assert!(pairwise(name));
        assert_eq!(feed_kind(name), Some(FeedKind::Pair));
    }
    assert!(!pairwise("Rsi"));
    assert!(!pairwise("beta"));
}

#[test]
fn feed_names() {
    assert_eq!(FeedKind::Pair.as_str(), "reference");
    assert_eq!(FeedKind::TradeQuote.as_str(), "trades and books");
    assert_eq!(FeedKind::Derivatives.as_str(), "derivs");
    assert_eq!(FeedKind::OrderBook.as_str(), "books");
    assert_eq!(FeedKind::Trades.as_str(), "trades");
    assert_eq!(FeedKind::CrossSection.as_str(), "sections");
}

#[test]
fn supply_of_each_family() {
    let none = Available::nothing();
    assert!(none.has(FeedKind::Candle));
    assert!(!none.has(FeedKind::Pair));
    let trades = Available {
        trades: true,
        ..none
    };
    assert!(trades.has(FeedKind::Trades));
    assert!(!trades.has(FeedKind::TradeQuote));
    let derived = none.with_derived_sections(true);
    assert!(derived.has(FeedKind::CrossSection) && derived.sections_are_derived);
    let supplied = Available {
        sections: true,
        ..none
    }
    .with_derived_sections(true);
    assert!(supplied.sections && !supplied.sections_are_derived);
    assert_eq!(none.with_derived_sections(false), none);
    assert!(none.with_reference_symbol(true).has(FeedKind::Pair));
}

#[test]
fn strings_compare_by_characters() {
    assert!(str_equal("Beta", "Beta"));
    assert!(!str_equal("Beta", "Betas"));
    assert!(!str_equal("", "x"));
    assert!(str_equal("", ""));
    assert!(str_equal("ÄÖü", "ÄÖü"));
}

#[test]
fn a_feed_shorter_than_the_candles_is_refused() {
    const BARS: usize = 60;
    let short = FeedLengths {
        reference: Some(BARS - 1),
        derivs: None,
        books: None,
        trades: None,
        sections: None,
    };
    match short.check("AAA", BARS) {
        Err(Error::FeedLength {
            symbol,
            feed,
            len,
            candles,
        }) => {
            assert_eq!(symbol, "AAA");
            assert_eq!(feed, "reference");
            assert_eq!(len, BARS - 1);
            assert_eq!(candles, BARS);
        }
        other => panic!("expected FeedLength, got {other:?}"),
    }
}

#[test]
fn feeds_of_the_candles_length_pass_and_supply_their_families() {
    let full = FeedLengths {
        reference: Some(3),
        derivs: None,
        books: Some(3),
        trades: Some(3),
        sections: None,
    };
    assert!(full.check("AAA", 3).is_ok());
    let supply = full.supply();
    assert!(supply.has(FeedKind::Pair));
    assert!(supply.has(FeedKind::TradeQuote));
    assert!(!supply.has(FeedKind::Derivatives));
    assert!(!supply.sections_are_derived);
}

#[test]
fn the_first_mismatched_feed_is_named() {
    let lengths = FeedLengths {
        reference: Some(5),
        derivs: Some(4),
        books: Some(6),
        trades: None,
        sections: Some(1),
    };
    let err = lengths.check("BBB", 5).unwrap_err();
    assert_eq!(
        err.message(),
        "BBB: derivs feed length 4 does not match 5 candles"
    );
    let longer = FeedLengths {
        sections: Some(7),
        ..FeedLengths {
            reference: None,
            derivs: None,
            books: None,
            trades: None,
            sections: None,
        }
    };
    assert!(matches!(
        longer.check("CCC", 5),
        Err(Error::FeedLength { feed, len: 7, .. }) if feed == "sections"
    ));
}
