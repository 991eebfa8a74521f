//! The feed families an indicator consumes, and which of them a scan supplies.

use crate::error::Error;
use crate::text::string_of;
use vstd::prelude::*;

verus! {

/// A family of market data an indicator may consume beyond the candle.
#[derive(Clone, Copy, Debug, PartialEq, Eq, Structural)]
pub enum FeedKind {
    /// The candle alone.
    Candle,
    /// A reference series' close alongside the candle (pairwise indicators).
    Pair,
    /// The trades that printed inside each bar.
    Trades,
    /// An order-book snapshot per bar.
    OrderBook,
    /// Trades quoted against the book: both trades and a book per bar.
    TradeQuote,
    /// A derivatives tick per bar (funding, open interest, mark, index).
    Derivatives,
    /// The market cross-section at each bar (breadth indicators).
    CrossSection,
}

/// The name of a feed family, as errors and documents name it.
pub open spec fn feed_kind_name(k: FeedKind) -> Seq<char> {
    match k {
        FeedKind::Candle => "candles"@,
        FeedKind::Pair => "reference"@,
        FeedKind::Trades => "trades"@,
        FeedKind::OrderBook => "books"@,
        FeedKind::TradeQuote => "trades and books"@,
        FeedKind::Derivatives => "derivs"@,
        FeedKind::CrossSection => "sections"@,
    }
}

impl FeedKind {
    /// The name of this feed family.
    pub fn as_str(self) -> (s: &'static str)
        ensures
            s@ == feed_kind_name(self),
    {
        match self {
            FeedKind::Candle => "candles",
            FeedKind::Pair => "reference",
            FeedKind::Trades => "trades",
            FeedKind::OrderBook => "books",
            FeedKind::TradeQuote => "trades and books",
            FeedKind::Derivatives => "derivs",
            FeedKind::CrossSection => "sections",
        }
    }
}

/// The feed families the indicator registry knows.
#[derive(Clone, Copy, Debug, PartialEq, Eq, Structural)]
pub enum FeedFamily {
    /// OHLCV candles, also the feed of the pairwise indicators.
    Kline,
    /// Trade prints.
    Trade,
    /// Order-book snapshots.
    Orderbook,
    /// Trade prints quoted against the book.
    TradeQuote,
    /// Derivatives ticks.
    Derivatives,
    /// The market cross-section.
    CrossSection,
}

/// The feed family the indicator registry assigns an indicator name, or `None`
/// when the registry does not know the name.
pub uninterp spec fn registry_feed(name: Seq<char>) -> Option<FeedFamily>;

/// The registry's feed family for an indicator name
/// (`wickra_backtest_core::registry::feed_of`). It is a lookup table of the
/// registry's indicator names, so its result depends on the name alone; the
/// table itself is not restated here.
#[verifier::external_body]
fn registry_feed_of(name: &str) -> (r: Option<FeedFamily>)
    ensures
        r == registry_feed(name@),
{
    match wickra_backtest_core::registry::feed_of(name) {
        None => None,
        Some(wickra_backtest_core::spec::Feed::Kline) => Some(FeedFamily::Kline),
        Some(wickra_backtest_core::spec::Feed::Trade) => Some(FeedFamily::Trade),
        Some(wickra_backtest_core::spec::Feed::Orderbook) => Some(FeedFamily::Orderbook),
        Some(wickra_backtest_core::spec::Feed::TradeQuote) => Some(FeedFamily::TradeQuote),
        Some(wickra_backtest_core::spec::Feed::Derivatives) => Some(FeedFamily::Derivatives),
        Some(wickra_backtest_core::spec::Feed::CrossSection) => Some(FeedFamily::CrossSection),
    }
}

/// The pairwise indicators, which read the reference series' close alongside
/// the bar close. The registry files all of them under the candle feed, since
/// the candle is one of their two inputs; this list tells them apart.
pub const PAIRWISE: [&'static str; 24] = [
    "Alpha",
    "Beta",
    "BetaNeutralSpread",
    "Cointegration",
    "DistanceSsd",
    "GrangerCausality",
    "HasbrouckInformationShare",
    "InformationRatio",
    "KalmanHedgeRatio",
    "KendallTau",
    "LeadLagCrossCorrelation",
    "OuHalfLife",
    "PairSpreadZScore",
    "PairwiseBeta",
    "PearsonCorrelation",
    "RelativeStrengthAB",
    "RollingCorrelation",
    "RollingCovariance",
    "SpearmanCorrelation",
    "SpreadAr1Coefficient",
    "SpreadBollingerBands",
    "SpreadHurst",
    "TreynorRatio",
    "VarianceRatio",
];

/// Whether `name` is one of the pairwise indicators.
pub open spec fn is_pairwise(name: Seq<char>) -> bool {
    exists|i: int| 0 <= i < 24 && (#[trigger] PAIRWISE@[i])@ == name
}

/// Whether two strings hold the same characters.
pub fn str_equal(a: &str, b: &str) -> (r: bool)
    ensures
        r == (a@ == b@),
{
    let n = a.unicode_len();
    if n != b.unicode_len() {
        return false;
    }
    let mut i: usize = 0;
    while i < n
        invariant
            n == a@.len(),
            n == b@.len(),
            i <= n,
            forall|j: int| 0 <= j < i ==> a@[j] == b@[j],
        decreases n - i,
    {
        if a.get_char(i) != b.get_char(i) {
            return false;
        }
        i = i + 1;
    }
    assert(a@ =~= b@);
    true
}

/// Whether an indicator name is one of the pairwise indicators.
pub fn pairwise(name: &str) -> (r: bool)
    ensures
        r == is_pairwise(name@),
{
    let mut i: usize = 0;
    while i < 24
        invariant
            i <= 24,
            forall|j: int| 0 <= j < i ==> (#[trigger] PAIRWISE@[j])@ != name@,
        decreases 24 - i,
    {
        if str_equal(PAIRWISE[i], name) {
            return true;
        }
        i = i + 1;
    }
    false
}

/// The feed family an indicator consumes, refined from the registry's answer.
pub open spec fn feed_kind_of(name: Seq<char>) -> Option<FeedKind> {
    match registry_feed(name) {
        None => None,
        Some(FeedFamily::Kline) => if is_pairwise(name) {
            Some(FeedKind::Pair)
        } else {
            Some(FeedKind::Candle)
        },
        Some(FeedFamily::Trade) => Some(FeedKind::Trades),
        Some(FeedFamily::Orderbook) => Some(FeedKind::OrderBook),
        Some(FeedFamily::TradeQuote) => Some(FeedKind::TradeQuote),
        Some(FeedFamily::Derivatives) => Some(FeedKind::Derivatives),
        Some(FeedFamily::CrossSection) => Some(FeedKind::CrossSection),
    }
}

/// Which feed an indicator consumes, or `None` if the registry does not know
/// the name. The registry's candle answer is refined with the pairwise list, so
/// a caller can tell "candle is enough" from "needs a reference".
pub fn feed_kind(name: &str) -> (r: Option<FeedKind>)
    ensures
        r == feed_kind_of(name@),
{
    match registry_feed_of(name) {
        None => None,
        Some(FeedFamily::Kline) => if pairwise(name) {
            Some(FeedKind::Pair)
        } else {
            Some(FeedKind::Candle)
        },
        Some(FeedFamily::Trade) => Some(FeedKind::Trades),
        Some(FeedFamily::Orderbook) => Some(FeedKind::OrderBook),
        Some(FeedFamily::TradeQuote) => Some(FeedKind::TradeQuote),
        Some(FeedFamily::Derivatives) => Some(FeedKind::Derivatives),
        Some(FeedFamily::CrossSection) => Some(FeedKind::CrossSection),
    }
}

/// Which feed families a symbol's data supplies to a scan.
#[derive(Clone, Copy, Debug, PartialEq, Eq, Structural)]
pub struct Available {
    /// A reference close per bar.
    pub reference: bool,
    /// A derivatives tick per bar.
    pub derivs: bool,
    /// An order book per bar.
    pub books: bool,
    /// The trades of each bar.
    pub trades: bool,
    /// A market cross-section per bar.
    pub sections: bool,
    /// Whether the cross-section is the one the scan assembles from the
    /// universe's own candles rather than one the caller supplied.
    pub sections_are_derived: bool,
}

/// Whether `a` supplies the feed family `k`.
pub open spec fn supplies(a: Available, k: FeedKind) -> bool {
    match k {
        FeedKind::Candle => true,
        FeedKind::Pair => a.reference,
        FeedKind::Trades => a.trades,
        FeedKind::OrderBook => a.books,
        FeedKind::TradeQuote => a.trades && a.books,
        FeedKind::Derivatives => a.derivs,
        FeedKind::CrossSection => a.sections,
    }
}

impl Available {
    /// No feed beyond the candle.
    pub fn nothing() -> (a: Available)
        ensures
            !a.reference && !a.derivs && !a.books && !a.trades && !a.sections
                && !a.sections_are_derived,
    {
        Available {
            reference: false,
            derivs: false,
            books: false,
            trades: false,
            sections: false,
            sections_are_derived: false,
        }
    }

    /// Whether the feed family `k` is supplied.
    pub fn has(&self, k: FeedKind) -> (r: bool)
        ensures
            r == supplies(*self, k),
    {
        match k {
            FeedKind::Candle => true,
            FeedKind::Pair => self.reference,
            FeedKind::Trades => self.trades,
            FeedKind::OrderBook => self.books,
            FeedKind::TradeQuote => self.trades && self.books,
            FeedKind::Derivatives => self.derivs,
            FeedKind::CrossSection => self.sections,
        }
    }

    /// The same supply, plus the cross-section the scan assembles itself when
    /// `derived` holds and the caller supplied none.
    pub fn with_derived_sections(self, derived: bool) -> (r: Available)
        ensures
            r == (if derived && !self.sections {
                Available { sections: true, sections_are_derived: true, ..self }
            } else {
                self
            }),
    {
        if derived && !self.sections {
            Available { sections: true, sections_are_derived: true, ..self }
        } else {
            self
        }
    }

    /// The same supply, plus a reference close when the spec names a
    /// benchmark symbol.
    pub fn with_reference_symbol(self, named: bool) -> (r: Available)
        ensures
            r == (if named {
                Available { reference: true, ..self }
            } else {
                self
            }),
    {
        if named {
            Available { reference: true, ..self }
        } else {
            self
        }
    }
}

/// How many entries each side feed of one symbol holds, `None` where the feed
/// is not supplied. Every supplied feed must hold one entry per candle.
#[derive(Clone, Copy, Debug, PartialEq, Eq, Structural)]
pub struct FeedLengths {
    /// Reference candles.
    pub reference: Option<usize>,
    /// Derivatives ticks.
    pub derivs: Option<usize>,
    /// Order books.
    pub books: Option<usize>,
    /// Trade batches.
    pub trades: Option<usize>,
    /// Cross-sections.
    pub sections: Option<usize>,
}

/// Whether a supplied feed's length differs from the candle count.
pub open spec fn mismatched(len: Option<usize>, candles: usize) -> bool {
    match len {
        Some(n) => n != candles,
        None => false,
    }
}

/// The first feed, in the order reference, derivs, books, trades, sections,
/// whose length differs from the candle count: its name and its length.
pub open spec fn length_problem(f: FeedLengths, candles: usize) -> Option<(Seq<char>, usize)> {
    if mismatched(f.reference, candles) {
        Some(("reference"@, f.reference.unwrap()))
    } else if mismatched(f.derivs, candles) {
        Some(("derivs"@, f.derivs.unwrap()))
    } else if mismatched(f.books, candles) {
        Some(("books"@, f.books.unwrap()))
    } else if mismatched(f.trades, candles) {
        Some(("trades"@, f.trades.unwrap()))
    } else if mismatched(f.sections, candles) {
        Some(("sections"@, f.sections.unwrap()))
    } else {
        None
    }
}

/// The supply that a symbol's feeds make: each family whose feed is present.
pub open spec fn supply_of(f: FeedLengths) -> Available {
    Available {
        reference: f.reference is Some,
        derivs: f.derivs is Some,
        books: f.books is Some,
        trades: f.trades is Some,
        sections: f.sections is Some,
        sections_are_derived: false,
    }
}

fn length_error(symbol: &str, feed: &str, len: usize, candles: usize) -> (e: Error)
    ensures
        e matches Error::FeedLength { symbol: s, feed: f, len: l, candles: c }
            && s@ == symbol@ && f@ == feed@ && l == len && c == candles,
{
    Error::FeedLength { symbol: string_of(symbol), feed: string_of(feed), len, candles }
}

impl FeedLengths {
    /// Refuses the series when a supplied feed does not hold exactly one entry
    /// per candle, naming the first such feed.
    pub fn check(&self, symbol: &str, candles: usize) -> (r: Result<(), Error>)
        ensures
            match length_problem(*self, candles) {
                None => r is Ok,
                Some((feed, len)) => r matches Err(Error::FeedLength { symbol: s, feed: f, len: l, candles: c })
                    && s@ == symbol@ && f@ == feed && l == len && c == candles,
            },
    {
        proof {
            reveal_strlit("reference");
            reveal_strlit("derivs");
            reveal_strlit("books");
            reveal_strlit("trades");
            reveal_strlit("sections");
        }
        if let Some(n) = self.reference {
            if n != candles {
                return Err(length_error(symbol, "reference", n, candles));
            }
        }
        if let Some(n) = self.derivs {
            if n != candles {
                return Err(length_error(symbol, "derivs", n, candles));
            }
        }
        if let Some(n) = self.books {
            if n != candles {
                return Err(length_error(symbol, "books", n, candles));
            }
        }
        if let Some(n) = self.trades {
            if n != candles {
                return Err(length_error(symbol, "trades", n, candles));
            }
        }
        if let Some(n) = self.sections {
            if n != candles {
                return Err(length_error(symbol, "sections", n, candles));
            }
        }
        Ok(())
    }

    /// The feed families these feeds supply.
    pub fn supply(&self) -> (a: Available)
        ensures
            a == supply_of(*self),
    {
        Available {
            reference: self.reference.is_some(),
            derivs: self.derivs.is_some(),
            books: self.books.is_some(),
            trades: self.trades.is_some(),
            sections: self.sections.is_some(),
            sections_are_derived: false,
        }
    }
}

} // verus!
