//! Errors returned by the screener core.

use crate::text::{dec, push_dec, push_str};
use vstd::prelude::*;

verus! {

/// Errors returned by the screener core.
#[derive(Debug)]
pub enum Error {
    /// A spec, command or dataset failed to parse.
    Parse(String),
    /// A spec referenced an indicator the registry does not know.
    UnknownIndicator(String),
    /// A spec was structurally invalid (empty, out of range or contradictory).
    BadSpec(String),
    /// The universe data was missing or malformed.
    Data(String),
    /// A side feed did not have one entry per candle.
    FeedLength {
        /// The symbol whose series is mismatched.
        symbol: String,
        /// The feed array that is the wrong length.
        feed: String,
        /// The length supplied.
        len: usize,
        /// The candle count it has to match.
        candles: usize,
    },
    /// A symbol was fed that the spec's universe does not name.
    NotInUniverse(String),
    /// A side feed entry could not be converted to the type indicators consume.
    Feed(String),
    /// The spec names an indicator whose feed the scan does not supply.
    MissingFeed {
        /// The indicator the spec names.
        indicator: String,
        /// The feed family it consumes.
        feed: String,
    },
    /// The spec names a breadth indicator that reads a member signal which a
    /// cross-section assembled from candles cannot carry.
    UnderivableSignal {
        /// The indicator the spec names.
        indicator: String,
        /// The member signal it reads.
        signal: String,
    },
    /// A live universe could not be pulled from a venue.
    Live(String),
}

/// The message an error renders as.
pub open spec fn error_text(e: Error) -> Seq<char> {
    match e {
        Error::Parse(m) => "parse: "@ + m@,
        Error::UnknownIndicator(m) => "unknown indicator: "@ + m@,
        Error::BadSpec(m) => "bad spec: "@ + m@,
        Error::Data(m) => "data: "@ + m@,
        Error::FeedLength { symbol, feed, len, candles } => symbol@ + ": "@ + feed@
            + " feed length "@ + dec(len as nat) + " does not match "@ + dec(candles as nat)
            + " candles"@,
        Error::NotInUniverse(m) => "symbol "@ + m@ + " is not in the spec's universe"@,
        Error::Feed(m) => "feed: "@ + m@,
        Error::MissingFeed { indicator, feed } => "indicator "@ + indicator@ + " needs the "@
            + feed@ + " feed, which this scan does not supply"@,
        Error::UnderivableSignal { indicator, signal } => "indicator "@ + indicator@
            + " reads the "@ + signal@
            + " signal, which a cross-section assembled from candles cannot carry"@,
        Error::Live(m) => "live: "@ + m@,
    }
}

impl Error {
    /// The human-readable message of this error.
    pub fn message(&self) -> (r: String)
        ensures
            r@ == error_text(*self),
    {
        let mut s = String::new();
        match self {
            Error::Parse(m) => {
                push_str(&mut s, "parse: ");
                push_str(&mut s, m.as_str());
            },
            Error::UnknownIndicator(m) => {
                push_str(&mut s, "unknown indicator: ");
                push_str(&mut s, m.as_str());
            },
            Error::BadSpec(m) => {
                push_str(&mut s, "bad spec: ");
                push_str(&mut s, m.as_str());
            },
            Error::Data(m) => {
                push_str(&mut s, "data: ");
                push_str(&mut s, m.as_str());
            },
            Error::FeedLength { symbol, feed, len, candles } => {
                push_str(&mut s, symbol.as_str());
                push_str(&mut s, ": ");
                push_str(&mut s, feed.as_str());
                push_str(&mut s, " feed length ");
                push_dec(&mut s, *len as u64);
                push_str(&mut s, " does not match ");
                push_dec(&mut s, *candles as u64);
                push_str(&mut s, " candles");
            },
            Error::NotInUniverse(m) => {
                push_str(&mut s, "symbol ");
                push_str(&mut s, m.as_str());
                push_str(&mut s, " is not in the spec's universe");
            },
            Error::Feed(m) => {
                push_str(&mut s, "feed: ");
                push_str(&mut s, m.as_str());
            },
            Error::MissingFeed { indicator, feed } => {
                push_str(&mut s, "indicator ");
                push_str(&mut s, indicator.as_str());
                push_str(&mut s, " needs the ");
                push_str(&mut s, feed.as_str());
                push_str(&mut s, " feed, which this scan does not supply");
            },
            Error::UnderivableSignal { indicator, signal } => {
                push_str(&mut s, "indicator ");
                push_str(&mut s, indicator.as_str());
                push_str(&mut s, " reads the ");
                push_str(&mut s, signal.as_str());
                push_str(
                    &mut s,
                    " signal, which a cross-section assembled from candles cannot carry",
                );
            },
            Error::Live(m) => {
                push_str(&mut s, "live: ");
                push_str(&mut s, m.as_str());
            },
        }
        assert(s@ =~= error_text(*self));
        s
    }
}

} // verus!
