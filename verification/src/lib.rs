//! Verified core of the Wickra screener.
//!
//! A scan specification is a condition tree over expressions; this crate holds
//! the parts of a scan that decide structure and order: spec validation, the
//! expression keys, the feed families a spec needs and the indicators it
//! resolves, how deep a window of recent bars it reads, the lockstep schedule
//! that folds a universe one timestamp at a time, which universe symbols are
//! missing or stale, how a cross-section is ranked, the order comparisons a
//! condition makes, the new extremes and buy signal a breadth member carries,
//! how matches are ordered and limited and which values explain them, the
//! command protocol, the command line, and the text the report is rendered
//! into.
//!
//! Numbers travel as IEEE-754 binary64 bit patterns ([`num::Num`]); every
//! comparison the crate makes on them is proved against the exact value such a
//! pattern denotes.

pub mod cli;
pub mod compare;
pub mod error;
pub mod explain;
pub mod expr;
pub mod feeds;
pub mod indicators;
pub mod num;
pub mod protocol;
pub mod rank;
pub mod scan;
pub mod signal;
pub mod render;
pub mod schedule;
pub mod spec;
pub mod text;
pub mod verdict;
pub mod window;

use vstd::prelude::*;

verus! {

/// The library's version.
pub open spec fn version_text() -> Seq<char> {
    "0.1.1"@
}

/// The screener-core version string.
pub fn version() -> (v: &'static str)
    ensures
        v@ == version_text(),
{
    "0.1.1"
}

} // verus!
