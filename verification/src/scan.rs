//! The decisions of a batch scan that do not depend on indicator values: which
//! symbols are scanned, which are stale, whether the universe must be folded in
//! lockstep, and how a cross-section value is keyed in a report.

use crate::expr::{key_text, Expr};
use crate::feeds::FeedKind;
use crate::schedule::series_view;
use crate::spec::{feeds_needed, holds, spec_exprs, views, CsMetric, ScanSpec};
use crate::error::Error;
use crate::text::{push_str, string_of};
use vstd::prelude::*;

verus! {

/// The latest last-bar timestamp among the series, if any series has a bar.
pub open spec fn latest(ts: Seq<Seq<i64>>) -> Option<i64>
    decreases ts.len(),
{
    if ts.len() == 0 {
        None
    } else {
        let rest = latest(ts.drop_last());
        let t = ts.last();
        if t.len() == 0 {
            rest
        } else {
            match rest {
                Some(m) => if t.last() > m {
                    Some(t.last())
                } else {
                    Some(m)
                },
                None => Some(t.last()),
            }
        }
    }
}

/// Whether a series' last bar is older than `latest`.
pub open spec fn is_stale(t: Seq<i64>, latest: Option<i64>) -> bool {
    match latest {
        Some(m) => t.len() > 0 && t.last() < m,
        None => false,
    }
}

/// The symbols, of the first `m`, whose series are stale, in order.
pub open spec fn stale_list(symbols: Seq<String>, ts: Seq<Seq<i64>>, m: int) -> Seq<Seq<char>>
    decreases m,
{
    if m <= 0 {
        seq![]
    } else {
        let before = stale_list(symbols, ts, m - 1);
        if is_stale(ts[m - 1], latest(ts)) {
            before.push(symbols[m - 1]@)
        } else {
            before
        }
    }
}

/// The symbols whose last bar is older than the last bar anywhere in the
/// universe, in the order given.
///
/// A symbol that stopped printing still carries the state of its last bar and
/// is still screened; naming it keeps a halted name from reading like a live
/// one.
pub fn stale_symbols(symbols: &Vec<String>, series: &Vec<Vec<i64>>) -> (stale: Vec<String>)
    requires
        symbols@.len() == series@.len(),
    ensures
        views(stale@) == stale_list(symbols@, series_view(series@), series@.len() as int),
{
    let ghost ts = series_view(series@);
    let n = series.len();
    let mut last: Option<i64> = None;
    let mut i: usize = 0;
    while i < n
        invariant
            n == series@.len(),
            ts == series_view(series@),
            i <= n,
            last == latest(ts.take(i as int)),
        decreases n - i,
    {
        proof {
            assert(ts.take(i as int + 1).drop_last() =~= ts.take(i as int));
            assert(ts.take(i as int + 1).last() == series@[i as int]@);
        }
        let row = &series[i];
        if row.len() > 0 {
            let t = row[row.len() - 1];
            last = match last {
                Some(m) => if t > m {
                    Some(t)
                } else {
                    Some(m)
                },
                None => Some(t),
            };
        }
        i = i + 1;
    }
    assert(ts.take(n as int) =~= ts);
    let mut stale: Vec<String> = Vec::new();
    let mut i: usize = 0;
    while i < n
        invariant
            n == series@.len(),
            n == symbols@.len(),
            ts == series_view(series@),
            i <= n,
            last == latest(ts),
            views(stale@) == stale_list(symbols@, ts, i as int),
        decreases n - i,
    {
        let row = &series[i];
        assert(ts[i as int] == row@);
        let old_stale = match last {
            Some(m) => row.len() > 0 && row[row.len() - 1] < m,
            None => false,
        };
        if old_stale {
            stale.push(symbols[i].clone());
        }
        assert(views(stale@) =~= stale_list(symbols@, ts, i as int + 1));
        i = i + 1;
    }
    stale
}

/// `latest` is the greatest last-bar timestamp: at least every series' last bar,
/// and equal to one of them; `None` exactly when no series has a bar.
proof fn lemma_latest_is_greatest(ts: Seq<Seq<i64>>)
    ensures
        latest(ts) is None <==> (forall|j: int| 0 <= j < ts.len() ==> #[trigger] ts[j].len() == 0),
        latest(ts) matches Some(m) ==> {
            &&& forall|j: int| 0 <= j < ts.len() && #[trigger] ts[j].len() > 0 ==> ts[j].last() <= m
            &&& exists|j: int| 0 <= j < ts.len() && #[trigger] ts[j].len() > 0 && ts[j].last() == m
        },
    decreases ts.len(),
{
    if ts.len() > 0 {
        let rest = ts.drop_last();
        let k = ts.len() - 1;
        lemma_latest_is_greatest(rest);
        assert forall|j: int| 0 <= j < rest.len() implies #[trigger] rest[j] == ts[j] by {}
        assert(ts[k] == ts.last());
        if ts[k].len() == 0 {
            assert(latest(ts) == latest(rest));
            match latest(rest) {
                Some(m) => {
                    let w = choose|j: int|
                        0 <= j < rest.len() && #[trigger] rest[j].len() > 0 && rest[j].last() == m;
                    assert(ts[w] == rest[w]);
                    assert forall|j: int| 0 <= j < ts.len() && #[trigger] ts[j].len() > 0 implies ts[j].last() <= m by {
                        if j < k {
                            assert(rest[j] == ts[j]);
                        }
                    }
                },
                None => {
                    assert forall|j: int| 0 <= j < ts.len() implies #[trigger] ts[j].len() == 0 by {
                        if j < k {
                            assert(rest[j] == ts[j]);
                        }
                    }
                },
            }
        } else {
            let t = ts[k].last();
            match latest(rest) {
                Some(m) => {
                    let w = choose|j: int|
                        0 <= j < rest.len() && #[trigger] rest[j].len() > 0 && rest[j].last() == m;
                    assert(ts[w] == rest[w]);
                    let top = if t > m { t } else { m };
                    assert(latest(ts) == Some(top));
                    assert forall|j: int| 0 <= j < ts.len() && #[trigger] ts[j].len() > 0 implies ts[j].last() <= top by {
                        if j < k {
                            assert(rest[j] == ts[j]);
                        }
                    }
                    if t > m {
                        assert(ts[k].len() > 0 && ts[k].last() == top);
                    } else {
                        assert(ts[w].len() > 0 && ts[w].last() == top);
                    }
                },
                None => {
                    assert(latest(ts) == Some(t));
                    assert forall|j: int| 0 <= j < ts.len() && #[trigger] ts[j].len() > 0 implies ts[j].last() <= t by {
                        if j < k {
                            assert(rest[j] == ts[j]);
                        }
                    }
                    assert(ts[k].len() > 0 && ts[k].last() == t);
                },
            }
        }
    }
}

/// A symbol is named stale exactly when its series has a bar and another
/// series' last bar is later than its own.
pub proof fn lemma_stale_means_behind(symbols: Seq<String>, ts: Seq<Seq<i64>>, i: int)
    requires
        symbols.len() == ts.len(),
        0 <= i < ts.len(),
    ensures
        is_stale(ts[i], latest(ts)) <==> (ts[i].len() > 0 && exists|j: int|
            0 <= j < ts.len() && #[trigger] ts[j].len() > 0 && ts[i].last() < ts[j].last()),
{
    lemma_latest_is_greatest(ts);
    if ts[i].len() > 0 {
        if exists|j: int| 0 <= j < ts.len() && #[trigger] ts[j].len() > 0 && ts[i].last() < ts[j].last() {
            let j = choose|j: int| 0 <= j < ts.len() && #[trigger] ts[j].len() > 0 && ts[i].last() < ts[j].last();
            assert(ts[j].len() > 0);
        }
    }
}

/// Exactly the stale symbols are named: the list holds, in order, the symbols
/// of the series that [`is_stale`] marks.
proof fn lemma_stale_list_members(symbols: Seq<String>, ts: Seq<Seq<i64>>, m: int)
    requires
        0 <= m <= ts.len(),
        symbols.len() == ts.len(),
    ensures
        (forall|i: int| 0 <= i < m && is_stale(ts[i], latest(ts)) ==> stale_list(symbols, ts, m).contains(#[trigger] symbols[i]@)),
        stale_list(symbols, ts, m).len() <= m,
        (forall|i: int| 0 <= i < m ==> !is_stale(#[trigger] ts[i], latest(ts))) ==> stale_list(symbols, ts, m).len() == 0,
    decreases m,
{
    if m > 0 {
        lemma_stale_list_members(symbols, ts, m - 1);
        let before = stale_list(symbols, ts, m - 1);
        if is_stale(ts[m - 1], latest(ts)) {
            assert(before.push(symbols[m - 1]@)[before.len() as int] == symbols[m - 1]@);
        }
        assert forall|i: int| 0 <= i < m && is_stale(ts[i], latest(ts)) implies stale_list(symbols, ts, m).contains(#[trigger] symbols[i]@) by {
            if i < m - 1 {
                let k = choose|k: int| 0 <= k < before.len() && before[k] == symbols[i]@;
                if is_stale(ts[m - 1], latest(ts)) {
                    assert(before.push(symbols[m - 1]@)[k] == symbols[i]@);
                }
            }
        }
    }
}

/// A symbol whose last bar is older than another series' last bar is named
/// stale.
pub proof fn lemma_behind_is_stale(symbols: Seq<String>, ts: Seq<Seq<i64>>)
    requires
        symbols.len() == ts.len(),
    ensures
        forall|i: int, j: int|
            #![trigger symbols[i], ts[j]]
            0 <= i < ts.len() && 0 <= j < ts.len() && ts[i].len() > 0 && ts[j].len() > 0
                && ts[i].last() < ts[j].last() ==> stale_list(symbols, ts, ts.len() as int).contains(
                symbols[i]@,
            ),
{
    lemma_stale_list_members(symbols, ts, ts.len() as int);
    assert forall|i: int, j: int|
        #![trigger symbols[i], ts[j]]
        0 <= i < ts.len() && 0 <= j < ts.len() && ts[i].len() > 0 && ts[j].len() > 0
            && ts[i].last() < ts[j].last() implies stale_list(symbols, ts, ts.len() as int).contains(
            symbols[i]@,
        ) by {
        lemma_stale_means_behind(symbols, ts, i);
    }
}

/// A universe whose series all end at one timestamp `t` has nothing stale.
pub proof fn lemma_aligned_has_nothing_stale(symbols: Seq<String>, ts: Seq<Seq<i64>>, t: i64)
    requires
        symbols.len() == ts.len(),
        forall|j: int| 0 <= j < ts.len() && #[trigger] ts[j].len() > 0 ==> ts[j].last() == t,
    ensures
        stale_list(symbols, ts, ts.len() as int).len() == 0,
{
    lemma_stale_list_members(symbols, ts, ts.len() as int);
    assert forall|i: int| 0 <= i < ts.len() implies !is_stale(#[trigger] ts[i], latest(ts)) by {
        lemma_stale_means_behind(symbols, ts, i);
        if ts[i].len() > 0 {
            assert forall|j: int| 0 <= j < ts.len() && #[trigger] ts[j].len() > 0 implies !(ts[i].last()
                < ts[j].last()) by {}
        }
    }
}

/// The positions of the symbols the universe names; data for any other
/// symbol is dropped rather than folded.
pub open spec fn scanned_positions(spec: ScanSpec, symbols: Seq<String>, m: int) -> Seq<usize>
    decreases m,
{
    if m <= 0 {
        seq![]
    } else {
        let before = scanned_positions(spec, symbols, m - 1);
        if holds(spec.universe@, symbols[m - 1]@) {
            before.push((m - 1) as usize)
        } else {
            before
        }
    }
}

/// The positions, among the symbols a caller supplied data for, of those the
/// spec's universe names. The universe is what the spec asks to be screened.
pub fn in_universe(spec: &ScanSpec, symbols: &Vec<String>) -> (kept: Vec<usize>)
    ensures
        kept@ == scanned_positions(*spec, symbols@, symbols@.len() as int),
{
    let mut kept: Vec<usize> = Vec::new();
    let mut i: usize = 0;
    while i < symbols.len()
        invariant
            i <= symbols.len(),
            kept@ == scanned_positions(*spec, symbols@, i as int),
        decreases symbols.len() - i,
    {
        if spec.names(symbols[i].as_str()) {
            kept.push(i);
        }
        i = i + 1;
    }
    kept
}

/// Whether a scan has to fold the universe one timestamp at a time: a
/// benchmark symbol is named, or the spec reads the cross-section and some
/// symbol's data does not supply one, so the scan assembles it.
pub open spec fn lockstep_needed(spec: ScanSpec, sections: Seq<bool>) -> bool {
    spec.reference is Some || (feeds_needed(spec_exprs(spec)).contains(FeedKind::CrossSection)
        && exists|i: int| 0 <= i < sections.len() && !sections[i])
}

/// Whether this scan has to fold the universe in lockstep rather than symbol
/// by symbol; `sections` says, per scanned symbol, whether its data supplies a
/// cross-section.
pub fn needs_lockstep(spec: &ScanSpec, sections: &Vec<bool>) -> (r: bool)
    ensures
        r == lockstep_needed(*spec, sections@),
{
    if spec.reference.is_some() {
        return true;
    }
    if !spec.needs_cross_section() {
        return false;
    }
    let mut i: usize = 0;
    while i < sections.len()
        invariant
            i <= sections.len(),
            spec.reference is None,
            feeds_needed(spec_exprs(*spec)).contains(FeedKind::CrossSection),
            forall|j: int| 0 <= j < i ==> sections@[j],
        decreases sections.len() - i,
    {
        if !sections[i] {
            assert(!sections@[i as int]);
            return true;
        }
        i = i + 1;
    }
    false
}

/// The canonical suffix of a cross-section metric key.
pub open spec fn metric_name(m: CsMetric) -> Seq<char> {
    match m {
        CsMetric::Rank => "rank"@,
        CsMetric::PercentileRank => "percentile_rank"@,
        CsMetric::ZScore => "z_score"@,
    }
}

/// The canonical suffix of a cross-section metric key.
pub fn metric_key(metric: CsMetric) -> (s: &'static str)
    ensures
        s@ == metric_name(metric),
{
    match metric {
        CsMetric::Rank => "rank",
        CsMetric::PercentileRank => "percentile_rank",
        CsMetric::ZScore => "z_score",
    }
}

/// The key a cross-section metric is reported under: `<expr key>#<metric>`.
pub fn metric_value_key(expr: &Expr, metric: CsMetric) -> (k: String)
    ensures
        k@ == key_text(*expr) + "#"@ + metric_name(metric),
{
    let mut k = expr.key();
    push_str(&mut k, "#");
    push_str(&mut k, metric_key(metric));
    k
}

/// A live pull of `bars` bars per symbol is refused when it would pull none:
/// a universe of zero bars is not a universe.
pub fn check_live_bars(bars: u32) -> (r: Result<(), Error>)
    ensures
        bars > 0 <==> r is Ok,
        bars == 0 ==> (r matches Err(Error::BadSpec(m)) && m@ == "live bars must be greater than 0"@),
{
    if bars == 0 {
        Err(Error::BadSpec(string_of("live bars must be greater than 0")))
    } else {
        Ok(())
    }
}

} // verus!
