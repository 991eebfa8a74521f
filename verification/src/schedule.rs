//! Walking a universe one timestamp at a time.
//!
//! Each symbol's history is a series of bar timestamps. A lockstep scan walks
//! the sorted union of every timestamp the universe printed at; at each one,
//! the symbols whose next bar carries that timestamp fold it, and the rest hold
//! the state they had. One delisted symbol therefore never rewinds the scan
//! for the others.

use vstd::prelude::*;

verus! {

/// Whether `x` is a bar timestamp of some symbol.
pub open spec fn in_union(ts: Seq<Seq<i64>>, x: i64) -> bool {
    exists|s: int, i: int| 0 <= s < ts.len() && 0 <= i < ts[s].len() && ts[s][i] == x
}

/// Whether a sequence of timestamps is strictly increasing.
pub open spec fn strictly_increasing(t: Seq<i64>) -> bool {
    forall|i: int, j: int| 0 <= i < j < t.len() ==> t[i] < t[j]
}

/// Whether `tl` is the timeline of `ts`: every distinct timestamp of the
/// universe, once, in increasing order.
pub open spec fn is_timeline(ts: Seq<Seq<i64>>, tl: Seq<i64>) -> bool {
    &&& strictly_increasing(tl)
    &&& forall|k: int| 0 <= k < tl.len() ==> in_union(ts, #[trigger] tl[k])
    &&& forall|s: int, i: int|
        0 <= s < ts.len() && 0 <= i < ts[s].len() ==> tl.contains(#[trigger] ts[s][i])
}

/// The series of a universe, as sequences.
pub open spec fn series_view(series: Seq<Vec<i64>>) -> Seq<Seq<i64>> {
    series.map_values(|v: Vec<i64>| v@)
}

/// Whether `x` lies after the last timestamp taken, if any.
pub open spec fn after(x: i64, last: Option<i64>) -> bool {
    match last {
        None => true,
        Some(l) => x > l,
    }
}

/// Whether a minimum has been found and lies at or below `x`.
pub open spec fn at_most(best: Option<i64>, x: i64) -> bool {
    match best {
        Some(b) => b <= x,
        None => false,
    }
}

/// The sorted union of every bar timestamp in the universe, without repeats.
pub fn timeline(series: &Vec<Vec<i64>>) -> (tl: Vec<i64>)
    ensures
        is_timeline(series_view(series@), tl@),
{
    let ghost ts = series_view(series@);
    let mut tl: Vec<i64> = Vec::new();
    let mut last: Option<i64> = None;
    loop
        invariant
            ts == series_view(series@),
            strictly_increasing(tl@),
            forall|k: int| 0 <= k < tl@.len() ==> in_union(ts, #[trigger] tl@[k]),
            last is None <==> tl@.len() == 0,
            last matches Some(l) ==> tl@.last() == l,
            forall|s: int, i: int|
                0 <= s < ts.len() && 0 <= i < ts[s].len() && !after(#[trigger] ts[s][i], last)
                    ==> tl@.contains(ts[s][i]),
        decreases
            (match last {
                None => 0x1_0000_0000_0000_0000int,
                Some(l) => 0x7FFF_FFFF_FFFF_FFFFint - l,
            }),
    {
        // The smallest timestamp after `last`.
        let mut best: Option<i64> = None;
        let mut s: usize = 0;
        while s < series.len()
            invariant
                ts == series_view(series@),
                s <= series.len(),
                best matches Some(b) ==> after(b, last) && in_union(ts, b),
                forall|s2: int, i: int|
                    0 <= s2 < s && 0 <= i < ts[s2].len() && after(#[trigger] ts[s2][i], last)
                        ==> at_most(best, ts[s2][i]),
            decreases series.len() - s,
        {
            let row = &series[s];
            assert(ts[s as int] == row@);
            let mut i: usize = 0;
            while i < row.len()
                invariant
                    ts == series_view(series@),
                    s < series.len(),
                    ts[s as int] == row@,
                    i <= row.len(),
                    best matches Some(b) ==> after(b, last) && in_union(ts, b),
                    forall|s2: int, i2: int|
                        0 <= s2 < s && 0 <= i2 < ts[s2].len() && after(
                            #[trigger] ts[s2][i2],
                            last,
                        ) ==> at_most(best, ts[s2][i2]),
                    forall|i2: int|
                        0 <= i2 < i && after(#[trigger] ts[s as int][i2], last) ==> at_most(best, ts[s as int][i2]),
                decreases row.len() - i,
            {
                let x = row[i];
                let above = match last {
                    None => true,
                    Some(l) => x > l,
                };
                if above {
                    let better = match best {
                        None => true,
                        Some(b) => x < b,
                    };
                    if better {
                        best = Some(x);
                        assert(in_union(ts, x)) by {
                            assert(ts[s as int][i as int] == x);
                        }
                    }
                }
                i = i + 1;
            }
            s = s + 1;
        }
        match best {
            None => {
                assert forall|s2: int, i: int|
                    0 <= s2 < ts.len() && 0 <= i < ts[s2].len() implies tl@.contains(
                        #[trigger] ts[s2][i],
                    ) by {
                    assert(!after(ts[s2][i], last));
                }
                return tl;
            },
            Some(b) => {
                let ghost old_tl = tl@;
                let ghost old_last = last;
                tl.push(b);
                last = Some(b);
                assert forall|s2: int, i: int|
                    0 <= s2 < ts.len() && 0 <= i < ts[s2].len() && !after(
                        #[trigger] ts[s2][i],
                        last,
                    ) implies tl@.contains(ts[s2][i]) by {
                    if after(ts[s2][i], old_last) {
                        assert(b <= ts[s2][i]);
                        assert(tl@[tl@.len() - 1] == ts[s2][i]);
                    } else {
                        let k = choose|k: int| 0 <= k < old_tl.len() && old_tl[k] == ts[s2][i];
                        assert(tl@[k] == ts[s2][i]);
                    }
                }
                assert forall|k: int| 0 <= k < tl@.len() implies in_union(ts, #[trigger] tl@[k]) by {
                    if k < old_tl.len() {
                        assert(tl@[k] == old_tl[k]);
                    }
                }
            },
        }
    }
}


/// One symbol folding one of its bars.
#[derive(Clone, Copy, Debug, PartialEq, Eq, Structural)]
pub struct Fold {
    /// The symbol's position in the universe.
    pub symbol: usize,
    /// The position of the bar in that symbol's series.
    pub bar: usize,
}

/// One timestamp of a lockstep walk, and the symbols that fold a bar at it.
#[derive(Debug)]
pub struct Step {
    /// The timestamp.
    pub time: i64,
    /// The folds at this timestamp, in universe order.
    pub folds: Vec<Fold>,
}

/// Whether symbol `s`, at cursor `c[s]`, folds a bar at timestamp `t`.
pub open spec fn fires(ts: Seq<Seq<i64>>, c: Seq<int>, t: i64, s: int) -> bool {
    0 <= c[s] < ts[s].len() && ts[s][c[s]] == t
}

/// The cursors after the symbols whose next bar is at `t` fold it.
pub open spec fn advance(ts: Seq<Seq<i64>>, c: Seq<int>, t: i64) -> Seq<int> {
    Seq::new(c.len(), |s: int| if fires(ts, c, t, s) { c[s] + 1 } else { c[s] })
}

/// The folds at timestamp `t` of the first `m` symbols, in universe order.
pub open spec fn folds_at(ts: Seq<Seq<i64>>, c: Seq<int>, t: i64, m: int) -> Seq<Fold>
    decreases m,
{
    if m <= 0 {
        seq![]
    } else {
        let before = folds_at(ts, c, t, m - 1);
        if fires(ts, c, t, m - 1) {
            before.push(Fold { symbol: (m - 1) as usize, bar: c[m - 1] as usize })
        } else {
            before
        }
    }
}

/// Every symbol's cursor after walking the first `k` timestamps of `tl`.
pub open spec fn cursors_at(ts: Seq<Seq<i64>>, tl: Seq<i64>, k: int) -> Seq<int>
    decreases k,
{
    if k <= 0 {
        Seq::new(ts.len(), |s: int| 0)
    } else {
        advance(ts, cursors_at(ts, tl, k - 1), tl[k - 1])
    }
}

proof fn lemma_cursors_len(ts: Seq<Seq<i64>>, tl: Seq<i64>, k: int)
    ensures
        cursors_at(ts, tl, k).len() == ts.len(),
    decreases k,
{
    if k > 0 {
        lemma_cursors_len(ts, tl, k - 1);
    }
}

/// The timestamps of a walk.
pub open spec fn step_times(steps: Seq<Step>) -> Seq<i64> {
    steps.map_values(|s: Step| s.time)
}

/// Whether `steps` is the lockstep walk of the universe `ts`.
pub open spec fn is_walk(ts: Seq<Seq<i64>>, steps: Seq<Step>) -> bool {
    let tl = step_times(steps);
    &&& is_timeline(ts, tl)
    &&& forall|k: int|
        0 <= k < steps.len() ==> (#[trigger] steps[k]).folds@ == folds_at(
            ts,
            cursors_at(ts, tl, k),
            tl[k],
            ts.len() as int,
        )
}

/// Walk the universe one timestamp at a time: at each timestamp of the union,
/// the symbols whose next bar carries it fold that bar; the others wait.
pub fn lockstep(series: &Vec<Vec<i64>>) -> (steps: Vec<Step>)
    ensures
        is_walk(series_view(series@), steps@),
{
    let ghost ts = series_view(series@);
    let tl = timeline(series);
    let n = series.len();
    let mut cursors: Vec<usize> = Vec::new();
    let mut s: usize = 0;
    while s < n
        invariant
            s <= n,
            n == series.len(),
            cursors@.len() == s,
            forall|j: int| 0 <= j < s ==> cursors@[j] == 0,
        decreases n - s,
    {
        cursors.push(0);
        s = s + 1;
    }
    let mut steps: Vec<Step> = Vec::new();
    let mut k: usize = 0;
    while k < tl.len()
        invariant
            ts == series_view(series@),
            n == series.len(),
            n == ts.len(),
            is_timeline(ts, tl@),
            k <= tl.len(),
            steps@.len() == k,
            cursors@.len() == n,
            forall|j: int| 0 <= j < n ==> cursors@[j] as int == #[trigger] cursors_at(ts, tl@, k as int)[j],
            forall|j: int| 0 <= j < n ==> cursors@[j] <= ts[j].len(),
            forall|j: int| 0 <= j < k ==> (#[trigger] steps@[j]).time == tl@[j],
            forall|j: int|
                0 <= j < k ==> (#[trigger] steps@[j]).folds@ == folds_at(
                    ts,
                    cursors_at(ts, tl@, j),
                    tl@[j],
                    n as int,
                ),
        decreases tl.len() - k,
    {
        let t = tl[k];
        let ghost c = cursors_at(ts, tl@, k as int);
        proof {
            lemma_cursors_len(ts, tl@, k as int);
            lemma_cursors_len(ts, tl@, k as int + 1);
        }
        let mut folds: Vec<Fold> = Vec::new();
        let mut s: usize = 0;
        while s < n
            invariant
                ts == series_view(series@),
                n == series.len(),
                n == ts.len(),
                s <= n,
                c.len() == n,
                cursors@.len() == n,
                forall|j: int| s <= j < n ==> cursors@[j] as int == c[j],
                forall|j: int| 0 <= j < s ==> cursors@[j] as int == advance(ts, c, t)[j],
                forall|j: int| 0 <= j < n ==> cursors@[j] <= ts[j].len(),
                forall|j: int| 0 <= j < n ==> c[j] <= ts[j].len(),
                folds@ == folds_at(ts, c, t, s as int),
            decreases n - s,
        {
            let row = &series[s];
            assert(ts[s as int] == row@);
            let at = cursors[s];
            if at < row.len() && row[at] == t {
                folds.push(Fold { symbol: s, bar: at });
                cursors.set(s, at + 1);
            }
            assert(folds@ =~= folds_at(ts, c, t, s as int + 1));
            s = s + 1;
        }
        proof {
            assert(cursors_at(ts, tl@, k as int + 1) == advance(ts, c, t));
        }
        steps.push(Step { time: t, folds });
        k = k + 1;
    }
    assert(step_times(steps@) =~= tl@);
    steps
}

/// Where every cursor stands once the first `k` timestamps are walked, for a
/// universe whose series are strictly increasing: each symbol has folded
/// exactly its bars at or before `tl[k - 1]`.
proof fn lemma_cursor_cut(ts: Seq<Seq<i64>>, tl: Seq<i64>, k: int)
    requires
        is_timeline(ts, tl),
        forall|s: int| 0 <= s < ts.len() ==> strictly_increasing(#[trigger] ts[s]),
        0 <= k <= tl.len(),
    ensures
        cursors_at(ts, tl, k).len() == ts.len(),
        forall|s: int|
            0 <= s < ts.len() ==> 0 <= #[trigger] cursors_at(ts, tl, k)[s] <= ts[s].len(),
        forall|s: int, i: int|
            0 <= s < ts.len() && 0 <= i < cursors_at(ts, tl, k)[s] && k > 0 ==> #[trigger] ts[s][i]
                <= tl[k - 1],
        forall|s: int, i: int|
            0 <= s < ts.len() && cursors_at(ts, tl, k)[s] <= i < ts[s].len() && k > 0
                ==> #[trigger] ts[s][i] > tl[k - 1],
    decreases k,
{
    if k > 0 {
        lemma_cursor_cut(ts, tl, k - 1);
        let c = cursors_at(ts, tl, k - 1);
        let t = tl[k - 1];
        let c2 = cursors_at(ts, tl, k);
        assert(c2 == advance(ts, c, t));
        assert forall|s: int, i: int|
            0 <= s < ts.len() && 0 <= i < c2[s] implies #[trigger] ts[s][i] <= t by {
            if i < c[s] && k > 1 {
                assert(tl[k - 2] < tl[k - 1]);
            }
            if i < c[s] && k == 1 {
                assert(c[s] == 0);
            }
        }
        assert forall|s: int, i: int|
            0 <= s < ts.len() && c2[s] <= i < ts[s].len() implies #[trigger] ts[s][i] > t by {
            let cs = c[s];
            // The next bar of `s` is a timestamp of the timeline after tl[k - 2].
            assert(tl.contains(ts[s][cs]));
            let j = choose|j: int| 0 <= j < tl.len() && tl[j] == ts[s][cs];
            if fires(ts, c, t, s) {
                assert(ts[s][cs] < ts[s][i]);
            } else {
                if k > 1 {
                    assert(ts[s][cs] > tl[k - 2]);
                    if j <= k - 2 {
                        if j < k - 2 {
                            assert(tl[j] < tl[k - 2]);
                        }
                    }
                }
                assert(j != k - 1);
                if j < k - 1 {
                    assert(tl[j] < tl[k - 1]);
                    assert(false);
                }
                assert(tl[j] > tl[k - 1]);
                if i > cs {
                    assert(ts[s][cs] < ts[s][i]);
                }
            }
        }
    }
}

/// A lockstep walk of a universe whose series are strictly increasing folds
/// every bar of every symbol: once the whole timeline is walked, each symbol's
/// cursor stands past its last bar. Since each fold takes the symbol's next bar
/// at its cursor, every symbol sees exactly its own history, in order — the
/// same bars a symbol-by-symbol fold would feed it.
pub proof fn lemma_lockstep_folds_every_bar(ts: Seq<Seq<i64>>, tl: Seq<i64>)
    requires
        is_timeline(ts, tl),
        forall|s: int| 0 <= s < ts.len() ==> strictly_increasing(#[trigger] ts[s]),
    ensures
        forall|s: int|
            0 <= s < ts.len() ==> #[trigger] cursors_at(ts, tl, tl.len() as int)[s] == ts[s].len(),
{
    let k = tl.len() as int;
    lemma_cursor_cut(ts, tl, k);
    let c = cursors_at(ts, tl, k);
    assert forall|s: int| 0 <= s < ts.len() implies #[trigger] c[s] == ts[s].len() by {
        if c[s] < ts[s].len() {
            let x = ts[s][c[s]];
            assert(tl.contains(x));
            let j = choose|j: int| 0 <= j < tl.len() && tl[j] == x;
            if k > 0 {
                assert(x > tl[k - 1]);
                if j < k - 1 {
                    assert(tl[j] < tl[k - 1]);
                }
            }
        }
    }
}

/// The bars symbol `s` folds among `folds`, in order.
pub open spec fn bars_of(folds: Seq<Fold>, s: int) -> Seq<usize>
    decreases folds.len(),
{
    if folds.len() == 0 {
        seq![]
    } else {
        let rest = bars_of(folds.drop_last(), s);
        if folds.last().symbol as int == s {
            rest.push(folds.last().bar)
        } else {
            rest
        }
    }
}

/// The bars symbol `s` folds along a walk, step after step.
pub open spec fn walk_bars(steps: Seq<Step>, s: int) -> Seq<usize>
    decreases steps.len(),
{
    if steps.len() == 0 {
        seq![]
    } else {
        walk_bars(steps.drop_last(), s) + bars_of(steps.last().folds@, s)
    }
}

/// The bars `0, 1, ..., n - 1` of a series of `n` bars, in order.
pub open spec fn bars_upto(n: int) -> Seq<usize> {
    Seq::new(if n > 0 { n as nat } else { 0 }, |i: int| i as usize)
}

/// At one timestamp a symbol folds at most one bar: its next one, if it fires.
proof fn lemma_bars_at(ts: Seq<Seq<i64>>, c: Seq<int>, t: i64, m: int, s: int)
    requires
        0 <= m <= usize::MAX + 1,
    ensures
        bars_of(folds_at(ts, c, t, m), s) == if 0 <= s < m && fires(ts, c, t, s) {
            seq![c[s] as usize]
        } else {
            Seq::<usize>::empty()
        },
    decreases m,
{
    if m > 0 {
        lemma_bars_at(ts, c, t, m - 1, s);
        let before = folds_at(ts, c, t, m - 1);
        if fires(ts, c, t, m - 1) {
            let f = Fold { symbol: (m - 1) as usize, bar: c[m - 1] as usize };
            assert(before.push(f).drop_last() =~= before);
        }
    }
}

proof fn lemma_walk_bars_prefix(ts: Seq<Seq<i64>>, steps: Seq<Step>, k: int, s: int)
    requires
        is_walk(ts, steps),
        forall|r: int| 0 <= r < ts.len() ==> strictly_increasing(#[trigger] ts[r]),
        0 <= k <= steps.len(),
        0 <= s < ts.len(),
        ts.len() <= usize::MAX,
        ts[s].len() <= usize::MAX,
    ensures
        walk_bars(steps.take(k), s) == bars_upto(cursors_at(ts, step_times(steps), k)[s]),
    decreases k,
{
    let tl = step_times(steps);
    lemma_cursor_cut(ts, tl, k);
    if k == 0 {
        assert(steps.take(0) =~= Seq::<Step>::empty());
        assert(bars_upto(0) =~= Seq::<usize>::empty());
    } else {
        lemma_walk_bars_prefix(ts, steps, k - 1, s);
        lemma_cursor_cut(ts, tl, k - 1);
        let c = cursors_at(ts, tl, k - 1);
        assert(steps.take(k).drop_last() =~= steps.take(k - 1));
        assert(steps.take(k).last() == steps[k - 1]);
        assert(steps[k - 1].folds@ == folds_at(ts, c, tl[k - 1], ts.len() as int));
        lemma_bars_at(ts, c, tl[k - 1], ts.len() as int, s);
        let before = bars_upto(c[s]);
        if fires(ts, c, tl[k - 1], s) {
            assert(before.push(c[s] as usize) =~= bars_upto(c[s] + 1));
            assert(before + seq![c[s] as usize] =~= before.push(c[s] as usize));
        } else {
            assert(before + Seq::<usize>::empty() =~= before);
        }
    }
}

/// A lockstep walk of a universe whose series are strictly increasing folds
/// each symbol's own bars exactly once each and in order: along the whole
/// walk, symbol `s` folds bars `0, 1, ..., n - 1` of its `n` bars, exactly
/// the bars a symbol-by-symbol fold feeds it.
pub proof fn lemma_lockstep_folds_each_bar_once_in_order(ts: Seq<Seq<i64>>, steps: Seq<Step>, s: int)
    requires
        is_walk(ts, steps),
        forall|r: int| 0 <= r < ts.len() ==> strictly_increasing(#[trigger] ts[r]),
        0 <= s < ts.len(),
        ts.len() <= usize::MAX,
        ts[s].len() <= usize::MAX,
    ensures
        walk_bars(steps, s) == bars_upto(ts[s].len() as int),
{
    lemma_walk_bars_prefix(ts, steps, steps.len() as int, s);
    assert(steps.take(steps.len() as int) =~= steps);
    let tl = step_times(steps);
    lemma_lockstep_folds_every_bar(ts, tl);
    assert(tl.len() == steps.len());
}

} // verus!
