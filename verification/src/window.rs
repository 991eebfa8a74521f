//! The bounded window of recent bars a symbol keeps: exactly as deep as the
//! spec reaches, most recent bar first.

use crate::expr::{lookback_of, Expr};
use crate::num::{is_nan, less, lt, nan, Num, INF_BITS};
use crate::spec::{occurs, occurs_in, operand, Condition, ScanSpec};
use std::collections::VecDeque;
use vstd::prelude::*;

verus! {

/// The most recent bars, newest first, never more than `depth` of them.
pub struct Window<T> {
    bars: VecDeque<T>,
    depth: usize,
}

/// The bars a window of depth `depth` holds after `pushed` were pushed into an
/// empty one, oldest first: the last `depth` of them, newest first.
pub open spec fn kept_bars<T>(pushed: Seq<T>, depth: nat) -> Seq<T> {
    let n = if pushed.len() < depth {
        pushed.len()
    } else {
        depth
    };
    Seq::new(n, |i: int| pushed[pushed.len() - 1 - i])
}

/// The bars a window of depth `depth` holding `bars` holds once `bar` is
/// pushed: `bar` first, then as many of the older ones as still fit.
pub open spec fn after_push<T>(bars: Seq<T>, bar: T, depth: nat) -> Seq<T> {
    let all = seq![bar] + bars;
    if all.len() <= depth {
        all
    } else {
        all.take(depth as int)
    }
}

/// The greater of two naturals.
pub open spec fn max_nat(a: nat, b: nat) -> nat {
    if a >= b {
        a
    } else {
        b
    }
}

/// `n`, or `usize::MAX` when it does not fit.
pub open spec fn capped(n: nat) -> usize {
    if n <= usize::MAX {
        n as usize
    } else {
        usize::MAX
    }
}

/// How many bars back a condition reads: the deepest lookback of its
/// expressions, a trend reaching its own bars further.
pub open spec fn condition_reach(c: Condition) -> nat
    decreases c,
{
    match c {
        Condition::Cmp { left, right, .. } => max_nat(lookback_of(left), lookback_of(right)),
        Condition::CrossSection { expr, .. } => lookback_of(expr),
        Condition::Breadth { inner, .. } => condition_reach(*inner),
        Condition::Between { value, low, high } => max_nat(
            lookback_of(value),
            max_nat(lookback_of(low), lookback_of(high)),
        ),
        Condition::Rising { expr, bars } | Condition::Falling { expr, bars } => bars as nat
            + lookback_of(expr),
        Condition::All { conditions } | Condition::Any { conditions } => conditions_reach(
            conditions@,
        ),
        Condition::Not { condition } => condition_reach(*condition),
    }
}

/// The deepest reach among a sequence of conditions.
pub open spec fn conditions_reach(cs: Seq<Condition>) -> nat
    decreases cs,
{
    if cs.len() == 0 {
        0
    } else {
        max_nat(condition_reach(cs[0]), conditions_reach(cs.drop_first()))
    }
}

/// How many bars back a spec reads: its condition's reach and its ranking
/// expression's lookback.
pub open spec fn spec_reach(s: ScanSpec) -> nat {
    max_nat(
        condition_reach(s.condition),
        match s.rank {
            Some(r) => lookback_of(r.by),
            None => 0,
        },
    )
}

/// The depth of the window a symbol keeps for a spec: the current bar plus
/// everything the spec looks back over, and at least the bar before, which a
/// crossover reads.
pub open spec fn depth_for(s: ScanSpec) -> usize {
    capped(1 + max_nat(spec_reach(s), 1))
}

/// A condition reaches at least as far back as every expression a test
/// anywhere in its tree compares, and a trend at least its own bars further.
pub proof fn lemma_reach_covers_the_tree(c: Condition, d: Condition, e: Expr)
    requires
        occurs(c, d),
    ensures
        operand(d, e) ==> lookback_of(e) <= condition_reach(c),
        match d {
            Condition::Rising { expr, bars } | Condition::Falling { expr, bars } => bars as nat
                + lookback_of(expr) <= condition_reach(c),
            _ => true,
        },
    decreases c,
{
    if c != d {
        match c {
            Condition::Breadth { inner, .. } => {
                lemma_reach_covers_the_tree(*inner, d, e);
            },
            Condition::Not { condition } => {
                lemma_reach_covers_the_tree(*condition, d, e);
            },
            Condition::All { conditions } | Condition::Any { conditions } => {
                lemma_reach_covers_all(conditions@, d, e);
            },
            _ => {},
        }
    }
}

proof fn lemma_reach_covers_all(cs: Seq<Condition>, d: Condition, e: Expr)
    requires
        occurs_in(cs, d),
    ensures
        operand(d, e) ==> lookback_of(e) <= conditions_reach(cs),
        match d {
            Condition::Rising { expr, bars } | Condition::Falling { expr, bars } => bars as nat
                + lookback_of(expr) <= conditions_reach(cs),
            _ => true,
        },
    decreases cs,
{
    if occurs(cs[0], d) {
        lemma_reach_covers_the_tree(cs[0], d, e);
    } else {
        lemma_reach_covers_all(cs.drop_first(), d, e);
    }
}

/// A spec's window holds every bar the spec reads: its reach is at least the
/// lookback of every expression it compares anywhere in its condition tree
/// (and of its ranking expression), and of every trend's bars on top of its
/// expression's lookback; the window keeps the current bar and that many
/// before it (until the depth saturates at the largest `usize`).
pub proof fn lemma_window_holds_every_read(s: ScanSpec, d: Condition, e: Expr)
    requires
        occurs(s.condition, d) && operand(d, e) || (s.rank matches Some(r) && r.by == e),
    ensures
        lookback_of(e) <= spec_reach(s),
        lookback_of(e) < usize::MAX ==> lookback_of(e) + 1 <= depth_for(s),
        occurs(s.condition, d) ==> match d {
            Condition::Rising { expr, bars } | Condition::Falling { expr, bars } => bars as nat
                + lookback_of(expr) <= spec_reach(s) && (bars as nat + lookback_of(expr)
                < usize::MAX ==> bars as nat + lookback_of(expr) + 1 <= depth_for(s)),
            _ => true,
        },
{
    if occurs(s.condition, d) {
        lemma_reach_covers_the_tree(s.condition, d, e);
    }
}

/// The lookback of an expression, saturating at `usize::MAX`.
fn expr_reach(e: &Expr) -> (r: usize)
    ensures
        r == capped(lookback_of(*e)),
    decreases e,
{
    match e {
        Expr::Const { .. } | Expr::Price { .. } | Expr::Indicator { .. } => 0,
        Expr::Prev { of, bars } => (*bars as usize).saturating_add(expr_reach(&**of)),
        Expr::Add { left, right }
        | Expr::Sub { left, right }
        | Expr::Mul { left, right }
        | Expr::Div { left, right } => {
            let l = expr_reach(&**left);
            let r = expr_reach(&**right);
            if l >= r {
                l
            } else {
                r
            }
        },
    }
}

fn conditions_reach_of(cs: &Vec<Condition>) -> (r: usize)
    ensures
        r == capped(conditions_reach(cs@)),
    decreases cs@,
{
    let ghost n = cs@.len() as int;
    let mut i: usize = cs.len();
    let mut best: usize = 0;
    while i > 0
        invariant
            i <= cs.len(),
            n == cs@.len(),
            best == capped(conditions_reach(cs@.subrange(i as int, n))),
        decreases i,
    {
        proof {
            let rest = cs@.subrange(i - 1, n);
            assert(rest.drop_first() =~= cs@.subrange(i as int, n));
            assert(rest[0] == cs@[i - 1]);
            assert(decreases_to!(cs@ => cs@[i - 1]));
        }
        let here = condition_reach_of(&cs[i - 1]);
        if here > best {
            best = here;
        }
        i = i - 1;
    }
    assert(cs@.subrange(0, n) =~= cs@);
    best
}

/// How many bars back a condition reads, saturating at `usize::MAX`.
fn condition_reach_of(c: &Condition) -> (r: usize)
    ensures
        r == capped(condition_reach(*c)),
    decreases c,
{
    match c {
        Condition::Cmp { left, right, .. } => {
            let l = expr_reach(left);
            let r = expr_reach(right);
            if l >= r {
                l
            } else {
                r
            }
        },
        Condition::CrossSection { expr, .. } => expr_reach(expr),
        Condition::Breadth { inner, .. } => condition_reach_of(&**inner),
        Condition::Between { value, low, high } => {
            let v = expr_reach(value);
            let l = expr_reach(low);
            let h = expr_reach(high);
            let lh = if l >= h {
                l
            } else {
                h
            };
            if v >= lh {
                v
            } else {
                lh
            }
        },
        Condition::Rising { expr, bars } | Condition::Falling { expr, bars } => {
            (*bars as usize).saturating_add(expr_reach(expr))
        },
        Condition::All { conditions } | Condition::Any { conditions } => {
            proof {
                assert(decreases_to!(*c => conditions@));
            }
            conditions_reach_of(conditions)
        },
        Condition::Not { condition } => condition_reach_of(&**condition),
    }
}

impl ScanSpec {
    /// How many bars back the spec reads, saturating at `usize::MAX`.
    pub fn lookback(&self) -> (r: usize)
        ensures
            r == capped(spec_reach(*self)),
    {
        let c = condition_reach_of(&self.condition);
        let k = match &self.rank {
            Some(rank) => expr_reach(&rank.by),
            None => 0,
        };
        if c >= k {
            c
        } else {
            k
        }
    }

    /// The depth of the window each symbol keeps for this spec: the current
    /// bar plus the deepest lookback, and at least the bar before.
    pub fn window_depth(&self) -> (d: usize)
        ensures
            d == depth_for(*self),
            d >= 2,
    {
        let reach = self.lookback();
        let floor = if reach >= 1 {
            reach
        } else {
            1
        };
        floor.saturating_add(1)
    }
}

impl<T> Window<T> {
    /// The bars held, newest first.
    pub closed spec fn view(&self) -> Seq<T> {
        self.bars@
    }

    /// How many bars the window keeps at most.
    pub closed spec fn capacity(&self) -> nat {
        self.depth as nat
    }

    /// A window never holds more bars than its depth.
    #[verifier::type_invariant]
    spec fn well_formed(&self) -> bool {
        self.bars@.len() <= self.depth
    }

    /// An empty window keeping at most `depth` bars.
    pub fn new(depth: usize) -> (w: Window<T>)
        ensures
            w.view() == Seq::<T>::empty(),
            w.capacity() == depth,
    {
        Window { bars: VecDeque::new(), depth }
    }

    /// Push the newest bar, dropping the oldest when the window is full.
    pub fn push(&mut self, bar: T)
        ensures
            final(self).view().len() <= final(self).capacity(),
            final(self).capacity() == old(self).capacity(),
            final(self).view() == after_push(old(self).view(), bar, old(self).capacity()),
    {
        proof {
            use_type_invariant(&*self);
        }
        let mut bars = VecDeque::new();
        std::mem::swap(&mut bars, &mut self.bars);
        bars.push_front(bar);
        if bars.len() > self.depth {
            let _ = bars.pop_back();
        }
        proof {
            let s = seq![bar] + old(self).view();
            if s.len() > old(self).capacity() {
                assert(bars@ =~= s.take(old(self).capacity() as int));
            }
        }
        self.bars = bars;
    }

    /// The bar `back` bars before the newest (`0` is the newest), if the
    /// window still holds it.
    pub fn get(&self, back: usize) -> (r: Option<&T>)
        ensures
            r == (if back < self.view().len() {
                Some(&self.view()[back as int])
            } else {
                None
            }),
    {
        if back < self.bars.len() {
            Some(&self.bars[back])
        } else {
            None
        }
    }

    /// How many bars are held.
    pub fn len(&self) -> (n: usize)
        ensures
            n == self.view().len(),
    {
        self.bars.len()
    }
}

/// Pushing bars one by one keeps the last `depth` of them, newest first: the
/// bar read `back` bars before the newest is the one pushed `back` pushes
/// before it, and a window never reads further back than its depth.
pub proof fn lemma_window_keeps_the_last<T>(pushed: Seq<T>, bar: T, depth: nat)
    requires
        depth >= 1,
    ensures
        after_push(kept_bars(pushed, depth), bar, depth) == kept_bars(pushed.push(bar), depth),
{
    let before = kept_bars(pushed, depth);
    let after = kept_bars(pushed.push(bar), depth);
    let lhs = after_push(before, bar, depth);
    assert(lhs.len() == after.len());
    assert forall|i: int| 0 <= i < lhs.len() implies lhs[i] == after[i] by {
        if i > 0 {
            assert(lhs[i] == before[i - 1]);
            assert(pushed.push(bar)[pushed.len() - i] == pushed[pushed.len() - 1 - (i - 1)]);
        }
    }
    assert(lhs =~= after);
}

/// The bit pattern of negative infinity.
pub const NEG_INF_BITS: u64 = 0xFFF0_0000_0000_0000;

/// Whether `high` is a new high against the earlier highs: there are some,
/// and `high` lies above every one of them that is a number (a double's
/// maximum skips NaN, and starts from negative infinity).
pub open spec fn new_high(highs: Seq<Num>, high: Num) -> bool {
    &&& highs.len() > 0
    &&& lt(NEG_INF_BITS, high.bits)
    &&& forall|i: int| 0 <= i < highs.len() && !is_nan(highs[i].bits) ==> lt(highs[i].bits, high.bits)
}

/// Whether `low` is a new low against the earlier lows, dually.
pub open spec fn new_low(lows: Seq<Num>, low: Num) -> bool {
    &&& lows.len() > 0
    &&& lt(low.bits, INF_BITS)
    &&& forall|i: int| 0 <= i < lows.len() && !is_nan(lows[i].bits) ==> lt(low.bits, lows[i].bits)
}

/// Whether every number in the window lies strictly below `x` (`below`), or
/// strictly above it.
fn all_beyond(w: &Window<Num>, x: Num, below: bool) -> (r: bool)
    ensures
        r == forall|i: int|
            0 <= i < w.view().len() && !is_nan(w.view()[i].bits) ==> if below {
                lt(w.view()[i].bits, x.bits)
            } else {
                lt(x.bits, w.view()[i].bits)
            },
{
    let n = w.len();
    let mut i: usize = 0;
    while i < n
        invariant
            n == w.view().len(),
            i <= n,
            forall|j: int|
                0 <= j < i && !is_nan(w.view()[j].bits) ==> if below {
                    lt(w.view()[j].bits, x.bits)
                } else {
                    lt(x.bits, w.view()[j].bits)
                },
        decreases n - i,
    {
        match w.get(i) {
            Some(v) => {
                let ok = if below {
                    less(v.bits, x.bits)
                } else {
                    less(x.bits, v.bits)
                };
                if !nan(v.bits) && !ok {
                    return false;
                }
            },
            None => {},
        }
        i = i + 1;
    }
    true
}

/// The highs and lows of the last `period` bars a symbol printed, against
/// which each new bar's high and low are read as new extremes.
pub struct Extremes {
    highs: Window<Num>,
    lows: Window<Num>,
}

impl Extremes {
    /// The highs held, newest first.
    pub closed spec fn highs(&self) -> Seq<Num> {
        self.highs.view()
    }

    /// The lows held, newest first.
    pub closed spec fn lows(&self) -> Seq<Num> {
        self.lows.view()
    }

    /// How many bars back the extremes reach.
    pub closed spec fn period(&self) -> nat {
        self.highs.capacity()
    }

    /// The highs and the lows reach equally far back.
    #[verifier::type_invariant]
    spec fn same_reach(&self) -> bool {
        self.highs.capacity() == self.lows.capacity()
    }

    /// No bar yet, over `period` bars.
    pub fn new(period: usize) -> (x: Extremes)
        ensures
            x.highs() == Seq::<Num>::empty(),
            x.lows() == Seq::<Num>::empty(),
            x.period() == period,
    {
        Extremes { highs: Window::new(period), lows: Window::new(period) }
    }

    /// Read one bar's high and low against the earlier window, then add them:
    /// whether the high is a new high and the low a new low. The first bar is
    /// neither, and a bar older than the period no longer counts.
    pub fn update(&mut self, high: Num, low: Num) -> (r: (bool, bool))
        ensures
            r.0 == new_high(old(self).highs(), high),
            r.1 == new_low(old(self).lows(), low),
            final(self).period() == old(self).period(),
            final(self).highs() == after_push(old(self).highs(), high, old(self).period()),
            final(self).lows() == after_push(old(self).lows(), low, old(self).period()),
    {
        proof {
            use_type_invariant(&*self);
        }
        let mut taken = Extremes { highs: Window::new(0), lows: Window::new(0) };
        std::mem::swap(&mut taken, self);
        let Extremes { mut highs, mut lows } = taken;
        let is_high = highs.len() > 0 && less(NEG_INF_BITS, high.bits) && all_beyond(
            &highs,
            high,
            true,
        );
        let is_low = lows.len() > 0 && less(low.bits, INF_BITS) && all_beyond(&lows, low, false);
        highs.push(high);
        lows.push(low);
        *self = Extremes { highs, lows };
        (is_high, is_low)
    }
}

} // verus!
