//! The scan specification: comparators, the condition tree, ranking and the
//! top-level [`ScanSpec`], with its structural validation and the feeds its
//! indicators need.

use crate::error::Error;
use crate::expr::{derefs, lemma_nodes_start_with_self, lookback_of, nodes, Expr};
use crate::feeds::{feed_kind, feed_kind_of, supplies, Available, FeedKind};
use crate::num::{is_finite, less, scaled, Num};
use crate::text::{push_str, string_of};
use vstd::prelude::*;

verus! {

broadcast use vstd::std_specs::vec::group_vec_axioms;

/// How two scalar values are compared.
#[derive(Clone, Copy, Debug, PartialEq, Eq, Structural)]
pub enum Comparator {
    /// `left > right`.
    Gt,
    /// `left >= right`.
    Ge,
    /// `left < right`.
    Lt,
    /// `left <= right`.
    Le,
    /// `left ~= right` (relative tolerance).
    Eq,
    /// `left !~= right` (relative tolerance), the negation of `Eq`.
    Ne,
    /// `left` crosses above `right` this bar.
    CrossesAbove,
    /// `left` crosses below `right` this bar.
    CrossesBelow,
}

/// A cross-section reduction over the ready universe.
#[derive(Clone, Copy, Debug, PartialEq, Eq, Structural)]
pub enum CsMetric {
    /// 1-based rank of the value (highest = rank 1).
    Rank,
    /// Fraction of symbols with a strictly smaller value, in `[0, 1]`.
    PercentileRank,
    /// Population z-score of the value across the universe.
    ZScore,
}

/// A boolean condition over a symbol, evaluated at the latest bar.
#[derive(Debug)]
pub enum Condition {
    /// Compare two expressions.
    Cmp {
        /// Left-hand expression.
        left: Expr,
        /// Comparison operator.
        op: Comparator,
        /// Right-hand expression.
        right: Expr,
    },
    /// Compare a symbol's cross-section metric against a constant.
    CrossSection {
        /// Expression reduced across the universe.
        expr: Expr,
        /// Which cross-section metric.
        metric: CsMetric,
        /// Comparison operator.
        op: Comparator,
        /// Threshold value.
        value: Num,
    },
    /// A universe-wide gate: the fraction of ready symbols for which `inner`
    /// holds, compared against `ratio`. Passes for every symbol or none.
    Breadth {
        /// Inner condition (must not itself contain a breadth).
        inner: Box<Condition>,
        /// Comparison operator.
        op: Comparator,
        /// Threshold ratio in `[0, 1]`.
        ratio: Num,
    },
    /// `low <= value <= high`.
    Between {
        /// The value tested.
        value: Expr,
        /// The inclusive lower bound.
        low: Expr,
        /// The inclusive upper bound.
        high: Expr,
    },
    /// The expression is above its own value `bars` bars ago.
    Rising {
        /// The expression.
        expr: Expr,
        /// How far back to compare; at least 1.
        bars: u32,
    },
    /// The expression is below its own value `bars` bars ago.
    Falling {
        /// The expression.
        expr: Expr,
        /// How far back to compare; at least 1.
        bars: u32,
    },
    /// All sub-conditions must hold.
    All {
        /// Sub-conditions.
        conditions: Vec<Condition>,
    },
    /// Any sub-condition must hold.
    Any {
        /// Sub-conditions.
        conditions: Vec<Condition>,
    },
    /// The negation of a condition.
    Not {
        /// The negated condition.
        condition: Box<Condition>,
    },
}

/// How matches are ranked and scored.
#[derive(Debug)]
pub struct RankSpec {
    /// Expression scored for ranking.
    pub by: Expr,
    /// Rank by descending score when true, ascending when false.
    pub desc: bool,
}

/// How the cross-section the screener builds for itself is parameterised.
#[derive(Clone, Copy, Debug, PartialEq, Eq, Structural)]
pub struct BreadthSpec {
    /// Lookback for new highs and lows, in bars. Defaults to 52.
    pub period: Option<usize>,
    /// Period of the moving average `above_ma` compares the close against.
    /// Defaults to 200.
    pub ma_period: Option<usize>,
    /// Point-and-figure box size, as a fraction of the symbol's first close.
    /// Defaults to 0.01.
    pub pnf_box: Option<Num>,
    /// Point-and-figure reversal in boxes. Defaults to 3.
    pub pnf_reversal: Option<usize>,
}

/// A complete scan specification.
#[derive(Debug)]
pub struct ScanSpec {
    /// The symbols scanned.
    pub universe: Vec<String>,
    /// Candle timeframe label (e.g. `"1h"`), echoed into the report.
    pub timeframe: Option<String>,
    /// A benchmark symbol from the universe whose close feeds the pairwise
    /// indicators of every other symbol, read at the same bar.
    pub reference: Option<String>,
    /// How the cross-section the screener assembles for itself is
    /// parameterised. Absent means the defaults.
    pub breadth: Option<BreadthSpec>,
    /// The condition tree evaluated at the latest bar.
    pub condition: Condition,
    /// Optional ranking of the matches.
    pub rank: Option<RankSpec>,
    /// Optional cap on the number of matches returned.
    pub limit: Option<usize>,
}

// --- breadth configuration --------------------------------------------------

/// Whether a number is a positive finite value.
pub open spec fn positive_finite(n: Num) -> bool {
    is_finite(n.bits) && scaled(n.bits) > 0
}

/// What is wrong with a breadth configuration, if anything.
pub open spec fn breadth_problem(b: BreadthSpec) -> Option<Seq<char>> {
    if b.period == Some(0usize) {
        Some("breadth period must be greater than 0"@)
    } else if b.ma_period == Some(0usize) {
        Some("breadth ma_period must be greater than 0"@)
    } else if b.pnf_box is Some && !positive_finite(b.pnf_box->0) {
        Some("breadth pnf_box must be a positive fraction of price"@)
    } else if b.pnf_reversal == Some(0usize) {
        Some("breadth pnf_reversal must be greater than 0"@)
    } else {
        None
    }
}

/// A refusal of the spec, with its message.
pub open spec fn bad_spec(r: Result<(), Error>, message: Option<Seq<char>>) -> bool {
    match message {
        None => r is Ok,
        Some(m) => r matches Err(Error::BadSpec(s)) && s@ == m,
    }
}

fn refuse(message: &str) -> (r: Result<(), Error>)
    ensures
        bad_spec(r, Some(message@)),
{
    Err(Error::BadSpec(string_of(message)))
}

/// Default lookback for new highs and lows: a year of weekly bars, the
/// convention the new-highs/new-lows family is quoted on.
pub const DEFAULT_PERIOD: usize = 52;

/// Default moving average for `above_ma`, the period the `% above MA` breadth
/// reading is conventionally quoted on.
pub const DEFAULT_MA_PERIOD: usize = 200;

/// Default point-and-figure box as a fraction of the symbol's first close:
/// the bit pattern of 0.01, one percent.
pub const DEFAULT_PNF_BOX_BITS: u64 = 0x3F84_7AE1_47AE_147B;

/// Default point-and-figure reversal, in boxes: the classic setting the
/// Bullish Percent Index is quoted on.
pub const DEFAULT_PNF_REVERSAL: usize = 3;

impl BreadthSpec {
    /// The lookback for new highs and lows.
    pub fn period(&self) -> (n: usize)
        ensures
            n == match self.period {
                Some(p) => p,
                None => DEFAULT_PERIOD,
            },
    {
        match self.period {
            Some(p) => p,
            None => DEFAULT_PERIOD,
        }
    }

    /// The moving-average period for `above_ma`.
    pub fn ma_period(&self) -> (n: usize)
        ensures
            n == match self.ma_period {
                Some(p) => p,
                None => DEFAULT_MA_PERIOD,
            },
    {
        match self.ma_period {
            Some(p) => p,
            None => DEFAULT_MA_PERIOD,
        }
    }

    /// The point-and-figure box, as a fraction of the first close.
    pub fn pnf_box(&self) -> (b: Num)
        ensures
            b == match self.pnf_box {
                Some(x) => x,
                None => Num { bits: DEFAULT_PNF_BOX_BITS },
            },
    {
        match self.pnf_box {
            Some(x) => x,
            None => Num { bits: DEFAULT_PNF_BOX_BITS },
        }
    }

    /// The point-and-figure reversal, in boxes.
    pub fn pnf_reversal(&self) -> (n: usize)
        ensures
            n == match self.pnf_reversal {
                Some(r) => r,
                None => DEFAULT_PNF_REVERSAL,
            },
    {
        match self.pnf_reversal {
            Some(r) => r,
            None => DEFAULT_PNF_REVERSAL,
        }
    }

    /// Reject a nonsensical configuration up front rather than at the first
    /// bar.
    pub fn validate(&self) -> (r: Result<(), Error>)
        ensures
            bad_spec(r, breadth_problem(*self)),
    {
        if self.period == Some(0usize) {
            return refuse("breadth period must be greater than 0");
        }
        if self.ma_period == Some(0usize) {
            return refuse("breadth ma_period must be greater than 0");
        }
        match self.pnf_box {
            Some(b) => {
                let zero = Num { bits: 0 };
                if !(crate::num::finite(b.bits) && less(zero.bits, b.bits)) {
                    return refuse("breadth pnf_box must be a positive fraction of price");
                }
            },
            None => {},
        }
        if self.pnf_reversal == Some(0usize) {
            return refuse("breadth pnf_reversal must be greater than 0");
        }
        Ok(())
    }
}

// --- the condition tree ------------------------------------------------------

/// Whether a condition subtree contains any breadth condition.
pub open spec fn has_breadth(c: Condition) -> bool
    decreases c,
{
    match c {
        Condition::Breadth { .. } => true,
        Condition::All { conditions } | Condition::Any { conditions } => any_has_breadth(
            conditions@,
        ),
        Condition::Not { condition } => has_breadth(*condition),
        _ => false,
    }
}

/// Whether any condition of a sequence contains a breadth condition.
pub open spec fn any_has_breadth(cs: Seq<Condition>) -> bool
    decreases cs,
{
    if cs.len() == 0 {
        false
    } else {
        has_breadth(cs[0]) || any_has_breadth(cs.drop_first())
    }
}

/// The first structural problem of a condition tree: a breadth nested inside a
/// breadth, or a trend that looks back zero bars.
pub open spec fn tree_problem(c: Condition) -> Option<Seq<char>>
    decreases c,
{
    match c {
        Condition::Breadth { inner, .. } => if has_breadth(*inner) {
            Some("breadth condition nested inside another breadth"@)
        } else {
            tree_problem(*inner)
        },
        Condition::Rising { bars, .. } => if bars == 0 {
            Some("rising must look back at least 1 bar"@)
        } else {
            None
        },
        Condition::Falling { bars, .. } => if bars == 0 {
            Some("falling must look back at least 1 bar"@)
        } else {
            None
        },
        Condition::All { conditions } | Condition::Any { conditions } => first_tree_problem(
            conditions@,
        ),
        Condition::Not { condition } => tree_problem(*condition),
        _ => None,
    }
}

/// The first structural problem among a sequence of conditions, in order.
pub open spec fn first_tree_problem(cs: Seq<Condition>) -> Option<Seq<char>>
    decreases cs,
{
    if cs.len() == 0 {
        None
    } else {
        match tree_problem(cs[0]) {
            Some(m) => Some(m),
            None => first_tree_problem(cs.drop_first()),
        }
    }
}

/// Every expression a condition tree references, each followed by the
/// expressions nested inside it, in tree order.
pub open spec fn condition_exprs(c: Condition) -> Seq<Expr>
    decreases c,
{
    match c {
        Condition::Cmp { left, right, .. } => nodes(left) + nodes(right),
        Condition::CrossSection { expr, .. } => nodes(expr),
        Condition::Breadth { inner, .. } => condition_exprs(*inner),
        Condition::Between { value, low, high } => nodes(value) + nodes(low) + nodes(high),
        Condition::Rising { expr, .. } | Condition::Falling { expr, .. } => nodes(expr),
        Condition::All { conditions } | Condition::Any { conditions } => conditions_exprs(
            conditions@,
        ),
        Condition::Not { condition } => condition_exprs(*condition),
    }
}

/// The expressions of a sequence of conditions, in order.
pub open spec fn conditions_exprs(cs: Seq<Condition>) -> Seq<Expr>
    decreases cs,
{
    if cs.len() == 0 {
        seq![]
    } else {
        condition_exprs(cs[0]) + conditions_exprs(cs.drop_first())
    }
}

/// Whether condition `d` occurs in the tree `c`: it is `c` itself, or occurs
/// under a breadth gate, a negation or a combinator of `c`.
pub open spec fn occurs(c: Condition, d: Condition) -> bool
    decreases c,
{
    c == d || match c {
        Condition::Breadth { inner, .. } => occurs(*inner, d),
        Condition::Not { condition } => occurs(*condition, d),
        Condition::All { conditions } | Condition::Any { conditions } => occurs_in(
            conditions@,
            d,
        ),
        _ => false,
    }
}

/// Whether condition `d` occurs in one of the trees `cs`.
pub open spec fn occurs_in(cs: Seq<Condition>, d: Condition) -> bool
    decreases cs,
{
    cs.len() > 0 && (occurs(cs[0], d) || occurs_in(cs.drop_first(), d))
}

/// Whether `e` is one of the expressions a single test compares: a side of a
/// comparison, the expression of a cross-section test or of a trend, or the
/// value or a bound of a range.
pub open spec fn operand(d: Condition, e: Expr) -> bool {
    match d {
        Condition::Cmp { left, right, .. } => e == left || e == right,
        Condition::CrossSection { expr, .. } => e == expr,
        Condition::Between { value, low, high } => e == value || e == low || e == high,
        Condition::Rising { expr, .. } | Condition::Falling { expr, .. } => e == expr,
        _ => false,
    }
}

/// What a sequence contains, its concatenation with another contains too.
pub proof fn lemma_contains_left<T>(a: Seq<T>, b: Seq<T>, x: T)
    requires
        a.contains(x),
    ensures
        (a + b).contains(x),
{
    let i = choose|i: int| 0 <= i < a.len() && a[i] == x;
    assert((a + b)[i] == x);
}

/// What a sequence contains, a concatenation ending with it contains too.
pub proof fn lemma_contains_right<T>(a: Seq<T>, b: Seq<T>, x: T)
    requires
        b.contains(x),
    ensures
        (a + b).contains(x),
{
    let i = choose|i: int| 0 <= i < b.len() && b[i] == x;
    assert((a + b)[a.len() + i] == x);
}

/// Every expression a test anywhere in the tree compares, and every
/// expression nested inside it, is among the tree's expressions.
pub proof fn lemma_condition_exprs_cover_the_tree(c: Condition, d: Condition, e: Expr, x: Expr)
    requires
        occurs(c, d),
        operand(d, e),
        nodes(e).contains(x),
    ensures
        condition_exprs(c).contains(x),
    decreases c,
{
    if c == d {
        match c {
            Condition::Cmp { left, right, .. } => {
                if e == left {
                    lemma_contains_left(nodes(left), nodes(right), x);
                } else {
                    lemma_contains_right(nodes(left), nodes(right), x);
                }
            },
            Condition::Between { value, low, high } => {
                if e == value {
                    lemma_contains_left(nodes(value), nodes(low), x);
                    lemma_contains_left(nodes(value) + nodes(low), nodes(high), x);
                } else if e == low {
                    lemma_contains_right(nodes(value), nodes(low), x);
                    lemma_contains_left(nodes(value) + nodes(low), nodes(high), x);
                } else {
                    lemma_contains_right(nodes(value) + nodes(low), nodes(high), x);
                }
            },
            _ => {},
        }
    } else {
        match c {
            Condition::Breadth { inner, .. } => {
                lemma_condition_exprs_cover_the_tree(*inner, d, e, x);
            },
            Condition::Not { condition } => {
                lemma_condition_exprs_cover_the_tree(*condition, d, e, x);
            },
            Condition::All { conditions } | Condition::Any { conditions } => {
                lemma_conditions_exprs_cover(conditions@, d, e, x);
            },
            _ => {},
        }
    }
}

proof fn lemma_conditions_exprs_cover(cs: Seq<Condition>, d: Condition, e: Expr, x: Expr)
    requires
        occurs_in(cs, d),
        operand(d, e),
        nodes(e).contains(x),
    ensures
        conditions_exprs(cs).contains(x),
    decreases cs,
{
    if occurs(cs[0], d) {
        lemma_condition_exprs_cover_the_tree(cs[0], d, e, x);
        lemma_contains_left(condition_exprs(cs[0]), conditions_exprs(cs.drop_first()), x);
    } else {
        lemma_conditions_exprs_cover(cs.drop_first(), d, e, x);
        lemma_contains_right(condition_exprs(cs[0]), conditions_exprs(cs.drop_first()), x);
    }
}

proof fn lemma_drop_first_of_take<T>(s: Seq<T>, i: int)
    requires
        0 <= i < s.len(),
    ensures
        s.subrange(i, s.len() as int).drop_first() =~= s.subrange(i + 1, s.len() as int),
        s.subrange(i, s.len() as int)[0] == s[i],
{
}

/// Whether any condition of `cs` contains a breadth condition.
fn any_contains_breadth(cs: &Vec<Condition>) -> (r: bool)
    ensures
        r == any_has_breadth(cs@),
    decreases cs@,
{
    let mut i: usize = cs.len();
    let ghost n = cs@.len() as int;
    // Walk from the back, so the suffix from `i` is what has been decided.
    let mut found = false;
    while i > 0
        invariant
            i <= cs.len(),
            n == cs@.len(),
            found == any_has_breadth(cs@.subrange(i as int, n)),
        decreases i,
    {
        proof {
            lemma_drop_first_of_take(cs@, i - 1);
            assert(decreases_to!(cs@ => cs@[i - 1]));
        }
        let here = contains_breadth(&cs[i - 1]);
        found = here || found;
        i = i - 1;
    }
    assert(cs@.subrange(0, n) =~= cs@);
    found
}

/// Whether a condition subtree contains any breadth condition.
pub fn contains_breadth(cond: &Condition) -> (r: bool)
    ensures
        r == has_breadth(*cond),
    decreases cond,
{
    match cond {
        Condition::Breadth { .. } => true,
        Condition::All { conditions } | Condition::Any { conditions } => {
            proof {
                assert(decreases_to!(*cond => conditions@));
            }
            any_contains_breadth(conditions)
        },
        Condition::Not { condition } => contains_breadth(&**condition),
        _ => false,
    }
}


/// The characters of each string of a sequence.
pub open spec fn views(s: Seq<String>) -> Seq<Seq<char>> {
    s.map_values(|x: String| x@)
}

/// Whether a sequence of strings holds `x`.
pub open spec fn holds(s: Seq<String>, x: Seq<char>) -> bool {
    exists|i: int| 0 <= i < s.len() && (#[trigger] s[i])@ == x
}

/// Whether `v` holds a string with the characters of `x`.
pub fn vec_holds(v: &Vec<String>, x: &str) -> (r: bool)
    ensures
        r == holds(v@, x@),
{
    let mut i: usize = 0;
    while i < v.len()
        invariant
            i <= v.len(),
            forall|j: int| 0 <= j < i ==> (#[trigger] v@[j])@ != x@,
        decreases v.len() - i,
    {
        if crate::feeds::str_equal(v[i].as_str(), x) {
            return true;
        }
        i = i + 1;
    }
    false
}

/// Check a sequence of condition trees, in order.
fn check_trees(conditions: &Vec<Condition>) -> (r: Result<(), Error>)
    ensures
        bad_spec(r, first_tree_problem(conditions@)),
    decreases conditions@,
{
    let ghost cs = conditions@;
    let ghost n = cs.len() as int;
    let mut i: usize = 0;
    assert(cs.subrange(0, n) =~= cs);
    while i < conditions.len()
        invariant
            i <= conditions.len(),
            cs == conditions@,
            n == cs.len(),
            first_tree_problem(cs) == first_tree_problem(cs.subrange(i as int, n)),
        decreases conditions.len() - i,
    {
        proof {
            lemma_drop_first_of_take(cs, i as int);
            assert(decreases_to!(cs => cs[i as int]));
        }
        let r = check_tree(&conditions[i]);
        if r.is_err() {
            proof {
                let rest = cs.subrange(i as int, n);
                assert(rest[0] == cs[i as int]);
                assert(tree_problem(cs[i as int]) is Some);
                assert(first_tree_problem(rest) == tree_problem(cs[i as int]));
            }
            return r;
        }
        i = i + 1;
    }
    proof {
        assert(cs.subrange(n, n) =~= Seq::<Condition>::empty());
    }
    Ok(())
}

/// Check a condition tree for a breadth nested inside a breadth and for a
/// trend that looks back zero bars.
pub fn check_tree(cond: &Condition) -> (r: Result<(), Error>)
    ensures
        bad_spec(r, tree_problem(*cond)),
    decreases cond,
{
    match cond {
        Condition::Breadth { inner, .. } => {
            if contains_breadth(&**inner) {
                return refuse("breadth condition nested inside another breadth");
            }
            check_tree(&**inner)
        },
        Condition::Rising { bars, .. } => {
            if *bars == 0 {
                return refuse("rising must look back at least 1 bar");
            }
            Ok(())
        },
        Condition::Falling { bars, .. } => {
            if *bars == 0 {
                return refuse("falling must look back at least 1 bar");
            }
            Ok(())
        },
        Condition::All { conditions } | Condition::Any { conditions } => {
            proof {
                assert(decreases_to!(*cond => conditions@));
            }
            check_trees(conditions)
        },
        Condition::Not { condition } => check_tree(&**condition),
        _ => Ok(()),
    }
}

/// Append every expression a condition tree references, each followed by the
/// expressions nested inside it, in tree order.
pub fn push_condition_exprs<'a>(cond: &'a Condition, out: &mut Vec<&'a Expr>)
    ensures
        derefs(final(out)@) == derefs(old(out)@) + condition_exprs(*cond),
    decreases cond,
{
    match cond {
        Condition::Cmp { left, right, .. } => {
            left.push_nodes(out);
            right.push_nodes(out);
        },
        Condition::CrossSection { expr, .. } => {
            expr.push_nodes(out);
        },
        Condition::Breadth { inner, .. } => {
            push_condition_exprs(&**inner, out);
        },
        Condition::Between { value, low, high } => {
            value.push_nodes(out);
            low.push_nodes(out);
            high.push_nodes(out);
        },
        Condition::Rising { expr, .. } | Condition::Falling { expr, .. } => {
            expr.push_nodes(out);
        },
        Condition::All { conditions } | Condition::Any { conditions } => {
            let ghost cs = conditions@;
            let ghost n = cs.len() as int;
            let ghost start = derefs(out@);
            let mut i: usize = 0;
            assert(cs.subrange(0, n) =~= cs);
            while i < conditions.len()
                invariant
                    i <= conditions.len(),
                    cs == conditions@,
                    n == cs.len(),
                    decreases_to!(*cond => conditions@),
                    start == derefs(old(out)@),
                    start + conditions_exprs(cs) == derefs(out@) + conditions_exprs(
                        cs.subrange(i as int, n),
                    ),
                decreases conditions.len() - i,
            {
                proof {
                    lemma_drop_first_of_take(cs, i as int);
                    assert(decreases_to!(cs => cs[i as int]));
                }
                let ghost before = derefs(out@);
                push_condition_exprs(&conditions[i], out);
                proof {
                    let rest = cs.subrange(i as int, n);
                    assert(conditions_exprs(rest) == condition_exprs(cs[i as int])
                        + conditions_exprs(cs.subrange(i as int + 1, n)));
                    assert(derefs(out@) + conditions_exprs(cs.subrange(i as int + 1, n))
                        =~= before + conditions_exprs(rest));
                }
                i = i + 1;
            }
            proof {
                assert(cs.subrange(n, n) =~= Seq::<Condition>::empty());
                assert(derefs(out@) =~= derefs(out@) + conditions_exprs(cs.subrange(n, n)));
            }
        },
        Condition::Not { condition } => {
            push_condition_exprs(&**condition, out);
        },
    }
}

/// Why an expression's indicator cannot run in a scan.
pub enum FeedProblem {
    /// The registry does not know the indicator.
    Unknown(Seq<char>),
    /// The indicator reads the point-and-figure buy signal, which a
    /// cross-section assembled from candles cannot carry.
    Underivable(Seq<char>),
    /// The indicator's feed family is not supplied.
    Missing(Seq<char>, FeedKind),
}

/// The indicator that reads the point-and-figure buy signal of each member.
pub open spec fn needs_buy_signal(name: Seq<char>) -> bool {
    name == "BullishPercentIndex"@
}

/// Why an expression cannot run with the feeds `a` supplies, if it cannot.
pub open spec fn expr_feed_problem(e: Expr, a: Available) -> Option<FeedProblem> {
    match e {
        Expr::Indicator { name, .. } => match feed_kind_of(name@) {
            None => Some(FeedProblem::Unknown(name@)),
            Some(k) => if k == FeedKind::CrossSection && a.sections_are_derived
                && needs_buy_signal(name@) {
                Some(FeedProblem::Underivable(name@))
            } else if supplies(a, k) {
                None
            } else {
                Some(FeedProblem::Missing(name@, k))
            },
        },
        _ => None,
    }
}

/// The first feed problem among expressions, in order.
pub open spec fn first_feed_problem(es: Seq<Expr>, a: Available) -> Option<FeedProblem>
    decreases es.len(),
{
    if es.len() == 0 {
        None
    } else {
        match expr_feed_problem(es[0], a) {
            Some(p) => Some(p),
            None => first_feed_problem(es.drop_first(), a),
        }
    }
}

/// The error a feed problem is reported as.
pub open spec fn feed_result(r: Result<(), Error>, p: Option<FeedProblem>) -> bool {
    match p {
        None => r is Ok,
        Some(FeedProblem::Unknown(n)) => r matches Err(Error::UnknownIndicator(s)) && s@ == n,
        Some(FeedProblem::Underivable(n)) => r matches Err(
            Error::UnderivableSignal { indicator, signal },
        ) && indicator@ == n && signal@ == "point-and-figure buy"@,
        Some(FeedProblem::Missing(n, k)) => r matches Err(Error::MissingFeed { indicator, feed })
            && indicator@ == n && feed@ == crate::feeds::feed_kind_name(k),
    }
}

/// The feed families expressions need beyond the candle, in order of first
/// appearance and without repeats.
pub open spec fn feeds_needed(es: Seq<Expr>) -> Seq<FeedKind>
    decreases es.len(),
{
    if es.len() == 0 {
        seq![]
    } else {
        let acc = feeds_needed(es.drop_last());
        match es.last() {
            Expr::Indicator { name, .. } => match feed_kind_of(name@) {
                Some(k) => if k != FeedKind::Candle && !acc.contains(k) {
                    acc.push(k)
                } else {
                    acc
                },
                None => acc,
            },
            _ => acc,
        }
    }
}

/// What is wrong with a spec, if anything.
pub open spec fn spec_problem(s: ScanSpec) -> Option<Seq<char>> {
    if s.universe@.len() == 0 {
        Some("universe is empty"@)
    } else if s.limit == Some(0usize) {
        Some("limit must be greater than 0"@)
    } else if s.reference is Some && !holds(s.universe@, s.reference->0@) {
        Some("reference symbol "@ + s.reference->0@ + " is not in the universe"@)
    } else if s.breadth is Some && breadth_problem(s.breadth->0) is Some {
        breadth_problem(s.breadth->0)
    } else {
        tree_problem(s.condition)
    }
}

/// Every expression a spec references: the condition tree's, then the ranking
/// expression's, each followed by the expressions nested inside it.
pub open spec fn spec_exprs(s: ScanSpec) -> Seq<Expr> {
    condition_exprs(s.condition) + match s.rank {
        Some(r) => nodes(r.by),
        None => seq![],
    }
}

/// Every expression a spec compares anywhere in its condition tree, and its
/// ranking expression, are in the spec's expression list together with every
/// expression nested inside them: none is left unresolved or unchecked.
pub proof fn lemma_spec_exprs_cover_every_reference(s: ScanSpec, d: Condition, e: Expr, x: Expr)
    requires
        x == e || nodes(e).contains(x),
        occurs(s.condition, d) && operand(d, e) || (s.rank matches Some(r) && r.by == e),
    ensures
        spec_exprs(s).contains(x),
{
    lemma_nodes_start_with_self(e);
    let tail = match s.rank {
        Some(r) => nodes(r.by),
        None => seq![],
    };
    if occurs(s.condition, d) && operand(d, e) {
        lemma_condition_exprs_cover_the_tree(s.condition, d, e, x);
        lemma_contains_left(condition_exprs(s.condition), tail, x);
    } else {
        lemma_contains_right(condition_exprs(s.condition), tail, x);
    }
}

/// The universe symbols that `present` does not hold, in universe order and
/// without repeats.
pub open spec fn missing_list(universe: Seq<String>, present: Seq<String>) -> Seq<Seq<char>>
    decreases universe.len(),
{
    if universe.len() == 0 {
        seq![]
    } else {
        let acc = missing_list(universe.drop_last(), present);
        let x = universe.last()@;
        if !holds(present, x) && !acc.contains(x) {
            acc.push(x)
        } else {
            acc
        }
    }
}

/// The missing symbols are exactly the universe symbols that `present` does
/// not hold, each named once, in the order the universe first names them.
pub proof fn lemma_missing_list_law(universe: Seq<String>, present: Seq<String>)
    ensures
        forall|x: Seq<char>|
            #[trigger] missing_list(universe, present).contains(x) <==> (views(universe).contains(x)
                && !holds(present, x)),
        forall|i: int, j: int|
            0 <= i < j < missing_list(universe, present).len() ==> #[trigger] missing_list(
                universe,
                present,
            )[i] != #[trigger] missing_list(universe, present)[j],
    decreases universe.len(),
{
    if universe.len() > 0 {
        let rest = universe.drop_last();
        lemma_missing_list_law(rest, present);
        let acc = missing_list(rest, present);
        let x = universe.last()@;
        assert(views(universe) =~= views(rest).push(x));
        let out = missing_list(universe, present);
        assert forall|y: Seq<char>| #[trigger] views(universe).contains(y) <==> (views(
            rest,
        ).contains(y) || y == x) by {
            if views(universe).contains(y) {
                let k = choose|k: int| 0 <= k < views(universe).len() && views(universe)[k] == y;
                if k < rest.len() {
                    assert(views(rest)[k] == y);
                }
            }
            if views(rest).contains(y) {
                let k = choose|k: int| 0 <= k < views(rest).len() && views(rest)[k] == y;
                assert(views(universe)[k] == y);
            }
            assert(views(universe)[rest.len() as int] == x);
        }
        if !holds(present, x) && !acc.contains(x) {
            assert(out == acc.push(x));
            assert forall|y: Seq<char>| #[trigger] out.contains(y) <==> (acc.contains(y) || y == x) by {
                if out.contains(y) {
                    let k = choose|k: int| 0 <= k < out.len() && out[k] == y;
                    if k < acc.len() {
                        assert(acc[k] == y);
                    }
                }
                if acc.contains(y) {
                    let k = choose|k: int| 0 <= k < acc.len() && acc[k] == y;
                    assert(out[k] == y);
                }
                assert(out[acc.len() as int] == x);
            }
        } else {
            assert(out == acc);
        }
        if !holds(present, x) && !acc.contains(x) {
            assert forall|i: int, j: int| 0 <= i < j < out.len() implies #[trigger] out[i]
                != #[trigger] out[j] by {
                if j == acc.len() {
                    assert(out[i] == acc[i]);
                    assert(acc.contains(acc[i]));
                }
            }
        }
    }
}

/// The feed families a spec needs beyond the candle name each family once and
/// never the candle itself.
pub proof fn lemma_feeds_needed_distinct(es: Seq<Expr>)
    ensures
        !feeds_needed(es).contains(FeedKind::Candle),
        forall|i: int, j: int|
            0 <= i < j < feeds_needed(es).len() ==> #[trigger] feeds_needed(es)[i]
                != #[trigger] feeds_needed(es)[j],
    decreases es.len(),
{
    if es.len() > 0 {
        lemma_feeds_needed_distinct(es.drop_last());
        let acc = feeds_needed(es.drop_last());
        let out = feeds_needed(es);
        if out != acc {
            let k = out[acc.len() as int];
            assert(out == acc.push(k));
            assert(!acc.contains(k));
            assert(k != FeedKind::Candle);
            if out.contains(FeedKind::Candle) {
                let w = choose|w: int| 0 <= w < out.len() && out[w] == FeedKind::Candle;
                assert(acc[w] == FeedKind::Candle);
            }
            assert forall|i: int, j: int| 0 <= i < j < out.len() implies #[trigger] out[i]
                != #[trigger] out[j] by {
                if j == acc.len() {
                    assert(out[i] == acc[i]);
                }
            }
        }
    }
}

impl ScanSpec {
    /// Structural validation: the universe is non-empty, any `limit` is
    /// positive, a named reference symbol is in the universe, the breadth
    /// configuration is sane, no breadth condition is nested inside another
    /// breadth, and every trend looks back at least one bar.
    pub fn validate(&self) -> (r: Result<(), Error>)
        ensures
            bad_spec(r, spec_problem(*self)),
    {
        if self.universe.len() == 0 {
            return refuse("universe is empty");
        }
        if self.limit == Some(0usize) {
            return refuse("limit must be greater than 0");
        }
        match &self.reference {
            Some(reference) => {
                if !vec_holds(&self.universe, reference.as_str()) {
                    let mut m = String::new();
                    push_str(&mut m, "reference symbol ");
                    push_str(&mut m, reference.as_str());
                    push_str(&mut m, " is not in the universe");
                    assert(m@ =~= "reference symbol "@ + reference@ + " is not in the universe"@);
                    return Err(Error::BadSpec(m));
                }
            },
            None => {},
        }
        match &self.breadth {
            Some(b) => {
                let r = b.validate();
                if r.is_err() {
                    return r;
                }
            },
            None => {},
        }
        check_tree(&self.condition)
    }

    /// Every expression the spec references — the whole condition tree plus the
    /// ranking expression — each followed by the expressions nested inside it.
    pub fn exprs<'a>(&'a self) -> (v: Vec<&'a Expr>)
        ensures
            derefs(v@) == spec_exprs(*self),
    {
        let mut v: Vec<&'a Expr> = Vec::new();
        push_condition_exprs(&self.condition, &mut v);
        match &self.rank {
            Some(rank) => {
                rank.by.push_nodes(&mut v);
            },
            None => {},
        }
        assert(derefs(v@) =~= spec_exprs(*self));
        v
    }

    /// The feed families this spec's indicators need beyond the candle, in
    /// order of first appearance.
    pub fn required_feeds(&self) -> (kinds: Vec<FeedKind>)
        ensures
            kinds@ == feeds_needed(spec_exprs(*self)),
    {
        let es = self.exprs();
        let ghost all = derefs(es@);
        let mut kinds: Vec<FeedKind> = Vec::new();
        let mut i: usize = 0;
        while i < es.len()
            invariant
                i <= es.len(),
                all == derefs(es@),
                all == spec_exprs(*self),
                kinds@ == feeds_needed(all.take(i as int)),
            decreases es.len() - i,
        {
            let e = es[i];
            proof {
                assert(all.take(i as int + 1).drop_last() =~= all.take(i as int));
                assert(all.take(i as int + 1).last() == *e);
            }
            match e {
                Expr::Indicator { name, .. } => {
                    match feed_kind(name.as_str()) {
                        Some(k) => {
                            if k != FeedKind::Candle && !contains_kind(&kinds, k) {
                                kinds.push(k);
                            }
                        },
                        None => {},
                    }
                },
                _ => {},
            }
            i = i + 1;
        }
        assert(all.take(es@.len() as int) =~= all);
        kinds
    }

    /// Whether the spec names an indicator that reads the market cross-section.
    pub fn needs_cross_section(&self) -> (r: bool)
        ensures
            r == feeds_needed(spec_exprs(*self)).contains(FeedKind::CrossSection),
    {
        let kinds = self.required_feeds();
        contains_kind(&kinds, FeedKind::CrossSection)
    }

    /// Reject the spec if it names an indicator the registry does not know, or
    /// one whose feed the scan cannot supply.
    ///
    /// An indicator without its feed ticks and returns nothing on every bar; a
    /// screen built on it would match nothing, which reads exactly like a
    /// screen whose condition was simply never true. Refusing the spec is what
    /// separates the two.
    pub fn check_feeds(&self, available: Available) -> (r: Result<(), Error>)
        ensures
            feed_result(r, first_feed_problem(spec_exprs(*self), available)),
    {
        let es = self.exprs();
        let ghost all = derefs(es@);
        let ghost n = all.len() as int;
        let mut i: usize = 0;
        assert(all.subrange(0, n) =~= all);
        while i < es.len()
            invariant
                i <= es.len(),
                all == derefs(es@),
                all == spec_exprs(*self),
                n == all.len(),
                first_feed_problem(all, available) == first_feed_problem(
                    all.subrange(i as int, n),
                    available,
                ),
            decreases es.len() - i,
        {
            let e = es[i];
            proof {
                lemma_drop_first_of_take(all, i as int);
                assert(all[i as int] == *e);
            }
            match e {
                Expr::Indicator { name, .. } => {
                    match feed_kind(name.as_str()) {
                        None => {
                            return Err(Error::UnknownIndicator(name.clone()));
                        },
                        Some(k) => {
                            if k == FeedKind::CrossSection && available.sections_are_derived
                                && crate::feeds::str_equal(name.as_str(), "BullishPercentIndex") {
                                return Err(
                                    Error::UnderivableSignal {
                                        indicator: name.clone(),
                                        signal: string_of("point-and-figure buy"),
                                    },
                                );
                            }
                            if !available.has(k) {
                                return Err(
                                    Error::MissingFeed {
                                        indicator: name.clone(),
                                        feed: string_of(k.as_str()),
                                    },
                                );
                            }
                        },
                    }
                },
                _ => {},
            }
            i = i + 1;
        }
        assert(all.subrange(n, n) =~= Seq::<Expr>::empty());
        Ok(())
    }

    /// Whether the universe names `symbol`.
    pub fn names(&self, symbol: &str) -> (r: bool)
        ensures
            r == holds(self.universe@, symbol@),
    {
        vec_holds(&self.universe, symbol)
    }

    /// The universe symbols that `present` does not cover, in universe order
    /// and without repeats.
    pub fn missing_from(&self, present: &Vec<String>) -> (m: Vec<String>)
        ensures
            views(m@) == missing_list(self.universe@, present@),
    {
        let u = &self.universe;
        let mut m: Vec<String> = Vec::new();
        let mut i: usize = 0;
        while i < u.len()
            invariant
                i <= u.len(),
                u == &self.universe,
                views(m@) == missing_list(u@.take(i as int), present@),
            decreases u.len() - i,
        {
            let x = &u[i];
            proof {
                assert(u@.take(i as int + 1).drop_last() =~= u@.take(i as int));
                assert(u@.take(i as int + 1).last() == *x);
            }
            if !vec_holds(present, x.as_str()) && !vec_holds(&m, x.as_str()) {
                proof {
                    assert(holds(m@, x@) == views(m@).contains(x@)) by {
                        if views(m@).contains(x@) {
                            let j = choose|j: int| 0 <= j < views(m@).len() && views(m@)[j] == x@;
                            assert(m@[j]@ == x@);
                        }
                    }
                }
                m.push(x.clone());
                assert(views(m@) =~= missing_list(u@.take(i as int + 1), present@));
            } else {
                proof {
                    if !holds(present@, x@) {
                        let j = choose|j: int| 0 <= j < m@.len() && (#[trigger] m@[j])@ == x@;
                        assert(views(m@)[j] == x@);
                    }
                }
            }
            i = i + 1;
        }
        assert(u@.take(u@.len() as int) =~= u@);
        m
    }
}

/// Whether a list of feed families holds `k`.
fn contains_kind(kinds: &Vec<FeedKind>, k: FeedKind) -> (r: bool)
    ensures
        r == kinds@.contains(k),
{
    let mut i: usize = 0;
    while i < kinds.len()
        invariant
            i <= kinds.len(),
            forall|j: int| 0 <= j < i ==> kinds@[j] != k,
        decreases kinds.len() - i,
    {
        if kinds[i] == k {
            assert(kinds@[i as int] == k);
            return true;
        }
        i = i + 1;
    }
    false
}

} // verus!
