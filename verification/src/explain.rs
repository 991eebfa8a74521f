//! Which values a report shows to explain a match, and under which keys.
//!
//! A match carries the current value of every expression its condition names
//! (constants are self-evident and left out), the cross-section metric it was
//! compared on, and for a trend the earlier value it was compared against.

use crate::expr::{key_text, Expr};
use crate::scan::{metric_name, metric_value_key};
use crate::spec::{
    lemma_contains_left, lemma_contains_right, occurs, occurs_in, operand, Condition, CsMetric,
};
use crate::text::{dec, push_dec, push_str};
use vstd::prelude::*;

verus! {

/// What a report entry reads off a symbol.
#[derive(Debug)]
pub enum Reading<'a> {
    /// The value of an expression `back` bars before the current one.
    Value {
        /// The expression.
        expr: &'a Expr,
        /// How many bars back; zero is the current bar.
        back: u32,
    },
    /// The symbol's cross-section metric of an expression.
    Metric {
        /// The expression reduced across the universe.
        expr: &'a Expr,
        /// Which metric.
        metric: CsMetric,
    },
}

/// One value a report shows: its key and what it reads.
#[derive(Debug)]
pub struct Shown<'a> {
    /// The key the value is reported under.
    pub key: String,
    /// What the value is read from.
    pub reading: Reading<'a>,
}

/// What a report entry reads, as plain data.
pub enum ReadingView {
    /// The value of an expression some bars back.
    Value(Expr, nat),
    /// A cross-section metric of an expression.
    Metric(Expr, CsMetric),
}

/// A shown value, as plain data.
pub open spec fn shown_view(s: Shown) -> (Seq<char>, ReadingView) {
    (
        s.key@,
        match s.reading {
            Reading::Value { expr, back } => ReadingView::Value(*expr, back as nat),
            Reading::Metric { expr, metric } => ReadingView::Metric(*expr, metric),
        },
    )
}

/// Shown values, as plain data.
pub open spec fn shown_views(s: Seq<Shown>) -> Seq<(Seq<char>, ReadingView)> {
    s.map_values(|x: Shown| shown_view(x))
}

/// The current value of an expression, unless it is a constant.
pub open spec fn current(e: Expr) -> Seq<(Seq<char>, ReadingView)> {
    if e is Const {
        seq![]
    } else {
        seq![(key_text(e), ReadingView::Value(e, 0))]
    }
}

/// The key of the value `bars` back: that of `prev(e, bars)`.
pub open spec fn shifted_key(e: Expr, bars: u32) -> Seq<char> {
    "prev("@ + key_text(e) + ","@ + dec(bars as nat) + ")"@
}

/// The value of an expression `bars` back, unless it is a constant.
pub open spec fn earlier(e: Expr, bars: u32) -> Seq<(Seq<char>, ReadingView)> {
    if e is Const {
        seq![]
    } else {
        seq![(shifted_key(e, bars), ReadingView::Value(e, bars as nat))]
    }
}

/// The values a condition shows, in tree order.
pub open spec fn explained(c: Condition) -> Seq<(Seq<char>, ReadingView)>
    decreases c,
{
    match c {
        Condition::Cmp { left, right, .. } => current(left) + current(right),
        Condition::CrossSection { expr, metric, .. } => current(expr) + seq![
            (key_text(expr) + "#"@ + metric_name(metric), ReadingView::Metric(expr, metric)),
        ],
        Condition::Breadth { inner, .. } => explained(*inner),
        Condition::Between { value, low, high } => current(value) + current(low) + current(high),
        Condition::Rising { expr, bars } | Condition::Falling { expr, bars } => current(expr)
            + earlier(expr, bars),
        Condition::All { conditions } | Condition::Any { conditions } => all_explained(
            conditions@,
        ),
        Condition::Not { condition } => explained(*condition),
    }
}

/// The values a sequence of conditions shows, in order.
pub open spec fn all_explained(cs: Seq<Condition>) -> Seq<(Seq<char>, ReadingView)>
    decreases cs,
{
    if cs.len() == 0 {
        seq![]
    } else {
        explained(cs[0]) + all_explained(cs.drop_first())
    }
}

fn push_current<'a>(e: &'a Expr, out: &mut Vec<Shown<'a>>)
    ensures
        shown_views(final(out)@) == shown_views(old(out)@) + current(*e),
{
    let ghost before = shown_views(out@);
    if !matches!(e, Expr::Const { .. }) {
        out.push(Shown { key: e.key(), reading: Reading::Value { expr: e, back: 0 } });
    }
    assert(shown_views(out@) =~= before + current(*e));
}

fn push_earlier<'a>(e: &'a Expr, bars: u32, out: &mut Vec<Shown<'a>>)
    ensures
        shown_views(final(out)@) == shown_views(old(out)@) + earlier(*e, bars),
{
    let ghost before = shown_views(out@);
    if !matches!(e, Expr::Const { .. }) {
        let mut key = String::new();
        push_str(&mut key, "prev(");
        e.push_key(&mut key);
        push_str(&mut key, ",");
        push_dec(&mut key, bars as u64);
        push_str(&mut key, ")");
        assert(key@ =~= shifted_key(*e, bars));
        out.push(Shown { key, reading: Reading::Value { expr: e, back: bars } });
    }
    assert(shown_views(out@) =~= before + earlier(*e, bars));
}

fn push_all_explained<'a>(cs: &'a Vec<Condition>, out: &mut Vec<Shown<'a>>)
    ensures
        shown_views(final(out)@) == shown_views(old(out)@) + all_explained(cs@),
    decreases cs@,
{
    let ghost start = shown_views(out@);
    let ghost n = cs@.len() as int;
    let mut i: usize = 0;
    assert(cs@.subrange(0, n) =~= cs@);
    while i < cs.len()
        invariant
            i <= cs.len(),
            n == cs@.len(),
            shown_views(out@) + all_explained(cs@.subrange(i as int, n)) == start + all_explained(
                cs@,
            ),
        decreases cs.len() - i,
    {
        proof {
            let rest = cs@.subrange(i as int, n);
            assert(rest.drop_first() =~= cs@.subrange(i as int + 1, n));
            assert(rest[0] == cs@[i as int]);
            assert(decreases_to!(cs@ => cs@[i as int]));
        }
        let ghost before = shown_views(out@);
        push_explained(&cs[i], out);
        proof {
            let rest = cs@.subrange(i as int, n);
            assert(all_explained(rest) == explained(cs@[i as int]) + all_explained(
                cs@.subrange(i as int + 1, n),
            ));
            assert(shown_views(out@) + all_explained(cs@.subrange(i as int + 1, n)) =~= before
                + all_explained(rest));
        }
        i = i + 1;
    }
    assert(cs@.subrange(n, n) =~= Seq::<Condition>::empty());
    assert(shown_views(out@) =~= start + all_explained(cs@));
}

/// Append the values a condition shows to explain a match, in tree order.
pub fn push_explained<'a>(cond: &'a Condition, out: &mut Vec<Shown<'a>>)
    ensures
        shown_views(final(out)@) == shown_views(old(out)@) + explained(*cond),
    decreases cond,
{
    let ghost start = shown_views(out@);
    match cond {
        Condition::Cmp { left, right, .. } => {
            push_current(left, out);
            push_current(right, out);
            assert(shown_views(out@) =~= start + (current(*left) + current(*right)));
        },
        Condition::CrossSection { expr, metric, .. } => {
            push_current(expr, out);
            let ghost mid = shown_views(out@);
            let key = metric_value_key(expr, *metric);
            let shown = Shown { key, reading: Reading::Metric { expr, metric: *metric } };
            assert(shown_view(shown) == (key_text(*expr) + "#"@ + metric_name(*metric),
                ReadingView::Metric(*expr, *metric)));
            out.push(shown);
            assert(shown_views(out@) =~= mid.push(shown_view(shown)));
        },
        Condition::Breadth { inner, .. } => {
            push_explained(&**inner, out);
        },
        Condition::Between { value, low, high } => {
            push_current(value, out);
            push_current(low, out);
            push_current(high, out);
            assert(shown_views(out@) =~= start + (current(*value) + current(*low) + current(*high)));
        },
        Condition::Rising { expr, bars } | Condition::Falling { expr, bars } => {
            push_current(expr, out);
            push_earlier(expr, *bars, out);
            assert(shown_views(out@) =~= start + (current(*expr) + earlier(*expr, *bars)));
        },
        Condition::All { conditions } | Condition::Any { conditions } => {
            proof {
                assert(decreases_to!(*cond => conditions@));
            }
            push_all_explained(conditions, out);
        },
        Condition::Not { condition } => {
            push_explained(&**condition, out);
        },
    }
    assert(shown_views(out@) =~= start + explained(*cond));
}

/// A match shows the current value of every non-constant expression a test
/// anywhere in its condition tree compares — both sides of a comparison, a
/// range's value and bounds, a cross-section's or a trend's expression — under
/// that expression's key; a trend's earlier value as well, and a
/// cross-section's metric.
pub proof fn lemma_explained_shows_every_operand(c: Condition, d: Condition, e: Expr)
    requires
        occurs(c, d),
    ensures
        operand(d, e) && !(e is Const) ==> explained(c).contains(
            (key_text(e), ReadingView::Value(e, 0)),
        ),
        match d {
            Condition::Rising { expr, bars } | Condition::Falling { expr, bars } => !(expr is Const)
                ==> explained(c).contains(
                (shifted_key(expr, bars), ReadingView::Value(expr, bars as nat)),
            ),
            Condition::CrossSection { expr, metric, .. } => explained(c).contains(
                (key_text(expr) + "#"@ + metric_name(metric), ReadingView::Metric(expr, metric)),
            ),
            _ => true,
        },
    decreases c,
{
    let pair = (key_text(e), ReadingView::Value(e, 0));
    if c == d {
        if operand(d, e) && !(e is Const) {
            assert(current(e)[0] == pair);
            assert(current(e).contains(pair));
        }
        match c {
            Condition::Cmp { left, right, .. } => {
                if operand(d, e) && !(e is Const) {
                    if e == left {
                        lemma_contains_left(current(left), current(right), pair);
                    } else {
                        lemma_contains_right(current(left), current(right), pair);
                    }
                }
            },
            Condition::Between { value, low, high } => {
                if operand(d, e) && !(e is Const) {
                    if e == value {
                        lemma_contains_left(current(value), current(low), pair);
                        lemma_contains_left(current(value) + current(low), current(high), pair);
                    } else if e == low {
                        lemma_contains_right(current(value), current(low), pair);
                        lemma_contains_left(current(value) + current(low), current(high), pair);
                    } else {
                        lemma_contains_right(current(value) + current(low), current(high), pair);
                    }
                }
            },
            Condition::CrossSection { expr, metric, .. } => {
                let m = (key_text(expr) + "#"@ + metric_name(metric), ReadingView::Metric(
                    expr,
                    metric,
                ));
                assert(seq![m][0] == m);
                lemma_contains_right(current(expr), seq![m], m);
                if operand(d, e) && !(e is Const) {
                    lemma_contains_left(current(expr), seq![m], pair);
                }
            },
            Condition::Rising { expr, bars } | Condition::Falling { expr, bars } => {
                if operand(d, e) && !(e is Const) {
                    lemma_contains_left(current(expr), earlier(expr, bars), pair);
                }
                if !(expr is Const) {
                    let p = (shifted_key(expr, bars), ReadingView::Value(expr, bars as nat));
                    assert(earlier(expr, bars)[0] == p);
                    lemma_contains_right(current(expr), earlier(expr, bars), p);
                }
            },
            _ => {},
        }
    } else {
        match c {
            Condition::Breadth { inner, .. } => {
                lemma_explained_shows_every_operand(*inner, d, e);
            },
            Condition::Not { condition } => {
                lemma_explained_shows_every_operand(*condition, d, e);
            },
            Condition::All { conditions } | Condition::Any { conditions } => {
                lemma_all_explained_shows(conditions@, d, e);
            },
            _ => {},
        }
    }
}

proof fn lemma_all_explained_shows(cs: Seq<Condition>, d: Condition, e: Expr)
    requires
        occurs_in(cs, d),
    ensures
        operand(d, e) && !(e is Const) ==> all_explained(cs).contains(
            (key_text(e), ReadingView::Value(e, 0)),
        ),
        match d {
            Condition::Rising { expr, bars } | Condition::Falling { expr, bars } => !(expr is Const)
                ==> all_explained(cs).contains(
                (shifted_key(expr, bars), ReadingView::Value(expr, bars as nat)),
            ),
            Condition::CrossSection { expr, metric, .. } => all_explained(cs).contains(
                (key_text(expr) + "#"@ + metric_name(metric), ReadingView::Metric(expr, metric)),
            ),
            _ => true,
        },
    decreases cs,
{
    let head = explained(cs[0]);
    let tail = all_explained(cs.drop_first());
    let pair = (key_text(e), ReadingView::Value(e, 0));
    if occurs(cs[0], d) {
        lemma_explained_shows_every_operand(cs[0], d, e);
        if operand(d, e) && !(e is Const) {
            lemma_contains_left(head, tail, pair);
        }
        match d {
            Condition::Rising { expr, bars } | Condition::Falling { expr, bars } => {
                if !(expr is Const) {
                    lemma_contains_left(
                        head,
                        tail,
                        (shifted_key(expr, bars), ReadingView::Value(expr, bars as nat)),
                    );
                }
            },
            Condition::CrossSection { expr, metric, .. } => {
                lemma_contains_left(
                    head,
                    tail,
                    (key_text(expr) + "#"@ + metric_name(metric), ReadingView::Metric(expr, metric)),
                );
            },
            _ => {},
        }
    } else {
        lemma_all_explained_shows(cs.drop_first(), d, e);
        if operand(d, e) && !(e is Const) {
            lemma_contains_right(head, tail, pair);
        }
        match d {
            Condition::Rising { expr, bars } | Condition::Falling { expr, bars } => {
                if !(expr is Const) {
                    lemma_contains_right(
                        head,
                        tail,
                        (shifted_key(expr, bars), ReadingView::Value(expr, bars as nat)),
                    );
                }
            },
            Condition::CrossSection { expr, metric, .. } => {
                lemma_contains_right(
                    head,
                    tail,
                    (key_text(expr) + "#"@ + metric_name(metric), ReadingView::Metric(expr, metric)),
                );
            },
            _ => {},
        }
    }
}

} // verus!
