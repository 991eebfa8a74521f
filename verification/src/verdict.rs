//! Whether a condition tree holds, given the outcome of each of its leaves.
//!
//! A leaf is any condition but `all`, `any` and `not`: a comparison, a
//! cross-section test, a breadth gate, a range or a trend. A leaf whose
//! values are not all there (a symbol still warming up, an indicator without
//! an output) does not hold, and the combinators then combine the leaves.

use crate::spec::Condition;
use vstd::prelude::*;

verus! {

/// The leaves of a condition tree, left to right.
pub open spec fn leaves(c: Condition) -> Seq<Condition>
    decreases c,
{
    match c {
        Condition::All { conditions } | Condition::Any { conditions } => all_leaves(conditions@),
        Condition::Not { condition } => leaves(*condition),
        _ => seq![c],
    }
}

/// The leaves of a sequence of conditions, left to right.
pub open spec fn all_leaves(cs: Seq<Condition>) -> Seq<Condition>
    decreases cs,
{
    if cs.len() == 0 {
        seq![]
    } else {
        leaves(cs[0]) + all_leaves(cs.drop_first())
    }
}

/// Whether a leaf holds: its outcome is known and true; a leaf with a value
/// missing (`None`) does not.
pub open spec fn leaf_holds(outcome: Option<bool>) -> bool {
    outcome == Some(true)
}

/// Whether a condition holds, given the outcomes of its leaves in order.
pub open spec fn verdict(c: Condition, outs: Seq<Option<bool>>) -> bool
    decreases c,
{
    match c {
        Condition::All { conditions } => every(conditions@, outs),
        Condition::Any { conditions } => some(conditions@, outs),
        Condition::Not { condition } => !verdict(*condition, outs),
        _ => leaf_holds(outs[0]),
    }
}

/// Whether every condition of a sequence holds, each reading its own leaves'
/// outcomes in turn.
pub open spec fn every(cs: Seq<Condition>, outs: Seq<Option<bool>>) -> bool
    decreases cs,
{
    if cs.len() == 0 {
        true
    } else {
        let n = leaves(cs[0]).len() as int;
        verdict(cs[0], outs.take(n)) && every(cs.drop_first(), outs.skip(n))
    }
}

/// Whether some condition of a sequence holds, each reading its own leaves'
/// outcomes in turn.
pub open spec fn some(cs: Seq<Condition>, outs: Seq<Option<bool>>) -> bool
    decreases cs,
{
    if cs.len() == 0 {
        false
    } else {
        let n = leaves(cs[0]).len() as int;
        verdict(cs[0], outs.take(n)) || some(cs.drop_first(), outs.skip(n))
    }
}

/// Conditions behind references, as plain data.
pub open spec fn cond_derefs(s: Seq<&Condition>) -> Seq<Condition> {
    s.map_values(|c: &Condition| *c)
}

fn push_all_leaves<'a>(cs: &'a Vec<Condition>, out: &mut Vec<&'a Condition>)
    ensures
        cond_derefs(final(out)@) == cond_derefs(old(out)@) + all_leaves(cs@),
    decreases cs@,
{
    let ghost start = cond_derefs(out@);
    let ghost n = cs@.len() as int;
    let mut i: usize = 0;
    assert(cs@.subrange(0, n) =~= cs@);
    while i < cs.len()
        invariant
            i <= cs.len(),
            n == cs@.len(),
            cond_derefs(out@) + all_leaves(cs@.subrange(i as int, n)) == start + all_leaves(cs@),
        decreases cs.len() - i,
    {
        proof {
            let rest = cs@.subrange(i as int, n);
            assert(rest.drop_first() =~= cs@.subrange(i as int + 1, n));
            assert(rest[0] == cs@[i as int]);
            assert(decreases_to!(cs@ => cs@[i as int]));
        }
        let ghost before = cond_derefs(out@);
        push_leaves(&cs[i], out);
        proof {
            let rest = cs@.subrange(i as int, n);
            assert(cond_derefs(out@) + all_leaves(cs@.subrange(i as int + 1, n)) =~= before
                + all_leaves(rest));
        }
        i = i + 1;
    }
    assert(cs@.subrange(n, n) =~= Seq::<Condition>::empty());
    assert(cond_derefs(out@) =~= start + all_leaves(cs@));
}

/// Append the leaves of a condition tree, left to right.
pub fn push_leaves<'a>(cond: &'a Condition, out: &mut Vec<&'a Condition>)
    ensures
        cond_derefs(final(out)@) == cond_derefs(old(out)@) + leaves(*cond),
    decreases cond,
{
    let ghost start = cond_derefs(out@);
    match cond {
        Condition::All { conditions } | Condition::Any { conditions } => {
            proof {
                assert(decreases_to!(*cond => conditions@));
            }
            push_all_leaves(conditions, out);
        },
        Condition::Not { condition } => {
            push_leaves(&**condition, out);
        },
        _ => {
            out.push(cond);
            assert(cond_derefs(out@) =~= start + seq![*cond]);
        },
    }
}

/// The outcome a condition reads off `outs` from `start`, and where its
/// leaves end.
fn verdict_at(cond: &Condition, outs: &Vec<Option<bool>>, start: usize) -> (r: (bool, usize))
    requires
        start + leaves(*cond).len() <= outs@.len(),
    ensures
        r.1 == start + leaves(*cond).len(),
        r.0 == verdict(*cond, outs@.subrange(start as int, r.1 as int)),
    decreases cond, 0nat,
{
    match cond {
        Condition::All { conditions } => {
            proof {
                assert(decreases_to!(*cond => conditions@));
            }
            assert(conditions@.skip(0) =~= conditions@);
            list_at(conditions, 0, true, outs, start)
        },
        Condition::Any { conditions } => {
            proof {
                assert(decreases_to!(*cond => conditions@));
            }
            assert(conditions@.skip(0) =~= conditions@);
            list_at(conditions, 0, false, outs, start)
        },
        Condition::Not { condition } => {
            let (held, end) = verdict_at(&**condition, outs, start);
            (!held, end)
        },
        _ => {
            let n = outs.len();
            assert(start < n);
            let o = outs[start];
            let held = match o {
                Some(b) => b,
                None => false,
            };
            proof {
                assert(outs@.subrange(start as int, start as int + 1)[0] == o);
            }
            (held, start + 1)
        },
    }
}

/// Whether every (`all`) or some (`!all`) condition of `cs` from `i` on holds,
/// reading outcomes from `start`, and where their leaves end.
fn list_at(cs: &Vec<Condition>, i: usize, all: bool, outs: &Vec<Option<bool>>, start: usize) -> (r: (
    bool,
    usize,
))
    requires
        i <= cs@.len(),
        start + all_leaves(cs@.skip(i as int)).len() <= outs@.len(),
    ensures
        r.1 == start + all_leaves(cs@.skip(i as int)).len(),
        r.0 == if all {
            every(cs@.skip(i as int), outs@.subrange(start as int, r.1 as int))
        } else {
            some(cs@.skip(i as int), outs@.subrange(start as int, r.1 as int))
        },
    decreases cs@, cs@.len() - i,
{
    if i == cs.len() {
        return (all, start);
    }
    let ghost rest = cs@.skip(i as int);
    proof {
        assert(rest[0] == cs@[i as int]);
        assert(rest.drop_first() =~= cs@.skip(i as int + 1));
        assert(decreases_to!(cs@ => cs@[i as int]));
    }
    let (here, mid) = verdict_at(&cs[i], outs, start);
    let (tail, end) = list_at(cs, i + 1, all, outs, mid);
    proof {
        let o = outs@.subrange(start as int, end as int);
        let n = leaves(cs@[i as int]).len() as int;
        assert(o.take(n) =~= outs@.subrange(start as int, mid as int));
        assert(o.skip(n) =~= outs@.subrange(mid as int, end as int));
    }
    if all {
        (here && tail, end)
    } else {
        (here || tail, end)
    }
}

/// Whether a condition tree holds, given the outcome of each of its leaves in
/// the order [`push_leaves`] lists them: `None` for a leaf with a value
/// missing, which does not hold. `all` holds when each part does, `any` when
/// one does, and `not` when its part does not.
pub fn holds(cond: &Condition, outcomes: &Vec<Option<bool>>) -> (r: bool)
    requires
        outcomes@.len() == leaves(*cond).len(),
    ensures
        r == verdict(*cond, outcomes@),
{
    let (r, end) = verdict_at(cond, outcomes, 0);
    assert(outcomes@.subrange(0, end as int) =~= outcomes@);
    r
}

/// Of the first `m` symbols, how many take part (are ready, `Some`) and how
/// many of those the condition holds for.
pub open spec fn tally(outcomes: Seq<Option<bool>>, m: int) -> (nat, nat)
    decreases m,
{
    if m <= 0 {
        (0, 0)
    } else {
        let (ready, hits) = tally(outcomes, m - 1);
        match outcomes[m - 1] {
            Some(held) => (ready + 1, if held {
                hits + 1
            } else {
                hits
            }),
            None => (ready, hits),
        }
    }
}

/// The breadth gate's counts over a universe: `outcomes` holds, per symbol,
/// `None` for a symbol that is not ready and whether the inner condition holds
/// for one that is. Returns how many symbols are ready and how many of those
/// the inner condition holds for.
pub fn breadth_counts(outcomes: &Vec<Option<bool>>) -> (r: (usize, usize))
    ensures
        r.0 == tally(outcomes@, outcomes@.len() as int).0,
        r.1 == tally(outcomes@, outcomes@.len() as int).1,
        r.1 <= r.0,
{
    let mut ready: usize = 0;
    let mut hits: usize = 0;
    let mut i: usize = 0;
    while i < outcomes.len()
        invariant
            i <= outcomes.len(),
            ready == tally(outcomes@, i as int).0,
            hits == tally(outcomes@, i as int).1,
            hits <= ready <= i,
        decreases outcomes.len() - i,
    {
        match outcomes[i] {
            Some(held) => {
                ready = ready + 1;
                if held {
                    hits = hits + 1;
                }
            },
            None => {},
        }
        i = i + 1;
    }
    (ready, hits)
}

/// The negation of a condition.
pub open spec fn negation(c: Condition) -> Condition {
    Condition::Not { condition: Box::new(c) }
}

/// `not` negates: over the same leaves, `not(c)` holds exactly when `c` does
/// not, whatever `c` is — a leaf, a breadth gate or an `all` or `any`.
pub proof fn lemma_not_negates(c: Condition, outs: Seq<Option<bool>>)
    ensures
        leaves(negation(c)) == leaves(c),
        verdict(negation(c), outs) == !verdict(c, outs),
{
}

proof fn lemma_every_some_dual(vs: Seq<Condition>, ws: Seq<Condition>, outs: Seq<Option<bool>>)
    requires
        ws.len() == vs.len(),
        forall|i: int| 0 <= i < vs.len() ==> #[trigger] ws[i] == negation(vs[i]),
    ensures
        some(ws, outs) == !every(vs, outs),
    decreases vs.len(),
{
    if vs.len() > 0 {
        lemma_not_negates(vs[0], outs.take(leaves(vs[0]).len() as int));
        assert(ws[0] == negation(vs[0]));
        let vr = vs.drop_first();
        let wr = ws.drop_first();
        assert forall|i: int| 0 <= i < vr.len() implies #[trigger] wr[i] == negation(vr[i]) by {
            assert(wr[i] == ws[i + 1]);
            assert(vr[i] == vs[i + 1]);
        }
        lemma_every_some_dual(vr, wr, outs.skip(leaves(vs[0]).len() as int));
    }
}

/// De Morgan: over the same leaf outcomes, "not all of these hold" is "some
/// of their negations holds".
pub proof fn lemma_de_morgan(vs: Vec<Condition>, ws: Vec<Condition>, outs: Seq<Option<bool>>)
    requires
        ws@.len() == vs@.len(),
        forall|i: int| 0 <= i < vs@.len() ==> #[trigger] ws@[i] == negation(vs@[i]),
    ensures
        verdict(negation((Condition::All { conditions: vs })), outs) == verdict(
            (Condition::Any { conditions: ws }),
            outs,
        ),
{
    lemma_every_some_dual(vs@, ws@, outs);
    let all = Condition::All { conditions: vs };
    let any = Condition::Any { conditions: ws };
    assert(verdict(all, outs) == every(vs@, outs));
    assert(verdict(any, outs) == some(ws@, outs));
    lemma_not_negates(all, outs);
}

/// Whether a condition is a leaf: a single test, not `all`, `any` or `not`.
pub open spec fn is_leaf(c: Condition) -> bool {
    !(c is All) && !(c is Any) && !(c is Not)
}

/// A single test holds exactly when its outcome is known and true: a missing
/// value does not hold.
pub proof fn lemma_leaf_holds_when_true(c: Condition, o: Option<bool>)
    requires
        is_leaf(c),
    ensures
        leaves(c) == seq![c],
        verdict(c, seq![o]) <==> o == Some(true),
{
}

proof fn lemma_flat(cs: Seq<Condition>, outs: Seq<Option<bool>>)
    requires
        forall|i: int| 0 <= i < cs.len() ==> is_leaf(#[trigger] cs[i]),
        outs.len() == cs.len(),
    ensures
        all_leaves(cs) == cs,
        every(cs, outs) <==> forall|i: int| 0 <= i < outs.len() ==> #[trigger] outs[i] == Some(true),
        some(cs, outs) <==> exists|i: int| 0 <= i < outs.len() && #[trigger] outs[i] == Some(true),
    decreases cs.len(),
{
    if cs.len() > 0 {
        let rest = cs.drop_first();
        assert forall|i: int| 0 <= i < rest.len() implies is_leaf(#[trigger] rest[i]) by {
            assert(rest[i] == cs[i + 1]);
        }
        lemma_flat(rest, outs.skip(1));
        assert(is_leaf(cs[0]));
        assert(leaves(cs[0]) == seq![cs[0]]);
        assert(outs.take(1) =~= seq![outs[0]]);
        assert(leaves(cs[0]).len() == 1);
        assert(verdict(cs[0], outs.take(1)) == (outs[0] == Some(true)));
        assert(every(cs, outs) == (verdict(cs[0], outs.take(1)) && every(rest, outs.skip(1))));
        assert(some(cs, outs) == (verdict(cs[0], outs.take(1)) || some(rest, outs.skip(1))));
        assert(all_leaves(cs) =~= seq![cs[0]] + rest);
        assert(all_leaves(cs) =~= cs);
        if forall|i: int| 0 <= i < outs.len() ==> #[trigger] outs[i] == Some(true) {
            assert forall|i: int| 0 <= i < outs.skip(1).len() implies #[trigger] outs.skip(1)[i]
                == Some(true) by {
                assert(outs.skip(1)[i] == outs[i + 1]);
            }
        }
        if every(cs, outs) {
            assert forall|i: int| 0 <= i < outs.len() implies #[trigger] outs[i] == Some(true) by {
                if i > 0 {
                    assert(outs[i] == outs.skip(1)[i - 1]);
                }
            }
        }
        if exists|i: int| 0 <= i < outs.len() && #[trigger] outs[i] == Some(true) {
            let i = choose|i: int| 0 <= i < outs.len() && #[trigger] outs[i] == Some(true);
            if i > 0 {
                assert(outs.skip(1)[i - 1] == outs[i]);
            }
        }
        if some(cs, outs) {
            if !verdict(cs[0], outs.take(1)) {
                let j = choose|j: int| 0 <= j < outs.skip(1).len() && #[trigger] outs.skip(1)[j]
                    == Some(true);
                assert(outs[j + 1] == outs.skip(1)[j]);
            } else {
                assert(outs[0] == Some(true));
            }
        }
    }
}

/// Over single tests, `all` holds exactly when every test's outcome is known
/// and true, and `any` exactly when some test's is.
pub proof fn lemma_all_any_over_tests(
    vs: Vec<Condition>,
    outs: Seq<Option<bool>>,
)
    requires
        forall|i: int| 0 <= i < vs@.len() ==> is_leaf(#[trigger] vs@[i]),
        outs.len() == vs@.len(),
    ensures
        verdict((Condition::All { conditions: vs }), outs) <==> forall|i: int|
            0 <= i < outs.len() ==> #[trigger] outs[i] == Some(true),
        verdict((Condition::Any { conditions: vs }), outs) <==> exists|i: int|
            0 <= i < outs.len() && #[trigger] outs[i] == Some(true),
{
    lemma_flat(vs@, outs);
    let all = Condition::All { conditions: vs };
    let any = Condition::Any { conditions: vs };
    assert(verdict(all, outs) == every(vs@, outs));
    assert(verdict(any, outs) == some(vs@, outs));
}

} // verus!
