//! The indicators a spec needs resolved: one per base key, whichever output
//! fields the spec reads of it.

use crate::expr::{base_key_text, derefs, push_base_key, Expr};
use crate::expr::nodes;
use crate::spec::{lemma_spec_exprs_cover_every_reference, occurs, operand, spec_exprs, Condition, ScanSpec};
use vstd::prelude::*;

verus! {

/// The base key of an indicator expression: its name and parameters, without
/// any output field.
pub open spec fn base_of(e: Expr) -> Option<Seq<char>> {
    match e {
        Expr::Indicator { name, params, .. } => Some(base_key_text(name@, params@)),
        _ => None,
    }
}

/// The distinct base keys of the indicators among `es`, in order of first
/// appearance, each with the first expression that names it.
pub open spec fn indicator_list(es: Seq<Expr>) -> Seq<(Seq<char>, Expr)>
    decreases es.len(),
{
    if es.len() == 0 {
        seq![]
    } else {
        let acc = indicator_list(es.drop_last());
        match base_of(es.last()) {
            Some(k) => if acc.map_values(|p: (Seq<char>, Expr)| p.0).contains(k) {
                acc
            } else {
                acc.push((k, es.last()))
            },
            None => acc,
        }
    }
}

/// The list as plain data.
pub open spec fn entries_view(v: Seq<(String, &Expr)>) -> Seq<(Seq<char>, Expr)> {
    v.map_values(|p: (String, &Expr)| (p.0@, *p.1))
}

/// The base keys of an indicator list.
pub open spec fn keys_of(l: Seq<(Seq<char>, Expr)>) -> Seq<Seq<char>> {
    l.map_values(|p: (Seq<char>, Expr)| p.0)
}

/// Each indicator named among the expressions is resolved exactly once: the
/// list names every base key that occurs, names none twice, and files each
/// entry under its own expression's base key.
pub proof fn lemma_each_indicator_once(es: Seq<Expr>)
    ensures
        forall|i: int, j: int|
            0 <= i < j < indicator_list(es).len() ==> #[trigger] indicator_list(es)[i].0
                != #[trigger] indicator_list(es)[j].0,
        forall|i: int|
            0 <= i < indicator_list(es).len() ==> base_of(#[trigger] indicator_list(es)[i].1)
                == Some(indicator_list(es)[i].0),
        forall|n: int|
            0 <= n < es.len() && base_of(#[trigger] es[n]) is Some ==> keys_of(
                indicator_list(es),
            ).contains(base_of(es[n])->0),
    decreases es.len(),
{
    if es.len() > 0 {
        let rest = es.drop_last();
        lemma_each_indicator_once(rest);
        let acc = indicator_list(rest);
        let out = indicator_list(es);
        assert(keys_of(acc) =~= acc.map_values(|p: (Seq<char>, Expr)| p.0));
        if out != acc {
            let k = base_of(es.last())->0;
            assert(out == acc.push((k, es.last())));
            assert forall|i: int, j: int| 0 <= i < j < out.len() implies #[trigger] out[i].0
                != #[trigger] out[j].0 by {
                if j == acc.len() {
                    assert(out[i] == acc[i]);
                    assert(keys_of(acc)[i] == acc[i].0);
                }
            }
            assert forall|n: int| 0 <= n < es.len() && base_of(#[trigger] es[n]) is Some implies keys_of(
                out,
            ).contains(base_of(es[n])->0) by {
                if n < rest.len() {
                    assert(rest[n] == es[n]);
                    let w = choose|w: int| 0 <= w < keys_of(acc).len() && keys_of(acc)[w] == base_of(es[n])->0;
                    assert(keys_of(out)[w] == keys_of(acc)[w]);
                } else {
                    assert(keys_of(out)[acc.len() as int] == k);
                }
            }
        } else {
            assert forall|n: int| 0 <= n < es.len() && base_of(#[trigger] es[n]) is Some implies keys_of(
                out,
            ).contains(base_of(es[n])->0) by {
                if n < rest.len() {
                    assert(rest[n] == es[n]);
                }
            }
        }
    }
}

fn holds_key(v: &Vec<(String, &Expr)>, k: &str) -> (r: bool)
    ensures
        r == entries_view(v@).map_values(|p: (Seq<char>, Expr)| p.0).contains(k@),
{
    let ghost keys = entries_view(v@).map_values(|p: (Seq<char>, Expr)| p.0);
    let mut i: usize = 0;
    while i < v.len()
        invariant
            i <= v.len(),
            keys == entries_view(v@).map_values(|p: (Seq<char>, Expr)| p.0),
            forall|j: int| 0 <= j < i ==> keys[j] != k@,
        decreases v.len() - i,
    {
        assert(keys[i as int] == v@[i as int].0@);
        if crate::feeds::str_equal(v[i].0.as_str(), k) {
            return true;
        }
        i = i + 1;
    }
    proof {
        if keys.contains(k@) {
            let j = choose|j: int| 0 <= j < keys.len() && keys[j] == k@;
            assert(keys[j] != k@);
        }
    }
    false
}

impl ScanSpec {
    /// The indicators the spec needs resolved: each distinct base key, in
    /// order of first appearance, with the first expression naming it. Two
    /// output fields of one indicator share its base key and so one entry.
    pub fn indicators<'a>(&'a self) -> (v: Vec<(String, &'a Expr)>)
        ensures
            entries_view(v@) == indicator_list(spec_exprs(*self)),
    {
        let es = self.exprs();
        let ghost all = derefs(es@);
        let mut v: Vec<(String, &'a Expr)> = Vec::new();
        let mut i: usize = 0;
        while i < es.len()
            invariant
                i <= es.len(),
                all == derefs(es@),
                all == spec_exprs(*self),
                entries_view(v@) == indicator_list(all.take(i as int)),
            decreases es.len() - i,
        {
            let e = es[i];
            proof {
                assert(all.take(i as int + 1).drop_last() =~= all.take(i as int));
                assert(all.take(i as int + 1).last() == *e);
            }
            match e {
                Expr::Indicator { name, params, .. } => {
                    let mut k = String::new();
                    push_base_key(&mut k, name.as_str(), params);
                    assert(k@ =~= base_key_text(name@, params@));
                    if !holds_key(&v, k.as_str()) {
                        let ghost before = entries_view(v@);
                        v.push((k, e));
                        assert(entries_view(v@) =~= before.push((k@, *e)));
                    }
                },
                _ => {},
            }
            i = i + 1;
        }
        assert(all.take(es@.len() as int) =~= all);
        v
    }
}

/// Every indicator a spec names — as a side of a test anywhere in its
/// condition tree, as its ranking expression, or nested inside either — has
/// its base key resolved among the spec's indicators.
pub proof fn lemma_every_named_indicator_is_resolved(s: ScanSpec, d: Condition, e: Expr, x: Expr)
    requires
        x == e || nodes(e).contains(x),
        occurs(s.condition, d) && operand(d, e) || (s.rank matches Some(r) && r.by == e),
        base_of(x) is Some,
    ensures
        keys_of(indicator_list(spec_exprs(s))).contains(base_of(x)->0),
{
    lemma_spec_exprs_cover_every_reference(s, d, e, x);
    let es = spec_exprs(s);
    let n = choose|n: int| 0 <= n < es.len() && es[n] == x;
    lemma_each_indicator_once(es);
    assert(base_of(es[n]) is Some);
}

} // verus!
