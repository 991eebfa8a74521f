//! The order comparisons a condition makes between two values, as IEEE-754
//! orders doubles: false whenever a NaN takes part.
//!
//! Equality and inequality compare within a relative tolerance, which is
//! double arithmetic; they are not decided here.

use crate::num::{le, less, less_eq, lt, Num};
use crate::spec::Comparator;
use vstd::prelude::*;

verus! {

/// The outcome of comparing `a` with `b` under an order comparator; `None`
/// for the tolerance comparisons and the crossovers, which two values alone
/// do not decide.
pub open spec fn ordered(a: Num, op: Comparator, b: Num) -> Option<bool> {
    match op {
        Comparator::Gt => Some(lt(b.bits, a.bits)),
        Comparator::Ge => Some(le(b.bits, a.bits)),
        Comparator::Lt => Some(lt(a.bits, b.bits)),
        Comparator::Le => Some(le(a.bits, b.bits)),
        _ => None,
    }
}

/// Compare `a` with `b` under an order comparator.
pub fn compare_ordered(a: Num, op: Comparator, b: Num) -> (r: Option<bool>)
    ensures
        r == ordered(a, op, b),
{
    match op {
        Comparator::Gt => Some(less(b.bits, a.bits)),
        Comparator::Ge => Some(less_eq(b.bits, a.bits)),
        Comparator::Lt => Some(less(a.bits, b.bits)),
        Comparator::Le => Some(less_eq(a.bits, b.bits)),
        _ => None,
    }
}

/// Whether `left` crossed `right` this bar: for a cross above, it was at or
/// below the previous bar and is above now; for a cross below, it was at or
/// above and is below now. Any other comparator is not a crossover.
pub open spec fn crossed_spec(
    op: Comparator,
    prev_left: Num,
    prev_right: Num,
    left: Num,
    right: Num,
) -> bool {
    match op {
        Comparator::CrossesAbove => le(prev_left.bits, prev_right.bits) && lt(right.bits, left.bits),
        Comparator::CrossesBelow => le(prev_right.bits, prev_left.bits) && lt(left.bits, right.bits),
        _ => false,
    }
}

/// Whether `left` crossed `right` this bar, given both at the previous bar.
pub fn crossed(op: Comparator, prev_left: Num, prev_right: Num, left: Num, right: Num) -> (r: bool)
    ensures
        r == crossed_spec(op, prev_left, prev_right, left, right),
{
    match op {
        Comparator::CrossesAbove => less_eq(prev_left.bits, prev_right.bits) && less(
            right.bits,
            left.bits,
        ),
        Comparator::CrossesBelow => less_eq(prev_right.bits, prev_left.bits) && less(
            left.bits,
            right.bits,
        ),
        _ => false,
    }
}

/// Whether `value` lies between `low` and `high`, both included.
pub fn between(value: Num, low: Num, high: Num) -> (r: bool)
    ensures
        r == (le(low.bits, value.bits) && le(value.bits, high.bits)),
{
    less_eq(low.bits, value.bits) && less_eq(value.bits, high.bits)
}

/// A crossover is a change of side between the previous bar and this one: a
/// cross below happens exactly when `left` was at or above `right` on the
/// previous bar and is below it now, and a cross above exactly when it was at
/// or below and is above now. So a pair already below (above) on the previous
/// bar never crosses below (above), and a cross below is a cross above with
/// the two sides swapped. Nothing else crosses.
pub proof fn lemma_crossing_is_a_change_of_side(
    op: Comparator,
    prev_left: Num,
    prev_right: Num,
    left: Num,
    right: Num,
)
    ensures
        crossed_spec(Comparator::CrossesBelow, prev_left, prev_right, left, right) <==> (ordered(
            prev_left,
            Comparator::Ge,
            prev_right,
        ) == Some(true) && ordered(left, Comparator::Lt, right) == Some(true)),
        crossed_spec(Comparator::CrossesAbove, prev_left, prev_right, left, right) <==> (ordered(
            prev_left,
            Comparator::Le,
            prev_right,
        ) == Some(true) && ordered(left, Comparator::Gt, right) == Some(true)),
        lt(prev_left.bits, prev_right.bits) ==> !crossed_spec(
            Comparator::CrossesBelow,
            prev_left,
            prev_right,
            left,
            right,
        ),
        lt(prev_right.bits, prev_left.bits) ==> !crossed_spec(
            Comparator::CrossesAbove,
            prev_left,
            prev_right,
            left,
            right,
        ),
        !lt(left.bits, right.bits) ==> !crossed_spec(
            Comparator::CrossesBelow,
            prev_left,
            prev_right,
            left,
            right,
        ),
        !lt(right.bits, left.bits) ==> !crossed_spec(
            Comparator::CrossesAbove,
            prev_left,
            prev_right,
            left,
            right,
        ),
        crossed_spec(Comparator::CrossesBelow, prev_left, prev_right, left, right)
            == crossed_spec(Comparator::CrossesAbove, prev_right, prev_left, right, left),
        op != Comparator::CrossesAbove && op != Comparator::CrossesBelow ==> !crossed_spec(
            op,
            prev_left,
            prev_right,
            left,
            right,
        ),
{
}

} // verus!
