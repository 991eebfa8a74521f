//! The point-and-figure buy signal a symbol stands on, read off the columns a
//! point-and-figure builder completes.
//!
//! A buy signal starts when a close breaks above the top of the last completed
//! column of Xs (a double-top breakout) and ends when a close breaks below the
//! bottom of the last completed column of Os (a double-bottom breakdown). The
//! builder decides where a column ends; this decides only the signal.

use crate::num::{less, lt, Num};
use vstd::prelude::*;

verus! {

/// A completed point-and-figure column.
#[derive(Clone, Copy, Debug, PartialEq, Eq, Structural)]
pub struct Column {
    /// Positive for a column of Xs (rising), otherwise a column of Os.
    pub direction: i8,
    /// The column's top.
    pub high: Num,
    /// The column's bottom.
    pub low: Num,
}

/// The signal state: the top of the last column of Xs, the bottom of the last
/// column of Os, and whether the symbol stands on a buy signal.
#[derive(Clone, Copy, Debug, PartialEq, Eq, Structural)]
pub struct BuySignal {
    /// The top of the last completed column of Xs, if any.
    pub last_x_high: Option<Num>,
    /// The bottom of the last completed column of Os, if any.
    pub last_o_low: Option<Num>,
    /// Whether the symbol stands on a buy signal.
    pub on: bool,
}

/// The top of the last column of Xs among `cols`, or `top` if there is none.
pub open spec fn last_x_high(cols: Seq<Column>, top: Option<Num>) -> Option<Num>
    decreases cols.len(),
{
    if cols.len() == 0 {
        top
    } else if cols.last().direction > 0 {
        Some(cols.last().high)
    } else {
        last_x_high(cols.drop_last(), top)
    }
}

/// The bottom of the last column of Os among `cols`, or `bottom` if there is
/// none.
pub open spec fn last_o_low(cols: Seq<Column>, bottom: Option<Num>) -> Option<Num>
    decreases cols.len(),
{
    if cols.len() == 0 {
        bottom
    } else if cols.last().direction <= 0 {
        Some(cols.last().low)
    } else {
        last_o_low(cols.drop_last(), bottom)
    }
}

/// The signal after a bar that completed `cols` and closed at `close`: on
/// after a close above the last top, then off after a close below the last
/// bottom, so a bar that clears both reads bearish.
pub open spec fn signal_after(s: BuySignal, cols: Seq<Column>, close: Num) -> BuySignal {
    let top = last_x_high(cols, s.last_x_high);
    let bottom = last_o_low(cols, s.last_o_low);
    let broke_out = top matches Some(t) && lt(t.bits, close.bits);
    let broke_down = bottom matches Some(b) && lt(close.bits, b.bits);
    BuySignal {
        last_x_high: top,
        last_o_low: bottom,
        on: if broke_down {
            false
        } else if broke_out {
            true
        } else {
            s.on
        },
    }
}

impl BuySignal {
    /// No column yet, and no signal.
    pub fn new() -> (s: BuySignal)
        ensures
            s == (BuySignal { last_x_high: None, last_o_low: None, on: false }),
    {
        BuySignal { last_x_high: None, last_o_low: None, on: false }
    }

    /// Fold one bar: the columns it completed, in order, and its close.
    /// Returns whether the symbol stands on a buy signal after it.
    pub fn update(&mut self, columns: &Vec<Column>, close: Num) -> (on: bool)
        ensures
            *final(self) == signal_after(*old(self), columns@, close),
            on == final(self).on,
    {
        let mut i: usize = 0;
        while i < columns.len()
            invariant
                i <= columns.len(),
                self.on == old(self).on,
                self.last_x_high == last_x_high(columns@.take(i as int), old(self).last_x_high),
                self.last_o_low == last_o_low(columns@.take(i as int), old(self).last_o_low),
            decreases columns.len() - i,
        {
            proof {
                assert(columns@.take(i as int + 1).drop_last() =~= columns@.take(i as int));
                assert(columns@.take(i as int + 1).last() == columns@[i as int]);
            }
            let c = columns[i];
            if c.direction > 0 {
                self.last_x_high = Some(c.high);
            } else {
                self.last_o_low = Some(c.low);
            }
            i = i + 1;
        }
        assert(columns@.take(columns@.len() as int) =~= columns@);
        match self.last_x_high {
            Some(top) => {
                if less(top.bits, close.bits) {
                    self.on = true;
                }
            },
            None => {},
        }
        match self.last_o_low {
            Some(bottom) => {
                if less(close.bits, bottom.bits) {
                    self.on = false;
                }
            },
            None => {},
        }
        self.on
    }
}

} // verus!
