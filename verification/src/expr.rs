//! Scalar expressions: a constant, a candle price field, an indicator output, a
//! value from earlier bars, or arithmetic over any of those.

use crate::num::{saturate_i64, whole_text, whole_value, Num};
use crate::text::{dec, dec_int, push_dec, push_str, string_of};
use vstd::prelude::*;

verus! {

/// A field of an OHLCV candle, or a standard average of several.
#[derive(Clone, Copy, Debug, PartialEq, Eq, Structural)]
pub enum PriceField {
    /// Opening price.
    Open,
    /// High price.
    High,
    /// Low price.
    Low,
    /// Closing price.
    Close,
    /// Volume.
    Volume,
    /// `(high + low + close) / 3`, the typical price.
    Hlc3,
    /// `(open + high + low + close) / 4`, the average price.
    Ohlc4,
}

/// The canonical lowercase name of a price field.
pub open spec fn price_field_name(f: PriceField) -> Seq<char> {
    match f {
        PriceField::Open => "open"@,
        PriceField::High => "high"@,
        PriceField::Low => "low"@,
        PriceField::Close => "close"@,
        PriceField::Volume => "volume"@,
        PriceField::Hlc3 => "hlc3"@,
        PriceField::Ohlc4 => "ohlc4"@,
    }
}

impl PriceField {
    /// The canonical lowercase name used in keys and JSON.
    pub fn as_str(self) -> (s: &'static str)
        ensures
            s@ == price_field_name(self),
    {
        match self {
            PriceField::Open => "open",
            PriceField::High => "high",
            PriceField::Low => "low",
            PriceField::Close => "close",
            PriceField::Volume => "volume",
            PriceField::Hlc3 => "hlc3",
            PriceField::Ohlc4 => "ohlc4",
        }
    }
}

/// Whether `text` is how a key shows the value with bit pattern `bits`: a
/// finite whole value as its integer (saturating at the bounds of `i64`, as a
/// cast does). The text of any other value is its shortest round-trip decimal,
/// which is not stated here.
pub open spec fn keyed_text(bits: u64, text: Seq<char>) -> bool {
    match whole_value(bits) {
        Some(x) => text == dec_int(saturate_i64(x)),
        None => true,
    }
}

/// The text a literal made from `bits` shows: the integer of a whole value,
/// otherwise the decimal it was given.
pub open spec fn literal_text(bits: u64, given: Seq<char>) -> Seq<char> {
    match whole_value(bits) {
        Some(x) => dec_int(saturate_i64(x)),
        None => given,
    }
}

/// A number written in a spec: its value, and the text a key shows it as.
///
/// The text is the key rendering of the value: a whole value as an integer,
/// otherwise the shortest decimal that reads back as the same double. The
/// first half is the type's invariant, so no literal carries a whole value
/// under any other text.
#[derive(Debug)]
pub struct Literal {
    value: Num,
    text: String,
}

impl Literal {
    /// The value.
    pub closed spec fn num(self) -> Num {
        self.value
    }

    /// How the value appears in an expression key.
    pub closed spec fn shown(self) -> Seq<char> {
        self.text@
    }

    #[verifier::type_invariant]
    closed spec fn well_keyed(self) -> bool {
        keyed_text(self.value.bits, self.text@)
    }

    /// The literal with the value given by `bits`, shown as its integer when
    /// the value is whole and as `text` (its decimal) otherwise.
    pub fn new(bits: u64, text: String) -> (r: Literal)
        ensures
            r.num() == (Num { bits }),
            r.shown() == literal_text(bits, text@),
    {
        match whole_text(bits) {
            Some(t) => Literal { value: Num { bits }, text: t },
            None => Literal { value: Num { bits }, text },
        }
    }

    /// A whole number as a key writes it: the value given by its bits, shown
    /// as its integer (saturating at the bounds of `i64`, as a cast does);
    /// `None` when the value is not a finite whole number.
    pub fn whole(bits: u64) -> (r: Option<Literal>)
        ensures
            match whole_value(bits) {
                Some(x) => r matches Some(l) && l.num() == (Num { bits }) && l.shown() == dec_int(
                    saturate_i64(x),
                ),
                None => r is None,
            },
    {
        match whole_text(bits) {
            Some(text) => Some(Literal { value: Num { bits }, text }),
            None => None,
        }
    }

    /// The value.
    pub fn value(&self) -> (r: Num)
        ensures
            r == self.num(),
    {
        self.value
    }

    /// How the value appears in an expression key; a whole value always
    /// appears as its integer.
    pub fn text(&self) -> (r: &str)
        ensures
            r@ == self.shown(),
            keyed_text(self.num().bits, r@),
    {
        proof {
            use_type_invariant(self);
        }
        self.text.as_str()
    }
}

/// A scalar value referenced by a condition.
#[derive(Debug)]
pub enum Expr {
    /// A literal value.
    Const {
        /// The constant.
        value: Literal,
    },
    /// A field of the current candle.
    Price {
        /// Which price field to read.
        field: PriceField,
    },
    /// The output of an indicator resolved from the registry by name and
    /// parameters; `field` selects a sub-output of a multi-output indicator.
    Indicator {
        /// Indicator name in the registry.
        name: String,
        /// Indicator parameters.
        params: Vec<Literal>,
        /// Optional sub-output field for multi-output indicators.
        field: Option<String>,
    },
    /// The value an expression had `bars` bars ago.
    Prev {
        /// The expression to look back on.
        of: Box<Expr>,
        /// How many bars back. Zero is the current bar.
        bars: u32,
    },
    /// `left + right`.
    Add {
        /// Left-hand expression.
        left: Box<Expr>,
        /// Right-hand expression.
        right: Box<Expr>,
    },
    /// `left - right`.
    Sub {
        /// Left-hand expression.
        left: Box<Expr>,
        /// Right-hand expression.
        right: Box<Expr>,
    },
    /// `left * right`.
    Mul {
        /// Left-hand expression.
        left: Box<Expr>,
        /// Right-hand expression.
        right: Box<Expr>,
    },
    /// `left / right`.
    Div {
        /// Left-hand expression.
        left: Box<Expr>,
        /// Right-hand expression.
        right: Box<Expr>,
    },
}

/// The parameter list of an indicator key: the texts joined by commas.
pub open spec fn params_text(ps: Seq<Literal>) -> Seq<char>
    decreases ps.len(),
{
    if ps.len() == 0 {
        seq![]
    } else if ps.len() == 1 {
        ps[0].shown()
    } else {
        params_text(ps.drop_last()) + ","@ + ps.last().shown()
    }
}

/// The key of an indicator without a field suffix: `<name>(<p,p,...>)`.
pub open spec fn base_key_text(name: Seq<char>, params: Seq<Literal>) -> Seq<char> {
    name + "("@ + params_text(params) + ")"@
}

/// The key of a binary form: `<op>(<left>,<right>)`, given `<op>(`.
pub open spec fn binary_text(open: Seq<char>, l: Seq<char>, r: Seq<char>) -> Seq<char> {
    open + l + ","@ + r + ")"@
}

/// The canonical string key of an expression.
pub open spec fn key_text(e: Expr) -> Seq<char>
    decreases e,
{
    match e {
        Expr::Const { value } => "const("@ + value.shown() + ")"@,
        Expr::Price { field } => "price."@ + price_field_name(field),
        Expr::Indicator { name, params, field } => match field {
            Some(f) => base_key_text(name@, params@) + "."@ + f@,
            None => base_key_text(name@, params@),
        },
        Expr::Prev { of, bars } => "prev("@ + key_text(*of) + ","@ + dec(bars as nat) + ")"@,
        Expr::Add { left, right } => binary_text("add("@, key_text(*left), key_text(*right)),
        Expr::Sub { left, right } => binary_text("sub("@, key_text(*left), key_text(*right)),
        Expr::Mul { left, right } => binary_text("mul("@, key_text(*left), key_text(*right)),
        Expr::Div { left, right } => binary_text("div("@, key_text(*left), key_text(*right)),
    }
}

/// Whether every literal of a parameter list shows its value as a key should.
pub open spec fn params_keyed(ps: Seq<Literal>) -> bool {
    forall|i: int| 0 <= i < ps.len() ==> keyed_text(#[trigger] ps[i].num().bits, ps[i].shown())
}

/// Whether every literal written in an expression shows its value as a key
/// should.
pub open spec fn literals_keyed(e: Expr) -> bool
    decreases e,
{
    match e {
        Expr::Const { value } => keyed_text(value.num().bits, value.shown()),
        Expr::Price { .. } => true,
        Expr::Indicator { params, .. } => params_keyed(params@),
        Expr::Prev { of, .. } => literals_keyed(*of),
        Expr::Add { left, right }
        | Expr::Sub { left, right }
        | Expr::Mul { left, right }
        | Expr::Div { left, right } => literals_keyed(*left) && literals_keyed(*right),
    }
}

/// The deepest lookback an expression reaches, in bars.
pub open spec fn lookback_of(e: Expr) -> nat
    decreases e,
{
    match e {
        Expr::Const { .. } | Expr::Price { .. } | Expr::Indicator { .. } => 0,
        Expr::Prev { of, bars } => bars as nat + lookback_of(*of),
        Expr::Add { left, right }
        | Expr::Sub { left, right }
        | Expr::Mul { left, right }
        | Expr::Div { left, right } => {
            let l = lookback_of(*left);
            let r = lookback_of(*right);
            if l >= r {
                l
            } else {
                r
            }
        },
    }
}

/// The expression and every expression nested inside it, parents before
/// children and left before right.
pub open spec fn nodes(e: Expr) -> Seq<Expr>
    decreases e,
{
    match e {
        Expr::Const { .. } | Expr::Price { .. } | Expr::Indicator { .. } => seq![e],
        Expr::Prev { of, .. } => seq![e] + nodes(*of),
        Expr::Add { left, right }
        | Expr::Sub { left, right }
        | Expr::Mul { left, right }
        | Expr::Div { left, right } => seq![e] + nodes(*left) + nodes(*right),
    }
}

/// An expression's nodes start with the expression itself.
pub proof fn lemma_nodes_start_with_self(e: Expr)
    ensures
        nodes(e).len() > 0,
        nodes(e)[0] == e,
        nodes(e).contains(e),
{
    assert(nodes(e)[0] == e);
}

/// The expressions a sequence of references points at.
pub open spec fn derefs(s: Seq<&Expr>) -> Seq<Expr> {
    s.map_values(|e: &Expr| *e)
}

/// Append the parameter list of an indicator key.
fn push_params(s: &mut String, params: &Vec<Literal>)
    ensures
        final(s)@ == old(s)@ + params_text(params@),
        params_keyed(params@),
{
    let mut i: usize = 0;
    let ghost start = s@;
    while i < params.len()
        invariant
            i <= params.len(),
            s@ == start + params_text(params@.take(i as int)),
            start == old(s)@,
            forall|j: int| 0 <= j < i ==> keyed_text(#[trigger] params@[j].num().bits, params@[j].shown()),
        decreases params.len() - i,
    {
        if i > 0 {
            push_str(s, ",");
        }
        push_str(s, params[i].text());
        proof {
            let t = params@.take(i as int + 1);
            assert(t.drop_last() =~= params@.take(i as int));
            if i == 0 {
                assert(params_text(params@.take(0)) =~= seq![]);
            }
        }
        assert(s@ =~= start + params_text(params@.take(i as int + 1)));
        i = i + 1;
    }
    assert(params@.take(params.len() as int) =~= params@);
}

/// Append the key of an indicator without its field suffix.
pub fn push_base_key(s: &mut String, name: &str, params: &Vec<Literal>)
    ensures
        final(s)@ == old(s)@ + base_key_text(name@, params@),
        params_keyed(params@),
{
    push_str(s, name);
    push_str(s, "(");
    push_params(s, params);
    push_str(s, ")");
    assert(final(s)@ =~= old(s)@ + base_key_text(name@, params@));
}

impl Expr {
    /// Append the canonical key of this expression.
    pub fn push_key(&self, s: &mut String)
        ensures
            final(s)@ == old(s)@ + key_text(*self),
            literals_keyed(*self),
        decreases self,
    {
        match self {
            Expr::Const { value } => {
                push_str(s, "const(");
                push_str(s, value.text());
                push_str(s, ")");
                assert(s@ =~= old(s)@ + key_text(*self));
            },
            Expr::Price { field } => {
                push_str(s, "price.");
                push_str(s, field.as_str());
                assert(s@ =~= old(s)@ + key_text(*self));
            },
            Expr::Indicator { name, params, field } => {
                push_base_key(s, name.as_str(), params);
                match field {
                    Some(f) => {
                        push_str(s, ".");
                        push_str(s, f.as_str());
                        assert(s@ =~= old(s)@ + base_key_text(name@, params@) + "."@ + f@);
                    },
                    None => {},
                }
                assert(s@ =~= old(s)@ + key_text(*self));
            },
            Expr::Prev { of, bars } => {
                push_str(s, "prev(");
                (**of).push_key(s);
                push_str(s, ",");
                push_dec(s, *bars as u64);
                push_str(s, ")");
                assert(s@ =~= old(s)@ + key_text(*self));
            },
            Expr::Add { left, right } => {
                push_str(s, "add(");
                (**left).push_key(s);
                push_str(s, ",");
                (**right).push_key(s);
                push_str(s, ")");
                assert(s@ =~= old(s)@ + key_text(*self));
            },
            Expr::Sub { left, right } => {
                push_str(s, "sub(");
                (**left).push_key(s);
                push_str(s, ",");
                (**right).push_key(s);
                push_str(s, ")");
                assert(s@ =~= old(s)@ + key_text(*self));
            },
            Expr::Mul { left, right } => {
                push_str(s, "mul(");
                (**left).push_key(s);
                push_str(s, ",");
                (**right).push_key(s);
                push_str(s, ")");
                assert(s@ =~= old(s)@ + key_text(*self));
            },
            Expr::Div { left, right } => {
                push_str(s, "div(");
                (**left).push_key(s);
                push_str(s, ",");
                (**right).push_key(s);
                push_str(s, ")");
                assert(s@ =~= old(s)@ + key_text(*self));
            },
        }
        assert(final(s)@ =~= old(s)@ + key_text(*self));
    }

    /// The canonical string key for this expression, used as the deterministic
    /// key in a match's values and by the indicator set.
    ///
    /// Format: `const(<v>)`, `price.<field>`, `<name>(<p,p,...>)`, or
    /// `<name>(<p,...>).<field>` for a multi-output field; compound forms nest
    /// as `prev(<inner>,<n>)` and `add(<l>,<r>)`.
    pub fn key(&self) -> (k: String)
        ensures
            k@ == key_text(*self),
            literals_keyed(*self),
    {
        let mut s = String::new();
        self.push_key(&mut s);
        assert(s@ =~= key_text(*self));
        s
    }

    /// The deepest lookback this expression reaches, in bars.
    pub fn lookback(&self) -> (n: usize)
        requires
            lookback_of(*self) <= usize::MAX,
        ensures
            n as nat == lookback_of(*self),
        decreases self,
    {
        match self {
            Expr::Const { .. } | Expr::Price { .. } | Expr::Indicator { .. } => 0,
            Expr::Prev { of, bars } => *bars as usize + (**of).lookback(),
            Expr::Add { left, right }
            | Expr::Sub { left, right }
            | Expr::Mul { left, right }
            | Expr::Div { left, right } => {
                let l = (**left).lookback();
                let r = (**right).lookback();
                if l >= r {
                    l
                } else {
                    r
                }
            },
        }
    }

    /// Append this expression and every expression nested inside it, parents
    /// before children and left before right.
    pub fn push_nodes<'a>(&'a self, out: &mut Vec<&'a Expr>)
        ensures
            derefs(final(out)@) == derefs(old(out)@) + nodes(*self),
        decreases self,
    {
        out.push(self);
        match self {
            Expr::Const { .. } | Expr::Price { .. } | Expr::Indicator { .. } => {},
            Expr::Prev { of, .. } => {
                (**of).push_nodes(out);
            },
            Expr::Add { left, right }
            | Expr::Sub { left, right }
            | Expr::Mul { left, right }
            | Expr::Div { left, right } => {
                (**left).push_nodes(out);
                (**right).push_nodes(out);
            },
        }
        assert(derefs(final(out)@) =~= derefs(old(out)@) + nodes(*self));
    }

    /// This expression and every expression nested inside it, parents before
    /// children and left before right.
    pub fn visit<'a>(&'a self) -> (v: Vec<&'a Expr>)
        ensures
            derefs(v@) == nodes(*self),
    {
        let mut v: Vec<&'a Expr> = Vec::new();
        self.push_nodes(&mut v);
        assert(derefs(v@) =~= nodes(*self));
        v
    }
}

/// The key of an indicator without any field suffix: `<name>(<p,p,...>)`.
pub fn base_key(name: &str, params: &Vec<Literal>) -> (k: String)
    ensures
        k@ == base_key_text(name@, params@),
{
    let mut s = String::new();
    push_base_key(&mut s, name, params);
    assert(s@ =~= base_key_text(name@, params@));
    s
}

/// One value an expression reads: a constant, or a price field or an
/// indicator output from the bar `back` bars before the current one.
#[derive(Debug)]
pub enum Read {
    /// A constant value.
    Const {
        /// The value.
        value: Num,
    },
    /// A field of the candle `back` bars ago.
    Field {
        /// Which price field.
        field: PriceField,
        /// How many bars back.
        back: usize,
    },
    /// The output stored under `key` on the bar `back` bars ago.
    Output {
        /// The expression key of the output.
        key: String,
        /// How many bars back.
        back: usize,
    },
}

/// How an expression's value is found at a bar: the reads at its leaves and
/// the arithmetic that combines them.
#[derive(Debug)]
pub enum Plan {
    /// Take one value as read.
    Read(Read),
    /// `left + right`.
    Add(Box<Plan>, Box<Plan>),
    /// `left - right`.
    Sub(Box<Plan>, Box<Plan>),
    /// `left * right`.
    Mul(Box<Plan>, Box<Plan>),
    /// `left / right`.
    Div(Box<Plan>, Box<Plan>),
}

/// `n` held within `usize`, as a saturating addition leaves it.
pub open spec fn saturate_usize(n: int) -> int {
    if n > usize::MAX {
        usize::MAX as int
    } else {
        n
    }
}

/// Whether `p` finds the value of `e` at `back` bars before the current one:
/// a look back by `bars` moves every read inside it `bars` further back
/// (saturating), an indicator reads its own key, and arithmetic keeps its shape.
pub open spec fn plans(p: Plan, e: Expr, back: int) -> bool
    decreases e,
{
    match e {
        Expr::Const { value } => p == Plan::Read(Read::Const { value: value.num() }),
        Expr::Price { field } => p == Plan::Read(Read::Field { field, back: back as usize }),
        Expr::Indicator { .. } => p matches Plan::Read(Read::Output { key, back: b }) && key@
            == key_text(e) && b == back,
        Expr::Prev { of, bars } => plans(p, *of, saturate_usize(back + bars)),
        Expr::Add { left, right } => p matches Plan::Add(l, r) && plans(*l, *left, back) && plans(
            *r,
            *right,
            back,
        ),
        Expr::Sub { left, right } => p matches Plan::Sub(l, r) && plans(*l, *left, back) && plans(
            *r,
            *right,
            back,
        ),
        Expr::Mul { left, right } => p matches Plan::Mul(l, r) && plans(*l, *left, back) && plans(
            *r,
            *right,
            back,
        ),
        Expr::Div { left, right } => p matches Plan::Div(l, r) && plans(*l, *left, back) && plans(
            *r,
            *right,
            back,
        ),
    }
}

/// Whether every bar `p` reads lies at most `depth` bars back.
pub open spec fn reads_within(p: Plan, depth: int) -> bool
    decreases p,
{
    match p {
        Plan::Read(Read::Const { .. }) => true,
        Plan::Read(Read::Field { back, .. }) => back <= depth,
        Plan::Read(Read::Output { back, .. }) => back <= depth,
        Plan::Add(l, r) | Plan::Sub(l, r) | Plan::Mul(l, r) | Plan::Div(l, r) => reads_within(*l, depth)
            && reads_within(*r, depth),
    }
}

proof fn lemma_reads_within_grows(p: Plan, d: int, e: int)
    requires
        reads_within(p, d),
        d <= e,
    ensures
        reads_within(p, e),
    decreases p,
{
    match p {
        Plan::Read(_) => {},
        Plan::Add(l, r) | Plan::Sub(l, r) | Plan::Mul(l, r) | Plan::Div(l, r) => {
            lemma_reads_within_grows(*l, d, e);
            lemma_reads_within_grows(*r, d, e);
        },
    }
}

/// Finding an expression's value at bar `back` never reads further back than
/// `back` plus the expression's lookback, so a window as deep as the lookback
/// (plus the current bar) holds every bar the current value needs.
pub proof fn lemma_plan_reads_within_lookback(p: Plan, e: Expr, back: int)
    requires
        plans(p, e, back),
        0 <= back,
    ensures
        reads_within(p, back + lookback_of(e)),
    decreases e,
{
    match e {
        Expr::Prev { of, bars } => {
            let b = saturate_usize(back + bars);
            lemma_plan_reads_within_lookback(p, *of, b);
            lemma_reads_within_grows(p, b + lookback_of(*of), back + lookback_of(e));
        },
        Expr::Add { left, right }
        | Expr::Sub { left, right }
        | Expr::Mul { left, right }
        | Expr::Div { left, right } => {
            match p {
                Plan::Add(l, r) | Plan::Sub(l, r) | Plan::Mul(l, r) | Plan::Div(l, r) => {
                    lemma_plan_reads_within_lookback(*l, *left, back);
                    lemma_plan_reads_within_lookback(*r, *right, back);
                    lemma_reads_within_grows(*l, back + lookback_of(*left), back + lookback_of(e));
                    lemma_reads_within_grows(*r, back + lookback_of(*right), back + lookback_of(e));
                },
                Plan::Read(_) => {},
            }
        },
        _ => {},
    }
}

impl Expr {
    /// How to find this expression's value `back` bars before the current
    /// one: each look back moves the reads inside it further back, saturating
    /// at the largest `usize`.
    pub fn plan_at(&self, back: usize) -> (p: Plan)
        ensures
            plans(p, *self, back as int),
        decreases self,
    {
        match self {
            Expr::Const { value } => Plan::Read(Read::Const { value: value.value() }),
            Expr::Price { field } => Plan::Read(Read::Field { field: *field, back }),
            Expr::Indicator { .. } => Plan::Read(Read::Output { key: self.key(), back }),
            Expr::Prev { of, bars } => (**of).plan_at(back.saturating_add(*bars as usize)),
            Expr::Add { left, right } => Plan::Add(
                Box::new((**left).plan_at(back)),
                Box::new((**right).plan_at(back)),
            ),
            Expr::Sub { left, right } => Plan::Sub(
                Box::new((**left).plan_at(back)),
                Box::new((**right).plan_at(back)),
            ),
            Expr::Mul { left, right } => Plan::Mul(
                Box::new((**left).plan_at(back)),
                Box::new((**right).plan_at(back)),
            ),
            Expr::Div { left, right } => Plan::Div(
                Box::new((**left).plan_at(back)),
                Box::new((**right).plan_at(back)),
            ),
        }
    }
}

} // verus!
