//! Ordering matches and ranking a cross-section.
//!
//! Matches are ordered by their score (descending or ascending), scoreless
//! matches last, ties by symbol; a cross-section ranks each symbol's value
//! against every other ready symbol's at the same bar.

use crate::num::{is_finite, is_nan, lemma_order_position, lt, order_key, order_position, Num};
use vstd::prelude::*;

verus! {

/// `a` comes before `b` in code-point lexicographic order.
pub open spec fn lex_lt(a: Seq<char>, b: Seq<char>) -> bool
    decreases a.len(),
{
    if a.len() == 0 {
        b.len() > 0
    } else if b.len() == 0 {
        false
    } else if a[0] != b[0] {
        (a[0] as u32) < (b[0] as u32)
    } else {
        lex_lt(a.drop_first(), b.drop_first())
    }
}

/// Whether a list of symbols is in strictly ascending order.
pub open spec fn ascending(symbols: Seq<String>) -> bool {
    forall|i: int, j: int| 0 <= i < j < symbols.len() ==> lex_lt(symbols[i]@, symbols[j]@)
}

/// Whether score `a` ranks strictly ahead of score `b`: a higher score when
/// ranking descending, a lower one ascending, and any score ahead of none.
pub open spec fn ranks_ahead(a: Option<Num>, b: Option<Num>, desc: bool) -> bool {
    match (a, b) {
        (Some(x), Some(y)) => if desc {
            lt(y.bits, x.bits)
        } else {
            lt(x.bits, y.bits)
        },
        (Some(_), None) => true,
        _ => false,
    }
}

/// Whether neither score ranks ahead of the other.
pub open spec fn tied(a: Option<Num>, b: Option<Num>, desc: bool) -> bool {
    !ranks_ahead(a, b, desc) && !ranks_ahead(b, a, desc)
}

/// Whether no score of a list is a NaN.
pub open spec fn no_nan(scores: Seq<Option<Num>>) -> bool {
    forall|i: int| 0 <= i < scores.len() ==> (#[trigger] scores[i] matches Some(n) ==> !is_nan(n.bits))
}

/// The integer a score sorts by: its position in the order of doubles (negated
/// when ranking descending), and past every score when there is none.
pub open spec fn rank_key(a: Option<Num>, desc: bool) -> int {
    match a {
        Some(n) => if desc {
            -order_position(n.bits)
        } else {
            order_position(n.bits)
        },
        None => 0x2_0000_0000_0000_0000int,
    }
}

proof fn lemma_rank_key(a: Option<Num>, b: Option<Num>, desc: bool)
    requires
        a matches Some(x) ==> !is_nan(x.bits),
        b matches Some(y) ==> !is_nan(y.bits),
    ensures
        rank_key(a, desc) < rank_key(b, desc) <==> ranks_ahead(a, b, desc),
        rank_key(a, desc) == rank_key(b, desc) <==> tied(a, b, desc),
{
    match (a, b) {
        (Some(x), Some(y)) => {
            lemma_order_position(x.bits, y.bits);
            lemma_order_position(y.bits, x.bits);
        },
        _ => {},
    }
}

fn key_of(a: Option<Num>, desc: bool) -> (k: i128)
    ensures
        k as int == rank_key(a, desc),
{
    match a {
        Some(n) => {
            let p = order_key(n.bits) as i128;
            if desc {
                -p
            } else {
                p
            }
        },
        None => 0x2_0000_0000_0000_0000i128,
    }
}

/// `(ka, a)` precedes `(kb, b)`: a smaller key, or the same key and an earlier
/// position.
pub open spec fn precedes(ka: int, a: int, kb: int, b: int) -> bool {
    ka < kb || (ka == kb && a < b)
}

/// The number of matches kept under an optional limit.
pub open spec fn kept(n: int, limit: Option<usize>) -> int {
    match limit {
        Some(l) => if l < n {
            l as int
        } else {
            n
        },
        None => n,
    }
}

/// The key of each entry: the rank key of its score, or the same for all
/// entries when there is no ranking.
pub open spec fn entry_key(scores: Seq<Option<Num>>, rank: Option<bool>, i: int) -> int {
    match rank {
        Some(desc) => rank_key(scores[i], desc),
        None => 0,
    }
}

/// Whether entry `i` is ordered before entry `j`: ranked strictly ahead, or
/// tied with a symbol that sorts first.
pub open spec fn ordered_before(
    symbols: Seq<String>,
    scores: Seq<Option<Num>>,
    rank: Option<bool>,
    i: int,
    j: int,
) -> bool {
    match rank {
        Some(desc) => ranks_ahead(scores[i], scores[j], desc) || (tied(scores[i], scores[j], desc)
            && lex_lt(symbols[i]@, symbols[j]@)),
        None => lex_lt(symbols[i]@, symbols[j]@),
    }
}

/// Whether `order` is a report order of the entries under `limit`: as many
/// positions as the limit keeps, each a position of an entry and ordered
/// before the next, and every entry left out ordered after every one kept.
pub open spec fn is_order(
    symbols: Seq<String>,
    scores: Seq<Option<Num>>,
    rank: Option<bool>,
    limit: Option<usize>,
    order: Seq<usize>,
) -> bool {
    &&& order.len() == kept(scores.len() as int, limit)
    &&& forall|i: int| 0 <= i < order.len() ==> order[i] < scores.len()
    &&& forall|i: int, j: int|
        0 <= i < j < order.len() ==> ordered_before(
            symbols,
            scores,
            rank,
            order[i] as int,
            order[j] as int,
        )
    &&& forall|x: int, i: int|
        0 <= x < scores.len() && 0 <= i < order.len() && !order.contains(x as usize)
            ==> #[trigger] ordered_before(symbols, scores, rank, order[i] as int, x)
}

/// The order the matches of a scan are reported in, as positions into the
/// input: by score when ranking (descending or ascending; a match without a
/// score after every match with one), ties by symbol; by symbol alone when not
/// ranking; then cut to `limit`.
///
/// The positions returned are distinct, each is ordered before the next, and
/// every position left out is ordered after every position kept.
pub fn order_matches(
    symbols: &Vec<String>,
    scores: &Vec<Option<Num>>,
    rank: Option<bool>,
    limit: Option<usize>,
) -> (order: Vec<usize>)
    requires
        symbols@.len() == scores@.len(),
        ascending(symbols@),
        no_nan(scores@),
    ensures
        is_order(symbols@, scores@, rank, limit, order@),
{
    let n = scores.len();
    let mut keys: Vec<i128> = Vec::new();
    let mut taken: Vec<bool> = Vec::new();
    let mut i: usize = 0;
    while i < n
        invariant
            n == scores@.len(),
            i <= n,
            keys@.len() == i,
            taken@.len() == i,
            forall|j: int| 0 <= j < i ==> keys@[j] as int == entry_key(scores@, rank, j),
            forall|j: int| 0 <= j < i ==> !taken@[j],
        decreases n - i,
    {
        let k = match rank {
            Some(desc) => key_of(scores[i], desc),
            None => 0i128,
        };
        keys.push(k);
        taken.push(false);
        i = i + 1;
    }
    let count = match limit {
        Some(l) => if l < n {
            l
        } else {
            n
        },
        None => n,
    };
    let mut order: Vec<usize> = Vec::new();
    while order.len() < count
        invariant
            n == scores@.len(),
            count == kept(n as int, limit),
            count <= n,
            keys@.len() == n,
            taken@.len() == n,
            order@.len() <= count,
            forall|j: int| 0 <= j < n ==> keys@[j] as int == entry_key(scores@, rank, j),
            forall|j: int| 0 <= j < order@.len() ==> order@[j] < n,
            forall|x: int| 0 <= x < n ==> (taken@[x] <==> order@.contains(x as usize)),
            forall|a: int, b: int|
                0 <= a < b < order@.len() ==> precedes(
                    entry_key(scores@, rank, order@[a] as int),
                    order@[a] as int,
                    entry_key(scores@, rank, order@[b] as int),
                    order@[b] as int,
                ),
            forall|x: int, a: int|
                #![trigger taken@[x], order@[a]]
                0 <= x < n && 0 <= a < order@.len() && !taken@[x] ==> precedes(
                    entry_key(scores@, rank, order@[a] as int),
                    order@[a] as int,
                    entry_key(scores@, rank, x),
                    x,
                ),
        decreases count - order@.len(),
    {
        // Some position is still free: fewer are taken than exist.
        proof {
            lemma_some_free(order@, n as int);
        }
        let mut best: usize = n;
        let mut j: usize = 0;
        while j < n
            invariant
                n == scores@.len(),
                keys@.len() == n,
                taken@.len() == n,
                j <= n,
                forall|y: int| 0 <= y < n ==> keys@[y] as int == entry_key(scores@, rank, y),
                best == n || (best < j && !taken@[best as int]),
                forall|y: int|
                    0 <= y < j && !taken@[y] ==> best < n && (best as int == y || precedes(
                        entry_key(scores@, rank, best as int),
                        best as int,
                        entry_key(scores@, rank, y),
                        y,
                    )),
            decreases n - j,
        {
            if !taken[j] {
                if best == n || keys[j] < keys[best] {
                    best = j;
                }
            }
            j = j + 1;
        }
        assert(best < n) by {
            let x = choose|x: usize| (x as int) < n && !order@.contains(x);
            assert(!taken@[x as int]);
        }
        let ghost old_order = order@;
        order.push(best);
        taken.set(best, true);
        assert forall|x: int| 0 <= x < n implies (taken@[x] <==> order@.contains(x as usize)) by {
            if x != best as int {
                if old_order.contains(x as usize) {
                    let a = choose|a: int| 0 <= a < old_order.len() && old_order[a] == x as usize;
                    assert(order@[a] == x as usize);
                }
                if order@.contains(x as usize) {
                    let a = choose|a: int| 0 <= a < order@.len() && order@[a] == x as usize;
                    assert(a < old_order.len());
                    assert(old_order[a] == x as usize);
                }
            } else {
                assert(order@[order@.len() - 1] == best);
            }
        }
    }
    proof {
        assert forall|i: int, j: int|
            0 <= i < j < order@.len() implies ordered_before(
            symbols@,
            scores@,
            rank,
            order@[i] as int,
            order@[j] as int,
        ) by {
            lemma_precedes_is_ordered(symbols@, scores@, rank, order@[i] as int, order@[j] as int);
        }
        assert forall|x: int, i: int|
            0 <= x < scores@.len() && 0 <= i < order@.len() && !order@.contains(
                x as usize,
            ) implies #[trigger] ordered_before(symbols@, scores@, rank, order@[i] as int, x) by {
            assert(!taken@[x]);
            lemma_precedes_is_ordered(symbols@, scores@, rank, order@[i] as int, x);
        }
    }
    order
}

/// Code-point order is total: of two different strings, one comes first.
pub proof fn lemma_lex_lt_total(a: Seq<char>, b: Seq<char>)
    ensures
        a != b ==> lex_lt(a, b) || lex_lt(b, a),
    decreases a.len(),
{
    if a.len() == 0 {
        if b.len() == 0 {
            assert(a =~= b);
        }
    } else if b.len() > 0 && a[0] == b[0] {
        lemma_lex_lt_total(a.drop_first(), b.drop_first());
        if a.drop_first() == b.drop_first() {
            assert(a.drop_first().len() == b.drop_first().len());
            assert(a.len() == b.len());
            assert forall|i: int| 0 <= i < a.len() implies a[i] == b[i] by {
                if i > 0 {
                    assert(a[i] == a.drop_first()[i - 1]);
                    assert(b[i] == b.drop_first()[i - 1]);
                }
            }
            assert(a =~= b);
        }
    } else if b.len() > 0 {
        vstd::utf8::char_u32_cast(a[0], a[0] as u32);
        vstd::utf8::char_u32_cast(b[0], b[0] as u32);
    }
}

/// Code-point order is transitive.
pub proof fn lemma_lex_lt_transitive(a: Seq<char>, b: Seq<char>, c: Seq<char>)
    requires
        lex_lt(a, b),
        lex_lt(b, c),
    ensures
        lex_lt(a, c),
    decreases a.len(),
{
    if a.len() > 0 && b.len() > 0 && c.len() > 0 && a[0] == b[0] && b[0] == c[0] {
        lemma_lex_lt_transitive(a.drop_first(), b.drop_first(), c.drop_first());
    }
}

/// Whether `a` comes before `b` in code-point order, the order of `str`.
pub fn lex_less(a: &str, b: &str) -> (r: bool)
    ensures
        r == lex_lt(a@, b@),
{
    let n = a.unicode_len();
    let m = b.unicode_len();
    let mut i: usize = 0;
    assert(a@.skip(0) =~= a@);
    assert(b@.skip(0) =~= b@);
    while i < n && i < m
        invariant
            n == a@.len(),
            m == b@.len(),
            i <= n,
            i <= m,
            lex_lt(a@, b@) == lex_lt(a@.skip(i as int), b@.skip(i as int)),
        decreases n - i,
    {
        let x = a.get_char(i);
        let y = b.get_char(i);
        if x != y {
            assert(a@.skip(i as int)[0] == x);
            assert(b@.skip(i as int)[0] == y);
            return (x as u32) < (y as u32);
        }
        assert(a@.skip(i as int).drop_first() =~= a@.skip(i as int + 1));
        assert(b@.skip(i as int).drop_first() =~= b@.skip(i as int + 1));
        i = i + 1;
    }
    i < m
}

/// Code-point order is a strict order.
pub proof fn lemma_lex_lt_strict(a: Seq<char>, b: Seq<char>)
    ensures
        !lex_lt(a, a),
        !(lex_lt(a, b) && lex_lt(b, a)),
    decreases a.len(),
{
    if a.len() > 0 {
        lemma_lex_lt_strict(a.drop_first(), a.drop_first());
        if b.len() > 0 {
            lemma_lex_lt_strict(a.drop_first(), b.drop_first());
        }
    }
}

/// The report order is a strict order on entries.
proof fn lemma_ordered_before_strict(
    symbols: Seq<String>,
    scores: Seq<Option<Num>>,
    rank: Option<bool>,
    i: int,
    j: int,
)
    ensures
        !ordered_before(symbols, scores, rank, i, i),
        !(ordered_before(symbols, scores, rank, i, j) && ordered_before(
            symbols,
            scores,
            rank,
            j,
            i,
        )),
{
    lemma_lex_lt_strict(symbols[i]@, symbols[i]@);
    lemma_lex_lt_strict(symbols[i]@, symbols[j]@);
}

/// A sequence of positions below `n`, as many as `n` and none twice, holds
/// every position below `n`.
proof fn lemma_full_order_covers(order: Seq<usize>, n: int, x: usize)
    requires
        order.len() == n,
        n <= usize::MAX + 1,
        forall|i: int| 0 <= i < order.len() ==> (order[i] as int) < n,
        order.no_duplicates(),
        (x as int) < n,
    ensures
        order.contains(x),
{
    if !order.contains(x) {
        let r = Set::new(|y: usize| (y as int) < n);
        lemma_usize_range_len(n);
        let rest = r.remove(x);
        let covered = order.to_set();
        assert(covered.subset_of(rest)) by {
            assert forall|y: usize| covered.contains(y) implies rest.contains(y) by {
                let k = choose|k: int| 0 <= k < order.len() && order[k] == y;
                assert(order[k] == y);
            }
        }
        order.unique_seq_to_set();
        vstd::set_lib::lemma_len_subset(covered, rest);
    }
}

/// Cutting the report to a limit keeps its first matches: the order under a
/// limit is the order without one, cut to the limit's length.
pub proof fn lemma_limit_keeps_a_prefix(
    symbols: Seq<String>,
    scores: Seq<Option<Num>>,
    rank: Option<bool>,
    limit: Option<usize>,
    full: Seq<usize>,
    cut: Seq<usize>,
)
    requires
        scores.len() <= usize::MAX,
        is_order(symbols, scores, rank, None, full),
        is_order(symbols, scores, rank, limit, cut),
    ensures
        cut == full.take(cut.len() as int),
{
    let n = scores.len() as int;
    assert forall|i: int, j: int| 0 <= i < full.len() && 0 <= j < full.len() && i != j implies full[i]
        != full[j] by {
        if i < j {
            lemma_ordered_before_strict(symbols, scores, rank, full[i] as int, full[j] as int);
        } else {
            lemma_ordered_before_strict(symbols, scores, rank, full[j] as int, full[i] as int);
        }
    }
    assert(full.no_duplicates());
    assert forall|i: int, j: int| 0 <= i < cut.len() && 0 <= j < cut.len() && i != j implies cut[i]
        != cut[j] by {
        if i < j {
            lemma_ordered_before_strict(symbols, scores, rank, cut[i] as int, cut[j] as int);
        } else {
            lemma_ordered_before_strict(symbols, scores, rank, cut[j] as int, cut[i] as int);
        }
    }
    lemma_cut_matches(symbols, scores, rank, limit, full, cut, cut.len() as int);
    assert(cut =~= full.take(cut.len() as int));
}

proof fn lemma_cut_matches(
    symbols: Seq<String>,
    scores: Seq<Option<Num>>,
    rank: Option<bool>,
    limit: Option<usize>,
    full: Seq<usize>,
    cut: Seq<usize>,
    m: int,
)
    requires
        scores.len() <= usize::MAX,
        is_order(symbols, scores, rank, None, full),
        is_order(symbols, scores, rank, limit, cut),
        full.no_duplicates(),
        forall|i: int, j: int|
            0 <= i < cut.len() && 0 <= j < cut.len() && i != j ==> cut[i] != cut[j],
        0 <= m <= cut.len(),
    ensures
        forall|p: int| 0 <= p < m ==> cut[p] == full[p],
    decreases m,
{
    if m > 0 {
        let i = m - 1;
        lemma_cut_matches(symbols, scores, rank, limit, full, cut, i);
        let n = scores.len() as int;
        let a = full[i];
        let b = cut[i];
        if a != b {
            // Where `b` stands in the full order.
            lemma_full_order_covers(full, n, b);
            let p = choose|p: int| 0 <= p < full.len() && full[p] == b;
            if p < i {
                assert(cut[p] == full[p]);
            }
            assert(p > i);
            assert(ordered_before(symbols, scores, rank, a as int, b as int));
            // Where `a` stands in the cut order, if it is kept.
            if cut.contains(a) {
                let q = choose|q: int| 0 <= q < cut.len() && cut[q] == a;
                if q < i {
                    assert(cut[q] == full[q]);
                }
                assert(q > i);
                assert(ordered_before(symbols, scores, rank, b as int, a as int));
            } else {
                assert(ordered_before(symbols, scores, rank, cut[i] as int, a as int));
            }
            lemma_ordered_before_strict(symbols, scores, rank, a as int, b as int);
        }
    }
}

proof fn lemma_some_free(order: Seq<usize>, n: int)
    requires
        order.len() < n <= usize::MAX + 1,
    ensures
        exists|x: usize| (x as int) < n && !order.contains(x),
{
    if forall|x: usize| (x as int) < n ==> #[trigger] order.contains(x) {
        lemma_all_taken(order, n);
    }
}

proof fn lemma_all_taken(order: Seq<usize>, n: int)
    requires
        order.len() < n <= usize::MAX + 1,
        forall|x: usize| (x as int) < n ==> #[trigger] order.contains(x),
    ensures
        order.len() >= n,
{
    // `order` would cover n distinct positions with fewer entries.
    let s = Set::new(|x: usize| (x as int) < n);
    let covered = order.to_set();
    assert(s.subset_of(covered)) by {
        assert forall|x: usize| s.contains(x) implies covered.contains(x) by {
            assert(order.contains(x as usize));
        }
    }
    vstd::set_lib::lemma_int_range(0, n);
    assert(s =~= Set::new(|x: usize| 0 <= (x as int) < n));
    lemma_usize_range_len(n);
    order.lemma_cardinality_of_set();
    vstd::set_lib::lemma_len_subset(s, covered);
}

proof fn lemma_usize_range_len(n: int)
    requires
        0 <= n <= usize::MAX + 1,
    ensures
        Set::new(|x: usize| (x as int) < n).len() == n,
        Set::new(|x: usize| (x as int) < n).finite(),
    decreases n,
{
    let s = Set::new(|x: usize| (x as int) < n);
    if n == 0 {
        assert(s =~= Set::empty());
    } else {
        lemma_usize_range_len(n - 1);
        let t = Set::new(|x: usize| (x as int) < n - 1);
        assert(s =~= t.insert((n - 1) as usize));
    }
}

proof fn lemma_precedes_is_ordered(
    symbols: Seq<String>,
    scores: Seq<Option<Num>>,
    rank: Option<bool>,
    a: int,
    b: int,
)
    requires
        symbols.len() == scores.len(),
        ascending(symbols),
        no_nan(scores),
        0 <= a < scores.len(),
        0 <= b < scores.len(),
        precedes(entry_key(scores, rank, a), a, entry_key(scores, rank, b), b),
    ensures
        ordered_before(symbols, scores, rank, a, b),
{
    match rank {
        Some(desc) => {
            assert(scores[a] matches Some(x) ==> !is_nan(x.bits));
            assert(scores[b] matches Some(x) ==> !is_nan(x.bits));
            lemma_rank_key(scores[a], scores[b], desc);
        },
        None => {},
    }
}


/// Whether a symbol takes part in a cross-section: it is ready and its value is
/// defined and finite.
pub open spec fn in_section(v: Option<Num>) -> bool {
    v matches Some(n) && is_finite(n.bits)
}

/// Whether two values are the same number (the two zeros included).
pub open spec fn same_value(a: Num, b: Num) -> bool {
    !is_nan(a.bits) && !is_nan(b.bits) && crate::num::scaled(a.bits) == crate::num::scaled(
        b.bits,
    )
}

/// Whether member `j` ranks ahead of member `i`: a higher value, or the same
/// value and an earlier position in the universe's symbol order.
pub open spec fn ranks_above(v: Seq<Option<Num>>, j: int, i: int) -> bool {
    in_section(v[j]) && in_section(v[i]) && j != i && (lt(v[i]->0.bits, v[j]->0.bits) || (
    same_value(v[i]->0, v[j]->0) && j < i))
}

/// Whether member `j`'s value is strictly below member `i`'s.
pub open spec fn below(v: Seq<Option<Num>>, j: int, i: int) -> bool {
    in_section(v[j]) && in_section(v[i]) && lt(v[j]->0.bits, v[i]->0.bits)
}

/// How many of the first `m` symbols rank ahead of symbol `i`.
pub open spec fn count_above(v: Seq<Option<Num>>, i: int, m: int) -> nat
    decreases m,
{
    if m <= 0 {
        0
    } else {
        count_above(v, i, m - 1) + if ranks_above(v, m - 1, i) {
            1nat
        } else {
            0nat
        }
    }
}

/// How many of the first `m` symbols have a value strictly below symbol `i`'s.
pub open spec fn count_below(v: Seq<Option<Num>>, i: int, m: int) -> nat
    decreases m,
{
    if m <= 0 {
        0
    } else {
        count_below(v, i, m - 1) + if below(v, m - 1, i) {
            1nat
        } else {
            0nat
        }
    }
}

/// How many of the first `m` symbols take part in the cross-section.
pub open spec fn members(v: Seq<Option<Num>>, m: int) -> nat
    decreases m,
{
    if m <= 0 {
        0
    } else {
        members(v, m - 1) + if in_section(v[m - 1]) {
            1nat
        } else {
            0nat
        }
    }
}

/// Ranking ahead is a strict order: of two distinct members exactly one ranks
/// ahead of the other, and it is transitive.
proof fn lemma_ranks_above_order(v: Seq<Option<Num>>, i: int, j: int, k: int)
    ensures
        in_section(v[i]) && in_section(v[k]) && i != k ==> (ranks_above(v, i, k) != ranks_above(
            v,
            k,
            i,
        )),
        ranks_above(v, j, k) && ranks_above(v, k, i) ==> ranks_above(v, j, i),
        !ranks_above(v, i, i),
{
}

/// A member that ranks ahead of another has fewer members ahead of it.
proof fn lemma_count_above_grows(v: Seq<Option<Num>>, i: int, k: int, m: int)
    requires
        ranks_above(v, k, i),
        0 <= k < v.len(),
        0 <= m <= v.len(),
    ensures
        count_above(v, i, m) >= count_above(v, k, m) + if k < m {
            1int
        } else {
            0int
        },
    decreases m,
{
    if m > 0 {
        let j = m - 1;
        lemma_count_above_grows(v, i, k, j);
        lemma_ranks_above_order(v, i, j, k);
        lemma_ranks_above_order(v, k, j, k);
    }
}

/// The members ahead of a member are members other than itself.
proof fn lemma_count_above_bounded(v: Seq<Option<Num>>, i: int, m: int)
    requires
        0 <= m <= v.len(),
        0 <= i < v.len(),
        in_section(v[i]),
    ensures
        count_above(v, i, m) + (if i < m {
            1int
        } else {
            0int
        }) <= members(v, m),
    decreases m,
{
    if m > 0 {
        lemma_count_above_bounded(v, i, m - 1);
    }
}

/// The ranks of a cross-section's members are 1 to the number of members,
/// each taken by exactly one member: every rank lies in that range and no two
/// members share one.
pub proof fn lemma_ranks_are_a_permutation(v: Seq<Option<Num>>, i: int, k: int)
    requires
        0 <= i < v.len(),
        0 <= k < v.len(),
        in_section(v[i]),
        in_section(v[k]),
    ensures
        1 <= 1 + count_above(v, i, v.len() as int) <= members(v, v.len() as int),
        i != k ==> count_above(v, i, v.len() as int) != count_above(v, k, v.len() as int),
{
    lemma_count_above_bounded(v, i, v.len() as int);
    if i != k {
        lemma_ranks_above_order(v, i, i, k);
        if ranks_above(v, k, i) {
            lemma_count_above_grows(v, i, k, v.len() as int);
        } else {
            lemma_count_above_grows(v, k, i, v.len() as int);
        }
    }
}

/// The members below a member are members other than itself.
proof fn lemma_count_below_bounded(v: Seq<Option<Num>>, i: int, m: int)
    requires
        0 <= m <= v.len(),
        0 <= i < v.len(),
        in_section(v[i]),
    ensures
        count_below(v, i, m) + (if i < m {
            1int
        } else {
            0int
        }) <= members(v, m),
    decreases m,
{
    if m > 0 {
        lemma_count_below_bounded(v, i, m - 1);
    }
}

/// A member's percentile rank lies in `[0, 1]`: fewer members lie strictly
/// below it than there are members besides itself.
pub proof fn lemma_percentile_in_unit_interval(v: Seq<Option<Num>>, i: int)
    requires
        0 <= i < v.len(),
        in_section(v[i]),
    ensures
        count_below(v, i, v.len() as int) <= members(v, v.len() as int) - 1,
{
    lemma_count_below_bounded(v, i, v.len() as int);
}

fn member(v: Option<Num>) -> (r: bool)
    ensures
        r == in_section(v),
{
    match v {
        Some(n) => crate::num::finite(n.bits),
        None => false,
    }
}

fn same(a: Num, b: Num) -> (r: bool)
    requires
        !is_nan(a.bits),
        !is_nan(b.bits),
    ensures
        r == same_value(a, b),
{
    proof {
        lemma_order_position(a.bits, b.bits);
    }
    order_key(a.bits) == order_key(b.bits)
}

/// The 1-based rank of each symbol's value within the cross-section (highest
/// value rank 1, ties by symbol order), or `None` for a symbol that does not
/// take part. `values` is in the universe's symbol order.
pub fn cross_section_ranks(values: &Vec<Option<Num>>) -> (ranks: Vec<Option<usize>>)
    ensures
        ranks@.len() == values@.len(),
        forall|i: int|
            0 <= i < values@.len() ==> #[trigger] ranks@[i] == if in_section(values@[i]) {
                Some((1 + count_above(values@, i, values@.len() as int)) as usize)
            } else {
                None
            },
{
    let n = values.len();
    let mut ranks: Vec<Option<usize>> = Vec::new();
    let mut i: usize = 0;
    while i < n
        invariant
            n == values@.len(),
            i <= n,
            ranks@.len() == i,
            forall|k: int|
                0 <= k < i ==> #[trigger] ranks@[k] == if in_section(values@[k]) {
                    Some((1 + count_above(values@, k, n as int)) as usize)
                } else {
                    None
                },
        decreases n - i,
    {
        if member(values[i]) {
            let vi = values[i].unwrap();
            let mut c: usize = 0;
            let mut j: usize = 0;
            while j < n
                invariant
                    n == values@.len(),
                    i < n,
                    j <= n,
                    values@[i as int] == Some(vi),
                    in_section(values@[i as int]),
                    c as nat == count_above(values@, i as int, j as int),
                    c + (if j > i {
                        1int
                    } else {
                        0int
                    }) <= j,
                decreases n - j,
            {
                if j != i && member(values[j]) {
                    let vj = values[j].unwrap();
                    if crate::num::less(vi.bits, vj.bits) || (same(vi, vj) && j < i) {
                        c = c + 1;
                    }
                }
                j = j + 1;
            }
            ranks.push(Some(c + 1));
        } else {
            ranks.push(None);
        }
        i = i + 1;
    }
    ranks
}

/// For each symbol in the cross-section, how many members' values lie strictly
/// below its value (the numerator of its percentile rank), or `None` for a
/// symbol that does not take part. `values` is in the universe's symbol order.
pub fn cross_section_below(values: &Vec<Option<Num>>) -> (counts: Vec<Option<usize>>)
    ensures
        counts@.len() == values@.len(),
        forall|i: int|
            0 <= i < values@.len() ==> #[trigger] counts@[i] == if in_section(values@[i]) {
                Some(count_below(values@, i, values@.len() as int) as usize)
            } else {
                None
            },
{
    let n = values.len();
    let mut counts: Vec<Option<usize>> = Vec::new();
    let mut i: usize = 0;
    while i < n
        invariant
            n == values@.len(),
            i <= n,
            counts@.len() == i,
            forall|k: int|
                0 <= k < i ==> #[trigger] counts@[k] == if in_section(values@[k]) {
                    Some(count_below(values@, k, n as int) as usize)
                } else {
                    None
                },
        decreases n - i,
    {
        if member(values[i]) {
            let vi = values[i].unwrap();
            let mut c: usize = 0;
            let mut j: usize = 0;
            while j < n
                invariant
                    n == values@.len(),
                    i < n,
                    j <= n,
                    values@[i as int] == Some(vi),
                    in_section(values@[i as int]),
                    c as nat == count_below(values@, i as int, j as int),
                    c <= j,
                decreases n - j,
            {
                if member(values[j]) {
                    let vj = values[j].unwrap();
                    if crate::num::less(vj.bits, vi.bits) {
                        c = c + 1;
                    }
                }
                j = j + 1;
            }
            counts.push(Some(c));
        } else {
            counts.push(None);
        }
        i = i + 1;
    }
    counts
}

} // verus!
