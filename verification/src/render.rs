//! The human-readable rendering of a report: an aligned table of the matches
//! and the values that explain them, then a count line.

use crate::protocol::{byte_len, opt_view};
use crate::rank::{ascending, lemma_lex_lt_total, lemma_lex_lt_transitive, lex_less, lex_lt};
use crate::spec::views;
use crate::text::{dec, push_char, push_dec, push_str, string_of};
use vstd::prelude::*;

verus! {

/// One match as the table shows it: its symbol, its score's text if it has a
/// score, and the text of each value it carries, by key.
#[derive(Debug)]
pub struct TextRow {
    /// The symbol.
    pub symbol: String,
    /// The score, as text.
    pub score: Option<String>,
    /// The values, as `(key, text)` pairs with distinct keys.
    pub values: Vec<(String, String)>,
}

/// The text of the value a row carries under `key`, if any.
pub open spec fn lookup(values: Seq<(String, String)>, key: Seq<char>) -> Option<Seq<char>>
    decreases values.len(),
{
    if values.len() == 0 {
        None
    } else if values[0].0@ == key {
        Some(values[0].1@)
    } else {
        lookup(values.drop_first(), key)
    }
}

/// The placeholder for a missing cell.
pub open spec fn dash() -> Seq<char> {
    "-"@
}

/// The cells of a row: symbol, score, then one per key.
pub open spec fn row_cells(row: TextRow, keys: Seq<String>) -> Seq<Seq<char>> {
    seq![row.symbol@, match row.score {
        Some(s) => s@,
        None => dash(),
    }] + Seq::new(
        keys.len(),
        |k: int|
            match lookup(row.values@, keys[k]@) {
                Some(v) => v,
                None => dash(),
            },
    )
}

/// The header cells: `symbol`, `score`, then the keys.
pub open spec fn header_cells(keys: Seq<String>) -> Seq<Seq<char>> {
    seq!["symbol"@, "score"@] + views(keys)
}

/// The widest cell, in bytes, of column `j` among the header and the first `m`
/// rows.
pub open spec fn column_width(
    header: Seq<Seq<char>>,
    rows: Seq<Seq<Seq<char>>>,
    j: int,
    m: int,
) -> int
    decreases m,
{
    if m <= 0 {
        byte_len(header[j])
    } else {
        let w = column_width(header, rows, j, m - 1);
        let c = byte_len(rows[m - 1][j]);
        if c > w {
            c
        } else {
            w
        }
    }
}

/// `n` spaces.
pub open spec fn spaces(n: int) -> Seq<char> {
    Seq::new(if n > 0 {
        n as nat
    } else {
        0
    }, |i: int| ' ')
}

/// A cell padded with spaces on the right to `width` characters.
pub open spec fn padded(cell: Seq<char>, width: int) -> Seq<char> {
    cell + spaces(width - cell.len())
}

/// The first `m` cells of a line, each padded to its column's width, joined by
/// two spaces.
pub open spec fn line_text(cells: Seq<Seq<char>>, widths: Seq<int>, m: int) -> Seq<char>
    decreases m,
{
    if m <= 0 {
        seq![]
    } else if m == 1 {
        padded(cells[0], widths[0])
    } else {
        line_text(cells, widths, m - 1) + "  "@ + padded(cells[m - 1], widths[m - 1])
    }
}

/// The note naming the universe symbols no data arrived for; empty when none
/// are missing.
pub open spec fn missing_note_text(missing: Seq<String>) -> Seq<char> {
    if missing.len() == 0 {
        seq![]
    } else {
        ", "@ + dec(missing.len()) + " missing ("@ + joined(views(missing), missing.len() as int)
            + ")"@
    }
}

/// The first `m` strings joined by `, `.
pub open spec fn joined(items: Seq<Seq<char>>, m: int) -> Seq<char>
    decreases m,
{
    if m <= 0 {
        seq![]
    } else if m == 1 {
        items[0]
    } else {
        joined(items, m - 1) + ", "@ + items[m - 1]
    }
}

/// The trailing note naming the universe symbols no data arrived for.
///
/// A scan that silently left symbols out reads exactly like one that saw the
/// whole universe, so the omission is stated rather than left to be inferred
/// from a count.
pub fn missing_note(missing: &Vec<String>) -> (r: String)
    ensures
        r@ == missing_note_text(missing@),
{
    if missing.len() == 0 {
        return String::new();
    }
    let mut r = string_of(", ");
    push_dec(&mut r, missing.len() as u64);
    push_str(&mut r, " missing (");
    let ghost start = r@;
    let mut i: usize = 0;
    while i < missing.len()
        invariant
            i <= missing.len(),
            missing.len() > 0,
            r@ == start + joined(views(missing@), i as int),
        decreases missing.len() - i,
    {
        if i > 0 {
            push_str(&mut r, ", ");
        }
        push_str(&mut r, missing[i].as_str());
        assert(r@ =~= start + joined(views(missing@), i as int + 1));
        i = i + 1;
    }
    push_str(&mut r, ")");
    assert(r@ =~= missing_note_text(missing@));
    r
}


/// The cells of every row.
pub open spec fn all_cells(rows: Seq<TextRow>, keys: Seq<String>) -> Seq<Seq<Seq<char>>> {
    Seq::new(rows.len(), |i: int| row_cells(rows[i], keys))
}

/// The width of every column.
pub open spec fn all_widths(header: Seq<Seq<char>>, cells: Seq<Seq<Seq<char>>>) -> Seq<int> {
    Seq::new(header.len(), |j: int| column_width(header, cells, j, cells.len() as int))
}

/// The lines of the first `m` rows, each ended by a newline.
pub open spec fn body_text(cells: Seq<Seq<Seq<char>>>, widths: Seq<int>, m: int) -> Seq<char>
    decreases m,
{
    if m <= 0 {
        seq![]
    } else {
        body_text(cells, widths, m - 1) + line_text(cells[m - 1], widths, widths.len() as int)
            + "\n"@
    }
}

/// A report rendered as text: `no matches (...)` when nothing matched,
/// otherwise the header line, one line per match, a blank line and the count
/// line.
pub open spec fn report_text(
    keys: Seq<String>,
    rows: Seq<TextRow>,
    scanned: usize,
    missing: Seq<String>,
) -> Seq<char> {
    if rows.len() == 0 {
        "no matches ("@ + dec(scanned as nat) + " scanned"@ + missing_note_text(missing) + ")\n"@
    } else {
        let header = header_cells(keys);
        let cells = all_cells(rows, keys);
        let widths = all_widths(header, cells);
        line_text(header, widths, widths.len() as int) + "\n"@ + body_text(
            cells,
            widths,
            rows.len() as int,
        ) + "\n"@ + dec(rows.len()) + " match(es), "@ + dec(scanned as nat) + " scanned"@
            + missing_note_text(missing) + "\n"@
    }
}

fn lookup_value(values: &Vec<(String, String)>, key: &str) -> (r: Option<String>)
    ensures
        opt_view(r) == lookup(values@, key@),
{
    let mut i: usize = 0;
    let ghost n = values@.len() as int;
    assert(values@.subrange(0, n) =~= values@);
    while i < values.len()
        invariant
            i <= values.len(),
            n == values@.len(),
            lookup(values@, key@) == lookup(values@.subrange(i as int, n), key@),
        decreases values.len() - i,
    {
        let ghost rest = values@.subrange(i as int, n);
        assert(rest[0] == values@[i as int]);
        assert(rest.drop_first() =~= values@.subrange(i as int + 1, n));
        if crate::feeds::str_equal(values[i].0.as_str(), key) {
            return Some(values[i].1.clone());
        }
        i = i + 1;
    }
    None
}

fn cells_of(row: &TextRow, keys: &Vec<String>) -> (c: Vec<String>)
    ensures
        views(c@) == row_cells(*row, keys@),
{
    let mut c: Vec<String> = Vec::new();
    c.push(row.symbol.clone());
    match &row.score {
        Some(s) => c.push(s.clone()),
        None => c.push(string_of("-")),
    }
    let mut k: usize = 0;
    while k < keys.len()
        invariant
            k <= keys.len(),
            c@.len() == k + 2,
            views(c@) == row_cells(*row, keys@).take(k + 2),
        decreases keys.len() - k,
    {
        match lookup_value(&row.values, keys[k].as_str()) {
            Some(v) => c.push(v),
            None => c.push(string_of("-")),
        }
        assert(views(c@) =~= row_cells(*row, keys@).take(k + 3));
        k = k + 1;
    }
    assert(row_cells(*row, keys@).take(keys@.len() + 2int) =~= row_cells(*row, keys@));
    c
}

fn push_padded(out: &mut String, cell: &String, width: usize)
    ensures
        final(out)@ == old(out)@ + padded(cell@, width as int),
{
    push_str(out, cell.as_str());
    let n = cell.as_str().unicode_len();
    let ghost start = out@;
    let mut k: usize = n;
    while k < width
        invariant
            n == cell@.len(),
            n <= k <= width || (k == n && width < n),
            out@ == start + spaces(k - n),
        decreases width - k,
    {
        push_char(out, ' ');
        assert(out@ =~= start + spaces(k + 1 - n));
        k = k + 1;
    }
    assert(out@ =~= old(out)@ + padded(cell@, width as int));
}

fn push_line(out: &mut String, cells: &Vec<String>, widths: &Vec<usize>)
    requires
        cells@.len() == widths@.len(),
    ensures
        final(out)@ == old(out)@ + line_text(views(cells@), widths_view(widths@), widths@.len() as int),
{
    let ghost start = out@;
    let mut j: usize = 0;
    while j < cells.len()
        invariant
            cells@.len() == widths@.len(),
            j <= cells.len(),
            out@ == start + line_text(views(cells@), widths_view(widths@), j as int),
        decreases cells.len() - j,
    {
        if j > 0 {
            push_str(out, "  ");
        }
        push_padded(out, &cells[j], widths[j]);
        assert(out@ =~= start + line_text(views(cells@), widths_view(widths@), j as int + 1));
        j = j + 1;
    }
}

/// Widths as integers.
pub open spec fn widths_view(w: Seq<usize>) -> Seq<int> {
    w.map_values(|x: usize| x as int)
}

/// Render a report as an aligned text table: a header of `symbol`, `score`
/// and each value key, one line per match (a missing score or value shown as
/// `-`), each column as wide as its widest cell, then a count line naming the
/// missing symbols. `keys` are the value keys to show, in order.
pub fn render_text(
    keys: &Vec<String>,
    rows: &Vec<TextRow>,
    scanned: usize,
    missing: &Vec<String>,
) -> (r: String)
    requires
        keys@.len() + 2 <= usize::MAX,
    ensures
        r@ == report_text(keys@, rows@, scanned, missing@),
{
    if rows.len() == 0 {
        let mut r = string_of("no matches (");
        push_dec(&mut r, scanned as u64);
        push_str(&mut r, " scanned");
        let note = missing_note(missing);
        push_str(&mut r, note.as_str());
        push_str(&mut r, ")\n");
        return r;
    }
    let ncol = keys.len() + 2;
    // The header and every row, as cells.
    let mut header: Vec<String> = Vec::new();
    header.push(string_of("symbol"));
    header.push(string_of("score"));
    let mut k: usize = 0;
    while k < keys.len()
        invariant
            k <= keys.len(),
            views(header@) == header_cells(keys@).take(k + 2),
        decreases keys.len() - k,
    {
        let ghost before = views(header@);
        header.push(keys[k].clone());
        assert(views(keys@)[k as int] == keys@[k as int]@);
        assert(header_cells(keys@)[k + 2] == keys@[k as int]@);
        assert(views(header@) =~= before.push(keys@[k as int]@));
        assert(views(header@) =~= header_cells(keys@).take(k + 3));
        k = k + 1;
    }
    assert(header_cells(keys@).take(keys@.len() + 2int) =~= header_cells(keys@));
    let ghost hv = header_cells(keys@);
    let ghost cv = all_cells(rows@, keys@);
    let mut cells: Vec<Vec<String>> = Vec::new();
    let mut i: usize = 0;
    while i < rows.len()
        invariant
            i <= rows.len(),
            cells@.len() == i,
            cv == all_cells(rows@, keys@),
            forall|a: int| 0 <= a < i ==> views(#[trigger] cells@[a]@) == cv[a],
        decreases rows.len() - i,
    {
        let c = cells_of(&rows[i], keys);
        cells.push(c);
        i = i + 1;
    }
    // The width of every column.
    let mut widths: Vec<usize> = Vec::new();
    let mut j: usize = 0;
    while j < ncol
        invariant
            ncol == keys@.len() + 2,
            views(header@) == hv,
            hv == header_cells(keys@),
            hv.len() == ncol,
            cv == all_cells(rows@, keys@),
            cells@.len() == rows@.len(),
            forall|a: int| 0 <= a < rows@.len() ==> views(#[trigger] cells@[a]@) == cv[a],
            j <= ncol,
            widths@.len() == j,
            forall|b: int| 0 <= b < j ==> widths@[b] as int == #[trigger] all_widths(hv, cv)[b],
        decreases ncol - j,
    {
        let mut w = header[j].as_str().len();
        let mut a: usize = 0;
        while a < cells.len()
            invariant
                j < ncol,
                ncol == keys@.len() + 2,
                views(header@) == hv,
                hv.len() == ncol,
                cv == all_cells(rows@, keys@),
                cells@.len() == rows@.len(),
                forall|a2: int| 0 <= a2 < rows@.len() ==> views(#[trigger] cells@[a2]@) == cv[a2],
                a <= cells.len(),
                w as int == column_width(hv, cv, j as int, a as int),
            decreases cells.len() - a,
        {
            assert(views(cells@[a as int]@) == cv[a as int]);
            assert(cv[a as int] == row_cells(rows@[a as int], keys@));
            assert(cells@[a as int]@.len() == ncol);
            let c = cells[a][j].as_str().len();
            assert(cells@[a as int]@[j as int]@ == cv[a as int][j as int]);
            if c > w {
                w = c;
            }
            a = a + 1;
        }
        widths.push(w);
        j = j + 1;
    }
    let ghost wv = all_widths(hv, cv);
    assert(widths_view(widths@) =~= wv);
    let mut r = String::new();
    push_line(&mut r, &header, &widths);
    push_str(&mut r, "\n");
    let ghost start = r@;
    let mut i: usize = 0;
    while i < cells.len()
        invariant
            i <= cells.len(),
            cells@.len() == rows@.len(),
            ncol == keys@.len() + 2,
            widths@.len() == ncol,
            widths_view(widths@) == wv,
            cv == all_cells(rows@, keys@),
            forall|a: int| 0 <= a < rows@.len() ==> views(#[trigger] cells@[a]@) == cv[a],
            r@ == start + body_text(cv, wv, i as int),
        decreases cells.len() - i,
    {
        assert(views(cells@[i as int]@) == cv[i as int]);
        assert(cv[i as int] == row_cells(rows@[i as int], keys@));
        push_line(&mut r, &cells[i], &widths);
        push_str(&mut r, "\n");
        assert(r@ =~= start + body_text(cv, wv, i as int + 1));
        i = i + 1;
    }
    push_str(&mut r, "\n");
    push_dec(&mut r, rows.len() as u64);
    push_str(&mut r, " match(es), ");
    push_dec(&mut r, scanned as u64);
    push_str(&mut r, " scanned");
    let note = missing_note(missing);
    push_str(&mut r, note.as_str());
    push_str(&mut r, "\n");
    assert(r@ =~= report_text(keys@, rows@, scanned, missing@));
    r
}

/// Whether `keys` lists `key`.
pub open spec fn listed(keys: Seq<String>, key: Seq<char>) -> bool {
    exists|j: int| 0 <= j < keys.len() && #[trigger] keys[j]@ == key
}

/// Whether a value is carried under `key` by one of the rows before row
/// `r`, or by one of the first `v` values of row `r`.
pub open spec fn carried_before(rows: Seq<TextRow>, r: int, v: int, key: Seq<char>) -> bool {
    exists|i: int, j: int|
        0 <= i < rows.len() && 0 <= j < rows[i].values@.len() && (i < r || (i == r && j < v))
            && #[trigger] rows[i].values@[j].0@ == key
}

/// Whether some row carries a value under `key`.
pub open spec fn carried(rows: Seq<TextRow>, key: Seq<char>) -> bool {
    carried_before(rows, rows.len() as int, 0, key)
}

/// Add `k` to an ascending list of keys, keeping it ascending and free of
/// repeats.
fn insert_key(keys: &mut Vec<String>, k: &String)
    requires
        ascending(old(keys)@),
    ensures
        ascending(final(keys)@),
        forall|x: Seq<char>| listed(final(keys)@, x) <==> (listed(old(keys)@, x) || x == k@),
{
    let mut p: usize = 0;
    while p < keys.len() && lex_less(keys[p].as_str(), k.as_str())
        invariant
            p <= keys.len(),
            keys@ == old(keys)@,
            forall|j: int| 0 <= j < p ==> lex_lt(#[trigger] keys@[j]@, k@),
        decreases keys.len() - p,
    {
        p = p + 1;
    }
    if p < keys.len() && keys[p] == *k {
        assert forall|x: Seq<char>| listed(keys@, x) <==> (listed(old(keys)@, x) || x == k@) by {
            if x == k@ {
                assert(keys@[p as int]@ == x);
            }
        }
        return;
    }
    let ghost before = keys@;
    keys.insert(p, k.clone());
    proof {
        let after = keys@;
        assert(after.len() == before.len() + 1);
        assert forall|j: int| 0 <= j < after.len() implies #[trigger] after[j] == (if j < p {
            before[j]
        } else if j == p {
            *k
        } else {
            before[j - 1]
        }) by {}
        if p < before.len() {
            lemma_lex_lt_total(before[p as int]@, k@);
            assert(lex_lt(k@, before[p as int]@));
        }
        assert forall|i: int, j: int| 0 <= i < j < after.len() implies lex_lt(after[i]@, after[j]@) by {
            if j < p {
            } else if j == p {
            } else if i == p {
                if j - 1 > p {
                    lemma_lex_lt_transitive(k@, before[p as int]@, before[j - 1]@);
                }
            } else if i < p {
            } else {
            }
        }
        assert forall|x: Seq<char>| listed(after, x) <==> (listed(before, x) || x == k@) by {
            if listed(after, x) {
                let j = choose|j: int| 0 <= j < after.len() && #[trigger] after[j]@ == x;
                if j < p {
                    assert(before[j]@ == x);
                } else if j > p {
                    assert(before[j - 1]@ == x);
                }
            }
            if listed(before, x) {
                let j = choose|j: int| 0 <= j < before.len() && #[trigger] before[j]@ == x;
                if j < p {
                    assert(after[j]@ == x);
                } else {
                    assert(after[j + 1]@ == x);
                }
            }
            if x == k@ {
                assert(after[p as int]@ == x);
            }
        }
    }
}

/// The keys of every value the rows carry, each once and in ascending order:
/// the columns of the report table after the symbol and the score.
pub fn value_keys(rows: &Vec<TextRow>) -> (keys: Vec<String>)
    ensures
        ascending(keys@),
        forall|k: Seq<char>| listed(keys@, k) <==> carried(rows@, k),
{
    let mut keys: Vec<String> = Vec::new();
    let mut r: usize = 0;
    while r < rows.len()
        invariant
            r <= rows.len(),
            ascending(keys@),
            forall|x: Seq<char>| listed(keys@, x) <==> carried_before(rows@, r as int, 0, x),
        decreases rows.len() - r,
    {
        let values = &rows[r].values;
        let mut v: usize = 0;
        while v < values.len()
            invariant
                r < rows.len(),
                values@ == rows@[r as int].values@,
                v <= values.len(),
                ascending(keys@),
                forall|x: Seq<char>| listed(keys@, x) <==> carried_before(rows@, r as int, v as int, x),
            decreases values.len() - v,
        {
            let ghost prior = keys@;
            insert_key(&mut keys, &values[v].0);
            proof {
                assert forall|x: Seq<char>|
                    carried_before(rows@, r as int, v + 1, x) <==> (carried_before(
                        rows@,
                        r as int,
                        v as int,
                        x,
                    ) || x == values@[v as int].0@) by {
                    if carried_before(rows@, r as int, v + 1, x) {
                        let (i, j) = choose|i: int, j: int|
                            0 <= i < rows@.len() && 0 <= j < rows@[i].values@.len() && (i < r || (i
                                == r && j < v + 1)) && #[trigger] rows@[i].values@[j].0@ == x;
                        if i < r || j < v {
                            assert(rows@[i].values@[j].0@ == x);
                        }
                    }
                    if x == values@[v as int].0@ {
                        assert(rows@[r as int].values@[v as int].0@ == x);
                    }
                }
            }
            v = v + 1;
        }
        proof {
            assert forall|x: Seq<char>|
                carried_before(rows@, r + 1, 0, x) <==> carried_before(
                    rows@,
                    r as int,
                    values@.len() as int,
                    x,
                ) by {
                if carried_before(rows@, r + 1, 0, x) {
                    let (i, j) = choose|i: int, j: int|
                        0 <= i < rows@.len() && 0 <= j < rows@[i].values@.len() && (i < r + 1 || (i
                            == r + 1 && j < 0)) && #[trigger] rows@[i].values@[j].0@ == x;
                    assert(rows@[i].values@[j].0@ == x);
                }
                if carried_before(rows@, r as int, values@.len() as int, x) {
                    let (i, j) = choose|i: int, j: int|
                        0 <= i < rows@.len() && 0 <= j < rows@[i].values@.len() && (i < r || (i
                            == r && j < values@.len())) && #[trigger] rows@[i].values@[j].0@ == x;
                    assert(rows@[i].values@[j].0@ == x);
                }
            }
        }
        r = r + 1;
    }
    keys
}

} // verus!
