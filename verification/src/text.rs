//! Building text: characters, decimal numbers and JSON string literals.

use vstd::prelude::*;

verus! {

/// Append one character to a string (std's `String::push`).
#[verifier::external_body]
pub(crate) fn push_char(s: &mut String, c: char)
    ensures
        final(s)@ == old(s)@.push(c),
{
    s.push(c);
}

/// Append a string slice.
pub fn push_str(s: &mut String, t: &str)
    ensures
        final(s)@ == old(s)@ + t@,
{
    s.append(t);
}

/// A string holding the characters of `t`.
pub fn string_of(t: &str) -> (s: String)
    ensures
        s@ == t@,
{
    String::from_str(t)
}

/// The decimal digit character for `d < 10`.
pub open spec fn digit(d: nat) -> char {
    ((48 + d) as u32) as char
}

/// The lowercase hexadecimal digit character for `d < 16`.
pub open spec fn hex_digit(d: nat) -> char {
    if d < 10 {
        ((48 + d) as u32) as char
    } else {
        ((87 + d) as u32) as char
    }
}

/// The decimal rendering of a natural number, most significant digit first.
pub open spec fn dec(n: nat) -> Seq<char>
    decreases n,
{
    if n < 10 {
        seq![digit(n)]
    } else {
        dec(n / 10).push(digit(n % 10))
    }
}

/// The decimal rendering of an integer, with a leading `-` when negative.
pub open spec fn dec_int(n: int) -> Seq<char> {
    if n < 0 {
        seq!['-'] + dec((-n) as nat)
    } else {
        dec(n as nat)
    }
}

fn digit_char(d: u64) -> (c: char)
    requires
        d < 16,
    ensures
        c == hex_digit(d as nat),
{
    if d < 10 {
        ((48 + d) as u8) as char
    } else {
        ((87 + d) as u8) as char
    }
}

/// Append the decimal rendering of `n`.
pub fn push_dec(s: &mut String, n: u64)
    ensures
        final(s)@ == old(s)@ + dec(n as nat),
    decreases n,
{
    if n < 10 {
        push_char(s, digit_char(n));
        assert(old(s)@.push(digit(n as nat)) =~= old(s)@ + dec(n as nat));
    } else {
        push_dec(s, n / 10);
        push_char(s, digit_char(n % 10));
        assert(dec(n as nat) == dec((n / 10) as nat).push(digit((n % 10) as nat)));
        assert(final(s)@ =~= old(s)@ + dec(n as nat));
    }
}

/// The decimal rendering of a `usize`.
pub fn usize_text(n: usize) -> (s: String)
    ensures
        s@ == dec(n as nat),
{
    let mut s = String::new();
    push_dec(&mut s, n as u64);
    assert(s@ =~= dec(n as nat));
    s
}

/// Append the decimal rendering of a signed integer.
pub fn push_dec_i64(s: &mut String, n: i64)
    ensures
        final(s)@ == old(s)@ + dec_int(n as int),
{
    if n < 0 {
        push_char(s, '-');
        let m: u64 = if n == i64::MIN {
            0x8000_0000_0000_0000u64
        } else {
            (-n) as u64
        };
        push_dec(s, m);
        assert(final(s)@ =~= old(s)@ + dec_int(n as int));
    } else {
        push_dec(s, n as u64);
    }
}

/// How one character is written inside a JSON string literal.
pub open spec fn json_escape(c: char) -> Seq<char> {
    if c == '"' {
        seq!['\\', '"']
    } else if c == '\\' {
        seq!['\\', '\\']
    } else if c == '\n' {
        seq!['\\', 'n']
    } else if c == '\r' {
        seq!['\\', 'r']
    } else if c == '\t' {
        seq!['\\', 't']
    } else if (c as u32) < 0x20 {
        seq![
            '\\',
            'u',
            '0',
            '0',
            hex_digit(((c as u32) / 16) as nat),
            hex_digit(((c as u32) % 16) as nat),
        ]
    } else {
        seq![c]
    }
}

/// The characters of `s`, each escaped for a JSON string literal.
pub open spec fn json_escaped(s: Seq<char>) -> Seq<char>
    decreases s.len(),
{
    if s.len() == 0 {
        seq![]
    } else {
        json_escaped(s.drop_last()) + json_escape(s.last())
    }
}

/// `s` as a JSON string literal: quoted, with its specials escaped.
pub open spec fn json_literal(s: Seq<char>) -> Seq<char> {
    seq!['"'] + json_escaped(s) + seq!['"']
}

fn push_json_char(out: &mut String, c: char)
    ensures
        final(out)@ == old(out)@ + json_escape(c),
{
    if c == '"' {
        push_char(out, '\\');
        push_char(out, '"');
    } else if c == '\\' {
        push_char(out, '\\');
        push_char(out, '\\');
    } else if c == '\n' {
        push_char(out, '\\');
        push_char(out, 'n');
    } else if c == '\r' {
        push_char(out, '\\');
        push_char(out, 'r');
    } else if c == '\t' {
        push_char(out, '\\');
        push_char(out, 't');
    } else if (c as u32) < 0x20 {
        let code = c as u32 as u64;
        push_char(out, '\\');
        push_char(out, 'u');
        push_char(out, '0');
        push_char(out, '0');
        push_char(out, digit_char(code / 16));
        push_char(out, digit_char(code % 16));
    } else {
        push_char(out, c);
    }
    assert(final(out)@ =~= old(out)@ + json_escape(c));
}

/// Append `s` as a JSON string literal.
pub fn push_json_string(out: &mut String, s: &str)
    ensures
        final(out)@ == old(out)@ + json_literal(s@),
{
    let n = s.unicode_len();
    push_char(out, '"');
    let ghost start = out@;
    let mut i: usize = 0;
    while i < n
        invariant
            n == s@.len(),
            i <= n,
            start == old(out)@.push('"'),
            out@ == start + json_escaped(s@.take(i as int)),
        decreases n - i,
    {
        let c = s.get_char(i);
        push_json_char(out, c);
        assert(s@.take(i as int + 1).drop_last() =~= s@.take(i as int));
        assert(out@ =~= start + json_escaped(s@.take(i as int + 1)));
        i = i + 1;
    }
    assert(s@.take(n as int) =~= s@);
    push_char(out, '"');
    assert(final(out)@ =~= old(out)@ + json_literal(s@));
}

/// Encode a string as a JSON string literal (quotes and minimal escaping).
pub fn json_string(s: &str) -> (r: String)
    ensures
        r@ == json_literal(s@),
{
    let mut out = String::new();
    push_json_string(&mut out, s);
    assert(out@ =~= json_literal(s@));
    out
}

/// The value of a hexadecimal digit character, either case.
pub open spec fn hex_value(c: char) -> Option<nat> {
    if '0' <= c && c <= '9' {
        Some(((c as u32) - 48) as nat)
    } else if 'a' <= c && c <= 'f' {
        Some(((c as u32) - 87) as nat)
    } else if 'A' <= c && c <= 'F' {
        Some(((c as u32) - 55) as nat)
    } else {
        None
    }
}

/// The character a one-letter JSON escape `\e` stands for.
pub open spec fn simple_escape(e: char) -> Option<char> {
    if e == '"' {
        Some('"')
    } else if e == '\\' {
        Some('\\')
    } else if e == '/' {
        Some('/')
    } else if e == 'b' {
        Some(8u32 as char)
    } else if e == 'f' {
        Some(12u32 as char)
    } else if e == 'n' {
        Some('\n')
    } else if e == 'r' {
        Some('\r')
    } else if e == 't' {
        Some('\t')
    } else {
        None
    }
}

/// The code unit four hex digits `t[0..4]` denote, if they are hex digits.
pub open spec fn hex4(t: Seq<char>) -> Option<nat> {
    match (hex_value(t[0]), hex_value(t[1]), hex_value(t[2]), hex_value(t[3])) {
        (Some(a), Some(b), Some(c), Some(d)) => Some(((a * 16 + b) * 16 + c) * 16 + d),
        _ => None,
    }
}

/// `c` in front of a decoded text, if the text decoded.
pub open spec fn prepend(c: char, rest: Option<Seq<char>>) -> Option<Seq<char>> {
    match rest {
        Some(r) => Some(seq![c] + r),
        None => None,
    }
}

/// The characters the inside of a JSON string literal denotes, as the JSON
/// grammar reads it: a character other than a quote, a backslash or a control
/// character stands for itself, and an escape (`\"`, `\\`, `\/`, `\b`,
/// `\f`, `\n`, `\r`, `\t`, or `\u` and four hex digits) for the character
/// it names. `None` when the text is not such an inside, and for a `\u`
/// escape of a surrogate, whose pairing is not read here.
pub open spec fn json_unescape(t: Seq<char>) -> Option<Seq<char>>
    decreases t.len(),
{
    if t.len() == 0 {
        Some(seq![])
    } else if t[0] == '\\' {
        if t.len() < 2 {
            None
        } else {
            match simple_escape(t[1]) {
                Some(c) => prepend(c, json_unescape(t.skip(2))),
                None => if t[1] == 'u' && t.len() >= 6 {
                    match hex4(t.subrange(2, 6)) {
                        Some(code) => if 0xD800 <= code <= 0xDFFF {
                            None
                        } else {
                            prepend(code as char, json_unescape(t.skip(6)))
                        },
                        None => None,
                    }
                } else {
                    None
                },
            }
        }
    } else if t[0] == '"' || (t[0] as u32) < 0x20 {
        None
    } else {
        prepend(t[0], json_unescape(t.skip(1)))
    }
}

/// The text a JSON string literal denotes, if `lit` is one.
pub open spec fn json_decode(lit: Seq<char>) -> Option<Seq<char>> {
    if lit.len() >= 2 && lit[0] == '"' && lit.last() == '"' {
        json_unescape(lit.subrange(1, lit.len() - 1))
    } else {
        None
    }
}

/// Escaping reads from the front as well: the first character's escape, then
/// the rest's.
proof fn lemma_json_escaped_front(s: Seq<char>)
    requires
        s.len() > 0,
    ensures
        json_escaped(s) == json_escape(s[0]) + json_escaped(s.drop_first()),
    decreases s.len(),
{
    if s.len() == 1 {
        assert(s.drop_last() =~= Seq::<char>::empty());
        assert(s.drop_first() =~= Seq::<char>::empty());
        assert(json_escape(s[0]) + Seq::<char>::empty() =~= json_escape(s[0]));
    } else {
        lemma_json_escaped_front(s.drop_last());
        assert(s.drop_last().drop_first() =~= s.drop_first().drop_last());
        assert(s.drop_first().last() == s.last());
        assert(s.drop_last()[0] == s[0]);
        assert(json_escaped(s) =~= json_escape(s[0]) + json_escaped(s.drop_first()));
    }
}

/// Decoding one escaped character and what follows gives the character, then
/// what the rest decodes to.
proof fn lemma_unescape_one(c: char, rest: Seq<char>)
    ensures
        json_unescape(json_escape(c) + rest) == prepend(c, json_unescape(rest)),
{
    let t = json_escape(c) + rest;
    if c == '"' || c == '\\' || c == '\n' || c == '\r' || c == '\t' {
        assert(t.skip(2) =~= rest);
    } else if (c as u32) < 0x20 {
        let code = c as u32;
        let hi = (code / 16) as nat;
        let lo = (code % 16) as nat;
        assert(hi < 2);
        assert(t.subrange(2, 6) =~= seq!['0', '0', hex_digit(hi), hex_digit(lo)]);
        assert(hex_value('0') == Some(0nat));
        assert(hex_value(hex_digit(hi)) == Some(hi));
        assert(hex_value(hex_digit(lo)) == Some(lo));
        assert(hex4(t.subrange(2, 6)) == Some(hi * 16 + lo));
        assert(hi * 16 + lo == code);
        assert(t.skip(6) =~= rest);
        assert(simple_escape('u') is None);
        assert(code != 8 && code != 12 ==> simple_escape(t[1]) is None);
    } else {
        assert(t.skip(1) =~= rest);
    }
}

proof fn lemma_unescape_escaped(s: Seq<char>)
    ensures
        json_unescape(json_escaped(s)) == Some(s),
    decreases s.len(),
{
    if s.len() > 0 {
        lemma_json_escaped_front(s);
        lemma_unescape_escaped(s.drop_first());
        lemma_unescape_one(s[0], json_escaped(s.drop_first()));
        assert(seq![s[0]] + s.drop_first() =~= s);
    }
}

proof fn lemma_escaped_printable(s: Seq<char>)
    ensures
        forall|i: int| 0 <= i < json_escaped(s).len() ==> (json_escaped(s)[i] as u32) >= 0x20,
    decreases s.len(),
{
    if s.len() > 0 {
        lemma_escaped_printable(s.drop_last());
        let a = json_escaped(s.drop_last());
        let b = json_escape(s.last());
        let c = s.last();
        if (c as u32) < 0x20 && c != '\n' && c != '\r' && c != '\t' {
            let code = c as u32;
            assert(hex_digit((code / 16) as nat) == '0' || hex_digit((code / 16) as nat) == '1');
            assert((hex_digit((code % 16) as nat) as u32) >= 0x30);
        }
        assert forall|i: int| 0 <= i < json_escaped(s).len() implies (json_escaped(s)[i] as u32)
            >= 0x20 by {
            if i >= a.len() {
                assert(json_escaped(s)[i] == b[i - a.len()]);
            } else {
                assert(json_escaped(s)[i] == a[i]);
            }
        }
    }
}

/// A JSON string literal written by [`json_string`] is quoted, holds no
/// control character, and decodes back to exactly the text it was written
/// from.
pub proof fn lemma_json_string_round_trips(s: Seq<char>)
    ensures
        json_literal(s)[0] == '"',
        json_literal(s).last() == '"',
        forall|i: int| 0 <= i < json_literal(s).len() ==> (json_literal(s)[i] as u32) >= 0x20,
        json_decode(json_literal(s)) == Some(s),
{
    let lit = json_literal(s);
    let body = json_escaped(s);
    lemma_unescape_escaped(s);
    lemma_escaped_printable(s);
    assert(lit.subrange(1, lit.len() - 1) =~= body);
    assert forall|i: int| 0 <= i < lit.len() implies (lit[i] as u32) >= 0x20 by {
        if 0 < i < lit.len() - 1 {
            assert(lit[i] == body[i - 1]);
        }
    }
}

} // verus!
