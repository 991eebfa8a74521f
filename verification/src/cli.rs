//! The command line of the screener: a spec file, one data source, an output
//! format and an optional match limit.

use crate::feeds::str_equal;
use crate::text::{push_str, string_of};
use vstd::prelude::*;

verus! {

/// The report output format.
#[derive(Clone, Copy, Debug, PartialEq, Eq, Structural)]
pub enum Format {
    /// A human-readable aligned table.
    Text,
    /// The raw report JSON.
    Json,
}

/// The parsed command line.
#[derive(Debug)]
pub struct Args {
    /// Path to the scan spec (JSON or TOML, chosen by file extension).
    pub spec: String,
    /// Directory of per-symbol CSV candle files (`<SYMBOL>.csv`).
    pub data: Option<String>,
    /// Read the universe as a JSON dataset from standard input instead.
    pub stdin: bool,
    /// Output format.
    pub format: Format,
    /// Override the spec's match limit.
    pub limit: Option<usize>,
}

/// Why a command line was not accepted. `Help` and `Version` are requests for
/// the help or version text rather than mistakes.
#[derive(Debug)]
pub enum ArgError {
    /// `-h` or `--help` was given.
    Help,
    /// `-V` or `--version` was given.
    Version,
    /// An argument the command line does not define.
    Unknown(String),
    /// An option that takes a value was given none.
    MissingValue(String),
    /// An option was given more than once.
    Repeated(String),
    /// `--format` was given something other than `text` or `json`.
    BadFormat(String),
    /// `--limit` was given something that is not a `usize`.
    BadLimit(String),
    /// `--spec` was not given.
    MissingSpec,
    /// Neither `--data` nor `--stdin` was given.
    MissingSource,
    /// Both `--data` and `--stdin` were given.
    ConflictingSources,
}

/// The value of a decimal digit character, if it is one.
pub open spec fn digit_value(c: char) -> Option<nat> {
    if '0' <= c && c <= '9' {
        Some(((c as u32) - 48) as nat)
    } else {
        None
    }
}

/// The value of a non-empty run of decimal digits, if it is one.
pub open spec fn digits_value(s: Seq<char>) -> Option<nat>
    decreases s.len(),
{
    if s.len() == 0 {
        None
    } else {
        match digit_value(s.last()) {
            None => None,
            Some(d) => if s.len() == 1 {
                Some(d)
            } else {
                match digits_value(s.drop_last()) {
                    Some(v) => Some(v * 10 + d),
                    None => None,
                }
            },
        }
    }
}

/// The `usize` a text denotes, as `usize::from_str` reads it: decimal digits
/// with an optional leading `+`, within range.
pub open spec fn usize_value(s: Seq<char>) -> Option<usize> {
    let digits = if s.len() > 0 && s[0] == '+' {
        s.drop_first()
    } else {
        s
    };
    match digits_value(digits) {
        Some(v) => if v <= usize::MAX {
            Some(v as usize)
        } else {
            None
        },
        None => None,
    }
}

/// Read a `usize` the way `usize::from_str` does.
pub fn parse_usize(s: &str) -> (r: Option<usize>)
    ensures
        r == usize_value(s@),
{
    let n = s.unicode_len();
    let start: usize = if n > 0 && s.get_char(0) == '+' {
        1
    } else {
        0
    };
    let ghost digits = if s@.len() > 0 && s@[0] == '+' {
        s@.drop_first()
    } else {
        s@
    };
    assert(digits =~= s@.subrange(start as int, n as int));
    if start == n {
        assert(digits.len() == 0);
        return None;
    }
    let mut v: usize = 0;
    let mut i: usize = start;
    while i < n
        invariant
            n == s@.len(),
            start < n,
            start <= i <= n,
            digits == s@.subrange(start as int, n as int),
            digits == (if s@.len() > 0 && s@[0] == '+' {
                s@.drop_first()
            } else {
                s@
            }),
            i > start ==> digits_value(s@.subrange(start as int, i as int)) == Some(v as nat),
            i == start ==> v == 0,
        decreases n - i,
    {
        let c = s.get_char(i);
        let ghost prefix = s@.subrange(start as int, i as int + 1);
        assert(prefix.drop_last() =~= s@.subrange(start as int, i as int));
        assert(prefix.last() == c);
        assert(digits.take(i - start + 1) =~= prefix);
        if !('0' <= c && c <= '9') {
            proof {
                assert(digit_value(c) is None);
                assert(digits_value(prefix) is None);
                lemma_digits_none_extends(digits, i - start + 1);
                assert(digits_value(digits) is None);
            }
            return None;
        }
        let d = (c as u32 - 48) as usize;
        assert(digit_value(c) == Some(d as nat));
        assert(digits_value(prefix) == Some((v * 10 + d) as nat)) by {
            if i == start {
                assert(v == 0);
            }
        }
        if v > (usize::MAX - d) / 10 {
            proof {
                assert(v * 10 + d > usize::MAX) by (nonlinear_arith)
                    requires
                        v > (usize::MAX - d) / 10,
                        d <= 9,
                ;
                lemma_digits_too_big(digits, i - start + 1, (v * 10 + d) as nat);
            }
            return None;
        }
        assert(v * 10 + d <= usize::MAX) by (nonlinear_arith)
            requires
                v <= (usize::MAX - d) / 10,
                d <= 9,
        ;
        v = v * 10 + d;
        i = i + 1;
    }
    assert(s@.subrange(start as int, n as int) =~= digits);
    Some(v)
}

/// A prefix that is not all digits makes the whole run not a number.
proof fn lemma_digits_none_extends(s: Seq<char>, k: int)
    requires
        0 < k <= s.len(),
        digits_value(s.take(k)) is None,
    ensures
        digits_value(s) is None,
    decreases s.len(),
{
    if k < s.len() {
        assert(s.drop_last().take(k) =~= s.take(k));
        lemma_digits_none_extends(s.drop_last(), k);
    } else {
        assert(s.take(k) =~= s);
    }
}

/// Digits never shrink the value of a prefix.
proof fn lemma_digits_too_big(s: Seq<char>, k: int, v: nat)
    requires
        0 < k <= s.len(),
        digits_value(s.take(k)) == Some(v),
        v > usize::MAX,
    ensures
        match digits_value(s) {
            Some(w) => w > usize::MAX,
            None => true,
        },
    decreases s.len(),
{
    if k < s.len() {
        assert(s.drop_last().take(k) =~= s.take(k));
        lemma_digits_too_big(s.drop_last(), k, v);
    } else {
        assert(s.take(k) =~= s);
    }
}


/// What one command-line token is.
pub enum Token {
    /// `-h` or `--help`.
    Help,
    /// `-V` or `--version`.
    Version,
    /// `--stdin`.
    Stdin,
    /// `--`, which ends the options.
    EndOfOptions,
    /// An option that takes a value, with the value written after `=` if any.
    Valued(Seq<char>, Option<Seq<char>>),
    /// Anything else.
    Unknown,
}

/// The position of the first `=` in `t` at or after `k`.
pub open spec fn eq_from(t: Seq<char>, k: int) -> Option<int>
    decreases t.len() - k,
{
    if k < 0 || k >= t.len() {
        None
    } else if t[k] == '=' {
        Some(k)
    } else {
        eq_from(t, k + 1)
    }
}

/// Whether `name` is one of the options that take a value.
pub open spec fn valued_option(name: Seq<char>) -> bool {
    name == "--spec"@ || name == "--data"@ || name == "--format"@ || name == "--limit"@
}

/// What a token is.
pub open spec fn classify(t: Seq<char>) -> Token {
    if t == "-h"@ || t == "--help"@ {
        Token::Help
    } else if t == "-V"@ || t == "--version"@ {
        Token::Version
    } else if t == "--stdin"@ {
        Token::Stdin
    } else if t == "--"@ {
        Token::EndOfOptions
    } else {
        match eq_from(t, 0) {
            Some(e) => if valued_option(t.take(e)) {
                Token::Valued(t.take(e), Some(t.skip(e + 1)))
            } else {
                Token::Unknown
            },
            None => if valued_option(t) {
                Token::Valued(t, None)
            } else {
                Token::Unknown
            },
        }
    }
}

/// Whether a token reads as an option rather than a value.
pub open spec fn option_like(t: Seq<char>) -> bool {
    t.len() >= 2 && t[0] == '-'
}

/// The options seen so far.
pub struct Seen {
    /// The spec path.
    pub spec: Option<Seq<char>>,
    /// The data directory.
    pub data: Option<Seq<char>>,
    /// Whether `--stdin` was given.
    pub stdin: bool,
    /// The output format.
    pub format: Option<Format>,
    /// The match limit.
    pub limit: Option<usize>,
}

/// A command-line refusal, as plain characters.
pub enum Refusal {
    /// Help was asked for.
    Help,
    /// The version was asked for.
    Version,
    /// An undefined argument.
    Unknown(Seq<char>),
    /// An option without its value.
    MissingValue(Seq<char>),
    /// An option given twice.
    Repeated(Seq<char>),
    /// An unknown format.
    BadFormat(Seq<char>),
    /// A limit that is not a `usize`.
    BadLimit(Seq<char>),
    /// No `--spec`.
    MissingSpec,
    /// No data source.
    MissingSource,
    /// Two data sources.
    ConflictingSources,
}

/// Whether option `name` has been given already.
pub open spec fn given(st: Seen, name: Seq<char>) -> bool {
    if name == "--spec"@ {
        st.spec is Some
    } else if name == "--data"@ {
        st.data is Some
    } else if name == "--format"@ {
        st.format is Some
    } else {
        st.limit is Some
    }
}

/// Record option `name` with value `v`, or refuse the value.
pub open spec fn record(st: Seen, name: Seq<char>, v: Seq<char>) -> Result<Seen, Refusal> {
    if name == "--spec"@ {
        Ok(Seen { spec: Some(v), ..st })
    } else if name == "--data"@ {
        Ok(Seen { data: Some(v), ..st })
    } else if name == "--format"@ {
        if v == "text"@ {
            Ok(Seen { format: Some(Format::Text), ..st })
        } else if v == "json"@ {
            Ok(Seen { format: Some(Format::Json), ..st })
        } else {
            Err(Refusal::BadFormat(v))
        }
    } else {
        match usize_value(v) {
            Some(n) => Ok(Seen { limit: Some(n), ..st }),
            None => Err(Refusal::BadLimit(v)),
        }
    }
}

/// Read the tokens from position `i` on, having seen `st`.
pub open spec fn read_from(toks: Seq<Seq<char>>, i: int, st: Seen) -> Result<Seen, Refusal>
    decreases toks.len() - i,
{
    if i < 0 || i >= toks.len() {
        Ok(st)
    } else {
        match classify(toks[i]) {
            Token::Help => Err(Refusal::Help),
            Token::Version => Err(Refusal::Version),
            Token::Unknown => Err(Refusal::Unknown(toks[i])),
            Token::EndOfOptions => if i + 1 < toks.len() {
                Err(Refusal::Unknown(toks[i + 1]))
            } else {
                Ok(st)
            },
            Token::Stdin => if st.stdin {
                Err(Refusal::Repeated("--stdin"@))
            } else {
                read_from(toks, i + 1, Seen { stdin: true, ..st })
            },
            Token::Valued(name, inline) => if given(st, name) {
                Err(Refusal::Repeated(name))
            } else {
                match inline {
                    Some(v) => if v.len() == 0 {
                        Err(Refusal::MissingValue(name))
                    } else {
                        match record(st, name, v) {
                            Ok(st2) => read_from(toks, i + 1, st2),
                            Err(e) => Err(e),
                        }
                    },
                    None => if i + 1 < toks.len() && !option_like(toks[i + 1]) {
                        match record(st, name, toks[i + 1]) {
                            Ok(st2) => read_from(toks, i + 2, st2),
                            Err(e) => Err(e),
                        }
                    } else {
                        Err(Refusal::MissingValue(name))
                    },
                }
            },
        }
    }
}

/// Nothing seen yet.
pub open spec fn nothing_seen() -> Seen {
    Seen { spec: None, data: None, stdin: false, format: None, limit: None }
}

/// The command line `argv` (program name first) reads as, once every token is
/// read: both sources conflict, and `--spec` and a source are required.
pub open spec fn command_line(argv: Seq<Seq<char>>) -> Result<Seen, Refusal> {
    match read_from(argv, 1, nothing_seen()) {
        Err(e) => Err(e),
        Ok(st) => if st.data is Some && st.stdin {
            Err(Refusal::ConflictingSources)
        } else if st.spec is None {
            Err(Refusal::MissingSpec)
        } else if st.data is None && !st.stdin {
            Err(Refusal::MissingSource)
        } else {
            Ok(st)
        },
    }
}

/// A refusal as plain characters.
pub open spec fn refusal_of(e: ArgError) -> Refusal {
    match e {
        ArgError::Help => Refusal::Help,
        ArgError::Version => Refusal::Version,
        ArgError::Unknown(s) => Refusal::Unknown(s@),
        ArgError::MissingValue(s) => Refusal::MissingValue(s@),
        ArgError::Repeated(s) => Refusal::Repeated(s@),
        ArgError::BadFormat(s) => Refusal::BadFormat(s@),
        ArgError::BadLimit(s) => Refusal::BadLimit(s@),
        ArgError::MissingSpec => Refusal::MissingSpec,
        ArgError::MissingSource => Refusal::MissingSource,
        ArgError::ConflictingSources => Refusal::ConflictingSources,
    }
}

/// Whether parsed arguments are what was seen, with the default format.
pub open spec fn args_match(a: Args, st: Seen) -> bool {
    &&& st.spec == Some(a.spec@)
    &&& match st.data {
        Some(d) => a.data matches Some(x) && x@ == d,
        None => a.data is None,
    }
    &&& a.stdin == st.stdin
    &&& a.format == match st.format {
        Some(f) => f,
        None => Format::Text,
    }
    &&& a.limit == st.limit
}

/// Whether a classified option carries `name` and the inline value `inline`.
pub open spec fn valued_out(
    o: Option<(String, Option<String>)>,
    name: Seq<char>,
    inline: Option<Seq<char>>,
) -> bool {
    match o {
        Some((n, v)) => n@ == name && match (v, inline) {
            (Some(y), Some(x)) => y@ == x,
            (None, None) => true,
            _ => false,
        },
        None => false,
    }
}

/// The characters of `s` from `from` to `to`.
fn slice(s: &str, from: usize, to: usize) -> (r: String)
    requires
        from <= to <= s@.len(),
    ensures
        r@ == s@.subrange(from as int, to as int),
{
    string_of(s.substring_char(from, to))
}

/// The first `=` of `s`, if any.
fn find_eq(s: &str) -> (r: Option<usize>)
    ensures
        match r {
            Some(k) => eq_from(s@, 0) == Some(k as int) && k < s@.len(),
            None => eq_from(s@, 0) is None,
        },
{
    let n = s.unicode_len();
    let mut k: usize = 0;
    while k < n
        invariant
            n == s@.len(),
            k <= n,
            eq_from(s@, 0) == eq_from(s@, k as int),
        decreases n - k,
    {
        if s.get_char(k) == '=' {
            return Some(k);
        }
        k = k + 1;
    }
    None
}

/// What one token is, as an option name and an inline value when it names an
/// option that takes a value.
fn classify_token(t: &str) -> (r: (u8, Option<(String, Option<String>)>))
    ensures
        match classify(t@) {
            Token::Help => r.0 == 0,
            Token::Version => r.0 == 1,
            Token::Stdin => r.0 == 2,
            Token::EndOfOptions => r.0 == 3,
            Token::Unknown => r.0 == 4,
            Token::Valued(name, inline) => r.0 == 5 && valued_out(r.1, name, inline),
        },
{
    if str_equal(t, "-h") || str_equal(t, "--help") {
        (0, None)
    } else if str_equal(t, "-V") || str_equal(t, "--version") {
        (1, None)
    } else if str_equal(t, "--stdin") {
        (2, None)
    } else if str_equal(t, "--") {
        (3, None)
    } else {
        let n = t.unicode_len();
        match find_eq(t) {
            Some(e) => {
                let name = slice(t, 0, e);
                assert(name@ =~= t@.take(e as int));
                if valued(name.as_str()) {
                    let v = slice(t, e + 1, n);
                    assert(v@ =~= t@.skip(e as int + 1));
                    (5, Some((name, Some(v))))
                } else {
                    (4, None)
                }
            },
            None => {
                if valued(t) {
                    (5, Some((string_of(t), None)))
                } else {
                    (4, None)
                }
            },
        }
    }
}

fn valued(name: &str) -> (r: bool)
    ensures
        r == valued_option(name@),
{
    str_equal(name, "--spec") || str_equal(name, "--data") || str_equal(name, "--format")
        || str_equal(name, "--limit")
}


/// The options seen so far while reading a command line.
struct Reading {
    spec: Option<String>,
    data: Option<String>,
    stdin: bool,
    format: Option<Format>,
    limit: Option<usize>,
}

/// An optional string as plain characters.
pub open spec fn opt_view(s: Option<String>) -> Option<Seq<char>> {
    match s {
        Some(x) => Some(x@),
        None => None,
    }
}

spec fn reading_view(r: Reading) -> Seen {
    Seen {
        spec: opt_view(r.spec),
        data: opt_view(r.data),
        stdin: r.stdin,
        format: r.format,
        limit: r.limit,
    }
}

fn was_given(r: &Reading, name: &str) -> (b: bool)
    requires
        valued_option(name@),
    ensures
        b == given(reading_view(*r), name@),
{
    if str_equal(name, "--spec") {
        r.spec.is_some()
    } else if str_equal(name, "--data") {
        r.data.is_some()
    } else if str_equal(name, "--format") {
        r.format.is_some()
    } else {
        r.limit.is_some()
    }
}

fn record_value(r: &mut Reading, name: &str, v: &str) -> (res: Result<(), ArgError>)
    requires
        valued_option(name@),
    ensures
        match record(reading_view(*old(r)), name@, v@) {
            Ok(st) => res is Ok && reading_view(*final(r)) == st,
            Err(e) => res matches Err(x) && refusal_of(x) == e,
        },
{
    if str_equal(name, "--spec") {
        r.spec = Some(string_of(v));
        Ok(())
    } else if str_equal(name, "--data") {
        r.data = Some(string_of(v));
        Ok(())
    } else if str_equal(name, "--format") {
        if str_equal(v, "text") {
            r.format = Some(Format::Text);
            Ok(())
        } else if str_equal(v, "json") {
            r.format = Some(Format::Json);
            Ok(())
        } else {
            Err(ArgError::BadFormat(string_of(v)))
        }
    } else {
        match parse_usize(v) {
            Some(n) => {
                r.limit = Some(n);
                Ok(())
            },
            None => Err(ArgError::BadLimit(string_of(v))),
        }
    }
}

fn looks_like_option(t: &str) -> (b: bool)
    ensures
        b == option_like(t@),
{
    t.unicode_len() >= 2 && t.get_char(0) == '-'
}

impl Args {
    /// Read a command line, program name first: `--spec <PATH>` (required),
    /// exactly one of `--data <DIR>` and `--stdin`, `--format text|json`
    /// (default `text`) and `--limit <N>`. An option's value follows it, or is
    /// written after `=`; each option may appear once. `-h`/`--help` and
    /// `-V`/`--version` ask for the help or version text instead.
    pub fn try_parse_from(argv: &Vec<String>) -> (r: Result<Args, ArgError>)
        ensures
            match command_line(crate::spec::views(argv@)) {
                Ok(st) => r matches Ok(a) && args_match(a, st),
                Err(e) => r matches Err(x) && refusal_of(x) == e,
            },
    {
        let ghost toks = crate::spec::views(argv@);
        let mut st = Reading { spec: None, data: None, stdin: false, format: None, limit: None };
        let mut i: usize = 1;
        let n = argv.len();
        while i < n
            invariant
                n == argv@.len(),
                toks == crate::spec::views(argv@),
                toks.len() == n,
                1 <= i,
                read_from(toks, 1, nothing_seen()) == read_from(toks, i as int, reading_view(st)),
            decreases n - i,
        {
            let t = argv[i].as_str();
            assert(toks[i as int] == t@);
            let (kind, valued) = classify_token(t);
            if kind == 0 {
                return Err(ArgError::Help);
            } else if kind == 1 {
                return Err(ArgError::Version);
            } else if kind == 2 {
                if st.stdin {
                    return Err(ArgError::Repeated(string_of("--stdin")));
                }
                st.stdin = true;
                i = i + 1;
            } else if kind == 3 {
                if i + 1 < n {
                    assert(toks[i as int + 1] == argv@[i as int + 1]@);
                    return Err(ArgError::Unknown(argv[i + 1].clone()));
                }
                i = n;
            } else if kind == 4 {
                return Err(ArgError::Unknown(string_of(t)));
            } else {
                let (name, inline) = valued.unwrap();
                if was_given(&st, name.as_str()) {
                    return Err(ArgError::Repeated(name));
                }
                match inline {
                    Some(v) => {
                        if v.unicode_len() == 0 {
                            return Err(ArgError::MissingValue(name));
                        }
                        let rec = record_value(&mut st, name.as_str(), v.as_str());
                        if rec.is_err() {
                            return Err(rec.unwrap_err());
                        }
                        i = i + 1;
                    },
                    None => {
                        if i + 1 < n && !looks_like_option(argv[i + 1].as_str()) {
                            assert(toks[i as int + 1] == argv@[i as int + 1]@);
                            let rec = record_value(&mut st, name.as_str(), argv[i + 1].as_str());
                            if rec.is_err() {
                                return Err(rec.unwrap_err());
                            }
                            i = i + 2;
                        } else {
                            return Err(ArgError::MissingValue(name));
                        }
                    },
                }
            }
        }
        if st.data.is_some() && st.stdin {
            return Err(ArgError::ConflictingSources);
        }
        match st.spec {
            None => Err(ArgError::MissingSpec),
            Some(spec) => {
                if st.data.is_none() && !st.stdin {
                    return Err(ArgError::MissingSource);
                }
                let format = match st.format {
                    Some(f) => f,
                    None => Format::Text,
                };
                Ok(Args { spec, data: st.data, stdin: st.stdin, format, limit: st.limit })
            },
        }
    }
}

/// What the command line says of a refusal; empty for the help and version
/// requests, which are answered rather than refused.
pub open spec fn refusal_text(e: ArgError) -> Seq<char> {
    match e {
        ArgError::Help | ArgError::Version => seq![],
        ArgError::Unknown(a) => "unexpected argument '"@ + a@ + "' found"@,
        ArgError::MissingValue(a) => "a value is required for '"@ + a@
            + "' but none was supplied"@,
        ArgError::Repeated(a) => "the argument '"@ + a@ + "' cannot be used multiple times"@,
        ArgError::BadFormat(v) => "invalid value '"@ + v@
            + "' for '--format <FORMAT>' [possible values: text, json]"@,
        ArgError::BadLimit(v) => "invalid value '"@ + v@ + "' for '--limit <LIMIT>'"@,
        ArgError::MissingSpec => "the argument '--spec <SPEC>' is required"@,
        ArgError::MissingSource => "one of '--data <DATA>' or '--stdin' is required"@,
        ArgError::ConflictingSources => "the argument '--data <DATA>' cannot be used with '--stdin'"@,
    }
}

impl ArgError {
    /// What the command line says of this refusal.
    pub fn message(&self) -> (r: String)
        ensures
            r@ == refusal_text(*self),
    {
        let mut r = String::new();
        match self {
            ArgError::Help | ArgError::Version => {},
            ArgError::Unknown(a) => {
                push_str(&mut r, "unexpected argument '");
                push_str(&mut r, a.as_str());
                push_str(&mut r, "' found");
            },
            ArgError::MissingValue(a) => {
                push_str(&mut r, "a value is required for '");
                push_str(&mut r, a.as_str());
                push_str(&mut r, "' but none was supplied");
            },
            ArgError::Repeated(a) => {
                push_str(&mut r, "the argument '");
                push_str(&mut r, a.as_str());
                push_str(&mut r, "' cannot be used multiple times");
            },
            ArgError::BadFormat(v) => {
                push_str(&mut r, "invalid value '");
                push_str(&mut r, v.as_str());
                push_str(&mut r, "' for '--format <FORMAT>' [possible values: text, json]");
            },
            ArgError::BadLimit(v) => {
                push_str(&mut r, "invalid value '");
                push_str(&mut r, v.as_str());
                push_str(&mut r, "' for '--limit <LIMIT>'");
            },
            ArgError::MissingSpec => {
                push_str(&mut r, "the argument '--spec <SPEC>' is required");
            },
            ArgError::MissingSource => {
                push_str(&mut r, "one of '--data <DATA>' or '--stdin' is required");
            },
            ArgError::ConflictingSources => {
                push_str(&mut r, "the argument '--data <DATA>' cannot be used with '--stdin'");
            },
        }
        assert(r@ =~= refusal_text(*self));
        r
    }
}

} // verus!
