//! The JSON command boundary every binding drives the screener through: which
//! command a request names, the envelopes a response is written in, and the
//! delivery rule of the C ABI's two-call idiom.

use crate::error::Error;
use crate::text::{hex_digit, push_str, string_of};
use vstd::prelude::*;

verus! {

/// How serde_json writes one character inside a string literal.
pub open spec fn serde_escape(c: char) -> Seq<char> {
    if c == '"' {
        seq!['\\', '"']
    } else if c == '\\' {
        seq!['\\', '\\']
    } else if (c as u32) == 8 {
        seq!['\\', 'b']
    } else if (c as u32) == 12 {
        seq!['\\', 'f']
    } else if c == '\n' {
        seq!['\\', 'n']
    } else if c == '\r' {
        seq!['\\', 'r']
    } else if c == '\t' {
        seq!['\\', 't']
    } else if (c as u32) < 0x20 {
        seq![
            '\\',
            'u',
            '0',
            '0',
            hex_digit(((c as u32) / 16) as nat),
            hex_digit(((c as u32) % 16) as nat),
        ]
    } else {
        seq![c]
    }
}

/// The characters of `s`, each as serde_json writes it inside a string.
pub open spec fn serde_escaped(s: Seq<char>) -> Seq<char>
    decreases s.len(),
{
    if s.len() == 0 {
        seq![]
    } else {
        serde_escaped(s.drop_last()) + serde_escape(s.last())
    }
}

/// `s` as the JSON string literal serde_json writes for it.
pub open spec fn serde_literal(s: Seq<char>) -> Seq<char> {
    seq!['"'] + serde_escaped(s) + seq!['"']
}

/// The JSON string literal serde_json writes for `s` (`serde_json::to_string`
/// on a `str`): quoted, with `"` and `\` escaped, backspace, form feed, line
/// feed, carriage return and tab written as `\b \f \n \r \t`, every other
/// character below U+0020 as `\u00xx` in lowercase hex, and every other
/// character unchanged. Serializing a `str` into memory cannot fail.
#[verifier::external_body]
fn serde_string(s: &str) -> (r: String)
    ensures
        r@ == serde_literal(s@),
{
    serde_json::to_string(s).unwrap_or_default()
}

/// The response to a command that succeeded without a body.
pub open spec fn ok_text() -> Seq<char> {
    "{\"ok\":true}"@
}

/// The response to a command that failed, carrying the error's message.
pub open spec fn error_text(message: Seq<char>) -> Seq<char> {
    "{\"error\":"@ + serde_literal(message) + ",\"ok\":false}"@
}

/// The response to the version command.
pub open spec fn version_text(version: Seq<char>) -> Seq<char> {
    "{\"version\":"@ + serde_literal(version) + "}"@
}

/// `{"ok":true}`.
pub fn ok_json() -> (r: String)
    ensures
        r@ == ok_text(),
{
    string_of("{\"ok\":true}")
}

/// `{"error":<message>,"ok":false}`, the shape serde_json gives the object
/// `{"ok": false, "error": message}`.
pub fn error_json(message: &str) -> (r: String)
    ensures
        r@ == error_text(message@),
{
    let mut r = string_of("{\"error\":");
    let m = serde_string(message);
    push_str(&mut r, m.as_str());
    push_str(&mut r, ",\"ok\":false}");
    r
}

/// `{"version":<version>}`.
pub fn version_json(version: &str) -> (r: String)
    ensures
        r@ == version_text(version@),
{
    let mut r = string_of("{\"version\":");
    let v = serde_string(version);
    push_str(&mut r, v.as_str());
    push_str(&mut r, "}");
    r
}

/// A command the screener answers.
#[derive(Clone, Copy, Debug, PartialEq, Eq, Structural)]
pub enum Command {
    /// Replace the spec and clear the streaming universe.
    SetSpec,
    /// Feed one candle for a symbol.
    Feed,
    /// Feed a series of candles for a symbol.
    FeedBatch,
    /// Evaluate the streaming universe.
    Evaluate,
    /// Scan a whole dataset in one call.
    Scan,
    /// Clear the streaming universe.
    Reset,
    /// Report the library version.
    Version,
}

/// The command a name denotes, if any.
pub open spec fn command_named(name: Seq<char>) -> Option<Command> {
    if name == "set_spec"@ {
        Some(Command::SetSpec)
    } else if name == "feed"@ {
        Some(Command::Feed)
    } else if name == "feed_batch"@ {
        Some(Command::FeedBatch)
    } else if name == "evaluate"@ {
        Some(Command::Evaluate)
    } else if name == "scan"@ {
        Some(Command::Scan)
    } else if name == "reset"@ {
        Some(Command::Reset)
    } else if name == "version"@ {
        Some(Command::Version)
    } else {
        None
    }
}

/// The command a request's `cmd` field names; an unknown name is refused.
pub fn command_of(name: &str) -> (r: Result<Command, Error>)
    ensures
        match command_named(name@) {
            Some(c) => r == Ok::<Command, Error>(c),
            None => r matches Err(Error::BadSpec(m)) && m@ == "unknown cmd: "@ + name@,
        },
{
    use_str_equal(name)
}

fn use_str_equal(name: &str) -> (r: Result<Command, Error>)
    ensures
        match command_named(name@) {
            Some(c) => r == Ok::<Command, Error>(c),
            None => r matches Err(Error::BadSpec(m)) && m@ == "unknown cmd: "@ + name@,
        },
{
    if crate::feeds::str_equal(name, "set_spec") {
        Ok(Command::SetSpec)
    } else if crate::feeds::str_equal(name, "feed") {
        Ok(Command::Feed)
    } else if crate::feeds::str_equal(name, "feed_batch") {
        Ok(Command::FeedBatch)
    } else if crate::feeds::str_equal(name, "evaluate") {
        Ok(Command::Evaluate)
    } else if crate::feeds::str_equal(name, "scan") {
        Ok(Command::Scan)
    } else if crate::feeds::str_equal(name, "reset") {
        Ok(Command::Reset)
    } else if crate::feeds::str_equal(name, "version") {
        Ok(Command::Version)
    } else {
        let mut m = string_of("unknown cmd: ");
        push_str(&mut m, name);
        Err(Error::BadSpec(m))
    }
}

/// The refusal of a request without a `cmd` string.
pub fn missing_cmd() -> (e: Error)
    ensures
        e matches Error::BadSpec(m) && m@ == "missing \"cmd\""@,
{
    Error::BadSpec(string_of("missing \"cmd\""))
}

/// The refusal of a request without the field `name`.
pub fn missing_field(name: &str) -> (e: Error)
    ensures
        e matches Error::BadSpec(m) && m@ == "missing \""@ + name@ + "\""@,
{
    let mut m = string_of("missing \"");
    push_str(&mut m, name);
    push_str(&mut m, "\"");
    Error::BadSpec(m)
}

/// The refusal of a request whose field `name` is not a string.
pub fn missing_string_field(name: &str) -> (e: Error)
    ensures
        e matches Error::BadSpec(m) && m@ == "missing string \""@ + name@ + "\""@,
{
    let mut m = string_of("missing string \"");
    push_str(&mut m, name);
    push_str(&mut m, "\"");
    Error::BadSpec(m)
}

// --- the two-call delivery rule -------------------------------------------

/// A response produced for a command but not yet delivered.
#[derive(Debug)]
pub struct Pending {
    /// The command JSON the response answers.
    pub command: String,
    /// The response JSON.
    pub response: String,
}

/// The length, in bytes, of a response's UTF-8 encoding, as `str::len`
/// reports it.
pub open spec fn byte_len(s: Seq<char>) -> int {
    (vstd::utf8::encode_utf8(s).len() as usize) as int
}

/// Whether a response of `len` bytes fits a caller's buffer.
pub open spec fn fits(len: int, cap: usize, has_out: bool) -> bool {
    len < cap && has_out
}

/// A held response, as plain characters.
pub open spec fn held(p: Option<Pending>) -> Option<(Seq<char>, Seq<char>)> {
    match p {
        Some(x) => Some((x.command@, x.response@)),
        None => None,
    }
}

/// The held response a call for `command` answers with: the one held for that
/// very command, if any.
pub open spec fn carried(before: Option<(Seq<char>, Seq<char>)>, command: Seq<char>) -> Option<
    Seq<char>,
> {
    match before {
        Some((c, r)) => if c == command {
            Some(r)
        } else {
            None
        },
        None => None,
    }
}

/// What is held after a response to `command` was settled against a buffer:
/// nothing when it was written, the response otherwise.
pub open spec fn kept(
    command: Seq<char>,
    response: Seq<char>,
    cap: usize,
    has_out: bool,
) -> Option<(Seq<char>, Seq<char>)> {
    if fits(byte_len(response), cap, has_out) {
        None
    } else {
        Some((command, response))
    }
}

/// Take the held response if it answers `command`; any other held response is
/// abandoned, since the caller has moved on.
pub fn take_held(pending: &mut Option<Pending>, command: &str) -> (r: Option<String>)
    ensures
        (*final(pending)) is None,
        opt_view(r) == carried(held(*old(pending)), command@),
{
    let current = pending.take();
    match current {
        Some(p) => {
            if crate::feeds::str_equal(p.command.as_str(), command) {
                Some(p.response)
            } else {
                None
            }
        },
        None => None,
    }
}

/// An optional string as plain characters.
pub open spec fn opt_view(s: Option<String>) -> Option<Seq<char>> {
    match s {
        Some(x) => Some(x@),
        None => None,
    }
}

/// Settle a response: it is written to the caller when it fits the buffer, and
/// otherwise held for the call that reads it, so the command behind it runs
/// exactly once. Returns whether it is written now.
pub fn settle(
    pending: &mut Option<Pending>,
    command: &str,
    response: String,
    cap: usize,
    has_out: bool,
) -> (write: bool)
    ensures
        write == fits(byte_len(response@), cap, has_out),
        held(*final(pending)) == kept(command@, response@, cap, has_out),
{
    let len = response.as_str().len();
    if len < cap && has_out {
        *pending = None;
        true
    } else {
        *pending = Some(Pending { command: string_of(command), response });
        false
    }
}

/// What one call of the C ABI does, given what it holds, the command, the
/// response running the command would give, and the caller's buffer: whether
/// it runs the command, the response it answers with, whether that response is
/// written, and what it holds afterwards.
pub open spec fn call_outcome(
    before: Option<(Seq<char>, Seq<char>)>,
    command: Seq<char>,
    fresh: Seq<char>,
    cap: usize,
    has_out: bool,
) -> (bool, Seq<char>, bool, Option<(Seq<char>, Seq<char>)>) {
    let ran = carried(before, command) is None;
    let response = match carried(before, command) {
        Some(r) => r,
        None => fresh,
    };
    let write = fits(byte_len(response), cap, has_out);
    let after = kept(command, response, cap, has_out);
    (ran, response, write, after)
}

/// The two-call idiom runs a command once: a length query (a buffer too small,
/// or none) runs the command and holds its response; the call that follows
/// with the same command and a buffer it fits answers with that held response
/// without running the command again, and holds nothing afterwards. A retry
/// with a buffer still too small neither runs the command nor loses the
/// response.
pub proof fn lemma_two_call_runs_once(
    command: Seq<char>,
    fresh: Seq<char>,
    later: Seq<char>,
    query_cap: usize,
    query_out: bool,
    cap: usize,
    has_out: bool,
)
    requires
        !fits(byte_len(fresh), query_cap, query_out),
    ensures
        ({
            let (ran1, resp1, write1, after1) = call_outcome(
                None,
                command,
                fresh,
                query_cap,
                query_out,
            );
            let (ran2, resp2, write2, after2) = call_outcome(after1, command, later, cap, has_out);
            &&& ran1 && !write1
            &&& after1 == Some((command, fresh))
            &&& !ran2
            &&& resp2 == fresh
            &&& write2 == fits(byte_len(fresh), cap, has_out)
            &&& (write2 ==> after2 is None)
            &&& (!write2 ==> after2 == Some((command, fresh)))
        }),
{
}

/// A different command abandons a held response: the call runs its own
/// command, and the abandoned response is never delivered.
pub proof fn lemma_other_command_abandons(
    held_command: Seq<char>,
    held_response: Seq<char>,
    command: Seq<char>,
    fresh: Seq<char>,
    cap: usize,
    has_out: bool,
)
    requires
        held_command != command,
    ensures
        ({
            let (ran, resp, write, after) = call_outcome(
                Some((held_command, held_response)),
                command,
                fresh,
                cap,
                has_out,
            );
            &&& ran
            &&& resp == fresh
            &&& (after matches Some((c, _)) ==> c == command)
        }),
{
}

} // verus!
