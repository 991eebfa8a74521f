//! The command boundary: command names, response envelopes, and the delivery
//! rule of the two-call idiom.

use wickra_screener_core::error::Error;
use wickra_screener_core::protocol::{
    command_of, error_json, missing_cmd, missing_field, missing_string_field, ok_json, settle,
    take_held, version_json, Command, Pending,
};
use wickra_screener_core::version;

#[test]
fn version_command() {
    let r = version_json(version());
    assert_eq!(r, format!(r#"{{"version":"{}"}}"#, version()));
    assert_eq!(version(), "0.1.1");
}

#[test]
fn unknown_cmd_returns_error_json() {
    let err = command_of("nope").unwrap_err();
    let r = error_json(&err.message());
    assert!(r.contains(r#""ok":false"#));
    assert_eq!(r, r#"{"error":"bad spec: unknown cmd: nope","ok":false}"#);
}

#[test]
fn every_command_is_named() {
    assert_eq!(command_of("set_spec").unwrap(), Command::SetSpec);
    assert_eq!(command_of("feed").unwrap(), Command::Feed);
    assert_eq!(command_of("feed_batch").unwrap(), Command::FeedBatch);
    assert_eq!(command_of("evaluate").unwrap(), Command::Evaluate);
    assert_eq!(command_of("scan").unwrap(), Command::Scan);
    assert_eq!(command_of("reset").unwrap(), Command::Reset);
    assert_eq!(command_of("version").unwrap(), Command::Version);
    assert!(command_of("Feed").is_err());
    assert!(command_of("").is_err());
}

#[test]
fn the_envelopes_are_serde_json_objects() {
    assert_eq!(ok_json(), r#"{"ok":true}"#);
    // serde_json orders an object's keys and escapes the message.
    assert_eq!(
        error_json("a \"quoted\" \\ path\n\u{8}\u{c}\u{1}"),
        r#"{"error":"a \"quoted\" \\ path\n\b\f\u0001","ok":false}"#
    );
    let ours = error_json("tab\there");
    let mut object = serde_json::Map::new();
    object.insert("ok".to_string(), serde_json::Value::Bool(false));
    object.insert(
        "error".to_string(),
        serde_json::Value::String("tab\there".to_string()),
    );
    let theirs = serde_json::Value::Object(object).to_string();
    assert_eq!(ours, theirs);
    assert_eq!(version_json("1.2.3"), r#"{"version":"1.2.3"}"#);
}

#[test]
fn bad_envelopes_name_the_missing_field() {
    assert!(matches!(missing_cmd(), Error::BadSpec(m) if m == "missing \"cmd\""));
    assert!(matches!(missing_field("spec"), Error::BadSpec(m) if m == "missing \"spec\""));
    assert!(
        matches!(missing_string_field("symbol"), Error::BadSpec(m) if m == "missing string \"symbol\"")
    );
}

/// One call of the two-call idiom: take a held response or run the command
/// (counting the runs), then settle it against the buffer.
fn call(
    pending: &mut Option<Pending>,
    runs: &mut usize,
    command: &str,
    cap: usize,
    has_out: bool,
) -> (String, bool) {
    let response = match take_held(pending, command) {
        Some(r) => r,
        None => {
            *runs += 1;
            format!("{{\"run\":{runs}}}")
        }
    };
    let written = settle(pending, command, response.clone(), cap, has_out);
    (response, written)
}

#[test]
fn a_length_query_then_a_read_runs_the_command_once() {
    let mut pending = None;
    let mut runs = 0;
    let (first, written) = call(&mut pending, &mut runs, "feed", 0, false);
    assert!(!written);
    assert_eq!(runs, 1);
    let (second, written) = call(&mut pending, &mut runs, "feed", first.len() + 1, true);
    assert!(written);
    assert_eq!(second, first);
    assert_eq!(runs, 1);
    assert!(pending.is_none());
}

#[test]
fn a_buffer_still_too_small_neither_reruns_nor_loses_the_response() {
    let mut pending = None;
    let mut runs = 0;
    let (first, _) = call(&mut pending, &mut runs, "evaluate", 0, false);
    let (again, written) = call(&mut pending, &mut runs, "evaluate", 2, true);
    assert!(!written);
    assert_eq!(again, first);
    assert_eq!(runs, 1);
    // Exactly the length is still too small: the NUL needs a byte.
    let (again, written) = call(&mut pending, &mut runs, "evaluate", first.len(), true);
    assert!(!written);
    assert_eq!(again, first);
    let (last, written) = call(&mut pending, &mut runs, "evaluate", first.len() + 1, true);
    assert!(written);
    assert_eq!(last, first);
    assert_eq!(runs, 1);
}

#[test]
fn another_command_abandons_the_held_response() {
    let mut pending = None;
    let mut runs = 0;
    call(&mut pending, &mut runs, "evaluate", 0, false);
    let (other, written) = call(&mut pending, &mut runs, "reset", 64, true);
    assert!(written);
    assert_eq!(runs, 2);
    assert_eq!(other, "{\"run\":2}");
    // The abandoned response is gone: asking again runs the command afresh.
    let (fresh, _) = call(&mut pending, &mut runs, "evaluate", 64, true);
    assert_eq!(fresh, "{\"run\":3}");
}

#[test]
fn a_buffer_that_fits_writes_at_once() {
    let mut pending = None;
    let mut runs = 0;
    let (r, written) = call(&mut pending, &mut runs, "version", 64, true);
    assert!(written);
    assert_eq!(r, "{\"run\":1}");
    assert!(pending.is_none());
    // A buffer with no room for a NUL, or no buffer at all, holds it instead.
    assert!(!settle(&mut pending, "version", "abc".to_string(), 3, true));
    assert!(!settle(&mut pending, "version", "abc".to_string(), 64, false));
    assert!(settle(&mut pending, "version", "abc".to_string(), 4, true));
    // Lengths are counted in bytes, not characters.
    assert!(!settle(&mut pending, "version", "éé".to_string(), 4, true));
    assert!(settle(&mut pending, "version", "éé".to_string(), 5, true));
}
