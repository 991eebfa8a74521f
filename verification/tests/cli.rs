//! The command line: a spec, exactly one data source, a format and a limit.

use clap::builder::{PathBufValueParser, PossibleValuesParser};
use clap::{Arg, ArgAction, ArgGroup, Command};
use wickra_screener_core::cli::{parse_usize, ArgError, Args, Format};

fn parse(argv: &[&str]) -> Result<Args, ArgError> {
    let argv: Vec<String> = argv.iter().map(|s| (*s).to_string()).collect();
    Args::try_parse_from(&argv)
}

#[test]
fn parses_a_data_source() {
    let args = parse(&["wickra-screener", "--spec", "s.json", "--data", "dir"]).unwrap();
    assert_eq!(args.data, Some("dir".to_string()));
    assert_eq!(args.format, Format::Text);
    assert!(!args.stdin);
}

#[test]
fn data_and_stdin_conflict() {
    assert!(parse(&["wickra-screener", "--spec", "s.json", "--data", "d", "--stdin"]).is_err());
}

#[test]
fn a_source_is_required() {
    assert!(parse(&["wickra-screener", "--spec", "s.json"]).is_err());
}

#[test]
fn format_json_parses() {
    let args = parse(&["wickra-screener", "--spec", "s.json", "--stdin", "--format", "json"]).unwrap();
    assert_eq!(args.format, Format::Json);
}

#[test]
fn the_refusals_say_what_is_wrong() {
    assert!(matches!(
        parse(&["w", "--spec", "s.json", "--data", "d", "--stdin"]),
        Err(ArgError::ConflictingSources)
    ));
    assert!(matches!(parse(&["w", "--stdin"]), Err(ArgError::MissingSpec)));
    assert!(matches!(parse(&["w", "--spec", "s"]), Err(ArgError::MissingSource)));
    assert!(matches!(parse(&["w", "--spec"]), Err(ArgError::MissingValue(o)) if o == "--spec"));
    assert!(matches!(
        parse(&["w", "--spec", "a", "--spec", "b", "--stdin"]),
        Err(ArgError::Repeated(o)) if o == "--spec"
    ));
    assert!(matches!(parse(&["w", "--bogus"]), Err(ArgError::Unknown(o)) if o == "--bogus"));
    assert!(matches!(
        parse(&["w", "--spec", "s", "--stdin", "--format", "yaml"]),
        Err(ArgError::BadFormat(v)) if v == "yaml"
    ));
    assert!(matches!(
        parse(&["w", "--spec", "s", "--stdin", "--limit", "ten"]),
        Err(ArgError::BadLimit(v)) if v == "ten"
    ));
    assert!(matches!(parse(&["w", "--help"]), Err(ArgError::Help)));
    assert!(matches!(parse(&["w", "-V"]), Err(ArgError::Version)));
}

#[test]
fn values_may_follow_an_equals_sign() {
    let args = parse(&["w", "--spec=s.toml", "--stdin", "--limit=7", "--format=json"]).unwrap();
    assert_eq!(args.spec, "s.toml");
    assert_eq!(args.limit, Some(7));
    assert_eq!(args.format, Format::Json);
    assert!(args.stdin);
    assert!(matches!(parse(&["w", "--spec=", "--stdin"]), Err(ArgError::MissingValue(_))));
}

#[test]
fn a_value_cannot_look_like_an_option() {
    assert!(matches!(
        parse(&["w", "--spec", "--stdin"]),
        Err(ArgError::MissingValue(o)) if o == "--spec"
    ));
}

#[test]
fn usize_reads_like_from_str() {
    assert_eq!(parse_usize("25"), Some(25));
    assert_eq!(parse_usize("+3"), Some(3));
    assert_eq!(parse_usize("0"), Some(0));
    assert_eq!(parse_usize(""), None);
    assert_eq!(parse_usize("+"), None);
    assert_eq!(parse_usize("-1"), None);
    assert_eq!(parse_usize("1x"), None);
    assert_eq!(parse_usize(&usize::MAX.to_string()), Some(usize::MAX));
    assert_eq!(parse_usize("99999999999999999999999"), None);
}

#[test]
fn a_refusal_says_what_was_wrong() {
    let refused = |argv: &[&str]| parse(argv).unwrap_err().message();
    assert_eq!(
        refused(&["w", "--spec", "s.json", "--data", "d", "--stdin"]),
        "the argument '--data <DATA>' cannot be used with '--stdin'"
    );
    assert_eq!(
        refused(&["w", "--spec", "s.json"]),
        "one of '--data <DATA>' or '--stdin' is required"
    );
    assert_eq!(refused(&["w", "--stdin"]), "the argument '--spec <SPEC>' is required");
    assert_eq!(
        refused(&["w", "--spec", "s", "--stdin", "--format", "xml"]),
        "invalid value 'xml' for '--format <FORMAT>' [possible values: text, json]"
    );
    assert_eq!(refused(&["w", "--help"]), "");
}

/// The same command line built with clap itself, argument by argument as its
/// derive writes it, to hold the library's reading against.
fn clap_command() -> Command {
    Command::new("wickra-screener")
        .version("0")
        .arg(
            Arg::new("spec")
                .long("spec")
                .required(true)
                .action(ArgAction::Set)
                .value_parser(PathBufValueParser::new()),
        )
        .arg(
            Arg::new("data")
                .long("data")
                .action(ArgAction::Set)
                .value_parser(PathBufValueParser::new()),
        )
        .arg(Arg::new("stdin").long("stdin").action(ArgAction::SetTrue))
        .arg(
            Arg::new("format")
                .long("format")
                .action(ArgAction::Set)
                .default_value("text")
                .value_parser(PossibleValuesParser::new(["text", "json"])),
        )
        .arg(
            Arg::new("limit")
                .long("limit")
                .action(ArgAction::Set)
                .value_parser(|s: &str| s.parse::<usize>()),
        )
        .group(ArgGroup::new("source").required(true).args(["data", "stdin"]))
}

#[test]
fn the_reading_agrees_with_clap() {
    let corpus: &[&[&str]] = &[
        &["w", "--spec", "s.json", "--data", "dir"],
        &["w", "--spec", "s.json", "--stdin"],
        &["w", "--spec", "s.json", "--data", "d", "--stdin"],
        &["w", "--spec", "s.json"],
        &["w", "--stdin"],
        &["w"],
        &["w", "--spec", "s.json", "--stdin", "--format", "json"],
        &["w", "--spec", "s.json", "--stdin", "--format", "text"],
        &["w", "--spec", "s.json", "--stdin", "--format", "yaml"],
        &["w", "--spec", "s.json", "--stdin", "--format"],
        &["w", "--spec", "s.json", "--stdin", "--limit", "7"],
        &["w", "--spec", "s.json", "--stdin", "--limit", "+7"],
        &["w", "--spec", "s.json", "--stdin", "--limit", "-1"],
        &["w", "--spec", "s.json", "--stdin", "--limit", "ten"],
        &["w", "--spec", "s.json", "--stdin", "--limit="],
        &["w", "--spec=s.toml", "--stdin", "--limit=7", "--format=json"],
        &["w", "--spec=", "--stdin"],
        &["w", "--spec", "--stdin"],
        &["w", "--spec", "a", "--spec", "b", "--stdin"],
        &["w", "--spec", "a", "--stdin", "--stdin"],
        &["w", "--spec", "a", "--data", "x", "--data", "y"],
        &["w", "--bogus"],
        &["w", "--spec", "s", "--stdin", "extra"],
        &["w", "--help"],
        &["w", "-h"],
        &["w", "-V"],
        &["w", "--version"],
        &["w", "--spec", "s", "--stdin", "--help"],
    ];
    for argv in corpus {
        let ours = parse(argv);
        let theirs = clap_command().try_get_matches_from(argv.iter());
        match (&ours, &theirs) {
            (Ok(a), Ok(m)) => {
                let spec = m.get_one::<std::path::PathBuf>("spec").unwrap();
                assert_eq!(a.spec, spec.to_string_lossy(), "{argv:?}");
                let data = m.get_one::<std::path::PathBuf>("data");
                assert_eq!(
                    a.data,
                    data.map(|d| d.to_string_lossy().into_owned()),
                    "{argv:?}"
                );
                assert_eq!(a.stdin, m.get_flag("stdin"), "{argv:?}");
                let format = m.get_one::<String>("format").unwrap();
                let expected = if format == "json" { Format::Json } else { Format::Text };
                assert_eq!(a.format, expected, "{argv:?}");
                assert_eq!(a.limit, m.get_one::<usize>("limit").copied(), "{argv:?}");
            }
            (Err(ArgError::Help), Err(e)) => {
                assert_eq!(e.kind(), clap::error::ErrorKind::DisplayHelp, "{argv:?}")
            }
            (Err(ArgError::Version), Err(e)) => {
                assert_eq!(e.kind(), clap::error::ErrorKind::DisplayVersion, "{argv:?}")
            }
            (Err(x), Err(e)) => {
                let kind = e.kind();
                assert!(
                    kind != clap::error::ErrorKind::DisplayHelp
                        && kind != clap::error::ErrorKind::DisplayVersion,
                    "{argv:?}: {x:?} against {kind:?}"
                );
            }
            _ => panic!("{argv:?}: ours {:?}, clap {:?}", ours.is_ok(), theirs.is_ok()),
        }
    }
}
