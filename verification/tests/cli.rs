use sraft::cli::{Logging, Opts, LOGGING_EXPECTED};
use std::str::FromStr;

#[test]
fn parses_each_level_in_lower_case() {
    assert_eq!(Logging::parse("trace"), Ok(Logging::Trace));
    assert_eq!(Logging::parse("info"), Ok(Logging::Info));
    assert_eq!(Logging::parse("warn"), Ok(Logging::Warn));
    assert_eq!(Logging::parse("error"), Ok(Logging::Error));
}

#[test]
fn ignores_ascii_case() {
    assert_eq!(Logging::parse("TRACE"), Ok(Logging::Trace));
    assert_eq!(Logging::parse("Info"), Ok(Logging::Info));
    assert_eq!(Logging::parse("wArN"), Ok(Logging::Warn));
    assert_eq!(Logging::parse("ERROR"), Ok(Logging::Error));
}

#[test]
fn refuses_other_names() {
    assert_eq!(Logging::parse("debug"), Err(LOGGING_EXPECTED));
    assert_eq!(Logging::parse(""), Err("{trace, info, warn, error} expected"));
    assert_eq!(Logging::parse("trace "), Err(LOGGING_EXPECTED));
    assert_eq!(Logging::parse("infoo"), Err(LOGGING_EXPECTED));
    assert_eq!(Logging::parse("ınfo"), Err(LOGGING_EXPECTED));
}

#[test]
fn from_str_agrees_with_parse() {
    assert_eq!(Logging::from_str("Warn"), Ok(Logging::Warn));
    assert_eq!("error".parse::<Logging>(), Ok(Logging::Error));
    assert_eq!("loud".parse::<Logging>(), Err(LOGGING_EXPECTED));
}

#[test]
fn options_hold_what_they_are_given() {
    let opts = Opts { id: 7, host: "127.0.0.1:50051".to_string(), nodes: vec!["127.0.0.1:50052".to_string()], logging: Logging::Info };
    assert_eq!(opts.id, 7);
    assert_eq!(opts.nodes.len(), 1);
    assert_eq!(opts.logging, Logging::Info);
}
