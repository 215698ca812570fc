use rslog::level::LogLevel;
use std::str::FromStr;

#[test]
fn level_names() {
    assert_eq!(LogLevel::Trace.name(), "TRACE");
    assert_eq!(LogLevel::Debug.to_string(), "DEBUG");
    assert_eq!(LogLevel::Info.to_string(), "INFO");
    assert_eq!(LogLevel::Warn.to_string(), "WARN");
    assert_eq!(LogLevel::Error.to_string(), "ERROR");
    assert_eq!(LogLevel::Critical.to_string(), "CRITICAL");
}

#[test]
fn level_short_names() {
    assert_eq!(LogLevel::Trace.short_name(), "T");
    assert_eq!(LogLevel::Debug.short_name(), "D");
    assert_eq!(LogLevel::Info.short_name(), "I");
    assert_eq!(LogLevel::Warn.short_name(), "W");
    assert_eq!(LogLevel::Error.short_name(), "E");
    assert_eq!(LogLevel::Critical.short_name(), "C");
}

#[test]
fn level_parse_ignores_case() {
    assert_eq!(LogLevel::from_str("info").unwrap(), LogLevel::Info);
    assert_eq!(LogLevel::from_str("ERROR").unwrap(), LogLevel::Error);
    assert_eq!(LogLevel::parse("WaRn"), Ok(LogLevel::Warn));
    assert_eq!(LogLevel::parse("trace"), Ok(LogLevel::Trace));
    assert_eq!(LogLevel::parse("Critical"), Ok(LogLevel::Critical));
    assert_eq!(LogLevel::parse("DEBUG"), Ok(LogLevel::Debug));
}

#[test]
fn level_parse_refuses_other_text() {
    assert_eq!(LogLevel::parse(""), Err(()));
    assert_eq!(LogLevel::parse("information"), Err(()));
    assert_eq!(LogLevel::parse(" info"), Err(()));
    assert_eq!(LogLevel::parse("warning"), Err(()));
    assert!(LogLevel::from_str("fatal").is_err());
}

#[test]
fn level_parse_reads_back_every_name() {
    for l in [
        LogLevel::Trace,
        LogLevel::Debug,
        LogLevel::Info,
        LogLevel::Warn,
        LogLevel::Error,
        LogLevel::Critical,
    ] {
        assert_eq!(LogLevel::parse(l.name()), Ok(l));
    }
}

#[test]
fn level_should_log_threshold() {
    let current_level = LogLevel::Info;
    assert!(!current_level.should_log(LogLevel::Debug));
    assert!(!current_level.should_log(LogLevel::Trace));
    assert!(current_level.should_log(LogLevel::Info));
    assert!(current_level.should_log(LogLevel::Warn));
    assert!(LogLevel::Trace.should_log(LogLevel::Trace));
    assert!(!LogLevel::Critical.should_log(LogLevel::Error));
    assert!(LogLevel::Critical.should_log(LogLevel::Critical));
}

#[test]
fn level_priorities_in_order() {
    assert_eq!(LogLevel::Trace.priority(), 0);
    assert_eq!(LogLevel::Critical.priority(), 5);
    assert!(LogLevel::Debug < LogLevel::Info);
}
