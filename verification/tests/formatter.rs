use rslog::calendar::unix_days_to_date;
use rslog::formatter::{date_string_at, timestamp_at, Formatter, OutputFormat};
use rslog::level::LogLevel;

#[test]
fn calendar_days_to_dates() {
    assert_eq!(unix_days_to_date(0), (1970, 1, 1));
    assert_eq!(unix_days_to_date(59), (1970, 3, 1));
    assert_eq!(unix_days_to_date(365), (1971, 1, 1));
    assert_eq!(unix_days_to_date(10956), (1999, 12, 31));
    assert_eq!(unix_days_to_date(11016), (2000, 2, 29));
    assert_eq!(unix_days_to_date(11017), (2000, 3, 1));
    assert_eq!(unix_days_to_date(19000), (2022, 1, 8));
}

#[test]
fn formatter_timestamps() {
    assert_eq!(timestamp_at(0, 0), "1970-01-01 00:00:00.000000000");
    assert_eq!(timestamp_at(1_000_000_000, 5), "2001-09-09 01:46:40.000000005");
    assert_eq!(timestamp_at(1715250645, 123456789), "2024-05-09 10:30:45.123456789");
    assert_eq!(date_string_at(1715250645), "20240509");
    assert_eq!(date_string_at(0), "19700101");
}

#[test]
fn formatter_current_time_shape() {
    let ts = Formatter::get_timestamp();
    assert_eq!(ts.len(), 29);
    let b = ts.as_bytes();
    assert_eq!(b[4], b'-');
    assert_eq!(b[10], b' ');
    assert_eq!(b[19], b'.');
    assert!(ts.as_str() >= "2020");
    let d = Formatter::get_date_string();
    assert_eq!(d.len(), 8);
    assert!(d.chars().all(|c| c.is_ascii_digit()));
}

#[test]
fn formatter_text_and_json() {
    let ts = "2026-05-09 10:30:45.123456789";
    let t = Formatter::new();
    assert_eq!(t.format_at(ts, LogLevel::Info, "Hello"), "[2026-05-09 10:30:45.123456789] [INFO] Hello");
    let j = Formatter::with_format(OutputFormat::Json);
    assert_eq!(
        j.format_at(ts, LogLevel::Error, "x"),
        "{\"time\":\"2026-05-09 10:30:45.123456789\",\"level\":\"ERROR\",\"message\":\"x\"}"
    );
}

#[test]
fn formatter_custom_pattern() {
    let ts = "2026-05-09 10:30:45.123456789";
    let f = Formatter::with_pattern("%D %T [%P] %m".to_string());
    assert_eq!(f.format_at(ts, LogLevel::Info, "Hello"), "2026-05-09 10:30:45.123456789 [I] Hello");
    let g = Formatter::with_pattern("%d|%p|%m%n".to_string());
    assert_eq!(g.format_at(ts, LogLevel::Warn, "m"), "2026-05-09 10:30:45.123456789|WARN|m\n");
    let h = Formatter::with_pattern("%m".to_string());
    assert_eq!(h.format_at(ts, LogLevel::Warn, "a%nb"), "a%nb");
    assert_eq!(h.format_at(ts, LogLevel::Info, "50%n done"), "50%n done");
    let m = Formatter::with_pattern("%m%n".to_string());
    assert_eq!(m.format_at(ts, LogLevel::Info, "%d %p"), "%d %p\n");
    let k = Formatter::with_pattern("%%m%x".to_string());
    assert_eq!(k.format_at(ts, LogLevel::Debug, "z"), "%z%x");
}

#[test]
fn formatter_text_accepts_any_timestamp() {
    let t = Formatter::new();
    assert_eq!(t.format_at("", LogLevel::Info, "x"), "[] [INFO] x");
    let j = Formatter::with_format(OutputFormat::Json);
    assert_eq!(j.format_at("é", LogLevel::Info, "x"), "{\"time\":\"é\",\"level\":\"INFO\",\"message\":\"x\"}");
}

#[test]
fn formatter_format_uses_clock() {
    let f = Formatter::new();
    let line = f.format(LogLevel::Critical, "bye");
    assert!(line.starts_with('['));
    assert!(line.ends_with("] [CRITICAL] bye"));
    assert_eq!(line.len(), 1 + 29 + "] [CRITICAL] bye".len());
}
