use rslog::color::{Color, ColorFormatter, LogColorScheme};
use rslog::level::LogLevel;

#[test]
fn color_codes() {
    assert_eq!(Color::Reset.code(), "\x1b[0m");
    assert_eq!(Color::Red.code(), "\x1b[31m");
    assert_eq!(Color::White.code(), "\x1b[37m");
    assert_eq!(Color::BrightBlack.code(), "\x1b[90m");
    assert_eq!(Color::BrightWhite.code(), "\x1b[97m");
}

#[test]
fn color_colorize_wraps_text() {
    assert_eq!(Color::colorize("Hello", Color::Green), "\x1b[32mHello\x1b[0m");
    assert_eq!(Color::colorize("", Color::Blue), "\x1b[34m\x1b[0m");
}

#[test]
fn color_background() {
    assert_eq!(Color::colorize_bg("x", Color::Green), "\x1b[42mx\x1b[0m");
    assert_eq!(Color::colorize_bg("x", Color::BrightCyan), "\x1b[106mx\x1b[0m");
    assert_eq!(Color::colorize_bg("x", Color::Reset), "\x1b[49mx\x1b[0m");
}

#[test]
fn color_full() {
    assert_eq!(Color::colorize_full("t", Color::Blue, Color::White), "\x1b[34m\x1b[47mt\x1b[0m");
    assert_eq!(Color::colorize_full("t", Color::Red, Color::Reset), "\x1b[31mt\x1b[0m");
}

#[test]
fn color_scheme_default_and_lookup() {
    let s = LogColorScheme::default();
    assert_eq!(s.get_color(LogLevel::Trace), Color::BrightBlack);
    assert_eq!(s.get_color(LogLevel::Debug), Color::Cyan);
    assert_eq!(s.get_color(LogLevel::Info), Color::Green);
    assert_eq!(s.get_color(LogLevel::Warn), Color::Yellow);
    assert_eq!(s.get_color(LogLevel::Error), Color::Red);
    assert_eq!(s.get_color(LogLevel::Critical), Color::BrightRed);
    let c = LogColorScheme::new(
        Color::Black,
        Color::Red,
        Color::Green,
        Color::Yellow,
        Color::Blue,
        Color::Magenta,
    );
    assert_eq!(c.get_color(LogLevel::Critical), Color::Magenta);
    assert_eq!(c.get_color(LogLevel::Trace), Color::Black);
}

#[test]
fn color_message_only_when_asked_and_supported() {
    let s = LogColorScheme::default();
    assert_eq!(s.colorize_message(LogLevel::Error, "boom", true, true), "\x1b[31mboom\x1b[0m");
    assert_eq!(s.colorize_message(LogLevel::Error, "boom", false, true), "boom");
    assert_eq!(s.colorize_message(LogLevel::Error, "boom", true, false), "boom");
}

#[test]
fn color_log_line() {
    let s = LogColorScheme::default();
    assert_eq!(
        s.colorize_log_line("ts", LogLevel::Info, "hi", true, true),
        "[ts] \x1b[32m[INFO]\x1b[0m hi"
    );
    assert_eq!(s.colorize_log_line("ts", LogLevel::Info, "hi", false, true), "[ts] [INFO] hi");
}

#[test]
fn color_terminal_support() {
    assert!(Color::supported_by(false, None, false, false, false));
    assert!(Color::supported_by(false, Some("xterm-256color"), false, false, false));
    assert!(!Color::supported_by(true, Some("xterm"), false, false, false));
    assert!(!Color::supported_by(false, Some("DuMb"), false, false, false));
    assert!(!Color::supported_by(false, None, true, false, false));
    assert!(Color::supported_by(false, None, true, true, false));
    assert!(Color::supported_by(false, Some("xterm"), true, false, true));
}

#[test]
fn color_formatter_switch() {
    let mut f = ColorFormatter::new();
    assert!(f.is_enabled());
    assert_eq!(f.format("ts", LogLevel::Warn, "m", true, true), "[ts] \x1b[33m[WARN]\x1b[0m m");
    assert_eq!(f.format("ts", LogLevel::Warn, "m", false, true), "[ts] [WARN] m");
    assert_eq!(f.format_message(LogLevel::Warn, "m", true, true), "\x1b[33mm\x1b[0m");
    f.set_enabled(false);
    assert!(!f.is_enabled());
    assert_eq!(f.format("ts", LogLevel::Warn, "m", true, true), "[ts] [WARN] m");
    assert_eq!(f.format_message(LogLevel::Warn, "m", true, true), "m");
    let g = ColorFormatter::with_scheme(LogColorScheme::new(
        Color::Black,
        Color::Black,
        Color::Black,
        Color::Black,
        Color::Black,
        Color::Blue,
    ));
    assert_eq!(g.format_message(LogLevel::Critical, "x", true, true), "\x1b[34mx\x1b[0m");
    assert!(ColorFormatter::default().is_enabled());
}
