use rslog::config::ConfigBuilder;
use rslog::level::LogLevel;
use rslog::logger::Logger;

#[test]
fn logger_level_filters_messages() {
    let mut logger = Logger::new(ConfigBuilder::new().console_colors(false).build());
    assert_eq!(logger.get_level(), LogLevel::Debug);
    assert!(logger.trace("t", false).is_none());
    assert!(logger.debug("d", false).is_some());
    logger.set_level(LogLevel::Warn);
    assert_eq!(logger.get_level(), LogLevel::Warn);
    assert!(logger.info("Info", false).is_none());
    assert!(logger.debug("Debug", false).is_none());
    assert!(logger.warn("Warning", false).is_some());
    assert!(logger.error("Error", false).is_some());
    let c = logger.critical("Critical", false).unwrap();
    assert!(c.entry.format_text().ends_with("] [CRITICAL] Critical"));
    assert!(c.console_line.unwrap().ends_with("] [CRITICAL] Critical"));
}

#[test]
fn logger_console_switch() {
    let mut logger = Logger::new(ConfigBuilder::new().build());
    logger.set_console_enabled(false);
    assert!(logger.info("x", true).unwrap().console_line.is_none());
    logger.set_console_enabled(true);
    logger.set_console_colors(false);
    let line = logger.info("x", true).unwrap().console_line.unwrap();
    assert!(!line.contains('\x1b'));
    logger.set_console_colors(true);
    let colored = logger.info("x", true).unwrap().console_line.unwrap();
    assert!(colored.starts_with("\x1b[32m"));
}

#[test]
fn logger_module_overrides() {
    let mut logger = Logger::new(ConfigBuilder::new().level(LogLevel::Warn).build());
    logger.set_module_level("network", LogLevel::Error);
    logger.set_module_level("database", LogLevel::Trace);
    assert!(logger.warn_target("network::tcp", "w", false).is_none());
    assert!(logger.error_target("network", "e", false).is_some());
    assert!(logger.trace_target("database::pool", "t", false).is_some());
    assert!(logger.info_target("http", "i", false).is_none());
    assert!(logger.critical_target("http", "c", false).is_some());
    assert!(logger.debug_target("database", "d", false).is_some());
    assert!(logger.log_target("http", LogLevel::Warn, "w", false).is_some());
    assert!(logger.log(LogLevel::Info, "i", false).is_none());
}
