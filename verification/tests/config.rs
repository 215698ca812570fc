use rslog::color::{Color, LogColorScheme};
use rslog::config::{Config, ConfigBuilder};
use rslog::filter::LogFilter;
use rslog::formatter::OutputFormat;
use rslog::level::LogLevel;
use rslog::rotator::{RotationStrategy, RotatorConfig};

#[test]
fn config_default_values() {
    let config = Config::default();
    assert_eq!(config.log_dir, "logs");
    assert_eq!(config.file_prefix, "serial_");
    assert_eq!(config.file_extension, ".log");
    assert!(config.console_enabled);
    assert!(config.console_colors);
    assert_eq!(config.level, LogLevel::Debug);
    assert_eq!(config.output_format, OutputFormat::Text);
    assert_eq!(config.rotation, Some(RotatorConfig::default()));
    assert_eq!(config.color_scheme, LogColorScheme::default());
    assert!(config.filter.is_empty());
}

#[test]
fn config_builder_sets_and_defaults() {
    let config = ConfigBuilder::new()
        .log_dir("my_logs")
        .file_prefix("app_")
        .level(LogLevel::Info)
        .output_format(OutputFormat::Json)
        .build();
    assert_eq!(config.log_dir, "my_logs");
    assert_eq!(config.file_prefix, "app_");
    assert_eq!(config.file_extension, ".log");
    assert_eq!(config.level, LogLevel::Info);
    assert_eq!(config.output_format, OutputFormat::Json);
    assert_eq!(config.rotation, Some(RotatorConfig::default()));
    let empty = Config::builder().build();
    assert_eq!(empty.log_dir, "logs");
    assert_eq!(empty.level, LogLevel::Debug);
    assert!(empty.console_enabled);
}

#[test]
fn config_builder_rotation_switches() {
    let custom = RotatorConfig {
        strategy: RotationStrategy::Daily,
        max_files: 5,
        compress_old_files: true,
    };
    assert_eq!(ConfigBuilder::new().rotation(custom).build().rotation, Some(custom));
    assert_eq!(ConfigBuilder::new().disable_rotation().build().rotation, None);
    assert_eq!(
        ConfigBuilder::new().disable_rotation().enable_rotation().build().rotation,
        Some(RotatorConfig::default())
    );
}

#[test]
fn config_builder_console_and_colors() {
    let mut f = LogFilter::new();
    f.set_module_level("net", LogLevel::Error);
    let scheme = LogColorScheme::new(
        Color::BrightBlack,
        Color::BrightCyan,
        Color::BrightGreen,
        Color::BrightYellow,
        Color::BrightRed,
        Color::Magenta,
    );
    let c = ConfigBuilder::new()
        .file_extension(".txt")
        .console_enabled(false)
        .console_colors(false)
        .color_scheme(scheme)
        .filter(f)
        .build();
    assert_eq!(c.file_extension, ".txt");
    assert!(!c.console_enabled);
    assert!(!c.console_colors);
    assert_eq!(c.color_scheme, scheme);
    assert_eq!(c.filter.get_effective_level("net::tcp"), Some(LogLevel::Error));
    let d = c.clone();
    assert_eq!(d.file_extension, ".txt");
    assert_eq!(d.filter.len(), 1);
}

#[test]
fn config_log_file_paths() {
    let config = ConfigBuilder::new().log_dir("logs").file_prefix("app_").build();
    assert_eq!(config.log_file_path_for("20260509"), "logs/app_20260509.log");
    let path = config.get_log_file_path();
    assert!(path.starts_with("logs/app_"));
    assert!(path.ends_with(".log"));
    assert_eq!(path.len(), "logs/app_".len() + 8 + 4);
}
