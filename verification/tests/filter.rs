use rslog::filter::LogFilter;
use rslog::level::LogLevel;

#[test]
fn filter_doc_example() {
    let mut filter = LogFilter::new();
    filter.set_module_level("network", LogLevel::Error);
    filter.set_module_level("database", LogLevel::Debug);
    assert!(!filter.should_log("network", LogLevel::Info));
    assert!(filter.should_log("network", LogLevel::Error));
    assert!(filter.should_log("database", LogLevel::Debug));
}

#[test]
fn filter_longest_prefix_wins() {
    let mut f = LogFilter::new();
    f.set_module_level("myapp", LogLevel::Warn);
    f.set_module_level("myapp::http", LogLevel::Debug);
    assert_eq!(f.get_effective_level("myapp::http::server"), Some(LogLevel::Debug));
    assert_eq!(f.get_effective_level("myapp::db"), Some(LogLevel::Warn));
    assert_eq!(f.get_effective_level("myapp"), Some(LogLevel::Warn));
    assert_eq!(f.get_effective_level("myappx"), None);
    assert_eq!(f.get_effective_level("myapp:http"), None);
    assert_eq!(f.get_effective_level("other"), None);
}

#[test]
fn filter_without_override_passes() {
    let f = LogFilter::new();
    assert!(f.is_empty());
    assert_eq!(f.len(), 0);
    assert_eq!(f.get_effective_level("anything"), None);
    assert!(f.should_log("anything", LogLevel::Trace));
}

#[test]
fn filter_set_replace_remove_clear() {
    let mut f = LogFilter::new();
    f.set_module_level("a", LogLevel::Info);
    f.set_module_level("a", LogLevel::Error);
    assert_eq!(f.len(), 1);
    assert_eq!(f.get_effective_level("a"), Some(LogLevel::Error));
    f.set_module_level("b", LogLevel::Trace);
    assert_eq!(f.len(), 2);
    f.remove_module("a");
    assert_eq!(f.len(), 1);
    assert_eq!(f.get_effective_level("a"), None);
    f.remove_module("missing");
    assert_eq!(f.len(), 1);
    let g = f.clone();
    f.clear();
    assert!(f.is_empty());
    assert_eq!(g.get_effective_level("b::c"), Some(LogLevel::Trace));
}

#[test]
fn filter_from_env_string() {
    let f = LogFilter::from_env("network=error,database=debug,http=trace");
    assert_eq!(f.len(), 3);
    assert_eq!(f.get_effective_level("network"), Some(LogLevel::Error));
    assert_eq!(f.get_effective_level("database::pool"), Some(LogLevel::Debug));
    assert_eq!(f.get_effective_level("http"), Some(LogLevel::Trace));
}

#[test]
fn filter_from_env_trims_and_skips() {
    let f = LogFilter::from_env("  a = WARN , broken, b=nonsense,,c=info,a=critical ");
    assert_eq!(f.len(), 2);
    assert_eq!(f.get_effective_level("a"), Some(LogLevel::Critical));
    assert_eq!(f.get_effective_level("c"), Some(LogLevel::Info));
    assert_eq!(f.get_effective_level("b"), None);
    assert!(LogFilter::from_env("").is_empty());
    let g = LogFilter::from_env("x=y=info");
    assert!(g.is_empty());
}
