use rslog::rotator::{
    compressed_extension, files_to_remove, generate_filename, is_new_day, rotated_index,
    RotationStrategy, RotatorConfig,
};

#[test]
fn rotator_defaults() {
    assert_eq!(RotationStrategy::default(), RotationStrategy::SizeBased(10 * 1024 * 1024));
    let c = RotatorConfig::default();
    assert_eq!(c.max_files, 10);
    assert!(!c.compress_old_files);
    assert_eq!(c.strategy, RotationStrategy::SizeBased(10485760));
}

#[test]
fn rotator_due() {
    assert!(RotationStrategy::SizeBased(100).is_due(100, false));
    assert!(!RotationStrategy::SizeBased(100).is_due(99, true));
    assert!(RotationStrategy::Daily.is_due(0, true));
    assert!(!RotationStrategy::Daily.is_due(u64::MAX, false));
    assert!(RotationStrategy::Combined { size_limit: 10 }.is_due(10, false));
    assert!(RotationStrategy::Combined { size_limit: 10 }.is_due(0, true));
    assert!(!RotationStrategy::Combined { size_limit: 10 }.is_due(9, false));
}

#[test]
fn rotator_file_names() {
    assert_eq!(generate_filename("app.log", "log", 0), "app.log");
    assert_eq!(generate_filename("app.log", "log", 3), "app.3.log");
    assert_eq!(generate_filename("app", "", 12), "app.12");
    assert_eq!(generate_filename("a.b.txt", "txt", 1), "a.b.1.txt");
}

#[test]
fn rotator_indices() {
    assert_eq!(rotated_index("app.3.log", "app", "log"), Some(3));
    assert_eq!(rotated_index("app.log", "app", "log"), None);
    assert_eq!(rotated_index("app.x.log", "app", "log"), None);
    assert_eq!(rotated_index("app.3.txt", "app", "log"), None);
    assert_eq!(rotated_index("app.+7.log", "app", "log"), Some(7));
    assert_eq!(rotated_index("app.12", "app", ""), Some(12));
    assert_eq!(rotated_index("app.", "app", ""), None);
    assert_eq!(rotated_index("other.1", "app", ""), None);
    assert_eq!(rotated_index("app.18446744073709551615", "app", ""), Some(u64::MAX));
    assert_eq!(rotated_index("app.18446744073709551616", "app", ""), None);
    assert_eq!(rotated_index("app.1.2.log", "app", "log"), None);
}

#[test]
fn rotator_indices_of_compressed_files() {
    assert_eq!(rotated_index("app.3.log.gz", "app", "log"), Some(3));
    assert_eq!(rotated_index("app.12.gz", "app", ""), Some(12));
    assert_eq!(rotated_index("app.gz", "app", ""), None);
    assert_eq!(rotated_index("app.3.txt.gz", "app", "log"), None);
    assert_eq!(rotated_index("app.3.gz", "app", "gz"), Some(3));
    assert_eq!(rotated_index("app.3.gz.gz", "app", "gz"), Some(3));
    assert_eq!(rotated_index("app.x.log.gz", "app", "log"), None);
}

#[test]
fn rotator_compressed_extension_and_day() {
    assert_eq!(compressed_extension("log"), "log.gz");
    assert_eq!(compressed_extension(""), "gz");
    assert!(is_new_day("20260509", "20260510"));
    assert!(!is_new_day("20260509", "20260509"));
}

#[test]
fn rotator_cleanup_keeps_highest() {
    assert_eq!(files_to_remove(&vec![1, 5, 3, 2], 2), vec![true, false, false, true]);
    assert_eq!(files_to_remove(&vec![1, 5, 3, 2], 0), vec![false, false, false, false]);
    assert_eq!(files_to_remove(&vec![4, 4, 4], 1), vec![false, true, true]);
    assert_eq!(files_to_remove(&vec![], 3), Vec::<bool>::new());
    assert_eq!(files_to_remove(&vec![9, 8], 5), vec![false, false]);
}
