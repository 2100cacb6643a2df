use eww::server::{is_log_file_name, log_cleanup, LogCleanup};

#[test]
fn log_file_names() {
    assert!(is_log_file_name("eww_1234.log"));
    assert!(is_log_file_name("eww_.log"));
    assert!(!is_log_file_name("eww_1234.txt"));
    assert!(!is_log_file_name("other_1.log"));
    assert!(!is_log_file_name("eww.log"));
    assert!(!is_log_file_name(""));
}

#[test]
fn log_cleanup_decisions() {
    assert_eq!(log_cleanup(604801, 10), LogCleanup::Delete);
    assert_eq!(log_cleanup(604801, 300_000_000), LogCleanup::Delete);
    assert_eq!(log_cleanup(604800, 10), LogCleanup::Keep);
    assert_eq!(log_cleanup(0, 200_000_000), LogCleanup::Keep);
    assert_eq!(log_cleanup(0, 200_000_001), LogCleanup::TrimStart { bytes_to_remove: 100_000_001 });
    assert_eq!(log_cleanup(60, 350_000_000), LogCleanup::TrimStart { bytes_to_remove: 250_000_000 });
}
