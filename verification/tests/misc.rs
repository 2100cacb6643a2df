use std::hash::{Hash, Hasher};
use eww::application_lifecycle::{send_exit, LifecycleError};
use eww::paths::{daemon_id, eww_dir, log_file_name, socket_file_name, EwwPaths};
use eww::system_stats::{battery_from_pmset, time_string, RefreshTime};
use eww::text::{i64_to_string, u64_to_string};
use std::path::PathBuf;

#[test]
fn exit_event() {
    let (sender, mut receiver) = tokio::sync::broadcast::channel::<()>(2);
    assert_eq!(send_exit(&sender), Ok(()));
    assert_eq!(receiver.try_recv(), Ok(()));
    drop(receiver);
    assert_eq!(send_exit(&sender), Err(LifecycleError::NoReceivers));
}

#[test]
fn paths() {
    let p = EwwPaths {
        log_file: PathBuf::from("/l/eww.log"),
        log_dir: PathBuf::from("/l"),
        ipc_socket_file: PathBuf::from("/run/eww"),
        config_dir: PathBuf::from("/c"),
    };
    assert_eq!(p.get_yuck_path(), PathBuf::from("/c/eww.yuck"));
    assert_eq!(p.get_config_dir(), &PathBuf::from("/c"));
    assert_eq!(p.get_log_file(), &PathBuf::from("/l/eww.log"));
    assert_eq!(p.get_log_dir(), &PathBuf::from("/l"));
    assert_eq!(p.get_ipc_socket_file(), &PathBuf::from("/run/eww"));
}

#[test]
fn paths_of_a_daemon() {
    assert_eq!(socket_file_name("1f"), "eww-server_1f");
    assert_eq!(log_file_name("1f"), "eww_1f.log");
    let p = EwwPaths::from_dirs(PathBuf::from("/c"), None, PathBuf::from("/home/u/.cache/eww"), "abc");
    assert_eq!(p.get_ipc_socket_file(), &PathBuf::from("/tmp/eww-server_abc"));
    assert_eq!(p.get_log_file(), &PathBuf::from("/home/u/.cache/eww/eww_abc.log"));
    assert_eq!(p.get_config_dir(), &PathBuf::from("/c"));
    let p = EwwPaths::from_dirs(PathBuf::from("/c"), Some(PathBuf::from("/run/user/1")), PathBuf::from("/l"), "abc");
    assert_eq!(p.get_ipc_socket_file(), &PathBuf::from("/run/user/1/eww-server_abc"));
}

#[test]
fn daemon_ids() {
    let mut hasher = std::collections::hash_map::DefaultHasher::new();
    "/home/u/.config/eww".to_string().hash(&mut hasher);
    assert_eq!(daemon_id("/home/u/.config/eww"), format!("{:x}", hasher.finish()));
    assert_ne!(daemon_id("/a"), daemon_id("/b"));
    assert!(daemon_id("/a").chars().all(|c| c.is_ascii_hexdigit() && !c.is_ascii_uppercase()));
}

#[test]
fn eww_directories() {
    let home = PathBuf::from("/home/u");
    assert_eq!(eww_dir(None, &home, ".config"), PathBuf::from("/home/u/.config/eww"));
    assert_eq!(eww_dir(Some(PathBuf::from("/x")), &home, ".cache"), PathBuf::from("/x/eww"));
}

#[test]
fn time_values() {
    assert_eq!(time_string(1_700_000_000), "1700000000");
    assert_eq!(time_string(0), "0");
    assert_eq!(time_string(-5), "-5");
    let mut r = RefreshTime::new();
    let d = r.next_refresh();
    assert!(d.as_secs() < 60);
}

#[test]
fn numbers_in_decimal() {
    assert_eq!(u64_to_string(0), "0");
    assert_eq!(u64_to_string(18446744073709551615), "18446744073709551615");
    assert_eq!(i64_to_string(-9223372036854775808), "-9223372036854775808");
    assert_eq!(i64_to_string(42), "42");
}

#[test]
fn pmset_output() {
    let output = "Now drawing from 'Battery Power'\n-InternalBattery-0 (id=11403363)\t100%; discharging; (no estimate) present: true";
    assert_eq!(
        battery_from_pmset(output),
        "{ \"BAT0\": { \"capacity\": \"100\", \"status\": \" discharging\" }}"
    );
}
