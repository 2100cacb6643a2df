//! The daemon's housekeeping that only decides: which files in the log
//! directory are eww's logs, and what becomes of each, so that the directory
//! never grows without bound.

use vstd::prelude::*;
use crate::text::{ends_with_str, starts_with_str};

verus! {

/// Which process goes on after the daemon was detached.
#[derive(Debug, PartialEq, Eq, Structural, Clone, Copy)]
pub enum ForkResult {
    Parent,
    Child,
}

/// A log file older than this many seconds (a week) is deleted.
pub const MAX_LOG_AGE_SECS: u64 = 604800;

/// A log file larger than this many bytes is cut down.
pub const MAX_LOG_SIZE: u64 = 200000000;

/// How many bytes a log file that is cut down keeps: its last ones.
pub const TRIMMED_LOG_SIZE: u64 = 100000000;

/// What becomes of a log file.
#[derive(Debug, PartialEq, Eq, Structural, Clone, Copy)]
pub enum LogCleanup {
    /// The file is deleted.
    Delete,
    /// The first `bytes_to_remove` bytes of the file are removed.
    TrimStart { bytes_to_remove: u64 },
    /// The file stays as it is.
    Keep,
}

/// Whether a file of the log directory is one of eww's logs: its name has
/// the shape `eww_*.log`.
pub fn is_log_file_name(name: &str) -> (b: bool)
    ensures
        b == ("eww_"@.is_prefix_of(name@) && ".log"@.is_suffix_of(name@)),
{
    starts_with_str(name, "eww_") && ends_with_str(name, ".log")
}

/// What becomes of a log file of that age and size.
pub open spec fn log_cleanup_spec(age_secs: u64, size: u64) -> LogCleanup {
    if age_secs > MAX_LOG_AGE_SECS {
        LogCleanup::Delete
    } else if size > MAX_LOG_SIZE {
        LogCleanup::TrimStart { bytes_to_remove: (size - TRIMMED_LOG_SIZE) as u64 }
    } else {
        LogCleanup::Keep
    }
}

/// What becomes of a log file that was last written `age_secs` seconds ago
/// and holds `size` bytes: older than a week, it is deleted; else, larger
/// than 200 MB, its start is removed so that 100 MB are left.
pub fn log_cleanup(age_secs: u64, size: u64) -> (r: LogCleanup)
    ensures
        r == log_cleanup_spec(age_secs, size),
{
    if age_secs > MAX_LOG_AGE_SECS {
        LogCleanup::Delete
    } else if size > MAX_LOG_SIZE {
        LogCleanup::TrimStart { bytes_to_remove: size - TRIMMED_LOG_SIZE }
    } else {
        LogCleanup::Keep
    }
}

/// A log file that is cut down keeps exactly its last 100 MB, and only a
/// file larger than 200 MB is cut: the directory's files stay below that.
pub proof fn law_trimmed_log_keeps_its_end(age_secs: u64, size: u64)
    ensures
        log_cleanup_spec(age_secs, size) matches LogCleanup::TrimStart { bytes_to_remove } ==> size
            - bytes_to_remove == TRIMMED_LOG_SIZE && size > MAX_LOG_SIZE,
        log_cleanup_spec(age_secs, size) is Keep ==> size <= MAX_LOG_SIZE,
{
}

} // verus!
