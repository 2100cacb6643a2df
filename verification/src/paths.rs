//! The paths relevant to eww.

use std::collections::hash_map::DefaultHasher;
use std::hash::{BuildHasher, BuildHasherDefault};
use std::path::PathBuf;
use vstd::prelude::*;
use crate::text::{push_str, string_of};

verus! {

/// The path `rest` appended to `base`, as `Path::join` of std makes it.
pub uninterp spec fn joined_path(base: PathBuf, rest: Seq<char>) -> PathBuf;

/// `Path::join` of std: `rest` appended to `base`.
#[verifier::external_body]
fn join_path(base: &PathBuf, rest: &str) -> (r: PathBuf)
    ensures
        r == joined_path(*base, rest@),
{
    base.join(rest)
}

/// The path that `PathBuf::from` of std makes of the text `s`.
pub uninterp spec fn path_from(s: Seq<char>) -> PathBuf;

/// `PathBuf::from` of std: the path of a text.
#[verifier::external_body]
fn path_of(s: &str) -> (r: PathBuf)
    ensures
        r == path_from(s@),
{
    PathBuf::from(s)
}

/// The hash of the text `s` that std's `DefaultHasher`, made by
/// `DefaultHasher::new`, gives.
pub uninterp spec fn default_hash(s: Seq<char>) -> u64;

/// `BuildHasher::hash_one` of std, for the builder of default hashers: the
/// hash of the text with a `DefaultHasher` as `DefaultHasher::new` makes it.
#[verifier::external_body]
fn hash_text(s: &str) -> (h: u64)
    ensures
        h == default_hash(s@),
{
    BuildHasherDefault::<DefaultHasher>::default().hash_one(s)
}

/// The lowercase hexadecimal digit of `d < 16`.
pub open spec fn hex_digit(d: nat) -> char {
    if d < 10 {
        (d + 48) as char
    } else {
        (d + 87) as char
    }
}

/// The lowercase hexadecimal representation of `n`, without leading zeros.
pub open spec fn hex(n: nat) -> Seq<char>
    decreases n,
{
    if n < 16 {
        seq![hex_digit(n)]
    } else {
        hex(n / 16).push(hex_digit(n % 16))
    }
}

/// Appends the hexadecimal digits of `n` to `out`.
fn push_hex(out: &mut Vec<char>, n: u64)
    ensures
        final(out)@ == old(out)@ + hex(n as nat),
    decreases n,
{
    if n >= 16 {
        push_hex(out, n / 16);
    }
    let d: u8 = (n % 16) as u8;
    let c: char = if d < 10 { (d + 48u8) as char } else { (d + 87u8) as char };
    assert(c == hex_digit((n % 16) as nat));
    out.push(c);
    proof {
        if n >= 16 {
            assert(hex(n as nat) == hex((n / 16) as nat).push(hex_digit((n % 16) as nat)));
        }
    }
    assert(out@ =~= old(out)@ + hex(n as nat));
}

/// The id of the daemon for the configuration directory whose text is
/// `config_dir`: the hash of the text, in lowercase hexadecimal. It keeps
/// the socket's path short.
pub fn daemon_id(config_dir: &str) -> (r: String)
    ensures
        r@ == hex(default_hash(config_dir@) as nat),
{
    let h = hash_text(config_dir);
    let mut v: Vec<char> = Vec::new();
    push_hex(&mut v, h);
    assert(v@ =~= hex(h as nat));
    string_of(&v)
}

/// The name of the daemon's socket file: `eww-server_` and the daemon id.
pub fn socket_file_name(daemon_id: &str) -> (r: String)
    ensures
        r@ == "eww-server_"@ + daemon_id@,
{
    let mut v: Vec<char> = Vec::new();
    push_str(&mut v, "eww-server_");
    push_str(&mut v, daemon_id);
    string_of(&v)
}

/// The name of the daemon's log file: `eww_`, the daemon id and `.log`.
pub fn log_file_name(daemon_id: &str) -> (r: String)
    ensures
        r@ == "eww_"@ + daemon_id@ + ".log"@,
{
    let mut v: Vec<char> = Vec::new();
    push_str(&mut v, "eww_");
    push_str(&mut v, daemon_id);
    push_str(&mut v, ".log");
    string_of(&v)
}

/// The directory `eww` in `xdg_dir` when that is set, else in the directory
/// `fallback` of `home`: how eww finds its configuration (`XDG_CONFIG_HOME`,
/// `.config`) and its logs (`XDG_CACHE_HOME`, `.cache`).
pub fn eww_dir(xdg_dir: Option<PathBuf>, home: &PathBuf, fallback: &str) -> (r: PathBuf)
    ensures
        r == joined_path(
            match xdg_dir {
                Some(d) => d,
                None => joined_path(*home, fallback@),
            },
            "eww"@,
        ),
{
    let base = match xdg_dir {
        Some(d) => d,
        None => join_path(home, fallback),
    };
    join_path(&base, "eww")
}

/// Stores references to all the paths relevant to eww, and abstracts access
/// to these files and directories.
#[derive(Debug)]
pub struct EwwPaths {
    pub log_file: PathBuf,
    pub log_dir: PathBuf,
    pub ipc_socket_file: PathBuf,
    pub config_dir: PathBuf,
}

impl EwwPaths {
    /// The paths of the daemon for the configuration directory
    /// `config_dir`, whose daemon id is `daemon_id` (the hash of the
    /// directory, so that the socket's path stays short): the socket lies in
    /// `runtime_dir` (`XDG_RUNTIME_DIR`), else in `/tmp`; the log file in
    /// `log_dir`.
    pub fn from_dirs(config_dir: PathBuf, runtime_dir: Option<PathBuf>, log_dir: PathBuf, daemon_id: &str) -> (r: EwwPaths)
        ensures
            r.config_dir == config_dir,
            r.log_dir == log_dir,
            r.ipc_socket_file == joined_path(
                match runtime_dir {
                    Some(d) => d,
                    None => path_from("/tmp"@),
                },
                "eww-server_"@ + daemon_id@,
            ),
            r.log_file == joined_path(log_dir, "eww_"@ + daemon_id@ + ".log"@),
    {
        let socket_dir = match runtime_dir {
            Some(d) => d,
            None => path_of("/tmp"),
        };
        let socket_name = socket_file_name(daemon_id);
        let ipc_socket_file = join_path(&socket_dir, socket_name.as_str());
        let log_name = log_file_name(daemon_id);
        let log_file = join_path(&log_dir, log_name.as_str());
        EwwPaths { log_file, log_dir, ipc_socket_file, config_dir }
    }

    pub fn get_log_file(&self) -> (p: &PathBuf)
        ensures
            *p == self.log_file,
    {
        &self.log_file
    }

    pub fn get_log_dir(&self) -> (p: &PathBuf)
        ensures
            *p == self.log_dir,
    {
        &self.log_dir
    }

    pub fn get_ipc_socket_file(&self) -> (p: &PathBuf)
        ensures
            *p == self.ipc_socket_file,
    {
        &self.ipc_socket_file
    }

    pub fn get_config_dir(&self) -> (p: &PathBuf)
        ensures
            *p == self.config_dir,
    {
        &self.config_dir
    }

    /// The main configuration file: `eww.yuck` in the configuration
    /// directory.
    pub fn get_yuck_path(&self) -> (p: PathBuf)
        ensures
            p == joined_path(self.config_dir, "eww.yuck"@),
    {
        join_path(&self.config_dir, "eww.yuck")
    }
}

} // verus!
