//! Verified core of the eww widget daemon: the scope graph that holds the
//! state of all open widgets, the edge maps it is built from, the book of
//! open windows and what each command does to it, what the command line
//! and the daemon decide, spans, file
//! databases for diagnostics, and the small parsers of command line values.

pub mod text;
pub mod span;
pub mod names;
pub mod one_to_n_elements_map;
pub mod state;
pub mod util;
pub mod widgets;
pub mod widget_attrs;
pub mod history;
pub mod monitor;
pub mod coords;
pub mod files;
pub mod file_database;
pub mod scss_provider;
pub mod opts;
pub mod cli;
pub mod display_backend;
pub mod daemon_response;
pub mod application_lifecycle;
pub mod paths;
pub mod server;
pub mod system_stats;
pub mod window_arguments;
pub mod window_registry;
pub mod commands;
pub mod command_handler;
