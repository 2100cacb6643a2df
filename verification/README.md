# eww, verified core

The logic of the eww widget daemon as a Verus library, with the parts that
need GTK, the file system or the environment kept in a thin binary.

- `src/` is the library. Every function there is verified against its
  contract; the few calls into std, codespan-reporting, chrono and tokio
  stand behind small trusted wrappers whose doc comments say what is
  believed of them.
  - `state/` holds the scope graph: scopes, the edges along which variables
    are inherited and attributes provided, listeners, and the updates that
    follow a changed value.
  - `window_registry.rs` is the daemon's book of open and failed windows,
    `command_handler.rs` what a command does to it and answers (the
    state and the value of global variables are read from the scope graph),
    `cli.rs` the run of the binary as a state machine, `commands.rs` and
    `opts.rs` the commands and the values of the command line.
  - `files.rs`, `file_database.rs` and `scss_provider.rs` hold the source
    files that diagnostics point into; `span.rs` the spans themselves.
  - `text.rs` holds the string routines that the rest is built on.
- `tests/` runs the library on concrete values.
- `app/` is the binary: it reads files and the environment and prints what
  the library computes.
