# atspicli

A command-line tool for AT-SPI automation (snapshot, click, input, wait,
screenshot, ...), whose command logic is a Verus library with its behaviour
stated as contracts and proved.

- `src/` — the verified library:
  - `text` — character-level string helpers (trimming, case folding, search,
    decimal rendering);
  - `error` — the error type, its exit codes and messages;
  - `domain` — locator validation, applications and nodes, target
    resolution, redaction of secrets, command requests and the executor that
    drives a backend;
  - `adapters` — the in-memory backend, and the bus-independent parts of the
    AT-SPI backend: the accessibility-tree model, locator segments and their
    matching, sensitive-content checks, JSON snapshots and capture-tool
    arguments;
  - `ui_cli` — the command line's subcommands and the requests they make.
- `app/` — the program: argument parsing with clap, the AT-SPI backend that
  talks to the bus through `atspi`/`zbus` on a tokio runtime, and screen
  capture through external tools.
- `tests/` — tests of the library.
