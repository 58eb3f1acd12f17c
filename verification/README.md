# rad

rad is a source-based package manager: it reads a package description
(`<pkg>.toml`, a line-based `key = value` file), resolves the package's
dependencies, fetches and unpacks its sources, builds them with the package's
build system, stages the result, records the installed files and merges them
into the system.

The library (`src/`) is verified with Verus:

- `text` — whitespace, trimming and splitting over `Seq<char>`.
- `package` — the package file format and `parse_package`, with the laws of the format.
- `actions` — the commands and file operations that rad carries out, as plain values.
- `build_plan` — the build of a package, for each build system, as a list of actions.
- `fetch` — finding a package file and fetching and unpacking sources.
- `install` — installing a package with its dependencies, as a state machine,
  with its invariant, bounded nesting and termination proved.
- `db` — the database of installed packages and what a removal deletes.
- `merge` — the temporary name under which a file is copied before it replaces another.
- `cli` — the command line.

The program (`app/main.rs`) reads the configuration and the command line,
performs the actions and requests of the library on the system, and prints.
