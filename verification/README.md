# boat

`boat` is a command-line time tracker: activities with tags and
descriptions, logs of when each was worked on, listings and reports over
periods of time, and an edit mode that round-trips the logs through a CSV
file in the user's editor.

The crate is a Verus project.

- `src/` is the verified library: periods and their parsing, dates and
  durations, the filtering of logs by period, the grouping of listings, the
  report summaries, the CSV export and the reading back of an edited file,
  the diffs between edited and stored logs, the tables and the messages
  shown to the user. Every function carries a contract over spec functions,
  and the properties that relate several functions (a period written out
  reads back as itself, an exported file reads back to the same logs, an
  unchanged edit yields no changes, ...) are stated and proved as lemmas.
  Calls into `chrono`, `yansi`, `tabular` and std that the logic needs go
  through small trusted wrappers whose contracts say what those crates
  document.
- `app/` is the program around it: command-line parsing (`clap`), the
  configuration file (`serde`, `toml`, `directories`), the SQLite store
  (`boat-lib`, `rusqlite`), the editor and temporary file, prompts
  (`dialoguer`), and printing.
- `tests/` runs the library on concrete values.
