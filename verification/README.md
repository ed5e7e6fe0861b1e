# datadriver

A file-metadata scanner that lists old or empty files and lets you manage
them from an interactive prompt. The decisions and text of the program are
a verified library (`src/`); the program around it (`app/`) reads the
directory tree, talks to the terminal and launches other programs.

- `src/text.rs` — strings as character sequences: decimal rendering and
  parsing, padding, Unicode whitespace, word splitting, trimming, search.
- `src/size.rs` — sizes in KB with one decimal, computed with integers
  exactly as `{:.1}` prints `n as f64 / 1024.0`.
- `src/utils.rs` — colours, the clock, ages such as `3d`, yes/no answers.
- `src/entry.rs` — the scanned entry, its table row, header and details.
- `src/writer.rs` — CSV quoting, header and rows; progress and spinner.
- `src/scanner.rs` — the walk's decisions for each directory item.
- `src/commands.rs` — the interactive commands: lookup by `Id`, filtering,
  sorting, statistics, renumbering, options of a run, help.
