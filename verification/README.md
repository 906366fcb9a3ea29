# palimpsest

Palimpsest layers a project's history through time: `palin snap` records the
state of a directory as an epoch, unchanged files share content-addressed
"inks", restores leave a phantom behind for safety, and a terminal browser
shows the timeline, the file tree of each snapshot and line diffs between
them.

Layout:

- `src/` — the library, verified with Verus: snapshot diffing and ink reuse,
  exclusion globs, restore planning, line diffs and hunks, blame, grep and
  find across epochs, the registry of palins, identifier parsing, the
  update helpers, and the browser as a state machine (keys, mouse, frames,
  comparisons) over a plain state value.
- `app/` — the `palin` program around it: command-line parsing, the SQLite
  database, the files on disk, archives, and the terminal loop that draws the
  browser and performs the actions the state machine asks for.
- `tests/` — tests of the library on concrete values.
