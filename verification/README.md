# rufuf

A terminal file manager. The library (`src/`) holds its logic, verified with
Verus: the listing of a directory (sorting, colours, laying entries out in
rows or a column, moving and choosing the selection, what the viewer shows),
the tree view (opening and closing directories in place, the lines it
shows, splitting the screen, moving the cursor and the focus), the panels and
their viewers, key handling, geometry helpers and hexadecimal colours.

`app/` is the program around it: terminal set-up, the Lua configuration,
reading directories and files, drawing with ratatui and the event loop.

Layout:

- `src/tools.rs` — rectangles, clamping, centring.
- `src/misc/rgb.rs` — colours read from hexadecimal strings.
- `src/cli/` — the panel view: `fslist` (the listing), `panel`, `tabs`,
  `events`, `buffer`.
- `src/cl/` — the tree view: `fs_entries`, `display`, `events`, and the
  layout and event handling in `cl.rs`.
- `tests/` — tests of the library.
