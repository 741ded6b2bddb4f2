# sys_monitor

A terminal system monitor: a dashboard of CPU, memory and the busiest
processes, with a filterable, sortable process table, an action menu
(terminate, force kill, copy PID, reveal executable, process tree) and a
full-screen process tree.

## Layout

- `src/` — the verified library (Verus):
  - `keys.rs` — the keys the monitor distinguishes, and the quit keys;
  - `process.rs` — process samples, table rows, sort columns, and the
    collection of the process table (visibility, name filter, stable sort,
    row limit);
  - `sort.rs` — the table order and a stable sort, with the laws of the order
    and the uniqueness of the stable order;
  - `text.rs` — lowercase mapping, substring search, decimal notation,
    uptimes and truncated names;
  - `tree.rs` — the process tree around a PID (ancestors, target,
    descendants), and checks that a list allows one;
  - `menu.rs` — the action menu and kill outcomes;
  - `app.rs` — the application state and its transitions on key presses,
    ticks (figures every second, the process list every two) and the
    results of outside work;
  - `layout.rs`, `labels.rs` — what the panels show: the per-core window,
    gauge widths, the tree's scroll window, popups, and the texts;
  - `laws.rs` — laws that relate several transitions.
- `app/` — the program: terminal setup, the event loop, reading the machine
  through `sysinfo`, the clipboard, and drawing with `ratatui`.
- `tests/` — tests of the library.
