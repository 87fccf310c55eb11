# rusty_input

A key tracker and logger for X11 terminals: it reads global key events from
`xinput test-xi2 --root`, draws a text user interface described by a tui file,
and reacts to key events by drawing strings or running commands.

## Layout

- `src/` — the verified library (Verus):
  - `text.rs`: decimal numbers, trimming, number parsing, splitting, the
    `\x1b[` escape of tui files, UTF-8 byte lengths and truncation;
  - `tui.rs`: the tui file format, line by line, and the loaded layout;
  - `input.rs`: turning `xinput` output into log lines and key events;
  - `keys.rs`: the keys held down, terminal shortcuts, the debug line;
  - `history.rs`, `apm.rs`: the scripted widgets;
  - `gui.rs`: box drawing with joined corners;
  - `runner.rs`: commands bound to keys;
  - `clock.rs`: reading the wall clock.
- `tests/` — tests of the library.
- `app/` — the program: terminal modes and size, signals, threads, the
  `xinput` process and file I/O.
