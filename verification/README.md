# ekanban (verified library)

A single-user kanban board kept in a local SQLite file. This crate holds the board's logic,
written in Verus and proved against its contracts; the desktop side lives in `app/`.

- `src/model/` — the board, its cards, columns, tags and checklists, and every operation on
  them, each specified over a mathematical view (`BoardState`). Undo and redo replay a
  recorded operation (`history.rs`, `replay_spec.rs`). `laws.rs` proves what undo and redo
  give back; `keeps.rs` proves that the operations keep a board in good order (numbers
  apart, places and owners in order); `sort_undo.rs` does so for sorting by due date.
- `src/screen.rs` — what the board screen decides: selection, keyboard moves, dimming by
  search and tag, the capture target, and error texts.
- `src/export.rs` — the Markdown export and the formatting it shares with the screen.
- `src/links.rs`, `src/model/urls.rs` — the addresses in a description, in characters and
  in bytes, and the runs the editor colours.
- `src/hotkey.rs` — which key combinations can be the quick-capture shortcut and how they
  are stored.
- `src/date.rs`, `src/paths.rs`, `src/instance.rs`, `src/db.rs`, `src/clock.rs` — dates (with
  chrono), file locations, the lock file's name, the store's numbering rules, and the clock.
- `app/` — SQLite storage (rusqlite, serde_json), the lock file, the global hotkey
  (global-hotkey) and the environment; ordinary Rust that calls the library.
- `tests/` — the behaviour on concrete boards, including a test for each law.
