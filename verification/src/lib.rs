//! ekanban: a single-user kanban board kept in a local SQLite file.
//!
//! This crate is the board's logic, verified: the board and its operations with undo and
//! redo (`model`), what the board screen decides (`screen`), what saving an editor does
//! (`editors`), the Markdown export (`export`), the addresses in a description (`links`),
//! the quick-capture shortcut (`hotkey`), dates (`date`), and where the files go (`paths`,
//! `instance`, `db`). Each operation states, over a mathematical view of the board, what it
//! changes; the laws in `model::laws`, `model::redo` and `model::every_op` state what undo
//! and redo give back, and those in `model::keeps` what every operation keeps.
pub mod date;
pub mod model;
pub mod text;
pub mod links;
pub mod instance;
pub mod paths;
pub mod clock;
pub mod db;
pub mod hotkey;
pub mod screen;
pub mod export;
pub mod editors;
