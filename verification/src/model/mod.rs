//! The kanban board: its data, the operations on it, undo/redo, search and links.
pub mod types;
pub mod spec;
pub mod ops;
pub mod raw_spec;

pub use types::{
    ArchivedCardOperation, Board, BoardError, BoardId, BoardOperation, BoardSummary, Card,
    CardEvent, CardEventKind, CardId, ChecklistItem, ChecklistItemDraft, ChecklistItemId, Column,
    ColumnId, DueStatus, Tag, TagId, SOON_THRESHOLD_DAYS,
};
pub mod search;

pub use search::{
    card_matches_search, due_status, normalize_search_text, parse_card_number_query,
    parse_due_date, parse_wip_limit,
};
pub mod urls;

pub use urls::find_urls;
pub mod board;
pub mod copy;
pub mod raw;
pub mod edit;
pub mod checklist;
pub mod columns;
pub mod tags;
pub mod cards;
pub mod sort;
pub mod sort_undo;
pub mod archive_undo;
pub mod tag_undo;
pub mod details;
pub mod replay_spec;
pub mod history;
pub mod alike;
pub mod keeps;
pub mod laws;
pub mod redo;
pub mod every_op;
pub mod equality;
pub mod messages;
