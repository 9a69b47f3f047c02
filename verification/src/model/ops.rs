//! What each board operation does to the mathematical board: the specifications that the
//! operations in `board.rs` meet, given the time `now` that the operation read.
use vstd::prelude::*;
use crate::date::DueDate;
use crate::model::spec::{
    card_location, column_index, insert_card_at, min_int, push_operation, record_event,
    reindex_columns, remove_card_at, set_card_at, set_cards, touch, with_columns,
};
use crate::text::is_blank_spec;
use crate::model::types::{
    BoardError, BoardState, CardEvent, CardEventKind, CardId, CardView, ColumnId, ColumnView,
    OperationView,
};

verus! {

/// Moving card `card_id` to place `target_index` of column `target_column_id`.
///
/// The place counts in the column as it is before the move and is clamped to its end.
/// Moving a card to where it already stands changes nothing and answers `Ok(false)`.
pub open spec fn move_card_spec(
    b: BoardState,
    card_id: CardId,
    target_column_id: ColumnId,
    target_index: usize,
    now: i64,
) -> (BoardState, Result<bool, BoardError>) {
    match card_location(b.columns, card_id) {
        None => (b, Err(BoardError::CardNotFound(card_id))),
        Some((si, sk)) => match column_index(b.columns, target_column_id) {
            None => (b, Err(BoardError::ColumnNotFound(target_column_id))),
            Some(tj) => {
                let same = si == tj;
                let source_column_id = b.columns[si].id;
                let clamped = min_int(target_index as int, b.columns[tj].cards.len() as int);
                let wanted = if same && sk < clamped {
                    clamped - 1
                } else {
                    clamped
                };
                if same && sk == wanted {
                    (b, Ok(false))
                } else {
                    let moved = CardView {
                        column_id: target_column_id,
                        updated_at: now,
                        ..b.columns[si].cards[sk]
                    };
                    let removed = remove_card_at(b.columns, si, sk);
                    let at = min_int(wanted, removed[tj].cards.len() as int);
                    let columns = reindex_columns(insert_card_at(removed, tj, at, moved));
                    let moved_board = push_operation(
                        touch(with_columns(b, columns), now),
                        OperationView::MoveCard {
                            card_id,
                            from_column_id: source_column_id,
                            from_index: sk as usize,
                            to_column_id: target_column_id,
                            to_index: at as usize,
                        },
                    );
                    let recorded = if same {
                        moved_board
                    } else {
                        record_event(
                            moved_board,
                            CardEvent {
                                card_id,
                                kind: CardEventKind::Moved,
                                from_column_id: Some(source_column_id),
                                to_column_id: Some(target_column_id),
                                at: now,
                            },
                        )
                    };
                    (recorded, Ok(true))
                }
            },
        },
    }
}

/// Moving column `column_id` to place `target_index`, counted among the columns as they
/// are before the move and clamped to the end.
pub open spec fn move_column_spec(
    b: BoardState,
    column_id: ColumnId,
    target_index: usize,
    now: i64,
) -> (BoardState, Result<bool, BoardError>) {
    match column_index(b.columns, column_id) {
        None => (b, Err(BoardError::ColumnNotFound(column_id))),
        Some(si) => {
            let clamped = min_int(target_index as int, b.columns.len() as int);
            let wanted = if si < clamped {
                clamped - 1
            } else {
                clamped
            };
            if si == wanted {
                (b, Ok(false))
            } else {
                let column = ColumnView { updated_at: now, ..b.columns[si] };
                let removed = b.columns.remove(si);
                let at = min_int(wanted, removed.len() as int);
                let columns = reindex_columns(removed.insert(at, column));
                (
                    push_operation(
                        touch(with_columns(b, columns), now),
                        OperationView::MoveColumn {
                            column_id,
                            from_index: si as usize,
                            to_index: at as usize,
                        },
                    ),
                    Ok(true),
                )
            }
        },
    }
}


/// Adding a card titled `title` at the end of column `column_id`: it takes the next card
/// number and records a `Created` event.
pub open spec fn add_card_spec(
    b: BoardState,
    column_id: ColumnId,
    title: Seq<char>,
    description: Seq<char>,
    now: i64,
) -> (BoardState, Result<CardId, BoardError>) {
    match column_index(b.columns, column_id) {
        None => (b, Err(BoardError::ColumnNotFound(column_id))),
        Some(c) => {
            let card = CardView {
                id: b.next_card_id,
                column_id: column_id,
                title: title,
                description: description,
                position: b.columns[c].cards.len() as i64,
                created_at: now,
                updated_at: now,
                due_date: None,
                tag_ids: seq![],
                checklist_items: seq![],
                archived_at: None,
            };
            let added = BoardState {
                columns: set_cards(b.columns, c, b.columns[c].cards.push(card)),
                next_card_id: (b.next_card_id + 1) as i64,
                ..b
            };
            let recorded = record_event(
                added,
                CardEvent {
                    card_id: card.id,
                    kind: CardEventKind::Created,
                    from_column_id: None,
                    to_column_id: Some(column_id),
                    at: now,
                },
            );
            (touch(push_operation(recorded, OperationView::AddCard { card }), now), Ok(card.id))
        },
    }
}

/// Setting the title and description of active card `card_id`. A blank title is refused;
/// setting what is there already answers `Ok(false)`.
pub open spec fn update_card_spec(
    b: BoardState,
    card_id: CardId,
    title: Seq<char>,
    description: Seq<char>,
    now: i64,
) -> (BoardState, Result<bool, BoardError>) {
    if is_blank_spec(title) {
        (b, Err(BoardError::EmptyCardTitle))
    } else {
        match card_location(b.columns, card_id) {
            None => (b, Err(BoardError::CardNotFound(card_id))),
            Some((c, k)) => {
                let card = b.columns[c].cards[k];
                if card.title == title && card.description == description {
                    (b, Ok(false))
                } else {
                    let edited = CardView {
                        title: title,
                        description: description,
                        updated_at: now,
                        ..card
                    };
                    (
                        touch(
                            push_operation(
                                with_columns(b, set_card_at(b.columns, c, k, edited)),
                                OperationView::UpdateCard {
                                    card_id,
                                    before_title: card.title,
                                    before_description: card.description,
                                    after_title: title,
                                    after_description: description,
                                },
                            ),
                            now,
                        ),
                        Ok(true),
                    )
                }
            },
        }
    }
}

/// Setting the due date of active card `card_id`; the same date answers `Ok(false)`.
pub open spec fn set_card_due_date_spec(
    b: BoardState,
    card_id: CardId,
    due_date: Option<DueDate>,
    now: i64,
) -> (BoardState, Result<bool, BoardError>) {
    match card_location(b.columns, card_id) {
        None => (b, Err(BoardError::CardNotFound(card_id))),
        Some((c, k)) => {
            let card = b.columns[c].cards[k];
            if card.due_date == due_date {
                (b, Ok(false))
            } else {
                let edited = CardView { due_date: due_date, updated_at: now, ..card };
                (
                    touch(
                        push_operation(
                            with_columns(b, set_card_at(b.columns, c, k, edited)),
                            OperationView::SetDueDate { card_id, before: card.due_date, after: due_date },
                        ),
                        now,
                    ),
                    Ok(true),
                )
            }
        },
    }
}

/// The text of the refusal of a WIP limit below 1.
pub open spec fn wip_limit_message() -> Seq<char> {
    "上限は 1 以上で入力してください"@
}

/// A WIP limit below 1, which is refused.
pub open spec fn invalid_wip_limit(wip_limit: Option<i64>) -> bool {
    wip_limit matches Some(limit) && limit <= 0
}

/// Setting the WIP limit of column `column_id` to a valid limit: `None` for no limit, else
/// at least 1. The same limit answers `Ok(false)`.
pub open spec fn set_column_wip_limit_spec(
    b: BoardState,
    column_id: ColumnId,
    wip_limit: Option<i64>,
    now: i64,
) -> (BoardState, Result<bool, BoardError>) {
    {
        match column_index(b.columns, column_id) {
            None => (b, Err(BoardError::ColumnNotFound(column_id))),
            Some(c) => {
                let column = b.columns[c];
                if column.wip_limit == wip_limit {
                    (b, Ok(false))
                } else {
                    (
                        touch(
                            push_operation(
                                with_columns(
                                    b,
                                    b.columns.update(
                                        c,
                                        ColumnView { wip_limit: wip_limit, updated_at: now, ..column },
                                    ),
                                ),
                                OperationView::SetColumnWipLimit {
                                    column_id,
                                    before: column.wip_limit,
                                    after: wip_limit,
                                },
                            ),
                            now,
                        ),
                        Ok(true),
                    )
                }
            },
        }
    }
}

} // verus!
