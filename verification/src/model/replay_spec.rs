//! What undo and redo do to the mathematical board: each recorded operation replayed
//! backwards or forwards through the building-block edits, stopping at the first that
//! fails.
use vstd::prelude::*;
use crate::model::raw::{
    limited_column, rechecked_item, recolored_tag, renamed_column, renamed_tag, retexted_item,
};
use crate::model::raw_spec::{
    edit_column, edit_item, edit_tag, insert_active_card_spec, insert_item_spec,
    move_card_raw_spec, move_column_raw_spec, move_item_raw_spec, remove_active_card_spec,
    remove_archived_spec, remove_column_raw_spec, remove_item_spec, remove_tag_raw_spec,
    restore_card_tags_spec, set_card_tags_raw_spec, set_checklist_items_raw_spec,
    set_due_date_raw_spec, sort_column_raw_spec, update_card_raw_spec,
};
use crate::model::spec::{card_index, min_int, reindexed, touch};
use crate::model::types::{
    ArchivedCardView, BoardError, BoardState, CardId, CardView, ChecklistItemView, ColumnId,
    OperationView,
};

verus! {

/// `first`, and when it succeeded, `next` of the board it left.
pub open spec fn chain(
    first: (BoardState, Result<(), BoardError>),
    next: spec_fn(BoardState) -> (BoardState, Result<(), BoardError>),
) -> (BoardState, Result<(), BoardError>) {
    match first.1 {
        Ok(()) => next(first.0),
        Err(e) => (first.0, Err(e)),
    }
}

/// A step that cannot fail.
pub open spec fn done(b: BoardState) -> (BoardState, Result<(), BoardError>) {
    (b, Ok(()))
}

/// A step whose answer is set aside, keeping only whether it failed.
pub open spec fn dropped<T>(r: (BoardState, Result<T, BoardError>)) -> (BoardState, Result<(), BoardError>) {
    match r.1 {
        Ok(_) => (r.0, Ok(())),
        Err(e) => (r.0, Err(e)),
    }
}

/// A counter raised so that it is past `id`.
pub open spec fn past(counter: i64, id: i64) -> i64 {
    if id + 1 > counter {
        (id + 1) as i64
    } else {
        counter
    }
}

/// `card` put into the archive at place `index`, clamped to its end.
pub open spec fn archive_insert(b: BoardState, index: int, card: CardView) -> BoardState {
    BoardState {
        archived_cards: b.archived_cards.insert(min_int(index, b.archived_cards.len() as int), card),
        ..b
    }
}

/// One card of an archived column: back to its column for undo, into the archive for redo.
pub open spec fn archive_column_step(b: BoardState, op: ArchivedCardView, start: usize, undo: bool) -> (
    BoardState,
    Result<(), BoardError>,
) {
    if undo {
        chain(
            dropped(remove_archived_spec(b, op.card.id)),
            |b2: BoardState| insert_active_card_spec(b2, op.card, op.index as int),
        )
    } else {
        chain(
            dropped(remove_active_card_spec(b, op.card.id)),
            |b2: BoardState| done(archive_insert(b2, start + op.index, op.archived_card)),
        )
    }
}

/// The cards of an archived column, one after the other.
pub open spec fn archive_column_steps(
    b: BoardState,
    ops: Seq<ArchivedCardView>,
    start: usize,
    undo: bool,
) -> (BoardState, Result<(), BoardError>)
    decreases ops.len(),
{
    if ops.len() == 0 {
        done(b)
    } else {
        chain(
            archive_column_steps(b, ops.drop_last(), start, undo),
            |b2: BoardState| archive_column_step(b2, ops.last(), start, undo),
        )
    }
}

/// For each pair, the first archived card with its card id gets column `fallback`, or the
/// pair's column when there is no fallback.
pub open spec fn relabel_archived(
    b: BoardState,
    pairs: Seq<(CardId, ColumnId)>,
    fallback: Option<ColumnId>,
) -> BoardState
    decreases pairs.len(),
{
    if pairs.len() == 0 {
        b
    } else {
        let prev = relabel_archived(b, pairs.drop_last(), fallback);
        let card_id = pairs.last().0;
        let target = match fallback {
            Some(f) => f,
            None => pairs.last().1,
        };
        match card_index(prev.archived_cards, card_id) {
            Some(i) => BoardState {
                archived_cards: prev.archived_cards.update(
                    i,
                    CardView { column_id: target, ..prev.archived_cards[i] },
                ),
                ..prev
            },
            None => prev,
        }
    }
}

/// The highest item number of a checklist.
pub open spec fn max_item_id(items: Seq<ChecklistItemView>) -> Option<i64>
    decreases items.len(),
{
    if items.len() == 0 {
        None
    } else {
        match max_item_id(items.drop_last()) {
            None => Some(items.last().id),
            Some(m) => Some(
                if items.last().id > m {
                    items.last().id
                } else {
                    m
                },
            ),
        }
    }
}

/// The counters after a copied card comes back: past its number and its items' numbers.
pub open spec fn copy_counters(b: BoardState, card: CardView) -> BoardState {
    let counted = BoardState { next_card_id: past(b.next_card_id, card.id), ..b };
    match max_item_id(card.checklist_items) {
        Some(m) => BoardState {
            next_checklist_item_id: past(counted.next_checklist_item_id, m),
            ..counted
        },
        None => counted,
    }
}

/// Replaying `op` backwards (`undo`) or forwards, before the board's time is set.
pub open spec fn replay_step(b: BoardState, op: OperationView, undo: bool, now: i64) -> (
    BoardState,
    Result<(), BoardError>,
) {
    match op {
        OperationView::MoveCard { card_id, from_column_id, from_index, to_column_id, to_index } =>
            if undo {
            move_card_raw_spec(b, card_id, from_column_id, from_index as int)
        } else {
            move_card_raw_spec(b, card_id, to_column_id, to_index as int)
        },
        OperationView::MoveColumn { column_id, from_index, to_index } => move_column_raw_spec(
            b,
            column_id,
            (if undo {
                from_index
            } else {
                to_index
            }) as int,
        ),
        OperationView::AddCard { card } => if undo {
            dropped(remove_active_card_spec(b, card.id))
        } else {
            chain(
                insert_active_card_spec(b, card, (card.position as usize) as int),
                |b2: BoardState| done(BoardState { next_card_id: past(b2.next_card_id, card.id), ..b2 }),
            )
        },
        OperationView::UpdateCard {
            card_id,
            before_title,
            before_description,
            after_title,
            after_description,
        } => update_card_raw_spec(
            b,
            card_id,
            if undo {
                before_title
            } else {
                after_title
            },
            if undo {
                before_description
            } else {
                after_description
            },
            now,
        ),
        OperationView::EditCard {
            card_id,
            before_title,
            before_description,
            before_due_date,
            before_tag_ids,
            after_title,
            after_description,
            after_due_date,
            after_tag_ids,
            before_checklist_items,
            after_checklist_items,
        } => chain(
            update_card_raw_spec(
                b,
                card_id,
                if undo {
                    before_title
                } else {
                    after_title
                },
                if undo {
                    before_description
                } else {
                    after_description
                },
                now,
            ),
            |b2: BoardState|
                chain(
                    set_due_date_raw_spec(
                        b2,
                        card_id,
                        if undo {
                            before_due_date
                        } else {
                            after_due_date
                        },
                        now,
                    ),
                    |b3: BoardState|
                        chain(
                            set_card_tags_raw_spec(
                                b3,
                                card_id,
                                if undo {
                                    before_tag_ids
                                } else {
                                    after_tag_ids
                                },
                                now,
                            ),
                            |b4: BoardState|
                                set_checklist_items_raw_spec(
                                    b4,
                                    card_id,
                                    if undo {
                                        before_checklist_items
                                    } else {
                                        after_checklist_items
                                    },
                                ),
                        ),
                ),
        ),
        OperationView::CopyCard { card, index } => if undo {
            dropped(remove_active_card_spec(b, card.id))
        } else {
            chain(
                insert_active_card_spec(b, card, index as int),
                |b2: BoardState| done(copy_counters(b2, card)),
            )
        },
        OperationView::AddChecklistItem { card_id, item } => if undo {
            dropped(remove_item_spec(b, item.card_id, item.id))
        } else {
            chain(
                insert_item_spec(b, item.card_id, item, usize::MAX as int),
                |b2: BoardState|
                    done(
                        BoardState {
                            next_checklist_item_id: past(b2.next_checklist_item_id, item.id),
                            ..b2
                        },
                    ),
            )
        },
        OperationView::UpdateChecklistItem { card_id, item_id, before_text, after_text } => edit_item(
            b,
            card_id,
            item_id,
            retexted_item(
                if undo {
                    before_text
                } else {
                    after_text
                },
                now,
            ),
        ),
        OperationView::SetChecklistItemChecked { card_id, item_id, before, after } => edit_item(
            b,
            card_id,
            item_id,
            rechecked_item(
                if undo {
                    before
                } else {
                    after
                },
                now,
            ),
        ),
        OperationView::DeleteChecklistItem { card_id, item, index } => if undo {
            insert_item_spec(b, card_id, item, index as int)
        } else {
            dropped(remove_item_spec(b, card_id, item.id))
        },
        OperationView::MoveChecklistItem { card_id, item_id, from_index, to_index } =>
            move_item_raw_spec(
            b,
            card_id,
            (if undo {
                to_index
            } else {
                from_index
            }) as int,
            (if undo {
                from_index
            } else {
                to_index
            }) as int,
        ),
        OperationView::DeleteCard { card, index } => if undo {
            insert_active_card_spec(b, card, index as int)
        } else {
            dropped(remove_active_card_spec(b, card.id))
        },
        OperationView::ArchiveCard { card, archived_card, index, archived_index } => chain(
            if undo {
                chain(
                    dropped(remove_archived_spec(b, card.id)),
                    |b2: BoardState| insert_active_card_spec(b2, card, index as int),
                )
            } else {
                chain(
                    dropped(remove_active_card_spec(b, card.id)),
                    |b2: BoardState| done(archive_insert(b2, archived_index as int, archived_card)),
                )
            },
            |b2: BoardState| done(reindexed(b2)),
        ),
        OperationView::ArchiveColumn { column_id, cards, archived_start } => chain(
            archive_column_steps(b, cards, archived_start, undo),
            |b2: BoardState| done(reindexed(b2)),
        ),
        OperationView::RestoreCard { archived_card, restored_card, index, archive_index } => chain(
            if undo {
                chain(
                    dropped(remove_active_card_spec(b, restored_card.id)),
                    |b2: BoardState| done(archive_insert(b2, archive_index as int, archived_card)),
                )
            } else {
                chain(
                    dropped(remove_archived_spec(b, archived_card.id)),
                    |b2: BoardState| insert_active_card_spec(b2, restored_card, index as int),
                )
            },
            |b2: BoardState| done(reindexed(b2)),
        ),
        OperationView::SetDueDate { card_id, before, after } => set_due_date_raw_spec(
            b,
            card_id,
            if undo {
                before
            } else {
                after
            },
            now,
        ),
        OperationView::SortColumnByDueDate { column_id, before_order, after_order } =>
            sort_column_raw_spec(
            b,
            column_id,
            if undo {
                before_order
            } else {
                after_order
            },
        ),
        OperationView::SetColumnWipLimit { column_id, before, after } => edit_column(
            b,
            column_id,
            limited_column(
                if undo {
                    before
                } else {
                    after
                },
                now,
            ),
        ),
        OperationView::AddTag { tag } => if undo {
            remove_tag_raw_spec(b, tag.id)
        } else {
            done(BoardState { tags: b.tags.push(tag), next_tag_id: past(b.next_tag_id, tag.id), ..b })
        },
        OperationView::RenameTag { tag_id, before, after } => edit_tag(
            b,
            tag_id,
            renamed_tag(
                if undo {
                    before
                } else {
                    after
                },
                now,
            ),
        ),
        OperationView::SetTagColor { tag_id, before, after } => edit_tag(
            b,
            tag_id,
            recolored_tag(
                if undo {
                    before
                } else {
                    after
                },
                now,
            ),
        ),
        OperationView::RemoveTag { tag, index, active_card_tags, archived_card_tags } => if undo {
            done(
                restore_card_tags_spec(
                    restore_card_tags_spec(
                        BoardState { tags: b.tags.insert(index as int, tag), ..b },
                        active_card_tags,
                    ),
                    archived_card_tags,
                ),
            )
        } else {
            remove_tag_raw_spec(b, tag.id)
        },
        OperationView::SetCardTags { card_id, before, after } => set_card_tags_raw_spec(
            b,
            card_id,
            if undo {
                before
            } else {
                after
            },
            now,
        ),
        OperationView::AddColumn { column, index } => if undo {
            remove_column_raw_spec(b, column.id)
        } else {
            done(
                reindexed(
                    BoardState {
                        columns: b.columns.insert(index as int, column),
                        next_column_id: past(b.next_column_id, column.id),
                        ..b
                    },
                ),
            )
        },
        OperationView::RenameColumn { column_id, before, after } => edit_column(
            b,
            column_id,
            renamed_column(
                if undo {
                    before
                } else {
                    after
                },
                now,
            ),
        ),
        OperationView::RemoveColumn {
            column,
            index,
            fallback_column_id,
            archived_card_column_ids,
        } => if undo {
            done(
                reindexed(
                    relabel_archived(
                        BoardState { columns: b.columns.insert(index as int, column), ..b },
                        archived_card_column_ids,
                        None,
                    ),
                ),
            )
        } else {
            chain(
                remove_column_raw_spec(b, column.id),
                |b2: BoardState|
                    done(reindexed(relabel_archived(b2, archived_card_column_ids, Some(fallback_column_id)))),
            )
        },
    }
}

/// Replaying `op` backwards (`undo`) or forwards; when every step succeeds the board's
/// time is set to `now`.
pub open spec fn replay_spec(b: BoardState, op: OperationView, undo: bool, now: i64) -> (
    BoardState,
    Result<(), BoardError>,
) {
    chain(replay_step(b, op, undo, now), |b2: BoardState| done(touch(b2, now)))
}

/// Whether replaying `op` would overrun a place or a number: a column or tag put back past
/// the end, or a number counted past the largest one.
pub open spec fn replay_overruns(b: BoardState, op: OperationView, undo: bool) -> bool {
    match op {
        OperationView::AddCard { card } => !undo && insert_active_card_spec(
            b,
            card,
            (card.position as usize) as int,
        ).1 is Ok && card.id == i64::MAX,
        OperationView::CopyCard { card, index } => !undo && insert_active_card_spec(
            b,
            card,
            index as int,
        ).1 is Ok && (card.id == i64::MAX || max_item_id(card.checklist_items) == Some(i64::MAX)),
        OperationView::AddChecklistItem { card_id, item } => !undo && insert_item_spec(
            b,
            item.card_id,
            item,
            usize::MAX as int,
        ).1 is Ok && item.id == i64::MAX,
        OperationView::AddTag { tag } => !undo && tag.id == i64::MAX,
        OperationView::AddColumn { column, index } => !undo && (index > b.columns.len()
            || column.id == i64::MAX),
        OperationView::RemoveColumn { index, .. } => undo && index > b.columns.len(),
        OperationView::RemoveTag { index, .. } => undo && index > b.tags.len(),
        OperationView::ArchiveColumn { cards, archived_start, .. } => !undo && exists|i: int|
            0 <= i < cards.len() && archived_start + (#[trigger] cards[i]).index > usize::MAX,
        _ => false,
    }
}

/// Taking back the last operation: it goes from the undo history to the redo history. When
/// a step fails, the operation goes back on the undo history and the steps done so far
/// stay done.
pub open spec fn undo_spec(b: BoardState, now: i64) -> (BoardState, Result<bool, BoardError>) {
    if b.undo_stack.len() == 0 {
        (b, Ok(false))
    } else {
        let op = b.undo_stack.last();
        let popped = BoardState { undo_stack: b.undo_stack.drop_last(), ..b };
        let (applied, r) = replay_spec(popped, op, true, now);
        match r {
            Ok(()) => (BoardState { redo_stack: applied.redo_stack.push(op), ..applied }, Ok(true)),
            Err(e) => (BoardState { undo_stack: applied.undo_stack.push(op), ..applied }, Err(e)),
        }
    }
}

/// Doing again the last operation taken back: it goes from the redo history to the undo
/// history. When a step fails, it goes back on the redo history.
pub open spec fn redo_spec(b: BoardState, now: i64) -> (BoardState, Result<bool, BoardError>) {
    if b.redo_stack.len() == 0 {
        (b, Ok(false))
    } else {
        let op = b.redo_stack.last();
        let popped = BoardState { redo_stack: b.redo_stack.drop_last(), ..b };
        let (applied, r) = replay_spec(popped, op, false, now);
        match r {
            Ok(()) => (BoardState { undo_stack: applied.undo_stack.push(op), ..applied }, Ok(true)),
            Err(e) => (BoardState { redo_stack: applied.redo_stack.push(op), ..applied }, Err(e)),
        }
    }
}

} // verus!
