//! Undo and redo: replaying a recorded operation backwards or forwards.
use vstd::prelude::*;
use crate::model::board::{find_card_index, timestamp};
use crate::model::replay_spec::{
    archive_column_step, archive_column_steps, archive_insert, chain, copy_counters, done,
    max_item_id, past, redo_spec, relabel_archived, replay_overruns, replay_spec, replay_step,
    undo_spec,
};
use crate::model::spec::{card_index, lemma_card_index, reindexed};
use crate::model::types::{
    cards_view, columns_view, operations_view, tags_view, ArchivedCardOperation, ArchivedCardView,
    Board, BoardError, BoardOperation, BoardState, Card, CardId, ChecklistItem, ColumnId,
    OperationView,
};
use crate::model::types::items_view;

verus! {

/// Once a run of archived-column steps has failed, the later steps change nothing.
proof fn lemma_steps_error_persists(
    b: BoardState,
    ops: Seq<ArchivedCardView>,
    start: usize,
    undo: bool,
    n: int,
)
    requires
        0 <= n <= ops.len(),
        archive_column_steps(b, ops.take(n), start, undo).1 is Err,
    ensures
        archive_column_steps(b, ops, start, undo) == archive_column_steps(b, ops.take(n), start, undo),
    decreases ops.len() - n,
{
    if n == ops.len() {
        assert(ops.take(n) =~= ops);
    } else {
        assert(ops.take(n + 1).drop_last() =~= ops.take(n));
        lemma_steps_error_persists(b, ops, start, undo, n + 1);
    }
}

/// The highest item number of `items`.
fn highest_item_id(items: &Vec<ChecklistItem>) -> (r: Option<i64>)
    ensures
        r == max_item_id(items_view(items@)),
{
    let ghost all = items_view(items@);
    let mut best: Option<i64> = None;
    let mut i: usize = 0;
    while i < items.len()
        invariant
            i <= items@.len(),
            all == items_view(items@),
            best == max_item_id(all.take(i as int)),
        decreases items.len() - i,
    {
        assert(all.take(i + 1).drop_last() =~= all.take(i as int));
        let id = items[i].id;
        best = match best {
            None => Some(id),
            Some(m) => Some(
                if id > m {
                    id
                } else {
                    m
                },
            ),
        };
        i += 1;
    }
    assert(all.take(i as int) =~= all);
    best
}

impl Board {
    /// Can an operation be taken back?
    pub fn can_undo(&self) -> (r: bool)
        ensures
            r == (self@.undo_stack.len() > 0),
    {
        self.undo_stack.len() > 0
    }

    /// Can an operation taken back be done again?
    pub fn can_redo(&self) -> (r: bool)
        ensures
            r == (self@.redo_stack.len() > 0),
    {
        self.redo_stack.len() > 0
    }

    /// Takes back the last operation. With nothing to take back the answer is `Ok(false)`.
    /// When a step of the replay fails, its error is the answer, the operation stays in the
    /// undo history, and the steps already done stay done.
    pub fn undo(&mut self) -> (r: Result<bool, BoardError>)
        requires
            old(self)@.undo_stack.len() > 0 ==> !replay_overruns(
                BoardState { undo_stack: old(self)@.undo_stack.drop_last(), ..old(self)@ },
                old(self)@.undo_stack.last(),
                true,
            ),
        ensures
            exists|now: i64|
                final(self)@ == (#[trigger] undo_spec(old(self)@, now)).0 && r == undo_spec(
                    old(self)@,
                    now,
                ).1,
    {
        let now = timestamp();
        let r = self.undo_at(now);
        assert(final(self)@ == undo_spec(old(self)@, now).0);
        r
    }

    /// Does again the last operation that was taken back. With nothing to do again the
    /// answer is `Ok(false)`. When a step fails, its error is the answer and the operation
    /// stays in the redo history.
    pub fn redo(&mut self) -> (r: Result<bool, BoardError>)
        requires
            old(self)@.redo_stack.len() > 0 ==> !replay_overruns(
                BoardState { redo_stack: old(self)@.redo_stack.drop_last(), ..old(self)@ },
                old(self)@.redo_stack.last(),
                false,
            ),
        ensures
            exists|now: i64|
                final(self)@ == (#[trigger] redo_spec(old(self)@, now)).0 && r == redo_spec(
                    old(self)@,
                    now,
                ).1,
    {
        let now = timestamp();
        let r = self.redo_at(now);
        assert(final(self)@ == redo_spec(old(self)@, now).0);
        r
    }

    fn undo_at(&mut self, now: i64) -> (r: Result<bool, BoardError>)
        requires
            old(self)@.undo_stack.len() > 0 ==> !replay_overruns(
                BoardState { undo_stack: old(self)@.undo_stack.drop_last(), ..old(self)@ },
                old(self)@.undo_stack.last(),
                true,
            ),
        ensures
            final(self)@ == undo_spec(old(self)@, now).0,
            r == undo_spec(old(self)@, now).1,
    {
        let ghost ops = self.undo_stack@;
        let operation = match self.undo_stack.pop() {
            Some(operation) => operation,
            None => return Ok(false),
        };
        assert(operations_view(self.undo_stack@) =~= operations_view(ops).drop_last());
        assert(operation@ == operations_view(ops).last());
        match self.replay(&operation, true, now) {
            Err(e) => {
                let ghost stack = self.undo_stack@;
                self.undo_stack.push(operation);
                assert(operations_view(self.undo_stack@) =~= operations_view(stack).push(operation@));
                Err(e)
            },
            Ok(()) => {
                let ghost stack = self.redo_stack@;
                self.redo_stack.push(operation);
                assert(operations_view(self.redo_stack@) =~= operations_view(stack).push(operation@));
                Ok(true)
            },
        }
    }

    fn redo_at(&mut self, now: i64) -> (r: Result<bool, BoardError>)
        requires
            old(self)@.redo_stack.len() > 0 ==> !replay_overruns(
                BoardState { redo_stack: old(self)@.redo_stack.drop_last(), ..old(self)@ },
                old(self)@.redo_stack.last(),
                false,
            ),
        ensures
            final(self)@ == redo_spec(old(self)@, now).0,
            r == redo_spec(old(self)@, now).1,
    {
        let ghost ops = self.redo_stack@;
        let operation = match self.redo_stack.pop() {
            Some(operation) => operation,
            None => return Ok(false),
        };
        assert(operations_view(self.redo_stack@) =~= operations_view(ops).drop_last());
        assert(operation@ == operations_view(ops).last());
        match self.replay(&operation, false, now) {
            Err(e) => {
                let ghost stack = self.redo_stack@;
                self.redo_stack.push(operation);
                assert(operations_view(self.redo_stack@) =~= operations_view(stack).push(operation@));
                Err(e)
            },
            Ok(()) => {
                let ghost stack = self.undo_stack@;
                self.undo_stack.push(operation);
                assert(operations_view(self.undo_stack@) =~= operations_view(stack).push(operation@));
                Ok(true)
            },
        }
    }

    /// Replays `operation` backwards (`undo`) or forwards, then sets the board's time.
    fn replay(&mut self, operation: &BoardOperation, undo: bool, now: i64) -> (r: Result<(), BoardError>)
        requires
            !replay_overruns(old(self)@, operation@, undo),
        ensures
            final(self)@ == replay_spec(old(self)@, operation@, undo, now).0,
            r == replay_spec(old(self)@, operation@, undo, now).1,
    {
        match self.apply_operation(operation, undo, now) {
            Err(e) => Err(e),
            Ok(()) => {
                self.updated_at = now;
                Ok(())
            },
        }
    }

    /// The steps of replaying `operation`, before the board's time is set.
    fn apply_operation(&mut self, operation: &BoardOperation, undo: bool, now: i64) -> (r: Result<
        (),
        BoardError,
    >)
        requires
            !replay_overruns(old(self)@, operation@, undo),
        ensures
            final(self)@ == replay_step(old(self)@, operation@, undo, now).0,
            r == replay_step(old(self)@, operation@, undo, now).1,
    {
        match operation {
            BoardOperation::MoveCard { card_id, from_column_id, from_index, to_column_id, to_index } => {
                if undo {
                    self.move_card_raw(*card_id, *from_column_id, *from_index)
                } else {
                    self.move_card_raw(*card_id, *to_column_id, *to_index)
                }
            },
            BoardOperation::MoveColumn { column_id, from_index, to_index } => {
                self.move_column_raw(
                    *column_id,
                    if undo {
                        *from_index
                    } else {
                        *to_index
                    },
                )
            },
            BoardOperation::AddCard { card } => self.replay_add_card(card, undo),
            BoardOperation::UpdateCard {
                card_id,
                before_title,
                before_description,
                after_title,
                after_description,
            } => {
                if undo {
                    self.update_card_raw(*card_id, before_title.as_str(), before_description.as_str(), now)
                } else {
                    self.update_card_raw(*card_id, after_title.as_str(), after_description.as_str(), now)
                }
            },
            BoardOperation::EditCard { .. } => self.replay_edit_card(operation, undo, now),
            BoardOperation::CopyCard { card, index } => self.replay_copy_card(card, *index, undo),
            BoardOperation::AddChecklistItem { card_id, item } => {
                if undo {
                    match self.remove_checklist_item_raw(item.card_id, item.id) {
                        Ok(_) => Ok(()),
                        Err(e) => Err(e),
                    }
                } else {
                    match self.insert_checklist_item_raw(item.duplicate()) {
                        Err(e) => Err(e),
                        Ok(()) => {
                            if item.id + 1 > self.next_checklist_item_id {
                                self.next_checklist_item_id = item.id + 1;
                            }
                            Ok(())
                        },
                    }
                }
            },
            BoardOperation::UpdateChecklistItem { card_id, item_id, before_text, after_text } => {
                if undo {
                    self.update_checklist_item_raw(*card_id, *item_id, before_text.as_str(), now)
                } else {
                    self.update_checklist_item_raw(*card_id, *item_id, after_text.as_str(), now)
                }
            },
            BoardOperation::SetChecklistItemChecked { card_id, item_id, before, after } => {
                self.set_checklist_item_checked_raw(
                    *card_id,
                    *item_id,
                    if undo {
                        *before
                    } else {
                        *after
                    },
                    now,
                )
            },
            BoardOperation::DeleteChecklistItem { card_id, item, index } => {
                if undo {
                    self.insert_checklist_item_at_raw(*card_id, item.duplicate(), *index)
                } else {
                    match self.remove_checklist_item_raw(*card_id, item.id) {
                        Ok(_) => Ok(()),
                        Err(e) => Err(e),
                    }
                }
            },
            BoardOperation::MoveChecklistItem { card_id, item_id, from_index, to_index } => {
                if undo {
                    self.move_checklist_item_raw(*card_id, *to_index, *from_index)
                } else {
                    self.move_checklist_item_raw(*card_id, *from_index, *to_index)
                }
            },
            BoardOperation::DeleteCard { card, index } => {
                if undo {
                    self.insert_active_card(card.duplicate(), *index)
                } else {
                    match self.remove_active_card(card.id) {
                        Ok(_) => Ok(()),
                        Err(e) => Err(e),
                    }
                }
            },
            BoardOperation::ArchiveCard { card, archived_card, index, archived_index } => {
                self.replay_archive_card(card, archived_card, *index, *archived_index, undo)
            },
            BoardOperation::ArchiveColumn { column_id, cards, archived_start } => {
                proof {
                    if !undo {
                        assert forall|i: int| 0 <= i < cards@.len() implies *archived_start + (
                        #[trigger] cards@[i]).index <= usize::MAX by {
                            assert(cards@.map_values(|c: ArchivedCardOperation| c@)[i].index
                                == cards@[i].index);
                        }
                    }
                }
                self.replay_archive_column(cards, *archived_start, undo)
            },
            BoardOperation::RestoreCard { archived_card, restored_card, index, archive_index } => {
                self.replay_restore_card(archived_card, restored_card, *index, *archive_index, undo)
            },
            BoardOperation::SetDueDate { card_id, before, after } => {
                self.set_due_date_raw(
                    *card_id,
                    if undo {
                        *before
                    } else {
                        *after
                    },
                    now,
                )
            },
            BoardOperation::SortColumnByDueDate { column_id, before_order, after_order } => {
                if undo {
                    self.sort_column_raw(*column_id, before_order)
                } else {
                    self.sort_column_raw(*column_id, after_order)
                }
            },
            BoardOperation::SetColumnWipLimit { column_id, before, after } => {
                self.set_column_wip_limit_raw(
                    *column_id,
                    if undo {
                        *before
                    } else {
                        *after
                    },
                    now,
                )
            },
            BoardOperation::AddTag { tag } => {
                if undo {
                    self.remove_tag_raw(tag.id)
                } else {
                    let ghost before = self@.tags;
                    let copy = tag.duplicate();
                    self.tags.push(copy);
                    assert(tags_view(self.tags@) =~= before.push(copy@));
                    if tag.id + 1 > self.next_tag_id {
                        self.next_tag_id = tag.id + 1;
                    }
                    Ok(())
                }
            },
            BoardOperation::RenameTag { tag_id, before, after } => {
                if undo {
                    self.rename_tag_raw(*tag_id, before.as_str(), now)
                } else {
                    self.rename_tag_raw(*tag_id, after.as_str(), now)
                }
            },
            BoardOperation::SetTagColor { tag_id, before, after } => {
                if undo {
                    self.set_tag_color_raw(*tag_id, before.as_str(), now)
                } else {
                    self.set_tag_color_raw(*tag_id, after.as_str(), now)
                }
            },
            BoardOperation::RemoveTag { tag, index, active_card_tags, archived_card_tags } => {
                if undo {
                    let ghost before = self@.tags;
                    let copy = tag.duplicate();
                    self.tags.insert(*index, copy);
                    assert(tags_view(self.tags@) =~= before.insert(*index as int, copy@));
                    self.restore_card_tags(active_card_tags);
                    self.restore_card_tags(archived_card_tags);
                    Ok(())
                } else {
                    self.remove_tag_raw(tag.id)
                }
            },
            BoardOperation::SetCardTags { card_id, before, after } => {
                if undo {
                    self.set_card_tags_raw(*card_id, before, now)
                } else {
                    self.set_card_tags_raw(*card_id, after, now)
                }
            },
            BoardOperation::AddColumn { column, index } => {
                if undo {
                    self.remove_column_raw(column.id)
                } else {
                    let ghost before = self@.columns;
                    let copy = column.duplicate();
                    self.columns.insert(*index, copy);
                    assert(columns_view(self.columns@) =~= before.insert(*index as int, copy@));
                    if column.id + 1 > self.next_column_id {
                        self.next_column_id = column.id + 1;
                    }
                    self.reindex();
                    Ok(())
                }
            },
            BoardOperation::RenameColumn { column_id, before, after } => {
                if undo {
                    self.rename_column_raw(*column_id, before.as_str(), now)
                } else {
                    self.rename_column_raw(*column_id, after.as_str(), now)
                }
            },
            BoardOperation::RemoveColumn {
                column,
                index,
                fallback_column_id,
                archived_card_column_ids,
            } => {
                if undo {
                    let ghost before = self@.columns;
                    let copy = column.duplicate();
                    self.columns.insert(*index, copy);
                    assert(columns_view(self.columns@) =~= before.insert(*index as int, copy@));
                    self.relabel_archived_cards(archived_card_column_ids, None);
                    self.reindex();
                    Ok(())
                } else {
                    match self.remove_column_raw(column.id) {
                        Err(e) => Err(e),
                        Ok(()) => {
                            self.relabel_archived_cards(
                                archived_card_column_ids,
                                Some(*fallback_column_id),
                            );
                            self.reindex();
                            Ok(())
                        },
                    }
                }
            },
        }
    }

    fn replay_add_card(&mut self, card: &Card, undo: bool) -> (r: Result<(), BoardError>)
        requires
            !replay_overruns(old(self)@, OperationView::AddCard { card: card@ }, undo),
        ensures
            final(self)@ == replay_step(old(self)@, OperationView::AddCard { card: card@ }, undo, 0).0,
            r == replay_step(old(self)@, OperationView::AddCard { card: card@ }, undo, 0).1,
    {
        if undo {
            match self.remove_active_card(card.id) {
                Ok(_) => Ok(()),
                Err(e) => Err(e),
            }
        } else {
            match self.insert_active_card(card.duplicate(), card.position as usize) {
                Err(e) => Err(e),
                Ok(()) => {
                    if card.id + 1 > self.next_card_id {
                        self.next_card_id = card.id + 1;
                    }
                    Ok(())
                },
            }
        }
    }

    fn replay_copy_card(&mut self, card: &Card, index: usize, undo: bool) -> (r: Result<(), BoardError>)
        requires
            !replay_overruns(old(self)@, OperationView::CopyCard { card: card@, index }, undo),
        ensures
            final(self)@ == replay_step(old(self)@, OperationView::CopyCard { card: card@, index }, undo, 0).0,
            r == replay_step(old(self)@, OperationView::CopyCard { card: card@, index }, undo, 0).1,
    {
        if undo {
            match self.remove_active_card(card.id) {
                Ok(_) => Ok(()),
                Err(e) => Err(e),
            }
        } else {
            match self.insert_active_card(card.duplicate(), index) {
                Err(e) => Err(e),
                Ok(()) => {
                    let ghost inserted = self@;
                    if card.id + 1 > self.next_card_id {
                        self.next_card_id = card.id + 1;
                    }
                    match highest_item_id(&card.checklist_items) {
                        Some(m) => {
                            if m + 1 > self.next_checklist_item_id {
                                self.next_checklist_item_id = m + 1;
                            }
                        },
                        None => {},
                    }
                    assert(self@ == copy_counters(inserted, card@));
                    Ok(())
                },
            }
        }
    }

    fn replay_edit_card(&mut self, operation: &BoardOperation, undo: bool, now: i64) -> (r: Result<
        (),
        BoardError,
    >)
        requires
            operation is EditCard,
        ensures
            final(self)@ == replay_step(old(self)@, operation@, undo, now).0,
            r == replay_step(old(self)@, operation@, undo, now).1,
    {
        match operation {
            BoardOperation::EditCard {
                card_id,
                before_title,
                before_description,
                before_due_date,
                before_tag_ids,
                after_title,
                after_description,
                after_due_date,
                after_tag_ids,
                before_checklist_items,
                after_checklist_items,
            } => {
                let title = if undo {
                    before_title
                } else {
                    after_title
                };
                let description = if undo {
                    before_description
                } else {
                    after_description
                };
                match self.update_card_raw(*card_id, title.as_str(), description.as_str(), now) {
                    Err(e) => return Err(e),
                    Ok(()) => {},
                }
                let due = if undo {
                    *before_due_date
                } else {
                    *after_due_date
                };
                match self.set_due_date_raw(*card_id, due, now) {
                    Err(e) => return Err(e),
                    Ok(()) => {},
                }
                let tags = if undo {
                    before_tag_ids
                } else {
                    after_tag_ids
                };
                match self.set_card_tags_raw(*card_id, tags, now) {
                    Err(e) => return Err(e),
                    Ok(()) => {},
                }
                let items = if undo {
                    before_checklist_items
                } else {
                    after_checklist_items
                };
                self.set_checklist_items_raw(*card_id, items)
            },
            _ => Ok(()),
        }
    }

    /// Puts `card` into the archive at place `index`, clamped to its end.
    fn insert_archived(&mut self, index: usize, card: Card)
        ensures
            final(self)@ == archive_insert(old(self)@, index as int, card@),
    {
        let len = self.archived_cards.len();
        let at = if index < len {
            index
        } else {
            len
        };
        let ghost before = self.archived_cards@;
        self.archived_cards.insert(at, card);
        assert(cards_view(self.archived_cards@) =~= cards_view(before).insert(at as int, card@));
    }

    fn replay_archive_card(
        &mut self,
        card: &Card,
        archived_card: &Card,
        index: usize,
        archived_index: usize,
        undo: bool,
    ) -> (r: Result<(), BoardError>)
        ensures
            final(self)@ == replay_step(
                old(self)@,
                OperationView::ArchiveCard {
                    card: card@,
                    archived_card: archived_card@,
                    index,
                    archived_index,
                },
                undo,
                0,
            ).0,
            r == replay_step(
                old(self)@,
                OperationView::ArchiveCard {
                    card: card@,
                    archived_card: archived_card@,
                    index,
                    archived_index,
                },
                undo,
                0,
            ).1,
    {
        if undo {
            match self.remove_archived_card(card.id) {
                Err(e) => return Err(e),
                Ok(_) => {},
            }
            match self.insert_active_card(card.duplicate(), index) {
                Err(e) => return Err(e),
                Ok(()) => {},
            }
        } else {
            match self.remove_active_card(card.id) {
                Err(e) => return Err(e),
                Ok(_) => {},
            }
            self.insert_archived(archived_index, archived_card.duplicate());
        }
        self.reindex();
        Ok(())
    }

    fn replay_restore_card(
        &mut self,
        archived_card: &Card,
        restored_card: &Card,
        index: usize,
        archive_index: usize,
        undo: bool,
    ) -> (r: Result<(), BoardError>)
        ensures
            final(self)@ == replay_step(
                old(self)@,
                OperationView::RestoreCard {
                    archived_card: archived_card@,
                    restored_card: restored_card@,
                    index,
                    archive_index,
                },
                undo,
                0,
            ).0,
            r == replay_step(
                old(self)@,
                OperationView::RestoreCard {
                    archived_card: archived_card@,
                    restored_card: restored_card@,
                    index,
                    archive_index,
                },
                undo,
                0,
            ).1,
    {
        if undo {
            match self.remove_active_card(restored_card.id) {
                Err(e) => return Err(e),
                Ok(_) => {},
            }
            self.insert_archived(archive_index, archived_card.duplicate());
        } else {
            match self.remove_archived_card(archived_card.id) {
                Err(e) => return Err(e),
                Ok(_) => {},
            }
            match self.insert_active_card(restored_card.duplicate(), index) {
                Err(e) => return Err(e),
                Ok(()) => {},
            }
        }
        self.reindex();
        Ok(())
    }

    fn replay_archive_column(
        &mut self,
        cards: &Vec<ArchivedCardOperation>,
        start: usize,
        undo: bool,
    ) -> (r: Result<(), BoardError>)
        requires
            !undo ==> forall|i: int| 0 <= i < cards@.len() ==> start + (#[trigger] cards@[i]).index
                <= usize::MAX,
        ensures
            final(self)@ == chain(
                archive_column_steps(
                    old(self)@,
                    cards@.map_values(|c: ArchivedCardOperation| c@),
                    start,
                    undo,
                ),
                |b2: BoardState| done(reindexed(b2)),
            ).0,
            r == chain(
                archive_column_steps(
                    old(self)@,
                    cards@.map_values(|c: ArchivedCardOperation| c@),
                    start,
                    undo,
                ),
                |b2: BoardState| done(reindexed(b2)),
            ).1,
    {
        let ghost ops = cards@.map_values(|c: ArchivedCardOperation| c@);
        let ghost start_view = self@;
        let mut i: usize = 0;
        assert(ops.take(0) =~= Seq::<ArchivedCardView>::empty());
        while i < cards.len()
            invariant
                i <= cards@.len(),
                ops == cards@.map_values(|c: ArchivedCardOperation| c@),
                !undo ==> forall|j: int| 0 <= j < cards@.len() ==> start + (#[trigger] cards@[j]).index
                    <= usize::MAX,
                start_view == old(self)@,
                archive_column_steps(start_view, ops.take(i as int), start, undo).1 is Ok,
                self@ == archive_column_steps(start_view, ops.take(i as int), start, undo).0,
            decreases cards.len() - i,
        {
            let ghost before = self@;
            assert(ops.take(i + 1).drop_last() =~= ops.take(i as int));
            assert(ops.take(i + 1).last() == cards@[i as int]@);
            let op = &cards[i];
            let step = if undo {
                match self.remove_archived_card(op.card.id) {
                    Err(e) => Err(e),
                    Ok(_) => self.insert_active_card(op.card.duplicate(), op.index),
                }
            } else {
                match self.remove_active_card(op.card.id) {
                    Err(e) => Err(e),
                    Ok(_) => {
                        self.insert_archived(start + op.index, op.archived_card.duplicate());
                        Ok(())
                    },
                }
            };
            assert(self@ == archive_column_step(before, cards@[i as int]@, start, undo).0);
            assert(step == archive_column_step(before, cards@[i as int]@, start, undo).1);
            match step {
                Err(e) => {
                    proof {
                        assert(archive_column_steps(start_view, ops.take(i as int + 1), start, undo)
                            == (self@, Err::<(), BoardError>(e)));
                        lemma_steps_error_persists(start_view, ops, start, undo, i as int + 1);
                        assert(archive_column_steps(start_view, ops, start, undo) == (self@, Err::<(), BoardError>(e)));
                        assert(start_view == old(self)@);
                    }
                    return Err(e);
                },
                Ok(()) => {},
            }
            i += 1;
        }
        assert(ops.take(i as int) =~= ops);
        self.reindex();
        Ok(())
    }

    /// For each pair, the first archived card with its card id gets column `fallback`, or
    /// the pair's column when there is no fallback.
    fn relabel_archived_cards(&mut self, pairs: &Vec<(CardId, ColumnId)>, fallback: Option<ColumnId>)
        ensures
            final(self)@ == relabel_archived(old(self)@, pairs@, fallback),
    {
        let mut i: usize = 0;
        assert(pairs@.take(0) =~= Seq::<(CardId, ColumnId)>::empty());
        while i < pairs.len()
            invariant
                i <= pairs@.len(),
                self@ == relabel_archived(old(self)@, pairs@.take(i as int), fallback),
            decreases pairs.len() - i,
        {
            assert(pairs@.take(i + 1).drop_last() =~= pairs@.take(i as int));
            let (card_id, column_id) = pairs[i];
            let target = match fallback {
                Some(f) => f,
                None => column_id,
            };
            proof {
                lemma_card_index(self@.archived_cards, card_id);
            }
            match find_card_index(&self.archived_cards, card_id) {
                Some(k) => {
                    let ghost before = self.archived_cards@;
                    self.archived_cards[k].column_id = target;
                    assert(cards_view(self.archived_cards@) =~= cards_view(before).update(
                        k as int,
                        crate::model::types::CardView { column_id: target, ..cards_view(before)[k as int] },
                    ));
                },
                None => {},
            }
            i += 1;
        }
        assert(pairs@.take(i as int) =~= pairs@);
    }
}

} // verus!
