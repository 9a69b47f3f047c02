//! Cards leaving and coming back: deleting, archiving, restoring, copying, and taking back
//! a card that was only just added.
use vstd::prelude::*;
use crate::model::board::{
    find_card_index, find_column_index, lemma_cards_view_insert, lemma_cards_view_push,
    lemma_cards_view_remove, lemma_columns_view_set_cards, timestamp,
};
use crate::model::copy::copy_ids;
use crate::model::spec::{
    card_index, card_location, column_index, insert_card_at, lemma_card_index,
    lemma_card_location, lemma_column_index, push_operation, record_event, reindex_columns,
    remove_card_at, set_cards, touch, with_columns,
};
use crate::model::types::{
    cards_view, columns_view, items_view, operations_view, ArchivedCardOperation,
    ArchivedCardView, Board, BoardError, BoardOperation, BoardState, Card, CardEvent,
    CardEventKind, CardId, ChecklistItem, ChecklistItemView, ColumnId, CardView, OperationView,
};

verus! {

/// Deleting active card `card_id`: it leaves the board, records a `Deleted` event, and can
/// be undone.
pub open spec fn delete_card_spec(b: BoardState, card_id: CardId, now: i64) -> (
    BoardState,
    Result<(), BoardError>,
) {
    match card_location(b.columns, card_id) {
        None => (b, Err(BoardError::CardNotFound(card_id))),
        Some((c, k)) => {
            let removed = with_columns(b, reindex_columns(remove_card_at(b.columns, c, k)));
            let event = CardEvent {
                card_id,
                kind: CardEventKind::Deleted,
                from_column_id: Some(b.columns[c].id),
                to_column_id: None,
                at: now,
            };
            (
                push_operation(
                    record_event(touch(removed, now), event),
                    OperationView::DeleteCard { card: b.columns[c].cards[k], index: k as usize },
                ),
                Ok(()),
            )
        },
    }
}

/// Archiving active card `card_id`: it goes to the end of the archive, marked with the
/// time, and records an `Archived` event.
pub open spec fn archive_card_spec(b: BoardState, card_id: CardId, now: i64) -> (
    BoardState,
    Result<bool, BoardError>,
) {
    match card_location(b.columns, card_id) {
        None => (b, Err(BoardError::CardNotFound(card_id))),
        Some((c, k)) => {
            let card = b.columns[c].cards[k];
            let archived = CardView { archived_at: Some(now), updated_at: now, ..card };
            let moved = BoardState {
                columns: reindex_columns(remove_card_at(b.columns, c, k)),
                archived_cards: b.archived_cards.push(archived),
                ..b
            };
            let event = CardEvent {
                card_id,
                kind: CardEventKind::Archived,
                from_column_id: Some(b.columns[c].id),
                to_column_id: None,
                at: now,
            };
            (
                push_operation(
                    record_event(touch(moved, now), event),
                    OperationView::ArchiveCard {
                        card,
                        archived_card: archived,
                        index: k as usize,
                        archived_index: b.archived_cards.len() as usize,
                    },
                ),
                Ok(true),
            )
        },
    }
}

/// `cards` marked as archived at `now`.
pub open spec fn archived_at(cards: Seq<CardView>, now: i64) -> Seq<CardView> {
    Seq::new(
        cards.len(),
        |i: int| CardView { archived_at: Some(now), updated_at: now, ..cards[i] },
    )
}

/// An `Archived` event for each of `cards`, which leave column `column_id`.
pub open spec fn archived_events(cards: Seq<CardView>, column_id: ColumnId, now: i64) -> Seq<CardEvent> {
    Seq::new(
        cards.len(),
        |k: int|
            CardEvent {
                card_id: cards[k].id,
                kind: CardEventKind::Archived,
                from_column_id: Some(column_id),
                to_column_id: None,
                at: now,
            },
    )
}

/// Archiving every card of column `column_id`, in order, and answering how many there
/// were. An empty column answers 0 and changes nothing.
pub open spec fn archive_column_spec(b: BoardState, column_id: ColumnId, now: i64) -> (
    BoardState,
    Result<usize, BoardError>,
) {
    match column_index(b.columns, column_id) {
        None => (b, Err(BoardError::ColumnNotFound(column_id))),
        Some(c) => {
            let cards = b.columns[c].cards;
            if cards.len() == 0 {
                (b, Ok(0))
            } else {
                let archived = archived_at(cards, now);
                let moved = BoardState {
                    columns: reindex_columns(set_cards(b.columns, c, seq![])),
                    archived_cards: b.archived_cards + archived,
                    pending_events: b.pending_events + archived_events(cards, column_id, now),
                    ..b
                };
                (
                    push_operation(
                        touch(moved, now),
                        OperationView::ArchiveColumn {
                            column_id,
                            cards: Seq::new(
                                cards.len(),
                                |i: int|
                                    ArchivedCardView {
                                        card: cards[i],
                                        archived_card: archived[i],
                                        index: i as usize,
                                    },
                            ),
                            archived_start: b.archived_cards.len() as usize,
                        },
                    ),
                    Ok(cards.len() as usize),
                )
            }
        },
    }
}

/// The column that archived card `card` goes back to: the first column with its column
/// id, else the first column.
pub open spec fn restore_target(b: BoardState, card: CardView) -> Option<int> {
    match column_index(b.columns, card.column_id) {
        Some(c) => Some(c),
        None => if b.columns.len() > 0 {
            Some(0)
        } else {
            None
        },
    }
}

/// Restoring archived card `card_id` to the end of its column (or of the first column, if
/// its column is gone). Records a `Restored` event.
pub open spec fn restore_card_spec(b: BoardState, card_id: CardId, now: i64) -> (
    BoardState,
    Result<bool, BoardError>,
) {
    match card_index(b.archived_cards, card_id) {
        None => (b, Err(BoardError::CardNotFound(card_id))),
        Some(ai) => {
            let archived = b.archived_cards[ai];
            match restore_target(b, archived) {
                None => (b, Err(BoardError::LastColumn)),
                Some(c) => {
                    let target = b.columns[c].id;
                    let len = b.columns[c].cards.len();
                    let restored = CardView {
                        column_id: target,
                        position: len as i64,
                        archived_at: None,
                        updated_at: now,
                        ..archived
                    };
                    let moved = BoardState {
                        archived_cards: b.archived_cards.remove(ai),
                        columns: reindex_columns(set_cards(b.columns, c, b.columns[c].cards.push(restored))),
                        ..b
                    };
                    let event = CardEvent {
                        card_id,
                        kind: CardEventKind::Restored,
                        from_column_id: None,
                        to_column_id: Some(target),
                        at: now,
                    };
                    (
                        push_operation(
                            record_event(touch(moved, now), event),
                            OperationView::RestoreCard {
                                archived_card: archived,
                                restored_card: restored,
                                index: len as usize,
                                archive_index: ai as usize,
                            },
                        ),
                        Ok(true),
                    )
                },
            }
        },
    }
}

/// The checklist of a copy: the same texts, unchecked, numbered from `first_id`, owned by
/// card `card_id`.
pub open spec fn copied_items(
    items: Seq<ChecklistItemView>,
    card_id: CardId,
    first_id: int,
    now: i64,
) -> Seq<ChecklistItemView> {
    Seq::new(
        items.len(),
        |i: int|
            ChecklistItemView {
                id: (first_id + i) as i64,
                card_id: card_id,
                text: items[i].text,
                checked: false,
                position: i as i64,
                created_at: now,
                updated_at: now,
            },
    )
}

/// Copying active card `card_id` right after it: the copy takes the next card number and
/// new item numbers, keeps title, description, tags and checklist texts, and has no due
/// date and no checked item. Records a `Created` event.
pub open spec fn copy_card_spec(b: BoardState, card_id: CardId, now: i64) -> (
    BoardState,
    Result<CardId, BoardError>,
) {
    match card_location(b.columns, card_id) {
        None => (b, Err(BoardError::CardNotFound(card_id))),
        Some((c, k)) => {
            let source = b.columns[c].cards[k];
            let id = b.next_card_id;
            let copy = CardView {
                id: id,
                column_id: source.column_id,
                title: source.title,
                description: source.description,
                position: (k + 1) as i64,
                created_at: now,
                updated_at: now,
                due_date: None,
                tag_ids: source.tag_ids,
                checklist_items: copied_items(
                    source.checklist_items,
                    id,
                    b.next_checklist_item_id as int,
                    now,
                ),
                archived_at: None,
            };
            let copied = BoardState {
                columns: reindex_columns(insert_card_at(b.columns, c, k + 1, copy)),
                next_card_id: (id + 1) as i64,
                next_checklist_item_id: (b.next_checklist_item_id
                    + source.checklist_items.len()) as i64,
                ..b
            };
            let event = CardEvent {
                card_id: id,
                kind: CardEventKind::Created,
                from_column_id: None,
                to_column_id: Some(source.column_id),
                at: now,
            };
            (
                push_operation(
                    record_event(touch(copied, now), event),
                    OperationView::CopyCard { card: copy, index: (k + 1) as usize },
                ),
                Ok(id),
            )
        },
    }
}

/// The place of the last `AddCard` operation of card `card_id`.
pub open spec fn last_add_card_index(ops: Seq<OperationView>, card_id: CardId) -> Option<int>
    decreases ops.len(),
{
    if ops.len() == 0 {
        None
    } else if ops.last() matches OperationView::AddCard { card } && card.id == card_id {
        Some(ops.len() - 1)
    } else {
        last_add_card_index(ops.drop_last(), card_id)
    }
}

/// `events` without the `Created` events of card `card_id`.
pub open spec fn without_created(events: Seq<CardEvent>, card_id: CardId) -> Seq<CardEvent>
    decreases events.len(),
{
    if events.len() == 0 {
        events
    } else {
        let rest = without_created(events.drop_last(), card_id);
        let last = events.last();
        if last.card_id == card_id && last.kind == CardEventKind::Created {
            rest
        } else {
            rest.push(last)
        }
    }
}

/// Taking back the adding of active card `card_id` as though it never happened: the card
/// leaves, its `AddCard` operation leaves the undo history, and its `Created` events leave
/// the pending history. The card number is not handed out again.
pub open spec fn discard_added_card_spec(b: BoardState, card_id: CardId, now: i64) -> (
    BoardState,
    Result<(), BoardError>,
) {
    match card_location(b.columns, card_id) {
        None => (b, Err(BoardError::CardNotFound(card_id))),
        Some((c, k)) => (
            BoardState {
                columns: reindex_columns(remove_card_at(b.columns, c, k)),
                undo_stack: match last_add_card_index(b.undo_stack, card_id) {
                    Some(i) => b.undo_stack.remove(i),
                    None => b.undo_stack,
                },
                pending_events: without_created(b.pending_events, card_id),
                updated_at: now,
                ..b
            },
            Ok(()),
        ),
    }
}

proof fn lemma_last_add_card_index(ops: Seq<OperationView>, card_id: CardId)
    ensures
        match last_add_card_index(ops, card_id) {
            Some(i) => 0 <= i < ops.len(),
            None => true,
        },
    decreases ops.len(),
{
    if ops.len() > 0 {
        lemma_last_add_card_index(ops.drop_last(), card_id);
    }
}

impl Board {
    /// Deletes card `card_id`, recording a `Deleted` event. Can be undone.
    pub fn delete_card(&mut self, card_id: CardId) -> (r: Result<(), BoardError>)
        ensures
            final(self)@ == delete_card_spec(old(self)@, card_id, final(self)@.updated_at).0,
            r == delete_card_spec(old(self)@, card_id, final(self)@.updated_at).1,
    {
        proof {
            lemma_card_location(self@.columns, card_id);
        }
        let (c, k) = match self.active_card_location(card_id) {
            Some(location) => location,
            None => return Err(BoardError::CardNotFound(card_id)),
        };
        let column_id = self.columns[c].id;
        let ghost before = self.columns@;
        let card = self.columns[c].cards.remove(k);
        proof {
            lemma_cards_view_remove(before[c as int].cards@, k as int);
            lemma_columns_view_set_cards(before, self.columns@, c as int);
        }
        self.reindex();
        let now = timestamp();
        self.updated_at = now;
        self.record_event(card_id, CardEventKind::Deleted, Some(column_id), None, now);
        self.push_operation(BoardOperation::DeleteCard { card, index: k });
        Ok(())
    }

    /// The same as `delete_card`.
    pub fn remove_card(&mut self, card_id: CardId) -> (r: Result<(), BoardError>)
        ensures
            final(self)@ == delete_card_spec(old(self)@, card_id, final(self)@.updated_at).0,
            r == delete_card_spec(old(self)@, card_id, final(self)@.updated_at).1,
    {
        self.delete_card(card_id)
    }

    /// Archives card `card_id` at the end of the archive, recording an `Archived` event.
    /// Can be undone.
    pub fn archive_card(&mut self, card_id: CardId) -> (r: Result<bool, BoardError>)
        ensures
            final(self)@ == archive_card_spec(old(self)@, card_id, final(self)@.updated_at).0,
            r == archive_card_spec(old(self)@, card_id, final(self)@.updated_at).1,
    {
        proof {
            lemma_card_location(self@.columns, card_id);
        }
        let (c, k) = match self.active_card_location(card_id) {
            Some(location) => location,
            None => return Err(BoardError::CardNotFound(card_id)),
        };
        let source_column_id = self.columns[c].id;
        let now = timestamp();
        let ghost before = self.columns@;
        let card = self.columns[c].cards.remove(k);
        proof {
            lemma_cards_view_remove(before[c as int].cards@, k as int);
            lemma_columns_view_set_cards(before, self.columns@, c as int);
        }
        let original = card.duplicate();
        let archived = Card { archived_at: Some(now), updated_at: now, ..card };
        let recorded = archived.duplicate();
        let archived_index = self.archived_cards.len();
        let ghost archive_before = self.archived_cards@;
        self.archived_cards.push(archived);
        proof {
            lemma_cards_view_push(archive_before, archived);
        }
        self.reindex();
        self.updated_at = now;
        self.record_event(card_id, CardEventKind::Archived, Some(source_column_id), None, now);
        self.push_operation(
            BoardOperation::ArchiveCard {
                card: original,
                archived_card: recorded,
                index: k,
                archived_index,
            },
        );
        Ok(true)
    }

    /// Archives every card of column `column_id`, in order, recording an `Archived` event
    /// for each, and answers how many there were. Can be undone.
    pub fn archive_column(&mut self, column_id: ColumnId) -> (r: Result<usize, BoardError>)
        ensures
            final(self)@ == archive_column_spec(old(self)@, column_id, final(self)@.updated_at).0,
            r == archive_column_spec(old(self)@, column_id, final(self)@.updated_at).1,
    {
        proof {
            lemma_column_index(self@.columns, column_id);
        }
        let c = match find_column_index(&self.columns, column_id) {
            Some(c) => c,
            None => return Err(BoardError::ColumnNotFound(column_id)),
        };
        if self.columns[c].cards.len() == 0 {
            return Ok(0);
        }
        let ghost old_view = self@;
        let now = timestamp();
        let archived_start = self.archived_cards.len();
        let mut cards: Vec<Card> = Vec::new();
        let ghost before = self.columns@;
        std::mem::swap(&mut cards, &mut self.columns[c].cards);
        proof {
            assert(cards_view(self.columns@[c as int].cards@) =~= Seq::<CardView>::empty());
            lemma_columns_view_set_cards(before, self.columns@, c as int);
        }
        let count = cards.len();
        let ghost originals = cards_view(cards@);
        let mut ops: Vec<ArchivedCardOperation> = Vec::new();
        let mut i: usize = 0;
        while i < cards.len()
            invariant
                i <= cards@.len(),
                cards@.len() == originals.len(),
                forall|j: int|
                    0 <= j < i ==> (#[trigger] cards@[j])@ == archived_at(originals, now)[j],
                forall|j: int| i <= j < cards@.len() ==> (#[trigger] cards@[j])@ == originals[j],
                ops@.len() == i,
                forall|j: int|
                    0 <= j < i ==> (#[trigger] ops@[j])@ == (ArchivedCardView {
                        card: originals[j],
                        archived_card: archived_at(originals, now)[j],
                        index: j as usize,
                    }),
                self@ == (BoardState {
                    pending_events: old_view.pending_events + archived_events(
                        originals,
                        column_id,
                        now,
                    ).take(i as int),
                    columns: set_cards(old_view.columns, c as int, seq![]),
                    ..old_view
                }),
            decreases cards.len() - i,
        {
            let original = cards[i].duplicate();
            cards[i].archived_at = Some(now);
            cards[i].updated_at = now;
            let recorded = cards[i].duplicate();
            ops.push(ArchivedCardOperation { card: original, archived_card: recorded, index: i });
            let card_id = cards[i].id;
            self.record_event(card_id, CardEventKind::Archived, Some(column_id), None, now);
            assert(old_view.pending_events + archived_events(originals, column_id, now).take(
                i as int + 1,
            ) =~= (old_view.pending_events + archived_events(originals, column_id, now).take(
                i as int,
            )).push(archived_events(originals, column_id, now)[i as int]));
            i += 1;
        }
        assert(archived_events(originals, column_id, now).take(i as int) =~= archived_events(
            originals,
            column_id,
            now,
        ));
        assert(cards_view(cards@) =~= archived_at(originals, now));
        let ghost archive_before = self.archived_cards@;
        self.archived_cards.append(&mut cards);
        assert(cards_view(self.archived_cards@) =~= cards_view(archive_before) + archived_at(
            originals,
            now,
        ));
        self.reindex();
        self.updated_at = now;
        self.push_operation(BoardOperation::ArchiveColumn { column_id, cards: ops, archived_start });
        assert(ops@.map_values(|o: ArchivedCardOperation| o@) =~= Seq::new(
            originals.len(),
            |j: int|
                ArchivedCardView {
                    card: originals[j],
                    archived_card: archived_at(originals, now)[j],
                    index: j as usize,
                },
        ));
        assert(self@ =~= archive_column_spec(old_view, column_id, now).0);
        Ok(count)
    }

    /// Restores archived card `card_id` to the end of its column, or of the first column if
    /// its column is gone, recording a `Restored` event. Can be undone.
    pub fn restore_card(&mut self, card_id: CardId) -> (r: Result<bool, BoardError>)
        ensures
            final(self)@ == restore_card_spec(old(self)@, card_id, final(self)@.updated_at).0,
            r == restore_card_spec(old(self)@, card_id, final(self)@.updated_at).1,
    {
        proof {
            lemma_card_index(self@.archived_cards, card_id);
        }
        let ai = match find_card_index(&self.archived_cards, card_id) {
            Some(ai) => ai,
            None => return Err(BoardError::CardNotFound(card_id)),
        };
        proof {
            lemma_column_index(self@.columns, self@.archived_cards[ai as int].column_id);
        }
        let c = match find_column_index(&self.columns, self.archived_cards[ai].column_id) {
            Some(c) => c,
            None => {
                if self.columns.len() == 0 {
                    return Err(BoardError::LastColumn);
                }
                0
            },
        };
        let ghost old_view = self@;
        let target = self.columns[c].id;
        let now = timestamp();
        let archived = self.archived_cards[ai].duplicate();
        let ghost archive_before = self.archived_cards@;
        let card = self.archived_cards.remove(ai);
        proof {
            lemma_cards_view_remove(archive_before, ai as int);
        }
        let len = self.columns[c].cards.len();
        let card = Card {
            column_id: target,
            position: len as i64,
            archived_at: None,
            updated_at: now,
            ..card
        };
        let restored = card.duplicate();
        let ghost before = self.columns@;
        self.columns[c].cards.push(card);
        proof {
            lemma_cards_view_push(before[c as int].cards@, card);
            lemma_columns_view_set_cards(before, self.columns@, c as int);
        }
        self.reindex();
        self.updated_at = now;
        self.record_event(card_id, CardEventKind::Restored, None, Some(target), now);
        self.push_operation(
            BoardOperation::RestoreCard {
                archived_card: archived,
                restored_card: restored,
                index: len,
                archive_index: ai,
            },
        );
        assert(self@ =~= restore_card_spec(old_view, card_id, now).0);
        Ok(true)
    }

    /// Copies card `card_id` right after it and answers the copy's number. The copy keeps
    /// title, description, tags and checklist texts, and has no due date and no checked
    /// item. Records a `Created` event; can be undone.
    pub fn copy_card(&mut self, card_id: CardId) -> (r: Result<CardId, BoardError>)
        requires
            old(self).next_card_id < i64::MAX,
            card_location(old(self)@.columns, card_id) matches Some((c, k))
                ==> old(self).next_checklist_item_id + old(self)@.columns[c].cards[k].checklist_items.len()
                <= i64::MAX,
        ensures
            final(self)@ == copy_card_spec(old(self)@, card_id, final(self)@.updated_at).0,
            r == copy_card_spec(old(self)@, card_id, final(self)@.updated_at).1,
    {
        proof {
            lemma_card_location(self@.columns, card_id);
        }
        let (c, k) = match self.active_card_location(card_id) {
            Some(location) => location,
            None => return Err(BoardError::CardNotFound(card_id)),
        };
        proof {
            assert(self@.columns[c as int] == self.columns@[c as int]@);
        }
        let ghost old_view = self@;
        let id = self.next_card_id;
        let now = timestamp();
        let len = self.columns[c].cards.len();
        assert(k < len);
        let next = k + 1;
        let ghost source = self@.columns[c as int].cards[k as int];
        let first_item_id = self.next_checklist_item_id;
        let mut items: Vec<ChecklistItem> = Vec::new();
        let n = self.columns[c].cards[k].checklist_items.len();
        let mut i: usize = 0;
        while i < n
            invariant
                n == source.checklist_items.len(),
                0 <= c < self.columns@.len(),
                0 <= k < self.columns@[c as int].cards@.len(),
                self@ == (BoardState {
                    next_checklist_item_id: (first_item_id + i) as i64,
                    ..old_view
                }),
                self@.columns[c as int].cards[k as int] == source,
                first_item_id + n <= i64::MAX,
                i <= n,
                items_view(items@) == copied_items(source.checklist_items, id, first_item_id as int, now).take(
                    i as int,
                ),
            decreases n - i,
        {
            proof {
                assert(self@.columns[c as int] == self.columns@[c as int]@);
            }
            let item = ChecklistItem {
                id: self.next_checklist_item_id,
                card_id: id,
                text: self.columns[c].cards[k].checklist_items[i].text.clone(),
                checked: false,
                position: i as i64,
                created_at: now,
                updated_at: now,
            };
            proof {
                let cards = self.columns@[c as int].cards@;
                assert(self@.columns[c as int].cards[k as int] == cards[k as int]@);
                assert(source.checklist_items[i as int] == cards[k as int].checklist_items@[i as int]@);
                assert(item@ == copied_items(source.checklist_items, id, first_item_id as int, now)[i as int]);
            }
            self.next_checklist_item_id += 1;
            let ghost before_items = items@;
            items.push(item);
            assert(items_view(items@) =~= items_view(before_items).push(item@));
            assert(copied_items(source.checklist_items, id, first_item_id as int, now).take(i as int + 1)
                =~= copied_items(source.checklist_items, id, first_item_id as int, now).take(
                i as int,
            ).push(copied_items(source.checklist_items, id, first_item_id as int, now)[i as int]));
            assert(items_view(items@) =~= copied_items(
                source.checklist_items,
                id,
                first_item_id as int,
                now,
            ).take(i as int + 1));
            i += 1;
        }
        assert(copied_items(source.checklist_items, id, first_item_id as int, now).take(n as int)
            =~= copied_items(source.checklist_items, id, first_item_id as int, now));
        proof {
            assert(self@.columns[c as int] == self.columns@[c as int]@);
        }
        let column_id = self.columns[c].cards[k].column_id;
        let copy = Card {
            id,
            column_id,
            title: self.columns[c].cards[k].title.clone(),
            description: self.columns[c].cards[k].description.clone(),
            position: next as i64,
            created_at: now,
            updated_at: now,
            due_date: None,
            tag_ids: copy_ids(&self.columns[c].cards[k].tag_ids),
            checklist_items: items,
            archived_at: None,
        };
        let recorded = copy.duplicate();
        self.next_card_id += 1;
        let ghost before = self.columns@;
        self.columns[c].cards.insert(next, copy);
        proof {
            lemma_cards_view_insert(before[c as int].cards@, next as int, copy);
            lemma_columns_view_set_cards(before, self.columns@, c as int);
        }
        self.reindex();
        self.updated_at = now;
        self.record_event(id, CardEventKind::Created, None, Some(column_id), now);
        self.push_operation(BoardOperation::CopyCard { card: recorded, index: next });
        assert(self@ =~= copy_card_spec(old_view, card_id, now).0);
        Ok(id)
    }

    /// Takes back the adding of card `card_id` as though it never happened: the card, its
    /// `AddCard` operation in the undo history and its `Created` events in the pending
    /// history all go. Its number is not handed out again.
    pub fn discard_added_card(&mut self, card_id: CardId) -> (r: Result<(), BoardError>)
        ensures
            final(self)@ == discard_added_card_spec(old(self)@, card_id, final(self)@.updated_at).0,
            r == discard_added_card_spec(old(self)@, card_id, final(self)@.updated_at).1,
    {
        proof {
            lemma_card_location(self@.columns, card_id);
        }
        let (c, k) = match self.active_card_location(card_id) {
            Some(location) => location,
            None => return Err(BoardError::CardNotFound(card_id)),
        };
        let ghost old_view = self@;
        let ghost before = self.columns@;
        self.columns[c].cards.remove(k);
        proof {
            lemma_cards_view_remove(before[c as int].cards@, k as int);
            lemma_columns_view_set_cards(before, self.columns@, c as int);
        }
        self.reindex();
        proof {
            lemma_last_add_card_index(old_view.undo_stack, card_id);
        }
        match self.last_add_card(card_id) {
            Some(i) => {
                let ghost ops = self.undo_stack@;
                self.undo_stack.remove(i);
                assert(operations_view(self.undo_stack@) =~= operations_view(ops).remove(i as int));
            },
            None => {},
        }
        self.drop_created_events(card_id);
        self.updated_at = timestamp();
        assert(self@ =~= discard_added_card_spec(old_view, card_id, self.updated_at).0);
        Ok(())
    }

    /// The place of the last `AddCard` operation of card `card_id` in the undo history.
    fn last_add_card(&self, card_id: CardId) -> (r: Option<usize>)
        ensures
            match r {
                Some(i) => last_add_card_index(self@.undo_stack, card_id) == Some(i as int),
                None => last_add_card_index(self@.undo_stack, card_id) is None,
            },
    {
        let mut n: usize = self.undo_stack.len();
        assert(self@.undo_stack.take(n as int) =~= self@.undo_stack);
        while n > 0
            invariant
                n <= self.undo_stack@.len(),
                last_add_card_index(self@.undo_stack.take(n as int), card_id) == last_add_card_index(
                    self@.undo_stack,
                    card_id,
                ),
            decreases n,
        {
            let ghost prefix = self@.undo_stack.take(n as int);
            assert(prefix.last() == self.undo_stack@[n - 1]@);
            let found = match &self.undo_stack[n - 1] {
                BoardOperation::AddCard { card } => card.id == card_id,
                _ => false,
            };
            if found {
                return Some(n - 1);
            }
            assert(prefix.drop_last() =~= self@.undo_stack.take(n - 1));
            n -= 1;
        }
        None
    }

    /// Drops the `Created` events of card `card_id` from the pending history.
    fn drop_created_events(&mut self, card_id: CardId)
        ensures
            final(self)@ == (BoardState {
                pending_events: without_created(old(self)@.pending_events, card_id),
                ..old(self)@
            }),
    {
        let mut kept: Vec<CardEvent> = Vec::new();
        let mut i: usize = 0;
        while i < self.pending_events.len()
            invariant
                i <= self.pending_events@.len(),
                self@ == old(self)@,
                kept@ == without_created(self.pending_events@.take(i as int), card_id),
            decreases self.pending_events.len() - i,
        {
            assert(self.pending_events@.take(i + 1).drop_last() =~= self.pending_events@.take(i as int));
            let event = self.pending_events[i];
            if !(event.card_id == card_id && event.kind == CardEventKind::Created) {
                kept.push(event);
            }
            i += 1;
        }
        assert(self.pending_events@.take(i as int) =~= self.pending_events@);
        self.pending_events = kept;
    }
}

} // verus!
