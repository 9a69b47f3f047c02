//! The checklist of a card: adding, editing, checking, deleting and moving its items.
use vstd::prelude::*;
use crate::model::board::{find_item_index, reindex_checklist_items, timestamp};
use crate::model::raw::lemma_set_card_view;
use crate::model::spec::{
    card_location, item_index, lemma_card_location, lemma_item_index, min_int, push_operation,
    reindex_items, set_card_at, touch, with_columns,
};
use crate::model::types::{
    items_view, Board, BoardError, BoardOperation, BoardState, CardId, CardView, ChecklistItem,
    ChecklistItemId, ChecklistItemView, OperationView,
};
use crate::text::{is_blank, is_blank_spec, str_eq};

verus! {

/// Adding an unchecked item with `text` at the end of the checklist of active card
/// `card_id`: it takes the next item number. Blank text is refused.
pub open spec fn add_checklist_item_spec(
    b: BoardState,
    card_id: CardId,
    text: Seq<char>,
    now: i64,
) -> (BoardState, Result<ChecklistItemId, BoardError>) {
    if is_blank_spec(text) {
        (b, Err(BoardError::EmptyChecklistItemText))
    } else {
        match card_location(b.columns, card_id) {
            None => (b, Err(BoardError::CardNotFound(card_id))),
            Some((c, k)) => {
                let card = b.columns[c].cards[k];
                let item = ChecklistItemView {
                    id: b.next_checklist_item_id,
                    card_id: card_id,
                    text: text,
                    checked: false,
                    position: card.checklist_items.len() as i64,
                    created_at: now,
                    updated_at: now,
                };
                let edited = CardView {
                    checklist_items: reindex_items(card.id, card.checklist_items.push(item)),
                    updated_at: now,
                    ..card
                };
                let added = BoardState {
                    columns: set_card_at(b.columns, c, k, edited),
                    next_checklist_item_id: (b.next_checklist_item_id + 1) as i64,
                    ..b
                };
                (
                    push_operation(touch(added, now), OperationView::AddChecklistItem { card_id, item }),
                    Ok(item.id),
                )
            },
        }
    }
}

/// The board with item `item_id` of active card `card_id` replaced by `f` of it and the
/// card's updated time set to `now`, if `changes` of the item holds; the operation recorded
/// for undo is `op` of the item.
pub open spec fn edit_checklist_item_spec(
    b: BoardState,
    card_id: CardId,
    item_id: ChecklistItemId,
    changes: spec_fn(ChecklistItemView) -> bool,
    f: spec_fn(ChecklistItemView) -> ChecklistItemView,
    op: spec_fn(ChecklistItemView) -> OperationView,
    now: i64,
) -> (BoardState, Result<bool, BoardError>) {
    match card_location(b.columns, card_id) {
        None => (b, Err(BoardError::CardNotFound(card_id))),
        Some((c, k)) => {
            let card = b.columns[c].cards[k];
            match item_index(card.checklist_items, item_id) {
                None => (b, Err(BoardError::ChecklistItemNotFound(item_id, card_id))),
                Some(i) => {
                    let item = card.checklist_items[i];
                    if !changes(item) {
                        (b, Ok(false))
                    } else {
                        let edited = CardView {
                            checklist_items: card.checklist_items.update(i, f(item)),
                            updated_at: now,
                            ..card
                        };
                        (
                            push_operation(
                                touch(with_columns(b, set_card_at(b.columns, c, k, edited)), now),
                                op(item),
                            ),
                            Ok(true),
                        )
                    }
                },
            }
        },
    }
}

/// Setting the text of item `item_id` of active card `card_id`. Blank text is refused; the
/// text it has answers `Ok(false)`.
pub open spec fn update_checklist_item_spec(
    b: BoardState,
    card_id: CardId,
    item_id: ChecklistItemId,
    text: Seq<char>,
    now: i64,
) -> (BoardState, Result<bool, BoardError>) {
    if is_blank_spec(text) {
        (b, Err(BoardError::EmptyChecklistItemText))
    } else {
        edit_checklist_item_spec(
            b,
            card_id,
            item_id,
            |item: ChecklistItemView| item.text != text,
            |item: ChecklistItemView| ChecklistItemView { text: text, updated_at: now, ..item },
            |item: ChecklistItemView|
                OperationView::UpdateChecklistItem {
                    card_id,
                    item_id,
                    before_text: item.text,
                    after_text: text,
                },
            now,
        )
    }
}

/// Checking or unchecking item `item_id` of active card `card_id`; the state it has
/// answers `Ok(false)`.
pub open spec fn set_checklist_item_checked_spec(
    b: BoardState,
    card_id: CardId,
    item_id: ChecklistItemId,
    checked: bool,
    now: i64,
) -> (BoardState, Result<bool, BoardError>) {
    edit_checklist_item_spec(
        b,
        card_id,
        item_id,
        |item: ChecklistItemView| item.checked != checked,
        |item: ChecklistItemView| ChecklistItemView { checked: checked, updated_at: now, ..item },
        |item: ChecklistItemView|
            OperationView::SetChecklistItemChecked {
                card_id,
                item_id,
                before: item.checked,
                after: checked,
            },
        now,
    )
}

/// Deleting item `item_id` from the checklist of active card `card_id`; the rest keep
/// their order and are numbered again.
pub open spec fn delete_checklist_item_spec(
    b: BoardState,
    card_id: CardId,
    item_id: ChecklistItemId,
    now: i64,
) -> (BoardState, Result<(), BoardError>) {
    match card_location(b.columns, card_id) {
        None => (b, Err(BoardError::CardNotFound(card_id))),
        Some((c, k)) => {
            let card = b.columns[c].cards[k];
            match item_index(card.checklist_items, item_id) {
                None => (b, Err(BoardError::ChecklistItemNotFound(item_id, card_id))),
                Some(i) => {
                    let edited = CardView {
                        checklist_items: reindex_items(card.id, card.checklist_items.remove(i)),
                        updated_at: now,
                        ..card
                    };
                    (
                        push_operation(
                            touch(with_columns(b, set_card_at(b.columns, c, k, edited)), now),
                            OperationView::DeleteChecklistItem {
                                card_id,
                                item: card.checklist_items[i],
                                index: i as usize,
                            },
                        ),
                        Ok(()),
                    )
                },
            }
        },
    }
}

/// Moving item `item_id` of active card `card_id` to place `target_index`, counted in the
/// checklist before the move and clamped to its end. Its current place answers `Ok(false)`.
pub open spec fn move_checklist_item_spec(
    b: BoardState,
    card_id: CardId,
    item_id: ChecklistItemId,
    target_index: usize,
    now: i64,
) -> (BoardState, Result<bool, BoardError>) {
    match card_location(b.columns, card_id) {
        None => (b, Err(BoardError::CardNotFound(card_id))),
        Some((c, k)) => {
            let card = b.columns[c].cards[k];
            let items = card.checklist_items;
            match item_index(items, item_id) {
                None => (b, Err(BoardError::ChecklistItemNotFound(item_id, card_id))),
                Some(i) => {
                    let clamped = min_int(target_index as int, items.len() as int);
                    let to = if i < clamped {
                        clamped - 1
                    } else {
                        clamped
                    };
                    if i == to {
                        (b, Ok(false))
                    } else {
                        let edited = CardView {
                            checklist_items: reindex_items(card.id, items.remove(i).insert(to, items[i])),
                            updated_at: now,
                            ..card
                        };
                        (
                            push_operation(
                                touch(with_columns(b, set_card_at(b.columns, c, k, edited)), now),
                                OperationView::MoveChecklistItem {
                                    card_id,
                                    item_id,
                                    from_index: i as usize,
                                    to_index: to as usize,
                                },
                            ),
                            Ok(true),
                        )
                    }
                },
            }
        },
    }
}

impl Board {
    /// Adds an unchecked item with `text` at the end of the checklist of card `card_id`
    /// and answers its number, which is never handed out again. Can be undone.
    pub fn add_checklist_item(&mut self, card_id: CardId, text: &str) -> (r: Result<
        ChecklistItemId,
        BoardError,
    >)
        requires
            old(self).next_checklist_item_id < i64::MAX,
        ensures
            final(self)@ == add_checklist_item_spec(old(self)@, card_id, text@, final(self)@.updated_at).0,
            r == add_checklist_item_spec(old(self)@, card_id, text@, final(self)@.updated_at).1,
    {
        if is_blank(text) {
            return Err(BoardError::EmptyChecklistItemText);
        }
        proof {
            lemma_card_location(self@.columns, card_id);
        }
        let (c, k) = match self.active_card_location(card_id) {
            Some(location) => location,
            None => return Err(BoardError::CardNotFound(card_id)),
        };
        proof {
            assert(self@.columns[c as int] == self.columns@[c as int]@);
        }
        let id = self.next_checklist_item_id;
        let now = timestamp();
        let item = ChecklistItem {
            id,
            card_id,
            text: text.to_owned(),
            checked: false,
            position: self.columns[c].cards[k].checklist_items.len() as i64,
            created_at: now,
            updated_at: now,
        };
        let recorded = item.duplicate();
        self.next_checklist_item_id += 1;
        let ghost before = self.columns@;
        let ghost old_items = self.columns@[c as int].cards@[k as int].checklist_items@;
        self.columns[c].cards[k].checklist_items.push(item);
        assert(items_view(self.columns@[c as int].cards@[k as int].checklist_items@) =~= items_view(
            old_items,
        ).push(item@));
        reindex_checklist_items(&mut self.columns[c].cards[k]);
        self.columns[c].cards[k].updated_at = now;
        proof {
            lemma_set_card_view(before, self.columns@, c as int, k as int);
        }
        self.updated_at = now;
        self.push_operation(BoardOperation::AddChecklistItem { card_id, item: recorded });
        Ok(id)
    }

    /// Sets the text of item `item_id` of card `card_id`. Blank text is refused; the text
    /// it has answers `Ok(false)`. Can be undone.
    pub fn update_checklist_item(&mut self, card_id: CardId, item_id: ChecklistItemId, text: &str) -> (r:
        Result<bool, BoardError>)
        ensures
            final(self)@ == update_checklist_item_spec(
                old(self)@,
                card_id,
                item_id,
                text@,
                final(self)@.updated_at,
            ).0,
            r == update_checklist_item_spec(
                old(self)@,
                card_id,
                item_id,
                text@,
                final(self)@.updated_at,
            ).1,
    {
        if is_blank(text) {
            return Err(BoardError::EmptyChecklistItemText);
        }
        let (c, k, i) = match self.checklist_item_location(card_id, item_id) {
            Ok(location) => location,
            Err(e) => return Err(e),
        };
        if str_eq(self.columns[c].cards[k].checklist_items[i].text.as_str(), text) {
            return Ok(false);
        }
        let before_text = self.columns[c].cards[k].checklist_items[i].text.clone();
        let now = timestamp();
        let ghost before = self.columns@;
        let ghost old_items = self.columns@[c as int].cards@[k as int].checklist_items@;
        self.columns[c].cards[k].checklist_items[i].text = text.to_owned();
        self.columns[c].cards[k].checklist_items[i].updated_at = now;
        self.columns[c].cards[k].updated_at = now;
        assert(items_view(self.columns@[c as int].cards@[k as int].checklist_items@) =~= items_view(
            old_items,
        ).update(
            i as int,
            ChecklistItemView { text: text@, updated_at: now, ..items_view(old_items)[i as int] },
        ));
        proof {
            lemma_set_card_view(before, self.columns@, c as int, k as int);
        }
        self.updated_at = now;
        self.push_operation(
            BoardOperation::UpdateChecklistItem {
                card_id,
                item_id,
                before_text,
                after_text: text.to_owned(),
            },
        );
        Ok(true)
    }

    /// Checks or unchecks item `item_id` of card `card_id`; the state it has answers
    /// `Ok(false)`. Can be undone.
    pub fn set_checklist_item_checked(
        &mut self,
        card_id: CardId,
        item_id: ChecklistItemId,
        checked: bool,
    ) -> (r: Result<bool, BoardError>)
        ensures
            final(self)@ == set_checklist_item_checked_spec(
                old(self)@,
                card_id,
                item_id,
                checked,
                final(self)@.updated_at,
            ).0,
            r == set_checklist_item_checked_spec(
                old(self)@,
                card_id,
                item_id,
                checked,
                final(self)@.updated_at,
            ).1,
    {
        let (c, k, i) = match self.checklist_item_location(card_id, item_id) {
            Ok(location) => location,
            Err(e) => return Err(e),
        };
        let before_checked = self.columns[c].cards[k].checklist_items[i].checked;
        if before_checked == checked {
            return Ok(false);
        }
        let now = timestamp();
        let ghost before = self.columns@;
        let ghost old_items = self.columns@[c as int].cards@[k as int].checklist_items@;
        self.columns[c].cards[k].checklist_items[i].checked = checked;
        self.columns[c].cards[k].checklist_items[i].updated_at = now;
        self.columns[c].cards[k].updated_at = now;
        assert(items_view(self.columns@[c as int].cards@[k as int].checklist_items@) =~= items_view(
            old_items,
        ).update(
            i as int,
            ChecklistItemView { checked: checked, updated_at: now, ..items_view(old_items)[i as int] },
        ));
        proof {
            lemma_set_card_view(before, self.columns@, c as int, k as int);
        }
        self.updated_at = now;
        self.push_operation(
            BoardOperation::SetChecklistItemChecked {
                card_id,
                item_id,
                before: before_checked,
                after: checked,
            },
        );
        Ok(true)
    }

    /// Deletes item `item_id` from the checklist of card `card_id`. Can be undone.
    pub fn delete_checklist_item(&mut self, card_id: CardId, item_id: ChecklistItemId) -> (r: Result<
        (),
        BoardError,
    >)
        ensures
            final(self)@ == delete_checklist_item_spec(old(self)@, card_id, item_id, final(self)@.updated_at).0,
            r == delete_checklist_item_spec(old(self)@, card_id, item_id, final(self)@.updated_at).1,
    {
        let (c, k, i) = match self.checklist_item_location(card_id, item_id) {
            Ok(location) => location,
            Err(e) => return Err(e),
        };
        let now = timestamp();
        let ghost before = self.columns@;
        let ghost old_items = self.columns@[c as int].cards@[k as int].checklist_items@;
        let item = self.columns[c].cards[k].checklist_items.remove(i);
        assert(items_view(self.columns@[c as int].cards@[k as int].checklist_items@) =~= items_view(
            old_items,
        ).remove(i as int));
        reindex_checklist_items(&mut self.columns[c].cards[k]);
        self.columns[c].cards[k].updated_at = now;
        proof {
            lemma_set_card_view(before, self.columns@, c as int, k as int);
        }
        self.updated_at = now;
        self.push_operation(BoardOperation::DeleteChecklistItem { card_id, item, index: i });
        Ok(())
    }

    /// Moves item `item_id` of card `card_id` to place `target_index`, counted in the
    /// checklist before the move and clamped to its end. Its current place answers
    /// `Ok(false)`. Can be undone.
    pub fn move_checklist_item(
        &mut self,
        card_id: CardId,
        item_id: ChecklistItemId,
        target_index: usize,
    ) -> (r: Result<bool, BoardError>)
        ensures
            final(self)@ == move_checklist_item_spec(
                old(self)@,
                card_id,
                item_id,
                target_index,
                final(self)@.updated_at,
            ).0,
            r == move_checklist_item_spec(
                old(self)@,
                card_id,
                item_id,
                target_index,
                final(self)@.updated_at,
            ).1,
    {
        let (c, k, i) = match self.checklist_item_location(card_id, item_id) {
            Ok(location) => location,
            Err(e) => return Err(e),
        };
        let len = self.columns[c].cards[k].checklist_items.len();
        let mut to = if target_index < len {
            target_index
        } else {
            len
        };
        if i < to {
            to -= 1;
        }
        if i == to {
            return Ok(false);
        }
        let now = timestamp();
        let ghost before = self.columns@;
        let ghost old_items = self.columns@[c as int].cards@[k as int].checklist_items@;
        let item = self.columns[c].cards[k].checklist_items.remove(i);
        self.columns[c].cards[k].checklist_items.insert(to, item);
        assert(items_view(self.columns@[c as int].cards@[k as int].checklist_items@) =~= items_view(
            old_items,
        ).remove(i as int).insert(to as int, items_view(old_items)[i as int]));
        reindex_checklist_items(&mut self.columns[c].cards[k]);
        self.columns[c].cards[k].updated_at = now;
        proof {
            lemma_set_card_view(before, self.columns@, c as int, k as int);
        }
        self.updated_at = now;
        self.push_operation(
            BoardOperation::MoveChecklistItem { card_id, item_id, from_index: i, to_index: to },
        );
        Ok(true)
    }

    /// The column, card place and item place of item `item_id` of active card `card_id`.
    fn checklist_item_location(&self, card_id: CardId, item_id: ChecklistItemId) -> (r: Result<
        (usize, usize, usize),
        BoardError,
    >)
        ensures
            match r {
                Ok((c, k, i)) => {
                    &&& c < self.columns@.len()
                    &&& k < self.columns@[c as int].cards@.len()
                    &&& i < self.columns@[c as int].cards@[k as int].checklist_items@.len()
                    &&& self@.columns[c as int] == self.columns@[c as int]@
                    &&& card_location(self@.columns, card_id) == Some((c as int, k as int))
                    &&& item_index(self@.columns[c as int].cards[k as int].checklist_items, item_id)
                        == Some(i as int)
                },
                Err(e) => match card_location(self@.columns, card_id) {
                    None => e == BoardError::CardNotFound(card_id),
                    Some((c, k)) => item_index(self@.columns[c].cards[k].checklist_items, item_id)
                        is None && e == BoardError::ChecklistItemNotFound(item_id, card_id),
                },
            },
    {
        proof {
            lemma_card_location(self@.columns, card_id);
        }
        let (c, k) = match self.active_card_location(card_id) {
            Some(location) => location,
            None => return Err(BoardError::CardNotFound(card_id)),
        };
        proof {
            assert(self@.columns[c as int] == self.columns@[c as int]@);
            lemma_item_index(self@.columns[c as int].cards[k as int].checklist_items, item_id, 0);
        }
        match find_item_index(&self.columns[c].cards[k].checklist_items, item_id) {
            Some(i) => Ok((c, k, i)),
            None => Err(BoardError::ChecklistItemNotFound(item_id, card_id)),
        }
    }
}

} // verus!
