//! The building-block edits of a board, used by the operations and by undo and redo.
use vstd::prelude::*;
use crate::date::DueDate;
use crate::model::board::{
    find_card_index, find_column_index, find_item_index, find_tag_index, lemma_cards_view_insert,
    lemma_cards_view_remove, lemma_columns_view_set_cards, reindex_checklist_items,
    lemma_cards_view_push, lemma_cards_view_update,
};
use crate::model::raw_spec::{
    edit_column, edit_item, edit_tag, insert_active_card_spec, insert_item_spec,
    move_card_raw_spec, move_column_raw_spec, move_item_raw_spec, remove_active_card_spec,
    remove_archived_spec, remove_column_raw_spec, remove_item_spec, set_card_tags_raw_spec,
    set_checklist_items_raw_spec, set_due_date_raw_spec, touch_card_spec, update_card_raw_spec,
    without_tag, cards_without_tag, remove_tag_raw_spec, strip_tag, pick_in_order,
    sort_column_raw_spec, restore_card_tags_spec,
};
use crate::model::copy::{copy_ids, copy_items};
use crate::model::spec::{
    card_index, card_location, column_index, item_index, lemma_card_index, lemma_card_location,
    lemma_column_index, lemma_item_index, lemma_tag_index, reindex_items, set_card_at,
    set_cards, tag_index, with_columns,
};
use crate::model::types::{
    cards_view, columns_view, items_view, tag_assignments_view, tags_view, Board, BoardError, BoardState, Card,
    CardId, CardView, ChecklistItem, ChecklistItemId, ChecklistItemView, Column, ColumnId,
    ColumnView, TagId, TagView,
};

verus! {

pub open spec fn card_result_view(r: Result<Card, BoardError>) -> Result<CardView, BoardError> {
    match r {
        Ok(card) => Ok(card@),
        Err(e) => Err(e),
    }
}

pub proof fn lemma_set_card_view(before: Seq<Column>, after: Seq<Column>, c: int, k: int)
    requires
        0 <= c < before.len(),
        0 <= k < before[c].cards@.len(),
        after.len() == before.len(),
        forall|i: int| 0 <= i < before.len() && i != c ==> after[i] == before[i],
        after[c].id == before[c].id,
        after[c].board_id == before[c].board_id,
        after[c].name == before[c].name,
        after[c].position == before[c].position,
        after[c].created_at == before[c].created_at,
        after[c].updated_at == before[c].updated_at,
        after[c].wip_limit == before[c].wip_limit,
        after[c].cards@.len() == before[c].cards@.len(),
        forall|j: int|
            0 <= j < before[c].cards@.len() && j != k ==> after[c].cards@[j] == before[c].cards@[j],
    ensures
        columns_view(after) == set_card_at(columns_view(before), c, k, after[c].cards@[k]@),
{
    assert(cards_view(after[c].cards@) =~= cards_view(before[c].cards@).update(
        k,
        after[c].cards@[k]@,
    ));
    lemma_columns_view_set_cards(before, after, c);
}

impl Board {
    /// Takes active card `card_id` off the board and puts the columns in order.
    pub(crate) fn remove_active_card(&mut self, card_id: CardId) -> (r: Result<Card, BoardError>)
        ensures
            final(self)@ == remove_active_card_spec(old(self)@, card_id).0,
            card_result_view(r) == remove_active_card_spec(old(self)@, card_id).1,
    {
        proof {
            lemma_card_location(self@.columns, card_id);
        }
        let (c, k) = match self.active_card_location(card_id) {
            Some(location) => location,
            None => return Err(BoardError::CardNotFound(card_id)),
        };
        let ghost before = self.columns@;
        let card = self.columns[c].cards.remove(k);
        proof {
            lemma_cards_view_remove(before[c as int].cards@, k as int);
            lemma_columns_view_set_cards(before, self.columns@, c as int);
        }
        self.reindex();
        Ok(card)
    }

    /// Puts `card` at place `index` (clamped) of the column it names, as an active card,
    /// and puts the columns in order.
    pub(crate) fn insert_active_card(&mut self, card: Card, index: usize) -> (r: Result<
        (),
        BoardError,
    >)
        ensures
            final(self)@ == insert_active_card_spec(old(self)@, card@, index as int).0,
            r == insert_active_card_spec(old(self)@, card@, index as int).1,
    {
        proof {
            lemma_column_index(self@.columns, card.column_id);
        }
        let c = match find_column_index(&self.columns, card.column_id) {
            Some(c) => c,
            None => return Err(BoardError::ColumnNotFound(card.column_id)),
        };
        let mut card = card;
        card.archived_at = None;
        let len = self.columns[c].cards.len();
        let at = if index < len {
            index
        } else {
            len
        };
        let ghost before = self.columns@;
        self.columns[c].cards.insert(at, card);
        proof {
            lemma_cards_view_insert(before[c as int].cards@, at as int, card);
            lemma_columns_view_set_cards(before, self.columns@, c as int);
        }
        self.reindex();
        Ok(())
    }

    /// Moves active card `card_id` into column `column_id` at place `index` (clamped).
    pub(crate) fn move_card_raw(&mut self, card_id: CardId, column_id: ColumnId, index: usize) -> (r:
        Result<(), BoardError>)
        ensures
            final(self)@ == move_card_raw_spec(old(self)@, card_id, column_id, index as int).0,
            r == move_card_raw_spec(old(self)@, card_id, column_id, index as int).1,
    {
        let mut card = match self.remove_active_card(card_id) {
            Ok(card) => card,
            Err(e) => return Err(e),
        };
        card.column_id = column_id;
        self.insert_active_card(card, index)
    }

    /// Moves column `column_id` to place `index` (clamped).
    pub(crate) fn move_column_raw(&mut self, column_id: ColumnId, index: usize) -> (r: Result<
        (),
        BoardError,
    >)
        ensures
            final(self)@ == move_column_raw_spec(old(self)@, column_id, index as int).0,
            r == move_column_raw_spec(old(self)@, column_id, index as int).1,
    {
        proof {
            lemma_column_index(self@.columns, column_id);
        }
        let source = match find_column_index(&self.columns, column_id) {
            Some(c) => c,
            None => return Err(BoardError::ColumnNotFound(column_id)),
        };
        let ghost before = self@.columns;
        let column = self.columns.remove(source);
        let at = if index < self.columns.len() {
            index
        } else {
            self.columns.len()
        };
        self.columns.insert(at, column);
        assert(columns_view(self.columns@) =~= before.remove(source as int).insert(
            at as int,
            before[source as int],
        ));
        self.reindex();
        Ok(())
    }
}


/// `tag_id` dropped from `ids`.
pub fn ids_without(ids: &Vec<TagId>, tag_id: TagId) -> (r: Vec<TagId>)
    ensures
        r@ == without_tag(ids@, tag_id),
{
    let mut out: Vec<TagId> = Vec::new();
    let mut i: usize = 0;
    while i < ids.len()
        invariant
            i <= ids@.len(),
            out@ == without_tag(ids@.take(i as int), tag_id),
        decreases ids.len() - i,
    {
        assert(ids@.take(i + 1).drop_last() =~= ids@.take(i as int));
        if ids[i] != tag_id {
            out.push(ids[i]);
        }
        i += 1;
    }
    assert(ids@.take(ids@.len() as int) =~= ids@);
    out
}

/// Drops `tag_id` from the tags of every card of `cards`.
fn strip_tag_from_cards(cards: &mut Vec<Card>, tag_id: TagId)
    ensures
        cards_view(final(cards)@) == cards_without_tag(cards_view(old(cards)@), tag_id),
{
    let ghost before = cards_view(cards@);
    let mut k: usize = 0;
    while k < cards.len()
        invariant
            k <= cards@.len(),
            before.len() == cards@.len(),
            forall|j: int|
                0 <= j < k ==> (#[trigger] cards@[j])@ == cards_without_tag(before, tag_id)[j],
            forall|j: int| k <= j < cards@.len() ==> (#[trigger] cards@[j])@ == before[j],
        decreases cards.len() - k,
    {
        let stripped = ids_without(&cards[k].tag_ids, tag_id);
        cards[k].tag_ids = stripped;
        k += 1;
    }
    assert(cards_view(cards@) =~= cards_without_tag(before, tag_id));
}

impl Board {
    /// Sets the title and description of active card `card_id`.
    pub(crate) fn update_card_raw(
        &mut self,
        card_id: CardId,
        title: &str,
        description: &str,
        now: i64,
    ) -> (r: Result<(), BoardError>)
        ensures
            final(self)@ == update_card_raw_spec(old(self)@, card_id, title@, description@, now).0,
            r == update_card_raw_spec(old(self)@, card_id, title@, description@, now).1,
    {
        proof {
            lemma_card_location(self@.columns, card_id);
        }
        let (c, k) = match self.active_card_location(card_id) {
            Some(location) => location,
            None => return Err(BoardError::CardNotFound(card_id)),
        };
        proof {
            assert(self@.columns[c as int] == self.columns@[c as int]@);
        }
        let ghost before = self.columns@;
        self.columns[c].cards[k].title = title.to_owned();
        self.columns[c].cards[k].description = description.to_owned();
        self.columns[c].cards[k].updated_at = now;
        proof {
            lemma_set_card_view(before, self.columns@, c as int, k as int);
        }
        Ok(())
    }

    /// Sets the due date of active card `card_id`.
    pub(crate) fn set_due_date_raw(&mut self, card_id: CardId, due_date: Option<DueDate>, now: i64) -> (r:
        Result<(), BoardError>)
        ensures
            final(self)@ == set_due_date_raw_spec(old(self)@, card_id, due_date, now).0,
            r == set_due_date_raw_spec(old(self)@, card_id, due_date, now).1,
    {
        proof {
            lemma_card_location(self@.columns, card_id);
        }
        let (c, k) = match self.active_card_location(card_id) {
            Some(location) => location,
            None => return Err(BoardError::CardNotFound(card_id)),
        };
        proof {
            assert(self@.columns[c as int] == self.columns@[c as int]@);
        }
        let ghost before = self.columns@;
        self.columns[c].cards[k].due_date = due_date;
        self.columns[c].cards[k].updated_at = now;
        proof {
            lemma_set_card_view(before, self.columns@, c as int, k as int);
        }
        Ok(())
    }

    /// Sets the tags of active card `card_id`.
    pub(crate) fn set_card_tags_raw(&mut self, card_id: CardId, tag_ids: &Vec<TagId>, now: i64) -> (r:
        Result<(), BoardError>)
        ensures
            final(self)@ == set_card_tags_raw_spec(old(self)@, card_id, tag_ids@, now).0,
            r == set_card_tags_raw_spec(old(self)@, card_id, tag_ids@, now).1,
    {
        proof {
            lemma_card_location(self@.columns, card_id);
        }
        let (c, k) = match self.active_card_location(card_id) {
            Some(location) => location,
            None => return Err(BoardError::CardNotFound(card_id)),
        };
        proof {
            assert(self@.columns[c as int] == self.columns@[c as int]@);
        }
        let ghost before = self.columns@;
        self.columns[c].cards[k].tag_ids = copy_ids(tag_ids);
        self.columns[c].cards[k].updated_at = now;
        proof {
            lemma_set_card_view(before, self.columns@, c as int, k as int);
        }
        Ok(())
    }

    /// Replaces the checklist of active card `card_id` and puts it in order.
    pub(crate) fn set_checklist_items_raw(&mut self, card_id: CardId, items: &Vec<ChecklistItem>) -> (r:
        Result<(), BoardError>)
        ensures
            final(self)@ == set_checklist_items_raw_spec(old(self)@, card_id, items_view(items@)).0,
            r == set_checklist_items_raw_spec(old(self)@, card_id, items_view(items@)).1,
    {
        proof {
            lemma_card_location(self@.columns, card_id);
        }
        let (c, k) = match self.active_card_location(card_id) {
            Some(location) => location,
            None => return Err(BoardError::CardNotFound(card_id)),
        };
        proof {
            assert(self@.columns[c as int] == self.columns@[c as int]@);
        }
        let ghost before = self.columns@;
        self.columns[c].cards[k].checklist_items = copy_items(items);
        reindex_checklist_items(&mut self.columns[c].cards[k]);
        proof {
            lemma_set_card_view(before, self.columns@, c as int, k as int);
        }
        Ok(())
    }

    /// Sets the updated time of active card `card_id`.
    pub(crate) fn touch_active_card(&mut self, card_id: CardId, now: i64) -> (r: Result<(), BoardError>)
        ensures
            final(self)@ == touch_card_spec(old(self)@, card_id, now).0,
            r == touch_card_spec(old(self)@, card_id, now).1,
    {
        proof {
            lemma_card_location(self@.columns, card_id);
        }
        let (c, k) = match self.active_card_location(card_id) {
            Some(location) => location,
            None => return Err(BoardError::CardNotFound(card_id)),
        };
        proof {
            assert(self@.columns[c as int] == self.columns@[c as int]@);
        }
        let ghost before = self.columns@;
        self.columns[c].cards[k].updated_at = now;
        proof {
            lemma_set_card_view(before, self.columns@, c as int, k as int);
        }
        Ok(())
    }

    /// Puts `item` into the checklist of active card `card_id` at place `index` (clamped)
    /// and puts the checklist in order.
    pub(crate) fn insert_checklist_item_at_raw(
        &mut self,
        card_id: CardId,
        item: ChecklistItem,
        index: usize,
    ) -> (r: Result<(), BoardError>)
        ensures
            final(self)@ == insert_item_spec(old(self)@, card_id, item@, index as int).0,
            r == insert_item_spec(old(self)@, card_id, item@, index as int).1,
    {
        proof {
            lemma_card_location(self@.columns, card_id);
        }
        let (c, k) = match self.active_card_location(card_id) {
            Some(location) => location,
            None => return Err(BoardError::CardNotFound(card_id)),
        };
        proof {
            assert(self@.columns[c as int] == self.columns@[c as int]@);
        }
        let ghost before = self.columns@;
        let mut item = item;
        item.card_id = card_id;
        let len = self.columns[c].cards[k].checklist_items.len();
        let at = if index < len {
            index
        } else {
            len
        };
        let ghost old_items = self.columns@[c as int].cards@[k as int].checklist_items@;
        self.columns[c].cards[k].checklist_items.insert(at, item);
        assert(items_view(self.columns@[c as int].cards@[k as int].checklist_items@) =~= items_view(
            old_items,
        ).insert(at as int, item@));
        reindex_checklist_items(&mut self.columns[c].cards[k]);
        proof {
            lemma_set_card_view(before, self.columns@, c as int, k as int);
        }
        Ok(())
    }

    /// Puts `item` at the end of the checklist of the card it names.
    pub(crate) fn insert_checklist_item_raw(&mut self, item: ChecklistItem) -> (r: Result<(), BoardError>)
        ensures
            final(self)@ == insert_item_spec(old(self)@, item.card_id, item@, usize::MAX as int).0,
            r == insert_item_spec(old(self)@, item.card_id, item@, usize::MAX as int).1,
    {
        self.insert_checklist_item_at_raw(item.card_id, item, usize::MAX)
    }

    /// Takes item `item_id` off the checklist of active card `card_id`: its place and the
    /// item.
    pub(crate) fn remove_checklist_item_raw(&mut self, card_id: CardId, item_id: ChecklistItemId) -> (r:
        Result<(usize, ChecklistItem), BoardError>)
        ensures
            final(self)@ == remove_item_spec(old(self)@, card_id, item_id).0,
            match r {
                Ok((i, item)) => remove_item_spec(old(self)@, card_id, item_id).1 == Ok::<
                    (int, ChecklistItemView),
                    BoardError,
                >((i as int, item@)),
                Err(e) => remove_item_spec(old(self)@, card_id, item_id).1 == Err::<
                    (int, ChecklistItemView),
                    BoardError,
                >(e),
            },
    {
        proof {
            lemma_card_location(self@.columns, card_id);
        }
        let (c, k) = match self.active_card_location(card_id) {
            Some(location) => location,
            None => return Err(BoardError::CardNotFound(card_id)),
        };
        proof {
            assert(self@.columns[c as int] == self.columns@[c as int]@);
            lemma_item_index(self@.columns[c as int].cards[k as int].checklist_items, item_id, 0);
        }
        let index = match find_item_index(&self.columns[c].cards[k].checklist_items, item_id) {
            Some(index) => index,
            None => return Err(BoardError::ChecklistItemNotFound(item_id, card_id)),
        };
        let ghost before = self.columns@;
        let ghost old_items = self.columns@[c as int].cards@[k as int].checklist_items@;
        let item = self.columns[c].cards[k].checklist_items.remove(index);
        assert(items_view(self.columns@[c as int].cards@[k as int].checklist_items@) =~= items_view(
            old_items,
        ).remove(index as int));
        reindex_checklist_items(&mut self.columns[c].cards[k]);
        proof {
            lemma_set_card_view(before, self.columns@, c as int, k as int);
        }
        Ok((index, item))
    }

    /// Moves the checklist item at place `from` of active card `card_id` to place `to`
    /// (clamped).
    pub(crate) fn move_checklist_item_raw(&mut self, card_id: CardId, from: usize, to: usize) -> (r:
        Result<(), BoardError>)
        ensures
            final(self)@ == move_item_raw_spec(old(self)@, card_id, from as int, to as int).0,
            r == move_item_raw_spec(old(self)@, card_id, from as int, to as int).1,
    {
        proof {
            lemma_card_location(self@.columns, card_id);
        }
        let (c, k) = match self.active_card_location(card_id) {
            Some(location) => location,
            None => return Err(BoardError::CardNotFound(card_id)),
        };
        proof {
            assert(self@.columns[c as int] == self.columns@[c as int]@);
        }
        if from >= self.columns[c].cards[k].checklist_items.len() {
            return Err(BoardError::ChecklistItemNotFound(from as ChecklistItemId, card_id));
        }
        let ghost before = self.columns@;
        let ghost old_items = self.columns@[c as int].cards@[k as int].checklist_items@;
        let item = self.columns[c].cards[k].checklist_items.remove(from);
        let len = self.columns[c].cards[k].checklist_items.len();
        let at = if to < len {
            to
        } else {
            len
        };
        self.columns[c].cards[k].checklist_items.insert(at, item);
        assert(items_view(self.columns@[c as int].cards@[k as int].checklist_items@) =~= items_view(
            old_items,
        ).remove(from as int).insert(at as int, items_view(old_items)[from as int]));
        reindex_checklist_items(&mut self.columns[c].cards[k]);
        proof {
            lemma_set_card_view(before, self.columns@, c as int, k as int);
        }
        Ok(())
    }

    /// Sets the text of checklist item `item_id` of active card `card_id`.
    pub(crate) fn update_checklist_item_raw(
        &mut self,
        card_id: CardId,
        item_id: ChecklistItemId,
        text: &str,
        now: i64,
    ) -> (r: Result<(), BoardError>)
        ensures
            final(self)@ == edit_item(
                old(self)@,
                card_id,
                item_id,
                retexted_item(text@, now),
            ).0,
            r == edit_item(
                old(self)@,
                card_id,
                item_id,
                retexted_item(text@, now),
            ).1,
    {
        proof {
            lemma_card_location(self@.columns, card_id);
        }
        let (c, k) = match self.active_card_location(card_id) {
            Some(location) => location,
            None => return Err(BoardError::CardNotFound(card_id)),
        };
        proof {
            assert(self@.columns[c as int] == self.columns@[c as int]@);
            lemma_item_index(self@.columns[c as int].cards[k as int].checklist_items, item_id, 0);
        }
        let index = match find_item_index(&self.columns[c].cards[k].checklist_items, item_id) {
            Some(index) => index,
            None => return Err(BoardError::ChecklistItemNotFound(item_id, card_id)),
        };
        let ghost before = self.columns@;
        let ghost old_items = self.columns@[c as int].cards@[k as int].checklist_items@;
        self.columns[c].cards[k].checklist_items[index].text = text.to_owned();
        self.columns[c].cards[k].checklist_items[index].updated_at = now;
        assert(items_view(self.columns@[c as int].cards@[k as int].checklist_items@) =~= items_view(
            old_items,
        ).update(
            index as int,
            retexted_item(text@, now)(items_view(old_items)[index as int]),
        ));
        proof {
            lemma_set_card_view(before, self.columns@, c as int, k as int);
        }
        Ok(())
    }

    /// Sets whether checklist item `item_id` of active card `card_id` is checked.
    pub(crate) fn set_checklist_item_checked_raw(
        &mut self,
        card_id: CardId,
        item_id: ChecklistItemId,
        checked: bool,
        now: i64,
    ) -> (r: Result<(), BoardError>)
        ensures
            final(self)@ == edit_item(
                old(self)@,
                card_id,
                item_id,
                rechecked_item(checked, now),
            ).0,
            r == edit_item(
                old(self)@,
                card_id,
                item_id,
                rechecked_item(checked, now),
            ).1,
    {
        proof {
            lemma_card_location(self@.columns, card_id);
        }
        let (c, k) = match self.active_card_location(card_id) {
            Some(location) => location,
            None => return Err(BoardError::CardNotFound(card_id)),
        };
        proof {
            assert(self@.columns[c as int] == self.columns@[c as int]@);
            lemma_item_index(self@.columns[c as int].cards[k as int].checklist_items, item_id, 0);
        }
        let index = match find_item_index(&self.columns[c].cards[k].checklist_items, item_id) {
            Some(index) => index,
            None => return Err(BoardError::ChecklistItemNotFound(item_id, card_id)),
        };
        let ghost before = self.columns@;
        let ghost old_items = self.columns@[c as int].cards@[k as int].checklist_items@;
        self.columns[c].cards[k].checklist_items[index].checked = checked;
        self.columns[c].cards[k].checklist_items[index].updated_at = now;
        assert(items_view(self.columns@[c as int].cards@[k as int].checklist_items@) =~= items_view(
            old_items,
        ).update(
            index as int,
            rechecked_item(checked, now)(items_view(old_items)[index as int]),
        ));
        proof {
            lemma_set_card_view(before, self.columns@, c as int, k as int);
        }
        Ok(())
    }
}


pub open spec fn retexted_item(text: Seq<char>, now: i64) -> spec_fn(ChecklistItemView) -> ChecklistItemView {
    |item: ChecklistItemView| ChecklistItemView { text: text, updated_at: now, ..item }
}

pub open spec fn rechecked_item(checked: bool, now: i64) -> spec_fn(ChecklistItemView) -> ChecklistItemView {
    |item: ChecklistItemView| ChecklistItemView { checked: checked, updated_at: now, ..item }
}

pub open spec fn renamed_column(name: Seq<char>, now: i64) -> spec_fn(ColumnView) -> ColumnView {
    |column: ColumnView| ColumnView { name: name, updated_at: now, ..column }
}

pub open spec fn limited_column(limit: Option<i64>, now: i64) -> spec_fn(ColumnView) -> ColumnView {
    |column: ColumnView| ColumnView { wip_limit: limit, updated_at: now, ..column }
}

pub open spec fn renamed_tag(name: Seq<char>, now: i64) -> spec_fn(TagView) -> TagView {
    |tag: TagView| TagView { name: name, updated_at: now, ..tag }
}

pub open spec fn recolored_tag(color: Seq<char>, now: i64) -> spec_fn(TagView) -> TagView {
    |tag: TagView| TagView { color: color, updated_at: now, ..tag }
}

impl Board {
    /// Sets the name of column `column_id`.
    pub(crate) fn rename_column_raw(&mut self, column_id: ColumnId, name: &str, now: i64) -> (r: Result<
        (),
        BoardError,
    >)
        ensures
            final(self)@ == edit_column(old(self)@, column_id, renamed_column(name@, now)).0,
            r == edit_column(old(self)@, column_id, renamed_column(name@, now)).1,
    {
        proof {
            lemma_column_index(self@.columns, column_id);
        }
        let c = match find_column_index(&self.columns, column_id) {
            Some(c) => c,
            None => return Err(BoardError::ColumnNotFound(column_id)),
        };
        let ghost before = self@.columns;
        self.columns[c].name = name.to_owned();
        self.columns[c].updated_at = now;
        assert(columns_view(self.columns@) =~= before.update(c as int, renamed_column(name@, now)(before[c as int])));
        Ok(())
    }

    /// Sets the WIP limit of column `column_id`.
    pub(crate) fn set_column_wip_limit_raw(&mut self, column_id: ColumnId, wip_limit: Option<i64>, now: i64) -> (r:
        Result<(), BoardError>)
        ensures
            final(self)@ == edit_column(old(self)@, column_id, limited_column(wip_limit, now)).0,
            r == edit_column(old(self)@, column_id, limited_column(wip_limit, now)).1,
    {
        proof {
            lemma_column_index(self@.columns, column_id);
        }
        let c = match find_column_index(&self.columns, column_id) {
            Some(c) => c,
            None => return Err(BoardError::ColumnNotFound(column_id)),
        };
        let ghost before = self@.columns;
        self.columns[c].wip_limit = wip_limit;
        self.columns[c].updated_at = now;
        assert(columns_view(self.columns@) =~= before.update(c as int, limited_column(wip_limit, now)(before[c as int])));
        Ok(())
    }

    /// Sets the name of tag `tag_id`.
    pub(crate) fn rename_tag_raw(&mut self, tag_id: TagId, name: &str, now: i64) -> (r: Result<(), BoardError>)
        ensures
            final(self)@ == edit_tag(old(self)@, tag_id, renamed_tag(name@, now)).0,
            r == edit_tag(old(self)@, tag_id, renamed_tag(name@, now)).1,
    {
        proof {
            lemma_tag_index(self@.tags, tag_id, 0);
        }
        let t = match find_tag_index(&self.tags, tag_id) {
            Some(t) => t,
            None => return Err(BoardError::TagNotFound(tag_id)),
        };
        let ghost before = self@.tags;
        self.tags[t].name = name.to_owned();
        self.tags[t].updated_at = now;
        assert(tags_view(self.tags@) =~= before.update(t as int, renamed_tag(name@, now)(before[t as int])));
        Ok(())
    }

    /// Sets the colour of tag `tag_id`.
    pub(crate) fn set_tag_color_raw(&mut self, tag_id: TagId, color: &str, now: i64) -> (r: Result<(), BoardError>)
        ensures
            final(self)@ == edit_tag(old(self)@, tag_id, recolored_tag(color@, now)).0,
            r == edit_tag(old(self)@, tag_id, recolored_tag(color@, now)).1,
    {
        proof {
            lemma_tag_index(self@.tags, tag_id, 0);
        }
        let t = match find_tag_index(&self.tags, tag_id) {
            Some(t) => t,
            None => return Err(BoardError::TagNotFound(tag_id)),
        };
        let ghost before = self@.tags;
        self.tags[t].color = color.to_owned();
        self.tags[t].updated_at = now;
        assert(tags_view(self.tags@) =~= before.update(t as int, recolored_tag(color@, now)(before[t as int])));
        Ok(())
    }

    /// Takes archived card `card_id` out of the archive.
    pub(crate) fn remove_archived_card(&mut self, card_id: CardId) -> (r: Result<Card, BoardError>)
        ensures
            final(self)@ == remove_archived_spec(old(self)@, card_id).0,
            card_result_view(r) == remove_archived_spec(old(self)@, card_id).1,
    {
        proof {
            lemma_card_index(self@.archived_cards, card_id);
        }
        let index = match find_card_index(&self.archived_cards, card_id) {
            Some(index) => index,
            None => return Err(BoardError::CardNotFound(card_id)),
        };
        let ghost before = self.archived_cards@;
        let card = self.archived_cards.remove(index);
        proof {
            lemma_cards_view_remove(before, index as int);
        }
        Ok(card)
    }

    /// Removes tag `tag_id` from the board and from every active and archived card.
    pub(crate) fn remove_tag_raw(&mut self, tag_id: TagId) -> (r: Result<(), BoardError>)
        ensures
            final(self)@ == remove_tag_raw_spec(old(self)@, tag_id).0,
            r == remove_tag_raw_spec(old(self)@, tag_id).1,
    {
        proof {
            lemma_tag_index(self@.tags, tag_id, 0);
        }
        let index = match find_tag_index(&self.tags, tag_id) {
            Some(index) => index,
            None => return Err(BoardError::TagNotFound(tag_id)),
        };
        let ghost before_tags = self.tags@;
        self.tags.remove(index);
        assert(tags_view(self.tags@) =~= tags_view(before_tags).remove(index as int));
        self.strip_tag_everywhere(tag_id);
        Ok(())
    }

    /// Drops `tag_id` from the tags of every active and archived card.
    fn strip_tag_everywhere(&mut self, tag_id: TagId)
        ensures
            final(self)@ == strip_tag(old(self)@, tag_id),
    {
        let mut columns: Vec<Column> = Vec::new();
        std::mem::swap(&mut columns, &mut self.columns);
        let ghost before = columns_view(columns@);
        let mut i: usize = 0;
        while i < columns.len()
            invariant
                i <= columns@.len(),
                before.len() == columns@.len(),
                forall|j: int|
                    0 <= j < i ==> (#[trigger] columns@[j])@ == (ColumnView {
                        cards: cards_without_tag(before[j].cards, tag_id),
                        ..before[j]
                    }),
                forall|j: int| i <= j < columns@.len() ==> (#[trigger] columns@[j])@ == before[j],
            decreases columns.len() - i,
        {
            strip_tag_from_cards(&mut columns[i].cards, tag_id);
            i += 1;
        }
        self.columns = columns;
        strip_tag_from_cards(&mut self.archived_cards, tag_id);
        assert(columns_view(self.columns@) =~= strip_tag(old(self)@, tag_id).columns);
    }

    /// Removes column `column_id`, unless it is the last one, and puts the columns in order.
    pub(crate) fn remove_column_raw(&mut self, column_id: ColumnId) -> (r: Result<(), BoardError>)
        ensures
            final(self)@ == remove_column_raw_spec(old(self)@, column_id).0,
            r == remove_column_raw_spec(old(self)@, column_id).1,
    {
        proof {
            lemma_column_index(self@.columns, column_id);
        }
        let index = match find_column_index(&self.columns, column_id) {
            Some(index) => index,
            None => return Err(BoardError::ColumnNotFound(column_id)),
        };
        if self.columns.len() == 1 {
            return Err(BoardError::LastColumn);
        }
        let ghost before = self@.columns;
        self.columns.remove(index);
        assert(columns_view(self.columns@) =~= before.remove(index as int));
        self.reindex();
        Ok(())
    }
}


impl Board {
    /// Reorders the cards of column `column_id` as the ids in `order` say. An id missing
    /// from the column, or a card missing from `order`, is `CardNotFound`, and the column
    /// is then left empty.
    pub(crate) fn sort_column_raw(&mut self, column_id: ColumnId, order: &Vec<CardId>) -> (r: Result<
        (),
        BoardError,
    >)
        ensures
            final(self)@ == sort_column_raw_spec(old(self)@, column_id, order@).0,
            r == sort_column_raw_spec(old(self)@, column_id, order@).1,
    {
        proof {
            lemma_column_index(self@.columns, column_id);
        }
        let c = match find_column_index(&self.columns, column_id) {
            Some(c) => c,
            None => return Err(BoardError::ColumnNotFound(column_id)),
        };
        let ghost before = self.columns@;
        let ghost original = self@.columns[c as int].cards;
        let mut remaining: Vec<Card> = Vec::new();
        std::mem::swap(&mut remaining, &mut self.columns[c].cards);
        proof {
            lemma_columns_view_set_cards(before, self.columns@, c as int);
            assert(cards_view(self.columns@[c as int].cards@) =~= Seq::<CardView>::empty());
        }
        let ghost emptied = self@;
        let mut reordered: Vec<Card> = Vec::new();
        let mut i: usize = 0;
        assert(order@.take(0) =~= Seq::<CardId>::empty());
        while i < order.len()
            invariant
                i <= order@.len(),
                self@ == emptied,
                column_index(old(self)@.columns, column_id) == Some(c as int),
                original == old(self)@.columns[c as int].cards,
                emptied == with_columns(old(self)@, set_cards(old(self)@.columns, c as int, seq![])),
                (cards_view(reordered@), cards_view(remaining@), None::<CardId>) == pick_in_order(
                    original,
                    order@.take(i as int),
                ),
            decreases order.len() - i,
        {
            assert(order@.take(i + 1).drop_last() =~= order@.take(i as int));
            assert(order@.take(i + 1).last() == order@[i as int]);
            proof {
                lemma_card_index(cards_view(remaining@), order@[i as int]);
            }
            let index = match find_card_index(&remaining, order[i]) {
                Some(index) => index,
                None => {
                    proof {
                        lemma_pick_missing_persists(original, order@, i + 1);
                    }
                    return Err(BoardError::CardNotFound(order[i]));
                },
            };
            let ghost left = remaining@;
            let ghost picked = reordered@;
            let card = remaining.remove(index);
            reordered.push(card);
            proof {
                lemma_cards_view_remove(left, index as int);
                lemma_cards_view_push(picked, card);
            }
            i += 1;
        }
        assert(order@.take(order@.len() as int) =~= order@);
        if remaining.len() > 0 {
            return Err(BoardError::CardNotFound(remaining[0].id));
        }
        let ghost mid = self.columns@;
        self.columns[c].cards = reordered;
        proof {
            lemma_columns_view_set_cards(mid, self.columns@, c as int);
            assert(columns_view(self.columns@) =~= set_cards(before_view_columns(before), c as int, cards_view(reordered@)));
        }
        self.reindex();
        Ok(())
    }

    /// Gives each card of `assignments` its tags, in order: the active card with that id,
    /// else the archived one; an id that is on neither is passed over.
    pub(crate) fn restore_card_tags(&mut self, assignments: &Vec<(CardId, Vec<TagId>)>)
        ensures
            final(self)@ == restore_card_tags_spec(old(self)@, tag_assignments_view(assignments@)),
    {
        let ghost all = tag_assignments_view(assignments@);
        let mut i: usize = 0;
        assert(all.take(0) =~= Seq::<(CardId, Seq<TagId>)>::empty());
        while i < assignments.len()
            invariant
                i <= assignments@.len(),
                all == tag_assignments_view(assignments@),
                self@ == restore_card_tags_spec(old(self)@, all.take(i as int)),
            decreases assignments.len() - i,
        {
            assert(all.take(i + 1).drop_last() =~= all.take(i as int));
            assert(all.take(i + 1).last() == all[i as int]);
            let card_id = assignments[i].0;
            let ghost wanted = assignments@[i as int].1@;
            proof {
                lemma_card_location(self@.columns, card_id);
                lemma_card_index(self@.archived_cards, card_id);
            }
            match self.active_card_location(card_id) {
                Some((c, k)) => {
                    proof {
                        assert(self@.columns[c as int] == self.columns@[c as int]@);
                    }
                    let ghost before = self.columns@;
                    self.columns[c].cards[k].tag_ids = copy_ids(&assignments[i].1);
                    proof {
                        lemma_set_card_view(before, self.columns@, c as int, k as int);
                    }
                },
                None => match find_card_index(&self.archived_cards, card_id) {
                    Some(a) => {
                        let ghost before = self.archived_cards@;
                        self.archived_cards[a].tag_ids = copy_ids(&assignments[i].1);
                        proof {
                            lemma_cards_view_update(before, a as int, self.archived_cards@[a as int]);
                            assert(self.archived_cards@ =~= before.update(a as int, self.archived_cards@[a as int]));
                        }
                    },
                    None => {},
                },
            }
            i += 1;
        }
        assert(all.take(assignments@.len() as int) =~= all);
    }
}

proof fn lemma_pick_missing_persists(remaining: Seq<CardView>, order: Seq<CardId>, n: int)
    requires
        0 <= n <= order.len(),
        pick_in_order(remaining, order.take(n)).2 is Some,
    ensures
        pick_in_order(remaining, order) == pick_in_order(remaining, order.take(n)),
    decreases order.len() - n,
{
    if n == order.len() {
        assert(order.take(n) =~= order);
    } else {
        assert(order.take(n + 1).drop_last() =~= order.take(n));
        lemma_pick_missing_persists(remaining, order, n + 1);
    }
}

pub open spec fn before_view_columns(columns: Seq<Column>) -> Seq<ColumnView> {
    columns_view(columns)
}

} // verus!
