//! The operations on cards, columns and tags that a user makes one at a time.
use vstd::prelude::*;
use crate::date::DueDate;
use crate::model::board::{
    find_column_index, lemma_cards_view_push, lemma_columns_view_set_cards, timestamp,
};
use crate::model::ops::{
    add_card_spec, invalid_wip_limit, set_card_due_date_spec, set_column_wip_limit_spec,
    update_card_spec, wip_limit_message,
};
use crate::model::raw::lemma_set_card_view;
use crate::model::spec::{lemma_card_location, lemma_column_index};
use crate::model::types::{
    columns_view, Board, BoardError, BoardOperation, Card, CardEventKind, CardId, ColumnId,
};
use crate::model::copy::copy_cards;
use crate::text::{is_blank, str_eq};

verus! {

impl Board {
    /// Adds a card at the end of column `column_id` and answers its number, which is never
    /// handed out again. Records a `Created` event; can be undone.
    pub fn add_card(&mut self, column_id: ColumnId, title: &str, description: &str) -> (r: Result<
        CardId,
        BoardError,
    >)
        requires
            old(self).next_card_id < i64::MAX,
        ensures
            final(self)@ == add_card_spec(old(self)@, column_id, title@, description@, final(self)@.updated_at).0,
            r == add_card_spec(old(self)@, column_id, title@, description@, final(self)@.updated_at).1,
    {
        proof {
            lemma_column_index(self@.columns, column_id);
        }
        let c = match find_column_index(&self.columns, column_id) {
            Some(c) => c,
            None => return Err(BoardError::ColumnNotFound(column_id)),
        };
        let id = self.next_card_id;
        let now = timestamp();
        let position = self.columns[c].cards.len() as i64;
        let card = Card {
            id,
            column_id,
            title: title.to_owned(),
            description: description.to_owned(),
            position,
            created_at: now,
            updated_at: now,
            due_date: None,
            tag_ids: Vec::new(),
            checklist_items: Vec::new(),
            archived_at: None,
        };
        let recorded = card.duplicate();
        let ghost before = self.columns@;
        self.columns[c].cards.push(card);
        proof {
            lemma_cards_view_push(before[c as int].cards@, card);
            lemma_columns_view_set_cards(before, self.columns@, c as int);
            assert(card@.tag_ids =~= Seq::<i64>::empty());
            assert(card@.checklist_items =~= Seq::<crate::model::types::ChecklistItemView>::empty());
        }
        self.next_card_id += 1;
        self.record_event(id, CardEventKind::Created, None, Some(column_id), now);
        self.push_operation(BoardOperation::AddCard { card: recorded });
        self.updated_at = now;
        Ok(id)
    }

    /// Sets the title and description of card `card_id`. A blank title is refused; the
    /// values it has already answer `Ok(false)`. Can be undone.
    pub fn update_card(&mut self, card_id: CardId, title: &str, description: &str) -> (r: Result<
        bool,
        BoardError,
    >)
        ensures
            final(self)@ == update_card_spec(old(self)@, card_id, title@, description@, final(self)@.updated_at).0,
            r == update_card_spec(old(self)@, card_id, title@, description@, final(self)@.updated_at).1,
    {
        if is_blank(title) {
            return Err(BoardError::EmptyCardTitle);
        }
        proof {
            lemma_card_location(self@.columns, card_id);
        }
        let (c, k) = match self.active_card_location(card_id) {
            Some(location) => location,
            None => return Err(BoardError::CardNotFound(card_id)),
        };
        proof {
            assert(self@.columns[c as int] == self.columns@[c as int]@);
        }
        if str_eq(self.columns[c].cards[k].title.as_str(), title) && str_eq(
            self.columns[c].cards[k].description.as_str(),
            description,
        ) {
            return Ok(false);
        }
        let before_title = self.columns[c].cards[k].title.clone();
        let before_description = self.columns[c].cards[k].description.clone();
        let now = timestamp();
        let ghost before = self.columns@;
        self.columns[c].cards[k].title = title.to_owned();
        self.columns[c].cards[k].description = description.to_owned();
        self.columns[c].cards[k].updated_at = now;
        proof {
            lemma_set_card_view(before, self.columns@, c as int, k as int);
        }
        self.updated_at = now;
        self.push_operation(
            BoardOperation::UpdateCard {
                card_id,
                before_title,
                before_description,
                after_title: title.to_owned(),
                after_description: description.to_owned(),
            },
        );
        Ok(true)
    }

    /// Sets or clears the due date of card `card_id`; the date it has answers `Ok(false)`.
    pub fn set_card_due_date(&mut self, card_id: CardId, due_date: Option<DueDate>) -> (r: Result<
        bool,
        BoardError,
    >)
        ensures
            final(self)@ == set_card_due_date_spec(old(self)@, card_id, due_date, final(self)@.updated_at).0,
            r == set_card_due_date_spec(old(self)@, card_id, due_date, final(self)@.updated_at).1,
    {
        proof {
            lemma_card_location(self@.columns, card_id);
        }
        let (c, k) = match self.active_card_location(card_id) {
            Some(location) => location,
            None => return Err(BoardError::CardNotFound(card_id)),
        };
        proof {
            assert(self@.columns[c as int] == self.columns@[c as int]@);
        }
        let before_due = self.columns[c].cards[k].due_date;
        if same_due_date(before_due, due_date) {
            return Ok(false);
        }
        let now = timestamp();
        let ghost before = self.columns@;
        self.columns[c].cards[k].due_date = due_date;
        self.columns[c].cards[k].updated_at = now;
        proof {
            lemma_set_card_view(before, self.columns@, c as int, k as int);
        }
        self.updated_at = now;
        self.push_operation(BoardOperation::SetDueDate { card_id, before: before_due, after: due_date });
        Ok(true)
    }

    /// Sets or clears the WIP limit of column `column_id`. A limit below 1 is refused; the
    /// limit it has answers `Ok(false)`.
    pub fn set_column_wip_limit(&mut self, column_id: ColumnId, wip_limit: Option<i64>) -> (r:
        Result<bool, BoardError>)
        ensures
            invalid_wip_limit(wip_limit) ==> (final(self)@ == old(self)@ && (r matches Err(
                BoardError::InvalidWipLimit(message),
            ) && message@ == wip_limit_message())),
            !invalid_wip_limit(wip_limit) ==> (final(self)@ == set_column_wip_limit_spec(
                old(self)@,
                column_id,
                wip_limit,
                final(self)@.updated_at,
            ).0 && r == set_column_wip_limit_spec(
                old(self)@,
                column_id,
                wip_limit,
                final(self)@.updated_at,
            ).1),
    {
        let invalid = match wip_limit {
            Some(limit) => limit <= 0,
            None => false,
        };
        if invalid {
            return Err(BoardError::InvalidWipLimit("上限は 1 以上で入力してください".to_owned()));
        }
        proof {
            lemma_column_index(self@.columns, column_id);
        }
        let c = match find_column_index(&self.columns, column_id) {
            Some(c) => c,
            None => return Err(BoardError::ColumnNotFound(column_id)),
        };
        let before_limit = self.columns[c].wip_limit;
        if before_limit == wip_limit {
            return Ok(false);
        }
        let now = timestamp();
        let ghost before = self@.columns;
        self.columns[c].wip_limit = wip_limit;
        self.columns[c].updated_at = now;
        assert(columns_view(self.columns@) =~= before.update(
            c as int,
            crate::model::types::ColumnView { wip_limit: wip_limit, updated_at: now, ..before[c as int] },
        ));
        self.updated_at = now;
        self.push_operation(
            BoardOperation::SetColumnWipLimit { column_id, before: before_limit, after: wip_limit },
        );
        Ok(true)
    }
}

/// Whether two optional due dates are the same.
pub fn same_due_date(a: Option<DueDate>, b: Option<DueDate>) -> (r: bool)
    ensures
        r == (a == b),
{
    match (a, b) {
        (Some(x), Some(y)) => x.days_from_ce == y.days_from_ce,
        (None, None) => true,
        _ => false,
    }
}

} // verus!
