//! The operations on a board, each with the change it makes to the mathematical board.
use vstd::prelude::*;
use crate::clock::unix_millis;
use crate::model::spec::{
    card_index, card_index_from, card_location, card_location_from, column_index,
    column_index_from, item_index, item_index_from, lemma_card_index, lemma_card_location,
    lemma_column_index, reindex_card, reindex_cards, reindex_columns, reindex_items,
    reindexed, tag_index, tag_index_from,
};
use crate::model::ops::{move_card_spec, move_column_spec};
use crate::model::spec::{insert_card_at, push_operation, record_event, remove_card_at, set_cards};
use crate::model::types::{
    cards_view, columns_view, items_view, operations_view, tags_view, Board, BoardError,
    BoardOperation, BoardState, Card, CardEvent, CardEventKind, CardId, CardView, ChecklistItem,
    ChecklistItemId, Column, ColumnId, OperationView, Tag, TagId,
};

verus! {

/// The current time in milliseconds since the Unix epoch; a clock set before the epoch
/// reads as 0, and a reading past the largest stamp as that stamp. What the clock reads is
/// the time: of it, only that a stamp is never negative is stated.
pub fn timestamp() -> (r: i64)
    ensures
        r >= 0,
{
    match unix_millis() {
        Some(millis) => if millis <= 9223372036854775807u128 {
            millis as i64
        } else {
            i64::MAX
        },
        None => 0,
    }
}

/// Where the first card with `id` stands in `cards`.
pub fn find_card_index(cards: &Vec<Card>, id: CardId) -> (r: Option<usize>)
    ensures
        match r {
            Some(k) => card_index(cards_view(cards@), id) == Some(k as int),
            None => card_index(cards_view(cards@), id) is None,
        },
{
    let ghost view = cards_view(cards@);
    let mut i: usize = 0;
    while i < cards.len()
        invariant
            view == cards_view(cards@),
            i <= cards@.len(),
            card_index_from(view, id, i as int) == card_index(view, id),
        decreases cards.len() - i,
    {
        if cards[i].id == id {
            return Some(i);
        }
        i += 1;
    }
    None
}

/// Where the first column with `id` stands.
pub fn find_column_index(columns: &Vec<Column>, id: ColumnId) -> (r: Option<usize>)
    ensures
        match r {
            Some(k) => column_index(columns_view(columns@), id) == Some(k as int),
            None => column_index(columns_view(columns@), id) is None,
        },
{
    let ghost view = columns_view(columns@);
    let mut i: usize = 0;
    while i < columns.len()
        invariant
            view == columns_view(columns@),
            i <= columns@.len(),
            column_index_from(view, id, i as int) == column_index(view, id),
        decreases columns.len() - i,
    {
        if columns[i].id == id {
            return Some(i);
        }
        i += 1;
    }
    None
}

/// Where the first tag with `id` stands.
pub fn find_tag_index(tags: &Vec<Tag>, id: TagId) -> (r: Option<usize>)
    ensures
        match r {
            Some(k) => tag_index(tags_view(tags@), id) == Some(k as int),
            None => tag_index(tags_view(tags@), id) is None,
        },
{
    let ghost view = tags_view(tags@);
    let mut i: usize = 0;
    while i < tags.len()
        invariant
            view == tags_view(tags@),
            i <= tags@.len(),
            tag_index_from(view, id, i as int) == tag_index(view, id),
        decreases tags.len() - i,
    {
        if tags[i].id == id {
            return Some(i);
        }
        i += 1;
    }
    None
}

/// Where the first checklist item with `id` stands.
pub fn find_item_index(items: &Vec<ChecklistItem>, id: ChecklistItemId) -> (r: Option<usize>)
    ensures
        match r {
            Some(k) => item_index(items_view(items@), id) == Some(k as int),
            None => item_index(items_view(items@), id) is None,
        },
{
    let ghost view = items_view(items@);
    let mut i: usize = 0;
    while i < items.len()
        invariant
            view == items_view(items@),
            i <= items@.len(),
            item_index_from(view, id, i as int) == item_index(view, id),
        decreases items.len() - i,
    {
        if items[i].id == id {
            return Some(i);
        }
        i += 1;
    }
    None
}


pub proof fn lemma_cards_view_remove(cards: Seq<Card>, k: int)
    requires
        0 <= k < cards.len(),
    ensures
        cards_view(cards.remove(k)) == cards_view(cards).remove(k),
{
    assert(cards_view(cards.remove(k)) =~= cards_view(cards).remove(k));
}

pub proof fn lemma_cards_view_insert(cards: Seq<Card>, k: int, card: Card)
    requires
        0 <= k <= cards.len(),
    ensures
        cards_view(cards.insert(k, card)) == cards_view(cards).insert(k, card@),
{
    assert(cards_view(cards.insert(k, card)) =~= cards_view(cards).insert(k, card@));
}

pub proof fn lemma_cards_view_update(cards: Seq<Card>, k: int, card: Card)
    requires
        0 <= k < cards.len(),
    ensures
        cards_view(cards.update(k, card)) == cards_view(cards).update(k, card@),
{
    assert(cards_view(cards.update(k, card)) =~= cards_view(cards).update(k, card@));
}

pub proof fn lemma_cards_view_push(cards: Seq<Card>, card: Card)
    ensures
        cards_view(cards.push(card)) == cards_view(cards).push(card@),
{
    assert(cards_view(cards.push(card)) =~= cards_view(cards).push(card@));
}

pub proof fn lemma_columns_view_set_cards(before: Seq<Column>, after: Seq<Column>, c: int)
    requires
        0 <= c < before.len(),
        after.len() == before.len(),
        forall|i: int| 0 <= i < before.len() && i != c ==> after[i] == before[i],
        after[c].id == before[c].id,
        after[c].board_id == before[c].board_id,
        after[c].name == before[c].name,
        after[c].position == before[c].position,
        after[c].created_at == before[c].created_at,
        after[c].updated_at == before[c].updated_at,
        after[c].wip_limit == before[c].wip_limit,
    ensures
        columns_view(after) == set_cards(columns_view(before), c, cards_view(after[c].cards@)),
{
    assert(columns_view(after) =~= set_cards(columns_view(before), c, cards_view(after[c].cards@)));
}

/// Numbers a card's checklist items by their place and makes them the card's.
pub fn reindex_checklist_items(card: &mut Card)
    ensures
        final(card)@ == (CardView {
            checklist_items: reindex_items(old(card).id, old(card)@.checklist_items),
            ..old(card)@
        }),
{
    let mut items: Vec<ChecklistItem> = Vec::new();
    std::mem::swap(&mut items, &mut card.checklist_items);
    let ghost before = items_view(items@);
    let id = card.id;
    let mut i: usize = 0;
    while i < items.len()
        invariant
            i <= items@.len(),
            before.len() == items@.len(),
            forall|j: int|
                0 <= j < i ==> (#[trigger] items@[j])@ == reindex_items(id, before)[j],
            forall|j: int| i <= j < items@.len() ==> (#[trigger] items@[j])@ == before[j],
        decreases items.len() - i,
    {
        items[i].card_id = id;
        items[i].position = i as i64;
        i += 1;
    }
    card.checklist_items = items;
    assert(items_view(card.checklist_items@) =~= reindex_items(id, before));
}

/// Numbers a column's cards by their place, makes them the column's, and orders their
/// checklists.
fn reindex_column_cards(column: &mut Column)
    ensures
        final(column)@ == (crate::model::types::ColumnView {
            cards: reindex_cards(old(column).id, old(column)@.cards),
            ..old(column)@
        }),
{
    let mut cards: Vec<Card> = Vec::new();
    std::mem::swap(&mut cards, &mut column.cards);
    let ghost before = cards_view(cards@);
    let id = column.id;
    let mut k: usize = 0;
    while k < cards.len()
        invariant
            k <= cards@.len(),
            before.len() == cards@.len(),
            forall|j: int|
                0 <= j < k ==> (#[trigger] cards@[j])@ == reindex_cards(id, before)[j],
            forall|j: int| k <= j < cards@.len() ==> (#[trigger] cards@[j])@ == before[j],
        decreases cards.len() - k,
    {
        cards[k].position = k as i64;
        cards[k].column_id = id;
        reindex_checklist_items(&mut cards[k]);
        k += 1;
    }
    column.cards = cards;
    assert(cards_view(column.cards@) =~= reindex_cards(id, before));
}

impl Board {
    /// Puts every position and owner back in order: columns by their place, cards by their
    /// place in their column, checklist items by their place on their card.
    pub fn reindex(&mut self)
        ensures
            final(self)@ == reindexed(old(self)@),
    {
        let mut columns: Vec<Column> = Vec::new();
        std::mem::swap(&mut columns, &mut self.columns);
        let ghost before = columns_view(columns@);
        let mut i: usize = 0;
        while i < columns.len()
            invariant
                i <= columns@.len(),
                before.len() == columns@.len(),
                forall|j: int|
                    0 <= j < i ==> (#[trigger] columns@[j])@ == reindex_columns(before)[j],
                forall|j: int| i <= j < columns@.len() ==> (#[trigger] columns@[j])@ == before[j],
            decreases columns.len() - i,
        {
            columns[i].position = i as i64;
            reindex_column_cards(&mut columns[i]);
            i += 1;
        }
        self.columns = columns;
        assert(columns_view(self.columns@) =~= reindex_columns(before));
    }
}

} // verus!

verus! {

/// The column and place of the first card with `card_id` in `columns`.
pub fn card_location_in(columns: &Vec<Column>, card_id: CardId) -> (r: Option<(usize, usize)>)
    ensures
        match r {
            Some((c, k)) => card_location(columns_view(columns@), card_id) == Some((c as int, k as int)),
            None => card_location(columns_view(columns@), card_id) is None,
        },
{
    let ghost view = columns_view(columns@);
    let mut c: usize = 0;
    while c < columns.len()
        invariant
            view == columns_view(columns@),
            c <= columns@.len(),
            card_location_from(view, card_id, c as int) == card_location(view, card_id),
        decreases columns.len() - c,
    {
        assert(view[c as int] == columns@[c as int]@);
        match find_card_index(&columns[c].cards, card_id) {
            Some(k) => {
                return Some((c, k));
            },
            None => {},
        }
        c += 1;
    }
    None
}

impl Board {
    /// The column and place of the first active card with `card_id`.
    pub(crate) fn active_card_location(&self, card_id: CardId) -> (r: Option<(usize, usize)>)
        ensures
            match r {
                Some((c, k)) => card_location(self@.columns, card_id) == Some((c as int, k as int)),
                None => card_location(self@.columns, card_id) is None,
            },
    {
        let ghost view = self@.columns;
        let mut c: usize = 0;
        while c < self.columns.len()
            invariant
                view == self@.columns,
                c <= self.columns@.len(),
                card_location_from(view, card_id, c as int) == card_location(view, card_id),
            decreases self.columns.len() - c,
        {
            match find_card_index(&self.columns[c].cards, card_id) {
                Some(k) => {
                    return Some((c, k));
                },
                None => {},
            }
            c += 1;
        }
        None
    }

    pub(crate) fn push_operation(&mut self, operation: BoardOperation)
        ensures
            final(self)@ == push_operation(old(self)@, operation@),
    {
        self.undo_stack.push(operation);
        self.redo_stack.clear();
        proof {
            assert(operations_view(self.undo_stack@) =~= operations_view(old(self).undo_stack@).push(operation@));
            assert(operations_view(self.redo_stack@) =~= Seq::<OperationView>::empty());
        }
    }

    pub(crate) fn record_event(
        &mut self,
        card_id: CardId,
        kind: CardEventKind,
        from_column_id: Option<ColumnId>,
        to_column_id: Option<ColumnId>,
        at: i64,
    )
        ensures
            final(self)@ == record_event(
                old(self)@,
                CardEvent { card_id, kind, from_column_id, to_column_id, at },
            ),
    {
        self.pending_events.push(CardEvent { card_id, kind, from_column_id, to_column_id, at });
    }

    /// Forgets the card history that the next save would write.
    pub fn discard_pending_events(&mut self)
        ensures
            final(self)@ == (BoardState { pending_events: seq![], ..old(self)@ }),
    {
        self.pending_events.clear();
    }

    /// Moves card `card_id` to place `target_index` of column `target_column_id`.
    ///
    /// The place counts in the column before the move and is clamped to its end. Moving a
    /// card to where it stands answers `Ok(false)` and changes nothing; a move to another
    /// column records a `Moved` event; every move can be undone.
    pub fn move_card(
        &mut self,
        card_id: CardId,
        target_column_id: ColumnId,
        target_index: usize,
    ) -> (r: Result<bool, BoardError>)
        ensures
            final(self)@ == move_card_spec(
                old(self)@,
                card_id,
                target_column_id,
                target_index,
                final(self)@.updated_at,
            ).0,
            r == move_card_spec(
                old(self)@,
                card_id,
                target_column_id,
                target_index,
                final(self)@.updated_at,
            ).1,
    {
        proof {
            lemma_card_location(self@.columns, card_id);
            lemma_column_index(self@.columns, target_column_id);
        }
        let location = self.active_card_location(card_id);
        let (source_column_index, source_card_index) = match location {
            Some(location) => location,
            None => return Err(BoardError::CardNotFound(card_id)),
        };
        let target_column_index = match find_column_index(&self.columns, target_column_id) {
            Some(index) => index,
            None => return Err(BoardError::ColumnNotFound(target_column_id)),
        };
        proof {
            assert(self@.columns[source_column_index as int] == self.columns@[source_column_index as int]@);
            assert(self@.columns[target_column_index as int] == self.columns@[target_column_index as int]@);
        }
        let same_column = source_column_index == target_column_index;
        let source_column_id = self.columns[source_column_index].id;
        let mut insert_index = if target_index < self.columns[target_column_index].cards.len() {
            target_index
        } else {
            self.columns[target_column_index].cards.len()
        };
        if same_column && source_card_index < insert_index {
            insert_index -= 1;
        }
        if same_column && source_card_index == insert_index {
            return Ok(false);
        }
        let ghost before = self@;
        let now = timestamp();
        let card = self.columns[source_column_index].cards.remove(source_card_index);
        let card = Card { column_id: target_column_id, updated_at: now, ..card };
        let ghost removed = remove_card_at(before.columns, source_column_index as int, source_card_index as int);
        proof {
            lemma_cards_view_remove(old(self).columns@[source_column_index as int].cards@, source_card_index as int);
            lemma_columns_view_set_cards(old(self).columns@, self.columns@, source_column_index as int);
        }
        if insert_index > self.columns[target_column_index].cards.len() {
            insert_index = self.columns[target_column_index].cards.len();
        }
        let ghost mid = self.columns@;
        self.columns[target_column_index].cards.insert(insert_index, card);
        proof {
            lemma_cards_view_insert(mid[target_column_index as int].cards@, insert_index as int, card);
            lemma_columns_view_set_cards(mid, self.columns@, target_column_index as int);
        }
        self.reindex();
        self.updated_at = now;
        self.push_operation(
            BoardOperation::MoveCard {
                card_id,
                from_column_id: source_column_id,
                from_index: source_card_index,
                to_column_id: target_column_id,
                to_index: insert_index,
            },
        );
        if !same_column {
            self.record_event(
                card_id,
                CardEventKind::Moved,
                Some(source_column_id),
                Some(target_column_id),
                now,
            );
        }
        Ok(true)
    }

    /// Moves column `column_id` to place `target_index`, counted among the columns before
    /// the move and clamped to the end. Moving it to where it stands answers `Ok(false)`.
    pub fn move_column(&mut self, column_id: ColumnId, target_index: usize) -> (r: Result<
        bool,
        BoardError,
    >)
        ensures
            final(self)@ == move_column_spec(old(self)@, column_id, target_index, final(self)@.updated_at).0,
            r == move_column_spec(old(self)@, column_id, target_index, final(self)@.updated_at).1,
    {
        proof {
            lemma_column_index(self@.columns, column_id);
        }
        let source_index = match find_column_index(&self.columns, column_id) {
            Some(index) => index,
            None => return Err(BoardError::ColumnNotFound(column_id)),
        };
        let mut insert_index = if target_index < self.columns.len() {
            target_index
        } else {
            self.columns.len()
        };
        if source_index < insert_index {
            insert_index -= 1;
        }
        if source_index == insert_index {
            return Ok(false);
        }
        let ghost before = self@;
        let mut column = self.columns.remove(source_index);
        let now = timestamp();
        column.updated_at = now;
        if insert_index > self.columns.len() {
            insert_index = self.columns.len();
        }
        self.columns.insert(insert_index, column);
        assert(columns_view(self.columns@) =~= before.columns.remove(source_index as int).insert(insert_index as int, column@));
        self.reindex();
        self.updated_at = now;
        self.push_operation(
            BoardOperation::MoveColumn { column_id, from_index: source_index, to_index: insert_index },
        );
        Ok(true)
    }
}

} // verus!
