//! What holds of the board across operations: undo gives back what an operation changed,
//! numbers are never handed out twice, and a few operations that change nothing.
use vstd::prelude::*;
use crate::date::DueDate;
use crate::model::ops::{
    add_card_spec, move_card_spec, move_column_spec, set_card_due_date_spec,
    set_column_wip_limit_spec, update_card_spec,
};
use crate::model::columns::{
    add_column_spec, archived_in_column, reassign_archived, remove_column_spec, rename_column_spec,
};
use crate::model::checklist::{
    add_checklist_item_spec, delete_checklist_item_spec, move_checklist_item_spec, set_checklist_item_checked_spec,
    update_checklist_item_spec,
};
use crate::model::details::{update_card_details_spec, DraftView};
use crate::model::tags::{add_tag_spec, rename_tag_spec, set_card_tags_spec, set_tag_color_spec};
use crate::model::cards::{
    archive_card_spec, copy_card_spec, delete_card_spec, discard_added_card_spec,
    last_add_card_index, restore_card_spec, restore_target, without_created,
};
use crate::model::raw_spec::{
    cards_without_tag, insert_active_card_spec, remove_active_card_spec, remove_archived_spec,
    strip_tag, without_tag,
};
use crate::model::keeps::{every_card, items_below, items_below_of, tags_below, tags_below_of};
use crate::model::replay_spec::{relabel_archived, redo_spec, replay_spec, replay_step, undo_spec};
use crate::model::tag_undo::lemma_without_absent;
use crate::model::spec::{
    card_index, card_location, column_index, insert_card_at, item_index, lemma_card_index,
    lemma_item_index, lemma_tag_index, tag_index,
    lemma_card_location, lemma_column_index, reindex_card, reindex_cards, reindex_columns,
    reindex_items, remove_card_at, set_card_at, set_cards, min_int,
};
use crate::model::alike::{
    lemma_insert_alike, lemma_insert_removed, lemma_reindex_idempotent, lemma_remove_alike,
    lemma_remove_inserted, lemma_set_alike, lemma_set_in_order, column_in_order_at,
    lemma_insert_column_alike, lemma_remove_column_alike,
};
use crate::model::types::{
    BoardState, CardEvent, CardId, CardView, ChecklistItemId, ChecklistItemView, ColumnId, ColumnView,
    OperationView, TagId, TagView,
};

verus! {

// ---------------------------------------------------------------------------------------
// A board in good order.

/// Every column, card and checklist item carries its place and owner.
pub open spec fn in_order(columns: Seq<ColumnView>) -> bool {
    reindex_columns(columns) == columns
}

/// No two columns share an id, and every column id is below the next one handed out.
pub open spec fn columns_numbered(b: BoardState) -> bool {
    &&& forall|i: int, j: int|
        0 <= i < j < b.columns.len() ==> #[trigger] b.columns[i].id != #[trigger] b.columns[j].id
    &&& forall|i: int| 0 <= i < b.columns.len() ==> #[trigger] b.columns[i].id < b.next_column_id
}

/// No two cards, active or archived, share an id, and every card id is below the next one
/// handed out.
pub open spec fn cards_numbered(b: BoardState) -> bool {
    &&& forall|c1: int, k1: int, c2: int, k2: int|
        0 <= c1 < b.columns.len() && 0 <= k1 < b.columns[c1].cards.len() && 0 <= c2
            < b.columns.len() && 0 <= k2 < b.columns[c2].cards.len() && (c1 != c2 || k1 != k2)
            ==> #[trigger] b.columns[c1].cards[k1].id != #[trigger] b.columns[c2].cards[k2].id
    &&& forall|i: int, j: int|
        0 <= i < j < b.archived_cards.len() ==> #[trigger] b.archived_cards[i].id
            != #[trigger] b.archived_cards[j].id
    &&& forall|c: int, k: int, i: int|
        0 <= c < b.columns.len() && 0 <= k < b.columns[c].cards.len() && 0 <= i
            < b.archived_cards.len() ==> #[trigger] b.columns[c].cards[k].id
            != #[trigger] b.archived_cards[i].id
    &&& forall|c: int, k: int|
        0 <= c < b.columns.len() && 0 <= k < b.columns[c].cards.len() ==> #[trigger] b.columns[c].cards[k].id
            < b.next_card_id
    &&& forall|i: int| 0 <= i < b.archived_cards.len() ==> #[trigger] b.archived_cards[i].id < b.next_card_id
}

/// Active cards are not marked archived.
pub open spec fn active_unarchived(b: BoardState) -> bool {
    forall|c: int, k: int|
        0 <= c < b.columns.len() && 0 <= k < b.columns[c].cards.len() ==> (
        #[trigger] b.columns[c].cards[k]).archived_at is None
}

/// Counts that a board in memory can have: each fits a place and a position.
pub open spec fn sized(b: BoardState) -> bool {
    &&& b.columns.len() <= usize::MAX
    &&& b.archived_cards.len() <= usize::MAX
    &&& b.tags.len() <= usize::MAX
    &&& forall|c: int|
        0 <= c < b.columns.len() ==> #[trigger] b.columns[c].cards.len() < i64::MAX
            && b.columns[c].cards.len() < usize::MAX
}

/// No two tags share a number, every tag number is below the next one handed out, and
/// every card, active or archived, names only numbers below it.
pub open spec fn tags_numbered(b: BoardState) -> bool {
    &&& forall|i: int, j: int|
        0 <= i < j < b.tags.len() ==> #[trigger] b.tags[i].id != #[trigger] b.tags[j].id
    &&& forall|i: int| 0 <= i < b.tags.len() ==> #[trigger] b.tags[i].id < b.next_tag_id
    &&& every_card(b.columns, tags_below_of(b.next_tag_id))
    &&& forall|i: int| 0 <= i < b.archived_cards.len() ==> tags_below(#[trigger] b.archived_cards[i], b.next_tag_id)
}

/// Every checklist item, on an active card or an archived one, has a number below the next
/// one handed out.
pub open spec fn items_numbered(b: BoardState) -> bool {
    &&& every_card(b.columns, items_below_of(b.next_checklist_item_id))
    &&& forall|i: int|
        0 <= i < b.archived_cards.len() ==> items_below(#[trigger] b.archived_cards[i], b.next_checklist_item_id)
}

/// A board in good order: what the operations of this library keep.
pub open spec fn well_formed(b: BoardState) -> bool {
    &&& sized(b)
    &&& in_order(b.columns)
    &&& columns_numbered(b)
    &&& cards_numbered(b)
    &&& active_unarchived(b)
    &&& tags_numbered(b)
    &&& items_numbered(b)
}

// ---------------------------------------------------------------------------------------
// Finding what is there once.

pub proof fn lemma_card_location_unique(columns: Seq<ColumnView>, id: CardId, c: int, k: int)
    requires
        0 <= c < columns.len(),
        0 <= k < columns[c].cards.len(),
        columns[c].cards[k].id == id,
        forall|c2: int, k2: int|
            0 <= c2 < columns.len() && 0 <= k2 < columns[c2].cards.len() && (c2 != c || k2 != k)
                ==> #[trigger] columns[c2].cards[k2].id != id,
    ensures
        card_location(columns, id) == Some((c, k)),
{
    lemma_card_location(columns, id);
    lemma_card_index(columns[c].cards, id);
}

pub proof fn lemma_column_index_unique(columns: Seq<ColumnView>, id: ColumnId, c: int)
    requires
        0 <= c < columns.len(),
        columns[c].id == id,
        forall|c2: int| 0 <= c2 < columns.len() && c2 != c ==> #[trigger] columns[c2].id != id,
    ensures
        column_index(columns, id) == Some(c),
{
    lemma_column_index(columns, id);
}

pub proof fn lemma_card_index_unique(cards: Seq<CardView>, id: CardId, i: int)
    requires
        0 <= i < cards.len(),
        cards[i].id == id,
        forall|j: int| 0 <= j < cards.len() && j != i ==> #[trigger] cards[j].id != id,
    ensures
        card_index(cards, id) == Some(i),
{
    lemma_card_index(cards, id);
}

// ---------------------------------------------------------------------------------------
// Putting in order twice is putting in order once.

proof fn lemma_reindex_card_twice(card: CardView, c1: ColumnId, k1: int, c2: ColumnId, k2: int)
    ensures
        reindex_card(reindex_card(card, c1, k1), c2, k2) == reindex_card(card, c2, k2),
{
    assert(reindex_items(card.id, reindex_items(card.id, card.checklist_items)) =~= reindex_items(
        card.id,
        card.checklist_items,
    ));
}

/// Taking a card out and putting it back where it was, with the board put in order in
/// between, leaves the board as putting it in order would.
proof fn lemma_reinsert(columns: Seq<ColumnView>, c: int, k: int)
    requires
        0 <= c < columns.len(),
        0 <= k < columns[c].cards.len(),
    ensures
        reindex_columns(
            insert_card_at(
                reindex_columns(remove_card_at(columns, c, k)),
                c,
                k,
                columns[c].cards[k],
            ),
        ) == reindex_columns(columns),
{
    let removed = reindex_columns(remove_card_at(columns, c, k));
    let back = insert_card_at(removed, c, k, columns[c].cards[k]);
    let lhs = reindex_columns(back);
    let rhs = reindex_columns(columns);
    assert forall|j: int| 0 <= j < columns.len() implies #[trigger] lhs[j] == rhs[j] by {
        let cid = columns[j].id;
        if j == c {
            assert forall|i: int| 0 <= i < columns[c].cards.len() implies #[trigger] lhs[j].cards[i]
                == rhs[j].cards[i] by {
                if i < k {
                    lemma_reindex_card_twice(columns[c].cards[i], cid, i, cid, i);
                } else if i == k {
                } else {
                    assert(back[c].cards[i] == removed[c].cards[i - 1]);
                    assert(columns[c].cards.remove(k)[i - 1] == columns[c].cards[i]);
                    lemma_reindex_card_twice(columns[c].cards[i], cid, i - 1, cid, i);
                }
            }
            assert(lhs[j].cards =~= rhs[j].cards);
        } else {
            assert forall|i: int| 0 <= i < columns[j].cards.len() implies #[trigger] lhs[j].cards[i]
                == rhs[j].cards[i] by {
                lemma_reindex_card_twice(columns[j].cards[i], cid, i, cid, i);
            }
            assert(lhs[j].cards =~= rhs[j].cards);
        }
    }
    assert(lhs =~= rhs);
}

// ---------------------------------------------------------------------------------------
// Laws.

/// Adding a card and then undoing it gives back the columns, tags and archive exactly;
/// the add moves to the redo history, and the card's number stays used.
pub proof fn law_undo_add_card(
    b: BoardState,
    column_id: ColumnId,
    title: Seq<char>,
    description: Seq<char>,
    now: i64,
    later: i64,
)
    requires
        well_formed(b),
        b.next_card_id < i64::MAX,
        add_card_spec(b, column_id, title, description, now).1 is Ok,
    ensures
        ({
            let added = add_card_spec(b, column_id, title, description, now).0;
            let (undone, r) = undo_spec(added, later);
            &&& r == Ok::<bool, crate::model::types::BoardError>(true)
            &&& undone.columns == b.columns
            &&& undone.tags == b.tags
            &&& undone.archived_cards == b.archived_cards
            &&& undone.undo_stack == b.undo_stack
            &&& undone.redo_stack == seq![added.undo_stack.last()]
            &&& undone.next_card_id == b.next_card_id + 1
        }),
{
    lemma_column_index(b.columns, column_id);
    let c = column_index(b.columns, column_id).unwrap();
    let added = add_card_spec(b, column_id, title, description, now).0;
    let len = b.columns[c].cards.len() as int;
    let card = added.columns[c].cards[len];
    assert(added.columns[c].cards == b.columns[c].cards.push(card));
    assert forall|c2: int, k2: int|
        0 <= c2 < added.columns.len() && 0 <= k2 < added.columns[c2].cards.len() && (c2 != c || k2
            != len) implies #[trigger] added.columns[c2].cards[k2].id != card.id by {
        assert(added.columns[c2].cards[k2] == b.columns[c2].cards[k2]);
    }
    let popped = BoardState { undo_stack: added.undo_stack.drop_last(), ..added };
    lemma_card_location_unique(popped.columns, card.id, c, len);
    assert(added.columns[c].cards.remove(len) =~= b.columns[c].cards);
    assert(remove_card_at(popped.columns, c, len)[c] == b.columns[c]);
    assert(remove_card_at(popped.columns, c, len) =~= b.columns);
    assert(popped.undo_stack =~= b.undo_stack);
}

/// Undoing an added card and doing it again puts the card back where it was added.
pub proof fn law_redo_add_card(
    b: BoardState,
    column_id: ColumnId,
    title: Seq<char>,
    description: Seq<char>,
    now: i64,
    later: i64,
    again: i64,
)
    requires
        well_formed(b),
        b.next_card_id < i64::MAX,
        add_card_spec(b, column_id, title, description, now).1 is Ok,
    ensures
        ({
            let added = add_card_spec(b, column_id, title, description, now).0;
            let undone = undo_spec(added, later).0;
            let (redone, r) = redo_spec(undone, again);
            &&& r == Ok::<bool, crate::model::types::BoardError>(true)
            &&& redone.columns == added.columns
            &&& redone.tags == added.tags
            &&& redone.archived_cards == added.archived_cards
            &&& redone.undo_stack == added.undo_stack
            &&& redone.redo_stack.len() == 0
            &&& redone.next_card_id == added.next_card_id
        }),
{
    law_undo_add_card(b, column_id, title, description, now, later);
    lemma_column_index(b.columns, column_id);
    let c = column_index(b.columns, column_id).unwrap();
    let added = add_card_spec(b, column_id, title, description, now).0;
    let undone = undo_spec(added, later).0;
    let len = b.columns[c].cards.len() as int;
    let card = added.columns[c].cards[len];
    let popped = BoardState { redo_stack: undone.redo_stack.drop_last(), ..undone };
    assert(undone.redo_stack.last() == added.undo_stack.last());
    assert(added.undo_stack.last() == OperationView::AddCard { card });
    assert forall|c2: int| 0 <= c2 < b.columns.len() && c2 != c implies #[trigger] b.columns[c2].id
        != column_id by {
        if c2 < c {
        } else {
            assert(b.columns[c].id != b.columns[c2].id);
        }
    }
    lemma_column_index_unique(popped.columns, card.column_id, c);
    assert(((card.position as usize) as int) == len);
    let inserted = insert_card_at(b.columns, c, len, CardView { archived_at: None, ..card });
    assert(inserted =~= added.columns) by {
        assert(inserted[c].cards =~= added.columns[c].cards);
    }
    assert(reindex_columns(added.columns) =~= added.columns) by {
        assert forall|j: int| 0 <= j < added.columns.len() implies #[trigger] reindex_columns(
            added.columns,
        )[j] == added.columns[j] by {
            assert(reindex_columns(b.columns)[j] == b.columns[j]);
            if j == c {
                assert(reindex_cards(added.columns[c].id, added.columns[c].cards) =~= added.columns[c].cards)
                    by {
                    assert forall|i: int| 0 <= i < added.columns[c].cards.len() implies #[trigger] reindex_cards(
                        added.columns[c].id,
                        added.columns[c].cards,
                    )[i] == added.columns[c].cards[i] by {
                        if i < len {
                            assert(reindex_cards(b.columns[c].id, b.columns[c].cards)[i]
                                == b.columns[c].cards[i]);
                        } else {
                            assert(reindex_items(card.id, card.checklist_items) =~= card.checklist_items);
                        }
                    }
                }
            }
        }
    }
    assert(popped.undo_stack.push(added.undo_stack.last()) =~= added.undo_stack);
}

} // verus!

verus! {

/// Putting a board in order leaves its column ids where they were.
proof fn lemma_reindex_keeps_column_ids(columns: Seq<ColumnView>)
    ensures
        reindex_columns(columns).len() == columns.len(),
        forall|j: int| 0 <= j < columns.len() ==> #[trigger] reindex_columns(columns)[j].id == columns[j].id,
{
}

/// Deleting a card and then undoing it gives back the columns, tags and archive exactly.
pub proof fn law_undo_delete_card(b: BoardState, card_id: CardId, now: i64, later: i64)
    requires
        well_formed(b),
        delete_card_spec(b, card_id, now).1 is Ok,
    ensures
        ({
            let deleted = delete_card_spec(b, card_id, now).0;
            let (undone, r) = undo_spec(deleted, later);
            &&& r == Ok::<bool, crate::model::types::BoardError>(true)
            &&& undone.columns == b.columns
            &&& undone.tags == b.tags
            &&& undone.archived_cards == b.archived_cards
            &&& undone.undo_stack == b.undo_stack
        }),
{
    lemma_card_location(b.columns, card_id);
    let (c, k) = card_location(b.columns, card_id).unwrap();
    let card = b.columns[c].cards[k];
    let deleted = delete_card_spec(b, card_id, now).0;
    let popped = BoardState { undo_stack: deleted.undo_stack.drop_last(), ..deleted };
    assert(popped.undo_stack =~= b.undo_stack);
    assert(reindex_columns(b.columns)[c].cards[k] == reindex_card(card, b.columns[c].id, k));
    assert(card.column_id == b.columns[c].id);
    let removed = remove_card_at(b.columns, c, k);
    lemma_reindex_keeps_column_ids(removed);
    assert forall|c2: int| 0 <= c2 < popped.columns.len() && c2 != c implies #[trigger] popped.columns[c2].id
        != card.column_id by {
        assert(popped.columns[c2].id == b.columns[c2].id);
        if c2 < c {
            assert(b.columns[c2].id != b.columns[c].id);
        } else {
            assert(b.columns[c].id != b.columns[c2].id);
        }
    }
    lemma_column_index_unique(popped.columns, card.column_id, c);
    assert(CardView { archived_at: None, ..card } == card);
    lemma_reinsert(b.columns, c, k);
}

/// Archiving a card and then undoing it gives back the columns, tags and archive exactly.
pub proof fn law_undo_archive_card(b: BoardState, card_id: CardId, now: i64, later: i64)
    requires
        well_formed(b),
        archive_card_spec(b, card_id, now).1 is Ok,
    ensures
        ({
            let archived = archive_card_spec(b, card_id, now).0;
            let (undone, r) = undo_spec(archived, later);
            &&& r == Ok::<bool, crate::model::types::BoardError>(true)
            &&& undone.columns == b.columns
            &&& undone.tags == b.tags
            &&& undone.archived_cards == b.archived_cards
            &&& undone.undo_stack == b.undo_stack
        }),
{
    lemma_card_location(b.columns, card_id);
    let (c, k) = card_location(b.columns, card_id).unwrap();
    let card = b.columns[c].cards[k];
    let archived = archive_card_spec(b, card_id, now).0;
    let popped = BoardState { undo_stack: archived.undo_stack.drop_last(), ..archived };
    assert(popped.undo_stack =~= b.undo_stack);
    let len = b.archived_cards.len() as int;
    assert forall|j: int| 0 <= j < popped.archived_cards.len() && j != len implies #[trigger] popped.archived_cards[j].id
        != card_id by {
        assert(popped.archived_cards[j] == b.archived_cards[j]);
    }
    lemma_card_index_unique(popped.archived_cards, card_id, len);
    let taken = remove_archived_spec(popped, card_id).0;
    assert(taken.archived_cards =~= b.archived_cards);
    assert(reindex_columns(b.columns)[c].cards[k] == reindex_card(card, b.columns[c].id, k));
    let removed = remove_card_at(b.columns, c, k);
    lemma_reindex_keeps_column_ids(removed);
    assert forall|c2: int| 0 <= c2 < taken.columns.len() && c2 != c implies #[trigger] taken.columns[c2].id
        != card.column_id by {
        assert(taken.columns[c2].id == b.columns[c2].id);
        if c2 < c {
            assert(b.columns[c2].id != b.columns[c].id);
        } else {
            assert(b.columns[c].id != b.columns[c2].id);
        }
    }
    lemma_column_index_unique(taken.columns, card.column_id, c);
    assert(CardView { archived_at: None, ..card } == card);
    lemma_reinsert(b.columns, c, k);
}

/// Saving a card's title and description and then undoing it gives back the title and
/// description; only the card's updated time differs from before.
pub proof fn law_undo_update_card(
    b: BoardState,
    card_id: CardId,
    title: Seq<char>,
    description: Seq<char>,
    now: i64,
    later: i64,
)
    requires
        well_formed(b),
        update_card_spec(b, card_id, title, description, now).1 == Ok::<
            bool,
            crate::model::types::BoardError,
        >(true),
    ensures
        ({
            let updated = update_card_spec(b, card_id, title, description, now).0;
            let (undone, r) = undo_spec(updated, later);
            let (c, k) = card_location(b.columns, card_id).unwrap();
            &&& r == Ok::<bool, crate::model::types::BoardError>(true)
            &&& undone.columns == set_card_at(
                b.columns,
                c,
                k,
                CardView { updated_at: later, ..b.columns[c].cards[k] },
            )
            &&& undone.tags == b.tags
            &&& undone.archived_cards == b.archived_cards
            &&& undone.undo_stack == b.undo_stack
        }),
{
    lemma_card_location(b.columns, card_id);
    let (c, k) = card_location(b.columns, card_id).unwrap();
    let updated = update_card_spec(b, card_id, title, description, now).0;
    let popped = BoardState { undo_stack: updated.undo_stack.drop_last(), ..updated };
    assert(popped.undo_stack =~= b.undo_stack);
    assert forall|c2: int, k2: int|
        0 <= c2 < popped.columns.len() && 0 <= k2 < popped.columns[c2].cards.len() && (c2 != c || k2
            != k) implies #[trigger] popped.columns[c2].cards[k2].id != card_id by {
        assert(popped.columns[c2].cards[k2].id == b.columns[c2].cards[k2].id);
    }
    lemma_card_location_unique(popped.columns, card_id, c, k);
    let expected = set_card_at(b.columns, c, k, CardView { updated_at: later, ..b.columns[c].cards[k] });
    let got = undo_spec(updated, later).0.columns;
    assert(got[c].cards =~= expected[c].cards);
    assert(got =~= expected);
}

/// Moving a card to the place it stands changes nothing.
pub proof fn law_move_card_in_place(b: BoardState, card_id: CardId, target_index: usize, now: i64)
    requires
        columns_numbered(b),
        card_location(b.columns, card_id) matches Some((c, k)) && k == target_index,
    ensures
        ({
            let (c, k) = card_location(b.columns, card_id).unwrap();
            move_card_spec(b, card_id, b.columns[c].id, target_index, now) == (
                b,
                Ok::<bool, crate::model::types::BoardError>(false),
            )
        }),
{
    lemma_card_location(b.columns, card_id);
    let (c, k) = card_location(b.columns, card_id).unwrap();
    assert forall|c2: int| 0 <= c2 < b.columns.len() && c2 != c implies #[trigger] b.columns[c2].id
        != b.columns[c].id by {
        if c2 < c {
        } else {
            assert(b.columns[c].id != b.columns[c2].id);
        }
    }
    lemma_column_index_unique(b.columns, b.columns[c].id, c);
}

} // verus!

verus! {

/// Taking the `Created` events of a card out of a history that has none about it leaves
/// the history.
proof fn lemma_without_absent_created(events: Seq<CardEvent>, card_id: CardId)
    requires
        forall|i: int| 0 <= i < events.len() ==> (#[trigger] events[i]).card_id != card_id,
    ensures
        without_created(events, card_id) == events,
    decreases events.len(),
{
    if events.len() > 0 {
        let init = events.drop_last();
        assert forall|i: int| 0 <= i < init.len() implies (#[trigger] init[i]).card_id != card_id by {
            assert(init[i] == events[i]);
        }
        lemma_without_absent_created(init, card_id);
        assert(events[events.len() - 1].card_id != card_id);
        assert(init.push(events.last()) =~= events);
    }
}

/// Adding a card and then discarding it leaves no trace but its spent number: the columns,
/// the tags, the archive, the undo history and the card history are as before, and the
/// next card number is one past the discarded card's. The card history must hold no event
/// about the number the card takes.
pub proof fn law_discarded_card_leaves_no_trace(
    b: BoardState,
    column_id: ColumnId,
    title: Seq<char>,
    description: Seq<char>,
    now: i64,
    later: i64,
)
    requires
        well_formed(b),
        b.next_card_id < i64::MAX,
        add_card_spec(b, column_id, title, description, now).1 is Ok,
        forall|i: int| 0 <= i < b.pending_events.len() ==> (#[trigger] b.pending_events[i]).card_id
            != b.next_card_id,
    ensures
        ({
            let (added, id) = add_card_spec(b, column_id, title, description, now);
            let (discarded, r) = discard_added_card_spec(added, id.unwrap(), later);
            &&& r == Ok::<(), crate::model::types::BoardError>(())
            &&& discarded.columns == b.columns
            &&& discarded.tags == b.tags
            &&& discarded.archived_cards == b.archived_cards
            &&& discarded.undo_stack == b.undo_stack
            &&& discarded.pending_events == b.pending_events
            &&& discarded.next_card_id == b.next_card_id + 1
        }),
{
    lemma_column_index(b.columns, column_id);
    let c = column_index(b.columns, column_id).unwrap();
    let (added, id) = add_card_spec(b, column_id, title, description, now);
    let len = b.columns[c].cards.len() as int;
    let card = added.columns[c].cards[len];
    assert(added.columns[c].cards == b.columns[c].cards.push(card));
    assert forall|c2: int, k2: int|
        0 <= c2 < added.columns.len() && 0 <= k2 < added.columns[c2].cards.len() && (c2 != c || k2
            != len) implies #[trigger] added.columns[c2].cards[k2].id != card.id by {
        assert(added.columns[c2].cards[k2] == b.columns[c2].cards[k2]);
    }
    lemma_card_location_unique(added.columns, card.id, c, len);
    assert(added.columns[c].cards.remove(len) =~= b.columns[c].cards);
    assert(remove_card_at(added.columns, c, len)[c] == b.columns[c]);
    assert(remove_card_at(added.columns, c, len) =~= b.columns);
    // The add is the last operation of the undo history.
    let op = added.undo_stack.last();
    assert(added.undo_stack == b.undo_stack.push(op));
    assert(last_add_card_index(added.undo_stack, card.id) == Some(b.undo_stack.len() as int));
    assert(added.undo_stack.remove(b.undo_stack.len() as int) =~= b.undo_stack);
    // Its `Created` event is the last of the card history, and the only one about it.
    lemma_without_absent_created(b.pending_events, card.id);
    let e = added.pending_events.last();
    assert(added.pending_events == b.pending_events.push(e));
    assert(added.pending_events.drop_last() =~= b.pending_events);
}

/// A card that was added and then taken back with `discard_added_card` leaves its number
/// used: the next card added gets the number after it.
pub proof fn law_discarded_number_not_reused(
    b: BoardState,
    column_id: ColumnId,
    title: Seq<char>,
    description: Seq<char>,
    now: i64,
    later: i64,
    title2: Seq<char>,
    description2: Seq<char>,
    last: i64,
)
    requires
        b.next_card_id < i64::MAX - 1,
        add_card_spec(b, column_id, title, description, now).1 is Ok,
    ensures
        ({
            let (added, first) = add_card_spec(b, column_id, title, description, now);
            let discarded = crate::model::cards::discard_added_card_spec(
                added,
                first.unwrap(),
                later,
            ).0;
            let (_, second) = add_card_spec(discarded, column_id, title2, description2, last);
            &&& first == Ok::<CardId, crate::model::types::BoardError>(b.next_card_id)
            &&& second == Ok::<CardId, crate::model::types::BoardError>((b.next_card_id + 1) as i64)
        }),
{
    lemma_column_index(b.columns, column_id);
    let (added, first) = add_card_spec(b, column_id, title, description, now);
    let c = column_index(b.columns, column_id).unwrap();
    let len = b.columns[c].cards.len() as int;
    lemma_card_location(added.columns, first.unwrap());
    let discarded = crate::model::cards::discard_added_card_spec(added, first.unwrap(), later).0;
    lemma_reindex_keeps_column_ids(
        remove_card_at(added.columns, card_location(added.columns, first.unwrap()).unwrap().0,
        card_location(added.columns, first.unwrap()).unwrap().1),
    );
    assert(added.columns[c].cards[len].id == first.unwrap());
    assert(card_location(added.columns, first.unwrap()) is Some) by {
        lemma_card_index(added.columns[c].cards, first.unwrap());
    }
    let (c2, k2) = card_location(added.columns, first.unwrap()).unwrap();
    assert forall|j: int| 0 <= j < discarded.columns.len() implies #[trigger] discarded.columns[j].id
        == b.columns[j].id by {
        assert(discarded.columns[j].id == remove_card_at(added.columns, c2, k2)[j].id);
    }
    lemma_column_index(discarded.columns, column_id);
    assert(column_index(discarded.columns, column_id) is Some) by {
        assert(discarded.columns[c].id == column_id);
    }
}

} // verus!

verus! {

/// In a board whose cards are numbered apart, the number of the card at `(c, k)` occurs
/// nowhere once that card is taken out.
proof fn lemma_removed_lacks(b: BoardState, c: int, k: int)
    requires
        cards_numbered(b),
        0 <= c < b.columns.len(),
        0 <= k < b.columns[c].cards.len(),
    ensures
        forall|c2: int, k2: int|
            0 <= c2 < b.columns.len() && 0 <= k2 < remove_card_at(b.columns, c, k)[c2].cards.len()
                ==> #[trigger] remove_card_at(b.columns, c, k)[c2].cards[k2].id
                != b.columns[c].cards[k].id,
{
    let removed = remove_card_at(b.columns, c, k);
    assert forall|c2: int, k2: int|
        0 <= c2 < b.columns.len() && 0 <= k2 < removed[c2].cards.len() implies #[trigger] removed[c2].cards[k2].id
        != b.columns[c].cards[k].id by {
        if c2 == c {
            if k2 < k {
                assert(removed[c2].cards[k2] == b.columns[c].cards[k2]);
            } else {
                assert(removed[c2].cards[k2] == b.columns[c].cards[k2 + 1]);
            }
        } else {
            assert(removed[c2].cards[k2] == b.columns[c2].cards[k2]);
        }
    }
}

/// Moving a card and then undoing it puts the card back in the column and at the place it
/// stood, with the rest of the board as it was; only the card's updated time keeps the time
/// of the move. The move goes to the redo history.
pub proof fn law_undo_move_card(
    b: BoardState,
    card_id: CardId,
    target_column_id: ColumnId,
    target_index: usize,
    now: i64,
    later: i64,
)
    requires
        well_formed(b),
        move_card_spec(b, card_id, target_column_id, target_index, now).1 == Ok::<
            bool,
            crate::model::types::BoardError,
        >(true),
    ensures
        ({
            let moved = move_card_spec(b, card_id, target_column_id, target_index, now).0;
            let (undone, r) = undo_spec(moved, later);
            let (c, k) = card_location(b.columns, card_id).unwrap();
            &&& r == Ok::<bool, crate::model::types::BoardError>(true)
            &&& undone.columns == set_card_at(
                b.columns,
                c,
                k,
                CardView { updated_at: now, ..b.columns[c].cards[k] },
            )
            &&& undone.tags == b.tags
            &&& undone.archived_cards == b.archived_cards
            &&& undone.undo_stack == b.undo_stack
            &&& undone.redo_stack == seq![moved.undo_stack.last()]
        }),
{
    lemma_card_location(b.columns, card_id);
    lemma_column_index(b.columns, target_column_id);
    let (si, sk) = card_location(b.columns, card_id).unwrap();
    let tj = column_index(b.columns, target_column_id).unwrap();
    let card = b.columns[si].cards[sk];
    let from_col = b.columns[si].id;
    let clamped = min_int(target_index as int, b.columns[tj].cards.len() as int);
    let wanted = if si == tj && sk < clamped {
        clamped - 1
    } else {
        clamped
    };
    let mc = CardView { column_id: target_column_id, updated_at: now, ..card };
    let removed = remove_card_at(b.columns, si, sk);
    let at = min_int(wanted, removed[tj].cards.len() as int);
    let ins = insert_card_at(removed, tj, at, mc);
    let m = reindex_columns(ins);
    let moved = move_card_spec(b, card_id, target_column_id, target_index, now).0;
    assert(moved.columns == m);
    let popped = BoardState { undo_stack: moved.undo_stack.drop_last(), ..moved };
    assert(popped.undo_stack =~= b.undo_stack);
    assert(moved.undo_stack.last() == OperationView::MoveCard {
        card_id,
        from_column_id: from_col,
        from_index: sk as usize,
        to_column_id: target_column_id,
        to_index: at as usize,
    });
    // The card stands once in the moved board, where it was put.
    lemma_removed_lacks(b, si, sk);
    assert forall|c2: int, k2: int|
        0 <= c2 < m.len() && 0 <= k2 < m[c2].cards.len() && (c2 != tj || k2 != at) implies #[trigger] m[c2].cards[k2].id
        != card_id by {
        assert(m[c2].cards[k2].id == ins[c2].cards[k2].id);
        if c2 == tj {
            if k2 < at {
                assert(ins[c2].cards[k2] == removed[tj].cards[k2]);
            } else {
                assert(ins[c2].cards[k2] == removed[tj].cards[k2 - 1]);
            }
        } else {
            assert(ins[c2].cards[k2] == removed[c2].cards[k2]);
        }
    }
    lemma_card_location_unique(m, card_id, tj, at);
    // Taking it out gives back the board without it.
    lemma_reindex_idempotent(ins);
    lemma_remove_alike(m, ins, tj, at);
    lemma_remove_inserted(removed, tj, at, mc);
    let removed2 = reindex_columns(remove_card_at(m, tj, at));
    assert(removed2 == reindex_columns(removed));
    // Its old column is found again among the others.
    lemma_reindex_keeps_column_ids(removed);
    assert forall|c2: int| 0 <= c2 < removed2.len() && c2 != si implies #[trigger] removed2[c2].id
        != from_col by {
        assert(removed2[c2].id == b.columns[c2].id);
        if c2 < si {
            assert(b.columns[c2].id != b.columns[si].id);
        } else {
            assert(b.columns[si].id != b.columns[c2].id);
        }
    }
    lemma_column_index_unique(removed2, from_col, si);
    assert((sk as usize) as int == sk);
    let taken = m[tj].cards[at];
    assert(taken == reindex_card(mc, target_column_id, at));
    let back = CardView { archived_at: None, ..CardView { column_id: from_col, ..taken } };
    let restored = CardView { updated_at: now, ..card };
    // Putting it back where it stood.
    lemma_reindex_idempotent(removed);
    lemma_insert_alike(removed2, removed, si, sk, back);
    lemma_insert_removed(b.columns, si, sk, back);
    assert(reindex_columns(b.columns)[si].cards[sk] == reindex_card(card, from_col, sk));
    assert(card.archived_at is None);
    assert(reindex_items(card.id, reindex_items(card.id, card.checklist_items)) =~= reindex_items(
        card.id,
        card.checklist_items,
    ));
    assert(reindex_card(back, from_col, sk) == reindex_card(restored, from_col, sk));
    lemma_set_alike(b.columns, si, sk, back, restored);
    lemma_set_in_order(b.columns, si, sk, restored);
}

} // verus!

verus! {

/// Moving a column and then undoing it puts the column back at the place it stood, with
/// the rest of the board as it was; only the column's updated time keeps the time of the
/// move. The move goes to the redo history.
pub proof fn law_undo_move_column(
    b: BoardState,
    column_id: ColumnId,
    target_index: usize,
    now: i64,
    later: i64,
)
    requires
        well_formed(b),
        move_column_spec(b, column_id, target_index, now).1 == Ok::<
            bool,
            crate::model::types::BoardError,
        >(true),
    ensures
        ({
            let moved = move_column_spec(b, column_id, target_index, now).0;
            let (undone, r) = undo_spec(moved, later);
            let c = column_index(b.columns, column_id).unwrap();
            &&& r == Ok::<bool, crate::model::types::BoardError>(true)
            &&& undone.columns == b.columns.update(c, ColumnView { updated_at: now, ..b.columns[c] })
            &&& undone.tags == b.tags
            &&& undone.archived_cards == b.archived_cards
            &&& undone.undo_stack == b.undo_stack
            &&& undone.redo_stack == seq![moved.undo_stack.last()]
        }),
{
    lemma_column_index(b.columns, column_id);
    let si = column_index(b.columns, column_id).unwrap();
    let clamped = min_int(target_index as int, b.columns.len() as int);
    let wanted = if si < clamped {
        clamped - 1
    } else {
        clamped
    };
    let column = ColumnView { updated_at: now, ..b.columns[si] };
    let removed = b.columns.remove(si);
    let at = min_int(wanted, removed.len() as int);
    let ins = removed.insert(at, column);
    let m = reindex_columns(ins);
    let moved = move_column_spec(b, column_id, target_index, now).0;
    assert(moved.columns == m);
    let popped = BoardState { undo_stack: moved.undo_stack.drop_last(), ..moved };
    assert(popped.undo_stack =~= b.undo_stack);
    assert((si as usize) as int == si);
    // The column stands once in the moved board, where it was put.
    assert forall|c2: int| 0 <= c2 < m.len() && c2 != at implies #[trigger] m[c2].id != column_id by {
        assert(m[c2].id == ins[c2].id);
        let k = if c2 < at {
            c2
        } else {
            c2 - 1
        };
        let src = if k < si {
            k
        } else {
            k + 1
        };
        assert(ins[c2] == removed[k]);
        assert(removed[k] == b.columns[src]);
        if src < si {
            assert(b.columns[src].id != b.columns[si].id);
        } else {
            assert(b.columns[si].id != b.columns[src].id);
        }
    }
    lemma_column_index_unique(m, column_id, at);
    // Taking it out gives back the board without it.
    lemma_reindex_idempotent(ins);
    lemma_remove_column_alike(m, ins, at);
    assert(ins.remove(at) =~= removed);
    let removed2 = m.remove(at);
    lemma_reindex_idempotent(removed);
    // Putting it back where it stood.
    assert(column_in_order_at(m[at], si) == column_in_order_at(column, si)) by {
        let cards = column.cards;
        assert(reindex_cards(column_id, reindex_cards(column_id, cards)) =~= reindex_cards(
            column_id,
            cards,
        )) by {
            assert forall|k: int| 0 <= k < cards.len() implies #[trigger] reindex_cards(
                column_id,
                reindex_cards(column_id, cards),
            )[k] == reindex_cards(column_id, cards)[k] by {
                assert(reindex_items(
                    cards[k].id,
                    reindex_items(cards[k].id, cards[k].checklist_items),
                ) =~= reindex_items(cards[k].id, cards[k].checklist_items));
            }
        }
    }
    lemma_insert_column_alike(removed2, removed, si, m[at], column);
    assert(removed.insert(si, column) =~= b.columns.update(si, column));
    let goal = b.columns.update(si, column);
    assert(reindex_columns(goal) =~= goal) by {
        assert forall|j: int| 0 <= j < goal.len() implies #[trigger] reindex_columns(goal)[j]
            == goal[j] by {
            assert(reindex_columns(b.columns)[j] == b.columns[j]);
        }
    }
}

} // verus!

verus! {

/// Undoing a card move and doing it again puts the card back where the move put it: the
/// columns are those the move made.
pub proof fn law_redo_move_card(
    b: BoardState,
    card_id: CardId,
    target_column_id: ColumnId,
    target_index: usize,
    now: i64,
    later: i64,
    again: i64,
)
    requires
        well_formed(b),
        move_card_spec(b, card_id, target_column_id, target_index, now).1 == Ok::<
            bool,
            crate::model::types::BoardError,
        >(true),
    ensures
        ({
            let moved = move_card_spec(b, card_id, target_column_id, target_index, now).0;
            let undone = undo_spec(moved, later).0;
            let (redone, r) = redo_spec(undone, again);
            &&& r == Ok::<bool, crate::model::types::BoardError>(true)
            &&& redone.columns == moved.columns
            &&& redone.tags == moved.tags
            &&& redone.archived_cards == moved.archived_cards
            &&& redone.undo_stack == moved.undo_stack
            &&& redone.redo_stack.len() == 0
        }),
{
    law_undo_move_card(b, card_id, target_column_id, target_index, now, later);
    lemma_card_location(b.columns, card_id);
    lemma_column_index(b.columns, target_column_id);
    let (si, sk) = card_location(b.columns, card_id).unwrap();
    let tj = column_index(b.columns, target_column_id).unwrap();
    let card = b.columns[si].cards[sk];
    let clamped = min_int(target_index as int, b.columns[tj].cards.len() as int);
    let wanted = if si == tj && sk < clamped {
        clamped - 1
    } else {
        clamped
    };
    let mc = CardView { column_id: target_column_id, updated_at: now, ..card };
    let removed = remove_card_at(b.columns, si, sk);
    let at = min_int(wanted, removed[tj].cards.len() as int);
    let ins = insert_card_at(removed, tj, at, mc);
    let moved = move_card_spec(b, card_id, target_column_id, target_index, now).0;
    assert(moved.columns == reindex_columns(ins));
    let undone = undo_spec(moved, later).0;
    let restored = CardView { updated_at: now, ..card };
    let u = undone.columns;
    assert(u == set_card_at(b.columns, si, sk, restored));
    let op = moved.undo_stack.last();
    assert(undone.redo_stack.last() == op);
    let popped = BoardState { redo_stack: undone.redo_stack.drop_last(), ..undone };
    assert(popped.redo_stack.len() == 0);
    // The card stands once in the board as undone.
    assert forall|c2: int, k2: int|
        0 <= c2 < u.len() && 0 <= k2 < u[c2].cards.len() && (c2 != si || k2 != sk) implies #[trigger] u[c2].cards[k2].id
        != card_id by {
        assert(u[c2].cards[k2] == b.columns[c2].cards[k2]);
    }
    lemma_card_location_unique(u, card_id, si, sk);
    assert(remove_card_at(u, si, sk) =~= removed) by {
        assert(remove_card_at(u, si, sk)[si].cards =~= removed[si].cards);
    }
    let removed2 = reindex_columns(removed);
    lemma_reindex_keeps_column_ids(removed);
    assert forall|c2: int| 0 <= c2 < removed2.len() && c2 != tj implies #[trigger] removed2[c2].id
        != target_column_id by {
        assert(removed2[c2].id == b.columns[c2].id);
        if c2 < tj {
        } else {
            assert(b.columns[tj].id != b.columns[c2].id);
        }
    }
    lemma_column_index_unique(removed2, target_column_id, tj);
    assert((at as usize) as int == at);
    let taken = u[si].cards[sk];
    let back = CardView { archived_at: None, ..CardView { column_id: target_column_id, ..taken } };
    // Putting it where the move put it.
    lemma_reindex_idempotent(removed);
    lemma_insert_alike(removed2, removed, tj, at, back);
    assert(card.archived_at is None);
    assert(reindex_card(back, b.columns[tj].id, at) == reindex_card(mc, b.columns[tj].id, at));
    assert(reindex_columns(insert_card_at(removed, tj, at, back)) == reindex_columns(ins)) by {
        let la = reindex_columns(insert_card_at(removed, tj, at, back));
        let lb = reindex_columns(ins);
        assert forall|j: int| 0 <= j < removed.len() implies #[trigger] la[j] == lb[j] by {
            assert(la[j].cards =~= lb[j].cards);
        }
        assert(la =~= lb);
    }
    assert(popped.undo_stack.push(op) =~= moved.undo_stack);
}

} // verus!

verus! {

/// Setting a card's due date and then undoing it gives back the due date it had; only the
/// card's updated time differs from before.
pub proof fn law_undo_set_card_due_date(
    b: BoardState,
    card_id: CardId,
    due_date: Option<DueDate>,
    now: i64,
    later: i64,
)
    requires
        well_formed(b),
        set_card_due_date_spec(b, card_id, due_date, now).1 == Ok::<
            bool,
            crate::model::types::BoardError,
        >(true),
    ensures
        ({
            let set = set_card_due_date_spec(b, card_id, due_date, now).0;
            let (undone, r) = undo_spec(set, later);
            let (c, k) = card_location(b.columns, card_id).unwrap();
            &&& r == Ok::<bool, crate::model::types::BoardError>(true)
            &&& undone.columns == set_card_at(
                b.columns,
                c,
                k,
                CardView { updated_at: later, ..b.columns[c].cards[k] },
            )
            &&& undone.tags == b.tags
            &&& undone.archived_cards == b.archived_cards
            &&& undone.undo_stack == b.undo_stack
        }),
{
    lemma_card_location(b.columns, card_id);
    let (c, k) = card_location(b.columns, card_id).unwrap();
    let set = set_card_due_date_spec(b, card_id, due_date, now).0;
    let popped = BoardState { undo_stack: set.undo_stack.drop_last(), ..set };
    assert(popped.undo_stack =~= b.undo_stack);
    assert forall|c2: int, k2: int|
        0 <= c2 < popped.columns.len() && 0 <= k2 < popped.columns[c2].cards.len() && (c2 != c || k2
            != k) implies #[trigger] popped.columns[c2].cards[k2].id != card_id by {
        assert(popped.columns[c2].cards[k2].id == b.columns[c2].cards[k2].id);
    }
    lemma_card_location_unique(popped.columns, card_id, c, k);
    let expected = set_card_at(b.columns, c, k, CardView { updated_at: later, ..b.columns[c].cards[k] });
    let got = undo_spec(set, later).0.columns;
    assert(got[c].cards =~= expected[c].cards);
    assert(got =~= expected);
}

/// Copying a card and then undoing it gives back the columns exactly; the copy's number
/// stays used.
pub proof fn law_undo_copy_card(b: BoardState, card_id: CardId, now: i64, later: i64)
    requires
        well_formed(b),
        b.next_card_id < i64::MAX,
        copy_card_spec(b, card_id, now).1 is Ok,
    ensures
        ({
            let copied = copy_card_spec(b, card_id, now).0;
            let (undone, r) = undo_spec(copied, later);
            &&& r == Ok::<bool, crate::model::types::BoardError>(true)
            &&& undone.columns == b.columns
            &&& undone.tags == b.tags
            &&& undone.archived_cards == b.archived_cards
            &&& undone.undo_stack == b.undo_stack
            &&& undone.next_card_id == b.next_card_id + 1
        }),
{
    lemma_card_location(b.columns, card_id);
    let (c, k) = card_location(b.columns, card_id).unwrap();
    let copied = copy_card_spec(b, card_id, now).0;
    let copy = copied.undo_stack.last()->CopyCard_card;
    let ins = insert_card_at(b.columns, c, k + 1, copy);
    let m = reindex_columns(ins);
    assert(copied.columns == m);
    assert(copy.id == b.next_card_id);
    let popped = BoardState { undo_stack: copied.undo_stack.drop_last(), ..copied };
    assert(popped.undo_stack =~= b.undo_stack);
    // The copy stands once, after its source.
    assert forall|c2: int, k2: int|
        0 <= c2 < m.len() && 0 <= k2 < m[c2].cards.len() && (c2 != c || k2 != k + 1) implies #[trigger] m[c2].cards[k2].id
        != copy.id by {
        assert(m[c2].cards[k2].id == ins[c2].cards[k2].id);
        if c2 == c && k2 > k + 1 {
            assert(ins[c2].cards[k2] == b.columns[c].cards[k2 - 1]);
        } else {
            assert(ins[c2].cards[k2] == b.columns[c2].cards[k2]);
        }
    }
    lemma_card_location_unique(m, copy.id, c, k + 1);
    lemma_reindex_idempotent(ins);
    lemma_remove_alike(m, ins, c, k + 1);
    lemma_remove_inserted(b.columns, c, k + 1, copy);
}

} // verus!

verus! {

/// Renaming a column and then undoing it gives back its name; only the column's updated
/// time differs from before.
pub proof fn law_undo_rename_column(
    b: BoardState,
    column_id: ColumnId,
    name: Seq<char>,
    now: i64,
    later: i64,
)
    requires
        well_formed(b),
        rename_column_spec(b, column_id, name, now).1 == Ok::<
            bool,
            crate::model::types::BoardError,
        >(true),
    ensures
        ({
            let renamed = rename_column_spec(b, column_id, name, now).0;
            let (undone, r) = undo_spec(renamed, later);
            let c = column_index(b.columns, column_id).unwrap();
            &&& r == Ok::<bool, crate::model::types::BoardError>(true)
            &&& undone.columns == b.columns.update(c, ColumnView { updated_at: later, ..b.columns[c] })
            &&& undone.tags == b.tags
            &&& undone.archived_cards == b.archived_cards
            &&& undone.undo_stack == b.undo_stack
        }),
{
    lemma_column_index(b.columns, column_id);
    let c = column_index(b.columns, column_id).unwrap();
    let renamed = rename_column_spec(b, column_id, name, now).0;
    let popped = BoardState { undo_stack: renamed.undo_stack.drop_last(), ..renamed };
    assert(popped.undo_stack =~= b.undo_stack);
    assert forall|c2: int| 0 <= c2 < popped.columns.len() && c2 != c implies #[trigger] popped.columns[c2].id
        != column_id by {
        if c2 < c {
        } else {
            assert(b.columns[c].id != b.columns[c2].id);
        }
    }
    lemma_column_index_unique(popped.columns, column_id, c);
    assert(undo_spec(renamed, later).0.columns =~= b.columns.update(
        c,
        ColumnView { updated_at: later, ..b.columns[c] },
    ));
}

/// Setting a column's WIP limit and then undoing it gives back the limit it had; only the
/// column's updated time differs from before.
pub proof fn law_undo_set_column_wip_limit(
    b: BoardState,
    column_id: ColumnId,
    wip_limit: Option<i64>,
    now: i64,
    later: i64,
)
    requires
        well_formed(b),
        set_column_wip_limit_spec(b, column_id, wip_limit, now).1 == Ok::<
            bool,
            crate::model::types::BoardError,
        >(true),
    ensures
        ({
            let limited = set_column_wip_limit_spec(b, column_id, wip_limit, now).0;
            let (undone, r) = undo_spec(limited, later);
            let c = column_index(b.columns, column_id).unwrap();
            &&& r == Ok::<bool, crate::model::types::BoardError>(true)
            &&& undone.columns == b.columns.update(c, ColumnView { updated_at: later, ..b.columns[c] })
            &&& undone.tags == b.tags
            &&& undone.archived_cards == b.archived_cards
            &&& undone.undo_stack == b.undo_stack
        }),
{
    lemma_column_index(b.columns, column_id);
    let c = column_index(b.columns, column_id).unwrap();
    let limited = set_column_wip_limit_spec(b, column_id, wip_limit, now).0;
    let popped = BoardState { undo_stack: limited.undo_stack.drop_last(), ..limited };
    assert(popped.undo_stack =~= b.undo_stack);
    assert forall|c2: int| 0 <= c2 < popped.columns.len() && c2 != c implies #[trigger] popped.columns[c2].id
        != column_id by {
        if c2 < c {
        } else {
            assert(b.columns[c].id != b.columns[c2].id);
        }
    }
    lemma_column_index_unique(popped.columns, column_id, c);
    assert(undo_spec(limited, later).0.columns =~= b.columns.update(
        c,
        ColumnView { updated_at: later, ..b.columns[c] },
    ));
}

/// Adding a column to a board that has one and then undoing it gives back the columns
/// exactly; the column's number stays used.
pub proof fn law_undo_add_column(b: BoardState, name: Seq<char>, now: i64, later: i64)
    requires
        well_formed(b),
        b.columns.len() > 0,
        b.next_column_id < i64::MAX,
        add_column_spec(b, name, now).1 is Ok,
    ensures
        ({
            let added = add_column_spec(b, name, now).0;
            let (undone, r) = undo_spec(added, later);
            &&& r == Ok::<bool, crate::model::types::BoardError>(true)
            &&& undone.columns == b.columns
            &&& undone.tags == b.tags
            &&& undone.archived_cards == b.archived_cards
            &&& undone.undo_stack == b.undo_stack
            &&& undone.next_column_id == b.next_column_id + 1
        }),
{
    let added = add_column_spec(b, name, now).0;
    let len = b.columns.len() as int;
    let column = added.columns[len];
    let popped = BoardState { undo_stack: added.undo_stack.drop_last(), ..added };
    assert(popped.undo_stack =~= b.undo_stack);
    assert forall|c2: int| 0 <= c2 < added.columns.len() && c2 != len implies #[trigger] added.columns[c2].id
        != column.id by {
        assert(added.columns[c2] == b.columns[c2]);
    }
    lemma_column_index_unique(added.columns, column.id, len);
    assert(added.columns.remove(len) =~= b.columns);
}

} // verus!

verus! {

/// Setting a card's tags and then undoing it gives back the tags it had; only the card's
/// updated time differs from before.
pub proof fn law_undo_set_card_tags(
    b: BoardState,
    card_id: CardId,
    tag_ids: Seq<TagId>,
    now: i64,
    later: i64,
)
    requires
        well_formed(b),
        set_card_tags_spec(b, card_id, tag_ids, now).1 == Ok::<
            bool,
            crate::model::types::BoardError,
        >(true),
    ensures
        ({
            let tagged = set_card_tags_spec(b, card_id, tag_ids, now).0;
            let (undone, r) = undo_spec(tagged, later);
            let (c, k) = card_location(b.columns, card_id).unwrap();
            &&& r == Ok::<bool, crate::model::types::BoardError>(true)
            &&& undone.columns == set_card_at(
                b.columns,
                c,
                k,
                CardView { updated_at: later, ..b.columns[c].cards[k] },
            )
            &&& undone.tags == b.tags
            &&& undone.archived_cards == b.archived_cards
            &&& undone.undo_stack == b.undo_stack
        }),
{
    lemma_card_location(b.columns, card_id);
    let (c, k) = card_location(b.columns, card_id).unwrap();
    let tagged = set_card_tags_spec(b, card_id, tag_ids, now).0;
    let popped = BoardState { undo_stack: tagged.undo_stack.drop_last(), ..tagged };
    assert(popped.undo_stack =~= b.undo_stack);
    assert forall|c2: int, k2: int|
        0 <= c2 < popped.columns.len() && 0 <= k2 < popped.columns[c2].cards.len() && (c2 != c || k2
            != k) implies #[trigger] popped.columns[c2].cards[k2].id != card_id by {
        assert(popped.columns[c2].cards[k2].id == b.columns[c2].cards[k2].id);
    }
    lemma_card_location_unique(popped.columns, card_id, c, k);
    let expected = set_card_at(b.columns, c, k, CardView { updated_at: later, ..b.columns[c].cards[k] });
    let got = undo_spec(tagged, later).0.columns;
    assert(got[c].cards =~= expected[c].cards);
    assert(got =~= expected);
}

} // verus!

verus! {

/// Restoring an archived card and then undoing it gives back the columns and the archive
/// exactly.
pub proof fn law_undo_restore_card(b: BoardState, card_id: CardId, now: i64, later: i64)
    requires
        well_formed(b),
        restore_card_spec(b, card_id, now).1 is Ok,
    ensures
        ({
            let restored = restore_card_spec(b, card_id, now).0;
            let (undone, r) = undo_spec(restored, later);
            &&& r == Ok::<bool, crate::model::types::BoardError>(true)
            &&& undone.columns == b.columns
            &&& undone.tags == b.tags
            &&& undone.archived_cards == b.archived_cards
            &&& undone.undo_stack == b.undo_stack
        }),
{
    lemma_card_index(b.archived_cards, card_id);
    let ai = card_index(b.archived_cards, card_id).unwrap();
    let archived = b.archived_cards[ai];
    lemma_column_index(b.columns, archived.column_id);
    let c = restore_target(b, archived).unwrap();
    let len = b.columns[c].cards.len() as int;
    let restored = restore_card_spec(b, card_id, now).0;
    let card = restored.undo_stack.last()->RestoreCard_restored_card;
    assert(b.columns[c].cards.push(card) =~= b.columns[c].cards.insert(len, card));
    let ins = insert_card_at(b.columns, c, len, card);
    let m = reindex_columns(ins);
    assert(restored.columns == m);
    let popped = BoardState { undo_stack: restored.undo_stack.drop_last(), ..restored };
    assert(popped.undo_stack =~= b.undo_stack);
    // The restored card stands once among the active cards.
    assert forall|c2: int, k2: int|
        0 <= c2 < m.len() && 0 <= k2 < m[c2].cards.len() && (c2 != c || k2 != len) implies #[trigger] m[c2].cards[k2].id
        != card_id by {
        assert(m[c2].cards[k2].id == ins[c2].cards[k2].id);
        assert(ins[c2].cards[k2] == b.columns[c2].cards[k2]);
        assert(b.columns[c2].cards[k2].id != b.archived_cards[ai].id);
    }
    lemma_card_location_unique(m, card_id, c, len);
    lemma_reindex_idempotent(ins);
    lemma_remove_alike(m, ins, c, len);
    lemma_remove_inserted(b.columns, c, len, card);
    assert(b.archived_cards.remove(ai).insert(ai, archived) =~= b.archived_cards);
}

} // verus!

verus! {

/// In a board whose cards are numbered apart, the card set at the place of card `card_id`
/// with the same number is found there.
pub proof fn lemma_location_after_set(b: BoardState, c: int, k: int, card: CardView)
    requires
        cards_numbered(b),
        0 <= c < b.columns.len(),
        0 <= k < b.columns[c].cards.len(),
        card.id == b.columns[c].cards[k].id,
    ensures
        card_location(set_card_at(b.columns, c, k, card), card.id) == Some((c, k)),
{
    let cols = set_card_at(b.columns, c, k, card);
    assert forall|c2: int, k2: int|
        0 <= c2 < cols.len() && 0 <= k2 < cols[c2].cards.len() && (c2 != c || k2 != k) implies #[trigger] cols[c2].cards[k2].id
        != card.id by {
        assert(cols[c2].cards[k2] == b.columns[c2].cards[k2]);
    }
    lemma_card_location_unique(cols, card.id, c, k);
}

/// Setting the same place twice keeps the second card.
pub proof fn lemma_set_twice(cols: Seq<ColumnView>, c: int, k: int, x: CardView, y: CardView)
    requires
        0 <= c < cols.len(),
        0 <= k < cols[c].cards.len(),
    ensures
        set_card_at(set_card_at(cols, c, k, x), c, k, y) == set_card_at(cols, c, k, y),
{
    assert(set_card_at(set_card_at(cols, c, k, x), c, k, y)[c].cards =~= set_card_at(cols, c, k, y)[c].cards);
    assert(set_card_at(set_card_at(cols, c, k, x), c, k, y) =~= set_card_at(cols, c, k, y));
}

/// Saving the card editor and then undoing it gives back the title, description, due
/// date, tags and checklist the card had, all at once; only the card's updated time differs
/// from before.
pub proof fn law_undo_update_card_details(
    b: BoardState,
    card_id: CardId,
    title: Seq<char>,
    description: Seq<char>,
    due_date: Option<DueDate>,
    tag_ids: Seq<TagId>,
    drafts: Seq<DraftView>,
    now: i64,
    later: i64,
)
    requires
        well_formed(b),
        update_card_details_spec(b, card_id, title, description, due_date, tag_ids, drafts, now).1
            == Ok::<bool, crate::model::types::BoardError>(true),
    ensures
        ({
            let saved = update_card_details_spec(
                b,
                card_id,
                title,
                description,
                due_date,
                tag_ids,
                drafts,
                now,
            ).0;
            let (undone, r) = undo_spec(saved, later);
            let (c, k) = card_location(b.columns, card_id).unwrap();
            &&& r == Ok::<bool, crate::model::types::BoardError>(true)
            &&& undone.columns == set_card_at(
                b.columns,
                c,
                k,
                CardView { updated_at: later, ..b.columns[c].cards[k] },
            )
            &&& undone.tags == b.tags
            &&& undone.archived_cards == b.archived_cards
            &&& undone.undo_stack == b.undo_stack
        }),
{
    lemma_card_location(b.columns, card_id);
    let (c, k) = card_location(b.columns, card_id).unwrap();
    let card = b.columns[c].cards[k];
    let saved = update_card_details_spec(b, card_id, title, description, due_date, tag_ids, drafts, now).0;
    let popped = BoardState { undo_stack: saved.undo_stack.drop_last(), ..saved };
    assert(popped.undo_stack =~= b.undo_stack);
    let edited = saved.columns[c].cards[k];
    assert(saved.columns == set_card_at(b.columns, c, k, edited));
    // Each step of the undo finds the card where it stands and sets it again.
    let s1 = CardView { title: card.title, description: card.description, updated_at: later, ..edited };
    let s2 = CardView { due_date: card.due_date, ..s1 };
    let s3 = CardView { tag_ids: card.tag_ids, ..s2 };
    let s4 = CardView { checklist_items: reindex_items(card.id, card.checklist_items), ..s3 };
    lemma_location_after_set(b, c, k, edited);
    lemma_set_twice(b.columns, c, k, edited, s1);
    lemma_location_after_set(b, c, k, s1);
    lemma_set_twice(b.columns, c, k, s1, s2);
    lemma_location_after_set(b, c, k, s2);
    lemma_set_twice(b.columns, c, k, s2, s3);
    lemma_location_after_set(b, c, k, s3);
    lemma_set_twice(b.columns, c, k, s3, s4);
    // The checklist in order is the checklist it had.
    assert(reindex_columns(b.columns)[c].cards[k] == reindex_card(card, b.columns[c].id, k));
    assert(reindex_items(card.id, card.checklist_items) == card.checklist_items);
    assert(s4 == CardView { updated_at: later, ..card });
}

} // verus!

verus! {

/// After item `i` of a checklist is replaced by one with the same number, that number is
/// still first found at `i`.
pub proof fn lemma_item_index_after_update(
    items: Seq<ChecklistItemView>,
    item_id: ChecklistItemId,
    i: int,
    item: ChecklistItemView,
)
    requires
        item_index(items, item_id) == Some(i),
        item.id == item_id,
    ensures
        item_index(items.update(i, item), item_id) == Some(i),
{
    lemma_item_index(items, item_id, 0);
    lemma_item_index(items.update(i, item), item_id, 0);
    let updated = items.update(i, item);
    assert forall|j: int| 0 <= j < i implies (#[trigger] updated[j]).id != item_id by {
        assert(updated[j] == items[j]);
    }
    assert(updated[i].id == item_id);
    let found = item_index(updated, item_id);
    if found is Some && found->0 < i {
        assert(updated[found->0] == items[found->0]);
    }
}

/// Editing the text of a checklist item and then undoing it gives back the text; the
/// item's updated time is that of the undo, and the card's that of the edit.
pub proof fn law_undo_update_checklist_item(
    b: BoardState,
    card_id: CardId,
    item_id: ChecklistItemId,
    text: Seq<char>,
    now: i64,
    later: i64,
)
    requires
        well_formed(b),
        update_checklist_item_spec(b, card_id, item_id, text, now).1 == Ok::<
            bool,
            crate::model::types::BoardError,
        >(true),
    ensures
        ({
            let edited = update_checklist_item_spec(b, card_id, item_id, text, now).0;
            let (undone, r) = undo_spec(edited, later);
            let (c, k) = card_location(b.columns, card_id).unwrap();
            let card = b.columns[c].cards[k];
            let i = item_index(card.checklist_items, item_id).unwrap();
            &&& r == Ok::<bool, crate::model::types::BoardError>(true)
            &&& undone.columns == set_card_at(
                b.columns,
                c,
                k,
                CardView {
                    checklist_items: card.checklist_items.update(
                        i,
                        ChecklistItemView { updated_at: later, ..card.checklist_items[i] },
                    ),
                    updated_at: now,
                    ..card
                },
            )
            &&& undone.tags == b.tags
            &&& undone.archived_cards == b.archived_cards
            &&& undone.undo_stack == b.undo_stack
        }),
{
    lemma_card_location(b.columns, card_id);
    let (c, k) = card_location(b.columns, card_id).unwrap();
    let card = b.columns[c].cards[k];
    lemma_item_index(card.checklist_items, item_id, 0);
    let i = item_index(card.checklist_items, item_id).unwrap();
    let item = card.checklist_items[i];
    let changed = ChecklistItemView { text: text, updated_at: now, ..item };
    let edited_card = CardView {
        checklist_items: card.checklist_items.update(i, changed),
        updated_at: now,
        ..card
    };
    let edited = update_checklist_item_spec(b, card_id, item_id, text, now).0;
    assert(edited.columns == set_card_at(b.columns, c, k, edited_card));
    let popped = BoardState { undo_stack: edited.undo_stack.drop_last(), ..edited };
    assert(popped.undo_stack =~= b.undo_stack);
    lemma_location_after_set(b, c, k, edited_card);
    lemma_item_index_after_update(card.checklist_items, item_id, i, changed);
    let back = ChecklistItemView { text: item.text, updated_at: later, ..changed };
    assert(card.checklist_items.update(i, changed).update(i, back) =~= card.checklist_items.update(
        i,
        ChecklistItemView { updated_at: later, ..item },
    ));
    lemma_set_twice(
        b.columns,
        c,
        k,
        edited_card,
        CardView { checklist_items: card.checklist_items.update(i, changed).update(i, back), ..edited_card },
    );
}

/// Checking or unchecking a checklist item and then undoing it gives back its state; the
/// item's updated time is that of the undo, and the card's that of the edit.
pub proof fn law_undo_set_checklist_item_checked(
    b: BoardState,
    card_id: CardId,
    item_id: ChecklistItemId,
    checked: bool,
    now: i64,
    later: i64,
)
    requires
        well_formed(b),
        set_checklist_item_checked_spec(b, card_id, item_id, checked, now).1 == Ok::<
            bool,
            crate::model::types::BoardError,
        >(true),
    ensures
        ({
            let edited = set_checklist_item_checked_spec(b, card_id, item_id, checked, now).0;
            let (undone, r) = undo_spec(edited, later);
            let (c, k) = card_location(b.columns, card_id).unwrap();
            let card = b.columns[c].cards[k];
            let i = item_index(card.checklist_items, item_id).unwrap();
            &&& r == Ok::<bool, crate::model::types::BoardError>(true)
            &&& undone.columns == set_card_at(
                b.columns,
                c,
                k,
                CardView {
                    checklist_items: card.checklist_items.update(
                        i,
                        ChecklistItemView { updated_at: later, ..card.checklist_items[i] },
                    ),
                    updated_at: now,
                    ..card
                },
            )
            &&& undone.tags == b.tags
            &&& undone.archived_cards == b.archived_cards
            &&& undone.undo_stack == b.undo_stack
        }),
{
    lemma_card_location(b.columns, card_id);
    let (c, k) = card_location(b.columns, card_id).unwrap();
    let card = b.columns[c].cards[k];
    lemma_item_index(card.checklist_items, item_id, 0);
    let i = item_index(card.checklist_items, item_id).unwrap();
    let item = card.checklist_items[i];
    let changed = ChecklistItemView { checked: checked, updated_at: now, ..item };
    let edited_card = CardView {
        checklist_items: card.checklist_items.update(i, changed),
        updated_at: now,
        ..card
    };
    let edited = set_checklist_item_checked_spec(b, card_id, item_id, checked, now).0;
    assert(edited.columns == set_card_at(b.columns, c, k, edited_card));
    let popped = BoardState { undo_stack: edited.undo_stack.drop_last(), ..edited };
    assert(popped.undo_stack =~= b.undo_stack);
    lemma_location_after_set(b, c, k, edited_card);
    lemma_item_index_after_update(card.checklist_items, item_id, i, changed);
    let back = ChecklistItemView { checked: item.checked, updated_at: later, ..changed };
    assert(card.checklist_items.update(i, changed).update(i, back) =~= card.checklist_items.update(
        i,
        ChecklistItemView { updated_at: later, ..item },
    ));
    lemma_set_twice(
        b.columns,
        c,
        k,
        edited_card,
        CardView { checklist_items: card.checklist_items.update(i, changed).update(i, back), ..edited_card },
    );
}

} // verus!

verus! {

/// After tag `t` is replaced by one with the same number, that number is still first found
/// at `t`.
pub proof fn lemma_tag_index_after_update(tags: Seq<TagView>, tag_id: TagId, t: int, tag: TagView)
    requires
        tag_index(tags, tag_id) == Some(t),
        tag.id == tag_id,
    ensures
        tag_index(tags.update(t, tag), tag_id) == Some(t),
{
    lemma_tag_index(tags, tag_id, 0);
    lemma_tag_index(tags.update(t, tag), tag_id, 0);
    let updated = tags.update(t, tag);
    assert(updated[t].id == tag_id);
    let found = tag_index(updated, tag_id);
    if found is Some && found->0 < t {
        assert(updated[found->0] == tags[found->0]);
    }
}

/// Renaming a tag and then undoing it gives back its name; only the tag's updated time
/// differs from before. The cards are not touched.
pub proof fn law_undo_rename_tag(
    b: BoardState,
    tag_id: TagId,
    name: Seq<char>,
    now: i64,
    later: i64,
)
    requires
        rename_tag_spec(b, tag_id, name, now).1 == Ok::<bool, crate::model::types::BoardError>(true),
    ensures
        ({
            let renamed = rename_tag_spec(b, tag_id, name, now).0;
            let (undone, r) = undo_spec(renamed, later);
            let t = tag_index(b.tags, tag_id).unwrap();
            &&& r == Ok::<bool, crate::model::types::BoardError>(true)
            &&& undone.tags == b.tags.update(t, TagView { updated_at: later, ..b.tags[t] })
            &&& undone.columns == b.columns
            &&& undone.archived_cards == b.archived_cards
            &&& undone.undo_stack == b.undo_stack
        }),
{
    lemma_tag_index(b.tags, tag_id, 0);
    let t = tag_index(b.tags, tag_id).unwrap();
    let changed = TagView { name: name, updated_at: now, ..b.tags[t] };
    let renamed = rename_tag_spec(b, tag_id, name, now).0;
    assert(renamed.tags == b.tags.update(t, changed));
    let popped = BoardState { undo_stack: renamed.undo_stack.drop_last(), ..renamed };
    assert(popped.undo_stack =~= b.undo_stack);
    lemma_tag_index_after_update(b.tags, tag_id, t, changed);
    assert(b.tags.update(t, changed).update(t, TagView { name: b.tags[t].name, updated_at: later, ..changed })
        =~= b.tags.update(t, TagView { updated_at: later, ..b.tags[t] }));
}

/// Setting a tag's colour and then undoing it gives back its colour; only the tag's
/// updated time differs from before.
pub proof fn law_undo_set_tag_color(
    b: BoardState,
    tag_id: TagId,
    color: Seq<char>,
    now: i64,
    later: i64,
)
    requires
        set_tag_color_spec(b, tag_id, color, now).1 == Ok::<bool, crate::model::types::BoardError>(true),
    ensures
        ({
            let recolored = set_tag_color_spec(b, tag_id, color, now).0;
            let (undone, r) = undo_spec(recolored, later);
            let t = tag_index(b.tags, tag_id).unwrap();
            &&& r == Ok::<bool, crate::model::types::BoardError>(true)
            &&& undone.tags == b.tags.update(t, TagView { updated_at: later, ..b.tags[t] })
            &&& undone.columns == b.columns
            &&& undone.archived_cards == b.archived_cards
            &&& undone.undo_stack == b.undo_stack
        }),
{
    lemma_tag_index(b.tags, tag_id, 0);
    let t = tag_index(b.tags, tag_id).unwrap();
    let changed = TagView { color: color, updated_at: now, ..b.tags[t] };
    let recolored = set_tag_color_spec(b, tag_id, color, now).0;
    assert(recolored.tags == b.tags.update(t, changed));
    let popped = BoardState { undo_stack: recolored.undo_stack.drop_last(), ..recolored };
    assert(popped.undo_stack =~= b.undo_stack);
    lemma_tag_index_after_update(b.tags, tag_id, t, changed);
    assert(b.tags.update(t, changed).update(t, TagView { color: b.tags[t].color, updated_at: later, ..changed })
        =~= b.tags.update(t, TagView { updated_at: later, ..b.tags[t] }));
}

} // verus!

verus! {

/// Every active card's checklist has a count that a board in memory can have.
pub open spec fn checklists_sized(b: BoardState) -> bool {
    forall|c: int, k: int|
        0 <= c < b.columns.len() && 0 <= k < b.columns[c].cards.len() ==> (
        #[trigger] b.columns[c].cards[k]).checklist_items.len() <= usize::MAX
}

/// A checklist item without its place and owner.
pub open spec fn item_core(x: ChecklistItemView) -> ChecklistItemView {
    ChecklistItemView { card_id: 0, position: 0, ..x }
}

/// Checklists that agree but for places and owners are alike once put in order.
pub open spec fn items_alike(x: Seq<ChecklistItemView>, y: Seq<ChecklistItemView>) -> bool {
    &&& x.len() == y.len()
    &&& forall|j: int| 0 <= j < x.len() ==> item_core(#[trigger] x[j]) == item_core(y[j])
}

proof fn lemma_items_alike(id: CardId, x: Seq<ChecklistItemView>, y: Seq<ChecklistItemView>)
    requires
        items_alike(x, y),
    ensures
        reindex_items(id, x) == reindex_items(id, y),
{
    assert forall|j: int| 0 <= j < x.len() implies #[trigger] reindex_items(id, x)[j] == reindex_items(
        id,
        y,
    )[j] by {
        let a = item_core(x[j]);
        let b = item_core(y[j]);
        assert(a == b);
        assert(a.id == x[j].id && a.text == x[j].text && a.checked == x[j].checked);
    }
    assert(reindex_items(id, x) =~= reindex_items(id, y));
}

/// Deleting a checklist item and then undoing it puts the item back where it stood; only
/// the card's updated time keeps the time of the delete.
pub proof fn law_undo_delete_checklist_item(
    b: BoardState,
    card_id: CardId,
    item_id: ChecklistItemId,
    now: i64,
    later: i64,
)
    requires
        well_formed(b),
        checklists_sized(b),
        delete_checklist_item_spec(b, card_id, item_id, now).1 is Ok,
    ensures
        ({
            let deleted = delete_checklist_item_spec(b, card_id, item_id, now).0;
            let (undone, r) = undo_spec(deleted, later);
            let (c, k) = card_location(b.columns, card_id).unwrap();
            &&& r == Ok::<bool, crate::model::types::BoardError>(true)
            &&& undone.columns == set_card_at(
                b.columns,
                c,
                k,
                CardView { updated_at: now, ..b.columns[c].cards[k] },
            )
            &&& undone.tags == b.tags
            &&& undone.archived_cards == b.archived_cards
            &&& undone.undo_stack == b.undo_stack
        }),
{
    lemma_card_location(b.columns, card_id);
    let (c, k) = card_location(b.columns, card_id).unwrap();
    let card = b.columns[c].cards[k];
    let items = card.checklist_items;
    lemma_item_index(items, item_id, 0);
    let i = item_index(items, item_id).unwrap();
    let edited = CardView { checklist_items: reindex_items(card.id, items.remove(i)), updated_at: now, ..card };
    let deleted = delete_checklist_item_spec(b, card_id, item_id, now).0;
    assert(deleted.columns == set_card_at(b.columns, c, k, edited));
    let popped = BoardState { undo_stack: deleted.undo_stack.drop_last(), ..deleted };
    assert(popped.undo_stack =~= b.undo_stack);
    assert((i as usize) as int == i);
    lemma_location_after_set(b, c, k, edited);
    // The checklist as it was is in order, and the item belongs to the card.
    assert(reindex_columns(b.columns)[c].cards[k] == reindex_card(card, b.columns[c].id, k));
    assert(reindex_items(card.id, items) == items);
    assert(items[i].card_id == card_id);
    let back = reindex_items(card.id, reindex_items(card.id, items.remove(i)).insert(i, items[i]));
    assert(items_alike(reindex_items(card.id, items.remove(i)).insert(i, items[i]), items)) by {
        let x = reindex_items(card.id, items.remove(i)).insert(i, items[i]);
        assert forall|j: int| 0 <= j < x.len() implies item_core(#[trigger] x[j]) == item_core(items[j]) by {
            if j > i {
                assert(x[j] == reindex_items(card.id, items.remove(i))[j - 1]);
                assert(items.remove(i)[j - 1] == items[j]);
            } else if j < i {
                assert(items.remove(i)[j] == items[j]);
            }
        }
    }
    lemma_items_alike(card.id, reindex_items(card.id, items.remove(i)).insert(i, items[i]), items);
    assert(back == items);
    lemma_set_twice(b.columns, c, k, edited, CardView { checklist_items: back, ..edited });
}

} // verus!

verus! {

proof fn lemma_items_alike_reindexed(id: CardId, x: Seq<ChecklistItemView>)
    ensures
        items_alike(reindex_items(id, x), x),
{
}

proof fn lemma_items_alike_remove(x: Seq<ChecklistItemView>, y: Seq<ChecklistItemView>, p: int)
    requires
        items_alike(x, y),
        0 <= p < x.len(),
    ensures
        items_alike(x.remove(p), y.remove(p)),
{
    assert forall|j: int| 0 <= j < x.len() - 1 implies item_core(#[trigger] x.remove(p)[j]) == item_core(y.remove(p)[j]) by {
        if j >= p {
            assert(x.remove(p)[j] == x[j + 1] && y.remove(p)[j] == y[j + 1]);
        } else {
            assert(x.remove(p)[j] == x[j] && y.remove(p)[j] == y[j]);
        }
    }
}

proof fn lemma_items_alike_insert(
    x: Seq<ChecklistItemView>,
    y: Seq<ChecklistItemView>,
    p: int,
    a: ChecklistItemView,
    b: ChecklistItemView,
)
    requires
        items_alike(x, y),
        0 <= p <= x.len(),
        item_core(a) == item_core(b),
    ensures
        items_alike(x.insert(p, a), y.insert(p, b)),
{
    assert forall|j: int| 0 <= j < x.len() + 1 implies item_core(#[trigger] x.insert(p, a)[j]) == item_core(y.insert(p, b)[j]) by {
        if j > p {
            assert(x.insert(p, a)[j] == x[j - 1] && y.insert(p, b)[j] == y[j - 1]);
        } else if j < p {
            assert(x.insert(p, a)[j] == x[j] && y.insert(p, b)[j] == y[j]);
        }
    }
}

/// Moving a checklist item and then undoing it puts the checklist back in the order it
/// had; only the card's updated time keeps the time of the move.
pub proof fn law_undo_move_checklist_item(
    b: BoardState,
    card_id: CardId,
    item_id: ChecklistItemId,
    target_index: usize,
    now: i64,
    later: i64,
)
    requires
        well_formed(b),
        checklists_sized(b),
        move_checklist_item_spec(b, card_id, item_id, target_index, now).1 == Ok::<
            bool,
            crate::model::types::BoardError,
        >(true),
    ensures
        ({
            let moved = move_checklist_item_spec(b, card_id, item_id, target_index, now).0;
            let (undone, r) = undo_spec(moved, later);
            let (c, k) = card_location(b.columns, card_id).unwrap();
            &&& r == Ok::<bool, crate::model::types::BoardError>(true)
            &&& undone.columns == set_card_at(
                b.columns,
                c,
                k,
                CardView { updated_at: now, ..b.columns[c].cards[k] },
            )
            &&& undone.tags == b.tags
            &&& undone.archived_cards == b.archived_cards
            &&& undone.undo_stack == b.undo_stack
        }),
{
    lemma_card_location(b.columns, card_id);
    let (c, k) = card_location(b.columns, card_id).unwrap();
    let card = b.columns[c].cards[k];
    let items = card.checklist_items;
    lemma_item_index(items, item_id, 0);
    let i = item_index(items, item_id).unwrap();
    let clamped = min_int(target_index as int, items.len() as int);
    let to = if i < clamped {
        clamped - 1
    } else {
        clamped
    };
    let m = items.remove(i).insert(to, items[i]);
    let e = reindex_items(card.id, m);
    let edited = CardView { checklist_items: e, updated_at: now, ..card };
    let moved = move_checklist_item_spec(b, card_id, item_id, target_index, now).0;
    assert(moved.columns == set_card_at(b.columns, c, k, edited));
    let popped = BoardState { undo_stack: moved.undo_stack.drop_last(), ..moved };
    assert(popped.undo_stack =~= b.undo_stack);
    assert((i as usize) as int == i && (to as usize) as int == to);
    lemma_location_after_set(b, c, k, edited);
    // Back in the order it had, and in order.
    assert(reindex_columns(b.columns)[c].cards[k] == reindex_card(card, b.columns[c].id, k));
    assert(reindex_items(card.id, items) == items);
    let removed = e.remove(to);
    let back = removed.insert(i, e[to]);
    lemma_items_alike_reindexed(card.id, m);
    lemma_items_alike_remove(e, m, to);
    assert(m.remove(to) =~= items.remove(i));
    assert(m[to] == items[i]);
    lemma_items_alike_insert(removed, items.remove(i), i, e[to], items[i]);
    assert(items.remove(i).insert(i, items[i]) =~= items);
    lemma_items_alike(card.id, back, items);
    assert(reindex_items(card.id, back) == items);
    lemma_set_twice(b.columns, c, k, edited, CardView { checklist_items: reindex_items(card.id, back), ..edited });
}

} // verus!

verus! {

/// Relabelling archived cards leaves the columns alone.
pub proof fn lemma_relabel_keeps_columns(
    b: BoardState,
    pairs: Seq<(CardId, ColumnId)>,
    fallback: Option<ColumnId>,
)
    ensures
        relabel_archived(b, pairs, fallback).columns == b.columns,
        relabel_archived(b, pairs, fallback).tags == b.tags,
        relabel_archived(b, pairs, fallback).undo_stack == b.undo_stack,
        relabel_archived(b, pairs, fallback).redo_stack == b.redo_stack,
    decreases pairs.len(),
{
    if pairs.len() > 0 {
        lemma_relabel_keeps_columns(b, pairs.drop_last(), fallback);
    }
}

/// The archive once the cards of column `column_id` are handed back to it: as it was, but
/// for those cards' updated time, which is `now`.
pub open spec fn archive_handed_back(archived: Seq<CardView>, column_id: ColumnId, now: i64) -> Seq<
    CardView,
> {
    Seq::new(
        archived.len(),
        |i: int|
            if archived[i].column_id == column_id {
                CardView { updated_at: now, ..archived[i] }
            } else {
                archived[i]
            },
    )
}

/// The archive with the first `j` cards handed back and the rest still with `fallback`.
pub open spec fn archive_partly_back(
    archived: Seq<CardView>,
    column_id: ColumnId,
    fallback: ColumnId,
    now: i64,
    j: int,
) -> Seq<CardView> {
    Seq::new(
        archived.len(),
        |i: int|
            if i < j {
                archive_handed_back(archived, column_id, now)[i]
            } else {
                reassign_archived(archived, column_id, fallback, now)[i]
            },
    )
}

proof fn lemma_relabel_back(
    b: BoardState,
    start: BoardState,
    column_id: ColumnId,
    fallback: ColumnId,
    now: i64,
    j: int,
)
    requires
        well_formed(b),
        start.archived_cards == reassign_archived(b.archived_cards, column_id, fallback, now),
        0 <= j <= b.archived_cards.len(),
    ensures
        relabel_archived(start, archived_in_column(b.archived_cards.take(j), column_id), None)
            == (BoardState {
            archived_cards: archive_partly_back(b.archived_cards, column_id, fallback, now, j),
            ..start
        }),
    decreases j,
{
    let orig = b.archived_cards;
    if j == 0 {
        assert(orig.take(0) =~= Seq::<CardView>::empty());
        assert(archive_partly_back(orig, column_id, fallback, now, 0) =~= start.archived_cards);
    } else {
        lemma_relabel_back(b, start, column_id, fallback, now, j - 1);
        let card = orig[j - 1];
        assert(orig.take(j).drop_last() =~= orig.take(j - 1));
        assert(orig.take(j).last() == card);
        let a = archive_partly_back(orig, column_id, fallback, now, j - 1);
        let a2 = archive_partly_back(orig, column_id, fallback, now, j);
        let before = archived_in_column(orig.take(j - 1), column_id);
        if card.column_id == column_id {
            let item = (card.id, card.column_id);
            assert(archived_in_column(orig.take(j), column_id) =~= before.push(item));
            assert(before.push(item).drop_last() =~= before);
            assert forall|i: int| 0 <= i < a.len() && i != j - 1 implies #[trigger] a[i].id != card.id by {
                if i < j - 1 {
                    assert(orig[i].id != orig[j - 1].id);
                } else {
                    assert(orig[j - 1].id != orig[i].id);
                }
            }
            lemma_card_index_unique(a, card.id, j - 1);
            assert(a.update(j - 1, CardView { column_id: column_id, ..a[j - 1] }) =~= a2);
        } else {
            assert(archived_in_column(orig.take(j), column_id) =~= before);
            assert(a2 =~= a);
        }
    }
}

/// Removing a column and then undoing it gives back the columns exactly, the removed
/// column with its cards at its place, and hands the column's archived cards back to it:
/// the archive is as it was but for those cards' updated time, that of the removal.
pub proof fn law_undo_remove_column(b: BoardState, column_id: ColumnId, now: i64, later: i64)
    requires
        well_formed(b),
        remove_column_spec(b, column_id, now).1 is Ok,
    ensures
        ({
            let removed = remove_column_spec(b, column_id, now).0;
            let (undone, r) = undo_spec(removed, later);
            &&& r == Ok::<bool, crate::model::types::BoardError>(true)
            &&& undone.columns == b.columns
            &&& undone.tags == b.tags
            &&& undone.undo_stack == b.undo_stack
            &&& undone.archived_cards == archive_handed_back(b.archived_cards, column_id, now)
        }),
{
    lemma_column_index(b.columns, column_id);
    let c = column_index(b.columns, column_id).unwrap();
    let column = b.columns[c];
    let removed = remove_column_spec(b, column_id, now).0;
    assert(removed.columns == reindex_columns(b.columns.remove(c)));
    let popped = BoardState { undo_stack: removed.undo_stack.drop_last(), ..removed };
    assert(popped.undo_stack =~= b.undo_stack);
    assert((c as usize) as int == c);
    let inserted = BoardState { columns: popped.columns.insert(c, column), ..popped };
    let pairs = removed.undo_stack.last()->RemoveColumn_archived_card_column_ids;
    lemma_relabel_keeps_columns(inserted, pairs, None);
    lemma_reindex_idempotent(b.columns.remove(c));
    lemma_insert_column_alike(popped.columns, b.columns.remove(c), c, column, column);
    assert(b.columns.remove(c).insert(c, column) =~= b.columns);
    // The archive.
    let fallback = removed.undo_stack.last()->RemoveColumn_fallback_column_id;
    lemma_relabel_back(b, inserted, column_id, fallback, now, b.archived_cards.len() as int);
    assert(b.archived_cards.take(b.archived_cards.len() as int) =~= b.archived_cards);
    assert(archive_partly_back(b.archived_cards, column_id, fallback, now, b.archived_cards.len() as int)
        =~= archive_handed_back(b.archived_cards, column_id, now));
}

} // verus!

verus! {

/// Dropping a number that no card names, from cards whose numbers are all below it,
/// leaves the cards.
proof fn lemma_cards_without_fresh_tag(cards: Seq<CardView>, n: TagId)
    requires
        forall|k: int| 0 <= k < cards.len() ==> tags_below(#[trigger] cards[k], n),
    ensures
        cards_without_tag(cards, n) == cards,
{
    assert forall|k: int| 0 <= k < cards.len() implies #[trigger] cards_without_tag(cards, n)[k] == cards[k] by {
        assert(tags_below(cards[k], n));
        assert(!cards[k].tag_ids.contains(n)) by {
            if cards[k].tag_ids.contains(n) {
                let t = choose|t: int| 0 <= t < cards[k].tag_ids.len() && cards[k].tag_ids[t] == n;
                assert(cards[k].tag_ids[t] < n);
            }
        }
        lemma_without_absent(cards[k].tag_ids, n);
    }
    assert(cards_without_tag(cards, n) =~= cards);
}

/// Adding a tag and then undoing it gives back the tags and every card exactly; the tag's
/// number stays used.
pub proof fn law_undo_add_tag(
    b: BoardState,
    name: Seq<char>,
    color: Seq<char>,
    now: i64,
    later: i64,
)
    requires
        well_formed(b),
        b.next_tag_id < i64::MAX,
        add_tag_spec(b, name, color, now).1 is Ok,
    ensures
        ({
            let added = add_tag_spec(b, name, color, now).0;
            let (undone, r) = undo_spec(added, later);
            &&& r == Ok::<bool, crate::model::types::BoardError>(true)
            &&& undone.tags == b.tags
            &&& undone.columns == b.columns
            &&& undone.archived_cards == b.archived_cards
            &&& undone.undo_stack == b.undo_stack
            &&& undone.next_tag_id == b.next_tag_id + 1
        }),
{
    let added = add_tag_spec(b, name, color, now).0;
    let n = b.next_tag_id;
    let len = b.tags.len() as int;
    let popped = BoardState { undo_stack: added.undo_stack.drop_last(), ..added };
    assert(popped.undo_stack =~= b.undo_stack);
    assert(added.tags[len].id == n);
    lemma_tag_index(added.tags, n, 0);
    assert forall|i: int| 0 <= i < len implies #[trigger] added.tags[i].id != n by {
        assert(added.tags[i] == b.tags[i]);
    }
    assert(tag_index(added.tags, n) == Some(len)) by {
        let found = tag_index(added.tags, n);
        if found is Some && found->0 < len {
            assert(added.tags[found->0] == b.tags[found->0]);
        }
    }
    assert(added.tags.remove(len) =~= b.tags);
    // No card names the new number.
    assert forall|c: int| 0 <= c < b.columns.len() implies #[trigger] cards_without_tag(b.columns[c].cards, n)
        == b.columns[c].cards by {
        assert forall|k: int| 0 <= k < b.columns[c].cards.len() implies tags_below(#[trigger] b.columns[c].cards[k], n) by {
            assert(tags_below_of(n)(b.columns[c].cards[k]));
        }
        lemma_cards_without_fresh_tag(b.columns[c].cards, n);
    }
    lemma_cards_without_fresh_tag(b.archived_cards, n);
    let stripped = strip_tag(BoardState { tags: added.tags.remove(len), ..popped }, n);
    assert(stripped.columns =~= b.columns) by {
        assert forall|c: int| 0 <= c < b.columns.len() implies #[trigger] stripped.columns[c] == b.columns[c] by {
            assert(cards_without_tag(b.columns[c].cards, n) == b.columns[c].cards);
        }
    }
}

/// Adding a checklist item and then undoing it gives back the checklist; only the card's
/// updated time keeps the time of the add. The item's number stays used.
pub proof fn law_undo_add_checklist_item(
    b: BoardState,
    card_id: CardId,
    text: Seq<char>,
    now: i64,
    later: i64,
)
    requires
        well_formed(b),
        b.next_checklist_item_id < i64::MAX,
        checklists_sized(b),
        add_checklist_item_spec(b, card_id, text, now).1 is Ok,
    ensures
        ({
            let added = add_checklist_item_spec(b, card_id, text, now).0;
            let (undone, r) = undo_spec(added, later);
            let (c, k) = card_location(b.columns, card_id).unwrap();
            &&& r == Ok::<bool, crate::model::types::BoardError>(true)
            &&& undone.columns == set_card_at(
                b.columns,
                c,
                k,
                CardView { updated_at: now, ..b.columns[c].cards[k] },
            )
            &&& undone.tags == b.tags
            &&& undone.archived_cards == b.archived_cards
            &&& undone.undo_stack == b.undo_stack
            &&& undone.next_checklist_item_id == b.next_checklist_item_id + 1
        }),
{
    lemma_card_location(b.columns, card_id);
    let (c, k) = card_location(b.columns, card_id).unwrap();
    let card = b.columns[c].cards[k];
    let items = card.checklist_items;
    let len = items.len() as int;
    let added = add_checklist_item_spec(b, card_id, text, now).0;
    let edited = added.columns[c].cards[k];
    assert(added.columns == set_card_at(b.columns, c, k, edited));
    let item = added.undo_stack.last()->AddChecklistItem_item;
    assert(reindex_columns(b.columns)[c].cards[k] == reindex_card(card, b.columns[c].id, k));
    assert(reindex_items(card.id, items) == items);
    assert(reindex_items(card.id, items.push(item)) =~= items.push(item)) by {
        assert forall|i: int| 0 <= i < len implies #[trigger] reindex_items(card.id, items.push(item))[i]
            == items.push(item)[i] by {
            assert(reindex_items(card.id, items)[i] == items[i]);
        }
    }
    assert(edited.checklist_items == items.push(item));
    assert(edited.checklist_items[len] == item);
    assert(item.id == b.next_checklist_item_id);
    let popped = BoardState { undo_stack: added.undo_stack.drop_last(), ..added };
    assert(popped.undo_stack =~= b.undo_stack);
    lemma_location_after_set(b, c, k, edited);
    // The new item is the first with its number: the others are below it.
    assert(items_below_of(b.next_checklist_item_id)(card));
    lemma_item_index(edited.checklist_items, item.id, 0);
    assert(item_index(edited.checklist_items, item.id) == Some(len)) by {
        let found = item_index(edited.checklist_items, item.id);
        if found is Some && found->0 < len {
            assert(edited.checklist_items[found->0] == items[found->0]);
        }
    }
    assert(edited.checklist_items.remove(len) =~= items);
    lemma_set_twice(b.columns, c, k, edited, CardView { checklist_items: items, ..edited });
}

} // verus!

verus! {

/// A restored card goes back to its own column when that column is still there: it stands
/// at the end of that column, still belonging to it, and every other column is as it was.
pub proof fn law_restore_goes_home(b: BoardState, card_id: CardId, now: i64)
    requires
        well_formed(b),
        restore_card_spec(b, card_id, now).1 is Ok,
    ensures
        forall|i: int, c: int|
            0 <= i < b.archived_cards.len() && (#[trigger] b.archived_cards[i]).id == card_id && 0 <= c
                < b.columns.len() && (#[trigger] b.columns[c]).id == b.archived_cards[i].column_id
                ==> {
                let after = restore_card_spec(b, card_id, now).0;
                let len = b.columns[c].cards.len() as int;
                &&& after.columns[c].cards.len() == len + 1
                &&& after.columns[c].cards[len].id == card_id
                &&& after.columns[c].cards[len].column_id == b.archived_cards[i].column_id
                &&& forall|j: int| 0 <= j < b.columns.len() && j != c ==> #[trigger] after.columns[j] == b.columns[j]
            },
{
    lemma_card_index(b.archived_cards, card_id);
    let after = restore_card_spec(b, card_id, now).0;
    assert forall|i: int, c: int|
        0 <= i < b.archived_cards.len() && (#[trigger] b.archived_cards[i]).id == card_id && 0 <= c
            < b.columns.len() && (#[trigger] b.columns[c]).id == b.archived_cards[i].column_id
            implies {
            let len = b.columns[c].cards.len() as int;
            &&& after.columns[c].cards.len() == len + 1
            &&& after.columns[c].cards[len].id == card_id
            &&& after.columns[c].cards[len].column_id == b.archived_cards[i].column_id
            &&& forall|j: int| 0 <= j < b.columns.len() && j != c ==> #[trigger] after.columns[j] == b.columns[j]
        } by {
        let ai = card_index(b.archived_cards, card_id).unwrap();
        if ai != i {
            if ai < i {
                assert(b.archived_cards[ai].id != b.archived_cards[i].id);
            } else {
                assert(b.archived_cards[i].id != b.archived_cards[ai].id);
            }
        }
        let archived = b.archived_cards[i];
        assert forall|c2: int| 0 <= c2 < b.columns.len() && c2 != c implies #[trigger] b.columns[c2].id
            != archived.column_id by {
            if c2 < c {
                assert(b.columns[c2].id != b.columns[c].id);
            } else {
                assert(b.columns[c].id != b.columns[c2].id);
            }
        }
        lemma_column_index_unique(b.columns, archived.column_id, c);
        assert(restore_target(b, archived) == Some(c));
        let len = b.columns[c].cards.len() as int;
        assert forall|j: int| 0 <= j < b.columns.len() && j != c implies #[trigger] after.columns[j] == b.columns[j] by {
            assert(reindex_columns(b.columns)[j] == b.columns[j]);
            assert(after.columns[j].cards =~= b.columns[j].cards);
        }
    }
}

} // verus!

verus! {

/// A restored card whose column is gone goes to the end of the first column, and belongs
/// to it from then on.
pub proof fn law_restore_without_its_column(b: BoardState, card_id: CardId, now: i64)
    requires
        well_formed(b),
        restore_card_spec(b, card_id, now).1 is Ok,
    ensures
        forall|i: int|
            0 <= i < b.archived_cards.len() && (#[trigger] b.archived_cards[i]).id == card_id && (forall|c: int|
                0 <= c < b.columns.len() ==> (#[trigger] b.columns[c]).id != b.archived_cards[i].column_id)
                ==> {
                let after = restore_card_spec(b, card_id, now).0;
                let len = b.columns[0].cards.len() as int;
                &&& b.columns.len() > 0
                &&& after.columns[0].cards.len() == len + 1
                &&& after.columns[0].cards[len].id == card_id
                &&& after.columns[0].cards[len].column_id == b.columns[0].id
            },
{
    lemma_card_index(b.archived_cards, card_id);
    assert forall|i: int|
        0 <= i < b.archived_cards.len() && (#[trigger] b.archived_cards[i]).id == card_id && (forall|c: int|
            0 <= c < b.columns.len() ==> (#[trigger] b.columns[c]).id != b.archived_cards[i].column_id)
            implies {
            let after = restore_card_spec(b, card_id, now).0;
            let len = b.columns[0].cards.len() as int;
            &&& b.columns.len() > 0
            &&& after.columns[0].cards.len() == len + 1
            &&& after.columns[0].cards[len].id == card_id
            &&& after.columns[0].cards[len].column_id == b.columns[0].id
        } by {
        let ai = card_index(b.archived_cards, card_id).unwrap();
        if ai != i {
            if ai < i {
                assert(b.archived_cards[ai].id != b.archived_cards[i].id);
            } else {
                assert(b.archived_cards[i].id != b.archived_cards[ai].id);
            }
        }
        lemma_column_index(b.columns, b.archived_cards[i].column_id);
    }
}

} // verus!
