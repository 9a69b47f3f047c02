//! What the building-block edits do to the mathematical board. Undo and redo replay an
//! operation through these; the user operations use some of them too.
use vstd::prelude::*;
use crate::date::DueDate;
use crate::model::spec::{
    card_index, card_location, column_index, insert_card_at, item_index, min_int,
    reindex_columns, reindex_items, remove_card_at, set_card_at, set_cards, tag_index,
    with_columns,
};
use crate::model::types::{
    BoardError, BoardState, CardId, CardView, ChecklistItemId, ChecklistItemView, ColumnId,
    ColumnView, TagId, TagView,
};

verus! {

/// The board with the first active card `card_id` replaced by `f` of it.
pub open spec fn edit_card(
    b: BoardState,
    card_id: CardId,
    f: spec_fn(CardView) -> CardView,
) -> (BoardState, Result<(), BoardError>) {
    match card_location(b.columns, card_id) {
        None => (b, Err(BoardError::CardNotFound(card_id))),
        Some((c, k)) => (
            with_columns(b, set_card_at(b.columns, c, k, f(b.columns[c].cards[k]))),
            Ok(()),
        ),
    }
}

/// Taking active card `card_id` off the board; the columns are then put in order.
pub open spec fn remove_active_card_spec(b: BoardState, card_id: CardId) -> (
    BoardState,
    Result<CardView, BoardError>,
) {
    match card_location(b.columns, card_id) {
        None => (b, Err(BoardError::CardNotFound(card_id))),
        Some((c, k)) => (
            with_columns(b, reindex_columns(remove_card_at(b.columns, c, k))),
            Ok(b.columns[c].cards[k]),
        ),
    }
}

/// Putting `card` back at place `index` (clamped) of the column it names, as an active card.
pub open spec fn insert_active_card_spec(b: BoardState, card: CardView, index: int) -> (
    BoardState,
    Result<(), BoardError>,
) {
    match column_index(b.columns, card.column_id) {
        None => (b, Err(BoardError::ColumnNotFound(card.column_id))),
        Some(c) => {
            let at = min_int(index, b.columns[c].cards.len() as int);
            let active = CardView { archived_at: None, ..card };
            (with_columns(b, reindex_columns(insert_card_at(b.columns, c, at, active))), Ok(()))
        },
    }
}

/// Moving active card `card_id` into column `column_id` at place `index` (clamped).
pub open spec fn move_card_raw_spec(
    b: BoardState,
    card_id: CardId,
    column_id: ColumnId,
    index: int,
) -> (BoardState, Result<(), BoardError>) {
    let (removed, taken) = remove_active_card_spec(b, card_id);
    match taken {
        Err(e) => (removed, Err(e)),
        Ok(card) => insert_active_card_spec(removed, CardView { column_id: column_id, ..card }, index),
    }
}

/// Moving column `column_id` to place `index` (clamped), among the other columns.
pub open spec fn move_column_raw_spec(b: BoardState, column_id: ColumnId, index: int) -> (
    BoardState,
    Result<(), BoardError>,
) {
    match column_index(b.columns, column_id) {
        None => (b, Err(BoardError::ColumnNotFound(column_id))),
        Some(c) => {
            let removed = b.columns.remove(c);
            let at = min_int(index, removed.len() as int);
            (with_columns(b, reindex_columns(removed.insert(at, b.columns[c]))), Ok(()))
        },
    }
}

/// Setting the title and description of active card `card_id`.
pub open spec fn update_card_raw_spec(
    b: BoardState,
    card_id: CardId,
    title: Seq<char>,
    description: Seq<char>,
    now: i64,
) -> (BoardState, Result<(), BoardError>) {
    edit_card(
        b,
        card_id,
        |card: CardView| CardView { title: title, description: description, updated_at: now, ..card },
    )
}

/// Setting the due date of active card `card_id`.
pub open spec fn set_due_date_raw_spec(
    b: BoardState,
    card_id: CardId,
    due_date: Option<DueDate>,
    now: i64,
) -> (BoardState, Result<(), BoardError>) {
    edit_card(b, card_id, |card: CardView| CardView { due_date: due_date, updated_at: now, ..card })
}

/// Setting the tags of active card `card_id`.
pub open spec fn set_card_tags_raw_spec(
    b: BoardState,
    card_id: CardId,
    tag_ids: Seq<TagId>,
    now: i64,
) -> (BoardState, Result<(), BoardError>) {
    edit_card(b, card_id, |card: CardView| CardView { tag_ids: tag_ids, updated_at: now, ..card })
}

/// Replacing the checklist of active card `card_id`, then putting it in order.
pub open spec fn set_checklist_items_raw_spec(
    b: BoardState,
    card_id: CardId,
    items: Seq<ChecklistItemView>,
) -> (BoardState, Result<(), BoardError>) {
    edit_card(
        b,
        card_id,
        |card: CardView| CardView { checklist_items: reindex_items(card.id, items), ..card },
    )
}

/// Setting the updated time of active card `card_id`.
pub open spec fn touch_card_spec(b: BoardState, card_id: CardId, now: i64) -> (
    BoardState,
    Result<(), BoardError>,
) {
    edit_card(b, card_id, |card: CardView| CardView { updated_at: now, ..card })
}

/// Putting `item` into the checklist of active card `card_id` at place `index` (clamped);
/// the checklist is then put in order.
pub open spec fn insert_item_spec(
    b: BoardState,
    card_id: CardId,
    item: ChecklistItemView,
    index: int,
) -> (BoardState, Result<(), BoardError>) {
    edit_card(
        b,
        card_id,
        |card: CardView|
            {
                let at = min_int(index, card.checklist_items.len() as int);
                CardView {
                    checklist_items: reindex_items(
                        card.id,
                        card.checklist_items.insert(at, ChecklistItemView { card_id: card_id, ..item }),
                    ),
                    ..card
                }
            },
    )
}

/// Taking item `item_id` off the checklist of active card `card_id`: its place and the
/// item.
pub open spec fn remove_item_spec(b: BoardState, card_id: CardId, item_id: ChecklistItemId) -> (
    BoardState,
    Result<(int, ChecklistItemView), BoardError>,
) {
    match card_location(b.columns, card_id) {
        None => (b, Err(BoardError::CardNotFound(card_id))),
        Some((c, k)) => {
            let card = b.columns[c].cards[k];
            match item_index(card.checklist_items, item_id) {
                None => (b, Err(BoardError::ChecklistItemNotFound(item_id, card_id))),
                Some(i) => {
                    let edited = CardView {
                        checklist_items: reindex_items(card.id, card.checklist_items.remove(i)),
                        ..card
                    };
                    (
                        with_columns(b, set_card_at(b.columns, c, k, edited)),
                        Ok((i, card.checklist_items[i])),
                    )
                },
            }
        },
    }
}

/// Moving the checklist item at place `from` of active card `card_id` to place `to`
/// (clamped).
pub open spec fn move_item_raw_spec(b: BoardState, card_id: CardId, from: int, to: int) -> (
    BoardState,
    Result<(), BoardError>,
) {
    match card_location(b.columns, card_id) {
        None => (b, Err(BoardError::CardNotFound(card_id))),
        Some((c, k)) => {
            let card = b.columns[c].cards[k];
            if from >= card.checklist_items.len() {
                (b, Err(BoardError::ChecklistItemNotFound(from as i64, card_id)))
            } else {
                let removed = card.checklist_items.remove(from);
                let at = min_int(to, removed.len() as int);
                let edited = CardView {
                    checklist_items: reindex_items(
                        card.id,
                        removed.insert(at, card.checklist_items[from]),
                    ),
                    ..card
                };
                (with_columns(b, set_card_at(b.columns, c, k, edited)), Ok(()))
            }
        },
    }
}

/// Replacing checklist item `item_id` of active card `card_id` by `f` of it.
pub open spec fn edit_item(
    b: BoardState,
    card_id: CardId,
    item_id: ChecklistItemId,
    f: spec_fn(ChecklistItemView) -> ChecklistItemView,
) -> (BoardState, Result<(), BoardError>) {
    match card_location(b.columns, card_id) {
        None => (b, Err(BoardError::CardNotFound(card_id))),
        Some((c, k)) => {
            let card = b.columns[c].cards[k];
            match item_index(card.checklist_items, item_id) {
                None => (b, Err(BoardError::ChecklistItemNotFound(item_id, card_id))),
                Some(i) => {
                    let edited = CardView {
                        checklist_items: card.checklist_items.update(i, f(card.checklist_items[i])),
                        ..card
                    };
                    (with_columns(b, set_card_at(b.columns, c, k, edited)), Ok(()))
                },
            }
        },
    }
}

/// The board with the first column `column_id` replaced by `f` of it.
pub open spec fn edit_column(
    b: BoardState,
    column_id: ColumnId,
    f: spec_fn(ColumnView) -> ColumnView,
) -> (BoardState, Result<(), BoardError>) {
    match column_index(b.columns, column_id) {
        None => (b, Err(BoardError::ColumnNotFound(column_id))),
        Some(c) => (with_columns(b, b.columns.update(c, f(b.columns[c]))), Ok(())),
    }
}

/// The board with the first tag `tag_id` replaced by `f` of it.
pub open spec fn edit_tag(b: BoardState, tag_id: TagId, f: spec_fn(TagView) -> TagView) -> (
    BoardState,
    Result<(), BoardError>,
) {
    match tag_index(b.tags, tag_id) {
        None => (b, Err(BoardError::TagNotFound(tag_id))),
        Some(t) => (BoardState { tags: b.tags.update(t, f(b.tags[t])), ..b }, Ok(())),
    }
}

/// Taking archived card `card_id` out of the archive.
pub open spec fn remove_archived_spec(b: BoardState, card_id: CardId) -> (
    BoardState,
    Result<CardView, BoardError>,
) {
    match card_index(b.archived_cards, card_id) {
        None => (b, Err(BoardError::CardNotFound(card_id))),
        Some(i) => (
            BoardState { archived_cards: b.archived_cards.remove(i), ..b },
            Ok(b.archived_cards[i]),
        ),
    }
}

/// `tag_id` dropped from a list of tags.
pub open spec fn without_tag(tag_ids: Seq<TagId>, tag_id: TagId) -> Seq<TagId>
    decreases tag_ids.len(),
{
    if tag_ids.len() == 0 {
        tag_ids
    } else if tag_ids.last() == tag_id {
        without_tag(tag_ids.drop_last(), tag_id)
    } else {
        without_tag(tag_ids.drop_last(), tag_id).push(tag_ids.last())
    }
}

pub open spec fn card_without_tag(card: CardView, tag_id: TagId) -> CardView {
    CardView { tag_ids: without_tag(card.tag_ids, tag_id), ..card }
}

pub open spec fn cards_without_tag(cards: Seq<CardView>, tag_id: TagId) -> Seq<CardView> {
    Seq::new(cards.len(), |k: int| card_without_tag(cards[k], tag_id))
}

/// Every active and archived card with `tag_id` dropped from its tags.
pub open spec fn strip_tag(b: BoardState, tag_id: TagId) -> BoardState {
    BoardState {
        columns: Seq::new(
            b.columns.len(),
            |c: int|
                ColumnView { cards: cards_without_tag(b.columns[c].cards, tag_id), ..b.columns[c] },
        ),
        archived_cards: cards_without_tag(b.archived_cards, tag_id),
        ..b
    }
}

/// Removing tag `tag_id` from the board and from every card.
pub open spec fn remove_tag_raw_spec(b: BoardState, tag_id: TagId) -> (
    BoardState,
    Result<(), BoardError>,
) {
    match tag_index(b.tags, tag_id) {
        None => (b, Err(BoardError::TagNotFound(tag_id))),
        Some(t) => (strip_tag(BoardState { tags: b.tags.remove(t), ..b }, tag_id), Ok(())),
    }
}

/// Removing column `column_id`, unless it is the last one; the columns are then put in
/// order.
pub open spec fn remove_column_raw_spec(b: BoardState, column_id: ColumnId) -> (
    BoardState,
    Result<(), BoardError>,
) {
    match column_index(b.columns, column_id) {
        None => (b, Err(BoardError::ColumnNotFound(column_id))),
        Some(c) => if b.columns.len() == 1 {
            (b, Err(BoardError::LastColumn))
        } else {
            (with_columns(b, reindex_columns(b.columns.remove(c))), Ok(()))
        },
    }
}

/// Taking the cards of `order` out of `remaining` one by one, by id: the cards taken in
/// that order, what is left, and the first id that was not there.
pub open spec fn pick_in_order(remaining: Seq<CardView>, order: Seq<CardId>) -> (
    Seq<CardView>,
    Seq<CardView>,
    Option<CardId>,
)
    decreases order.len(),
{
    if order.len() == 0 {
        (seq![], remaining, None)
    } else {
        let (picked, left, missing) = pick_in_order(remaining, order.drop_last());
        if missing is Some {
            (picked, left, missing)
        } else {
            match card_index(left, order.last()) {
                None => (picked, left, Some(order.last())),
                Some(i) => (picked.push(left[i]), left.remove(i), None),
            }
        }
    }
}

/// Reordering the cards of column `column_id` as the ids in `order` say.
///
/// When an id is not in the column, or a card of the column is not in `order`, the answer
/// is `CardNotFound` and the column is left with no cards.
pub open spec fn sort_column_raw_spec(b: BoardState, column_id: ColumnId, order: Seq<CardId>) -> (
    BoardState,
    Result<(), BoardError>,
) {
    match column_index(b.columns, column_id) {
        None => (b, Err(BoardError::ColumnNotFound(column_id))),
        Some(c) => {
            let (picked, left, missing) = pick_in_order(b.columns[c].cards, order);
            let emptied = with_columns(b, set_cards(b.columns, c, seq![]));
            match missing {
                Some(id) => (emptied, Err(BoardError::CardNotFound(id))),
                None => if left.len() > 0 {
                    (emptied, Err(BoardError::CardNotFound(left[0].id)))
                } else {
                    (with_columns(b, reindex_columns(set_cards(b.columns, c, picked))), Ok(()))
                },
            }
        },
    }
}

/// Giving card `card_id` the tags `tag_ids`: the first active card with that id, else the
/// first archived one, else nothing changes.
pub open spec fn restore_one_card_tags(b: BoardState, card_id: CardId, tag_ids: Seq<TagId>) -> BoardState {
    match card_location(b.columns, card_id) {
        Some((c, k)) => with_columns(
            b,
            set_card_at(b.columns, c, k, CardView { tag_ids: tag_ids, ..b.columns[c].cards[k] }),
        ),
        None => match card_index(b.archived_cards, card_id) {
            Some(i) => BoardState {
                archived_cards: b.archived_cards.update(
                    i,
                    CardView { tag_ids: tag_ids, ..b.archived_cards[i] },
                ),
                ..b
            },
            None => b,
        },
    }
}

/// Giving each card of `assignments` its tags, in order.
pub open spec fn restore_card_tags_spec(b: BoardState, assignments: Seq<(CardId, Seq<TagId>)>) -> BoardState
    decreases assignments.len(),
{
    if assignments.len() == 0 {
        b
    } else {
        let last = assignments.last();
        restore_one_card_tags(restore_card_tags_spec(b, assignments.drop_last()), last.0, last.1)
    }
}

} // verus!
