//! The mathematical board: finding things by id, putting a board back in order, and the
//! building blocks from which the operations' specifications are made.
use vstd::prelude::*;
use crate::model::types::{
    BoardState, CardEvent, CardId, CardView, ChecklistItemId, ChecklistItemView, ColumnId,
    ColumnView, OperationView, TagId, TagView,
};

verus! {

// ---------------------------------------------------------------------------------------
// Finding by id: always the first match, as the board's searches go front to back.

pub open spec fn card_index_from(cards: Seq<CardView>, id: CardId, i: int) -> Option<int>
    decreases cards.len() - i,
{
    if i < 0 || i >= cards.len() {
        None
    } else if cards[i].id == id {
        Some(i)
    } else {
        card_index_from(cards, id, i + 1)
    }
}

/// Where the first card with `id` stands in `cards`.
pub open spec fn card_index(cards: Seq<CardView>, id: CardId) -> Option<int> {
    card_index_from(cards, id, 0)
}

pub open spec fn card_location_from(columns: Seq<ColumnView>, id: CardId, c: int) -> Option<
    (int, int),
>
    decreases columns.len() - c,
{
    if c < 0 || c >= columns.len() {
        None
    } else {
        match card_index(columns[c].cards, id) {
            Some(k) => Some((c, k)),
            None => card_location_from(columns, id, c + 1),
        }
    }
}

/// The column and place of the first active card with `id`, the columns taken in order.
pub open spec fn card_location(columns: Seq<ColumnView>, id: CardId) -> Option<(int, int)> {
    card_location_from(columns, id, 0)
}

pub open spec fn column_index_from(columns: Seq<ColumnView>, id: ColumnId, i: int) -> Option<int>
    decreases columns.len() - i,
{
    if i < 0 || i >= columns.len() {
        None
    } else if columns[i].id == id {
        Some(i)
    } else {
        column_index_from(columns, id, i + 1)
    }
}

/// Where the first column with `id` stands.
pub open spec fn column_index(columns: Seq<ColumnView>, id: ColumnId) -> Option<int> {
    column_index_from(columns, id, 0)
}

pub open spec fn tag_index_from(tags: Seq<TagView>, id: TagId, i: int) -> Option<int>
    decreases tags.len() - i,
{
    if i < 0 || i >= tags.len() {
        None
    } else if tags[i].id == id {
        Some(i)
    } else {
        tag_index_from(tags, id, i + 1)
    }
}

/// Where the first tag with `id` stands.
pub open spec fn tag_index(tags: Seq<TagView>, id: TagId) -> Option<int> {
    tag_index_from(tags, id, 0)
}

pub open spec fn item_index_from(items: Seq<ChecklistItemView>, id: ChecklistItemId, i: int) -> Option<
    int,
>
    decreases items.len() - i,
{
    if i < 0 || i >= items.len() {
        None
    } else if items[i].id == id {
        Some(i)
    } else {
        item_index_from(items, id, i + 1)
    }
}

/// Where the first checklist item with `id` stands.
pub open spec fn item_index(items: Seq<ChecklistItemView>, id: ChecklistItemId) -> Option<int> {
    item_index_from(items, id, 0)
}

pub proof fn lemma_card_index_from(cards: Seq<CardView>, id: CardId, i: int)
    requires
        0 <= i,
    ensures
        match card_index_from(cards, id, i) {
            Some(k) => i <= k < cards.len() && cards[k].id == id && forall|j: int|
                i <= j < k ==> (#[trigger] cards[j]).id != id,
            None => forall|j: int| i <= j < cards.len() ==> (#[trigger] cards[j]).id != id,
        },
    decreases cards.len() - i,
{
    if i < cards.len() && cards[i].id != id {
        lemma_card_index_from(cards, id, i + 1);
    }
}

pub proof fn lemma_card_index(cards: Seq<CardView>, id: CardId)
    ensures
        match card_index(cards, id) {
            Some(k) => 0 <= k < cards.len() && cards[k].id == id && forall|j: int|
                0 <= j < k ==> (#[trigger] cards[j]).id != id,
            None => forall|j: int| 0 <= j < cards.len() ==> (#[trigger] cards[j]).id != id,
        },
{
    lemma_card_index_from(cards, id, 0);
}

pub proof fn lemma_card_location_from(columns: Seq<ColumnView>, id: CardId, c: int)
    requires
        0 <= c,
    ensures
        match card_location_from(columns, id, c) {
            Some((ci, k)) => c <= ci < columns.len() && 0 <= k < columns[ci].cards.len()
                && columns[ci].cards[k].id == id && card_index(columns[ci].cards, id) == Some(k)
                && forall|j: int| c <= j < ci ==> card_index(#[trigger] columns[j].cards, id) is None,
            None => forall|j: int|
                c <= j < columns.len() ==> card_index(#[trigger] columns[j].cards, id) is None,
        },
    decreases columns.len() - c,
{
    if c < columns.len() {
        lemma_card_index(columns[c].cards, id);
        if card_index(columns[c].cards, id) is None {
            lemma_card_location_from(columns, id, c + 1);
        }
    }
}

pub proof fn lemma_card_location(columns: Seq<ColumnView>, id: CardId)
    ensures
        match card_location(columns, id) {
            Some((ci, k)) => 0 <= ci < columns.len() && 0 <= k < columns[ci].cards.len()
                && columns[ci].cards[k].id == id && card_index(columns[ci].cards, id) == Some(k)
                && forall|j: int| 0 <= j < ci ==> card_index(#[trigger] columns[j].cards, id) is None,
            None => forall|j: int|
                0 <= j < columns.len() ==> card_index(#[trigger] columns[j].cards, id) is None,
        },
{
    lemma_card_location_from(columns, id, 0);
}

pub proof fn lemma_column_index_from(columns: Seq<ColumnView>, id: ColumnId, i: int)
    requires
        0 <= i,
    ensures
        match column_index_from(columns, id, i) {
            Some(k) => i <= k < columns.len() && columns[k].id == id && forall|j: int|
                i <= j < k ==> (#[trigger] columns[j]).id != id,
            None => forall|j: int| i <= j < columns.len() ==> (#[trigger] columns[j]).id != id,
        },
    decreases columns.len() - i,
{
    if i < columns.len() && columns[i].id != id {
        lemma_column_index_from(columns, id, i + 1);
    }
}

pub proof fn lemma_column_index(columns: Seq<ColumnView>, id: ColumnId)
    ensures
        match column_index(columns, id) {
            Some(k) => 0 <= k < columns.len() && columns[k].id == id && forall|j: int|
                0 <= j < k ==> (#[trigger] columns[j]).id != id,
            None => forall|j: int| 0 <= j < columns.len() ==> (#[trigger] columns[j]).id != id,
        },
{
    lemma_column_index_from(columns, id, 0);
}

pub proof fn lemma_tag_index(tags: Seq<TagView>, id: TagId, i: int)
    requires
        0 <= i,
    ensures
        match tag_index_from(tags, id, i) {
            Some(k) => i <= k < tags.len() && tags[k].id == id && forall|j: int|
                i <= j < k ==> (#[trigger] tags[j]).id != id,
            None => forall|j: int| i <= j < tags.len() ==> (#[trigger] tags[j]).id != id,
        },
    decreases tags.len() - i,
{
    if i < tags.len() && tags[i].id != id {
        lemma_tag_index(tags, id, i + 1);
    }
}

pub proof fn lemma_item_index(items: Seq<ChecklistItemView>, id: ChecklistItemId, i: int)
    requires
        0 <= i,
    ensures
        match item_index_from(items, id, i) {
            Some(k) => i <= k < items.len() && items[k].id == id && forall|j: int|
                i <= j < k ==> (#[trigger] items[j]).id != id,
            None => forall|j: int| i <= j < items.len() ==> (#[trigger] items[j]).id != id,
        },
    decreases items.len() - i,
{
    if i < items.len() && items[i].id != id {
        lemma_item_index(items, id, i + 1);
    }
}

// ---------------------------------------------------------------------------------------
// Putting positions and owners back in order.

/// Checklist items numbered by their place and owned by card `card_id`.
pub open spec fn reindex_items(card_id: CardId, items: Seq<ChecklistItemView>) -> Seq<
    ChecklistItemView,
> {
    Seq::new(
        items.len(),
        |i: int| ChecklistItemView { card_id: card_id, position: i as i64, ..items[i] },
    )
}

/// A card at place `k` of column `column_id`, with its checklist in order.
pub open spec fn reindex_card(card: CardView, column_id: ColumnId, k: int) -> CardView {
    CardView {
        position: k as i64,
        column_id: column_id,
        checklist_items: reindex_items(card.id, card.checklist_items),
        ..card
    }
}

pub open spec fn reindex_cards(column_id: ColumnId, cards: Seq<CardView>) -> Seq<CardView> {
    Seq::new(cards.len(), |k: int| reindex_card(cards[k], column_id, k))
}

/// Every column numbered by its place; every card numbered by its place and belonging to
/// the column it stands in; every checklist item numbered and belonging to its card.
pub open spec fn reindex_columns(columns: Seq<ColumnView>) -> Seq<ColumnView> {
    Seq::new(
        columns.len(),
        |i: int|
            ColumnView {
                position: i as i64,
                cards: reindex_cards(columns[i].id, columns[i].cards),
                ..columns[i]
            },
    )
}

pub open spec fn with_columns(b: BoardState, columns: Seq<ColumnView>) -> BoardState {
    BoardState { columns: columns, ..b }
}

pub open spec fn reindexed(b: BoardState) -> BoardState {
    with_columns(b, reindex_columns(b.columns))
}

// ---------------------------------------------------------------------------------------
// Editing the columns.

pub open spec fn set_cards(columns: Seq<ColumnView>, c: int, cards: Seq<CardView>) -> Seq<
    ColumnView,
> {
    columns.update(c, ColumnView { cards: cards, ..columns[c] })
}

pub open spec fn remove_card_at(columns: Seq<ColumnView>, c: int, k: int) -> Seq<ColumnView> {
    set_cards(columns, c, columns[c].cards.remove(k))
}

pub open spec fn insert_card_at(columns: Seq<ColumnView>, c: int, k: int, card: CardView) -> Seq<
    ColumnView,
> {
    set_cards(columns, c, columns[c].cards.insert(k, card))
}

pub open spec fn set_card_at(columns: Seq<ColumnView>, c: int, k: int, card: CardView) -> Seq<
    ColumnView,
> {
    set_cards(columns, c, columns[c].cards.update(k, card))
}

pub open spec fn min_int(a: int, b: int) -> int {
    if a <= b {
        a
    } else {
        b
    }
}

// ---------------------------------------------------------------------------------------
// History.

/// `op` pushed on the undo stack, and the redo stack emptied: what every new operation does.
pub open spec fn push_operation(b: BoardState, op: OperationView) -> BoardState {
    BoardState { undo_stack: b.undo_stack.push(op), redo_stack: seq![], ..b }
}

pub open spec fn record_event(b: BoardState, event: CardEvent) -> BoardState {
    BoardState { pending_events: b.pending_events.push(event), ..b }
}

pub open spec fn touch(b: BoardState, now: i64) -> BoardState {
    BoardState { updated_at: now, ..b }
}

} // verus!
