//! Taking an operation back and doing it again: the board gets what the operation gave it,
//! as doing the operation anew at the time of the redo would.
use vstd::prelude::*;
use crate::date::DueDate;
use crate::model::checklist::{
    add_checklist_item_spec, delete_checklist_item_spec, move_checklist_item_spec,
    set_checklist_item_checked_spec, update_checklist_item_spec,
};
use crate::model::alike::lemma_reindex_idempotent;
use crate::model::cards::{
    archive_card_spec, copy_card_spec, delete_card_spec, restore_card_spec, restore_target,
};
use crate::model::columns::{
    add_column_spec, archived_in_column, reassign_archived, remove_column_spec, rename_column_spec,
};
use crate::model::details::{update_card_details_spec, DraftView};
use crate::model::laws::{
    archive_handed_back, cards_numbered, checklists_sized, lemma_card_index_unique,
    lemma_relabel_keeps_columns, law_undo_remove_column, law_undo_add_checklist_item, law_undo_add_column,
    law_undo_delete_checklist_item, law_undo_move_checklist_item, law_undo_add_tag, law_undo_archive_card,
    law_undo_copy_card, law_undo_delete_card, law_undo_move_column, law_undo_rename_column,
    law_undo_restore_card, law_undo_update_card_details, law_undo_rename_tag, law_undo_set_card_due_date,
    law_undo_set_card_tags, law_undo_set_checklist_item_checked, law_undo_set_column_wip_limit,
    law_undo_set_tag_color, law_undo_update_card, law_undo_update_checklist_item,
    lemma_card_location_unique, lemma_column_index_unique, lemma_item_index_after_update,
    lemma_location_after_set, lemma_set_twice, lemma_tag_index_after_update, well_formed,
};
use crate::model::ops::{move_column_spec, set_card_due_date_spec, set_column_wip_limit_spec, update_card_spec};
use crate::model::raw_spec::restore_card_tags_spec;
use crate::model::replay_spec::{redo_spec, relabel_archived, undo_spec};
use crate::model::spec::{
    card_index, insert_card_at, lemma_card_index, reindex_card, card_location, column_index, item_index, lemma_card_location, lemma_column_index,
    lemma_item_index, lemma_tag_index, reindex_columns, reindex_items, remove_card_at, set_card_at, tag_index,
};
use crate::model::tag_undo::law_undo_remove_tag;
use crate::model::tags::{add_tag_spec, remove_tag_spec, rename_tag_spec, set_card_tags_spec, set_tag_color_spec, sorted_unique};
use crate::model::types::{
    BoardError, BoardState, CardId, CardView, ChecklistItemId, ChecklistItemView, ColumnId,
    ColumnView, TagId, TagView,
};

verus! {

/// On columns that are those of `b` with one card's updated time changed, that card is
/// found where it stood.
proof fn lemma_card_found_again(b: BoardState, c: int, k: int, at: i64)
    requires
        cards_numbered(b),
        0 <= c < b.columns.len(),
        0 <= k < b.columns[c].cards.len(),
    ensures
        card_location(
            set_card_at(b.columns, c, k, CardView { updated_at: at, ..b.columns[c].cards[k] }),
            b.columns[c].cards[k].id,
        ) == Some((c, k)),
{
    let card = b.columns[c].cards[k];
    let cols = set_card_at(b.columns, c, k, CardView { updated_at: at, ..card });
    assert forall|c2: int, k2: int|
        0 <= c2 < cols.len() && 0 <= k2 < cols[c2].cards.len() && (c2 != c || k2 != k) implies #[trigger] cols[c2].cards[k2].id
        != card.id by {
        assert(cols[c2].cards[k2] == b.columns[c2].cards[k2]);
    }
    lemma_card_location_unique(cols, card.id, c, k);
}

/// Saving a card's title and description, undoing it and doing it again gives the card
/// the saved title and description, as saving them at the time of the redo would.
pub proof fn law_redo_update_card(
    b: BoardState,
    card_id: CardId,
    title: Seq<char>,
    description: Seq<char>,
    now: i64,
    later: i64,
    again: i64,
)
    requires
        well_formed(b),
        update_card_spec(b, card_id, title, description, now).1 == Ok::<bool, BoardError>(true),
    ensures
        ({
            let updated = update_card_spec(b, card_id, title, description, now).0;
            let undone = undo_spec(updated, later).0;
            let (redone, r) = redo_spec(undone, again);
            &&& r == Ok::<bool, BoardError>(true)
            &&& redone.columns == update_card_spec(b, card_id, title, description, again).0.columns
            &&& redone.tags == updated.tags
            &&& redone.archived_cards == updated.archived_cards
            &&& redone.undo_stack == updated.undo_stack
            &&& redone.redo_stack.len() == 0
        }),
{
    law_undo_update_card(b, card_id, title, description, now, later);
    lemma_card_location(b.columns, card_id);
    let (c, k) = card_location(b.columns, card_id).unwrap();
    let card = b.columns[c].cards[k];
    let updated = update_card_spec(b, card_id, title, description, now).0;
    let undone = undo_spec(updated, later).0;
    lemma_card_found_again(b, c, k, later);
    let edited = CardView { title: title, description: description, updated_at: again, ..card };
    lemma_set_twice(b.columns, c, k, CardView { updated_at: later, ..card }, edited);
    assert(undone.redo_stack =~= seq![updated.undo_stack.last()]);
    let popped = BoardState { redo_stack: undone.redo_stack.drop_last(), ..undone };
    assert(popped.undo_stack.push(updated.undo_stack.last()) =~= updated.undo_stack);
}

/// Setting a card's due date, undoing it and doing it again gives the card the date that
/// was set, as setting it at the time of the redo would.
pub proof fn law_redo_set_card_due_date(
    b: BoardState,
    card_id: CardId,
    due_date: Option<DueDate>,
    now: i64,
    later: i64,
    again: i64,
)
    requires
        well_formed(b),
        set_card_due_date_spec(b, card_id, due_date, now).1 == Ok::<bool, BoardError>(true),
    ensures
        ({
            let set = set_card_due_date_spec(b, card_id, due_date, now).0;
            let undone = undo_spec(set, later).0;
            let (redone, r) = redo_spec(undone, again);
            &&& r == Ok::<bool, BoardError>(true)
            &&& redone.columns == set_card_due_date_spec(b, card_id, due_date, again).0.columns
            &&& redone.tags == set.tags
            &&& redone.archived_cards == set.archived_cards
            &&& redone.undo_stack == set.undo_stack
            &&& redone.redo_stack.len() == 0
        }),
{
    law_undo_set_card_due_date(b, card_id, due_date, now, later);
    lemma_card_location(b.columns, card_id);
    let (c, k) = card_location(b.columns, card_id).unwrap();
    let card = b.columns[c].cards[k];
    let set = set_card_due_date_spec(b, card_id, due_date, now).0;
    let undone = undo_spec(set, later).0;
    lemma_card_found_again(b, c, k, later);
    let edited = CardView { due_date: due_date, updated_at: again, ..card };
    lemma_set_twice(b.columns, c, k, CardView { updated_at: later, ..card }, edited);
    assert(undone.redo_stack =~= seq![set.undo_stack.last()]);
    let popped = BoardState { redo_stack: undone.redo_stack.drop_last(), ..undone };
    assert(popped.undo_stack.push(set.undo_stack.last()) =~= set.undo_stack);
}

/// Setting a card's tags, undoing it and doing it again gives the card the tags that were
/// set, as setting them at the time of the redo would.
pub proof fn law_redo_set_card_tags(
    b: BoardState,
    card_id: CardId,
    tag_ids: Seq<TagId>,
    now: i64,
    later: i64,
    again: i64,
)
    requires
        well_formed(b),
        set_card_tags_spec(b, card_id, tag_ids, now).1 == Ok::<bool, BoardError>(true),
    ensures
        ({
            let tagged = set_card_tags_spec(b, card_id, tag_ids, now).0;
            let undone = undo_spec(tagged, later).0;
            let (redone, r) = redo_spec(undone, again);
            &&& r == Ok::<bool, BoardError>(true)
            &&& redone.columns == set_card_tags_spec(b, card_id, tag_ids, again).0.columns
            &&& redone.tags == tagged.tags
            &&& redone.archived_cards == tagged.archived_cards
            &&& redone.undo_stack == tagged.undo_stack
            &&& redone.redo_stack.len() == 0
        }),
{
    law_undo_set_card_tags(b, card_id, tag_ids, now, later);
    lemma_card_location(b.columns, card_id);
    let (c, k) = card_location(b.columns, card_id).unwrap();
    let card = b.columns[c].cards[k];
    let tagged = set_card_tags_spec(b, card_id, tag_ids, now).0;
    let undone = undo_spec(tagged, later).0;
    lemma_card_found_again(b, c, k, later);
    let edited = CardView { tag_ids: sorted_unique(tag_ids), updated_at: again, ..card };
    lemma_set_twice(b.columns, c, k, CardView { updated_at: later, ..card }, edited);
    assert(undone.redo_stack =~= seq![tagged.undo_stack.last()]);
    let popped = BoardState { redo_stack: undone.redo_stack.drop_last(), ..undone };
    assert(popped.undo_stack.push(tagged.undo_stack.last()) =~= tagged.undo_stack);
}

/// On columns that are those of `b` with one column's updated time changed, that column
/// is found where it stood.
proof fn lemma_column_found_again(b: BoardState, c: int, at: i64)
    requires
        well_formed(b),
        0 <= c < b.columns.len(),
    ensures
        column_index(b.columns.update(c, ColumnView { updated_at: at, ..b.columns[c] }), b.columns[c].id)
            == Some(c),
{
    let cols = b.columns.update(c, ColumnView { updated_at: at, ..b.columns[c] });
    assert forall|c2: int| 0 <= c2 < cols.len() && c2 != c implies #[trigger] cols[c2].id != b.columns[c].id by {
        if c2 < c {
            assert(b.columns[c2].id != b.columns[c].id);
        } else {
            assert(b.columns[c].id != b.columns[c2].id);
        }
    }
    lemma_column_index_unique(cols, b.columns[c].id, c);
}

/// Renaming a column, undoing it and doing it again gives the column the new name, as
/// renaming it at the time of the redo would.
pub proof fn law_redo_rename_column(
    b: BoardState,
    column_id: ColumnId,
    name: Seq<char>,
    now: i64,
    later: i64,
    again: i64,
)
    requires
        well_formed(b),
        rename_column_spec(b, column_id, name, now).1 == Ok::<bool, BoardError>(true),
    ensures
        ({
            let renamed = rename_column_spec(b, column_id, name, now).0;
            let undone = undo_spec(renamed, later).0;
            let (redone, r) = redo_spec(undone, again);
            &&& r == Ok::<bool, BoardError>(true)
            &&& redone.columns == rename_column_spec(b, column_id, name, again).0.columns
            &&& redone.tags == renamed.tags
            &&& redone.archived_cards == renamed.archived_cards
            &&& redone.undo_stack == renamed.undo_stack
            &&& redone.redo_stack.len() == 0
        }),
{
    law_undo_rename_column(b, column_id, name, now, later);
    lemma_column_index(b.columns, column_id);
    let c = column_index(b.columns, column_id).unwrap();
    let renamed = rename_column_spec(b, column_id, name, now).0;
    let undone = undo_spec(renamed, later).0;
    lemma_column_found_again(b, c, later);
    let once = b.columns.update(c, ColumnView { updated_at: later, ..b.columns[c] });
    let column = ColumnView { name: name, updated_at: again, ..b.columns[c] };
    assert(once.update(c, column) =~= b.columns.update(c, column));
    assert(undone.redo_stack =~= seq![renamed.undo_stack.last()]);
    let popped = BoardState { redo_stack: undone.redo_stack.drop_last(), ..undone };
    assert(popped.undo_stack.push(renamed.undo_stack.last()) =~= renamed.undo_stack);
}

/// Setting a column's WIP limit, undoing it and doing it again gives the column the limit
/// that was set, as setting it at the time of the redo would.
pub proof fn law_redo_set_column_wip_limit(
    b: BoardState,
    column_id: ColumnId,
    wip_limit: Option<i64>,
    now: i64,
    later: i64,
    again: i64,
)
    requires
        well_formed(b),
        set_column_wip_limit_spec(b, column_id, wip_limit, now).1 == Ok::<bool, BoardError>(true),
    ensures
        ({
            let limited = set_column_wip_limit_spec(b, column_id, wip_limit, now).0;
            let undone = undo_spec(limited, later).0;
            let (redone, r) = redo_spec(undone, again);
            &&& r == Ok::<bool, BoardError>(true)
            &&& redone.columns == set_column_wip_limit_spec(b, column_id, wip_limit, again).0.columns
            &&& redone.tags == limited.tags
            &&& redone.archived_cards == limited.archived_cards
            &&& redone.undo_stack == limited.undo_stack
            &&& redone.redo_stack.len() == 0
        }),
{
    law_undo_set_column_wip_limit(b, column_id, wip_limit, now, later);
    lemma_column_index(b.columns, column_id);
    let c = column_index(b.columns, column_id).unwrap();
    let limited = set_column_wip_limit_spec(b, column_id, wip_limit, now).0;
    let undone = undo_spec(limited, later).0;
    lemma_column_found_again(b, c, later);
    let once = b.columns.update(c, ColumnView { updated_at: later, ..b.columns[c] });
    let column = ColumnView { wip_limit: wip_limit, updated_at: again, ..b.columns[c] };
    assert(once.update(c, column) =~= b.columns.update(c, column));
    assert(undone.redo_stack =~= seq![limited.undo_stack.last()]);
    let popped = BoardState { redo_stack: undone.redo_stack.drop_last(), ..undone };
    assert(popped.undo_stack.push(limited.undo_stack.last()) =~= limited.undo_stack);
}

/// Renaming a tag, undoing it and doing it again gives the tag the new name, as renaming
/// it at the time of the redo would.
pub proof fn law_redo_rename_tag(
    b: BoardState,
    tag_id: TagId,
    name: Seq<char>,
    now: i64,
    later: i64,
    again: i64,
)
    requires
        well_formed(b),
        rename_tag_spec(b, tag_id, name, now).1 == Ok::<bool, BoardError>(true),
    ensures
        ({
            let renamed = rename_tag_spec(b, tag_id, name, now).0;
            let undone = undo_spec(renamed, later).0;
            let (redone, r) = redo_spec(undone, again);
            &&& r == Ok::<bool, BoardError>(true)
            &&& redone.tags == rename_tag_spec(b, tag_id, name, again).0.tags
            &&& redone.columns == b.columns
            &&& redone.archived_cards == renamed.archived_cards
            &&& redone.undo_stack == renamed.undo_stack
            &&& redone.redo_stack.len() == 0
        }),
{
    law_undo_rename_tag(b, tag_id, name, now, later);
    lemma_tag_index(b.tags, tag_id, 0);
    let t = tag_index(b.tags, tag_id).unwrap();
    let renamed = rename_tag_spec(b, tag_id, name, now).0;
    let undone = undo_spec(renamed, later).0;
    lemma_tag_index_after_update(b.tags, tag_id, t, TagView { updated_at: later, ..b.tags[t] });
    let once = b.tags.update(t, TagView { updated_at: later, ..b.tags[t] });
    let tag = TagView { name: name, updated_at: again, ..b.tags[t] };
    assert(once.update(t, tag) =~= b.tags.update(t, tag));
    assert(undone.redo_stack =~= seq![renamed.undo_stack.last()]);
    let popped = BoardState { redo_stack: undone.redo_stack.drop_last(), ..undone };
    assert(popped.undo_stack.push(renamed.undo_stack.last()) =~= renamed.undo_stack);
}

/// Setting a tag's colour, undoing it and doing it again gives the tag the colour that was
/// set, as setting it at the time of the redo would.
pub proof fn law_redo_set_tag_color(
    b: BoardState,
    tag_id: TagId,
    color: Seq<char>,
    now: i64,
    later: i64,
    again: i64,
)
    requires
        well_formed(b),
        set_tag_color_spec(b, tag_id, color, now).1 == Ok::<bool, BoardError>(true),
    ensures
        ({
            let recolored = set_tag_color_spec(b, tag_id, color, now).0;
            let undone = undo_spec(recolored, later).0;
            let (redone, r) = redo_spec(undone, again);
            &&& r == Ok::<bool, BoardError>(true)
            &&& redone.tags == set_tag_color_spec(b, tag_id, color, again).0.tags
            &&& redone.columns == b.columns
            &&& redone.archived_cards == recolored.archived_cards
            &&& redone.undo_stack == recolored.undo_stack
            &&& redone.redo_stack.len() == 0
        }),
{
    law_undo_set_tag_color(b, tag_id, color, now, later);
    lemma_tag_index(b.tags, tag_id, 0);
    let t = tag_index(b.tags, tag_id).unwrap();
    let recolored = set_tag_color_spec(b, tag_id, color, now).0;
    let undone = undo_spec(recolored, later).0;
    lemma_tag_index_after_update(b.tags, tag_id, t, TagView { updated_at: later, ..b.tags[t] });
    let once = b.tags.update(t, TagView { updated_at: later, ..b.tags[t] });
    let tag = TagView { color: color, updated_at: again, ..b.tags[t] };
    assert(once.update(t, tag) =~= b.tags.update(t, tag));
    assert(undone.redo_stack =~= seq![recolored.undo_stack.last()]);
    let popped = BoardState { redo_stack: undone.redo_stack.drop_last(), ..undone };
    assert(popped.undo_stack.push(recolored.undo_stack.last()) =~= recolored.undo_stack);
}

/// Changing a checklist item's text, undoing it and doing it again gives the item the new
/// text, stamped with the time of the redo; the card keeps the time of the first change.
pub proof fn law_redo_update_checklist_item(
    b: BoardState,
    card_id: CardId,
    item_id: ChecklistItemId,
    text: Seq<char>,
    now: i64,
    later: i64,
    again: i64,
)
    requires
        well_formed(b),
        update_checklist_item_spec(b, card_id, item_id, text, now).1 == Ok::<bool, BoardError>(true),
    ensures
        ({
            let edited = update_checklist_item_spec(b, card_id, item_id, text, now).0;
            let undone = undo_spec(edited, later).0;
            let (redone, r) = redo_spec(undone, again);
            let (c, k) = card_location(b.columns, card_id).unwrap();
            let card = b.columns[c].cards[k];
            let i = item_index(card.checklist_items, item_id).unwrap();
            &&& r == Ok::<bool, BoardError>(true)
            &&& redone.columns == set_card_at(
                b.columns,
                c,
                k,
                CardView {
                    checklist_items: card.checklist_items.update(
                        i,
                        ChecklistItemView { text: text, updated_at: again, ..card.checklist_items[i] },
                    ),
                    updated_at: now,
                    ..card
                },
            )
            &&& redone.tags == edited.tags
            &&& redone.archived_cards == edited.archived_cards
            &&& redone.undo_stack == edited.undo_stack
            &&& redone.redo_stack.len() == 0
        }),
{
    law_undo_update_checklist_item(b, card_id, item_id, text, now, later);
    lemma_card_location(b.columns, card_id);
    let (c, k) = card_location(b.columns, card_id).unwrap();
    let card = b.columns[c].cards[k];
    let items = card.checklist_items;
    lemma_item_index(items, item_id, 0);
    let i = item_index(items, item_id).unwrap();
    let edited = update_checklist_item_spec(b, card_id, item_id, text, now).0;
    let undone = undo_spec(edited, later).0;
    let stamped = ChecklistItemView { updated_at: later, ..items[i] };
    let x = CardView { checklist_items: items.update(i, stamped), updated_at: now, ..card };
    lemma_location_after_set(b, c, k, x);
    lemma_item_index_after_update(items, item_id, i, stamped);
    let item = ChecklistItemView { text: text, updated_at: again, ..items[i] };
    let y = CardView { checklist_items: items.update(i, item), updated_at: now, ..card };
    assert(items.update(i, stamped).update(i, item) =~= items.update(i, item));
    lemma_set_twice(b.columns, c, k, x, y);
    assert(undone.redo_stack =~= seq![edited.undo_stack.last()]);
    let popped = BoardState { redo_stack: undone.redo_stack.drop_last(), ..undone };
    assert(popped.undo_stack.push(edited.undo_stack.last()) =~= edited.undo_stack);
}

/// Checking or unchecking a checklist item, undoing it and doing it again gives the item
/// that mark, stamped with the time of the redo; the card keeps the time of the first change.
pub proof fn law_redo_set_checklist_item_checked(
    b: BoardState,
    card_id: CardId,
    item_id: ChecklistItemId,
    checked: bool,
    now: i64,
    later: i64,
    again: i64,
)
    requires
        well_formed(b),
        set_checklist_item_checked_spec(b, card_id, item_id, checked, now).1 == Ok::<bool, BoardError>(true),
    ensures
        ({
            let edited = set_checklist_item_checked_spec(b, card_id, item_id, checked, now).0;
            let undone = undo_spec(edited, later).0;
            let (redone, r) = redo_spec(undone, again);
            let (c, k) = card_location(b.columns, card_id).unwrap();
            let card = b.columns[c].cards[k];
            let i = item_index(card.checklist_items, item_id).unwrap();
            &&& r == Ok::<bool, BoardError>(true)
            &&& redone.columns == set_card_at(
                b.columns,
                c,
                k,
                CardView {
                    checklist_items: card.checklist_items.update(
                        i,
                        ChecklistItemView { checked: checked, updated_at: again, ..card.checklist_items[i] },
                    ),
                    updated_at: now,
                    ..card
                },
            )
            &&& redone.tags == edited.tags
            &&& redone.archived_cards == edited.archived_cards
            &&& redone.undo_stack == edited.undo_stack
            &&& redone.redo_stack.len() == 0
        }),
{
    law_undo_set_checklist_item_checked(b, card_id, item_id, checked, now, later);
    lemma_card_location(b.columns, card_id);
    let (c, k) = card_location(b.columns, card_id).unwrap();
    let card = b.columns[c].cards[k];
    let items = card.checklist_items;
    lemma_item_index(items, item_id, 0);
    let i = item_index(items, item_id).unwrap();
    let edited = set_checklist_item_checked_spec(b, card_id, item_id, checked, now).0;
    let undone = undo_spec(edited, later).0;
    let stamped = ChecklistItemView { updated_at: later, ..items[i] };
    let x = CardView { checklist_items: items.update(i, stamped), updated_at: now, ..card };
    lemma_location_after_set(b, c, k, x);
    lemma_item_index_after_update(items, item_id, i, stamped);
    let item = ChecklistItemView { checked: checked, updated_at: again, ..items[i] };
    let y = CardView { checklist_items: items.update(i, item), updated_at: now, ..card };
    assert(items.update(i, stamped).update(i, item) =~= items.update(i, item));
    lemma_set_twice(b.columns, c, k, x, y);
    assert(undone.redo_stack =~= seq![edited.undo_stack.last()]);
    let popped = BoardState { redo_stack: undone.redo_stack.drop_last(), ..undone };
    assert(popped.undo_stack.push(edited.undo_stack.last()) =~= edited.undo_stack);
}

/// Deleting a card, undoing it and doing it again takes the card off the board again.
pub proof fn law_redo_delete_card(b: BoardState, card_id: CardId, now: i64, later: i64, again: i64)
    requires
        well_formed(b),
        delete_card_spec(b, card_id, now).1 is Ok,
    ensures
        ({
            let deleted = delete_card_spec(b, card_id, now).0;
            let undone = undo_spec(deleted, later).0;
            let (redone, r) = redo_spec(undone, again);
            &&& r == Ok::<bool, BoardError>(true)
            &&& redone.columns == deleted.columns
            &&& redone.archived_cards == deleted.archived_cards
            &&& redone.tags == deleted.tags
            &&& redone.undo_stack == deleted.undo_stack
            &&& redone.redo_stack.len() == 0
        }),
{
    law_undo_delete_card(b, card_id, now, later);
    lemma_card_location(b.columns, card_id);
    let deleted = delete_card_spec(b, card_id, now).0;
    let undone = undo_spec(deleted, later).0;
    assert(undone.redo_stack =~= seq![deleted.undo_stack.last()]);
    let popped = BoardState { redo_stack: undone.redo_stack.drop_last(), ..undone };
    assert(popped.undo_stack.push(deleted.undo_stack.last()) =~= deleted.undo_stack);
}

/// Archiving a card, undoing it and doing it again takes the card off the board and puts
/// it back at the end of the archive as it was archived.
pub proof fn law_redo_archive_card(b: BoardState, card_id: CardId, now: i64, later: i64, again: i64)
    requires
        well_formed(b),
        archive_card_spec(b, card_id, now).1 is Ok,
    ensures
        ({
            let archived = archive_card_spec(b, card_id, now).0;
            let undone = undo_spec(archived, later).0;
            let (redone, r) = redo_spec(undone, again);
            &&& r == Ok::<bool, BoardError>(true)
            &&& redone.columns == archived.columns
            &&& redone.archived_cards == archived.archived_cards
            &&& redone.tags == archived.tags
            &&& redone.undo_stack == archived.undo_stack
            &&& redone.redo_stack.len() == 0
        }),
{
    law_undo_archive_card(b, card_id, now, later);
    lemma_card_location(b.columns, card_id);
    let (c, k) = card_location(b.columns, card_id).unwrap();
    let archived = archive_card_spec(b, card_id, now).0;
    let undone = undo_spec(archived, later).0;
    lemma_reindex_idempotent(remove_card_at(b.columns, c, k));
    assert(undone.redo_stack =~= seq![archived.undo_stack.last()]);
    let popped = BoardState { redo_stack: undone.redo_stack.drop_last(), ..undone };
    assert(popped.undo_stack.push(archived.undo_stack.last()) =~= archived.undo_stack);
    let x = archived.archived_cards.last();
    assert(b.archived_cards.insert(b.archived_cards.len() as int, x) =~= b.archived_cards.push(x));
}

/// Adding a tag, undoing it and doing it again puts the same tag back at the end, and the
/// tag number stays used.
pub proof fn law_redo_add_tag(
    b: BoardState,
    name: Seq<char>,
    color: Seq<char>,
    now: i64,
    later: i64,
    again: i64,
)
    requires
        well_formed(b),
        b.next_tag_id < i64::MAX,
        add_tag_spec(b, name, color, now).1 is Ok,
    ensures
        ({
            let added = add_tag_spec(b, name, color, now).0;
            let undone = undo_spec(added, later).0;
            let (redone, r) = redo_spec(undone, again);
            &&& r == Ok::<bool, BoardError>(true)
            &&& redone.tags == added.tags
            &&& redone.columns == added.columns
            &&& redone.next_tag_id == added.next_tag_id
            &&& redone.archived_cards == added.archived_cards
            &&& redone.undo_stack == added.undo_stack
            &&& redone.redo_stack.len() == 0
        }),
{
    law_undo_add_tag(b, name, color, now, later);
    let added = add_tag_spec(b, name, color, now).0;
    let undone = undo_spec(added, later).0;
    assert(undone.redo_stack =~= seq![added.undo_stack.last()]);
    let popped = BoardState { redo_stack: undone.redo_stack.drop_last(), ..undone };
    assert(popped.undo_stack.push(added.undo_stack.last()) =~= added.undo_stack);
}

/// Adding a column, undoing it and doing it again puts the same column back at the end,
/// and the column number stays used.
pub proof fn law_redo_add_column(b: BoardState, name: Seq<char>, now: i64, later: i64, again: i64)
    requires
        well_formed(b),
        b.columns.len() > 0,
        b.next_column_id < i64::MAX,
        add_column_spec(b, name, now).1 is Ok,
    ensures
        ({
            let added = add_column_spec(b, name, now).0;
            let undone = undo_spec(added, later).0;
            let (redone, r) = redo_spec(undone, again);
            &&& r == Ok::<bool, BoardError>(true)
            &&& redone.columns == added.columns
            &&& redone.next_column_id == added.next_column_id
            &&& redone.tags == added.tags
            &&& redone.archived_cards == added.archived_cards
            &&& redone.undo_stack == added.undo_stack
            &&& redone.redo_stack.len() == 0
        }),
{
    law_undo_add_column(b, name, now, later);
    let added = add_column_spec(b, name, now).0;
    let undone = undo_spec(added, later).0;
    let len = b.columns.len() as int;
    let m = added.columns;
    assert(b.columns.insert(len, m[len]) =~= m);
    assert(reindex_columns(m) =~= m) by {
        assert forall|j: int| 0 <= j < m.len() implies #[trigger] reindex_columns(m)[j] == m[j] by {
            if j < len {
                assert(reindex_columns(b.columns)[j] == b.columns[j]);
            } else {
                assert(reindex_columns(m)[j].cards =~= m[j].cards);
            }
        }
    }
    assert(undone.redo_stack =~= seq![added.undo_stack.last()]);
    let popped = BoardState { redo_stack: undone.redo_stack.drop_last(), ..undone };
    assert(popped.undo_stack.push(added.undo_stack.last()) =~= added.undo_stack);
}

/// Moving a column, undoing it and doing it again puts the column back where it was moved.
pub proof fn law_redo_move_column(
    b: BoardState,
    column_id: ColumnId,
    target_index: usize,
    now: i64,
    later: i64,
    again: i64,
)
    requires
        well_formed(b),
        move_column_spec(b, column_id, target_index, now).1 == Ok::<bool, BoardError>(true),
    ensures
        ({
            let moved = move_column_spec(b, column_id, target_index, now).0;
            let undone = undo_spec(moved, later).0;
            let (redone, r) = redo_spec(undone, again);
            &&& r == Ok::<bool, BoardError>(true)
            &&& redone.columns == moved.columns
            &&& redone.tags == moved.tags
            &&& redone.archived_cards == moved.archived_cards
            &&& redone.undo_stack == moved.undo_stack
            &&& redone.redo_stack.len() == 0
        }),
{
    law_undo_move_column(b, column_id, target_index, now, later);
    lemma_column_index(b.columns, column_id);
    let c = column_index(b.columns, column_id).unwrap();
    let moved = move_column_spec(b, column_id, target_index, now).0;
    let undone = undo_spec(moved, later).0;
    lemma_column_found_again(b, c, now);
    let column = ColumnView { updated_at: now, ..b.columns[c] };
    assert(b.columns.update(c, column).remove(c) =~= b.columns.remove(c));
    let popped = BoardState { redo_stack: undone.redo_stack.drop_last(), ..undone };
    assert(popped.undo_stack.push(moved.undo_stack.last()) =~= moved.undo_stack);
}

/// Restoring a card, undoing it and doing it again puts the card back at the end of the
/// column it was restored to, and takes it out of the archive again.
pub proof fn law_redo_restore_card(b: BoardState, card_id: CardId, now: i64, later: i64, again: i64)
    requires
        well_formed(b),
        restore_card_spec(b, card_id, now).1 is Ok,
    ensures
        ({
            let restored = restore_card_spec(b, card_id, now).0;
            let undone = undo_spec(restored, later).0;
            let (redone, r) = redo_spec(undone, again);
            &&& r == Ok::<bool, BoardError>(true)
            &&& redone.columns == restored.columns
            &&& redone.archived_cards == restored.archived_cards
            &&& redone.tags == restored.tags
            &&& redone.undo_stack == restored.undo_stack
            &&& redone.redo_stack.len() == 0
        }),
{
    law_undo_restore_card(b, card_id, now, later);
    lemma_card_index(b.archived_cards, card_id);
    let ai = card_index(b.archived_cards, card_id).unwrap();
    let archived = b.archived_cards[ai];
    lemma_column_index(b.columns, archived.column_id);
    let c = restore_target(b, archived).unwrap();
    let len = b.columns[c].cards.len() as int;
    let restored = restore_card_spec(b, card_id, now).0;
    let undone = undo_spec(restored, later).0;
    let card = restored.undo_stack.last()->RestoreCard_restored_card;
    assert(b.columns[c].cards.push(card) =~= b.columns[c].cards.insert(len, card));
    let ins = insert_card_at(b.columns, c, len, card);
    lemma_reindex_idempotent(ins);
    assert forall|c2: int| 0 <= c2 < b.columns.len() && c2 != c implies #[trigger] b.columns[c2].id
        != b.columns[c].id by {
        if c2 < c {
            assert(b.columns[c2].id != b.columns[c].id);
        } else {
            assert(b.columns[c].id != b.columns[c2].id);
        }
    }
    lemma_column_index_unique(b.columns, b.columns[c].id, c);
    assert(CardView { archived_at: None, ..card } == card);
    assert(undone.redo_stack =~= seq![restored.undo_stack.last()]);
    let popped = BoardState { redo_stack: undone.redo_stack.drop_last(), ..undone };
    assert(popped.undo_stack.push(restored.undo_stack.last()) =~= restored.undo_stack);
}

/// Copying a card, undoing it and doing it again puts the same copy back right after its
/// source, and the copy's number stays used.
pub proof fn law_redo_copy_card(b: BoardState, card_id: CardId, now: i64, later: i64, again: i64)
    requires
        well_formed(b),
        b.next_card_id < i64::MAX,
        copy_card_spec(b, card_id, now).1 is Ok,
    ensures
        ({
            let copied = copy_card_spec(b, card_id, now).0;
            let undone = undo_spec(copied, later).0;
            let (redone, r) = redo_spec(undone, again);
            &&& r == Ok::<bool, BoardError>(true)
            &&& redone.columns == copied.columns
            &&& redone.next_card_id == copied.next_card_id
            &&& redone.tags == copied.tags
            &&& redone.archived_cards == copied.archived_cards
            &&& redone.undo_stack == copied.undo_stack
            &&& redone.redo_stack.len() == 0
        }),
{
    law_undo_copy_card(b, card_id, now, later);
    lemma_card_location(b.columns, card_id);
    let (c, k) = card_location(b.columns, card_id).unwrap();
    let copied = copy_card_spec(b, card_id, now).0;
    let undone = undo_spec(copied, later).0;
    let copy = copied.undo_stack.last()->CopyCard_card;
    assert(reindex_columns(b.columns)[c].cards[k] == reindex_card(b.columns[c].cards[k], b.columns[c].id, k));
    assert(copy.column_id == b.columns[c].id);
    assert forall|c2: int| 0 <= c2 < b.columns.len() && c2 != c implies #[trigger] b.columns[c2].id
        != b.columns[c].id by {
        if c2 < c {
            assert(b.columns[c2].id != b.columns[c].id);
        } else {
            assert(b.columns[c].id != b.columns[c2].id);
        }
    }
    lemma_column_index_unique(b.columns, b.columns[c].id, c);
    assert(CardView { archived_at: None, ..copy } == copy);
    assert(undone.redo_stack =~= seq![copied.undo_stack.last()]);
    let popped = BoardState { redo_stack: undone.redo_stack.drop_last(), ..undone };
    assert(popped.undo_stack.push(copied.undo_stack.last()) =~= copied.undo_stack);
}

/// Adding a checklist item, undoing it and doing it again puts the same item back at the
/// end of the checklist, and the item's number stays used.
pub proof fn law_redo_add_checklist_item(
    b: BoardState,
    card_id: CardId,
    text: Seq<char>,
    now: i64,
    later: i64,
    again: i64,
)
    requires
        well_formed(b),
        b.next_checklist_item_id < i64::MAX,
        checklists_sized(b),
        add_checklist_item_spec(b, card_id, text, now).1 is Ok,
    ensures
        ({
            let added = add_checklist_item_spec(b, card_id, text, now).0;
            let undone = undo_spec(added, later).0;
            let (redone, r) = redo_spec(undone, again);
            &&& r == Ok::<bool, BoardError>(true)
            &&& redone.columns == added.columns
            &&& redone.next_checklist_item_id == added.next_checklist_item_id
            &&& redone.tags == added.tags
            &&& redone.archived_cards == added.archived_cards
            &&& redone.undo_stack == added.undo_stack
            &&& redone.redo_stack.len() == 0
        }),
{
    law_undo_add_checklist_item(b, card_id, text, now, later);
    lemma_card_location(b.columns, card_id);
    let (c, k) = card_location(b.columns, card_id).unwrap();
    let card = b.columns[c].cards[k];
    let items = card.checklist_items;
    let added = add_checklist_item_spec(b, card_id, text, now).0;
    let undone = undo_spec(added, later).0;
    let x = CardView { updated_at: now, ..card };
    lemma_location_after_set(b, c, k, x);
    let item = added.undo_stack.last()->AddChecklistItem_item;
    assert(items.len() <= usize::MAX);
    assert(items.insert(items.len() as int, ChecklistItemView { card_id: card_id, ..item }) =~= items.push(item));
    let y = added.columns[c].cards[k];
    lemma_set_twice(b.columns, c, k, x, y);
    assert(undone.redo_stack =~= seq![added.undo_stack.last()]);
    let popped = BoardState { redo_stack: undone.redo_stack.drop_last(), ..undone };
    assert(popped.undo_stack.push(added.undo_stack.last()) =~= added.undo_stack);
}

/// Deleting a checklist item, undoing it and doing it again takes the item off the
/// checklist again.
pub proof fn law_redo_delete_checklist_item(
    b: BoardState,
    card_id: CardId,
    item_id: ChecklistItemId,
    now: i64,
    later: i64,
    again: i64,
)
    requires
        well_formed(b),
        checklists_sized(b),
        delete_checklist_item_spec(b, card_id, item_id, now).1 is Ok,
    ensures
        ({
            let deleted = delete_checklist_item_spec(b, card_id, item_id, now).0;
            let undone = undo_spec(deleted, later).0;
            let (redone, r) = redo_spec(undone, again);
            &&& r == Ok::<bool, BoardError>(true)
            &&& redone.columns == deleted.columns
            &&& redone.tags == deleted.tags
            &&& redone.archived_cards == deleted.archived_cards
            &&& redone.undo_stack == deleted.undo_stack
            &&& redone.redo_stack.len() == 0
        }),
{
    law_undo_delete_checklist_item(b, card_id, item_id, now, later);
    lemma_card_location(b.columns, card_id);
    let (c, k) = card_location(b.columns, card_id).unwrap();
    let card = b.columns[c].cards[k];
    let deleted = delete_checklist_item_spec(b, card_id, item_id, now).0;
    let undone = undo_spec(deleted, later).0;
    let x = CardView { updated_at: now, ..card };
    lemma_location_after_set(b, c, k, x);
    lemma_item_index(card.checklist_items, item_id, 0);
    let y = deleted.columns[c].cards[k];
    lemma_set_twice(b.columns, c, k, x, y);
    assert(undone.redo_stack =~= seq![deleted.undo_stack.last()]);
    let popped = BoardState { redo_stack: undone.redo_stack.drop_last(), ..undone };
    assert(popped.undo_stack.push(deleted.undo_stack.last()) =~= deleted.undo_stack);
}

/// Moving a checklist item, undoing it and doing it again puts the item back where it was
/// moved.
pub proof fn law_redo_move_checklist_item(
    b: BoardState,
    card_id: CardId,
    item_id: ChecklistItemId,
    target_index: usize,
    now: i64,
    later: i64,
    again: i64,
)
    requires
        well_formed(b),
        checklists_sized(b),
        move_checklist_item_spec(b, card_id, item_id, target_index, now).1 == Ok::<bool, BoardError>(true),
    ensures
        ({
            let moved = move_checklist_item_spec(b, card_id, item_id, target_index, now).0;
            let undone = undo_spec(moved, later).0;
            let (redone, r) = redo_spec(undone, again);
            &&& r == Ok::<bool, BoardError>(true)
            &&& redone.columns == moved.columns
            &&& redone.tags == moved.tags
            &&& redone.archived_cards == moved.archived_cards
            &&& redone.undo_stack == moved.undo_stack
            &&& redone.redo_stack.len() == 0
        }),
{
    law_undo_move_checklist_item(b, card_id, item_id, target_index, now, later);
    lemma_card_location(b.columns, card_id);
    let (c, k) = card_location(b.columns, card_id).unwrap();
    let card = b.columns[c].cards[k];
    let moved = move_checklist_item_spec(b, card_id, item_id, target_index, now).0;
    let undone = undo_spec(moved, later).0;
    let x = CardView { updated_at: now, ..card };
    lemma_location_after_set(b, c, k, x);
    lemma_item_index(card.checklist_items, item_id, 0);
    let y = moved.columns[c].cards[k];
    lemma_set_twice(b.columns, c, k, x, y);
    assert(undone.redo_stack =~= seq![moved.undo_stack.last()]);
    let popped = BoardState { redo_stack: undone.redo_stack.drop_last(), ..undone };
    assert(popped.undo_stack.push(moved.undo_stack.last()) =~= moved.undo_stack);
}

/// Saving the card editor, undoing it and doing it again gives the card everything that
/// was saved, all at once, stamped with the time of the redo.
pub proof fn law_redo_update_card_details(
    b: BoardState,
    card_id: CardId,
    title: Seq<char>,
    description: Seq<char>,
    due_date: Option<DueDate>,
    tag_ids: Seq<TagId>,
    drafts: Seq<DraftView>,
    now: i64,
    later: i64,
    again: i64,
)
    requires
        well_formed(b),
        update_card_details_spec(b, card_id, title, description, due_date, tag_ids, drafts, now).1
            == Ok::<bool, BoardError>(true),
    ensures
        ({
            let saved = update_card_details_spec(
                b,
                card_id,
                title,
                description,
                due_date,
                tag_ids,
                drafts,
                now,
            ).0;
            let undone = undo_spec(saved, later).0;
            let (redone, r) = redo_spec(undone, again);
            let (c, k) = card_location(b.columns, card_id).unwrap();
            &&& r == Ok::<bool, BoardError>(true)
            &&& redone.columns == set_card_at(
                saved.columns,
                c,
                k,
                CardView { updated_at: again, ..saved.columns[c].cards[k] },
            )
            &&& redone.tags == saved.tags
            &&& redone.archived_cards == saved.archived_cards
            &&& redone.undo_stack == saved.undo_stack
            &&& redone.redo_stack.len() == 0
        }),
{
    law_undo_update_card_details(b, card_id, title, description, due_date, tag_ids, drafts, now, later);
    lemma_card_location(b.columns, card_id);
    let (c, k) = card_location(b.columns, card_id).unwrap();
    let card = b.columns[c].cards[k];
    let saved = update_card_details_spec(b, card_id, title, description, due_date, tag_ids, drafts, now).0;
    let undone = undo_spec(saved, later).0;
    let edited = saved.columns[c].cards[k];
    assert(saved.columns == set_card_at(b.columns, c, k, edited));
    // Each step of the redo finds the card where it stands and sets it again.
    let s0 = CardView { updated_at: later, ..card };
    let s1 = CardView { title: edited.title, description: edited.description, updated_at: again, ..s0 };
    let s2 = CardView { due_date: edited.due_date, ..s1 };
    let s3 = CardView { tag_ids: edited.tag_ids, ..s2 };
    let s4 = CardView { checklist_items: reindex_items(card.id, edited.checklist_items), ..s3 };
    lemma_location_after_set(b, c, k, s0);
    lemma_set_twice(b.columns, c, k, s0, s1);
    lemma_location_after_set(b, c, k, s1);
    lemma_set_twice(b.columns, c, k, s1, s2);
    lemma_location_after_set(b, c, k, s2);
    lemma_set_twice(b.columns, c, k, s2, s3);
    lemma_location_after_set(b, c, k, s3);
    lemma_set_twice(b.columns, c, k, s3, s4);
    lemma_set_twice(b.columns, c, k, edited, CardView { updated_at: again, ..edited });
    // The saved checklist is in order already.
    assert(reindex_items(card.id, edited.checklist_items) =~= edited.checklist_items);
    assert(s4 == CardView { updated_at: again, ..edited });
    assert(undone.redo_stack =~= seq![saved.undo_stack.last()]);
    let popped = BoardState { redo_stack: undone.redo_stack.drop_last(), ..undone };
    assert(popped.undo_stack.push(saved.undo_stack.last()) =~= saved.undo_stack);
}

/// Giving cards their tags back leaves the histories alone.
proof fn lemma_restore_tags_keeps_histories(b: BoardState, assignments: Seq<(CardId, Seq<TagId>)>)
    ensures
        restore_card_tags_spec(b, assignments).undo_stack == b.undo_stack,
        restore_card_tags_spec(b, assignments).redo_stack == b.redo_stack,
    decreases assignments.len(),
{
    if assignments.len() > 0 {
        lemma_restore_tags_keeps_histories(b, assignments.drop_last());
    }
}

/// Removing a tag, undoing it and doing it again takes the tag off the board and off every
/// card again.
pub proof fn law_redo_remove_tag(b: BoardState, tag_id: TagId, now: i64, later: i64, again: i64)
    requires
        well_formed(b),
        remove_tag_spec(b, tag_id, now).1 is Ok,
    ensures
        ({
            let removed = remove_tag_spec(b, tag_id, now).0;
            let undone = undo_spec(removed, later).0;
            let (redone, r) = redo_spec(undone, again);
            &&& r == Ok::<bool, BoardError>(true)
            &&& redone.tags == removed.tags
            &&& redone.columns == removed.columns
            &&& redone.archived_cards == removed.archived_cards
            &&& redone.undo_stack == removed.undo_stack
            &&& redone.redo_stack.len() == 0
        }),
{
    law_undo_remove_tag(b, tag_id, now, later);
    lemma_tag_index(b.tags, tag_id, 0);
    let t = tag_index(b.tags, tag_id).unwrap();
    let removed = remove_tag_spec(b, tag_id, now).0;
    let undone = undo_spec(removed, later).0;
    let op = removed.undo_stack.last();
    let popped0 = BoardState { undo_stack: removed.undo_stack.drop_last(), ..removed };
    let start = BoardState { tags: popped0.tags.insert(t, b.tags[t]), ..popped0 };
    let mid = restore_card_tags_spec(start, op->RemoveTag_active_card_tags);
    lemma_restore_tags_keeps_histories(start, op->RemoveTag_active_card_tags);
    lemma_restore_tags_keeps_histories(mid, op->RemoveTag_archived_card_tags);
    assert((t as usize) as int == t);
    assert(undone.redo_stack =~= seq![removed.undo_stack.last()]);
    let popped = BoardState { redo_stack: undone.redo_stack.drop_last(), ..undone };
    assert(popped.undo_stack.push(removed.undo_stack.last()) =~= removed.undo_stack);
}

/// The archive with the first `j` cards of column `column_id` handed to `fallback` again
/// and the rest still back with their column.
spec fn archive_partly_gone(
    archived: Seq<CardView>,
    column_id: ColumnId,
    fallback: ColumnId,
    now: i64,
    j: int,
) -> Seq<CardView> {
    Seq::new(
        archived.len(),
        |i: int|
            if i < j {
                reassign_archived(archived, column_id, fallback, now)[i]
            } else {
                archive_handed_back(archived, column_id, now)[i]
            },
    )
}

/// Handing the archived cards of a column to `fallback` again, one by one.
proof fn lemma_relabel_again(
    b: BoardState,
    start: BoardState,
    column_id: ColumnId,
    fallback: ColumnId,
    now: i64,
    j: int,
)
    requires
        well_formed(b),
        start.archived_cards == archive_handed_back(b.archived_cards, column_id, now),
        0 <= j <= b.archived_cards.len(),
    ensures
        relabel_archived(start, archived_in_column(b.archived_cards.take(j), column_id), Some(fallback))
            == (BoardState {
            archived_cards: archive_partly_gone(b.archived_cards, column_id, fallback, now, j),
            ..start
        }),
    decreases j,
{
    let orig = b.archived_cards;
    if j == 0 {
        assert(orig.take(0) =~= Seq::<CardView>::empty());
        assert(archive_partly_gone(orig, column_id, fallback, now, 0) =~= start.archived_cards);
    } else {
        lemma_relabel_again(b, start, column_id, fallback, now, j - 1);
        let card = orig[j - 1];
        assert(orig.take(j).drop_last() =~= orig.take(j - 1));
        assert(orig.take(j).last() == card);
        let a = archive_partly_gone(orig, column_id, fallback, now, j - 1);
        let a2 = archive_partly_gone(orig, column_id, fallback, now, j);
        let before = archived_in_column(orig.take(j - 1), column_id);
        if card.column_id == column_id {
            let item = (card.id, card.column_id);
            assert(archived_in_column(orig.take(j), column_id) =~= before.push(item));
            assert(before.push(item).drop_last() =~= before);
            assert forall|i: int| 0 <= i < a.len() && i != j - 1 implies #[trigger] a[i].id != card.id by {
                if i < j - 1 {
                    assert(orig[i].id != orig[j - 1].id);
                } else {
                    assert(orig[j - 1].id != orig[i].id);
                }
            }
            lemma_card_index_unique(a, card.id, j - 1);
            assert(a.update(j - 1, CardView { column_id: fallback, ..a[j - 1] }) =~= a2);
        } else {
            assert(archived_in_column(orig.take(j), column_id) =~= before);
            assert(a2 =~= a);
        }
    }
}

/// Removing a column, undoing it and doing it again takes the column off the board again
/// and hands its archived cards to the same other column.
pub proof fn law_redo_remove_column(b: BoardState, column_id: ColumnId, now: i64, later: i64, again: i64)
    requires
        well_formed(b),
        remove_column_spec(b, column_id, now).1 is Ok,
    ensures
        ({
            let removed = remove_column_spec(b, column_id, now).0;
            let undone = undo_spec(removed, later).0;
            let (redone, r) = redo_spec(undone, again);
            &&& r == Ok::<bool, BoardError>(true)
            &&& redone.columns == removed.columns
            &&& redone.archived_cards == removed.archived_cards
            &&& redone.tags == removed.tags
            &&& redone.undo_stack == removed.undo_stack
            &&& redone.redo_stack.len() == 0
        }),
{
    law_undo_remove_column(b, column_id, now, later);
    lemma_column_index(b.columns, column_id);
    let c = column_index(b.columns, column_id).unwrap();
    let column = b.columns[c];
    let removed = remove_column_spec(b, column_id, now).0;
    let undone = undo_spec(removed, later).0;
    let op = removed.undo_stack.last();
    let popped0 = BoardState { undo_stack: removed.undo_stack.drop_last(), ..removed };
    assert((c as usize) as int == c);
    let inserted = BoardState { columns: popped0.columns.insert(c, column), ..popped0 };
    lemma_relabel_keeps_columns(inserted, op->RemoveColumn_archived_card_column_ids, None);
    assert(undone.redo_stack =~= seq![op]);
    let popped = BoardState { redo_stack: undone.redo_stack.drop_last(), ..undone };
    assert(popped.undo_stack.push(op) =~= removed.undo_stack);
    lemma_column_index(popped.columns, column.id);
    let rest = BoardState { columns: reindex_columns(b.columns.remove(c)), ..popped };
    let fallback = op->RemoveColumn_fallback_column_id;
    lemma_relabel_keeps_columns(rest, op->RemoveColumn_archived_card_column_ids, Some(fallback));
    lemma_relabel_again(b, rest, column_id, fallback, now, b.archived_cards.len() as int);
    assert(b.archived_cards.take(b.archived_cards.len() as int) =~= b.archived_cards);
    assert(archive_partly_gone(b.archived_cards, column_id, fallback, now, b.archived_cards.len() as int)
        =~= reassign_archived(b.archived_cards, column_id, fallback, now));
    lemma_reindex_idempotent(b.columns.remove(c));
}

} // verus!
