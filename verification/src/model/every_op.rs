//! Undo and redo over every operation at once: taking back any operation that changed the
//! board gives back the board it started from, and doing it again gives back the board it
//! made, but for the times things were last changed. Neither adds to the card history, and
//! undo hands out no number again.
use vstd::prelude::*;
use crate::model::raw_spec::restore_card_tags_spec;
use crate::model::replay_spec::{
    archive_column_steps, redo_spec, relabel_archived, replay_spec, undo_spec,
};
use crate::date::DueDate;
use crate::model::cards::{
    archive_card_spec, archive_column_spec, copy_card_spec, delete_card_spec, restore_card_spec,
};
use crate::model::checklist::{
    add_checklist_item_spec, delete_checklist_item_spec, move_checklist_item_spec,
    set_checklist_item_checked_spec, update_checklist_item_spec,
};
use crate::model::columns::{add_column_spec, remove_column_spec, rename_column_spec};
use crate::model::details::{update_card_details_spec, DraftView};
use crate::model::laws::{
    archive_handed_back, checklists_sized, law_undo_add_card, law_undo_add_checklist_item,
    law_undo_add_column, law_undo_add_tag, law_undo_archive_card, law_undo_copy_card,
    law_undo_delete_card, law_undo_delete_checklist_item, law_undo_move_card,
    law_undo_move_checklist_item, law_undo_move_column, law_undo_remove_column,
    law_undo_rename_column, law_undo_rename_tag, law_undo_restore_card,
    law_undo_set_card_due_date, law_undo_set_card_tags, law_undo_set_checklist_item_checked,
    law_undo_set_column_wip_limit, law_undo_set_tag_color, law_undo_update_card,
    law_undo_update_card_details, law_undo_update_checklist_item, well_formed,
};
use crate::model::archive_undo::law_undo_archive_column;
use crate::model::redo::{law_redo_add_checklist_item, law_redo_add_column, law_redo_add_tag, law_redo_archive_card, law_redo_copy_card, law_redo_delete_card, law_redo_delete_checklist_item, law_redo_move_checklist_item, law_redo_move_column, law_redo_remove_column, law_redo_remove_tag, law_redo_rename_column, law_redo_rename_tag, law_redo_restore_card, law_redo_set_card_due_date, law_redo_set_card_tags, law_redo_set_checklist_item_checked, law_redo_set_column_wip_limit, law_redo_set_tag_color, law_redo_update_card, law_redo_update_card_details, law_redo_update_checklist_item};
use crate::model::laws::{law_redo_add_card, law_redo_move_card};
use crate::model::sort_undo::{law_redo_sort_column_by_due_date};
use crate::model::archive_undo::{law_redo_archive_column};
use crate::model::sort_undo::law_undo_sort_column_by_due_date;
use crate::model::tag_undo::law_undo_remove_tag;
use crate::model::ops::{
    add_card_spec, move_card_spec, move_column_spec, set_card_due_date_spec,
    set_column_wip_limit_spec, update_card_spec,
};
use crate::model::sort::sort_column_by_due_date_spec;
use crate::model::tags::{
    add_tag_spec, remove_tag_spec, rename_tag_spec, set_card_tags_spec, set_tag_color_spec,
    sorted_unique,
};
use crate::model::spec::{
    card_location, column_index, item_index, lemma_card_location, lemma_column_index,
    lemma_item_index, lemma_tag_index, set_card_at, tag_index,
};
use crate::model::types::{
    ArchivedCardView, BoardError, BoardState, CardId, CardView, ChecklistItemId, ChecklistItemView,
    ColumnId, ColumnView,
    OperationView, TagId, TagView,
};

verus! {

/// What replaying an operation leaves alone: the card history and both histories of
/// operations.
pub open spec fn histories_kept(x: BoardState, y: BoardState) -> bool {
    &&& x.pending_events == y.pending_events
    &&& x.undo_stack == y.undo_stack
    &&& x.redo_stack == y.redo_stack
}

/// The numbers handed out next, all four, are the same.
pub open spec fn counters_kept(x: BoardState, y: BoardState) -> bool {
    &&& x.next_card_id == y.next_card_id
    &&& x.next_column_id == y.next_column_id
    &&& x.next_tag_id == y.next_tag_id
    &&& x.next_checklist_item_id == y.next_checklist_item_id
}

proof fn lemma_steps_keep(b: BoardState, ops: Seq<ArchivedCardView>, start: usize, undo: bool)
    ensures
        histories_kept(archive_column_steps(b, ops, start, undo).0, b),
        counters_kept(archive_column_steps(b, ops, start, undo).0, b),
    decreases ops.len(),
{
    if ops.len() > 0 {
        lemma_steps_keep(b, ops.drop_last(), start, undo);
    }
}

proof fn lemma_restore_tags_keep(b: BoardState, assignments: Seq<(CardId, Seq<TagId>)>)
    ensures
        histories_kept(restore_card_tags_spec(b, assignments), b),
        counters_kept(restore_card_tags_spec(b, assignments), b),
    decreases assignments.len(),
{
    if assignments.len() > 0 {
        lemma_restore_tags_keep(b, assignments.drop_last());
    }
}

proof fn lemma_relabel_keep(b: BoardState, pairs: Seq<(CardId, ColumnId)>, fallback: Option<ColumnId>)
    ensures
        histories_kept(relabel_archived(b, pairs, fallback), b),
        counters_kept(relabel_archived(b, pairs, fallback), b),
    decreases pairs.len(),
{
    if pairs.len() > 0 {
        lemma_relabel_keep(b, pairs.drop_last(), fallback);
    }
}

/// Replaying an operation, either way, records no event and leaves the histories of
/// operations; replaying it backwards hands out no number.
#[verifier::spinoff_prover]
#[verifier::rlimit(40)]
pub proof fn lemma_replay_keeps(b: BoardState, op: OperationView, undo: bool, now: i64)
    ensures
        histories_kept(replay_spec(b, op, undo, now).0, b),
        undo ==> counters_kept(replay_spec(b, op, undo, now).0, b),
{
    let r = replay_spec(b, op, undo, now).0;
    match op {
        OperationView::MoveCard { .. } => {
            assert(histories_kept(r, b) && (undo ==> counters_kept(r, b)));
        },
        OperationView::MoveColumn { .. } => {
            assert(histories_kept(r, b) && (undo ==> counters_kept(r, b)));
        },
        OperationView::AddCard { .. } => {
            assert(histories_kept(r, b) && (undo ==> counters_kept(r, b)));
        },
        OperationView::UpdateCard { .. } => {
            assert(histories_kept(r, b) && (undo ==> counters_kept(r, b)));
        },
        OperationView::EditCard { .. } => {
            assert(histories_kept(r, b) && (undo ==> counters_kept(r, b)));
        },
        OperationView::CopyCard { .. } => {
            assert(histories_kept(r, b) && (undo ==> counters_kept(r, b)));
        },
        OperationView::AddChecklistItem { .. } => {
            assert(histories_kept(r, b) && (undo ==> counters_kept(r, b)));
        },
        OperationView::UpdateChecklistItem { .. } => {
            assert(histories_kept(r, b) && (undo ==> counters_kept(r, b)));
        },
        OperationView::SetChecklistItemChecked { .. } => {
            assert(histories_kept(r, b) && (undo ==> counters_kept(r, b)));
        },
        OperationView::DeleteChecklistItem { .. } => {
            assert(histories_kept(r, b) && (undo ==> counters_kept(r, b)));
        },
        OperationView::MoveChecklistItem { .. } => {
            assert(histories_kept(r, b) && (undo ==> counters_kept(r, b)));
        },
        OperationView::DeleteCard { .. } => {
            assert(histories_kept(r, b) && (undo ==> counters_kept(r, b)));
        },
        OperationView::ArchiveCard { .. } => {
            assert(histories_kept(r, b) && (undo ==> counters_kept(r, b)));
        },
        OperationView::RestoreCard { .. } => {
            assert(histories_kept(r, b) && (undo ==> counters_kept(r, b)));
        },
        OperationView::SetDueDate { .. } => {
            assert(histories_kept(r, b) && (undo ==> counters_kept(r, b)));
        },
        OperationView::SortColumnByDueDate { .. } => {
            assert(histories_kept(r, b) && (undo ==> counters_kept(r, b)));
        },
        OperationView::SetColumnWipLimit { .. } => {
            assert(histories_kept(r, b) && (undo ==> counters_kept(r, b)));
        },
        OperationView::AddTag { .. } => {
            assert(histories_kept(r, b) && (undo ==> counters_kept(r, b)));
        },
        OperationView::RenameTag { .. } => {
            assert(histories_kept(r, b) && (undo ==> counters_kept(r, b)));
        },
        OperationView::SetTagColor { .. } => {
            assert(histories_kept(r, b) && (undo ==> counters_kept(r, b)));
        },
        OperationView::SetCardTags { .. } => {
            assert(histories_kept(r, b) && (undo ==> counters_kept(r, b)));
        },
        OperationView::AddColumn { .. } => {
            assert(histories_kept(r, b) && (undo ==> counters_kept(r, b)));
        },
        OperationView::RenameColumn { .. } => {
            assert(histories_kept(r, b) && (undo ==> counters_kept(r, b)));
        },
        OperationView::ArchiveColumn { column_id, cards, archived_start } => {
            lemma_steps_keep(b, cards, archived_start, undo);
        },
        OperationView::RemoveTag { tag, index, active_card_tags, archived_card_tags } => {
            let start = BoardState { tags: b.tags.insert(index as int, tag), ..b };
            lemma_restore_tags_keep(start, active_card_tags);
            lemma_restore_tags_keep(restore_card_tags_spec(start, active_card_tags), archived_card_tags);
        },
        OperationView::RemoveColumn { column, index, fallback_column_id, archived_card_column_ids } => {
            let inserted = BoardState { columns: b.columns.insert(index as int, column), ..b };
            lemma_relabel_keep(inserted, archived_card_column_ids, None);
            let removed = crate::model::raw_spec::remove_column_raw_spec(b, column.id).0;
            lemma_relabel_keep(removed, archived_card_column_ids, Some(fallback_column_id));
        },
    }
}

/// Undoing keeps the card history and the numbers handed out next; when it takes an
/// operation back, the operation goes on top of the redo history.
pub proof fn lemma_undo_keeps(a: BoardState, later: i64)
    ensures
        ({
            let (u, r) = undo_spec(a, later);
            &&& u.pending_events == a.pending_events
            &&& counters_kept(u, a)
            &&& r == Ok::<bool, crate::model::types::BoardError>(true) ==> a.undo_stack.len() > 0
                && u.redo_stack == a.redo_stack.push(a.undo_stack.last())
        }),
{
    if a.undo_stack.len() > 0 {
        let popped = BoardState { undo_stack: a.undo_stack.drop_last(), ..a };
        lemma_replay_keeps(popped, a.undo_stack.last(), true, later);
    }
}

/// Redoing keeps the card history; when it does an operation again, the operation leaves
/// the top of the redo history for the top of the undo history.
pub proof fn lemma_redo_keeps(a: BoardState, again: i64)
    ensures
        ({
            let (u, r) = redo_spec(a, again);
            &&& u.pending_events == a.pending_events
            &&& r == Ok::<bool, crate::model::types::BoardError>(true) ==> a.redo_stack.len() > 0
                && u.undo_stack == a.undo_stack.push(a.redo_stack.last()) && u.redo_stack
                == a.redo_stack.drop_last()
        }),
{
    if a.redo_stack.len() > 0 {
        let popped = BoardState { redo_stack: a.redo_stack.drop_last(), ..a };
        lemma_replay_keeps(popped, a.redo_stack.last(), false, again);
    }
}

} // verus!

verus! {

// ---------------------------------------------------------------------------------------
// Boards alike but for the times things were last changed.

pub open spec fn untimed_item(i: ChecklistItemView) -> ChecklistItemView {
    ChecklistItemView { updated_at: 0, ..i }
}

pub open spec fn untimed_card(c: CardView) -> CardView {
    CardView {
        updated_at: 0,
        checklist_items: c.checklist_items.map_values(|i: ChecklistItemView| untimed_item(i)),
        ..c
    }
}

pub open spec fn untimed_cards(cards: Seq<CardView>) -> Seq<CardView> {
    cards.map_values(|c: CardView| untimed_card(c))
}

pub open spec fn untimed_columns(columns: Seq<ColumnView>) -> Seq<ColumnView> {
    columns.map_values(|col: ColumnView| ColumnView { updated_at: 0, cards: untimed_cards(col.cards), ..col })
}

pub open spec fn untimed_tag(t: TagView) -> TagView {
    TagView { updated_at: 0, ..t }
}

pub open spec fn untimed_tags(tags: Seq<TagView>) -> Seq<TagView> {
    tags.map_values(|t: TagView| untimed_tag(t))
}

/// A column without the time of its last change; its cards as they are.
pub open spec fn column_without_time(col: ColumnView) -> ColumnView {
    ColumnView { updated_at: 0, ..col }
}

/// Two boards hold the same columns, cards, checklist items, tags and archive when every
/// time of a last change is left aside.
pub open spec fn same_but_times(x: BoardState, y: BoardState) -> bool {
    &&& untimed_columns(x.columns) == untimed_columns(y.columns)
    &&& untimed_tags(x.tags) == untimed_tags(y.tags)
    &&& untimed_cards(x.archived_cards) == untimed_cards(y.archived_cards)
}

/// A card given another time of its last change, and perhaps one of its checklist items
/// too, is alike but for times.
proof fn lemma_card_time(cols: Seq<ColumnView>, c: int, k: int, x: CardView)
    requires
        0 <= c < cols.len(),
        0 <= k < cols[c].cards.len(),
        untimed_card(x) == untimed_card(cols[c].cards[k]),
    ensures
        untimed_columns(set_card_at(cols, c, k, x)) == untimed_columns(cols),
{
    let s = set_card_at(cols, c, k, x);
    assert(untimed_cards(s[c].cards) =~= untimed_cards(cols[c].cards));
    assert(untimed_columns(s) =~= untimed_columns(cols));
}

/// A checklist with one item given another time of its last change is alike but for times.
proof fn lemma_item_time(items: Seq<ChecklistItemView>, i: int, t: i64)
    requires
        0 <= i < items.len(),
    ensures
        items.update(i, ChecklistItemView { updated_at: t, ..items[i] }).map_values(
            |x: ChecklistItemView| untimed_item(x),
        ) == items.map_values(|x: ChecklistItemView| untimed_item(x)),
{
    assert(items.update(i, ChecklistItemView { updated_at: t, ..items[i] }).map_values(
        |x: ChecklistItemView| untimed_item(x),
    ) =~= items.map_values(|x: ChecklistItemView| untimed_item(x)));
}

/// A column given another time of its last change is alike but for times.
proof fn lemma_column_time(cols: Seq<ColumnView>, c: int, t: i64)
    requires
        0 <= c < cols.len(),
    ensures
        untimed_columns(cols.update(c, ColumnView { updated_at: t, ..cols[c] })) == untimed_columns(cols),
{
    assert(untimed_columns(cols.update(c, ColumnView { updated_at: t, ..cols[c] })) =~= untimed_columns(cols));
}

/// A tag given another time of its last change is alike but for times.
proof fn lemma_tag_time(tags: Seq<TagView>, i: int, t: i64)
    requires
        0 <= i < tags.len(),
    ensures
        untimed_tags(tags.update(i, TagView { updated_at: t, ..tags[i] })) == untimed_tags(tags),
{
    assert(untimed_tags(tags.update(i, TagView { updated_at: t, ..tags[i] })) =~= untimed_tags(tags));
}

/// The archive handed back to a column is alike but for times.
proof fn lemma_handed_back_time(archived: Seq<CardView>, column_id: ColumnId, now: i64)
    ensures
        untimed_cards(archive_handed_back(archived, column_id, now)) == untimed_cards(archived),
{
    assert(untimed_cards(archive_handed_back(archived, column_id, now)) =~= untimed_cards(archived));
}

} // verus!

verus! {

// ---------------------------------------------------------------------------------------
// Every operation that undo takes back.

/// A call of one of the board's operations, with its arguments.
pub enum BoardCall {
    AddCard { column_id: ColumnId, title: Seq<char>, description: Seq<char> },
    MoveCard { card_id: CardId, target_column_id: ColumnId, target_index: usize },
    MoveColumn { column_id: ColumnId, target_index: usize },
    DeleteCard { card_id: CardId },
    ArchiveCard { card_id: CardId },
    ArchiveColumn { column_id: ColumnId },
    RestoreCard { card_id: CardId },
    CopyCard { card_id: CardId },
    UpdateCard { card_id: CardId, title: Seq<char>, description: Seq<char> },
    SetCardDueDate { card_id: CardId, due_date: Option<DueDate> },
    SetCardTags { card_id: CardId, tag_ids: Seq<TagId> },
    UpdateCardDetails {
        card_id: CardId,
        title: Seq<char>,
        description: Seq<char>,
        due_date: Option<DueDate>,
        tag_ids: Seq<TagId>,
        drafts: Seq<DraftView>,
    },
    AddChecklistItem { card_id: CardId, text: Seq<char> },
    UpdateChecklistItem { card_id: CardId, item_id: ChecklistItemId, text: Seq<char> },
    SetChecklistItemChecked { card_id: CardId, item_id: ChecklistItemId, checked: bool },
    DeleteChecklistItem { card_id: CardId, item_id: ChecklistItemId },
    MoveChecklistItem { card_id: CardId, item_id: ChecklistItemId, target_index: usize },
    AddColumn { name: Seq<char> },
    RenameColumn { column_id: ColumnId, name: Seq<char> },
    SetColumnWipLimit { column_id: ColumnId, wip_limit: Option<i64> },
    RemoveColumn { column_id: ColumnId },
    SortColumnByDueDate { column_id: ColumnId },
    AddTag { name: Seq<char>, color: Seq<char> },
    RenameTag { tag_id: TagId, name: Seq<char> },
    SetTagColor { tag_id: TagId, color: Seq<char> },
    RemoveTag { tag_id: TagId },
}

/// What `call` makes of board `b` at time `now`, and whether it changed the board and put
/// an operation on the undo history: an answer of `Ok(true)`, a number, or a count above 0.
pub open spec fn call_spec(b: BoardState, call: BoardCall, now: i64) -> (BoardState, bool) {
    match call {
        BoardCall::AddCard { column_id, title, description } => {
            let (a, r) = add_card_spec(b, column_id, title, description, now);
            (a, r is Ok)
        },
        BoardCall::MoveCard { card_id, target_column_id, target_index } => {
            let (a, r) = move_card_spec(b, card_id, target_column_id, target_index, now);
            (a, r == Ok::<bool, BoardError>(true))
        },
        BoardCall::MoveColumn { column_id, target_index } => {
            let (a, r) = move_column_spec(b, column_id, target_index, now);
            (a, r == Ok::<bool, BoardError>(true))
        },
        BoardCall::DeleteCard { card_id } => {
            let (a, r) = delete_card_spec(b, card_id, now);
            (a, r is Ok)
        },
        BoardCall::ArchiveCard { card_id } => {
            let (a, r) = archive_card_spec(b, card_id, now);
            (a, r is Ok)
        },
        BoardCall::ArchiveColumn { column_id } => {
            let (a, r) = archive_column_spec(b, column_id, now);
            (a, r matches Ok(n) && n > 0)
        },
        BoardCall::RestoreCard { card_id } => {
            let (a, r) = restore_card_spec(b, card_id, now);
            (a, r is Ok)
        },
        BoardCall::CopyCard { card_id } => {
            let (a, r) = copy_card_spec(b, card_id, now);
            (a, r is Ok)
        },
        BoardCall::UpdateCard { card_id, title, description } => {
            let (a, r) = update_card_spec(b, card_id, title, description, now);
            (a, r == Ok::<bool, BoardError>(true))
        },
        BoardCall::SetCardDueDate { card_id, due_date } => {
            let (a, r) = set_card_due_date_spec(b, card_id, due_date, now);
            (a, r == Ok::<bool, BoardError>(true))
        },
        BoardCall::SetCardTags { card_id, tag_ids } => {
            let (a, r) = set_card_tags_spec(b, card_id, tag_ids, now);
            (a, r == Ok::<bool, BoardError>(true))
        },
        BoardCall::UpdateCardDetails { card_id, title, description, due_date, tag_ids, drafts } => {
            let (a, r) = update_card_details_spec(b, card_id, title, description, due_date, tag_ids, drafts, now);
            (a, r == Ok::<bool, BoardError>(true))
        },
        BoardCall::AddChecklistItem { card_id, text } => {
            let (a, r) = add_checklist_item_spec(b, card_id, text, now);
            (a, r is Ok)
        },
        BoardCall::UpdateChecklistItem { card_id, item_id, text } => {
            let (a, r) = update_checklist_item_spec(b, card_id, item_id, text, now);
            (a, r == Ok::<bool, BoardError>(true))
        },
        BoardCall::SetChecklistItemChecked { card_id, item_id, checked } => {
            let (a, r) = set_checklist_item_checked_spec(b, card_id, item_id, checked, now);
            (a, r == Ok::<bool, BoardError>(true))
        },
        BoardCall::DeleteChecklistItem { card_id, item_id } => {
            let (a, r) = delete_checklist_item_spec(b, card_id, item_id, now);
            (a, r is Ok)
        },
        BoardCall::MoveChecklistItem { card_id, item_id, target_index } => {
            let (a, r) = move_checklist_item_spec(b, card_id, item_id, target_index, now);
            (a, r == Ok::<bool, BoardError>(true))
        },
        BoardCall::AddColumn { name } => {
            let (a, r) = add_column_spec(b, name, now);
            (a, r is Ok)
        },
        BoardCall::RenameColumn { column_id, name } => {
            let (a, r) = rename_column_spec(b, column_id, name, now);
            (a, r == Ok::<bool, BoardError>(true))
        },
        BoardCall::SetColumnWipLimit { column_id, wip_limit } => {
            let (a, r) = set_column_wip_limit_spec(b, column_id, wip_limit, now);
            (a, r == Ok::<bool, BoardError>(true))
        },
        BoardCall::RemoveColumn { column_id } => {
            let (a, r) = remove_column_spec(b, column_id, now);
            (a, r is Ok)
        },
        BoardCall::SortColumnByDueDate { column_id } => {
            let (a, r) = sort_column_by_due_date_spec(b, column_id, now);
            (a, r == Ok::<bool, BoardError>(true))
        },
        BoardCall::AddTag { name, color } => {
            let (a, r) = add_tag_spec(b, name, color, now);
            (a, r is Ok)
        },
        BoardCall::RenameTag { tag_id, name } => {
            let (a, r) = rename_tag_spec(b, tag_id, name, now);
            (a, r == Ok::<bool, BoardError>(true))
        },
        BoardCall::SetTagColor { tag_id, color } => {
            let (a, r) = set_tag_color_spec(b, tag_id, color, now);
            (a, r == Ok::<bool, BoardError>(true))
        },
        BoardCall::RemoveTag { tag_id } => {
            let (a, r) = remove_tag_spec(b, tag_id, now);
            (a, r is Ok)
        },
    }
}

/// The limits of a board in memory that `call` needs: room for the number it hands out,
/// checklists whose places fit a `usize`, and, for a new column, a column to keep when it
/// is taken back.
pub open spec fn call_fits(b: BoardState, call: BoardCall) -> bool {
    match call {
        BoardCall::AddCard { .. } => b.next_card_id < i64::MAX,
        BoardCall::CopyCard { .. } => b.next_card_id < i64::MAX,
        BoardCall::AddColumn { .. } => b.columns.len() > 0 && b.next_column_id < i64::MAX,
        BoardCall::AddTag { .. } => b.next_tag_id < i64::MAX,
        BoardCall::AddChecklistItem { .. } => b.next_checklist_item_id < i64::MAX && checklists_sized(b),
        BoardCall::DeleteChecklistItem { .. } => checklists_sized(b),
        BoardCall::MoveChecklistItem { .. } => checklists_sized(b),
        _ => true,
    }
}

} // verus!

verus! {

/// Undo gives back the board before any operation that changed it: the same columns,
/// cards, checklists, tags and archive, but for the times of their last change. The undo
/// history is as before the operation, the operation waits on the redo history, the card
/// history is as the operation left it, and no number it handed out is handed out again.
#[verifier::spinoff_prover]
#[verifier::rlimit(60)]
pub proof fn law_undo_gives_back_the_board(b: BoardState, call: BoardCall, now: i64, later: i64)
    requires
        well_formed(b),
        call_fits(b, call),
        call_spec(b, call, now).1,
    ensures
        ({
            let after = call_spec(b, call, now).0;
            let (undone, r) = undo_spec(after, later);
            &&& r == Ok::<bool, BoardError>(true)
            &&& same_but_times(undone, b)
            &&& undone.undo_stack == b.undo_stack
            &&& after.undo_stack.len() > 0
            &&& undone.redo_stack == after.redo_stack.push(after.undo_stack.last())
            &&& counters_kept(undone, after)
            &&& undone.pending_events == after.pending_events
        }),
{
    let after = call_spec(b, call, now).0;
    match call {
        BoardCall::AddCard { column_id, title, description } => {
            law_undo_add_card(b, column_id, title, description, now, later);
        },
        BoardCall::MoveCard { card_id, target_column_id, target_index } => {
            law_undo_move_card(b, card_id, target_column_id, target_index, now, later);
            lemma_card_location(b.columns, card_id);
            let (c, k) = card_location(b.columns, card_id).unwrap();
            lemma_card_time(b.columns, c, k, CardView { updated_at: now, ..b.columns[c].cards[k] });
        },
        BoardCall::MoveColumn { column_id, target_index } => {
            law_undo_move_column(b, column_id, target_index, now, later);
            lemma_column_index(b.columns, column_id);
            let c = column_index(b.columns, column_id).unwrap();
            lemma_column_time(b.columns, c, now);
        },
        BoardCall::DeleteCard { card_id } => {
            law_undo_delete_card(b, card_id, now, later);
        },
        BoardCall::ArchiveCard { card_id } => {
            law_undo_archive_card(b, card_id, now, later);
        },
        BoardCall::ArchiveColumn { column_id } => {
            law_undo_archive_column(b, column_id, now, later);
        },
        BoardCall::RestoreCard { card_id } => {
            law_undo_restore_card(b, card_id, now, later);
        },
        BoardCall::CopyCard { card_id } => {
            law_undo_copy_card(b, card_id, now, later);
        },
        BoardCall::UpdateCard { card_id, title, description } => {
            law_undo_update_card(b, card_id, title, description, now, later);
            lemma_card_location(b.columns, card_id);
            let (c, k) = card_location(b.columns, card_id).unwrap();
            lemma_card_time(b.columns, c, k, CardView { updated_at: later, ..b.columns[c].cards[k] });
        },
        BoardCall::SetCardDueDate { card_id, due_date } => {
            law_undo_set_card_due_date(b, card_id, due_date, now, later);
            lemma_card_location(b.columns, card_id);
            let (c, k) = card_location(b.columns, card_id).unwrap();
            lemma_card_time(b.columns, c, k, CardView { updated_at: later, ..b.columns[c].cards[k] });
        },
        BoardCall::SetCardTags { card_id, tag_ids } => {
            law_undo_set_card_tags(b, card_id, tag_ids, now, later);
            lemma_card_location(b.columns, card_id);
            let (c, k) = card_location(b.columns, card_id).unwrap();
            lemma_card_time(b.columns, c, k, CardView { updated_at: later, ..b.columns[c].cards[k] });
        },
        BoardCall::UpdateCardDetails { card_id, title, description, due_date, tag_ids, drafts } => {
            law_undo_update_card_details(b, card_id, title, description, due_date, tag_ids, drafts, now, later);
            lemma_card_location(b.columns, card_id);
            let (c, k) = card_location(b.columns, card_id).unwrap();
            lemma_card_time(b.columns, c, k, CardView { updated_at: later, ..b.columns[c].cards[k] });
        },
        BoardCall::AddChecklistItem { card_id, text } => {
            law_undo_add_checklist_item(b, card_id, text, now, later);
            lemma_card_location(b.columns, card_id);
            let (c, k) = card_location(b.columns, card_id).unwrap();
            lemma_card_time(b.columns, c, k, CardView { updated_at: now, ..b.columns[c].cards[k] });
        },
        BoardCall::UpdateChecklistItem { card_id, item_id, text } => {
            law_undo_update_checklist_item(b, card_id, item_id, text, now, later);
            lemma_card_location(b.columns, card_id);
            let (c, k) = card_location(b.columns, card_id).unwrap();
            let card = b.columns[c].cards[k];
            lemma_item_index(card.checklist_items, item_id, 0);
            let i = item_index(card.checklist_items, item_id).unwrap();
            lemma_item_time(card.checklist_items, i, later);
            lemma_card_time(b.columns, c, k, CardView {
                checklist_items: card.checklist_items.update(
                    i,
                    ChecklistItemView { updated_at: later, ..card.checklist_items[i] },
                ),
                updated_at: now,
                ..card
            });
        },
        BoardCall::SetChecklistItemChecked { card_id, item_id, checked } => {
            law_undo_set_checklist_item_checked(b, card_id, item_id, checked, now, later);
            lemma_card_location(b.columns, card_id);
            let (c, k) = card_location(b.columns, card_id).unwrap();
            let card = b.columns[c].cards[k];
            lemma_item_index(card.checklist_items, item_id, 0);
            let i = item_index(card.checklist_items, item_id).unwrap();
            lemma_item_time(card.checklist_items, i, later);
            lemma_card_time(b.columns, c, k, CardView {
                checklist_items: card.checklist_items.update(
                    i,
                    ChecklistItemView { updated_at: later, ..card.checklist_items[i] },
                ),
                updated_at: now,
                ..card
            });
        },
        BoardCall::DeleteChecklistItem { card_id, item_id } => {
            law_undo_delete_checklist_item(b, card_id, item_id, now, later);
            lemma_card_location(b.columns, card_id);
            let (c, k) = card_location(b.columns, card_id).unwrap();
            lemma_card_time(b.columns, c, k, CardView { updated_at: now, ..b.columns[c].cards[k] });
        },
        BoardCall::MoveChecklistItem { card_id, item_id, target_index } => {
            law_undo_move_checklist_item(b, card_id, item_id, target_index, now, later);
            lemma_card_location(b.columns, card_id);
            let (c, k) = card_location(b.columns, card_id).unwrap();
            lemma_card_time(b.columns, c, k, CardView { updated_at: now, ..b.columns[c].cards[k] });
        },
        BoardCall::AddColumn { name } => {
            law_undo_add_column(b, name, now, later);
        },
        BoardCall::RenameColumn { column_id, name } => {
            law_undo_rename_column(b, column_id, name, now, later);
            lemma_column_index(b.columns, column_id);
            let c = column_index(b.columns, column_id).unwrap();
            lemma_column_time(b.columns, c, later);
        },
        BoardCall::SetColumnWipLimit { column_id, wip_limit } => {
            law_undo_set_column_wip_limit(b, column_id, wip_limit, now, later);
            lemma_column_index(b.columns, column_id);
            let c = column_index(b.columns, column_id).unwrap();
            lemma_column_time(b.columns, c, later);
        },
        BoardCall::RemoveColumn { column_id } => {
            law_undo_remove_column(b, column_id, now, later);
            lemma_handed_back_time(b.archived_cards, column_id, now);
        },
        BoardCall::SortColumnByDueDate { column_id } => {
            law_undo_sort_column_by_due_date(b, column_id, now, later);
        },
        BoardCall::AddTag { name, color } => {
            law_undo_add_tag(b, name, color, now, later);
        },
        BoardCall::RenameTag { tag_id, name } => {
            law_undo_rename_tag(b, tag_id, name, now, later);
            lemma_tag_index(b.tags, tag_id, 0);
            let t = tag_index(b.tags, tag_id).unwrap();
            lemma_tag_time(b.tags, t, later);
        },
        BoardCall::SetTagColor { tag_id, color } => {
            law_undo_set_tag_color(b, tag_id, color, now, later);
            lemma_tag_index(b.tags, tag_id, 0);
            let t = tag_index(b.tags, tag_id).unwrap();
            lemma_tag_time(b.tags, t, later);
        },
        BoardCall::RemoveTag { tag_id } => {
            law_undo_remove_tag(b, tag_id, now, later);
        },
    }
    lemma_undo_keeps(after, later);
}

} // verus!

verus! {

/// Cards alike but for times, set at the same place, give columns alike but for times.
proof fn lemma_cards_alike(cols: Seq<ColumnView>, c: int, k: int, x: CardView, y: CardView)
    requires
        0 <= c < cols.len(),
        0 <= k < cols[c].cards.len(),
        untimed_card(x) == untimed_card(y),
    ensures
        untimed_columns(set_card_at(cols, c, k, x)) == untimed_columns(set_card_at(cols, c, k, y)),
{
    let sx = set_card_at(cols, c, k, x);
    let sy = set_card_at(cols, c, k, y);
    assert(untimed_cards(sx[c].cards) =~= untimed_cards(sy[c].cards));
    assert(untimed_columns(sx) =~= untimed_columns(sy));
}

/// Columns alike but for their times, set at the same place, give columns alike but for
/// times.
proof fn lemma_columns_alike(cols: Seq<ColumnView>, c: int, x: ColumnView, y: ColumnView)
    requires
        0 <= c < cols.len(),
        column_without_time(x) == column_without_time(y),
    ensures
        untimed_columns(cols.update(c, x)) == untimed_columns(cols.update(c, y)),
{
    assert(untimed_columns(cols.update(c, x)) =~= untimed_columns(cols.update(c, y)));
}

/// Tags alike but for their times, set at the same place, give tags alike but for times.
proof fn lemma_tags_alike(tags: Seq<TagView>, t: int, x: TagView, y: TagView)
    requires
        0 <= t < tags.len(),
        untimed_tag(x) == untimed_tag(y),
    ensures
        untimed_tags(tags.update(t, x)) == untimed_tags(tags.update(t, y)),
{
    assert(untimed_tags(tags.update(t, x)) =~= untimed_tags(tags.update(t, y)));
}

/// Checklist items alike but for their times, set at the same place, give checklists alike
/// but for times.
proof fn lemma_items_alike(items: Seq<ChecklistItemView>, i: int, x: ChecklistItemView, y: ChecklistItemView)
    requires
        0 <= i < items.len(),
        untimed_item(x) == untimed_item(y),
    ensures
        items.update(i, x).map_values(|z: ChecklistItemView| untimed_item(z)) == items.update(i, y).map_values(
            |z: ChecklistItemView| untimed_item(z),
        ),
{
    assert(items.update(i, x).map_values(|z: ChecklistItemView| untimed_item(z)) =~= items.update(i, y).map_values(
        |z: ChecklistItemView| untimed_item(z),
    ));
}

} // verus!

verus! {

/// Redo after undo gives back the board any operation made: the same columns, cards,
/// checklists, tags and archive, but for the times of their last change. The operation is
/// back on the undo history, nothing waits to be redone, and the card history gains
/// nothing from the undo or the redo.
#[verifier::spinoff_prover]
#[verifier::rlimit(60)]
pub proof fn law_redo_gives_back_the_board(
    b: BoardState,
    call: BoardCall,
    now: i64,
    later: i64,
    again: i64,
)
    requires
        well_formed(b),
        call_fits(b, call),
        call_spec(b, call, now).1,
    ensures
        ({
            let after = call_spec(b, call, now).0;
            let undone = undo_spec(after, later).0;
            let (redone, r) = redo_spec(undone, again);
            &&& r == Ok::<bool, BoardError>(true)
            &&& same_but_times(redone, after)
            &&& redone.undo_stack == after.undo_stack
            &&& redone.redo_stack.len() == 0
            &&& redone.pending_events == after.pending_events
        }),
{
    let after = call_spec(b, call, now).0;
    let undone = undo_spec(after, later).0;
    match call {
        BoardCall::AddCard { column_id, title, description } => {
            law_redo_add_card(b, column_id, title, description, now, later, again);
        },
        BoardCall::MoveCard { card_id, target_column_id, target_index } => {
            law_redo_move_card(b, card_id, target_column_id, target_index, now, later, again);
        },
        BoardCall::MoveColumn { column_id, target_index } => {
            law_redo_move_column(b, column_id, target_index, now, later, again);
        },
        BoardCall::DeleteCard { card_id } => {
            law_redo_delete_card(b, card_id, now, later, again);
        },
        BoardCall::ArchiveCard { card_id } => {
            law_redo_archive_card(b, card_id, now, later, again);
        },
        BoardCall::ArchiveColumn { column_id } => {
            law_redo_archive_column(b, column_id, now, later, again);
        },
        BoardCall::RestoreCard { card_id } => {
            law_redo_restore_card(b, card_id, now, later, again);
        },
        BoardCall::CopyCard { card_id } => {
            law_redo_copy_card(b, card_id, now, later, again);
        },
        BoardCall::UpdateCard { card_id, title, description } => {
            law_redo_update_card(b, card_id, title, description, now, later, again);
            lemma_card_location(b.columns, card_id);
            let (c, k) = card_location(b.columns, card_id).unwrap();
            let card = b.columns[c].cards[k];
            lemma_cards_alike(b.columns, c, k, CardView { title: title, description: description, updated_at: again, ..card }, CardView { title: title, description: description, updated_at: now, ..card });
        },
        BoardCall::SetCardDueDate { card_id, due_date } => {
            law_redo_set_card_due_date(b, card_id, due_date, now, later, again);
            lemma_card_location(b.columns, card_id);
            let (c, k) = card_location(b.columns, card_id).unwrap();
            let card = b.columns[c].cards[k];
            lemma_cards_alike(b.columns, c, k, CardView { due_date: due_date, updated_at: again, ..card }, CardView { due_date: due_date, updated_at: now, ..card });
        },
        BoardCall::SetCardTags { card_id, tag_ids } => {
            law_redo_set_card_tags(b, card_id, tag_ids, now, later, again);
            lemma_card_location(b.columns, card_id);
            let (c, k) = card_location(b.columns, card_id).unwrap();
            let card = b.columns[c].cards[k];
            lemma_cards_alike(b.columns, c, k, CardView { tag_ids: sorted_unique(tag_ids), updated_at: again, ..card }, CardView { tag_ids: sorted_unique(tag_ids), updated_at: now, ..card });
        },
        BoardCall::UpdateCardDetails { card_id, title, description, due_date, tag_ids, drafts } => {
            law_redo_update_card_details(b, card_id, title, description, due_date, tag_ids, drafts, now, later, again);
            lemma_card_location(b.columns, card_id);
            let (c, k) = card_location(b.columns, card_id).unwrap();
            let saved = call_spec(b, call, now).0;
            lemma_card_time(saved.columns, c, k, CardView { updated_at: again, ..saved.columns[c].cards[k] });
        },
        BoardCall::AddChecklistItem { card_id, text } => {
            law_redo_add_checklist_item(b, card_id, text, now, later, again);
        },
        BoardCall::UpdateChecklistItem { card_id, item_id, text } => {
            law_redo_update_checklist_item(b, card_id, item_id, text, now, later, again);
            lemma_card_location(b.columns, card_id);
            let (c, k) = card_location(b.columns, card_id).unwrap();
            let card = b.columns[c].cards[k];
            lemma_item_index(card.checklist_items, item_id, 0);
            let i = item_index(card.checklist_items, item_id).unwrap();
            let x = ChecklistItemView { text: text, updated_at: again, ..card.checklist_items[i] };
            let y = ChecklistItemView { text: text, updated_at: now, ..card.checklist_items[i] };
            lemma_items_alike(card.checklist_items, i, x, y);
            lemma_cards_alike(
                b.columns,
                c,
                k,
                CardView { checklist_items: card.checklist_items.update(i, x), updated_at: now, ..card },
                CardView { checklist_items: card.checklist_items.update(i, y), updated_at: now, ..card },
            );
        },
        BoardCall::SetChecklistItemChecked { card_id, item_id, checked } => {
            law_redo_set_checklist_item_checked(b, card_id, item_id, checked, now, later, again);
            lemma_card_location(b.columns, card_id);
            let (c, k) = card_location(b.columns, card_id).unwrap();
            let card = b.columns[c].cards[k];
            lemma_item_index(card.checklist_items, item_id, 0);
            let i = item_index(card.checklist_items, item_id).unwrap();
            let x = ChecklistItemView { checked: checked, updated_at: again, ..card.checklist_items[i] };
            let y = ChecklistItemView { checked: checked, updated_at: now, ..card.checklist_items[i] };
            lemma_items_alike(card.checklist_items, i, x, y);
            lemma_cards_alike(
                b.columns,
                c,
                k,
                CardView { checklist_items: card.checklist_items.update(i, x), updated_at: now, ..card },
                CardView { checklist_items: card.checklist_items.update(i, y), updated_at: now, ..card },
            );
        },
        BoardCall::DeleteChecklistItem { card_id, item_id } => {
            law_redo_delete_checklist_item(b, card_id, item_id, now, later, again);
        },
        BoardCall::MoveChecklistItem { card_id, item_id, target_index } => {
            law_redo_move_checklist_item(b, card_id, item_id, target_index, now, later, again);
        },
        BoardCall::AddColumn { name } => {
            law_redo_add_column(b, name, now, later, again);
        },
        BoardCall::RenameColumn { column_id, name } => {
            law_redo_rename_column(b, column_id, name, now, later, again);
            lemma_column_index(b.columns, column_id);
            let c = column_index(b.columns, column_id).unwrap();
            lemma_columns_alike(
                b.columns,
                c,
                ColumnView { name: name, updated_at: again, ..b.columns[c] },
                ColumnView { name: name, updated_at: now, ..b.columns[c] },
            );
        },
        BoardCall::SetColumnWipLimit { column_id, wip_limit } => {
            law_redo_set_column_wip_limit(b, column_id, wip_limit, now, later, again);
            lemma_column_index(b.columns, column_id);
            let c = column_index(b.columns, column_id).unwrap();
            lemma_columns_alike(
                b.columns,
                c,
                ColumnView { wip_limit: wip_limit, updated_at: again, ..b.columns[c] },
                ColumnView { wip_limit: wip_limit, updated_at: now, ..b.columns[c] },
            );
        },
        BoardCall::RemoveColumn { column_id } => {
            law_redo_remove_column(b, column_id, now, later, again);
        },
        BoardCall::SortColumnByDueDate { column_id } => {
            law_redo_sort_column_by_due_date(b, column_id, now, later, again);
        },
        BoardCall::AddTag { name, color } => {
            law_redo_add_tag(b, name, color, now, later, again);
        },
        BoardCall::RenameTag { tag_id, name } => {
            law_redo_rename_tag(b, tag_id, name, now, later, again);
            lemma_tag_index(b.tags, tag_id, 0);
            let t = tag_index(b.tags, tag_id).unwrap();
            lemma_tags_alike(
                b.tags,
                t,
                TagView { name: name, updated_at: again, ..b.tags[t] },
                TagView { name: name, updated_at: now, ..b.tags[t] },
            );
        },
        BoardCall::SetTagColor { tag_id, color } => {
            law_redo_set_tag_color(b, tag_id, color, now, later, again);
            lemma_tag_index(b.tags, tag_id, 0);
            let t = tag_index(b.tags, tag_id).unwrap();
            lemma_tags_alike(
                b.tags,
                t,
                TagView { color: color, updated_at: again, ..b.tags[t] },
                TagView { color: color, updated_at: now, ..b.tags[t] },
            );
        },
        BoardCall::RemoveTag { tag_id } => {
            law_redo_remove_tag(b, tag_id, now, later, again);
        },
    }
    lemma_undo_keeps(after, later);
    lemma_redo_keeps(undone, again);
}

} // verus!
