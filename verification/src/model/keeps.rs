//! A board in good order stays so: the first-run board is in good order, and the card and
//! column operations keep it. Below them, how the pieces of good order fare under the edits
//! the operations are made of: taking a card out, putting one in, and putting the board in
//! order.
use vstd::prelude::*;
use crate::date::DueDate;
use crate::model::alike::{lemma_push_in_order, lemma_reindex_idempotent, lemma_set_in_order};
use crate::model::laws::{in_order, well_formed};
use crate::model::raw_spec::without_tag;
use crate::model::cards::{
    archive_card_spec, archive_column_spec, copy_card_spec, delete_card_spec,
    discard_added_card_spec, restore_card_spec, restore_target,
};
use crate::model::details::{
    built_items, is_new_draft, lemma_count_prefix, lemma_new_draft_count, new_draft_count, new_items_fit,
    update_card_details_spec, DraftView,
};
use crate::model::columns::{
    add_column_spec, first_run_state, new_empty_state, remove_column_spec, rename_column_spec,
    rename_spec,
};
use crate::model::checklist::{
    add_checklist_item_spec, delete_checklist_item_spec, move_checklist_item_spec,
    set_checklist_item_checked_spec, update_checklist_item_spec,
};
use crate::model::ops::{
    add_card_spec, move_card_spec, move_column_spec, set_card_due_date_spec, set_column_wip_limit_spec,
    update_card_spec,
};
use crate::model::tags::{
    add_tag_spec, first_unknown_tag_from, lemma_sorted_unique, remove_tag_spec, rename_tag_spec,
    set_card_tags_spec,
    set_tag_color_spec, sorted_unique,
};
use crate::model::spec::{
    card_index, card_location, column_index, insert_card_at, lemma_card_index,
    lemma_card_location, lemma_column_index, item_index, lemma_item_index,
    lemma_tag_index, min_int, reindex_card, reindex_columns, reindex_items, remove_card_at,
    set_card_at, set_cards, tag_index,
};
use crate::model::types::{
    BoardId, BoardState, CardId, CardView, ChecklistItemId, ChecklistItemView, ColumnId, ColumnView, TagId,
    TagView,
};

verus! {

/// No two active cards share a number.
pub open spec fn apart(cols: Seq<ColumnView>) -> bool {
    forall|c1: int, k1: int, c2: int, k2: int|
        0 <= c1 < cols.len() && 0 <= k1 < cols[c1].cards.len() && 0 <= c2 < cols.len() && 0 <= k2
            < cols[c2].cards.len() && (c1 != c2 || k1 != k2) ==> #[trigger] cols[c1].cards[k1].id
            != #[trigger] cols[c2].cards[k2].id
}

/// Every active card satisfies `p`.
pub open spec fn every_card(cols: Seq<ColumnView>, p: spec_fn(CardView) -> bool) -> bool {
    forall|c: int, k: int|
        0 <= c < cols.len() && 0 <= k < cols[c].cards.len() ==> p(#[trigger] cols[c].cards[k])
}

/// The same columns, by number, in the same places.
pub open spec fn same_column_ids(a: Seq<ColumnView>, b: Seq<ColumnView>) -> bool {
    &&& a.len() == b.len()
    &&& forall|j: int| 0 <= j < a.len() ==> #[trigger] a[j].id == b[j].id
}

/// Every tag number that `card` names is below `n`.
pub open spec fn tags_below(card: CardView, n: TagId) -> bool {
    forall|t: int| 0 <= t < card.tag_ids.len() ==> #[trigger] card.tag_ids[t] < n
}

/// Every checklist item of `card` has a number below `n`.
pub open spec fn items_below(card: CardView, n: ChecklistItemId) -> bool {
    forall|i: int| 0 <= i < card.checklist_items.len() ==> #[trigger] card.checklist_items[i].id < n
}

pub open spec fn tags_below_of(n: TagId) -> spec_fn(CardView) -> bool {
    |x: CardView| tags_below(x, n)
}

pub open spec fn items_below_of(n: ChecklistItemId) -> spec_fn(CardView) -> bool {
    |x: CardView| items_below(x, n)
}

/// Putting in order keeps the tags and checklist item numbers of every card.
pub proof fn lemma_reindex_keeps_numbers(cols: Seq<ColumnView>, nt: TagId, ni: ChecklistItemId)
    ensures
        every_card(cols, tags_below_of(nt)) ==> every_card(reindex_columns(cols), tags_below_of(nt)),
        every_card(cols, items_below_of(ni)) ==> every_card(reindex_columns(cols), items_below_of(ni)),
{
    let r = reindex_columns(cols);
    if every_card(cols, tags_below_of(nt)) {
        assert forall|c: int, k: int|
            0 <= c < r.len() && 0 <= k < r[c].cards.len() implies tags_below_of(nt)(#[trigger] r[c].cards[k]) by {
            assert(tags_below_of(nt)(cols[c].cards[k]));
            assert(r[c].cards[k].tag_ids == cols[c].cards[k].tag_ids);
        }
    }
    if every_card(cols, items_below_of(ni)) {
        assert forall|c: int, k: int|
            0 <= c < r.len() && 0 <= k < r[c].cards.len() implies items_below_of(ni)(#[trigger] r[c].cards[k]) by {
            let x = cols[c].cards[k];
            assert(items_below_of(ni)(x));
            assert(r[c].cards[k].checklist_items == reindex_items(x.id, x.checklist_items));
            assert forall|i: int| 0 <= i < r[c].cards[k].checklist_items.len() implies #[trigger] r[c].cards[k].checklist_items[i].id
                < ni by {
                assert(x.checklist_items[i].id < ni);
            }
        }
    }
}

/// A bound that holds of every card holds of a larger one.
pub proof fn lemma_items_below_grow(cols: Seq<ColumnView>, n: ChecklistItemId, m: ChecklistItemId)
    requires
        n <= m,
        every_card(cols, items_below_of(n)),
    ensures
        every_card(cols, items_below_of(m)),
{
    assert forall|c: int, k: int|
        0 <= c < cols.len() && 0 <= k < cols[c].cards.len() implies items_below_of(m)(#[trigger] cols[c].cards[k]) by {
        assert(items_below_of(n)(cols[c].cards[k]));
    }
}

/// What putting in order leaves alone: the columns' numbers and every card's number and
/// archive mark, at the same places.
pub proof fn lemma_reindex_keeps(cols: Seq<ColumnView>, p: spec_fn(CardView) -> bool)
    requires
        forall|x: CardView, y: CardView|
            x.id == y.id && x.archived_at == y.archived_at ==> (#[trigger] p(x) == #[trigger] p(y)),
    ensures
        same_column_ids(reindex_columns(cols), cols),
        apart(cols) ==> apart(reindex_columns(cols)),
        every_card(cols, p) ==> every_card(reindex_columns(cols), p),
        forall|c: int|
            0 <= c < cols.len() ==> #[trigger] reindex_columns(cols)[c].cards.len()
                == cols[c].cards.len(),
{
    let r = reindex_columns(cols);
    assert forall|c: int, k: int|
        0 <= c < cols.len() && 0 <= k < cols[c].cards.len() implies #[trigger] r[c].cards[k].id
        == cols[c].cards[k].id && r[c].cards[k].archived_at == cols[c].cards[k].archived_at by {}
    if every_card(cols, p) {
        assert forall|c: int, k: int|
            0 <= c < r.len() && 0 <= k < r[c].cards.len() implies p(#[trigger] r[c].cards[k]) by {
            assert(p(cols[c].cards[k]));
        }
    }
    if apart(cols) {
        assert forall|c1: int, k1: int, c2: int, k2: int|
            0 <= c1 < r.len() && 0 <= k1 < r[c1].cards.len() && 0 <= c2 < r.len() && 0 <= k2
                < r[c2].cards.len() && (c1 != c2 || k1 != k2) implies #[trigger] r[c1].cards[k1].id
            != #[trigger] r[c2].cards[k2].id by {
            assert(cols[c1].cards[k1].id != cols[c2].cards[k2].id);
        }
    }
}

/// Taking a card out keeps the others apart, keeps what held of each, and leaves the
/// columns' numbers.
pub proof fn lemma_remove_keeps(cols: Seq<ColumnView>, c: int, k: int, p: spec_fn(CardView) -> bool)
    requires
        0 <= c < cols.len(),
        0 <= k < cols[c].cards.len(),
    ensures
        same_column_ids(remove_card_at(cols, c, k), cols),
        apart(cols) ==> apart(remove_card_at(cols, c, k)),
        apart(cols) ==> forall|c2: int, k2: int|
            0 <= c2 < cols.len() && 0 <= k2 < remove_card_at(cols, c, k)[c2].cards.len()
                ==> #[trigger] remove_card_at(cols, c, k)[c2].cards[k2].id != cols[c].cards[k].id,
        every_card(cols, p) ==> every_card(remove_card_at(cols, c, k), p),
        remove_card_at(cols, c, k)[c].cards.len() == cols[c].cards.len() - 1,
        forall|j: int|
            0 <= j < cols.len() && j != c ==> #[trigger] remove_card_at(cols, c, k)[j].cards.len()
                == cols[j].cards.len(),
{
    let r = remove_card_at(cols, c, k);
    // Where each remaining card stood before.
    let src = |c2: int, k2: int|
        if c2 == c && k2 >= k {
            k2 + 1
        } else {
            k2
        };
    assert forall|c2: int, k2: int|
        0 <= c2 < r.len() && 0 <= k2 < r[c2].cards.len() implies #[trigger] r[c2].cards[k2]
        == cols[c2].cards[src(c2, k2)] && 0 <= src(c2, k2) < cols[c2].cards.len() && (c2 != c
        || src(c2, k2) != k) by {}
    if every_card(cols, p) {
        assert forall|c2: int, k2: int|
            0 <= c2 < r.len() && 0 <= k2 < r[c2].cards.len() implies p(#[trigger] r[c2].cards[k2]) by {
            assert(r[c2].cards[k2] == cols[c2].cards[src(c2, k2)]);
        }
    }
    if apart(cols) {
        assert forall|c1: int, k1: int, c2: int, k2: int|
            0 <= c1 < r.len() && 0 <= k1 < r[c1].cards.len() && 0 <= c2 < r.len() && 0 <= k2
                < r[c2].cards.len() && (c1 != c2 || k1 != k2) implies #[trigger] r[c1].cards[k1].id
            != #[trigger] r[c2].cards[k2].id by {
            assert(r[c1].cards[k1] == cols[c1].cards[src(c1, k1)]);
            assert(r[c2].cards[k2] == cols[c2].cards[src(c2, k2)]);
        }
        assert forall|c2: int, k2: int|
            0 <= c2 < cols.len() && 0 <= k2 < r[c2].cards.len() implies #[trigger] r[c2].cards[k2].id
            != cols[c].cards[k].id by {
            assert(r[c2].cards[k2] == cols[c2].cards[src(c2, k2)]);
        }
    }
}

/// Putting in a card whose number is not among the others keeps them apart, keeps what
/// held of each when it holds of the new one, and leaves the columns' numbers.
pub proof fn lemma_insert_keeps(
    cols: Seq<ColumnView>,
    c: int,
    k: int,
    x: CardView,
    p: spec_fn(CardView) -> bool,
)
    requires
        0 <= c < cols.len(),
        0 <= k <= cols[c].cards.len(),
    ensures
        same_column_ids(insert_card_at(cols, c, k, x), cols),
        apart(cols) && (forall|c2: int, k2: int|
            0 <= c2 < cols.len() && 0 <= k2 < cols[c2].cards.len() ==> #[trigger] cols[c2].cards[k2].id
                != x.id) ==> apart(insert_card_at(cols, c, k, x)),
        every_card(cols, p) && p(x) ==> every_card(insert_card_at(cols, c, k, x), p),
        insert_card_at(cols, c, k, x)[c].cards.len() == cols[c].cards.len() + 1,
        forall|j: int|
            0 <= j < cols.len() && j != c ==> #[trigger] insert_card_at(cols, c, k, x)[j].cards.len()
                == cols[j].cards.len(),
{
    let r = insert_card_at(cols, c, k, x);
    let src = |c2: int, k2: int|
        if c2 == c && k2 > k {
            k2 - 1
        } else {
            k2
        };
    assert forall|c2: int, k2: int|
        0 <= c2 < r.len() && 0 <= k2 < r[c2].cards.len() && (c2 != c || k2 != k) implies #[trigger] r[c2].cards[k2]
        == cols[c2].cards[src(c2, k2)] && 0 <= src(c2, k2) < cols[c2].cards.len() by {}
    assert(r[c].cards[k] == x);
    if every_card(cols, p) && p(x) {
        assert forall|c2: int, k2: int|
            0 <= c2 < r.len() && 0 <= k2 < r[c2].cards.len() implies p(#[trigger] r[c2].cards[k2]) by {
            if c2 != c || k2 != k {
                assert(r[c2].cards[k2] == cols[c2].cards[src(c2, k2)]);
            }
        }
    }
    if apart(cols) && (forall|c2: int, k2: int|
        0 <= c2 < cols.len() && 0 <= k2 < cols[c2].cards.len() ==> #[trigger] cols[c2].cards[k2].id
            != x.id) {
        assert forall|c1: int, k1: int, c2: int, k2: int|
            0 <= c1 < r.len() && 0 <= k1 < r[c1].cards.len() && 0 <= c2 < r.len() && 0 <= k2
                < r[c2].cards.len() && (c1 != c2 || k1 != k2) implies #[trigger] r[c1].cards[k1].id
            != #[trigger] r[c2].cards[k2].id by {
            if c1 != c || k1 != k {
                assert(r[c1].cards[k1] == cols[c1].cards[src(c1, k1)]);
            }
            if c2 != c || k2 != k {
                assert(r[c2].cards[k2] == cols[c2].cards[src(c2, k2)]);
            }
        }
    }
}

/// No archived card has number `id`.
pub open spec fn not_in_archive(archived: Seq<CardView>, id: CardId) -> bool {
    forall|i: int| 0 <= i < archived.len() ==> #[trigger] archived[i].id != id
}

/// Room for one more card in every column: a count a board in memory can reach.
pub open spec fn room_for_a_card(b: BoardState) -> bool {
    forall|c: int|
        0 <= c < b.columns.len() ==> #[trigger] b.columns[c].cards.len() + 1 < i64::MAX
            && b.columns[c].cards.len() + 1 < usize::MAX
}

/// Moving a card keeps a board in good order.
pub proof fn law_move_card_keeps_well_formed(
    b: BoardState,
    card_id: CardId,
    target_column_id: ColumnId,
    target_index: usize,
    now: i64,
)
    requires
        well_formed(b),
        room_for_a_card(b),
    ensures
        well_formed(move_card_spec(b, card_id, target_column_id, target_index, now).0),
{
    lemma_card_location(b.columns, card_id);
    lemma_column_index(b.columns, target_column_id);
    let (moved, r) = move_card_spec(b, card_id, target_column_id, target_index, now);
    if r == Ok::<bool, crate::model::types::BoardError>(true) {
        let (si, sk) = card_location(b.columns, card_id).unwrap();
        let tj = column_index(b.columns, target_column_id).unwrap();
        let card = b.columns[si].cards[sk];
        let clamped = min_int(target_index as int, b.columns[tj].cards.len() as int);
        let wanted = if si == tj && sk < clamped {
            clamped - 1
        } else {
            clamped
        };
        let mc = CardView { column_id: target_column_id, updated_at: now, ..card };
        let removed = remove_card_at(b.columns, si, sk);
        let at = min_int(wanted, removed[tj].cards.len() as int);
        let ins = insert_card_at(removed, tj, at, mc);
        let m = reindex_columns(ins);
        assert(moved.columns == m);
        let below = |x: CardView| x.id < b.next_card_id;
        let unarchived = |x: CardView| x.archived_at is None;
        let outside = |x: CardView| not_in_archive(b.archived_cards, x.id);
        assert(every_card(b.columns, below));
        assert(every_card(b.columns, unarchived));
        assert(every_card(b.columns, outside));
        lemma_remove_keeps(b.columns, si, sk, below);
        lemma_remove_keeps(b.columns, si, sk, unarchived);
        lemma_remove_keeps(b.columns, si, sk, outside);
        assert(below(mc) && unarchived(mc) && outside(mc)) by {
            assert(below(card) && unarchived(card) && outside(card));
        }
        lemma_insert_keeps(removed, tj, at, mc, below);
        lemma_insert_keeps(removed, tj, at, mc, unarchived);
        lemma_insert_keeps(removed, tj, at, mc, outside);
        lemma_reindex_keeps(ins, below);
        lemma_reindex_keeps(ins, unarchived);
        lemma_reindex_keeps(ins, outside);
        lemma_reindex_idempotent(ins);
        assert(every_card(m, below) && every_card(m, unarchived) && every_card(m, outside) && apart(m));
        assert forall|j: int| 0 <= j < m.len() implies #[trigger] m[j].id == b.columns[j].id by {
            assert(m[j].id == ins[j].id);
            assert(ins[j].id == removed[j].id);
        }
        assert forall|c: int| 0 <= c < m.len() implies #[trigger] m[c].cards.len() + 0 <= b.columns[c].cards.len()
            + 1 by {
            assert(m[c].cards.len() == ins[c].cards.len());
        }
        assert forall|c: int, k: int|
            0 <= c < m.len() && 0 <= k < m[c].cards.len() implies #[trigger] m[c].cards[k].id
            < moved.next_card_id by {
            assert(below(m[c].cards[k]));
        }
        assert forall|c: int, k: int|
            0 <= c < m.len() && 0 <= k < m[c].cards.len() implies (#[trigger] m[c].cards[k]).archived_at
            is None by {
            assert(unarchived(m[c].cards[k]));
        }
        assert forall|c: int, k: int, i: int|
            0 <= c < m.len() && 0 <= k < m[c].cards.len() && 0 <= i < moved.archived_cards.len() implies #[trigger] m[c].cards[k].id
            != #[trigger] moved.archived_cards[i].id by {
            assert(outside(m[c].cards[k]));
        }
    }
}

/// The board made on first run is in good order.
pub proof fn law_first_run_well_formed(now: i64)
    ensures
        well_formed(first_run_state(now)),
{
    let b = first_run_state(now);
    assert(reindex_columns(b.columns) =~= b.columns) by {
        assert forall|j: int| 0 <= j < b.columns.len() implies #[trigger] reindex_columns(b.columns)[j]
            == b.columns[j] by {
            assert(reindex_columns(b.columns)[j].cards =~= b.columns[j].cards);
        }
    }
}

/// Adding a card keeps a board in good order.
pub proof fn law_add_card_keeps_well_formed(
    b: BoardState,
    column_id: ColumnId,
    title: Seq<char>,
    description: Seq<char>,
    now: i64,
)
    requires
        well_formed(b),
        room_for_a_card(b),
        b.next_card_id < i64::MAX,
    ensures
        well_formed(add_card_spec(b, column_id, title, description, now).0),
{
    lemma_column_index(b.columns, column_id);
    let (added, r) = add_card_spec(b, column_id, title, description, now);
    if r is Ok {
        let c = column_index(b.columns, column_id).unwrap();
        let len = b.columns[c].cards.len() as int;
        let card = added.columns[c].cards[len];
        assert(b.columns[c].cards.insert(len, card) =~= b.columns[c].cards.push(card));
        assert(added.columns =~= insert_card_at(b.columns, c, len, card));
        let below = |x: CardView| x.id < added.next_card_id;
        let unarchived = |x: CardView| x.archived_at is None;
        let outside = |x: CardView| not_in_archive(b.archived_cards, x.id);
        assert(every_card(b.columns, below));
        assert(every_card(b.columns, unarchived));
        assert(every_card(b.columns, outside));
        assert(below(card) && unarchived(card));
        assert(outside(card)) by {
            assert forall|i: int| 0 <= i < b.archived_cards.len() implies #[trigger] b.archived_cards[i].id
                != card.id by {}
        }
        lemma_insert_keeps(b.columns, c, len, card, below);
        lemma_insert_keeps(b.columns, c, len, card, unarchived);
        lemma_insert_keeps(b.columns, c, len, card, outside);
        assert(reindex_items(card.id, card.checklist_items) =~= card.checklist_items);
        assert(reindex_card(card, b.columns[c].id, len) == card);
        lemma_push_in_order(b.columns, c, card);
        let m = added.columns;
        assert forall|c2: int, k: int|
            0 <= c2 < m.len() && 0 <= k < m[c2].cards.len() implies #[trigger] m[c2].cards[k].id
            < added.next_card_id by {
            assert(below(m[c2].cards[k]));
        }
        assert forall|c2: int, k: int|
            0 <= c2 < m.len() && 0 <= k < m[c2].cards.len() implies (#[trigger] m[c2].cards[k]).archived_at
            is None by {
            assert(unarchived(m[c2].cards[k]));
        }
        assert forall|c2: int, k: int, i: int|
            0 <= c2 < m.len() && 0 <= k < m[c2].cards.len() && 0 <= i < added.archived_cards.len() implies #[trigger] m[c2].cards[k].id
            != #[trigger] added.archived_cards[i].id by {
            assert(outside(m[c2].cards[k]));
        }
    }
}

/// A board whose columns are those of a board in good order with one card taken out, put
/// in order, is in good order when the rest is unchanged.
proof fn lemma_card_taken_out_keeps(b: BoardState, after: BoardState, c: int, k: int)
    requires
        well_formed(b),
        0 <= c < b.columns.len(),
        0 <= k < b.columns[c].cards.len(),
        after.columns == reindex_columns(remove_card_at(b.columns, c, k)),
        after.archived_cards == b.archived_cards,
        after.tags == b.tags,
        after.next_card_id == b.next_card_id,
        after.next_column_id == b.next_column_id,
        after.next_tag_id == b.next_tag_id,
        after.next_checklist_item_id == b.next_checklist_item_id,
    ensures
        well_formed(after),
{
    let removed = remove_card_at(b.columns, c, k);
    let m = after.columns;
    let below = |x: CardView| x.id < b.next_card_id;
    let unarchived = |x: CardView| x.archived_at is None;
    let outside = |x: CardView| not_in_archive(b.archived_cards, x.id);
    assert(every_card(b.columns, below));
    assert(every_card(b.columns, unarchived));
    assert(every_card(b.columns, outside));
    lemma_remove_keeps(b.columns, c, k, below);
    lemma_remove_keeps(b.columns, c, k, unarchived);
    lemma_remove_keeps(b.columns, c, k, outside);
    lemma_remove_keeps(b.columns, c, k, tags_below_of(b.next_tag_id));
    lemma_remove_keeps(b.columns, c, k, items_below_of(b.next_checklist_item_id));
    lemma_reindex_keeps(removed, below);
    lemma_reindex_keeps(removed, unarchived);
    lemma_reindex_keeps(removed, outside);
    lemma_reindex_keeps_numbers(removed, b.next_tag_id, b.next_checklist_item_id);
    lemma_reindex_idempotent(removed);
    assert forall|j: int| 0 <= j < m.len() implies #[trigger] m[j].id == b.columns[j].id by {
        assert(m[j].id == removed[j].id);
    }
    assert forall|c2: int| 0 <= c2 < m.len() implies #[trigger] m[c2].cards.len() <= b.columns[c2].cards.len() by {
        assert(m[c2].cards.len() == removed[c2].cards.len());
    }
    assert forall|c2: int, k2: int|
        0 <= c2 < m.len() && 0 <= k2 < m[c2].cards.len() implies #[trigger] m[c2].cards[k2].id
        < after.next_card_id by {
        assert(below(m[c2].cards[k2]));
    }
    assert forall|c2: int, k2: int|
        0 <= c2 < m.len() && 0 <= k2 < m[c2].cards.len() implies (#[trigger] m[c2].cards[k2]).archived_at
        is None by {
        assert(unarchived(m[c2].cards[k2]));
    }
    assert forall|c2: int, k2: int, i: int|
        0 <= c2 < m.len() && 0 <= k2 < m[c2].cards.len() && 0 <= i < after.archived_cards.len() implies #[trigger] m[c2].cards[k2].id
        != #[trigger] after.archived_cards[i].id by {
        assert(outside(m[c2].cards[k2]));
    }
}

/// Deleting a card keeps a board in good order.
pub proof fn law_delete_card_keeps_well_formed(b: BoardState, card_id: CardId, now: i64)
    requires
        well_formed(b),
    ensures
        well_formed(delete_card_spec(b, card_id, now).0),
{
    lemma_card_location(b.columns, card_id);
    let (deleted, r) = delete_card_spec(b, card_id, now);
    if r is Ok {
        let (c, k) = card_location(b.columns, card_id).unwrap();
        lemma_card_taken_out_keeps(b, deleted, c, k);
    }
}

/// Taking back the adding of a card keeps a board in good order.
pub proof fn law_discard_added_card_keeps_well_formed(b: BoardState, card_id: CardId, now: i64)
    requires
        well_formed(b),
    ensures
        well_formed(discard_added_card_spec(b, card_id, now).0),
{
    lemma_card_location(b.columns, card_id);
    let (after, r) = discard_added_card_spec(b, card_id, now);
    if r is Ok {
        let (c, k) = card_location(b.columns, card_id).unwrap();
        lemma_card_taken_out_keeps(b, after, c, k);
    }
}

/// Archiving a card keeps a board in good order.
pub proof fn law_archive_card_keeps_well_formed(b: BoardState, card_id: CardId, now: i64)
    requires
        well_formed(b),
        b.archived_cards.len() < usize::MAX,
    ensures
        well_formed(archive_card_spec(b, card_id, now).0),
{
    lemma_card_location(b.columns, card_id);
    let (archived, r) = archive_card_spec(b, card_id, now);
    if r is Ok {
        let (c, k) = card_location(b.columns, card_id).unwrap();
        let card = b.columns[c].cards[k];
        let removed = remove_card_at(b.columns, c, k);
        let m = archived.columns;
        let arch = archived.archived_cards;
        let len = b.archived_cards.len() as int;
        assert(m == reindex_columns(removed));
        let below = |x: CardView| x.id < b.next_card_id;
        let unarchived = |x: CardView| x.archived_at is None;
        let outside = |x: CardView| not_in_archive(b.archived_cards, x.id);
        assert(every_card(b.columns, below));
        assert(every_card(b.columns, unarchived));
        assert(every_card(b.columns, outside));
        assert(outside(card));
        lemma_remove_keeps(b.columns, c, k, below);
        lemma_remove_keeps(b.columns, c, k, unarchived);
        lemma_remove_keeps(b.columns, c, k, outside);
        lemma_reindex_keeps(removed, below);
        lemma_reindex_keeps(removed, unarchived);
        lemma_reindex_keeps(removed, outside);
        lemma_reindex_idempotent(removed);
        assert forall|j: int| 0 <= j < m.len() implies #[trigger] m[j].id == b.columns[j].id by {
            assert(m[j].id == removed[j].id);
        }
        assert forall|c2: int| 0 <= c2 < m.len() implies #[trigger] m[c2].cards.len() <= b.columns[c2].cards.len() by {
            assert(m[c2].cards.len() == removed[c2].cards.len());
        }
        assert forall|c2: int, k2: int|
            0 <= c2 < m.len() && 0 <= k2 < m[c2].cards.len() implies #[trigger] m[c2].cards[k2].id
            < archived.next_card_id by {
            assert(below(m[c2].cards[k2]));
        }
        assert forall|c2: int, k2: int|
            0 <= c2 < m.len() && 0 <= k2 < m[c2].cards.len() implies (#[trigger] m[c2].cards[k2]).archived_at
            is None by {
            assert(unarchived(m[c2].cards[k2]));
        }
        assert forall|c2: int, k2: int, i: int|
            0 <= c2 < m.len() && 0 <= k2 < m[c2].cards.len() && 0 <= i < arch.len() implies #[trigger] m[c2].cards[k2].id
            != #[trigger] arch[i].id by {
            if i < len {
                assert(outside(m[c2].cards[k2]));
                assert(arch[i] == b.archived_cards[i]);
            } else {
                assert(m[c2].cards[k2].id == removed[c2].cards[k2].id);
            }
        }
        assert forall|i: int, j: int| 0 <= i < j < arch.len() implies #[trigger] arch[i].id
            != #[trigger] arch[j].id by {
            if j == len {
                assert(arch[i] == b.archived_cards[i]);
            } else {
                assert(arch[i] == b.archived_cards[i]);
                assert(arch[j] == b.archived_cards[j]);
            }
        }
        assert forall|i: int| 0 <= i < arch.len() implies #[trigger] arch[i].id < archived.next_card_id by {
            if i < len {
                assert(arch[i] == b.archived_cards[i]);
            }
        }
    }
}

} // verus!

verus! {

/// A board whose columns are those of a board in good order with one card replaced by one
/// with the same number, not archived and in order at its place, is in good order, when
/// the rest that good order looks at is unchanged.
proof fn lemma_set_card_keeps(b: BoardState, after: BoardState, c: int, k: int, x: CardView)
    requires
        well_formed(b),
        0 <= c < b.columns.len(),
        0 <= k < b.columns[c].cards.len(),
        x.id == b.columns[c].cards[k].id,
        x.archived_at is None,
        reindex_card(x, b.columns[c].id, k) == x,
        tags_below(x, b.next_tag_id),
        items_below(x, after.next_checklist_item_id),
        after.columns == set_card_at(b.columns, c, k, x),
        after.archived_cards == b.archived_cards,
        after.tags == b.tags,
        after.next_card_id == b.next_card_id,
        after.next_column_id == b.next_column_id,
        after.next_tag_id == b.next_tag_id,
        b.next_checklist_item_id <= after.next_checklist_item_id,
    ensures
        well_formed(after),
{
    lemma_set_in_order(b.columns, c, k, x);
    assert forall|i: int| 0 <= i < after.archived_cards.len() implies items_below(
        #[trigger] after.archived_cards[i],
        after.next_checklist_item_id,
    ) by {
        assert(items_below(b.archived_cards[i], b.next_checklist_item_id));
    }
    let m = after.columns;
    assert forall|c2: int, k2: int|
        0 <= c2 < m.len() && 0 <= k2 < m[c2].cards.len() && !(c2 == c && k2 == k) implies #[trigger] m[c2].cards[k2]
        == b.columns[c2].cards[k2] by {}
    assert(m[c].cards[k] == x);
    assert forall|c2: int, k2: int|
        0 <= c2 < m.len() && 0 <= k2 < m[c2].cards.len() implies tags_below_of(after.next_tag_id)(
        #[trigger] m[c2].cards[k2],
    ) && items_below_of(after.next_checklist_item_id)(m[c2].cards[k2]) by {
        if !(c2 == c && k2 == k) {
            assert(tags_below_of(b.next_tag_id)(b.columns[c2].cards[k2]));
            assert(items_below_of(b.next_checklist_item_id)(b.columns[c2].cards[k2]));
        }
    }
}

/// Saving a card's title and description keeps a board in good order.
pub proof fn law_update_card_keeps_well_formed(
    b: BoardState,
    card_id: CardId,
    title: Seq<char>,
    description: Seq<char>,
    now: i64,
)
    requires
        well_formed(b),
    ensures
        well_formed(update_card_spec(b, card_id, title, description, now).0),
{
    lemma_card_location(b.columns, card_id);
    let (after, r) = update_card_spec(b, card_id, title, description, now);
    if r == Ok::<bool, crate::model::types::BoardError>(true) {
        let (c, k) = card_location(b.columns, card_id).unwrap();
        let card = b.columns[c].cards[k];
        assert(reindex_columns(b.columns)[c].cards[k] == reindex_card(card, b.columns[c].id, k));
        lemma_set_card_keeps(b, after, c, k, after.columns[c].cards[k]);
    }
}

/// Setting a card's due date keeps a board in good order.
pub proof fn law_set_card_due_date_keeps_well_formed(
    b: BoardState,
    card_id: CardId,
    due_date: Option<DueDate>,
    now: i64,
)
    requires
        well_formed(b),
    ensures
        well_formed(set_card_due_date_spec(b, card_id, due_date, now).0),
{
    lemma_card_location(b.columns, card_id);
    let (after, r) = set_card_due_date_spec(b, card_id, due_date, now);
    if r == Ok::<bool, crate::model::types::BoardError>(true) {
        let (c, k) = card_location(b.columns, card_id).unwrap();
        let card = b.columns[c].cards[k];
        assert(reindex_columns(b.columns)[c].cards[k] == reindex_card(card, b.columns[c].id, k));
        lemma_set_card_keeps(b, after, c, k, after.columns[c].cards[k]);
    }
}

/// With no unknown tag from place `i` on, every tag number from there is some tag's.
proof fn lemma_no_unknown_tag(tags: Seq<TagView>, ids: Seq<TagId>, i: int)
    requires
        0 <= i,
        first_unknown_tag_from(tags, ids, i) is None,
    ensures
        forall|j: int| i <= j < ids.len() ==> tag_index(tags, #[trigger] ids[j]) is Some,
    decreases ids.len() - i,
{
    if i < ids.len() {
        lemma_no_unknown_tag(tags, ids, i + 1);
    }
}

/// Tags that all exist, sorted and each once, have numbers below the next one handed out.
proof fn lemma_known_tags_below(b: BoardState, tag_ids: Seq<TagId>)
    requires
        well_formed(b),
        first_unknown_tag_from(b.tags, tag_ids, 0) is None,
    ensures
        forall|t: int| 0 <= t < sorted_unique(tag_ids).len() ==> #[trigger] sorted_unique(tag_ids)[t]
            < b.next_tag_id,
{
    lemma_no_unknown_tag(b.tags, tag_ids, 0);
    lemma_sorted_unique(tag_ids);
    assert forall|t: int| 0 <= t < sorted_unique(tag_ids).len() implies #[trigger] sorted_unique(tag_ids)[t]
        < b.next_tag_id by {
        let y = sorted_unique(tag_ids)[t];
        assert(sorted_unique(tag_ids).contains(y));
        assert(sorted_unique(tag_ids).contains(y) <==> tag_ids.contains(y));
        assert(tag_ids.contains(y));
        let j = choose|j: int| 0 <= j < tag_ids.len() && tag_ids[j] == y;
        assert(tag_index(b.tags, tag_ids[j]) is Some);
        lemma_tag_index(b.tags, tag_ids[j], 0);
    }
}

/// Setting a card's tags keeps a board in good order.
pub proof fn law_set_card_tags_keeps_well_formed(
    b: BoardState,
    card_id: CardId,
    tag_ids: Seq<TagId>,
    now: i64,
)
    requires
        well_formed(b),
    ensures
        well_formed(set_card_tags_spec(b, card_id, tag_ids, now).0),
{
    lemma_card_location(b.columns, card_id);
    let (after, r) = set_card_tags_spec(b, card_id, tag_ids, now);
    if r == Ok::<bool, crate::model::types::BoardError>(true) {
        let (c, k) = card_location(b.columns, card_id).unwrap();
        let card = b.columns[c].cards[k];
        assert(reindex_columns(b.columns)[c].cards[k] == reindex_card(card, b.columns[c].id, k));
        let x = after.columns[c].cards[k];
        lemma_known_tags_below(b, tag_ids);
        assert(x.tag_ids == sorted_unique(tag_ids));
        assert(items_below(x, b.next_checklist_item_id)) by {
            assert(items_below_of(b.next_checklist_item_id)(card));
        }
        lemma_set_card_keeps(b, after, c, k, x);
    }
}

} // verus!

verus! {

/// A board whose columns are those of a board in good order with one column's name,
/// limit or time changed is in good order, when the rest that good order looks at is
/// unchanged.
proof fn lemma_set_column_keeps(b: BoardState, after: BoardState, c: int, x: ColumnView)
    requires
        well_formed(b),
        0 <= c < b.columns.len(),
        x.id == b.columns[c].id,
        x.position == b.columns[c].position,
        x.cards == b.columns[c].cards,
        after.columns == b.columns.update(c, x),
        after.archived_cards == b.archived_cards,
        after.tags == b.tags,
        after.next_card_id == b.next_card_id,
        after.next_column_id == b.next_column_id,
        after.next_tag_id == b.next_tag_id,
        after.next_checklist_item_id == b.next_checklist_item_id,
    ensures
        well_formed(after),
{
    let m = after.columns;
    assert(reindex_columns(m) =~= m) by {
        assert forall|j: int| 0 <= j < m.len() implies #[trigger] reindex_columns(m)[j] == m[j] by {
            assert(reindex_columns(b.columns)[j] == b.columns[j]);
        }
    }
    assert forall|j: int| 0 <= j < m.len() implies #[trigger] m[j].cards == b.columns[j].cards
        && m[j].id == b.columns[j].id by {}
}

/// Renaming a column keeps a board in good order.
pub proof fn law_rename_column_keeps_well_formed(
    b: BoardState,
    column_id: ColumnId,
    name: Seq<char>,
    now: i64,
)
    requires
        well_formed(b),
    ensures
        well_formed(rename_column_spec(b, column_id, name, now).0),
{
    lemma_column_index(b.columns, column_id);
    let (after, r) = rename_column_spec(b, column_id, name, now);
    if r == Ok::<bool, crate::model::types::BoardError>(true) {
        let c = column_index(b.columns, column_id).unwrap();
        lemma_set_column_keeps(b, after, c, after.columns[c]);
    }
}

/// Setting a column's WIP limit keeps a board in good order.
pub proof fn law_set_column_wip_limit_keeps_well_formed(
    b: BoardState,
    column_id: ColumnId,
    wip_limit: Option<i64>,
    now: i64,
)
    requires
        well_formed(b),
    ensures
        well_formed(set_column_wip_limit_spec(b, column_id, wip_limit, now).0),
{
    lemma_column_index(b.columns, column_id);
    let (after, r) = set_column_wip_limit_spec(b, column_id, wip_limit, now);
    if r == Ok::<bool, crate::model::types::BoardError>(true) {
        let c = column_index(b.columns, column_id).unwrap();
        lemma_set_column_keeps(b, after, c, after.columns[c]);
    }
}

/// Adding a column keeps a board in good order.
pub proof fn law_add_column_keeps_well_formed(b: BoardState, name: Seq<char>, now: i64)
    requires
        well_formed(b),
        b.columns.len() < usize::MAX,
        b.next_column_id < i64::MAX,
    ensures
        well_formed(add_column_spec(b, name, now).0),
{
    let (after, r) = add_column_spec(b, name, now);
    if r is Ok {
        let m = after.columns;
        let len = b.columns.len() as int;
        assert(m =~= b.columns.push(m[len]));
        assert(reindex_columns(m) =~= m) by {
            assert forall|j: int| 0 <= j < m.len() implies #[trigger] reindex_columns(m)[j] == m[j] by {
                if j < len {
                    assert(reindex_columns(b.columns)[j] == b.columns[j]);
                } else {
                    assert(reindex_columns(m)[j].cards =~= m[j].cards);
                }
            }
        }
        assert forall|j: int| 0 <= j < len implies #[trigger] m[j] == b.columns[j] by {}
        assert(m[len].cards.len() == 0);
    }
}

/// Restoring an archived card keeps a board in good order.
pub proof fn law_restore_card_keeps_well_formed(b: BoardState, card_id: CardId, now: i64)
    requires
        well_formed(b),
        room_for_a_card(b),
    ensures
        well_formed(restore_card_spec(b, card_id, now).0),
{
    lemma_card_index(b.archived_cards, card_id);
    let (after, r) = restore_card_spec(b, card_id, now);
    if r is Ok {
        let ai = card_index(b.archived_cards, card_id).unwrap();
        let archived = b.archived_cards[ai];
        lemma_column_index(b.columns, archived.column_id);
        let c = restore_target(b, archived).unwrap();
        let len = b.columns[c].cards.len() as int;
        let card = after.undo_stack.last()->RestoreCard_restored_card;
        assert(b.columns[c].cards.push(card) =~= b.columns[c].cards.insert(len, card));
        let ins = insert_card_at(b.columns, c, len, card);
        let m = after.columns;
        assert(m == reindex_columns(ins));
        let arch = after.archived_cards;
        assert(arch == b.archived_cards.remove(ai));
        let below = |x: CardView| x.id < b.next_card_id;
        let unarchived = |x: CardView| x.archived_at is None;
        let outside = |x: CardView| not_in_archive(arch, x.id);
        assert(every_card(b.columns, below));
        assert(every_card(b.columns, unarchived));
        assert(every_card(b.columns, outside)) by {
            assert forall|c2: int, k2: int|
                0 <= c2 < b.columns.len() && 0 <= k2 < b.columns[c2].cards.len() implies outside(
                #[trigger] b.columns[c2].cards[k2],
            ) by {
                assert forall|i: int| 0 <= i < arch.len() implies #[trigger] arch[i].id
                    != b.columns[c2].cards[k2].id by {
                    let src = if i < ai {
                        i
                    } else {
                        i + 1
                    };
                    assert(arch[i] == b.archived_cards[src]);
                }
            }
        }
        assert(below(card) && unarchived(card));
        assert(outside(card)) by {
            assert forall|i: int| 0 <= i < arch.len() implies #[trigger] arch[i].id != card.id by {
                if i < ai {
                    assert(arch[i] == b.archived_cards[i]);
                } else {
                    assert(arch[i] == b.archived_cards[i + 1]);
                }
            }
        }
        assert forall|c2: int, k2: int|
            0 <= c2 < b.columns.len() && 0 <= k2 < b.columns[c2].cards.len() implies #[trigger] b.columns[c2].cards[k2].id
            != card.id by {
            assert(b.columns[c2].cards[k2].id != b.archived_cards[ai].id);
        }
        lemma_insert_keeps(b.columns, c, len, card, below);
        lemma_insert_keeps(b.columns, c, len, card, unarchived);
        lemma_insert_keeps(b.columns, c, len, card, outside);
        lemma_reindex_keeps(ins, below);
        lemma_reindex_keeps(ins, unarchived);
        lemma_reindex_keeps(ins, outside);
        lemma_reindex_idempotent(ins);
        assert forall|j: int| 0 <= j < m.len() implies #[trigger] m[j].id == b.columns[j].id by {
            assert(m[j].id == ins[j].id);
        }
        assert forall|c2: int| 0 <= c2 < m.len() implies #[trigger] m[c2].cards.len() <= b.columns[c2].cards.len()
            + 1 by {
            assert(m[c2].cards.len() == ins[c2].cards.len());
        }
        assert forall|c2: int, k2: int|
            0 <= c2 < m.len() && 0 <= k2 < m[c2].cards.len() implies #[trigger] m[c2].cards[k2].id
            < after.next_card_id by {
            assert(below(m[c2].cards[k2]));
        }
        assert forall|c2: int, k2: int|
            0 <= c2 < m.len() && 0 <= k2 < m[c2].cards.len() implies (#[trigger] m[c2].cards[k2]).archived_at
            is None by {
            assert(unarchived(m[c2].cards[k2]));
        }
        assert forall|c2: int, k2: int, i: int|
            0 <= c2 < m.len() && 0 <= k2 < m[c2].cards.len() && 0 <= i < arch.len() implies #[trigger] m[c2].cards[k2].id
            != #[trigger] arch[i].id by {
            assert(outside(m[c2].cards[k2]));
        }
        assert forall|i: int, j: int| 0 <= i < j < arch.len() implies #[trigger] arch[i].id
            != #[trigger] arch[j].id by {
            let si = if i < ai {
                i
            } else {
                i + 1
            };
            let sj = if j < ai {
                j
            } else {
                j + 1
            };
            assert(arch[i] == b.archived_cards[si]);
            assert(arch[j] == b.archived_cards[sj]);
        }
        assert forall|i: int| 0 <= i < arch.len() implies #[trigger] arch[i].id < after.next_card_id by {
            let si = if i < ai {
                i
            } else {
                i + 1
            };
            assert(arch[i] == b.archived_cards[si]);
        }
    }
}

} // verus!

verus! {

/// Copying a card keeps a board in good order.
pub proof fn law_copy_card_keeps_well_formed(b: BoardState, card_id: CardId, now: i64)
    requires
        well_formed(b),
        room_for_a_card(b),
        b.next_card_id < i64::MAX,
        card_location(b.columns, card_id) matches Some((c, k)) ==> b.next_checklist_item_id
            + b.columns[c].cards[k].checklist_items.len() <= i64::MAX,
    ensures
        well_formed(copy_card_spec(b, card_id, now).0),
{
    lemma_card_location(b.columns, card_id);
    let (after, r) = copy_card_spec(b, card_id, now);
    if r is Ok {
        let (c, k) = card_location(b.columns, card_id).unwrap();
        let copy = after.undo_stack.last()->CopyCard_card;
        let ins = insert_card_at(b.columns, c, k + 1, copy);
        let m = after.columns;
        assert(m == reindex_columns(ins));
        let below = |x: CardView| x.id < after.next_card_id;
        let unarchived = |x: CardView| x.archived_at is None;
        let outside = |x: CardView| not_in_archive(b.archived_cards, x.id);
        assert(every_card(b.columns, below));
        assert(every_card(b.columns, unarchived));
        assert(every_card(b.columns, outside));
        assert(below(copy) && unarchived(copy));
        assert(outside(copy)) by {
            assert forall|i: int| 0 <= i < b.archived_cards.len() implies #[trigger] b.archived_cards[i].id
                != copy.id by {}
        }
        lemma_insert_keeps(b.columns, c, k + 1, copy, below);
        lemma_insert_keeps(b.columns, c, k + 1, copy, unarchived);
        lemma_insert_keeps(b.columns, c, k + 1, copy, outside);
        lemma_reindex_keeps(ins, below);
        lemma_reindex_keeps(ins, unarchived);
        lemma_reindex_keeps(ins, outside);
        lemma_reindex_idempotent(ins);
        // The copy's tags are its source's, and its items are numbered from the next number on.
        let source = b.columns[c].cards[k];
        let ni = after.next_checklist_item_id;
        assert(ni == b.next_checklist_item_id + source.checklist_items.len());
        assert(tags_below_of(b.next_tag_id)(source));
        assert(tags_below_of(b.next_tag_id)(copy));
        assert(items_below_of(ni)(copy));
        lemma_items_below_grow(b.columns, b.next_checklist_item_id, ni);
        lemma_insert_keeps(b.columns, c, k + 1, copy, tags_below_of(b.next_tag_id));
        lemma_insert_keeps(b.columns, c, k + 1, copy, items_below_of(ni));
        lemma_reindex_keeps_numbers(ins, b.next_tag_id, ni);
        assert forall|i: int| 0 <= i < after.archived_cards.len() implies items_below(
            #[trigger] after.archived_cards[i],
            ni,
        ) by {
            assert(items_below(b.archived_cards[i], b.next_checklist_item_id));
        }
        assert forall|j: int| 0 <= j < m.len() implies #[trigger] m[j].id == b.columns[j].id by {
            assert(m[j].id == ins[j].id);
        }
        assert forall|c2: int| 0 <= c2 < m.len() implies #[trigger] m[c2].cards.len() <= b.columns[c2].cards.len()
            + 1 by {
            assert(m[c2].cards.len() == ins[c2].cards.len());
        }
        assert forall|c2: int, k2: int|
            0 <= c2 < m.len() && 0 <= k2 < m[c2].cards.len() implies #[trigger] m[c2].cards[k2].id
            < after.next_card_id by {
            assert(below(m[c2].cards[k2]));
        }
        assert forall|c2: int, k2: int|
            0 <= c2 < m.len() && 0 <= k2 < m[c2].cards.len() implies (#[trigger] m[c2].cards[k2]).archived_at
            is None by {
            assert(unarchived(m[c2].cards[k2]));
        }
        assert forall|c2: int, k2: int, i: int|
            0 <= c2 < m.len() && 0 <= k2 < m[c2].cards.len() && 0 <= i < after.archived_cards.len() implies #[trigger] m[c2].cards[k2].id
            != #[trigger] after.archived_cards[i].id by {
            assert(outside(m[c2].cards[k2]));
        }
    }
}

} // verus!

verus! {

/// A bound on tag numbers that holds of every card holds of a larger one.
pub proof fn lemma_tags_below_grow(cols: Seq<ColumnView>, n: TagId, m: TagId)
    requires
        n <= m,
        every_card(cols, tags_below_of(n)),
    ensures
        every_card(cols, tags_below_of(m)),
{
    assert forall|c: int, k: int|
        0 <= c < cols.len() && 0 <= k < cols[c].cards.len() implies tags_below_of(m)(#[trigger] cols[c].cards[k]) by {
        assert(tags_below_of(n)(cols[c].cards[k]));
    }
}

/// A board whose tags are those of a board in good order with one tag's name, colour or
/// time changed is in good order, when the rest is unchanged.
proof fn lemma_set_tag_keeps(b: BoardState, after: BoardState, t: int, x: TagView)
    requires
        well_formed(b),
        0 <= t < b.tags.len(),
        x.id == b.tags[t].id,
        after.tags == b.tags.update(t, x),
        after.columns == b.columns,
        after.archived_cards == b.archived_cards,
        after.next_card_id == b.next_card_id,
        after.next_column_id == b.next_column_id,
        after.next_tag_id == b.next_tag_id,
        after.next_checklist_item_id == b.next_checklist_item_id,
    ensures
        well_formed(after),
{
    assert forall|i: int| 0 <= i < after.tags.len() implies #[trigger] after.tags[i].id == b.tags[i].id by {}
}

/// Renaming a tag keeps a board in good order.
pub proof fn law_rename_tag_keeps_well_formed(b: BoardState, tag_id: TagId, name: Seq<char>, now: i64)
    requires
        well_formed(b),
    ensures
        well_formed(rename_tag_spec(b, tag_id, name, now).0),
{
    lemma_tag_index(b.tags, tag_id, 0);
    let (after, r) = rename_tag_spec(b, tag_id, name, now);
    if r == Ok::<bool, crate::model::types::BoardError>(true) {
        let t = tag_index(b.tags, tag_id).unwrap();
        lemma_set_tag_keeps(b, after, t, after.tags[t]);
    }
}

/// Setting a tag's colour keeps a board in good order.
pub proof fn law_set_tag_color_keeps_well_formed(b: BoardState, tag_id: TagId, color: Seq<char>, now: i64)
    requires
        well_formed(b),
    ensures
        well_formed(set_tag_color_spec(b, tag_id, color, now).0),
{
    lemma_tag_index(b.tags, tag_id, 0);
    let (after, r) = set_tag_color_spec(b, tag_id, color, now);
    if r == Ok::<bool, crate::model::types::BoardError>(true) {
        let t = tag_index(b.tags, tag_id).unwrap();
        lemma_set_tag_keeps(b, after, t, after.tags[t]);
    }
}

/// Adding a tag keeps a board in good order.
pub proof fn law_add_tag_keeps_well_formed(b: BoardState, name: Seq<char>, color: Seq<char>, now: i64)
    requires
        well_formed(b),
        b.tags.len() < usize::MAX,
        b.next_tag_id < i64::MAX,
    ensures
        well_formed(add_tag_spec(b, name, color, now).0),
{
    let (after, r) = add_tag_spec(b, name, color, now);
    if r is Ok {
        lemma_tags_below_grow(b.columns, b.next_tag_id, after.next_tag_id);
        assert forall|i: int| 0 <= i < b.tags.len() implies #[trigger] after.tags[i] == b.tags[i] by {}
        assert forall|i: int| 0 <= i < after.archived_cards.len() implies tags_below(
            #[trigger] after.archived_cards[i],
            after.next_tag_id,
        ) by {
            assert(tags_below(b.archived_cards[i], b.next_tag_id));
        }
    }
}

} // verus!

verus! {

/// A card of a board in good order with its checklist replaced by `items` put in order,
/// each item numbered below `n`, stands in order at its place within the bounds.
proof fn lemma_checklist_card(
    b: BoardState,
    c: int,
    k: int,
    items: Seq<ChecklistItemView>,
    now: i64,
    n: ChecklistItemId,
)
    requires
        well_formed(b),
        0 <= c < b.columns.len(),
        0 <= k < b.columns[c].cards.len(),
        forall|i: int| 0 <= i < items.len() ==> #[trigger] items[i].id < n,
    ensures
        ({
            let card = b.columns[c].cards[k];
            let x = CardView { checklist_items: reindex_items(card.id, items), updated_at: now, ..card };
            &&& reindex_card(x, b.columns[c].id, k) == x
            &&& x.archived_at is None
            &&& tags_below(x, b.next_tag_id)
            &&& items_below(x, n)
        }),
{
    let card = b.columns[c].cards[k];
    let x = CardView { checklist_items: reindex_items(card.id, items), updated_at: now, ..card };
    assert(reindex_columns(b.columns)[c].cards[k] == reindex_card(card, b.columns[c].id, k));
    assert(reindex_items(card.id, reindex_items(card.id, items)) =~= reindex_items(card.id, items));
    assert(tags_below_of(b.next_tag_id)(card));
}

/// The checklist of a card of a board in good order is in order: each item belongs to the
/// card and is numbered by its place.
proof fn lemma_checklist_in_order(b: BoardState, c: int, k: int)
    requires
        well_formed(b),
        0 <= c < b.columns.len(),
        0 <= k < b.columns[c].cards.len(),
    ensures
        reindex_items(b.columns[c].cards[k].id, b.columns[c].cards[k].checklist_items)
            == b.columns[c].cards[k].checklist_items,
        items_below(b.columns[c].cards[k], b.next_checklist_item_id),
{
    let card = b.columns[c].cards[k];
    assert(reindex_columns(b.columns)[c].cards[k] == reindex_card(card, b.columns[c].id, k));
    assert(items_below_of(b.next_checklist_item_id)(card));
}

/// Adding a checklist item keeps a board in good order.
pub proof fn law_add_checklist_item_keeps_well_formed(
    b: BoardState,
    card_id: CardId,
    text: Seq<char>,
    now: i64,
)
    requires
        well_formed(b),
        b.next_checklist_item_id < i64::MAX,
    ensures
        well_formed(add_checklist_item_spec(b, card_id, text, now).0),
{
    lemma_card_location(b.columns, card_id);
    let (after, r) = add_checklist_item_spec(b, card_id, text, now);
    if r is Ok {
        let (c, k) = card_location(b.columns, card_id).unwrap();
        let card = b.columns[c].cards[k];
        lemma_checklist_in_order(b, c, k);
        let items = card.checklist_items.push(after.columns[c].cards[k].checklist_items.last());
        let edited = after.columns[c].cards[k];
        assert(items.last().id == b.next_checklist_item_id);
        assert forall|i: int| 0 <= i < items.len() implies #[trigger] items[i].id
            < after.next_checklist_item_id by {
            if i < card.checklist_items.len() {
                assert(card.checklist_items[i].id < b.next_checklist_item_id);
            }
        }
        lemma_checklist_card(b, c, k, items, now, after.next_checklist_item_id);
        lemma_set_card_keeps(b, after, c, k, edited);
    }
}

/// Changing a checklist item's text keeps a board in good order.
pub proof fn law_update_checklist_item_keeps_well_formed(
    b: BoardState,
    card_id: CardId,
    item_id: ChecklistItemId,
    text: Seq<char>,
    now: i64,
)
    requires
        well_formed(b),
    ensures
        well_formed(update_checklist_item_spec(b, card_id, item_id, text, now).0),
{
    lemma_card_location(b.columns, card_id);
    let (after, r) = update_checklist_item_spec(b, card_id, item_id, text, now);
    if r == Ok::<bool, crate::model::types::BoardError>(true) {
        let (c, k) = card_location(b.columns, card_id).unwrap();
        let card = b.columns[c].cards[k];
        lemma_checklist_in_order(b, c, k);
        lemma_item_index(card.checklist_items, item_id, 0);
        let items = after.columns[c].cards[k].checklist_items;
        assert(reindex_items(card.id, items) =~= items);
        assert forall|i: int| 0 <= i < items.len() implies #[trigger] items[i].id
            < b.next_checklist_item_id by {
            assert(card.checklist_items[i].id < b.next_checklist_item_id);
        }
        lemma_checklist_card(b, c, k, items, now, b.next_checklist_item_id);
        lemma_set_card_keeps(b, after, c, k, after.columns[c].cards[k]);
    }
}

/// Checking or unchecking a checklist item keeps a board in good order.
pub proof fn law_set_checklist_item_checked_keeps_well_formed(
    b: BoardState,
    card_id: CardId,
    item_id: ChecklistItemId,
    checked: bool,
    now: i64,
)
    requires
        well_formed(b),
    ensures
        well_formed(set_checklist_item_checked_spec(b, card_id, item_id, checked, now).0),
{
    lemma_card_location(b.columns, card_id);
    let (after, r) = set_checklist_item_checked_spec(b, card_id, item_id, checked, now);
    if r == Ok::<bool, crate::model::types::BoardError>(true) {
        let (c, k) = card_location(b.columns, card_id).unwrap();
        let card = b.columns[c].cards[k];
        lemma_checklist_in_order(b, c, k);
        lemma_item_index(card.checklist_items, item_id, 0);
        let items = after.columns[c].cards[k].checklist_items;
        assert(reindex_items(card.id, items) =~= items);
        assert forall|i: int| 0 <= i < items.len() implies #[trigger] items[i].id
            < b.next_checklist_item_id by {
            assert(card.checklist_items[i].id < b.next_checklist_item_id);
        }
        lemma_checklist_card(b, c, k, items, now, b.next_checklist_item_id);
        lemma_set_card_keeps(b, after, c, k, after.columns[c].cards[k]);
    }
}

/// Deleting a checklist item keeps a board in good order.
pub proof fn law_delete_checklist_item_keeps_well_formed(
    b: BoardState,
    card_id: CardId,
    item_id: ChecklistItemId,
    now: i64,
)
    requires
        well_formed(b),
    ensures
        well_formed(delete_checklist_item_spec(b, card_id, item_id, now).0),
{
    lemma_card_location(b.columns, card_id);
    let (after, r) = delete_checklist_item_spec(b, card_id, item_id, now);
    if r is Ok {
        let (c, k) = card_location(b.columns, card_id).unwrap();
        let card = b.columns[c].cards[k];
        lemma_checklist_in_order(b, c, k);
        lemma_item_index(card.checklist_items, item_id, 0);
        let i0 = item_index(card.checklist_items, item_id).unwrap();
        let items = card.checklist_items.remove(i0);
        assert forall|i: int| 0 <= i < items.len() implies #[trigger] items[i].id
            < b.next_checklist_item_id by {
            if i < i0 {
                assert(items[i] == card.checklist_items[i]);
            } else {
                assert(items[i] == card.checklist_items[i + 1]);
            }
        }
        lemma_checklist_card(b, c, k, items, now, b.next_checklist_item_id);
        lemma_set_card_keeps(b, after, c, k, after.columns[c].cards[k]);
    }
}

/// Moving a checklist item keeps a board in good order.
pub proof fn law_move_checklist_item_keeps_well_formed(
    b: BoardState,
    card_id: CardId,
    item_id: ChecklistItemId,
    target_index: usize,
    now: i64,
)
    requires
        well_formed(b),
    ensures
        well_formed(move_checklist_item_spec(b, card_id, item_id, target_index, now).0),
{
    lemma_card_location(b.columns, card_id);
    let (after, r) = move_checklist_item_spec(b, card_id, item_id, target_index, now);
    if r == Ok::<bool, crate::model::types::BoardError>(true) {
        let (c, k) = card_location(b.columns, card_id).unwrap();
        let card = b.columns[c].cards[k];
        let old_items = card.checklist_items;
        lemma_checklist_in_order(b, c, k);
        lemma_item_index(old_items, item_id, 0);
        let i0 = item_index(old_items, item_id).unwrap();
        let clamped = min_int(target_index as int, old_items.len() as int);
        let to = if i0 < clamped {
            clamped - 1
        } else {
            clamped
        };
        let rest = old_items.remove(i0);
        let items = rest.insert(to, old_items[i0]);
        assert forall|i: int| 0 <= i < rest.len() implies #[trigger] rest[i].id
            < b.next_checklist_item_id by {
            if i < i0 {
                assert(rest[i] == old_items[i]);
            } else {
                assert(rest[i] == old_items[i + 1]);
            }
        }
        assert forall|i: int| 0 <= i < items.len() implies #[trigger] items[i].id
            < b.next_checklist_item_id by {
            if i < to {
                assert(items[i] == rest[i]);
            } else if i > to {
                assert(items[i] == rest[i - 1]);
            }
        }
        lemma_checklist_card(b, c, k, items, now, b.next_checklist_item_id);
        lemma_set_card_keeps(b, after, c, k, after.columns[c].cards[k]);
    }
}

} // verus!

verus! {

/// A board whose columns, in order, are some of those of a board in good order, each
/// keeping its number and cards, is in good order when its archive holds the same cards by
/// number, tags and checklist, and the rest is unchanged. `src` gives for each place the
/// place the column came from.
proof fn lemma_columns_rearranged_keep(b: BoardState, after: BoardState, src: spec_fn(int) -> int)
    requires
        well_formed(b),
        in_order(after.columns),
        after.columns.len() <= b.columns.len(),
        forall|j: int|
            0 <= j < after.columns.len() ==> 0 <= #[trigger] src(j) < b.columns.len()
                && after.columns[j].id == b.columns[src(j)].id && after.columns[j].cards
                == b.columns[src(j)].cards,
        forall|i: int, j: int|
            0 <= i < after.columns.len() && 0 <= j < after.columns.len() && i != j ==> #[trigger] src(i)
                != #[trigger] src(j),
        after.archived_cards.len() == b.archived_cards.len(),
        forall|i: int|
            0 <= i < after.archived_cards.len() ==> (#[trigger] after.archived_cards[i]).id
                == b.archived_cards[i].id && after.archived_cards[i].tag_ids == b.archived_cards[i].tag_ids
                && after.archived_cards[i].checklist_items == b.archived_cards[i].checklist_items,
        after.tags == b.tags,
        after.next_card_id == b.next_card_id,
        after.next_column_id == b.next_column_id,
        after.next_tag_id == b.next_tag_id,
        after.next_checklist_item_id == b.next_checklist_item_id,
    ensures
        well_formed(after),
{
    let m = after.columns;
    let cols = b.columns;
    let arch = after.archived_cards;
    assert forall|c: int, k: int|
        0 <= c < m.len() && 0 <= k < m[c].cards.len() implies #[trigger] m[c].cards[k]
        == cols[src(c)].cards[k] by {}
    assert forall|c: int| 0 <= c < m.len() implies #[trigger] m[c].cards.len() < i64::MAX
        && m[c].cards.len() < usize::MAX by {
        assert(cols[src(c)].cards.len() < i64::MAX);
    }
    assert forall|i: int, j: int| 0 <= i < j < m.len() implies #[trigger] m[i].id != #[trigger] m[j].id by {
        assert(src(i) != src(j));
        if src(i) < src(j) {
            assert(cols[src(i)].id != cols[src(j)].id);
        } else {
            assert(cols[src(j)].id != cols[src(i)].id);
        }
    }
    assert forall|i: int| 0 <= i < m.len() implies #[trigger] m[i].id < after.next_column_id by {
        assert(cols[src(i)].id < b.next_column_id);
    }
    assert forall|c1: int, k1: int, c2: int, k2: int|
        0 <= c1 < m.len() && 0 <= k1 < m[c1].cards.len() && 0 <= c2 < m.len() && 0 <= k2
            < m[c2].cards.len() && (c1 != c2 || k1 != k2) implies #[trigger] m[c1].cards[k1].id
        != #[trigger] m[c2].cards[k2].id by {
        assert(m[c1].cards[k1] == cols[src(c1)].cards[k1]);
        assert(m[c2].cards[k2] == cols[src(c2)].cards[k2]);
        if c1 != c2 {
            assert(src(c1) != src(c2));
        }
    }
    assert forall|c: int, k: int, i: int|
        0 <= c < m.len() && 0 <= k < m[c].cards.len() && 0 <= i < arch.len() implies #[trigger] m[c].cards[k].id
        != #[trigger] arch[i].id by {
        assert(m[c].cards[k] == cols[src(c)].cards[k]);
        assert(arch[i].id == b.archived_cards[i].id);
    }
    assert forall|i: int, j: int| 0 <= i < j < arch.len() implies #[trigger] arch[i].id
        != #[trigger] arch[j].id by {
        assert(arch[i].id == b.archived_cards[i].id && arch[j].id == b.archived_cards[j].id);
    }
    assert forall|i: int| 0 <= i < arch.len() implies #[trigger] arch[i].id < after.next_card_id
        && tags_below(arch[i], after.next_tag_id) && items_below(arch[i], after.next_checklist_item_id) by {
        assert(arch[i].id == b.archived_cards[i].id);
        assert(tags_below(b.archived_cards[i], b.next_tag_id));
        assert(items_below(b.archived_cards[i], b.next_checklist_item_id));
    }
    assert forall|c: int, k: int|
        0 <= c < m.len() && 0 <= k < m[c].cards.len() implies #[trigger] m[c].cards[k].id
        < after.next_card_id && (m[c].cards[k].archived_at is None) && tags_below_of(after.next_tag_id)(
        m[c].cards[k],
    ) && items_below_of(after.next_checklist_item_id)(m[c].cards[k]) by {
        assert(m[c].cards[k] == cols[src(c)].cards[k]);
        assert(tags_below_of(b.next_tag_id)(cols[src(c)].cards[k]));
        assert(items_below_of(b.next_checklist_item_id)(cols[src(c)].cards[k]));
    }
}

/// The place a column came from, when the one at `si` moved to `at`: the column now at `j`.
spec fn moved_from(si: int, at: int, j: int) -> int {
    if j == at {
        si
    } else {
        let jr = if j < at {
            j
        } else {
            j - 1
        };
        if jr < si {
            jr
        } else {
            jr + 1
        }
    }
}

/// Taking the column at `si` out and putting `x` at `at` of what is left: every other
/// place holds the column it came from, and no two places came from the same one.
proof fn lemma_moved_from(cols: Seq<ColumnView>, si: int, at: int, x: ColumnView)
    requires
        0 <= si < cols.len(),
        0 <= at < cols.len(),
    ensures
        cols.remove(si).insert(at, x).len() == cols.len(),
        cols.remove(si).insert(at, x)[at] == x,
        forall|j: int|
            0 <= j < cols.len() ==> 0 <= #[trigger] moved_from(si, at, j) < cols.len(),
        forall|j: int|
            0 <= j < cols.len() && j != at ==> #[trigger] cols.remove(si).insert(at, x)[j]
                == cols[moved_from(si, at, j)],
        forall|i: int, j: int|
            0 <= i < cols.len() && 0 <= j < cols.len() && i != j ==> #[trigger] moved_from(si, at, i)
                != #[trigger] moved_from(si, at, j),
{
    let ins = cols.remove(si).insert(at, x);
    assert forall|j: int| 0 <= j < cols.len() && j != at implies #[trigger] ins[j] == cols[moved_from(
        si,
        at,
        j,
    )] by {
        if j < at {
            assert(ins[j] == cols.remove(si)[j]);
        } else {
            assert(ins[j] == cols.remove(si)[j - 1]);
        }
    }
}

/// Moving a column keeps a board in good order.
pub proof fn law_move_column_keeps_well_formed(
    b: BoardState,
    column_id: ColumnId,
    target_index: usize,
    now: i64,
)
    requires
        well_formed(b),
    ensures
        well_formed(move_column_spec(b, column_id, target_index, now).0),
{
    lemma_column_index(b.columns, column_id);
    let (after, r) = move_column_spec(b, column_id, target_index, now);
    if r == Ok::<bool, crate::model::types::BoardError>(true) {
        let si = column_index(b.columns, column_id).unwrap();
        let clamped = min_int(target_index as int, b.columns.len() as int);
        let wanted = if si < clamped {
            clamped - 1
        } else {
            clamped
        };
        let column = ColumnView { updated_at: now, ..b.columns[si] };
        let removed = b.columns.remove(si);
        let at = min_int(wanted, removed.len() as int);
        let ins = removed.insert(at, column);
        assert(after.columns == reindex_columns(ins));
        lemma_reindex_idempotent(ins);
        lemma_moved_from(b.columns, si, at, column);
        let src = |j: int| moved_from(si, at, j);
        assert forall|j: int| 0 <= j < after.columns.len() implies 0 <= #[trigger] src(j)
            < b.columns.len() && after.columns[j].id == b.columns[src(j)].id && after.columns[j].cards
            == b.columns[src(j)].cards by {
            assert(src(j) == moved_from(si, at, j));
            assert(ins[j].id == b.columns[src(j)].id && ins[j].cards == b.columns[src(j)].cards);
            assert(reindex_columns(b.columns)[src(j)] == b.columns[src(j)]);
        }
        assert forall|i: int, j: int|
            0 <= i < after.columns.len() && 0 <= j < after.columns.len() && i != j implies #[trigger] src(i)
            != #[trigger] src(j) by {
            assert(moved_from(si, at, i) != moved_from(si, at, j));
        }
        lemma_columns_rearranged_keep(b, after, src);
    }
}

} // verus!

verus! {

/// Dropping a tag from a list keeps every number in it below a bound.
proof fn lemma_without_tag_below(tag_ids: Seq<TagId>, tag_id: TagId, n: TagId)
    requires
        forall|t: int| 0 <= t < tag_ids.len() ==> #[trigger] tag_ids[t] < n,
    ensures
        forall|t: int| 0 <= t < without_tag(tag_ids, tag_id).len() ==> #[trigger] without_tag(tag_ids, tag_id)[t] < n,
    decreases tag_ids.len(),
{
    if tag_ids.len() > 0 {
        let init = tag_ids.drop_last();
        assert forall|t: int| 0 <= t < init.len() implies #[trigger] init[t] < n by {
            assert(init[t] == tag_ids[t]);
        }
        lemma_without_tag_below(init, tag_id, n);
        let w = without_tag(init, tag_id);
        assert(tag_ids.last() < n);
        if tag_ids.last() != tag_id {
            assert forall|t: int| 0 <= t < w.push(tag_ids.last()).len() implies #[trigger] w.push(
                tag_ids.last(),
            )[t] < n by {
                if t < w.len() {
                    assert(w.push(tag_ids.last())[t] == w[t]);
                }
            }
        }
    }
}

/// Removing a tag keeps a board in good order.
pub proof fn law_remove_tag_keeps_well_formed(b: BoardState, tag_id: TagId, now: i64)
    requires
        well_formed(b),
    ensures
        well_formed(remove_tag_spec(b, tag_id, now).0),
{
    lemma_tag_index(b.tags, tag_id, 0);
    let (after, r) = remove_tag_spec(b, tag_id, now);
    if r is Ok {
        let t0 = tag_index(b.tags, tag_id).unwrap();
        let cols = b.columns;
        let m = after.columns;
        assert(m.len() == cols.len());
        assert forall|c: int, k: int|
            0 <= c < m.len() && 0 <= k < m[c].cards.len() implies #[trigger] m[c].cards[k]
            == crate::model::raw_spec::card_without_tag(cols[c].cards[k], tag_id) by {}
        assert forall|c: int| 0 <= c < m.len() implies #[trigger] m[c].id == cols[c].id
            && m[c].cards.len() == cols[c].cards.len() by {}
        assert(reindex_columns(m) =~= m) by {
            assert forall|j: int| 0 <= j < m.len() implies #[trigger] reindex_columns(m)[j] == m[j] by {
                assert(reindex_columns(cols)[j] == cols[j]);
                assert forall|k: int| 0 <= k < m[j].cards.len() implies #[trigger] reindex_columns(m)[j].cards[k]
                    == m[j].cards[k] by {
                    assert(reindex_columns(cols)[j].cards[k] == cols[j].cards[k]);
                }
                assert(reindex_columns(m)[j].cards =~= m[j].cards);
            }
        }
        assert forall|c: int, k: int|
            0 <= c < m.len() && 0 <= k < m[c].cards.len() implies tags_below_of(after.next_tag_id)(
            #[trigger] m[c].cards[k],
        ) && items_below_of(after.next_checklist_item_id)(m[c].cards[k]) by {
            assert(tags_below_of(b.next_tag_id)(cols[c].cards[k]));
            assert(items_below_of(b.next_checklist_item_id)(cols[c].cards[k]));
            lemma_without_tag_below(cols[c].cards[k].tag_ids, tag_id, b.next_tag_id);
        }
        let arch = after.archived_cards;
        assert forall|i: int| 0 <= i < arch.len() implies tags_below(#[trigger] arch[i], after.next_tag_id)
            && items_below(arch[i], after.next_checklist_item_id) && arch[i].id == b.archived_cards[i].id by {
            assert(tags_below(b.archived_cards[i], b.next_tag_id));
            assert(items_below(b.archived_cards[i], b.next_checklist_item_id));
            lemma_without_tag_below(b.archived_cards[i].tag_ids, tag_id, b.next_tag_id);
        }
        let tags = after.tags;
        assert(tags == b.tags.remove(t0));
        assert forall|i: int| 0 <= i < tags.len() implies #[trigger] tags[i] == b.tags[if i < t0 {
            i
        } else {
            i + 1
        }] by {}
        assert forall|i: int, j: int| 0 <= i < j < tags.len() implies #[trigger] tags[i].id
            != #[trigger] tags[j].id by {
            let i2 = if i < t0 { i } else { i + 1 };
            let j2 = if j < t0 { j } else { j + 1 };
            assert(tags[i] == b.tags[i2] && tags[j] == b.tags[j2]);
        }
    }
}

} // verus!

verus! {

/// Removing a column keeps a board in good order.
pub proof fn law_remove_column_keeps_well_formed(b: BoardState, column_id: ColumnId, now: i64)
    requires
        well_formed(b),
    ensures
        well_formed(remove_column_spec(b, column_id, now).0),
{
    lemma_column_index(b.columns, column_id);
    let (after, r) = remove_column_spec(b, column_id, now);
    if r is Ok {
        let c = column_index(b.columns, column_id).unwrap();
        let rest = b.columns.remove(c);
        assert(after.columns == reindex_columns(rest));
        lemma_reindex_idempotent(rest);
        let src = |j: int|
            if j < c {
                j
            } else {
                j + 1
            };
        assert forall|j: int| 0 <= j < after.columns.len() implies 0 <= #[trigger] src(j)
            < b.columns.len() && after.columns[j].id == b.columns[src(j)].id && after.columns[j].cards
            == b.columns[src(j)].cards by {
            assert(rest[j] == b.columns[src(j)]);
            assert(reindex_columns(b.columns)[src(j)] == b.columns[src(j)]);
        }
        lemma_columns_rearranged_keep(b, after, src);
    }
}

} // verus!

verus! {

/// Archiving every card of a column keeps a board in good order, when the archive has room
/// for them.
pub proof fn law_archive_column_keeps_well_formed(b: BoardState, column_id: ColumnId, now: i64)
    requires
        well_formed(b),
        b.archived_cards.len() + (match column_index(b.columns, column_id) {
            Some(c) => b.columns[c].cards.len() as int,
            None => 0,
        }) <= usize::MAX,
    ensures
        well_formed(archive_column_spec(b, column_id, now).0),
{
    lemma_column_index(b.columns, column_id);
    let (after, r) = archive_column_spec(b, column_id, now);
    if r is Ok && b.columns[column_index(b.columns, column_id).unwrap()].cards.len() > 0 {
        let c = column_index(b.columns, column_id).unwrap();
        let cols = b.columns;
        let cards = cols[c].cards;
        let len = b.archived_cards.len() as int;
        let placed = set_cards(cols, c, seq![]);
        let m = after.columns;
        let arch = after.archived_cards;
        assert(m == reindex_columns(placed));
        lemma_reindex_idempotent(placed);
        let below = |x: CardView| x.id < b.next_card_id;
        let outside = |x: CardView| not_in_archive(b.archived_cards, x.id);
        let not_here = |x: CardView| forall|k: int| 0 <= k < cards.len() ==> #[trigger] cards[k].id != x.id;
        assert(every_card(cols, below));
        assert(every_card(cols, outside));
        assert(every_card(cols, |x: CardView| x.archived_at is None));
        assert forall|c2: int, k2: int|
            0 <= c2 < placed.len() && 0 <= k2 < placed[c2].cards.len() implies #[trigger] placed[c2].cards[k2]
            == cols[c2].cards[k2] && c2 != c by {}
        assert(every_card(placed, not_here)) by {
            assert forall|c2: int, k2: int|
                0 <= c2 < placed.len() && 0 <= k2 < placed[c2].cards.len() implies not_here(
                #[trigger] placed[c2].cards[k2],
            ) by {
                assert forall|k: int| 0 <= k < cards.len() implies #[trigger] cards[k].id
                    != placed[c2].cards[k2].id by {
                    assert(cols[c].cards[k].id != cols[c2].cards[k2].id);
                }
            }
        }
        assert forall|c2: int, k2: int|
            0 <= c2 < m.len() && 0 <= k2 < m[c2].cards.len() implies #[trigger] m[c2].cards[k2].id
            == placed[c2].cards[k2].id && m[c2].cards[k2].archived_at == placed[c2].cards[k2].archived_at
            && m[c2].cards[k2].tag_ids == placed[c2].cards[k2].tag_ids && m[c2].cards[k2].checklist_items
            == reindex_items(placed[c2].cards[k2].id, placed[c2].cards[k2].checklist_items) by {}
        assert forall|j: int| 0 <= j < m.len() implies #[trigger] m[j].id == cols[j].id
            && m[j].cards.len() <= cols[j].cards.len() by {}
        // The archive: what was there, then the column's cards in order.
        assert forall|i: int| len <= i < arch.len() implies #[trigger] arch[i].id == cards[i - len].id
            && arch[i].tag_ids == cards[i - len].tag_ids && arch[i].checklist_items
            == cards[i - len].checklist_items by {}
        assert forall|i: int| 0 <= i < len implies #[trigger] arch[i] == b.archived_cards[i] by {}
        assert forall|i: int, j: int| 0 <= i < j < arch.len() implies #[trigger] arch[i].id
            != #[trigger] arch[j].id by {
            if j < len {
                assert(arch[i] == b.archived_cards[i] && arch[j] == b.archived_cards[j]);
            } else if i < len {
                assert(arch[i] == b.archived_cards[i]);
                assert(cols[c].cards[j - len].id != b.archived_cards[i].id);
            } else {
                assert(cols[c].cards[i - len].id != cols[c].cards[j - len].id);
            }
        }
        assert forall|i: int| 0 <= i < arch.len() implies #[trigger] arch[i].id < after.next_card_id
            && tags_below(arch[i], after.next_tag_id) && items_below(arch[i], after.next_checklist_item_id) by {
            if i < len {
                assert(arch[i] == b.archived_cards[i]);
                assert(tags_below(b.archived_cards[i], b.next_tag_id));
                assert(items_below(b.archived_cards[i], b.next_checklist_item_id));
            } else {
                assert(below(cols[c].cards[i - len]));
                assert(tags_below_of(b.next_tag_id)(cols[c].cards[i - len]));
                assert(items_below_of(b.next_checklist_item_id)(cols[c].cards[i - len]));
            }
        }
        assert forall|c2: int, k2: int, i: int|
            0 <= c2 < m.len() && 0 <= k2 < m[c2].cards.len() && 0 <= i < arch.len() implies #[trigger] m[c2].cards[k2].id
            != #[trigger] arch[i].id by {
            assert(placed[c2].cards[k2] == cols[c2].cards[k2]);
            if i < len {
                assert(outside(cols[c2].cards[k2]));
                assert(arch[i] == b.archived_cards[i]);
            } else {
                assert(not_here(placed[c2].cards[k2]));
                assert(cards[i - len].id != placed[c2].cards[k2].id);
            }
        }
        assert forall|c1: int, k1: int, c2: int, k2: int|
            0 <= c1 < m.len() && 0 <= k1 < m[c1].cards.len() && 0 <= c2 < m.len() && 0 <= k2
                < m[c2].cards.len() && (c1 != c2 || k1 != k2) implies #[trigger] m[c1].cards[k1].id
            != #[trigger] m[c2].cards[k2].id by {
            assert(placed[c1].cards[k1] == cols[c1].cards[k1]);
            assert(placed[c2].cards[k2] == cols[c2].cards[k2]);
        }
        assert forall|c2: int, k2: int|
            0 <= c2 < m.len() && 0 <= k2 < m[c2].cards.len() implies #[trigger] m[c2].cards[k2].id
            < after.next_card_id && (m[c2].cards[k2].archived_at is None) && tags_below_of(after.next_tag_id)(
            m[c2].cards[k2],
        ) && items_below_of(after.next_checklist_item_id)(m[c2].cards[k2]) by {
            let x = cols[c2].cards[k2];
            assert(placed[c2].cards[k2] == x);
            assert(below(x));
            assert(tags_below_of(b.next_tag_id)(x));
            assert(items_below_of(b.next_checklist_item_id)(x));
            assert forall|i: int| 0 <= i < m[c2].cards[k2].checklist_items.len() implies #[trigger] m[c2].cards[k2].checklist_items[i].id
                < after.next_checklist_item_id by {
                assert(x.checklist_items[i].id < b.next_checklist_item_id);
            }
        }
    }
}

} // verus!

verus! {

/// Saving the card editor keeps a board in good order, when the new checklist items'
/// numbers fit.
pub proof fn law_update_card_details_keeps_well_formed(
    b: BoardState,
    card_id: CardId,
    title: Seq<char>,
    description: Seq<char>,
    due_date: Option<DueDate>,
    tag_ids: Seq<TagId>,
    drafts: Seq<DraftView>,
    now: i64,
)
    requires
        well_formed(b),
        new_items_fit(b, card_id, drafts),
    ensures
        well_formed(update_card_details_spec(b, card_id, title, description, due_date, tag_ids, drafts, now).0),
{
    lemma_card_location(b.columns, card_id);
    let (after, r) = update_card_details_spec(b, card_id, title, description, due_date, tag_ids, drafts, now);
    if r is Ok {
        let (c, k) = card_location(b.columns, card_id).unwrap();
        let card = b.columns[c].cards[k];
        let old_items = card.checklist_items;
        let n = after.next_checklist_item_id;
        lemma_new_draft_count(drafts, old_items);
        assert(n == b.next_checklist_item_id + new_draft_count(drafts, old_items));
        lemma_checklist_in_order(b, c, k);
        lemma_count_prefix(drafts, old_items, 0);
        assert(drafts.take(0).len() == 0);
        if r == Ok::<bool, crate::model::types::BoardError>(false) {
            assert(set_card_at(b.columns, c, k, card) =~= b.columns) by {
                assert(b.columns[c].cards.update(k, card) =~= b.columns[c].cards);
            }
            assert(reindex_columns(b.columns)[c].cards[k] == reindex_card(card, b.columns[c].id, k));
            assert(tags_below_of(b.next_tag_id)(card));
            lemma_set_card_keeps(b, after, c, k, card);
        } else {
            let items = built_items(drafts, old_items, card_id, b.next_checklist_item_id as int, now);
            let x = after.columns[c].cards[k];
            assert(x.checklist_items == items);
            assert forall|i: int| 0 <= i < items.len() implies #[trigger] items[i].id < n by {
                let d = drafts[i];
                if is_new_draft(d, old_items) {
                    lemma_count_prefix(drafts, old_items, i + 1);
                    lemma_new_draft_count(drafts.take(i), old_items);
                    assert(drafts.take(i + 1).drop_last() =~= drafts.take(i));
                    assert(drafts.take(i + 1).last() == d);
                } else {
                    lemma_item_index(old_items, d.id.unwrap(), 0);
                    let j = item_index(old_items, d.id.unwrap()).unwrap();
                    assert(old_items[j].id < b.next_checklist_item_id);
                }
            }
            assert(reindex_items(card.id, items) =~= items);
            lemma_known_tags_below(b, tag_ids);
            assert(reindex_columns(b.columns)[c].cards[k] == reindex_card(card, b.columns[c].id, k));
            lemma_set_card_keeps(b, after, c, k, x);
        }
    }
}

} // verus!

verus! {

/// A new empty board is in good order.
pub proof fn law_new_empty_well_formed(
    id: BoardId,
    name: Seq<char>,
    next_card_id: CardId,
    first_column_id: ColumnId,
    next_tag_id: TagId,
    next_checklist_item_id: ChecklistItemId,
    now: i64,
)
    requires
        first_column_id < i64::MAX,
    ensures
        well_formed(
            new_empty_state(id, name, next_card_id, first_column_id, next_tag_id, next_checklist_item_id, now),
        ),
{
    let b = new_empty_state(id, name, next_card_id, first_column_id, next_tag_id, next_checklist_item_id, now);
    assert(reindex_columns(b.columns) =~= b.columns) by {
        assert(reindex_columns(b.columns)[0].cards =~= b.columns[0].cards);
    }
}

/// Renaming the board keeps it in good order.
pub proof fn law_rename_keeps_well_formed(b: BoardState, name: Seq<char>, now: i64)
    requires
        well_formed(b),
    ensures
        well_formed(rename_spec(b, name, now).0),
{
}

} // verus!
