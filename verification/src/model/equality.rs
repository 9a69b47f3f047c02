//! When two boards are the same: the same data and the same pending events. The undo and
//! redo histories are not part of a board's value.
use vstd::prelude::*;
use crate::model::details::items_eq;
use crate::model::edit::same_due_date;
use crate::model::tags::ids_eq;
use crate::model::types::{
    cards_view, columns_view, tags_view, Board, BoardState, Card, CardEvent, Column, Tag,
};
use crate::text::str_eq;

verus! {

/// Two boards are the same when all but their histories agree.
pub open spec fn same_board(a: BoardState, b: BoardState) -> bool {
    &&& a.id == b.id
    &&& a.name == b.name
    &&& a.created_at == b.created_at
    &&& a.updated_at == b.updated_at
    &&& a.next_card_id == b.next_card_id
    &&& a.next_column_id == b.next_column_id
    &&& a.next_tag_id == b.next_tag_id
    &&& a.next_checklist_item_id == b.next_checklist_item_id
    &&& a.tags == b.tags
    &&& a.archived_cards == b.archived_cards
    &&& a.columns == b.columns
    &&& a.pending_events == b.pending_events
}

fn card_eq(a: &Card, b: &Card) -> (r: bool)
    ensures
        r == (a@ == b@),
{
    let same = a.id == b.id && a.column_id == b.column_id && str_eq(
        a.title.as_str(),
        b.title.as_str(),
    ) && str_eq(a.description.as_str(), b.description.as_str()) && a.position == b.position
        && a.created_at == b.created_at && a.updated_at == b.updated_at && same_due_date(
        a.due_date,
        b.due_date,
    ) && ids_eq(&a.tag_ids, &b.tag_ids) && items_eq(&a.checklist_items, &b.checklist_items)
        && match (a.archived_at, b.archived_at) {
        (Some(x), Some(y)) => x == y,
        (None, None) => true,
        _ => false,
    };
    proof {
        if !same {
            assert(a@ != b@);
        } else {
            assert(a@.tag_ids =~= b@.tag_ids);
            assert(a@ =~= b@);
        }
    }
    same
}

fn cards_eq(a: &Vec<Card>, b: &Vec<Card>) -> (r: bool)
    ensures
        r == (cards_view(a@) == cards_view(b@)),
{
    if a.len() != b.len() {
        assert(cards_view(a@).len() != cards_view(b@).len());
        return false;
    }
    let mut i: usize = 0;
    while i < a.len()
        invariant
            a@.len() == b@.len(),
            i <= a@.len(),
            forall|k: int| 0 <= k < i ==> (#[trigger] a@[k])@ == b@[k]@,
        decreases a.len() - i,
    {
        if !card_eq(&a[i], &b[i]) {
            assert(cards_view(a@)[i as int] != cards_view(b@)[i as int]);
            return false;
        }
        i += 1;
    }
    assert(cards_view(a@) =~= cards_view(b@));
    true
}

fn tags_eq(a: &Vec<Tag>, b: &Vec<Tag>) -> (r: bool)
    ensures
        r == (tags_view(a@) == tags_view(b@)),
{
    if a.len() != b.len() {
        assert(tags_view(a@).len() != tags_view(b@).len());
        return false;
    }
    let mut i: usize = 0;
    while i < a.len()
        invariant
            a@.len() == b@.len(),
            i <= a@.len(),
            forall|k: int| 0 <= k < i ==> (#[trigger] a@[k])@ == b@[k]@,
        decreases a.len() - i,
    {
        let same = a[i].id == b[i].id && a[i].board_id == b[i].board_id && str_eq(
            a[i].name.as_str(),
            b[i].name.as_str(),
        ) && str_eq(a[i].color.as_str(), b[i].color.as_str()) && a[i].created_at
            == b[i].created_at && a[i].updated_at == b[i].updated_at;
        if !same {
            assert(tags_view(a@)[i as int] != tags_view(b@)[i as int]);
            return false;
        }
        i += 1;
    }
    assert(tags_view(a@) =~= tags_view(b@));
    true
}

fn column_eq(a: &Column, b: &Column) -> (r: bool)
    ensures
        r == (a@ == b@),
{
    let same = a.id == b.id && a.board_id == b.board_id && str_eq(a.name.as_str(), b.name.as_str())
        && a.position == b.position && a.created_at == b.created_at && a.updated_at
        == b.updated_at && match (a.wip_limit, b.wip_limit) {
        (Some(x), Some(y)) => x == y,
        (None, None) => true,
        _ => false,
    } && cards_eq(&a.cards, &b.cards);
    proof {
        if same {
            assert(a@ =~= b@);
        }
    }
    same
}

fn columns_eq(a: &Vec<Column>, b: &Vec<Column>) -> (r: bool)
    ensures
        r == (columns_view(a@) == columns_view(b@)),
{
    if a.len() != b.len() {
        assert(columns_view(a@).len() != columns_view(b@).len());
        return false;
    }
    let mut i: usize = 0;
    while i < a.len()
        invariant
            a@.len() == b@.len(),
            i <= a@.len(),
            forall|k: int| 0 <= k < i ==> (#[trigger] a@[k])@ == b@[k]@,
        decreases a.len() - i,
    {
        if !column_eq(&a[i], &b[i]) {
            assert(columns_view(a@)[i as int] != columns_view(b@)[i as int]);
            return false;
        }
        i += 1;
    }
    assert(columns_view(a@) =~= columns_view(b@));
    true
}

fn events_eq(a: &Vec<CardEvent>, b: &Vec<CardEvent>) -> (r: bool)
    ensures
        r == (a@ == b@),
{
    if a.len() != b.len() {
        return false;
    }
    let mut i: usize = 0;
    while i < a.len()
        invariant
            a@.len() == b@.len(),
            i <= a@.len(),
            forall|k: int| 0 <= k < i ==> a@[k] == b@[k],
        decreases a.len() - i,
    {
        if a[i] != b[i] {
            return false;
        }
        i += 1;
    }
    assert(a@ =~= b@);
    true
}

/// Whether two boards are the same, histories aside.
pub fn boards_eq(a: &Board, b: &Board) -> (r: bool)
    ensures
        r == same_board(a@, b@),
{
    a.id == b.id && str_eq(a.name.as_str(), b.name.as_str()) && a.created_at == b.created_at
        && a.updated_at == b.updated_at && a.next_card_id == b.next_card_id && a.next_column_id
        == b.next_column_id && a.next_tag_id == b.next_tag_id && a.next_checklist_item_id
        == b.next_checklist_item_id && tags_eq(&a.tags, &b.tags) && cards_eq(
        &a.archived_cards,
        &b.archived_cards,
    ) && columns_eq(&a.columns, &b.columns) && events_eq(&a.pending_events, &b.pending_events)
}

impl PartialEq for Board {
    fn eq(&self, other: &Board) -> (r: bool) {
        boards_eq(self, other)
    }
}

impl vstd::std_specs::cmp::PartialEqSpecImpl for Board {
    open spec fn obeys_eq_spec() -> bool {
        true
    }

    open spec fn eq_spec(&self, other: &Board) -> bool {
        same_board(self@, other@)
    }
}

} // verus!
