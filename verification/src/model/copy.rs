//! Copies of board values that keep everything the view shows.
use vstd::prelude::*;
use crate::model::types::{
    cards_view, items_view, Card, ChecklistItem, Column, Tag, TagId,
};

verus! {

/// A copy of a list of ids.
pub fn copy_ids(ids: &Vec<TagId>) -> (r: Vec<TagId>)
    ensures
        r@ == ids@,
{
    let mut out: Vec<TagId> = Vec::new();
    let mut i: usize = 0;
    while i < ids.len()
        invariant
            i <= ids@.len(),
            out@ == ids@.take(i as int),
        decreases ids.len() - i,
    {
        out.push(ids[i]);
        i += 1;
        assert(out@ =~= ids@.take(i as int));
    }
    assert(ids@.take(ids@.len() as int) =~= ids@);
    out
}

impl ChecklistItem {
    /// A copy of this item.
    pub fn duplicate(&self) -> (r: ChecklistItem)
        ensures
            r@ == self@,
    {
        ChecklistItem {
            id: self.id,
            card_id: self.card_id,
            text: self.text.clone(),
            checked: self.checked,
            position: self.position,
            created_at: self.created_at,
            updated_at: self.updated_at,
        }
    }
}

/// A copy of a checklist.
pub fn copy_items(items: &Vec<ChecklistItem>) -> (r: Vec<ChecklistItem>)
    ensures
        items_view(r@) == items_view(items@),
{
    let mut out: Vec<ChecklistItem> = Vec::new();
    let mut i: usize = 0;
    while i < items.len()
        invariant
            i <= items@.len(),
            out@.len() == i,
            forall|j: int| 0 <= j < i ==> (#[trigger] out@[j])@ == items@[j]@,
        decreases items.len() - i,
    {
        let item = items[i].duplicate();
        out.push(item);
        i += 1;
    }
    assert(items_view(out@) =~= items_view(items@));
    out
}

impl Card {
    /// A copy of this card.
    pub fn duplicate(&self) -> (r: Card)
        ensures
            r@ == self@,
    {
        Card {
            id: self.id,
            column_id: self.column_id,
            title: self.title.clone(),
            description: self.description.clone(),
            position: self.position,
            created_at: self.created_at,
            updated_at: self.updated_at,
            due_date: self.due_date,
            tag_ids: copy_ids(&self.tag_ids),
            checklist_items: copy_items(&self.checklist_items),
            archived_at: self.archived_at,
        }
    }
}

/// A copy of a list of cards.
pub fn copy_cards(cards: &Vec<Card>) -> (r: Vec<Card>)
    ensures
        cards_view(r@) == cards_view(cards@),
{
    let mut out: Vec<Card> = Vec::new();
    let mut i: usize = 0;
    while i < cards.len()
        invariant
            i <= cards@.len(),
            out@.len() == i,
            forall|j: int| 0 <= j < i ==> (#[trigger] out@[j])@ == cards@[j]@,
        decreases cards.len() - i,
    {
        let card = cards[i].duplicate();
        out.push(card);
        i += 1;
    }
    assert(cards_view(out@) =~= cards_view(cards@));
    out
}

impl Tag {
    /// A copy of this tag.
    pub fn duplicate(&self) -> (r: Tag)
        ensures
            r@ == self@,
    {
        Tag {
            id: self.id,
            board_id: self.board_id,
            name: self.name.clone(),
            color: self.color.clone(),
            created_at: self.created_at,
            updated_at: self.updated_at,
        }
    }
}

impl Column {
    /// A copy of this column and its cards.
    pub fn duplicate(&self) -> (r: Column)
        ensures
            r@ == self@,
    {
        Column {
            id: self.id,
            board_id: self.board_id,
            name: self.name.clone(),
            position: self.position,
            created_at: self.created_at,
            updated_at: self.updated_at,
            wip_limit: self.wip_limit,
            cards: copy_cards(&self.cards),
        }
    }
}

} // verus!
