//! The card editor's save: title, description, due date, tags and checklist together, as
//! one operation that undo takes back at once.
use vstd::prelude::*;
use crate::date::DueDate;
use crate::model::board::{find_item_index, timestamp};
use crate::model::edit::same_due_date;
use crate::model::raw::lemma_set_card_view;
use crate::model::spec::{
    card_location, item_index, lemma_card_location, lemma_item_index, push_operation,
    set_card_at, touch, with_columns,
};
use crate::model::tags::{find_unknown_tag, first_unknown_tag, ids_eq, sorted_unique, sorted_unique_ids};
use crate::model::types::{
    items_view, Board, BoardError, BoardOperation, BoardState, CardId, CardView, ChecklistItem,
    ChecklistItemDraft, ChecklistItemId, ChecklistItemView, OperationView, TagId,
};
use crate::text::{is_blank, is_blank_spec, str_eq};

verus! {

/// What the view of a checklist item draft is.
pub struct DraftView {
    pub id: Option<ChecklistItemId>,
    pub text: Seq<char>,
    pub checked: bool,
}

impl View for ChecklistItemDraft {
    type V = DraftView;

    open spec fn view(&self) -> DraftView {
        DraftView { id: self.id, text: self.text@, checked: self.checked }
    }
}

pub open spec fn drafts_view(drafts: Seq<ChecklistItemDraft>) -> Seq<DraftView> {
    drafts.map_values(|d: ChecklistItemDraft| d@)
}

/// The first fault of the drafts from place `i` on: blank text, or the number of an item
/// that the card does not have.
pub open spec fn draft_error_from(
    drafts: Seq<DraftView>,
    items: Seq<ChecklistItemView>,
    card_id: CardId,
    i: int,
) -> Option<BoardError>
    decreases drafts.len() - i,
{
    if i < 0 || i >= drafts.len() {
        None
    } else if is_blank_spec(drafts[i].text) {
        Some(BoardError::EmptyChecklistItemText)
    } else if drafts[i].id matches Some(item_id) && item_index(items, item_id) is None {
        Some(BoardError::ChecklistItemNotFound(drafts[i].id.unwrap(), card_id))
    } else {
        draft_error_from(drafts, items, card_id, i + 1)
    }
}

/// Whether draft `d` makes a new item rather than keeping one of `items`.
pub open spec fn is_new_draft(d: DraftView, items: Seq<ChecklistItemView>) -> bool {
    !(d.id matches Some(item_id) && item_index(items, item_id) is Some)
}

/// How many of `drafts` make new items.
pub open spec fn new_draft_count(drafts: Seq<DraftView>, items: Seq<ChecklistItemView>) -> int
    decreases drafts.len(),
{
    if drafts.len() == 0 {
        0
    } else {
        new_draft_count(drafts.drop_last(), items) + if is_new_draft(drafts.last(), items) {
            1int
        } else {
            0int
        }
    }
}

/// The item that draft `d` makes at place `position` of the checklist of card `card_id`.
/// A kept item keeps its number and creation time, and its updated time when neither text
/// nor check changes; a new item takes number `new_id`.
pub open spec fn built_item(
    d: DraftView,
    items: Seq<ChecklistItemView>,
    card_id: CardId,
    new_id: int,
    position: int,
    now: i64,
) -> ChecklistItemView {
    if is_new_draft(d, items) {
        ChecklistItemView {
            id: new_id as i64,
            card_id: card_id,
            text: d.text,
            checked: d.checked,
            position: position as i64,
            created_at: now,
            updated_at: now,
        }
    } else {
        let kept = items[item_index(items, d.id.unwrap()).unwrap()];
        ChecklistItemView {
            id: kept.id,
            card_id: card_id,
            text: d.text,
            checked: d.checked,
            position: position as i64,
            created_at: kept.created_at,
            updated_at: if kept.text != d.text || kept.checked != d.checked {
                now
            } else {
                kept.updated_at
            },
        }
    }
}

/// The checklist that `drafts` make from the items of card `card_id`; new items are
/// numbered from `next_id` in order.
pub open spec fn built_items(
    drafts: Seq<DraftView>,
    items: Seq<ChecklistItemView>,
    card_id: CardId,
    next_id: int,
    now: i64,
) -> Seq<ChecklistItemView> {
    Seq::new(
        drafts.len(),
        |i: int|
            built_item(
                drafts[i],
                items,
                card_id,
                next_id + new_draft_count(drafts.take(i), items),
                i,
                now,
            ),
    )
}

/// Saving the card editor for active card `card_id`: title, description, due date, tags
/// (which must exist; kept sorted, each once) and checklist (from `drafts`), all at once.
/// A blank title or item text, an unknown tag or item are refused; when nothing changes the
/// answer is `Ok(false)`, though new item numbers are used up all the same.
pub open spec fn update_card_details_spec(
    b: BoardState,
    card_id: CardId,
    title: Seq<char>,
    description: Seq<char>,
    due_date: Option<DueDate>,
    tag_ids: Seq<TagId>,
    drafts: Seq<DraftView>,
    now: i64,
) -> (BoardState, Result<bool, BoardError>) {
    if is_blank_spec(title) {
        (b, Err(BoardError::EmptyCardTitle))
    } else {
        match first_unknown_tag(b.tags, tag_ids) {
            Some(id) => (b, Err(BoardError::TagNotFound(id))),
            None => {
                let sorted = sorted_unique(tag_ids);
                match card_location(b.columns, card_id) {
                    None => (b, Err(BoardError::CardNotFound(card_id))),
                    Some((c, k)) => {
                        let card = b.columns[c].cards[k];
                        match draft_error_from(drafts, card.checklist_items, card_id, 0) {
                            Some(e) => (b, Err(e)),
                            None => {
                                let items = built_items(
                                    drafts,
                                    card.checklist_items,
                                    card_id,
                                    b.next_checklist_item_id as int,
                                    now,
                                );
                                let counted = BoardState {
                                    next_checklist_item_id: (b.next_checklist_item_id
                                        + new_draft_count(drafts, card.checklist_items)) as i64,
                                    ..b
                                };
                                if card.title == title && card.description == description
                                    && card.due_date == due_date && card.tag_ids == sorted
                                    && card.checklist_items == items {
                                    (counted, Ok(false))
                                } else {
                                    let edited = CardView {
                                        title: title,
                                        description: description,
                                        due_date: due_date,
                                        tag_ids: sorted,
                                        checklist_items: items,
                                        updated_at: now,
                                        ..card
                                    };
                                    (
                                        push_operation(
                                            touch(
                                                with_columns(counted, set_card_at(b.columns, c, k, edited)),
                                                now,
                                            ),
                                            OperationView::EditCard {
                                                card_id,
                                                before_title: card.title,
                                                before_description: card.description,
                                                before_due_date: card.due_date,
                                                before_tag_ids: card.tag_ids,
                                                after_title: title,
                                                after_description: description,
                                                after_due_date: due_date,
                                                after_tag_ids: sorted,
                                                before_checklist_items: card.checklist_items,
                                                after_checklist_items: items,
                                            },
                                        ),
                                        Ok(true),
                                    )
                                }
                            },
                        }
                    },
                }
            },
        }
    }
}

/// The drafts that keep every item of a checklist as it is.
pub open spec fn drafts_of(items: Seq<ChecklistItemView>) -> Seq<DraftView> {
    Seq::new(
        items.len(),
        |i: int| DraftView { id: Some(items[i].id), text: items[i].text, checked: items[i].checked },
    )
}

/// Whether new item numbers for the drafts fit in the number range.
pub open spec fn new_items_fit(b: BoardState, card_id: CardId, drafts: Seq<DraftView>) -> bool {
    card_location(b.columns, card_id) matches Some((c, k)) ==> b.next_checklist_item_id
        + new_draft_count(drafts, b.columns[c].cards[k].checklist_items) <= i64::MAX
}

pub proof fn lemma_new_draft_count(drafts: Seq<DraftView>, items: Seq<ChecklistItemView>)
    ensures
        0 <= new_draft_count(drafts, items) <= drafts.len(),
    decreases drafts.len(),
{
    if drafts.len() > 0 {
        lemma_new_draft_count(drafts.drop_last(), items);
    }
}

/// Whether two checklists are the same in every field.
pub fn items_eq(a: &Vec<ChecklistItem>, b: &Vec<ChecklistItem>) -> (r: bool)
    ensures
        r == (items_view(a@) == items_view(b@)),
{
    if a.len() != b.len() {
        assert(items_view(a@).len() != items_view(b@).len());
        return false;
    }
    let mut i: usize = 0;
    while i < a.len()
        invariant
            a@.len() == b@.len(),
            i <= a@.len(),
            forall|k: int| 0 <= k < i ==> (#[trigger] a@[k])@ == b@[k]@,
        decreases a.len() - i,
    {
        let same = a[i].id == b[i].id && a[i].card_id == b[i].card_id && str_eq(
            a[i].text.as_str(),
            b[i].text.as_str(),
        ) && a[i].checked == b[i].checked && a[i].position == b[i].position && a[i].created_at
            == b[i].created_at && a[i].updated_at == b[i].updated_at;
        if !same {
            assert(items_view(a@)[i as int] != items_view(b@)[i as int]);
            return false;
        }
        i += 1;
    }
    assert(items_view(a@) =~= items_view(b@));
    true
}

impl Board {
    /// Saves the card editor for card `card_id`, keeping its checklist items as they are.
    /// See `update_card_details_with_checklist`.
    pub fn update_card_details(
        &mut self,
        card_id: CardId,
        title: &str,
        description: &str,
        due_date: Option<DueDate>,
        tag_ids: Vec<TagId>,
    ) -> (r: Result<bool, BoardError>)
        ensures
            match card_location(old(self)@.columns, card_id) {
                None => final(self)@ == old(self)@ && r == Err::<bool, BoardError>(
                    BoardError::CardNotFound(card_id),
                ),
                Some((c, k)) => exists|now: i64|
                    {
                        &&& final(self)@ == (#[trigger] update_card_details_spec(
                            old(self)@,
                            card_id,
                            title@,
                            description@,
                            due_date,
                            tag_ids@,
                            drafts_of(old(self)@.columns[c].cards[k].checklist_items),
                            now,
                        )).0
                        &&& r == update_card_details_spec(
                            old(self)@,
                            card_id,
                            title@,
                            description@,
                            due_date,
                            tag_ids@,
                            drafts_of(old(self)@.columns[c].cards[k].checklist_items),
                            now,
                        ).1
                    },
            },
    {
        proof {
            lemma_card_location(self@.columns, card_id);
        }
        let (c, k) = match self.active_card_location(card_id) {
            Some(location) => location,
            None => return Err(BoardError::CardNotFound(card_id)),
        };
        proof {
            assert(self@.columns[c as int] == self.columns@[c as int]@);
        }
        let ghost items = self@.columns[c as int].cards[k as int].checklist_items;
        let mut drafts: Vec<ChecklistItemDraft> = Vec::new();
        let mut i: usize = 0;
        while i < self.columns[c].cards[k].checklist_items.len()
            invariant
                c < self.columns@.len(),
                k < self.columns@[c as int].cards@.len(),
                items == items_view(self.columns@[c as int].cards@[k as int].checklist_items@),
                i <= items.len(),
                drafts_view(drafts@) == drafts_of(items).take(i as int),
            decreases items.len() - i,
        {
            let item = &self.columns[c].cards[k].checklist_items[i];
            let draft = ChecklistItemDraft { id: Some(item.id), text: item.text.clone(), checked: item.checked };
            let ghost before = drafts@;
            drafts.push(draft);
            assert(drafts_view(drafts@) =~= drafts_view(before).push(draft@));
            i += 1;
            assert(drafts_view(drafts@) =~= drafts_of(items).take(i as int));
        }
        assert(drafts_of(items).take(i as int) =~= drafts_of(items));
        proof {
            assert forall|j: int| 0 <= j < drafts_of(items).len() implies !is_new_draft(
                #[trigger] drafts_of(items)[j],
                items,
            ) by {
                lemma_item_index(items, items[j].id, 0);
            }
            lemma_no_new_drafts(drafts_of(items), items);
            assert(drafts_view(drafts@) == drafts_of(items));
        }
        self.update_card_details_with_checklist(card_id, title, description, due_date, tag_ids, drafts)
    }

    /// Saves the card editor for card `card_id`: title, description, due date, tags (which
    /// must exist; kept sorted, each once) and the checklist that `checklist_drafts`
    /// describe, as one operation. A blank title or item text, an unknown tag or item are
    /// refused; when nothing changes the answer is `Ok(false)`. Can be undone at once.
    pub fn update_card_details_with_checklist(
        &mut self,
        card_id: CardId,
        title: &str,
        description: &str,
        due_date: Option<DueDate>,
        tag_ids: Vec<TagId>,
        checklist_drafts: Vec<ChecklistItemDraft>,
    ) -> (r: Result<bool, BoardError>)
        requires
            new_items_fit(old(self)@, card_id, drafts_view(checklist_drafts@)),
        ensures
            exists|now: i64|
                {
                    &&& final(self)@ == (#[trigger] update_card_details_spec(
                        old(self)@,
                        card_id,
                        title@,
                        description@,
                        due_date,
                        tag_ids@,
                        drafts_view(checklist_drafts@),
                        now,
                    )).0
                    &&& r == update_card_details_spec(
                        old(self)@,
                        card_id,
                        title@,
                        description@,
                        due_date,
                        tag_ids@,
                        drafts_view(checklist_drafts@),
                        now,
                    ).1
                },
    {
        let now = timestamp();
        let r = self.save_card_details(card_id, title, description, due_date, tag_ids, checklist_drafts, now);
        assert(final(self)@ == update_card_details_spec(
            old(self)@,
            card_id,
            title@,
            description@,
            due_date,
            tag_ids@,
            drafts_view(checklist_drafts@),
            now,
        ).0);
        r
    }

    /// The card editor's save with the time `now` that it records.
    fn save_card_details(
        &mut self,
        card_id: CardId,
        title: &str,
        description: &str,
        due_date: Option<DueDate>,
        tag_ids: Vec<TagId>,
        checklist_drafts: Vec<ChecklistItemDraft>,
        now: i64,
    ) -> (r: Result<bool, BoardError>)
        requires
            new_items_fit(old(self)@, card_id, drafts_view(checklist_drafts@)),
        ensures
            final(self)@ == update_card_details_spec(
                old(self)@,
                card_id,
                title@,
                description@,
                due_date,
                tag_ids@,
                drafts_view(checklist_drafts@),
                now,
            ).0,
            r == update_card_details_spec(
                old(self)@,
                card_id,
                title@,
                description@,
                due_date,
                tag_ids@,
                drafts_view(checklist_drafts@),
                now,
            ).1,
    {
        if is_blank(title) {
            return Err(BoardError::EmptyCardTitle);
        }
        match find_unknown_tag(&self.tags, &tag_ids) {
            Some(id) => return Err(BoardError::TagNotFound(id)),
            None => {},
        }
        let sorted = sorted_unique_ids(&tag_ids);
        proof {
            lemma_card_location(self@.columns, card_id);
        }
        let (c, k) = match self.active_card_location(card_id) {
            Some(location) => location,
            None => return Err(BoardError::CardNotFound(card_id)),
        };
        proof {
            assert(self@.columns[c as int] == self.columns@[c as int]@);
        }
        match self.draft_error(c, k, &checklist_drafts, card_id) {
            Some(e) => return Err(e),
            None => {},
        }
        let ghost old_view = self@;
        let items = self.build_items(c, k, &checklist_drafts, card_id, now);
        proof {
            assert(self@.columns[c as int] == self.columns@[c as int]@);
        }
        let unchanged = str_eq(self.columns[c].cards[k].title.as_str(), title) && str_eq(
            self.columns[c].cards[k].description.as_str(),
            description,
        ) && same_due_date(self.columns[c].cards[k].due_date, due_date) && ids_eq(
            &self.columns[c].cards[k].tag_ids,
            &sorted,
        ) && items_eq(&self.columns[c].cards[k].checklist_items, &items);
        if unchanged {
            proof {
                let card = old_view.columns[c as int].cards[k as int];
                assert(card.title == title@);
                assert(card.description == description@);
                assert(card.due_date == due_date);
                assert(card.tag_ids == sorted_unique(tag_ids@));
                assert(card.checklist_items == built_items(
                    drafts_view(checklist_drafts@),
                    card.checklist_items,
                    card_id,
                    old_view.next_checklist_item_id as int,
                    now,
                ));
            }
            return Ok(false);
        }
        let before_title = self.columns[c].cards[k].title.clone();
        let before_description = self.columns[c].cards[k].description.clone();
        let before_due_date = self.columns[c].cards[k].due_date;
        let before_tag_ids = crate::model::copy::copy_ids(&self.columns[c].cards[k].tag_ids);
        let before_items = crate::model::copy::copy_items(&self.columns[c].cards[k].checklist_items);
        let after_items = crate::model::copy::copy_items(&items);
        let after_tag_ids = crate::model::copy::copy_ids(&sorted);
        let ghost before = self.columns@;
        self.columns[c].cards[k].title = title.to_owned();
        self.columns[c].cards[k].description = description.to_owned();
        self.columns[c].cards[k].due_date = due_date;
        self.columns[c].cards[k].tag_ids = sorted;
        self.columns[c].cards[k].checklist_items = items;
        self.columns[c].cards[k].updated_at = now;
        proof {
            lemma_set_card_view(before, self.columns@, c as int, k as int);
        }
        self.updated_at = now;
        self.push_operation(
            BoardOperation::EditCard {
                card_id,
                before_title,
                before_description,
                before_due_date,
                before_tag_ids,
                after_title: title.to_owned(),
                after_description: description.to_owned(),
                after_due_date: due_date,
                after_tag_ids,
                before_checklist_items: before_items,
                after_checklist_items: after_items,
            },
        );
        Ok(true)
    }

    /// The first fault of `drafts` for the card at place `k` of column `c`.
    fn draft_error(&self, c: usize, k: usize, drafts: &Vec<ChecklistItemDraft>, card_id: CardId) -> (r:
        Option<BoardError>)
        requires
            c < self.columns@.len(),
            k < self.columns@[c as int].cards@.len(),
        ensures
            r == draft_error_from(
                drafts_view(drafts@),
                self@.columns[c as int].cards[k as int].checklist_items,
                card_id,
                0,
            ),
    {
        let ghost items = self@.columns[c as int].cards[k as int].checklist_items;
        proof {
            assert(self@.columns[c as int] == self.columns@[c as int]@);
        }
        let mut i: usize = 0;
        while i < drafts.len()
            invariant
                c < self.columns@.len(),
                k < self.columns@[c as int].cards@.len(),
                items == items_view(self.columns@[c as int].cards@[k as int].checklist_items@),
                i <= drafts@.len(),
                draft_error_from(drafts_view(drafts@), items, card_id, i as int) == draft_error_from(
                    drafts_view(drafts@),
                    items,
                    card_id,
                    0,
                ),
            decreases drafts.len() - i,
        {
            assert(drafts_view(drafts@)[i as int] == drafts@[i as int]@);
            if is_blank(drafts[i].text.as_str()) {
                return Some(BoardError::EmptyChecklistItemText);
            }
            match drafts[i].id {
                Some(item_id) => {
                    proof {
                        lemma_item_index(items, item_id, 0);
                    }
                    if find_item_index(&self.columns[c].cards[k].checklist_items, item_id).is_none() {
                        return Some(BoardError::ChecklistItemNotFound(item_id, card_id));
                    }
                },
                None => {},
            }
            i += 1;
        }
        None
    }

    /// The checklist that `drafts` make for the card at place `k` of column `c`, taking new
    /// item numbers as it goes.
    fn build_items(
        &mut self,
        c: usize,
        k: usize,
        drafts: &Vec<ChecklistItemDraft>,
        card_id: CardId,
        now: i64,
    ) -> (r: Vec<ChecklistItem>)
        requires
            c < old(self).columns@.len(),
            k < old(self).columns@[c as int].cards@.len(),
            old(self).next_checklist_item_id + new_draft_count(
                drafts_view(drafts@),
                old(self)@.columns[c as int].cards[k as int].checklist_items,
            ) <= i64::MAX,
        ensures
            final(self)@ == (BoardState {
                next_checklist_item_id: (old(self).next_checklist_item_id + new_draft_count(
                    drafts_view(drafts@),
                    old(self)@.columns[c as int].cards[k as int].checklist_items,
                )) as i64,
                ..old(self)@
            }),
            items_view(r@) == built_items(
                drafts_view(drafts@),
                old(self)@.columns[c as int].cards[k as int].checklist_items,
                card_id,
                old(self).next_checklist_item_id as int,
                now,
            ),
    {
        let ghost start = self@;
        let ghost items = self@.columns[c as int].cards[k as int].checklist_items;
        let ghost all = drafts_view(drafts@);
        let ghost first = self.next_checklist_item_id as int;
        proof {
            assert(self@.columns[c as int] == self.columns@[c as int]@);
        }
        let mut out: Vec<ChecklistItem> = Vec::new();
        let mut i: usize = 0;
        while i < drafts.len()
            invariant
                c < self.columns@.len(),
                k < self.columns@[c as int].cards@.len(),
                items == items_view(self.columns@[c as int].cards@[k as int].checklist_items@),
                all == drafts_view(drafts@),
                i <= drafts@.len(),
                first + new_draft_count(all, items) <= i64::MAX,
                i64::MIN <= first,
                self@ == (BoardState {
                    next_checklist_item_id: (first + new_draft_count(all.take(i as int), items)) as i64,
                    ..start
                }),
                items_view(out@) == built_items(all, items, card_id, first, now).take(i as int),
            decreases drafts.len() - i,
        {
            proof {
                assert(all.take(i + 1).drop_last() =~= all.take(i as int));
                assert(all[i as int] == drafts@[i as int]@);
                assert(all.take(i + 1).last() == all[i as int]);
                lemma_new_draft_count(all.take(i as int + 1), items);
                lemma_new_draft_count(all.take(i as int), items);
                lemma_count_prefix(all, items, i as int + 1);
                lemma_count_prefix(all, items, i as int);
                assert(new_draft_count(all.take(i as int + 1), items) == new_draft_count(
                    all.take(i as int),
                    items,
                ) + if is_new_draft(all[i as int], items) {
                    1int
                } else {
                    0int
                });
            }
            let existing = match drafts[i].id {
                Some(item_id) => {
                    proof {
                        lemma_item_index(items, item_id, 0);
                    }
                    find_item_index(&self.columns[c].cards[k].checklist_items, item_id)
                },
                None => None,
            };
            assert(existing is None <==> is_new_draft(all[i as int], items));
            assert(self.next_checklist_item_id == first + new_draft_count(all.take(i as int), items));
            let item = match existing {
                Some(e) => {
                    let kept = &self.columns[c].cards[k].checklist_items[e];
                    let changed = !str_eq(kept.text.as_str(), drafts[i].text.as_str()) || kept.checked
                        != drafts[i].checked;
                    ChecklistItem {
                        id: kept.id,
                        card_id,
                        text: drafts[i].text.clone(),
                        checked: drafts[i].checked,
                        position: i as i64,
                        created_at: kept.created_at,
                        updated_at: if changed {
                            now
                        } else {
                            kept.updated_at
                        },
                    }
                },
                None => {
                    let id = self.next_checklist_item_id;
                    self.next_checklist_item_id += 1;
                    ChecklistItem {
                        id,
                        card_id,
                        text: drafts[i].text.clone(),
                        checked: drafts[i].checked,
                        position: i as i64,
                        created_at: now,
                        updated_at: now,
                    }
                },
            };
            assert(item@ == built_items(all, items, card_id, first, now)[i as int]);
            let ghost before = out@;
            out.push(item);
            assert(items_view(out@) =~= items_view(before).push(item@));
            i += 1;
            assert(items_view(out@) =~= built_items(all, items, card_id, first, now).take(i as int));
        }
        assert(all.take(i as int) =~= all);
        assert(built_items(all, items, card_id, first, now).take(i as int) =~= built_items(
            all,
            items,
            card_id,
            first,
            now,
        ));
        out
    }
}

/// Drafts that all keep items make no new ones.
proof fn lemma_no_new_drafts(drafts: Seq<DraftView>, items: Seq<ChecklistItemView>)
    requires
        forall|j: int| 0 <= j < drafts.len() ==> !is_new_draft(#[trigger] drafts[j], items),
    ensures
        new_draft_count(drafts, items) == 0,
    decreases drafts.len(),
{
    if drafts.len() > 0 {
        let init = drafts.drop_last();
        assert forall|j: int| 0 <= j < init.len() implies !is_new_draft(#[trigger] init[j], items) by {
            assert(init[j] == drafts[j]);
        }
        lemma_no_new_drafts(init, items);
        assert(!is_new_draft(drafts[drafts.len() - 1], items));
    }
}

/// New drafts among the first `n` are no more than among all.
pub proof fn lemma_count_prefix(drafts: Seq<DraftView>, items: Seq<ChecklistItemView>, n: int)
    requires
        0 <= n <= drafts.len(),
    ensures
        new_draft_count(drafts.take(n), items) <= new_draft_count(drafts, items),
    decreases drafts.len() - n,
{
    if n < drafts.len() {
        lemma_count_prefix(drafts, items, n + 1);
        assert(drafts.take(n + 1).drop_last() =~= drafts.take(n));
    } else {
        assert(drafts.take(n) =~= drafts);
    }
}

} // verus!
