//! Tags: adding, renaming, colouring and removing them, and giving cards their tags.
use vstd::prelude::*;
use crate::model::board::{find_tag_index, timestamp};
use crate::model::copy::copy_ids;
use crate::model::raw::{lemma_set_card_view, recolored_tag, renamed_tag};
use crate::model::raw_spec::{edit_tag, remove_tag_raw_spec};
use crate::model::spec::{
    card_location, lemma_card_location, lemma_tag_index, push_operation, set_card_at, tag_index,
    tag_index_from, touch, with_columns,
};
use crate::model::types::{
    tag_assignments_view, tags_view, Board, BoardError, BoardOperation, BoardState, CardId,
    CardView, ColumnView, OperationView, Tag, TagId, TagView,
};
use crate::text::{is_blank, is_blank_spec, str_eq};

verus! {

// ---------------------------------------------------------------------------------------
// Tag lists: a card keeps its tags sorted, each once.

/// `x` put into the sorted list `t`, unless it is there already.
pub open spec fn insert_sorted(t: Seq<TagId>, x: TagId) -> Seq<TagId>
    decreases t.len(),
{
    if t.len() == 0 {
        seq![x]
    } else if x < t[0] {
        seq![x] + t
    } else if x == t[0] {
        t
    } else {
        seq![t[0]] + insert_sorted(t.drop_first(), x)
    }
}

/// The ids of `s` sorted, each once.
pub open spec fn sorted_unique(s: Seq<TagId>) -> Seq<TagId>
    decreases s.len(),
{
    if s.len() == 0 {
        seq![]
    } else {
        insert_sorted(sorted_unique(s.drop_last()), s.last())
    }
}

pub open spec fn strictly_increasing(t: Seq<TagId>) -> bool {
    forall|i: int, j: int| 0 <= i < j < t.len() ==> t[i] < t[j]
}

proof fn lemma_insert_sorted(t: Seq<TagId>, x: TagId)
    requires
        strictly_increasing(t),
    ensures
        strictly_increasing(insert_sorted(t, x)),
        forall|y: TagId| #[trigger] insert_sorted(t, x).contains(y) <==> (t.contains(y) || y == x),
    decreases t.len(),
{
    if t.len() == 0 {
        assert(insert_sorted(t, x) =~= seq![x]);
        assert(seq![x][0] == x);
    } else if x < t[0] {
        let r = seq![x] + t;
        assert forall|y: TagId| r.contains(y) <==> (t.contains(y) || y == x) by {
            if r.contains(y) {
                let i = choose|i: int| 0 <= i < r.len() && r[i] == y;
                if i > 0 {
                    assert(t[i - 1] == y);
                }
            }
            if t.contains(y) {
                let i = choose|i: int| 0 <= i < t.len() && t[i] == y;
                assert(r[i + 1] == y);
            }
            if y == x {
                assert(r[0] == y);
            }
        }
    } else if x == t[0] {
        assert(t.contains(x)) by {
            assert(t[0] == x);
        }
    } else {
        let rest = t.drop_first();
        assert(strictly_increasing(rest));
        lemma_insert_sorted(rest, x);
        let inner = insert_sorted(rest, x);
        let r = seq![t[0]] + inner;
        assert forall|i: int, j: int| 0 <= i < j < r.len() implies r[i] < r[j] by {
            if i > 0 {
                assert(r[i] == inner[i - 1]);
                assert(r[j] == inner[j - 1]);
            } else {
                assert(inner.contains(r[j])) by {
                    assert(inner[j - 1] == r[j]);
                }
                if rest.contains(r[j]) {
                    let m = choose|m: int| 0 <= m < rest.len() && rest[m] == r[j];
                    assert(t[m + 1] == r[j]);
                }
            }
        }
        assert forall|y: TagId| r.contains(y) <==> (t.contains(y) || y == x) by {
            if r.contains(y) {
                let i = choose|i: int| 0 <= i < r.len() && r[i] == y;
                if i == 0 {
                    assert(t[0] == y);
                } else {
                    assert(inner[i - 1] == y);
                    assert(inner.contains(y));
                    if rest.contains(y) {
                        let m = choose|m: int| 0 <= m < rest.len() && rest[m] == y;
                        assert(t[m + 1] == y);
                    }
                }
            }
            if t.contains(y) {
                let i = choose|i: int| 0 <= i < t.len() && t[i] == y;
                if i == 0 {
                    assert(r[0] == y);
                } else {
                    assert(rest[i - 1] == y);
                    assert(rest.contains(y));
                    assert(inner.contains(y));
                    let m = choose|m: int| 0 <= m < inner.len() && inner[m] == y;
                    assert(r[m + 1] == y);
                }
            }
            if y == x {
                assert(inner.contains(y));
                let m = choose|m: int| 0 <= m < inner.len() && inner[m] == y;
                assert(r[m + 1] == y);
            }
        }
    }
}

/// Where the sorted list `t` takes `x`: the first place whose id is not below `x`.
proof fn lemma_insert_sorted_at(t: Seq<TagId>, x: TagId, j: int)
    requires
        strictly_increasing(t),
        0 <= j <= t.len(),
        forall|k: int| 0 <= k < j ==> t[k] < x,
        j < t.len() ==> t[j] >= x,
    ensures
        insert_sorted(t, x) == (if j < t.len() && t[j] == x {
            t
        } else {
            t.insert(j, x)
        }),
    decreases t.len(),
{
    if t.len() == 0 {
        assert(t.insert(0, x) =~= seq![x]);
    } else if j == 0 {
        if x < t[0] {
            assert(t.insert(0, x) =~= seq![x] + t);
        }
    } else {
        let rest = t.drop_first();
        assert(t[0] < x);
        lemma_insert_sorted_at(rest, x, j - 1);
        if j < t.len() && t[j] == x {
            assert(seq![t[0]] + rest =~= t);
        } else {
            assert(seq![t[0]] + rest.insert(j - 1, x) =~= t.insert(j, x));
        }
    }
}

/// A card's tags, as a card keeps them, are sorted with each id once, and hold exactly the
/// ids that were given.
pub proof fn lemma_sorted_unique(s: Seq<TagId>)
    ensures
        strictly_increasing(sorted_unique(s)),
        forall|y: TagId| sorted_unique(s).contains(y) <==> s.contains(y),
    decreases s.len(),
{
    if s.len() > 0 {
        let init = s.drop_last();
        lemma_sorted_unique(init);
        lemma_insert_sorted(sorted_unique(init), s.last());
        assert forall|y: TagId| sorted_unique(s).contains(y) <==> s.contains(y) by {
            if init.contains(y) {
                let i = choose|i: int| 0 <= i < init.len() && init[i] == y;
                assert(s[i] == y);
            }
            if s.contains(y) {
                let i = choose|i: int| 0 <= i < s.len() && s[i] == y;
                if i < s.len() - 1 {
                    assert(init[i] == y);
                }
            }
            if y == s.last() {
                assert(s[s.len() - 1] == y);
            }
        }
    }
}

/// The ids of `ids` sorted, each once.
pub fn sorted_unique_ids(ids: &Vec<TagId>) -> (r: Vec<TagId>)
    ensures
        r@ == sorted_unique(ids@),
{
    let mut out: Vec<TagId> = Vec::new();
    let mut i: usize = 0;
    while i < ids.len()
        invariant
            i <= ids@.len(),
            out@ == sorted_unique(ids@.take(i as int)),
            strictly_increasing(out@),
        decreases ids.len() - i,
    {
        let x = ids[i];
        let mut j: usize = 0;
        while j < out.len() && out[j] < x
            invariant
                j <= out@.len(),
                forall|k: int| 0 <= k < j ==> out@[k] < x,
            decreases out.len() - j,
        {
            j += 1;
        }
        let ghost before = out@;
        proof {
            lemma_insert_sorted_at(before, x, j as int);
            lemma_insert_sorted(before, x);
            assert(ids@.take(i + 1).drop_last() =~= ids@.take(i as int));
        }
        if j < out.len() && out[j] == x {
        } else {
            out.insert(j, x);
        }
        i += 1;
    }
    assert(ids@.take(ids@.len() as int) =~= ids@);
    out
}

/// Whether two id lists are the same.
pub fn ids_eq(a: &Vec<TagId>, b: &Vec<TagId>) -> (r: bool)
    ensures
        r == (a@ == b@),
{
    if a.len() != b.len() {
        return false;
    }
    let mut i: usize = 0;
    while i < a.len()
        invariant
            a@.len() == b@.len(),
            i <= a@.len(),
            forall|k: int| 0 <= k < i ==> a@[k] == b@[k],
        decreases a.len() - i,
    {
        if a[i] != b[i] {
            return false;
        }
        i += 1;
    }
    assert(a@ =~= b@);
    true
}

/// Whether `ids` holds `id`.
pub fn ids_contain(ids: &Vec<TagId>, id: TagId) -> (r: bool)
    ensures
        r == ids@.contains(id),
{
    let mut i: usize = 0;
    while i < ids.len()
        invariant
            i <= ids@.len(),
            forall|k: int| 0 <= k < i ==> ids@[k] != id,
        decreases ids.len() - i,
    {
        if ids[i] == id {
            return true;
        }
        i += 1;
    }
    false
}

// ---------------------------------------------------------------------------------------
// What the tag operations do.

/// Whether some tag is named `name`.
pub open spec fn name_in_use(tags: Seq<TagView>, name: Seq<char>) -> bool {
    exists|t: int| 0 <= t < tags.len() && #[trigger] tags[t].name == name
}

/// Whether some tag other than `tag_id` is named `name`.
pub open spec fn name_in_use_by_other(tags: Seq<TagView>, name: Seq<char>, tag_id: TagId) -> bool {
    exists|t: int| 0 <= t < tags.len() && #[trigger] tags[t].id != tag_id && tags[t].name == name
}

/// Adding a tag named `name` with `color`, when no tag has that name: it takes the next
/// tag number. A blank name is refused.
pub open spec fn add_tag_spec(b: BoardState, name: Seq<char>, color: Seq<char>, now: i64) -> (
    BoardState,
    Result<TagId, BoardError>,
) {
    if is_blank_spec(name) {
        (b, Err(BoardError::EmptyTagName))
    } else {
        let tag = TagView {
            id: b.next_tag_id,
            board_id: b.id,
            name: name,
            color: color,
            created_at: now,
            updated_at: now,
        };
        let added = BoardState {
            tags: b.tags.push(tag),
            next_tag_id: (b.next_tag_id + 1) as i64,
            ..b
        };
        (push_operation(touch(added, now), OperationView::AddTag { tag }), Ok(tag.id))
    }
}

/// Renaming tag `tag_id`, when no other tag has the name. A blank name is refused; the
/// name it has answers `Ok(false)`.
pub open spec fn rename_tag_spec(b: BoardState, tag_id: TagId, name: Seq<char>, now: i64) -> (
    BoardState,
    Result<bool, BoardError>,
) {
    if is_blank_spec(name) {
        (b, Err(BoardError::EmptyTagName))
    } else {
        match tag_index(b.tags, tag_id) {
            None => (b, Err(BoardError::TagNotFound(tag_id))),
            Some(t) => if b.tags[t].name == name {
                (b, Ok(false))
            } else {
                (
                    push_operation(
                        touch(edit_tag(b, tag_id, renamed_tag(name, now)).0, now),
                        OperationView::RenameTag { tag_id, before: b.tags[t].name, after: name },
                    ),
                    Ok(true),
                )
            },
        }
    }
}

/// Setting the colour of tag `tag_id`; the colour it has answers `Ok(false)`.
pub open spec fn set_tag_color_spec(b: BoardState, tag_id: TagId, color: Seq<char>, now: i64) -> (
    BoardState,
    Result<bool, BoardError>,
) {
    match tag_index(b.tags, tag_id) {
        None => (b, Err(BoardError::TagNotFound(tag_id))),
        Some(t) => if b.tags[t].color == color {
            (b, Ok(false))
        } else {
            (
                push_operation(
                    touch(edit_tag(b, tag_id, recolored_tag(color, now)).0, now),
                    OperationView::SetTagColor { tag_id, before: b.tags[t].color, after: color },
                ),
                Ok(true),
            )
        },
    }
}

/// The cards of `cards` that have tag `tag_id`, each with its tags, in order.
pub open spec fn tagged_cards(cards: Seq<CardView>, tag_id: TagId) -> Seq<(CardId, Seq<TagId>)>
    decreases cards.len(),
{
    if cards.len() == 0 {
        seq![]
    } else {
        let rest = tagged_cards(cards.drop_last(), tag_id);
        if cards.last().tag_ids.contains(tag_id) {
            rest.push((cards.last().id, cards.last().tag_ids))
        } else {
            rest
        }
    }
}

/// The active cards that have tag `tag_id`, each with its tags, column by column.
pub open spec fn tagged_active(columns: Seq<ColumnView>, tag_id: TagId) -> Seq<(CardId, Seq<TagId>)>
    decreases columns.len(),
{
    if columns.len() == 0 {
        seq![]
    } else {
        tagged_active(columns.drop_last(), tag_id) + tagged_cards(columns.last().cards, tag_id)
    }
}

/// Removing tag `tag_id` from the board and from every card. Undo gives the cards that had
/// it their tags back.
pub open spec fn remove_tag_spec(b: BoardState, tag_id: TagId, now: i64) -> (
    BoardState,
    Result<(), BoardError>,
) {
    match tag_index(b.tags, tag_id) {
        None => (b, Err(BoardError::TagNotFound(tag_id))),
        Some(t) => (
            push_operation(
                touch(remove_tag_raw_spec(b, tag_id).0, now),
                OperationView::RemoveTag {
                    tag: b.tags[t],
                    index: t as usize,
                    active_card_tags: tagged_active(b.columns, tag_id),
                    archived_card_tags: tagged_cards(b.archived_cards, tag_id),
                },
            ),
            Ok(()),
        ),
    }
}

/// The first id of `ids`, from place `i` on, that no tag has.
pub open spec fn first_unknown_tag_from(tags: Seq<TagView>, ids: Seq<TagId>, i: int) -> Option<TagId>
    decreases ids.len() - i,
{
    if i < 0 || i >= ids.len() {
        None
    } else if tag_index(tags, ids[i]) is None {
        Some(ids[i])
    } else {
        first_unknown_tag_from(tags, ids, i + 1)
    }
}

/// The first id of `ids` that no tag has.
pub open spec fn first_unknown_tag(tags: Seq<TagView>, ids: Seq<TagId>) -> Option<TagId> {
    first_unknown_tag_from(tags, ids, 0)
}

/// Giving active card `card_id` the tags `tag_ids`, which must all exist; the card keeps
/// them sorted, each once. The tags it has answer `Ok(false)`.
pub open spec fn set_card_tags_spec(b: BoardState, card_id: CardId, tag_ids: Seq<TagId>, now: i64) -> (
    BoardState,
    Result<bool, BoardError>,
) {
    match first_unknown_tag(b.tags, tag_ids) {
        Some(id) => (b, Err(BoardError::TagNotFound(id))),
        None => {
            let sorted = sorted_unique(tag_ids);
            match card_location(b.columns, card_id) {
                None => (b, Err(BoardError::CardNotFound(card_id))),
                Some((c, k)) => {
                    let card = b.columns[c].cards[k];
                    if card.tag_ids == sorted {
                        (b, Ok(false))
                    } else {
                        let edited = CardView { tag_ids: sorted, updated_at: now, ..card };
                        (
                            push_operation(
                                touch(with_columns(b, set_card_at(b.columns, c, k, edited)), now),
                                OperationView::SetCardTags { card_id, before: card.tag_ids, after: sorted },
                            ),
                            Ok(true),
                        )
                    }
                },
            }
        },
    }
}

/// The first of `ids` that no tag of `tags` has.
pub fn find_unknown_tag(tags: &Vec<Tag>, ids: &Vec<TagId>) -> (r: Option<TagId>)
    ensures
        r == first_unknown_tag(tags_view(tags@), ids@),
{
    let mut i: usize = 0;
    while i < ids.len()
        invariant
            i <= ids@.len(),
            first_unknown_tag_from(tags_view(tags@), ids@, i as int) == first_unknown_tag(
                tags_view(tags@),
                ids@,
            ),
        decreases ids.len() - i,
    {
        proof {
            lemma_tag_index(tags_view(tags@), ids@[i as int], 0);
        }
        if find_tag_index(tags, ids[i]).is_none() {
            return Some(ids[i]);
        }
        i += 1;
    }
    None
}

impl Board {
    /// Whether some tag, other than `except` if given, is named `name`.
    fn tag_name_taken(&self, name: &str, except: Option<TagId>) -> (r: bool)
        ensures
            r == match except {
                None => name_in_use(self@.tags, name@),
                Some(tag_id) => name_in_use_by_other(self@.tags, name@, tag_id),
            },
    {
        let mut i: usize = 0;
        while i < self.tags.len()
            invariant
                i <= self.tags@.len(),
                forall|j: int|
                    0 <= j < i ==> !(#[trigger] self@.tags[j].name == name@ && match except {
                        None => true,
                        Some(tag_id) => self@.tags[j].id != tag_id,
                    }),
            decreases self.tags.len() - i,
        {
            let other = match except {
                None => true,
                Some(tag_id) => self.tags[i].id != tag_id,
            };
            if other && str_eq(self.tags[i].name.as_str(), name) {
                proof {
                    assert(self@.tags[i as int].name == name@);
                    assert(self@.tags[i as int].id == self.tags@[i as int].id);
                }
                return true;
            }
            i += 1;
        }
        false
    }

    /// Adds a tag named `name` with `color` and answers its number, which is never handed
    /// out again. A blank name, or one that a tag has, is refused. Can be undone.
    pub fn add_tag(&mut self, name: &str, color: &str) -> (r: Result<TagId, BoardError>)
        requires
            old(self).next_tag_id < i64::MAX,
        ensures
            !is_blank_spec(name@) && name_in_use(old(self)@.tags, name@) ==> (final(self)@ == old(self)@
                && (r matches Err(BoardError::DuplicateTagName(taken)) && taken@ == name@)),
            is_blank_spec(name@) || !name_in_use(old(self)@.tags, name@) ==> (final(self)@
                == add_tag_spec(old(self)@, name@, color@, final(self)@.updated_at).0 && r
                == add_tag_spec(old(self)@, name@, color@, final(self)@.updated_at).1),
    {
        if is_blank(name) {
            return Err(BoardError::EmptyTagName);
        }
        if self.tag_name_taken(name, None) {
            return Err(BoardError::DuplicateTagName(name.to_owned()));
        }
        let id = self.next_tag_id;
        let now = timestamp();
        let tag = Tag {
            id,
            board_id: self.id,
            name: name.to_owned(),
            color: color.to_owned(),
            created_at: now,
            updated_at: now,
        };
        let recorded = tag.duplicate();
        let ghost before = self@.tags;
        self.tags.push(tag);
        assert(tags_view(self.tags@) =~= before.push(tag@));
        self.next_tag_id += 1;
        self.updated_at = now;
        self.push_operation(BoardOperation::AddTag { tag: recorded });
        Ok(id)
    }

    /// Renames tag `tag_id`. A blank name, or one that another tag has, is refused; the
    /// name it has answers `Ok(false)`. Can be undone.
    pub fn rename_tag(&mut self, tag_id: TagId, name: &str) -> (r: Result<bool, BoardError>)
        ensures
            !is_blank_spec(name@) && name_in_use_by_other(old(self)@.tags, name@, tag_id) ==> (
            final(self)@ == old(self)@ && (r matches Err(BoardError::DuplicateTagName(taken))
                && taken@ == name@)),
            is_blank_spec(name@) || !name_in_use_by_other(old(self)@.tags, name@, tag_id) ==> (
            final(self)@ == rename_tag_spec(old(self)@, tag_id, name@, final(self)@.updated_at).0
                && r == rename_tag_spec(old(self)@, tag_id, name@, final(self)@.updated_at).1),
    {
        if is_blank(name) {
            return Err(BoardError::EmptyTagName);
        }
        if self.tag_name_taken(name, Some(tag_id)) {
            return Err(BoardError::DuplicateTagName(name.to_owned()));
        }
        proof {
            lemma_tag_index(self@.tags, tag_id, 0);
        }
        let t = match find_tag_index(&self.tags, tag_id) {
            Some(t) => t,
            None => return Err(BoardError::TagNotFound(tag_id)),
        };
        if str_eq(self.tags[t].name.as_str(), name) {
            return Ok(false);
        }
        let before_name = self.tags[t].name.clone();
        let now = timestamp();
        let ghost before = self@.tags;
        self.tags[t].name = name.to_owned();
        self.tags[t].updated_at = now;
        assert(tags_view(self.tags@) =~= before.update(t as int, renamed_tag(name@, now)(before[t as int])));
        self.updated_at = now;
        self.push_operation(
            BoardOperation::RenameTag { tag_id, before: before_name, after: name.to_owned() },
        );
        Ok(true)
    }

    /// Sets the colour of tag `tag_id`; the colour it has answers `Ok(false)`. Can be
    /// undone.
    pub fn set_tag_color(&mut self, tag_id: TagId, color: &str) -> (r: Result<bool, BoardError>)
        ensures
            final(self)@ == set_tag_color_spec(old(self)@, tag_id, color@, final(self)@.updated_at).0,
            r == set_tag_color_spec(old(self)@, tag_id, color@, final(self)@.updated_at).1,
    {
        proof {
            lemma_tag_index(self@.tags, tag_id, 0);
        }
        let t = match find_tag_index(&self.tags, tag_id) {
            Some(t) => t,
            None => return Err(BoardError::TagNotFound(tag_id)),
        };
        if str_eq(self.tags[t].color.as_str(), color) {
            return Ok(false);
        }
        let before_color = self.tags[t].color.clone();
        let now = timestamp();
        let ghost before = self@.tags;
        self.tags[t].color = color.to_owned();
        self.tags[t].updated_at = now;
        assert(tags_view(self.tags@) =~= before.update(t as int, recolored_tag(color@, now)(before[t as int])));
        self.updated_at = now;
        self.push_operation(
            BoardOperation::SetTagColor { tag_id, before: before_color, after: color.to_owned() },
        );
        Ok(true)
    }

    /// Removes tag `tag_id` from the board and from every active and archived card. Undo
    /// gives the cards that had it their tags back.
    pub fn remove_tag(&mut self, tag_id: TagId) -> (r: Result<(), BoardError>)
        ensures
            final(self)@ == remove_tag_spec(old(self)@, tag_id, final(self)@.updated_at).0,
            r == remove_tag_spec(old(self)@, tag_id, final(self)@.updated_at).1,
    {
        proof {
            lemma_tag_index(self@.tags, tag_id, 0);
        }
        let index = match find_tag_index(&self.tags, tag_id) {
            Some(index) => index,
            None => return Err(BoardError::TagNotFound(tag_id)),
        };
        let active_card_tags = self.active_tagged(tag_id);
        let archived_card_tags = tagged_of(&self.archived_cards, tag_id);
        let tag = self.tags[index].duplicate();
        let ghost old_view = self@;
        let removed = self.remove_tag_raw(tag_id);
        let now = timestamp();
        self.updated_at = now;
        self.push_operation(
            BoardOperation::RemoveTag { tag, index, active_card_tags, archived_card_tags },
        );
        Ok(())
    }

    /// The active cards that have tag `tag_id`, each with its tags, column by column.
    fn active_tagged(&self, tag_id: TagId) -> (r: Vec<(CardId, Vec<TagId>)>)
        ensures
            tag_assignments_view(r@) == tagged_active(self@.columns, tag_id),
    {
        let mut r: Vec<(CardId, Vec<TagId>)> = Vec::new();
        let mut c: usize = 0;
        while c < self.columns.len()
            invariant
                c <= self.columns@.len(),
                tag_assignments_view(r@) == tagged_active(self@.columns.take(c as int), tag_id),
            decreases self.columns.len() - c,
        {
            let ghost start = tag_assignments_view(r@);
            let mut k: usize = 0;
            while k < self.columns[c].cards.len()
                invariant
                    c < self.columns@.len(),
                    k <= self.columns@[c as int].cards@.len(),
                    tag_assignments_view(r@) == start + tagged_cards(
                        self@.columns[c as int].cards.take(k as int),
                        tag_id,
                    ),
                decreases self.columns[c as int].cards@.len() - k,
            {
                let ghost cards = self@.columns[c as int].cards;
                assert(cards.take(k + 1).drop_last() =~= cards.take(k as int));
                if ids_contain(&self.columns[c].cards[k].tag_ids, tag_id) {
                    let ghost before = r@;
                    r.push((self.columns[c].cards[k].id, copy_ids(&self.columns[c].cards[k].tag_ids)));
                    assert(tag_assignments_view(r@) =~= tag_assignments_view(before).push(
                        (cards[k as int].id, cards[k as int].tag_ids),
                    ));
                }
                k += 1;
            }
            assert(self@.columns[c as int].cards.take(k as int) =~= self@.columns[c as int].cards);
            assert(self@.columns.take(c + 1).drop_last() =~= self@.columns.take(c as int));
            c += 1;
        }
        assert(self@.columns.take(c as int) =~= self@.columns);
        r
    }

    /// Gives active card `card_id` the tags `tag_ids`, which must all exist, sorted and
    /// each once. The tags it has answer `Ok(false)`. Can be undone.
    pub fn set_card_tags(&mut self, card_id: CardId, tag_ids: Vec<TagId>) -> (r: Result<bool, BoardError>)
        ensures
            final(self)@ == set_card_tags_spec(old(self)@, card_id, tag_ids@, final(self)@.updated_at).0,
            r == set_card_tags_spec(old(self)@, card_id, tag_ids@, final(self)@.updated_at).1,
    {
        match find_unknown_tag(&self.tags, &tag_ids) {
            Some(id) => return Err(BoardError::TagNotFound(id)),
            None => {},
        }
        let sorted = sorted_unique_ids(&tag_ids);
        proof {
            lemma_card_location(self@.columns, card_id);
        }
        let (c, k) = match self.active_card_location(card_id) {
            Some(location) => location,
            None => return Err(BoardError::CardNotFound(card_id)),
        };
        proof {
            assert(self@.columns[c as int] == self.columns@[c as int]@);
        }
        if ids_eq(&self.columns[c].cards[k].tag_ids, &sorted) {
            return Ok(false);
        }
        let before_ids = copy_ids(&self.columns[c].cards[k].tag_ids);
        let after_ids = copy_ids(&sorted);
        let now = timestamp();
        let ghost before = self.columns@;
        self.columns[c].cards[k].tag_ids = sorted;
        self.columns[c].cards[k].updated_at = now;
        proof {
            lemma_set_card_view(before, self.columns@, c as int, k as int);
        }
        self.updated_at = now;
        self.push_operation(BoardOperation::SetCardTags { card_id, before: before_ids, after: after_ids });
        Ok(true)
    }
}

/// The cards of `cards` that have tag `tag_id`, each with its tags, in order.
fn tagged_of(cards: &Vec<crate::model::types::Card>, tag_id: TagId) -> (r: Vec<(CardId, Vec<TagId>)>)
    ensures
        tag_assignments_view(r@) == tagged_cards(crate::model::types::cards_view(cards@), tag_id),
{
    let ghost all = crate::model::types::cards_view(cards@);
    let mut r: Vec<(CardId, Vec<TagId>)> = Vec::new();
    let mut k: usize = 0;
    while k < cards.len()
        invariant
            k <= cards@.len(),
            all == crate::model::types::cards_view(cards@),
            tag_assignments_view(r@) == tagged_cards(all.take(k as int), tag_id),
        decreases cards.len() - k,
    {
        assert(all.take(k + 1).drop_last() =~= all.take(k as int));
        if ids_contain(&cards[k].tag_ids, tag_id) {
            let ghost before = r@;
            r.push((cards[k].id, copy_ids(&cards[k].tag_ids)));
            assert(tag_assignments_view(r@) =~= tag_assignments_view(before).push(
                (all[k as int].id, all[k as int].tag_ids),
            ));
        }
        k += 1;
    }
    assert(all.take(k as int) =~= all);
    r
}

} // verus!
