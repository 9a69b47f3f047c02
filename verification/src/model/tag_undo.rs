//! Removing a tag and undoing it: the tag goes back to its place, and every card that had
//! it, active or archived, gets its tags back.
use vstd::prelude::*;
use crate::model::laws::{lemma_card_index_unique, lemma_card_location_unique, well_formed};
use crate::model::raw_spec::{
    card_without_tag, cards_without_tag, restore_card_tags_spec, restore_one_card_tags, strip_tag,
    without_tag,
};
use crate::model::replay_spec::undo_spec;
use crate::model::spec::{card_location, lemma_tag_index, set_card_at, tag_index};
use crate::model::tags::{remove_tag_spec, tagged_active, tagged_cards};
use crate::model::types::{BoardState, CardId, CardView, ColumnView, TagId};

verus! {

/// Restoring tags for one list of cards and then another is restoring them for both.
proof fn lemma_restore_concat(
    b: BoardState,
    l1: Seq<(CardId, Seq<TagId>)>,
    l2: Seq<(CardId, Seq<TagId>)>,
)
    ensures
        restore_card_tags_spec(b, l1 + l2) == restore_card_tags_spec(
            restore_card_tags_spec(b, l1),
            l2,
        ),
    decreases l2.len(),
{
    if l2.len() == 0 {
        assert(l1 + l2 =~= l1);
    } else {
        assert((l1 + l2).drop_last() =~= l1 + l2.drop_last());
        assert((l1 + l2).last() == l2.last());
        lemma_restore_concat(b, l1, l2.drop_last());
    }
}

/// Dropping a tag that a list does not hold leaves the list.
pub proof fn lemma_without_absent(tag_ids: Seq<TagId>, tag_id: TagId)
    requires
        !tag_ids.contains(tag_id),
    ensures
        without_tag(tag_ids, tag_id) == tag_ids,
    decreases tag_ids.len(),
{
    if tag_ids.len() > 0 {
        let init = tag_ids.drop_last();
        assert(!init.contains(tag_id)) by {
            if init.contains(tag_id) {
                let i = choose|i: int| 0 <= i < init.len() && init[i] == tag_id;
                assert(tag_ids[i] == tag_id);
            }
        }
        lemma_without_absent(init, tag_id);
        assert(tag_ids[tag_ids.len() - 1] != tag_id);
        assert(init.push(tag_ids.last()) =~= tag_ids);
    }
}

/// The columns with the cards before place `(c, k)` as they were and the others without
/// the tag.
pub open spec fn mixed(orig: Seq<ColumnView>, tag_id: TagId, c: int, k: int) -> Seq<ColumnView> {
    Seq::new(
        orig.len(),
        |i: int|
            ColumnView {
                cards: Seq::new(
                    orig[i].cards.len(),
                    |j: int|
                        if i < c || (i == c && j < k) {
                            orig[i].cards[j]
                        } else {
                            card_without_tag(orig[i].cards[j], tag_id)
                        },
                ),
                ..orig[i]
            },
    )
}

/// The cards with the first `j` as they were and the others without the tag.
pub open spec fn mixed_cards(orig: Seq<CardView>, tag_id: TagId, j: int) -> Seq<CardView> {
    Seq::new(
        orig.len(),
        |i: int|
            if i < j {
                orig[i]
            } else {
                card_without_tag(orig[i], tag_id)
            },
    )
}

/// The tagged active cards of the columns before `c` and of the first `k` cards of `c`.
pub open spec fn tagged_before(orig: Seq<ColumnView>, tag_id: TagId, c: int, k: int) -> Seq<
    (CardId, Seq<TagId>),
> {
    tagged_active(orig.take(c), tag_id) + tagged_cards(orig[c].cards.take(k), tag_id)
}

proof fn lemma_restore_active(b: BoardState, start: BoardState, tag_id: TagId, c: int, k: int)
    requires
        well_formed(b),
        start.columns == mixed(b.columns, tag_id, 0, 0),
        0 <= c < b.columns.len(),
        0 <= k <= b.columns[c].cards.len(),
    ensures
        restore_card_tags_spec(start, tagged_before(b.columns, tag_id, c, k)) == (BoardState {
            columns: mixed(b.columns, tag_id, c, k),
            ..start
        }),
    decreases c, k,
{
    let orig = b.columns;
    if k == 0 {
        if c == 0 {
            assert(orig.take(0) =~= Seq::<ColumnView>::empty());
            assert(orig[0].cards.take(0) =~= Seq::<CardView>::empty());
            assert(tagged_before(orig, tag_id, 0, 0) =~= Seq::<(CardId, Seq<TagId>)>::empty());
        } else {
            let prev_len = orig[c - 1].cards.len() as int;
            lemma_restore_active(b, start, tag_id, c - 1, prev_len);
            assert(orig.take(c).drop_last() =~= orig.take(c - 1));
            assert(orig[c - 1].cards.take(prev_len) =~= orig[c - 1].cards);
            assert(orig[c].cards.take(0) =~= Seq::<CardView>::empty());
            assert(tagged_before(orig, tag_id, c, 0) =~= tagged_before(orig, tag_id, c - 1, prev_len));
            assert(mixed(orig, tag_id, c, 0) =~= mixed(orig, tag_id, c - 1, prev_len)) by {
                assert forall|i: int| 0 <= i < orig.len() implies #[trigger] mixed(orig, tag_id, c, 0)[i]
                    == mixed(orig, tag_id, c - 1, prev_len)[i] by {
                    assert(mixed(orig, tag_id, c, 0)[i].cards =~= mixed(orig, tag_id, c - 1, prev_len)[i].cards);
                }
            }
        }
    } else {
        lemma_restore_active(b, start, tag_id, c, k - 1);
        let card = orig[c].cards[k - 1];
        let before = tagged_before(orig, tag_id, c, k - 1);
        let now_list = tagged_before(orig, tag_id, c, k);
        assert(orig[c].cards.take(k).drop_last() =~= orig[c].cards.take(k - 1));
        assert(orig[c].cards.take(k).last() == card);
        let m = mixed(orig, tag_id, c, k - 1);
        let m2 = mixed(orig, tag_id, c, k);
        if card.tag_ids.contains(tag_id) {
            let item = (card.id, card.tag_ids);
            assert(now_list =~= before.push(item));
            assert(before.push(item).drop_last() =~= before);
            // The card is found where it stands, and gets its tags back.
            assert forall|c2: int, k2: int|
                0 <= c2 < m.len() && 0 <= k2 < m[c2].cards.len() && (c2 != c || k2 != k - 1) implies #[trigger] m[c2].cards[k2].id
                != card.id by {
                assert(m[c2].cards[k2].id == orig[c2].cards[k2].id);
            }
            lemma_card_location_unique(m, card.id, c, k - 1);
            let back = CardView { tag_ids: card.tag_ids, ..m[c].cards[k - 1] };
            let set = set_card_at(m, c, k - 1, back);
            assert(set =~= m2) by {
                assert forall|i: int| 0 <= i < orig.len() implies #[trigger] set[i] == m2[i] by {
                    assert(set[i].cards =~= m2[i].cards);
                }
            }
        } else {
            assert(now_list =~= before);
            lemma_without_absent(card.tag_ids, tag_id);
            assert(m2 =~= m) by {
                assert forall|i: int| 0 <= i < orig.len() implies #[trigger] m2[i] == m[i] by {
                    assert(m2[i].cards =~= m[i].cards);
                }
            }
        }
    }
}

proof fn lemma_restore_archived(b: BoardState, start: BoardState, tag_id: TagId, j: int)
    requires
        well_formed(b),
        start.columns == b.columns,
        start.archived_cards == mixed_cards(b.archived_cards, tag_id, 0),
        0 <= j <= b.archived_cards.len(),
    ensures
        restore_card_tags_spec(start, tagged_cards(b.archived_cards.take(j), tag_id)) == (BoardState {
            archived_cards: mixed_cards(b.archived_cards, tag_id, j),
            ..start
        }),
    decreases j,
{
    let orig = b.archived_cards;
    if j == 0 {
        assert(orig.take(0) =~= Seq::<CardView>::empty());
        assert(mixed_cards(orig, tag_id, 0) =~= start.archived_cards);
    } else {
        lemma_restore_archived(b, start, tag_id, j - 1);
        let card = orig[j - 1];
        assert(orig.take(j).drop_last() =~= orig.take(j - 1));
        assert(orig.take(j).last() == card);
        let a = mixed_cards(orig, tag_id, j - 1);
        let a2 = mixed_cards(orig, tag_id, j);
        let before = tagged_cards(orig.take(j - 1), tag_id);
        if card.tag_ids.contains(tag_id) {
            let item = (card.id, card.tag_ids);
            assert(tagged_cards(orig.take(j), tag_id) =~= before.push(item));
            assert(before.push(item).drop_last() =~= before);
            // No active card has the number; the archived card is found where it stands.
            crate::model::spec::lemma_card_location(b.columns, card.id);
            assert(card_location(b.columns, card.id) is None) by {
                if card_location(b.columns, card.id) is Some {
                    let (c, k) = card_location(b.columns, card.id).unwrap();
                    assert(b.columns[c].cards[k].id != b.archived_cards[j - 1].id);
                }
            }
            assert forall|i: int| 0 <= i < a.len() && i != j - 1 implies #[trigger] a[i].id != card.id by {
                if i < j - 1 {
                    assert(orig[i].id != orig[j - 1].id);
                } else {
                    assert(orig[j - 1].id != orig[i].id);
                }
            }
            lemma_card_index_unique(a, card.id, j - 1);
            assert(a.update(j - 1, CardView { tag_ids: card.tag_ids, ..a[j - 1] }) =~= a2);
        } else {
            assert(tagged_cards(orig.take(j), tag_id) =~= before);
            lemma_without_absent(card.tag_ids, tag_id);
            assert(a2 =~= a);
        }
    }
}

/// Removing a tag and then undoing it gives back the tags, the columns and the archive
/// exactly: every card that had the tag has its tags as before.
pub proof fn law_undo_remove_tag(b: BoardState, tag_id: TagId, now: i64, later: i64)
    requires
        well_formed(b),
        remove_tag_spec(b, tag_id, now).1 is Ok,
    ensures
        ({
            let removed = remove_tag_spec(b, tag_id, now).0;
            let (undone, r) = undo_spec(removed, later);
            &&& r == Ok::<bool, crate::model::types::BoardError>(true)
            &&& undone.tags == b.tags
            &&& undone.columns == b.columns
            &&& undone.archived_cards == b.archived_cards
            &&& undone.undo_stack == b.undo_stack
        }),
{
    lemma_tag_index(b.tags, tag_id, 0);
    let t = tag_index(b.tags, tag_id).unwrap();
    let removed = remove_tag_spec(b, tag_id, now).0;
    let popped = BoardState { undo_stack: removed.undo_stack.drop_last(), ..removed };
    assert(popped.undo_stack =~= b.undo_stack);
    assert((t as usize) as int == t);
    let stripped = strip_tag(BoardState { tags: b.tags.remove(t), ..b }, tag_id);
    assert(popped.columns == stripped.columns);
    let start = BoardState { tags: popped.tags.insert(t, b.tags[t]), ..popped };
    assert(start.tags =~= b.tags);
    // The active cards first.
    assert(start.columns =~= mixed(b.columns, tag_id, 0, 0)) by {
        assert forall|i: int| 0 <= i < b.columns.len() implies #[trigger] start.columns[i] == mixed(
            b.columns,
            tag_id,
            0,
            0,
        )[i] by {
            assert(start.columns[i].cards =~= mixed(b.columns, tag_id, 0, 0)[i].cards);
        }
    }
    let n = b.columns.len() as int;
    let active = tagged_active(b.columns, tag_id);
    let after_active = restore_card_tags_spec(start, active);
    if n == 0 {
        assert(b.columns.take(0) =~= b.columns);
        assert(after_active.columns =~= b.columns);
    } else {
        let last = b.columns[n - 1].cards.len() as int;
        lemma_restore_active(b, start, tag_id, n - 1, last);
        assert(b.columns.take(n - 1) =~= b.columns.drop_last());
        assert(b.columns[n - 1].cards.take(last) =~= b.columns[n - 1].cards);
        assert(tagged_before(b.columns, tag_id, n - 1, last) =~= active);
        assert(mixed(b.columns, tag_id, n - 1, last) =~= b.columns) by {
            assert forall|i: int| 0 <= i < n implies #[trigger] mixed(b.columns, tag_id, n - 1, last)[i]
                == b.columns[i] by {
                assert(mixed(b.columns, tag_id, n - 1, last)[i].cards =~= b.columns[i].cards);
            }
        }
    }
    assert(after_active.columns == b.columns);
    // Then the archived ones.
    assert(after_active.archived_cards =~= mixed_cards(b.archived_cards, tag_id, 0));
    let archived = tagged_cards(b.archived_cards, tag_id);
    lemma_restore_archived(b, after_active, tag_id, b.archived_cards.len() as int);
    assert(b.archived_cards.take(b.archived_cards.len() as int) =~= b.archived_cards);
    assert(mixed_cards(b.archived_cards, tag_id, b.archived_cards.len() as int) =~= b.archived_cards);
}

} // verus!
