//! Sorting a column by due date, undoing and redoing it: the sort only reorders the cards,
//! so it keeps a board in good order, and taking them back in an order by number finds
//! each of them.
use vstd::prelude::*;
use crate::date::DueDate;
use crate::model::laws::well_formed;
use crate::model::alike::lemma_reindex_idempotent;
use crate::model::keeps::{
    apart, every_card, items_below_of, lemma_reindex_keeps, lemma_reindex_keeps_numbers,
    not_in_archive, same_column_ids, tags_below_of,
};
use crate::model::raw_spec::pick_in_order;
use crate::model::replay_spec::{redo_spec, undo_spec};
use crate::model::sort::{
    card_ids, insert_by_due, lemma_insert_by_due_at, sort_by_due, sort_column_by_due_date_spec,
    sorts_before,
};
use crate::model::spec::{
    card_index, column_index, lemma_card_index, lemma_column_index, reindex_card, reindex_cards,
    reindex_columns, reindex_items, set_cards,
};
use crate::model::types::{BoardState, CardId, CardView, ColumnId, ColumnView};

verus! {

/// `x` stands somewhere in `s`.
pub open spec fn has_card(s: Seq<CardView>, x: CardView) -> bool {
    exists|i: int| 0 <= i < s.len() && s[i] == x
}

/// Some card of `s` has number `id`.
pub open spec fn has_id(s: Seq<CardView>, id: CardId) -> bool {
    exists|r: int| 0 <= r < s.len() && #[trigger] s[r].id == id
}

/// Every number of `order` is the number of some card of `rem`.
pub open spec fn numbers_present(rem: Seq<CardView>, order: Seq<CardId>) -> bool {
    forall|j: int| 0 <= j < order.len() ==> has_id(rem, #[trigger] order[j])
}

/// No two cards of `s` share a number.
pub open spec fn ids_apart(s: Seq<CardView>) -> bool {
    forall|i: int, j: int| 0 <= i < j < s.len() ==> #[trigger] s[i].id != #[trigger] s[j].id
}

/// Inserting by due date inserts at some place.
proof fn lemma_insert_by_due_is_insert(t: Seq<CardView>, x: CardView) -> (p: int)
    ensures
        0 <= p <= t.len(),
        insert_by_due(t, x) == t.insert(p, x),
    decreases t.len(),
{
    if t.len() == 0 {
        assert(t.insert(0, x) =~= seq![x]);
        0
    } else if sorts_before(x, t[0]) {
        assert(t.insert(0, x) =~= seq![x] + t);
        0
    } else {
        let q = lemma_insert_by_due_is_insert(t.drop_first(), x);
        assert(seq![t[0]] + t.drop_first().insert(q, x) =~= t.insert(q + 1, x));
        q + 1
    }
}

/// Sorting keeps the cards: the same count, and each card of one is a card of the other.
proof fn lemma_sort_keeps_cards(cards: Seq<CardView>)
    ensures
        sort_by_due(cards).len() == cards.len(),
        forall|i: int| 0 <= i < cards.len() ==> has_card(cards, #[trigger] sort_by_due(cards)[i]),
        forall|j: int| 0 <= j < cards.len() ==> has_card(sort_by_due(cards), #[trigger] cards[j]),
    decreases cards.len(),
{
    if cards.len() > 0 {
        let init = cards.drop_last();
        let x = cards.last();
        lemma_sort_keeps_cards(init);
        let t = sort_by_due(init);
        let p = lemma_insert_by_due_is_insert(t, x);
        let s = sort_by_due(cards);
        assert(s == t.insert(p, x));
        assert forall|i: int| 0 <= i < cards.len() implies has_card(cards, #[trigger] s[i]) by {
            if i < p {
                assert(has_card(init, t[i]));
                let w = choose|w: int| 0 <= w < init.len() && init[w] == t[i];
                assert(cards[w] == init[w]);
            } else if i > p {
                assert(has_card(init, t[i - 1]));
                let w = choose|w: int| 0 <= w < init.len() && init[w] == t[i - 1];
                assert(cards[w] == init[w]);
            } else {
                assert(cards[cards.len() - 1] == x);
            }
        }
        assert forall|j: int| 0 <= j < cards.len() implies has_card(s, #[trigger] cards[j]) by {
            if j < cards.len() - 1 {
                assert(cards[j] == init[j]);
                assert(has_card(t, init[j]));
                let w = choose|w: int| 0 <= w < t.len() && t[w] == init[j];
                if w < p {
                    assert(s[w] == t[w]);
                } else {
                    assert(s[w + 1] == t[w]);
                }
            } else {
                assert(s[p] == x);
            }
        }
    }
}

/// What taking cards by number in `order` out of `rem` leaves and picks, while every
/// number is there: each picked card has its number and came from `rem`; what is left came
/// from `rem`, has no number of `order`, and holds every card of `rem` whose number is not
/// in `order`.
pub open spec fn picked_well(
    rem: Seq<CardView>,
    order: Seq<CardId>,
    picked: Seq<CardView>,
    left: Seq<CardView>,
) -> bool {
    &&& picked.len() == order.len()
    &&& left.len() + order.len() == rem.len()
    &&& forall|j: int|
        0 <= j < order.len() ==> (#[trigger] picked[j]).id == order[j] && has_card(rem, picked[j])
    &&& forall|i: int| 0 <= i < left.len() ==> has_card(rem, #[trigger] left[i]) && !order.contains(left[i].id)
    &&& forall|r: int| 0 <= r < rem.len() && !order.contains(rem[r].id) ==> has_card(left, #[trigger] rem[r])
    &&& ids_apart(left)
}

proof fn lemma_pick_in_order(rem: Seq<CardView>, order: Seq<CardId>)
    requires
        ids_apart(rem),
        forall|i: int, j: int| 0 <= i < j < order.len() ==> #[trigger] order[i] != #[trigger] order[j],
        numbers_present(rem, order),
    ensures
        pick_in_order(rem, order).2 is None,
        picked_well(rem, order, pick_in_order(rem, order).0, pick_in_order(rem, order).1),
    decreases order.len(),
{
    if order.len() == 0 {
        let (picked, left, _) = pick_in_order(rem, order);
        assert forall|r: int| 0 <= r < rem.len() && !order.contains(rem[r].id) implies has_card(left, #[trigger] rem[r]) by {
            assert(left[r] == rem[r]);
        }
        assert forall|i: int| 0 <= i < left.len() implies has_card(rem, #[trigger] left[i]) && !order.contains(left[i].id) by {
            assert(rem[i] == left[i]);
        }
    } else {
        let init = order.drop_last();
        let z = order.last();
        assert forall|i: int, j: int| 0 <= i < j < init.len() implies #[trigger] init[i] != #[trigger] init[j] by {
            assert(init[i] == order[i] && init[j] == order[j]);
        }
        assert(numbers_present(rem, init)) by {
            assert forall|j: int| 0 <= j < init.len() implies has_id(rem, #[trigger] init[j]) by {
                assert(init[j] == order[j]);
            }
        }
        lemma_pick_in_order(rem, init);
        let (picked, left, _) = pick_in_order(rem, init);
        // The last number is still among what is left.
        assert(has_id(rem, order[order.len() - 1]));
        let r = choose|r: int| 0 <= r < rem.len() && #[trigger] rem[r].id == order[order.len() - 1];
        assert(!init.contains(z)) by {
            if init.contains(z) {
                let w = choose|w: int| 0 <= w < init.len() && init[w] == z;
                assert(order[w] == order[order.len() - 1]);
            }
        }
        assert(has_card(left, rem[r]));
        lemma_card_index(left, z);
        let i = card_index(left, z).unwrap();
        let picked2 = picked.push(left[i]);
        let left2 = left.remove(i);
        assert(pick_in_order(rem, order) == (picked2, left2, None::<CardId>));
        assert forall|j: int| 0 <= j < order.len() implies (#[trigger] picked2[j]).id == order[j] && has_card(rem, picked2[j]) by {
            if j < init.len() {
                assert(picked2[j] == picked[j] && init[j] == order[j]);
            }
        }
        assert forall|k: int| 0 <= k < left2.len() implies has_card(rem, #[trigger] left2[k]) && !order.contains(left2[k].id) by {
            let src = if k < i {
                k
            } else {
                k + 1
            };
            assert(left2[k] == left[src]);
            assert(has_card(rem, left[src]) && !init.contains(left[src].id));
            assert(left[src].id != z);
            if order.contains(left2[k].id) {
                let w = choose|w: int| 0 <= w < order.len() && order[w] == left2[k].id;
                if w < init.len() {
                    assert(init[w] == order[w]);
                }
            }
        }
        assert forall|q: int| 0 <= q < rem.len() && !order.contains(rem[q].id) implies has_card(left2, #[trigger] rem[q]) by {
            assert(!init.contains(rem[q].id)) by {
                if init.contains(rem[q].id) {
                    let w = choose|w: int| 0 <= w < init.len() && init[w] == rem[q].id;
                    assert(order[w] == init[w]);
                }
            }
            assert(rem[q].id != z) by {
                assert(order[order.len() - 1] == z);
            }
            assert(has_card(left, rem[q]));
            let m = choose|m: int| 0 <= m < left.len() && left[m] == rem[q];
            if m < i {
                assert(left2[m] == left[m]);
            } else {
                assert(m != i);
                assert(left2[m - 1] == left[m]);
            }
        }
        assert forall|a: int, b: int| 0 <= a < b < left2.len() implies #[trigger] left2[a].id != #[trigger] left2[b].id by {
            let sa = if a < i {
                a
            } else {
                a + 1
            };
            let sb = if b < i {
                b
            } else {
                b + 1
            };
            assert(left2[a] == left[sa] && left2[b] == left[sb]);
        }
    }
}

/// Every number of a column is found among its cards once sorted and put in order.
proof fn lemma_every_number_stays(cards: Seq<CardView>, column_id: ColumnId)
    ensures
        numbers_present(reindex_cards(column_id, sort_by_due(cards)), card_ids(cards)),
{
    lemma_sort_keeps_cards(cards);
    let t = sort_by_due(cards);
    let rem = reindex_cards(column_id, t);
    let order = card_ids(cards);
    assert forall|j: int| 0 <= j < order.len() implies has_id(rem, #[trigger] order[j]) by {
        assert(order[j] == cards[j].id);
        assert(has_card(cards, cards[j]) ==> has_card(t, cards[j]));
        assert(0 <= j < cards.len() && cards[j] == cards[j]);
        assert(has_card(t, cards[j]));
        let w = choose|w: int| 0 <= w < t.len() && t[w] == cards[j];
        assert(0 <= w < rem.len());
        assert(rem[w] == reindex_card(t[w], column_id, w));
        assert(rem[w].id == order[j]);
    }
    assert(numbers_present(rem, order));
}

/// Putting a card in order twice is putting it in order once.
proof fn lemma_reindex_card_twice(card: CardView, c1: ColumnId, k1: int, c2: ColumnId, k2: int)
    ensures
        reindex_card(reindex_card(card, c1, k1), c2, k2) == reindex_card(card, c2, k2),
{
    assert(reindex_items(card.id, reindex_items(card.id, card.checklist_items)) =~= reindex_items(
        card.id,
        card.checklist_items,
    ));
}

/// Sorting a column by due date and then undoing it gives back the columns exactly.
pub proof fn law_undo_sort_column_by_due_date(b: BoardState, column_id: ColumnId, now: i64, later: i64)
    requires
        well_formed(b),
        sort_column_by_due_date_spec(b, column_id, now).1 == Ok::<
            bool,
            crate::model::types::BoardError,
        >(true),
    ensures
        ({
            let sorted = sort_column_by_due_date_spec(b, column_id, now).0;
            let (undone, r) = undo_spec(sorted, later);
            &&& r == Ok::<bool, crate::model::types::BoardError>(true)
            &&& undone.columns == b.columns
            &&& undone.tags == b.tags
            &&& undone.archived_cards == b.archived_cards
            &&& undone.undo_stack == b.undo_stack
        }),
{
    lemma_column_index(b.columns, column_id);
    let c = column_index(b.columns, column_id).unwrap();
    let cards = b.columns[c].cards;
    let t = sort_by_due(cards);
    lemma_sort_keeps_cards(cards);
    let placed = set_cards(b.columns, c, t);
    let m = reindex_columns(placed);
    let sorted = sort_column_by_due_date_spec(b, column_id, now).0;
    assert(sorted.columns == m);
    let popped = BoardState { undo_stack: sorted.undo_stack.drop_last(), ..sorted };
    assert(popped.undo_stack =~= b.undo_stack);
    // The column is found where it stood.
    assert forall|c2: int| 0 <= c2 < m.len() && c2 != c implies #[trigger] m[c2].id != column_id by {
        assert(m[c2].id == b.columns[c2].id);
        if c2 < c {
        } else {
            assert(b.columns[c].id != b.columns[c2].id);
        }
    }
    lemma_column_index(m, column_id);
    assert(column_index(m, column_id) == Some(c)) by {
        assert(m[c].id == column_id);
    }
    let rem = m[c].cards;
    assert(rem == reindex_cards(column_id, t));
    let order = card_ids(cards);
    // The cards of the column are numbered apart, sorted or not.
    assert(ids_apart(cards)) by {
        assert forall|i: int, j: int| 0 <= i < j < cards.len() implies #[trigger] cards[i].id != #[trigger] cards[j].id by {
            assert(b.columns[c].cards[i].id != b.columns[c].cards[j].id);
        }
    }
    lemma_sorted_ids_apart(cards);
    assert(ids_apart(rem)) by {
        assert forall|i: int, j: int| 0 <= i < j < rem.len() implies #[trigger] rem[i].id != #[trigger] rem[j].id by {
            assert(t[i].id != t[j].id);
        }
    }
    assert forall|i: int, j: int| 0 <= i < j < order.len() implies #[trigger] order[i] != #[trigger] order[j] by {}
    lemma_every_number_stays(cards, column_id);
    lemma_pick_in_order(rem, order);
    let (picked, left, _) = pick_in_order(rem, order);
    assert(left.len() == 0);
    // Each card is picked back, as it was but for its place.
    assert forall|j: int| 0 <= j < cards.len() implies #[trigger] reindex_card(picked[j], column_id, j)
        == cards[j] by {
        assert(has_card(rem, picked[j]));
        let w = choose|w: int| 0 <= w < rem.len() && rem[w] == picked[j];
        assert(has_card(cards, t[w]));
        let v = choose|v: int| 0 <= v < cards.len() && cards[v] == t[w];
        assert(cards[v].id == cards[j].id);
        assert(v == j);
        lemma_reindex_card_twice(t[w], column_id, w, column_id, j);
        assert(reindex_columns(b.columns)[c].cards[j] == reindex_card(cards[j], column_id, j));
    }
    let back = reindex_columns(set_cards(m, c, picked));
    assert forall|j: int| 0 <= j < b.columns.len() implies #[trigger] back[j] == b.columns[j] by {
        assert(reindex_columns(b.columns)[j] == b.columns[j]);
        if j == c {
            assert(back[j].cards =~= b.columns[j].cards);
        } else {
            assert(m[j] == reindex_columns(b.columns)[j]);
            assert(back[j].cards =~= b.columns[j].cards) by {
                assert forall|k: int| 0 <= k < b.columns[j].cards.len() implies #[trigger] back[j].cards[k]
                    == b.columns[j].cards[k] by {
                    lemma_reindex_card_twice(b.columns[j].cards[k], b.columns[j].id, k, b.columns[j].id, k);
                }
            }
        }
    }
    assert(back =~= b.columns);
}

/// The sorted cards are numbered apart as the cards were.
proof fn lemma_sorted_ids_apart(cards: Seq<CardView>)
    requires
        ids_apart(cards),
    ensures
        ids_apart(sort_by_due(cards)),
    decreases cards.len(),
{
    if cards.len() > 0 {
        let init = cards.drop_last();
        let x = cards.last();
        assert(ids_apart(init)) by {
            assert forall|i: int, j: int| 0 <= i < j < init.len() implies #[trigger] init[i].id != #[trigger] init[j].id by {
                assert(cards[i] == init[i] && cards[j] == init[j]);
            }
        }
        lemma_sorted_ids_apart(init);
        lemma_sort_keeps_cards(init);
        let t = sort_by_due(init);
        let p = lemma_insert_by_due_is_insert(t, x);
        let s = t.insert(p, x);
        assert forall|k: int| 0 <= k < t.len() implies #[trigger] t[k].id != x.id by {
            assert(has_card(init, t[k]));
            let w = choose|w: int| 0 <= w < init.len() && init[w] == t[k];
            assert(cards[w] == init[w]);
            assert(cards[w].id != cards[cards.len() - 1].id);
        }
        assert forall|i: int, j: int| 0 <= i < j < s.len() implies #[trigger] s[i].id != #[trigger] s[j].id by {
            if i < p && j < p {
                assert(s[i] == t[i] && s[j] == t[j]);
            } else if i < p && j == p {
                assert(s[i] == t[i]);
            } else if i < p {
                assert(s[i] == t[i] && s[j] == t[j - 1]);
            } else if i == p {
                assert(s[j] == t[j - 1]);
            } else {
                assert(s[i] == t[i - 1] && s[j] == t[j - 1]);
            }
        }
    }
}

} // verus!

verus! {

/// Sorting one column reorders its cards: what held of every card still does, cards stay
/// apart, and the columns keep their numbers and counts.
proof fn lemma_sorted_column_keeps(cols: Seq<ColumnView>, c: int, p: spec_fn(CardView) -> bool)
    requires
        0 <= c < cols.len(),
    ensures
        same_column_ids(set_cards(cols, c, sort_by_due(cols[c].cards)), cols),
        every_card(cols, p) ==> every_card(set_cards(cols, c, sort_by_due(cols[c].cards)), p),
        apart(cols) ==> apart(set_cards(cols, c, sort_by_due(cols[c].cards))),
        forall|j: int|
            0 <= j < cols.len() ==> #[trigger] set_cards(cols, c, sort_by_due(cols[c].cards))[j].cards.len()
                == cols[j].cards.len(),
{
    let cards = cols[c].cards;
    let sorted = sort_by_due(cards);
    let m = set_cards(cols, c, sorted);
    lemma_sort_keeps_cards(cards);
    // Where each card of the sorted column stood before.
    assert forall|k: int| 0 <= k < sorted.len() implies exists|w: int|
        0 <= w < cards.len() && cards[w] == #[trigger] sorted[k] by {
        assert(has_card(cards, sorted[k]));
    }
    if every_card(cols, p) {
        assert forall|c2: int, k2: int|
            0 <= c2 < m.len() && 0 <= k2 < m[c2].cards.len() implies p(#[trigger] m[c2].cards[k2]) by {
            if c2 == c {
                let w = choose|w: int| 0 <= w < cards.len() && cards[w] == sorted[k2];
                assert(p(cols[c].cards[w]));
            } else {
                assert(p(cols[c2].cards[k2]));
            }
        }
    }
    if apart(cols) {
        assert(ids_apart(cards)) by {
            assert forall|i: int, j: int| 0 <= i < j < cards.len() implies #[trigger] cards[i].id
                != #[trigger] cards[j].id by {
                assert(cols[c].cards[i].id != cols[c].cards[j].id);
            }
        }
        lemma_sorted_ids_apart(cards);
        assert forall|c1: int, k1: int, c2: int, k2: int|
            0 <= c1 < m.len() && 0 <= k1 < m[c1].cards.len() && 0 <= c2 < m.len() && 0 <= k2
                < m[c2].cards.len() && (c1 != c2 || k1 != k2) implies #[trigger] m[c1].cards[k1].id
            != #[trigger] m[c2].cards[k2].id by {
            if c1 == c && c2 == c {
                if k1 < k2 {
                    assert(sorted[k1].id != sorted[k2].id);
                } else {
                    assert(sorted[k2].id != sorted[k1].id);
                }
            } else if c1 == c {
                let w = choose|w: int| 0 <= w < cards.len() && cards[w] == sorted[k1];
                assert(cols[c].cards[w].id != cols[c2].cards[k2].id);
            } else if c2 == c {
                let w = choose|w: int| 0 <= w < cards.len() && cards[w] == sorted[k2];
                assert(cols[c1].cards[k1].id != cols[c].cards[w].id);
            } else {
                assert(cols[c1].cards[k1].id != cols[c2].cards[k2].id);
            }
        }
    }
}

/// Sorting a column by due date keeps a board in good order.
pub proof fn law_sort_column_by_due_date_keeps_well_formed(b: BoardState, column_id: ColumnId, now: i64)
    requires
        well_formed(b),
    ensures
        well_formed(sort_column_by_due_date_spec(b, column_id, now).0),
{
    lemma_column_index(b.columns, column_id);
    let (after, r) = sort_column_by_due_date_spec(b, column_id, now);
    if r is Ok {
        let c = column_index(b.columns, column_id).unwrap();
        let cards = b.columns[c].cards;
        let sorted = sort_by_due(cards);
        let placed = set_cards(b.columns, c, sorted);
        lemma_sort_keeps_cards(cards);
        if r == Ok::<bool, crate::model::types::BoardError>(false) {
            // The same numbers in the same order: the same cards.
            assert forall|i: int| 0 <= i < cards.len() implies #[trigger] sorted[i] == cards[i] by {
                assert(card_ids(sorted)[i] == card_ids(cards)[i]);
                assert(has_card(cards, sorted[i]));
                let w = choose|w: int| 0 <= w < cards.len() && cards[w] == sorted[i];
                if w != i {
                    assert(b.columns[c].cards[w].id != b.columns[c].cards[i].id);
                }
            }
            assert(sorted =~= cards);
            assert(placed =~= b.columns);
        } else {
            let below = |x: CardView| x.id < b.next_card_id;
            let unarchived = |x: CardView| x.archived_at is None;
            let outside = |x: CardView| not_in_archive(b.archived_cards, x.id);
            assert(every_card(b.columns, below));
            assert(every_card(b.columns, unarchived));
            assert(every_card(b.columns, outside));
            lemma_sorted_column_keeps(b.columns, c, below);
            lemma_sorted_column_keeps(b.columns, c, unarchived);
            lemma_sorted_column_keeps(b.columns, c, outside);
            lemma_sorted_column_keeps(b.columns, c, tags_below_of(b.next_tag_id));
            lemma_sorted_column_keeps(b.columns, c, items_below_of(b.next_checklist_item_id));
            lemma_reindex_keeps(placed, below);
            lemma_reindex_keeps(placed, unarchived);
            lemma_reindex_keeps(placed, outside);
            lemma_reindex_keeps_numbers(placed, b.next_tag_id, b.next_checklist_item_id);
            lemma_reindex_idempotent(placed);
            let m = after.columns;
            assert(m == reindex_columns(placed));
            assert forall|j: int| 0 <= j < m.len() implies #[trigger] m[j].id == b.columns[j].id
                && m[j].cards.len() == b.columns[j].cards.len() by {
                assert(m[j].cards.len() == placed[j].cards.len());
            }
            assert forall|c2: int, k: int|
                0 <= c2 < m.len() && 0 <= k < m[c2].cards.len() implies #[trigger] m[c2].cards[k].id
                < after.next_card_id && (m[c2].cards[k].archived_at is None) by {
                assert(below(m[c2].cards[k]));
                assert(unarchived(m[c2].cards[k]));
            }
            assert forall|c2: int, k: int, i: int|
                0 <= c2 < m.len() && 0 <= k < m[c2].cards.len() && 0 <= i < after.archived_cards.len() implies #[trigger] m[c2].cards[k].id
                != #[trigger] after.archived_cards[i].id by {
                assert(outside(m[c2].cards[k]));
            }
        }
    }
}

} // verus!

verus! {

/// Sorting a column by due date, undoing it and doing it again gives the sorted order back.
pub proof fn law_redo_sort_column_by_due_date(
    b: BoardState,
    column_id: ColumnId,
    now: i64,
    later: i64,
    again: i64,
)
    requires
        well_formed(b),
        sort_column_by_due_date_spec(b, column_id, now).1 == Ok::<
            bool,
            crate::model::types::BoardError,
        >(true),
    ensures
        ({
            let sorted = sort_column_by_due_date_spec(b, column_id, now).0;
            let undone = undo_spec(sorted, later).0;
            let (redone, r) = redo_spec(undone, again);
            &&& r == Ok::<bool, crate::model::types::BoardError>(true)
            &&& redone.columns == sorted.columns
            &&& redone.tags == sorted.tags
            &&& redone.archived_cards == sorted.archived_cards
            &&& redone.undo_stack == sorted.undo_stack
            &&& redone.redo_stack.len() == 0
        }),
{
    law_undo_sort_column_by_due_date(b, column_id, now, later);
    lemma_column_index(b.columns, column_id);
    let c = column_index(b.columns, column_id).unwrap();
    let cards = b.columns[c].cards;
    let t = sort_by_due(cards);
    lemma_sort_keeps_cards(cards);
    let sorted = sort_column_by_due_date_spec(b, column_id, now).0;
    let undone = undo_spec(sorted, later).0;
    let order = card_ids(t);
    assert(ids_apart(cards)) by {
        assert forall|i: int, j: int| 0 <= i < j < cards.len() implies #[trigger] cards[i].id != #[trigger] cards[j].id by {
            assert(b.columns[c].cards[i].id != b.columns[c].cards[j].id);
        }
    }
    lemma_sorted_ids_apart(cards);
    assert forall|i: int, j: int| 0 <= i < j < order.len() implies #[trigger] order[i] != #[trigger] order[j] by {
        assert(t[i].id != t[j].id);
    }
    assert forall|j: int| 0 <= j < order.len() implies has_id(cards, #[trigger] order[j]) by {
        assert(has_card(cards, t[j]));
        let w = choose|w: int| 0 <= w < cards.len() && cards[w] == t[j];
        assert(cards[w].id == order[j]);
    }
    lemma_pick_in_order(cards, order);
    let (picked, left, _) = pick_in_order(cards, order);
    assert(left.len() == 0);
    // Each card is picked in its sorted place.
    assert forall|j: int| 0 <= j < t.len() implies #[trigger] picked[j] == t[j] by {
        assert(has_card(cards, picked[j]));
        let v = choose|v: int| 0 <= v < cards.len() && cards[v] == picked[j];
        assert(has_card(cards, t[j]));
        let w = choose|w: int| 0 <= w < cards.len() && cards[w] == t[j];
        if v != w {
            if v < w {
                assert(cards[v].id != cards[w].id);
            } else {
                assert(cards[w].id != cards[v].id);
            }
        }
    }
    assert(picked =~= t);
    assert(undone.redo_stack =~= seq![sorted.undo_stack.last()]);
    let popped = BoardState { redo_stack: undone.redo_stack.drop_last(), ..undone };
    assert(popped.undo_stack.push(sorted.undo_stack.last()) =~= sorted.undo_stack);
}

} // verus!

verus! {

/// Due date `a` comes no later than due date `b`: `b` is no date, or both are dates and
/// `a` is not after `b`.
pub open spec fn due_no_later(a: Option<DueDate>, b: Option<DueDate>) -> bool {
    match (a, b) {
        (_, None) => true,
        (Some(x), Some(y)) => x.days_from_ce <= y.days_from_ce,
        (None, Some(_)) => false,
    }
}

/// No card of `s` sorts before one that stands ahead of it.
pub open spec fn in_due_order(s: Seq<CardView>) -> bool {
    forall|i: int, j: int| 0 <= i < j < s.len() ==> !sorts_before(#[trigger] s[j], #[trigger] s[i])
}

/// Sorting before is an order: what sorts before `y` sorts before whatever `y` does not
/// sort after, and nothing sorts both before and after another.
proof fn lemma_sorts_before_order(x: CardView, y: CardView, z: CardView)
    ensures
        sorts_before(x, y) ==> !sorts_before(y, x),
        sorts_before(x, y) && !sorts_before(z, y) ==> !sorts_before(z, x),
{
}

/// Inserting by due date into cards in due order keeps them in due order.
proof fn lemma_insert_in_order(t: Seq<CardView>, x: CardView)
    requires
        in_due_order(t),
    ensures
        in_due_order(insert_by_due(t, x)),
    decreases t.len(),
{
    let s = insert_by_due(t, x);
    if t.len() == 0 {
    } else if sorts_before(x, t[0]) {
        assert(s == seq![x] + t);
        assert forall|i: int, j: int| 0 <= i < j < s.len() implies !sorts_before(#[trigger] s[j], #[trigger] s[i]) by {
            if i == 0 {
                lemma_sorts_before_order(x, t[0], s[j]);
                if j > 1 {
                    assert(!sorts_before(t[j - 1], t[0]));
                }
            } else {
                assert(s[i] == t[i - 1] && s[j] == t[j - 1]);
            }
        }
    } else {
        let rest = t.drop_first();
        assert(in_due_order(rest)) by {
            assert forall|i: int, j: int| 0 <= i < j < rest.len() implies !sorts_before(#[trigger] rest[j], #[trigger] rest[i]) by {
                assert(rest[i] == t[i + 1] && rest[j] == t[j + 1]);
            }
        }
        lemma_insert_in_order(rest, x);
        let inner = insert_by_due(rest, x);
        let p = lemma_insert_by_due_is_insert(rest, x);
        assert(s == seq![t[0]] + inner);
        assert forall|i: int, j: int| 0 <= i < j < s.len() implies !sorts_before(#[trigger] s[j], #[trigger] s[i]) by {
            if i == 0 {
                let e = inner[j - 1];
                if j - 1 < p {
                    assert(e == rest[j - 1] && rest[j - 1] == t[j]);
                } else if j - 1 > p {
                    assert(e == rest[j - 2] && rest[j - 2] == t[j - 1]);
                } else {
                    assert(e == x);
                }
            } else {
                assert(s[i] == inner[i - 1] && s[j] == inner[j - 1]);
            }
        }
    }
}

/// Sorting by due date puts the cards in due order.
proof fn lemma_sorted_in_order(cards: Seq<CardView>)
    ensures
        in_due_order(sort_by_due(cards)),
    decreases cards.len(),
{
    if cards.len() > 0 {
        lemma_sorted_in_order(cards.drop_last());
        lemma_insert_in_order(sort_by_due(cards.drop_last()), cards.last());
    }
}

/// Cards already in due order are sorted as they stand.
proof fn lemma_sort_of_ordered(cards: Seq<CardView>)
    requires
        in_due_order(cards),
    ensures
        sort_by_due(cards) == cards,
    decreases cards.len(),
{
    if cards.len() > 0 {
        let init = cards.drop_last();
        assert(in_due_order(init)) by {
            assert forall|i: int, j: int| 0 <= i < j < init.len() implies !sorts_before(#[trigger] init[j], #[trigger] init[i]) by {
                assert(init[i] == cards[i] && init[j] == cards[j]);
            }
        }
        lemma_sort_of_ordered(init);
        let x = cards.last();
        assert forall|k: int| 0 <= k < init.len() implies !sorts_before(x, #[trigger] init[k]) by {
            assert(init[k] == cards[k]);
            assert(!sorts_before(cards[cards.len() - 1], cards[k]));
        }
        lemma_insert_by_due_at(init, x, init.len() as int);
        assert(init.insert(init.len() as int, x) =~= cards);
    }
}

/// What sorting leaves in the sorted column: the sorted cards, put in order or as they
/// were; and when the order did not change, the board as it was.
proof fn lemma_sorted_column(b: BoardState, column_id: ColumnId, now: i64, c: int)
    requires
        well_formed(b),
        sort_column_by_due_date_spec(b, column_id, now).1 is Ok,
        0 <= c < b.columns.len(),
        b.columns[c].id == column_id,
    ensures
        ({
            let after = sort_column_by_due_date_spec(b, column_id, now).0;
            let t = sort_by_due(b.columns[c].cards);
            &&& column_index(b.columns, column_id) == Some(c)
            &&& after.columns.len() == b.columns.len()
            &&& after.columns[c].id == column_id
            &&& after.columns[c].cards.len() == t.len()
            &&& forall|i: int| 0 <= i < t.len() ==> (#[trigger] after.columns[c].cards[i]).id == t[i].id
                && after.columns[c].cards[i].due_date == t[i].due_date
                && after.columns[c].cards[i].position == i
            &&& forall|j: int| 0 <= j < b.columns.len() ==> #[trigger] after.columns[j].id == b.columns[j].id
            &&& sort_column_by_due_date_spec(b, column_id, now).1 == Ok::<bool, crate::model::types::BoardError>(false)
                ==> after == b
        }),
{
    assert forall|c2: int| 0 <= c2 < b.columns.len() && c2 != c implies #[trigger] b.columns[c2].id != column_id by {
        if c2 < c {
            assert(b.columns[c2].id != b.columns[c].id);
        } else {
            assert(b.columns[c].id != b.columns[c2].id);
        }
    }
    lemma_column_index(b.columns, column_id);
    let cards = b.columns[c].cards;
    let t = sort_by_due(cards);
    lemma_sort_keeps_cards(cards);
    let after = sort_column_by_due_date_spec(b, column_id, now).0;
    assert(reindex_columns(b.columns)[c] == b.columns[c]);
    if card_ids(t) == card_ids(cards) {
        assert forall|i: int| 0 <= i < cards.len() implies #[trigger] t[i] == cards[i] by {
            assert(card_ids(t)[i] == card_ids(cards)[i]);
            assert(has_card(cards, t[i]));
            let w = choose|w: int| 0 <= w < cards.len() && cards[w] == t[i];
            if w != i {
                assert(b.columns[c].cards[w].id != b.columns[c].cards[i].id);
            }
        }
        assert(t =~= cards);
        assert(set_cards(b.columns, c, t) =~= b.columns);
        assert forall|i: int| 0 <= i < t.len() implies (#[trigger] after.columns[c].cards[i]).position == i by {
            assert(reindex_columns(b.columns)[c].cards[i] == reindex_card(cards[i], column_id, i));
        }
    }
}

/// Sorting a column by due date is stable: the cards come out with the dated ones first,
/// earliest first, and the undated last; and cards with the same due date, or none, keep
/// the order they stood in.
pub proof fn law_sort_by_due_is_stable(b: BoardState, column_id: ColumnId, now: i64)
    requires
        well_formed(b),
        sort_column_by_due_date_spec(b, column_id, now).1 is Ok,
    ensures
        forall|c: int|
            0 <= c < b.columns.len() && (#[trigger] b.columns[c]).id == column_id ==> {
                let cards = b.columns[c].cards;
                let out = sort_column_by_due_date_spec(b, column_id, now).0.columns[c].cards;
                &&& out.len() == cards.len()
                &&& forall|i: int, j: int|
                    0 <= i < j < out.len() ==> due_no_later((#[trigger] out[i]).due_date, (#[trigger] out[j]).due_date)
                &&& forall|p: int, q: int, i: int, j: int|
                    0 <= p < q < cards.len() && cards[p].due_date == cards[q].due_date && 0 <= i
                        < out.len() && 0 <= j < out.len() && (#[trigger] out[i]).id == (#[trigger] cards[p]).id
                        && (#[trigger] out[j]).id == (#[trigger] cards[q]).id ==> i < j
            },
{
    assert forall|c: int|
        0 <= c < b.columns.len() && (#[trigger] b.columns[c]).id == column_id implies {
            let cards = b.columns[c].cards;
            let out = sort_column_by_due_date_spec(b, column_id, now).0.columns[c].cards;
            &&& out.len() == cards.len()
            &&& forall|i: int, j: int|
                0 <= i < j < out.len() ==> due_no_later((#[trigger] out[i]).due_date, (#[trigger] out[j]).due_date)
            &&& forall|p: int, q: int, i: int, j: int|
                0 <= p < q < cards.len() && cards[p].due_date == cards[q].due_date && 0 <= i
                    < out.len() && 0 <= j < out.len() && (#[trigger] out[i]).id == (#[trigger] cards[p]).id
                    && (#[trigger] out[j]).id == (#[trigger] cards[q]).id ==> i < j
        } by {
        lemma_sorted_column(b, column_id, now, c);
        let cards = b.columns[c].cards;
        let t = sort_by_due(cards);
        let out = sort_column_by_due_date_spec(b, column_id, now).0.columns[c].cards;
        lemma_sorted_in_order(cards);
        lemma_sort_keeps_cards(cards);
        assert forall|i: int, j: int|
            0 <= i < j < out.len() implies due_no_later((#[trigger] out[i]).due_date, (#[trigger] out[j]).due_date) by {
            assert(!sorts_before(t[j], t[i]));
        }
        assert forall|p: int, q: int, i: int, j: int|
            0 <= p < q < cards.len() && cards[p].due_date == cards[q].due_date && 0 <= i < out.len()
                && 0 <= j < out.len() && (#[trigger] out[i]).id == (#[trigger] cards[p]).id
                && (#[trigger] out[j]).id == (#[trigger] cards[q]).id implies i < j by {
            // The sorted cards are the column's cards, each where its number says.
            assert(has_card(cards, t[i]));
            let v = choose|v: int| 0 <= v < cards.len() && cards[v] == t[i];
            assert(has_card(cards, t[j]));
            let w = choose|w: int| 0 <= w < cards.len() && cards[w] == t[j];
            if v != p {
                if v < p {
                    assert(b.columns[c].cards[v].id != b.columns[c].cards[p].id);
                } else {
                    assert(b.columns[c].cards[p].id != b.columns[c].cards[v].id);
                }
            }
            if w != q {
                if w < q {
                    assert(b.columns[c].cards[w].id != b.columns[c].cards[q].id);
                } else {
                    assert(b.columns[c].cards[q].id != b.columns[c].cards[w].id);
                }
            }
            assert(reindex_columns(b.columns)[c].cards[p] == reindex_card(cards[p], column_id, p));
            assert(reindex_columns(b.columns)[c].cards[q] == reindex_card(cards[q], column_id, q));
            assert(cards[p].position == p && cards[q].position == q);
            assert(b.columns[c].cards[p].id != b.columns[c].cards[q].id);
            if j < i {
                assert(!sorts_before(t[i], t[j]));
            }
        }
    }
}

/// Sorting a column that was just sorted changes nothing and answers `Ok(false)`.
pub proof fn law_sort_twice_changes_nothing(b: BoardState, column_id: ColumnId, now: i64, later: i64)
    requires
        well_formed(b),
        sort_column_by_due_date_spec(b, column_id, now).1 is Ok,
    ensures
        ({
            let after = sort_column_by_due_date_spec(b, column_id, now).0;
            sort_column_by_due_date_spec(after, column_id, later) == (after, Ok::<bool, crate::model::types::BoardError>(false))
        }),
{
    lemma_column_index(b.columns, column_id);
    let c = column_index(b.columns, column_id).unwrap();
    lemma_sorted_column(b, column_id, now, c);
    let cards = b.columns[c].cards;
    let t = sort_by_due(cards);
    lemma_sorted_in_order(cards);
    let after = sort_column_by_due_date_spec(b, column_id, now).0;
    let out = after.columns[c].cards;
    assert(in_due_order(out)) by {
        assert forall|i: int, j: int| 0 <= i < j < out.len() implies !sorts_before(#[trigger] out[j], #[trigger] out[i]) by {
            assert(!sorts_before(t[j], t[i]));
        }
    }
    lemma_sort_of_ordered(out);
    assert forall|c2: int| 0 <= c2 < after.columns.len() && c2 != c implies #[trigger] after.columns[c2].id != column_id by {
        assert(after.columns[c2].id == b.columns[c2].id);
        if c2 < c {
            assert(b.columns[c2].id != b.columns[c].id);
        } else {
            assert(b.columns[c].id != b.columns[c2].id);
        }
    }
    lemma_column_index(after.columns, column_id);
    assert(set_cards(after.columns, c, out) =~= after.columns);
}

} // verus!
