//! Boards that differ only in what putting them in order rewrites (places and owners)
//! stay so under the edits that undo and redo are made of.
use vstd::prelude::*;
use crate::model::spec::{
    insert_card_at, reindex_card, reindex_cards, reindex_columns, reindex_items, remove_card_at,
    set_card_at,
};
use crate::model::types::{CardView, ColumnId, ColumnView};

verus! {

/// Two cards that agree once put in order at one place agree at every place.
pub proof fn lemma_card_alike(x: CardView, y: CardView, c1: ColumnId, p1: int, c2: ColumnId, p2: int)
    requires
        reindex_card(x, c1, p1) == reindex_card(y, c1, p1),
    ensures
        reindex_card(x, c2, p2) == reindex_card(y, c2, p2),
{
    assert(x.id == reindex_card(x, c1, p1).id);
    assert(reindex_items(x.id, x.checklist_items) == reindex_card(x, c1, p1).checklist_items);
}

/// Putting in order twice is putting in order once.
pub proof fn lemma_reindex_idempotent(a: Seq<ColumnView>)
    ensures
        reindex_columns(reindex_columns(a)) == reindex_columns(a),
{
    let r = reindex_columns(a);
    assert forall|j: int| 0 <= j < a.len() implies #[trigger] reindex_columns(r)[j] == r[j] by {
        assert forall|i: int| 0 <= i < a[j].cards.len() implies #[trigger] reindex_columns(r)[j].cards[i]
            == r[j].cards[i] by {
            let card = a[j].cards[i];
            assert(reindex_items(card.id, reindex_items(card.id, card.checklist_items))
                =~= reindex_items(card.id, card.checklist_items));
        }
        assert(reindex_columns(r)[j].cards =~= r[j].cards);
    }
    assert(reindex_columns(r) =~= r);
}

/// Inserting the same card at the same place keeps two alike boards alike.
pub proof fn lemma_insert_alike(a: Seq<ColumnView>, b: Seq<ColumnView>, c: int, k: int, x: CardView)
    requires
        reindex_columns(a) == reindex_columns(b),
        0 <= c < a.len(),
        0 <= k <= a[c].cards.len(),
    ensures
        reindex_columns(insert_card_at(a, c, k, x)) == reindex_columns(insert_card_at(b, c, k, x)),
{
    let ra = reindex_columns(a);
    let rb = reindex_columns(b);
    assert(a.len() == ra.len() && b.len() == rb.len());
    let ia = insert_card_at(a, c, k, x);
    let ib = insert_card_at(b, c, k, x);
    let la = reindex_columns(ia);
    let lb = reindex_columns(ib);
    assert forall|j: int| 0 <= j < a.len() implies #[trigger] la[j] == lb[j] by {
        assert(ra[j] == rb[j]);
        assert(a[j].id == ra[j].id && b[j].id == rb[j].id);
        if j == c {
            assert(a[c].cards.len() == ra[c].cards.len() && b[c].cards.len() == rb[c].cards.len());
            assert forall|i: int| 0 <= i < ia[c].cards.len() implies #[trigger] la[c].cards[i]
                == lb[c].cards[i] by {
                if i < k {
                    assert(ra[c].cards[i] == rb[c].cards[i]);
                } else if i > k {
                    assert(ra[c].cards[i - 1] == rb[c].cards[i - 1]);
                    lemma_card_alike(a[c].cards[i - 1], b[c].cards[i - 1], a[c].id, i - 1, a[c].id, i);
                }
            }
            assert(la[c].cards =~= lb[c].cards);
        } else {
            assert(la[j].cards =~= ra[j].cards);
            assert(lb[j].cards =~= rb[j].cards);
        }
    }
    assert(la =~= lb);
}

/// Removing the card at the same place keeps two alike boards alike.
pub proof fn lemma_remove_alike(a: Seq<ColumnView>, b: Seq<ColumnView>, c: int, k: int)
    requires
        reindex_columns(a) == reindex_columns(b),
        0 <= c < a.len(),
        0 <= k < a[c].cards.len(),
    ensures
        reindex_columns(remove_card_at(a, c, k)) == reindex_columns(remove_card_at(b, c, k)),
{
    let ra = reindex_columns(a);
    let rb = reindex_columns(b);
    assert(a.len() == ra.len() && b.len() == rb.len());
    let ia = remove_card_at(a, c, k);
    let ib = remove_card_at(b, c, k);
    let la = reindex_columns(ia);
    let lb = reindex_columns(ib);
    assert forall|j: int| 0 <= j < a.len() implies #[trigger] la[j] == lb[j] by {
        assert(ra[j] == rb[j]);
        assert(a[j].id == ra[j].id && b[j].id == rb[j].id);
        if j == c {
            assert(a[c].cards.len() == ra[c].cards.len() && b[c].cards.len() == rb[c].cards.len());
            assert forall|i: int| 0 <= i < ia[c].cards.len() implies #[trigger] la[c].cards[i]
                == lb[c].cards[i] by {
                if i < k {
                    assert(ra[c].cards[i] == rb[c].cards[i]);
                } else {
                    assert(ra[c].cards[i + 1] == rb[c].cards[i + 1]);
                    lemma_card_alike(a[c].cards[i + 1], b[c].cards[i + 1], a[c].id, i + 1, a[c].id, i);
                }
            }
            assert(la[c].cards =~= lb[c].cards);
        } else {
            assert(la[j].cards =~= ra[j].cards);
            assert(lb[j].cards =~= rb[j].cards);
        }
    }
    assert(la =~= lb);
}

/// Setting alike cards at the same place gives alike boards.
pub proof fn lemma_set_alike(a: Seq<ColumnView>, c: int, k: int, x: CardView, y: CardView)
    requires
        0 <= c < a.len(),
        0 <= k < a[c].cards.len(),
        reindex_card(x, a[c].id, k) == reindex_card(y, a[c].id, k),
    ensures
        reindex_columns(set_card_at(a, c, k, x)) == reindex_columns(set_card_at(a, c, k, y)),
{
    let la = reindex_columns(set_card_at(a, c, k, x));
    let lb = reindex_columns(set_card_at(a, c, k, y));
    assert forall|j: int| 0 <= j < a.len() implies #[trigger] la[j] == lb[j] by {
        assert(la[j].cards =~= lb[j].cards);
    }
    assert(la =~= lb);
}

/// Taking out a card just put in gives back the columns.
pub proof fn lemma_remove_inserted(a: Seq<ColumnView>, c: int, k: int, x: CardView)
    requires
        0 <= c < a.len(),
        0 <= k <= a[c].cards.len(),
    ensures
        remove_card_at(insert_card_at(a, c, k, x), c, k) == a,
{
    assert(a[c].cards.insert(k, x).remove(k) =~= a[c].cards);
    assert(remove_card_at(insert_card_at(a, c, k, x), c, k) =~= a);
}

/// Putting back at its place a card just taken out is setting that place.
pub proof fn lemma_insert_removed(a: Seq<ColumnView>, c: int, k: int, x: CardView)
    requires
        0 <= c < a.len(),
        0 <= k < a[c].cards.len(),
    ensures
        insert_card_at(remove_card_at(a, c, k), c, k, x) == set_card_at(a, c, k, x),
{
    assert(a[c].cards.remove(k).insert(k, x) =~= a[c].cards.update(k, x));
    assert(insert_card_at(remove_card_at(a, c, k), c, k, x) =~= set_card_at(a, c, k, x));
}

/// Columns already in order stay in order when a card in order is set among them.
pub proof fn lemma_set_in_order(a: Seq<ColumnView>, c: int, k: int, x: CardView)
    requires
        reindex_columns(a) == a,
        0 <= c < a.len(),
        0 <= k < a[c].cards.len(),
        reindex_card(x, a[c].id, k) == x,
    ensures
        reindex_columns(set_card_at(a, c, k, x)) == set_card_at(a, c, k, x),
{
    let s = set_card_at(a, c, k, x);
    let r = reindex_columns(s);
    assert forall|j: int| 0 <= j < a.len() implies #[trigger] r[j] == s[j] by {
        assert(reindex_columns(a)[j] == a[j]);
        assert forall|i: int| 0 <= i < s[j].cards.len() implies #[trigger] r[j].cards[i] == s[j].cards[i] by {
            if j != c || i != k {
                assert(reindex_columns(a)[j].cards[i] == a[j].cards[i]);
            }
        }
        assert(r[j].cards =~= s[j].cards);
    }
    assert(r =~= s);
}

} // verus!

verus! {

/// Columns in order stay in order when a card in order goes at the end of one of them.
pub proof fn lemma_push_in_order(a: Seq<ColumnView>, c: int, x: CardView)
    requires
        reindex_columns(a) == a,
        0 <= c < a.len(),
        reindex_card(x, a[c].id, a[c].cards.len() as int) == x,
    ensures
        reindex_columns(insert_card_at(a, c, a[c].cards.len() as int, x)) == insert_card_at(
            a,
            c,
            a[c].cards.len() as int,
            x,
        ),
{
    let s = insert_card_at(a, c, a[c].cards.len() as int, x);
    let r = reindex_columns(s);
    assert forall|j: int| 0 <= j < a.len() implies #[trigger] r[j] == s[j] by {
        assert(reindex_columns(a)[j] == a[j]);
        assert forall|i: int| 0 <= i < s[j].cards.len() implies #[trigger] r[j].cards[i] == s[j].cards[i] by {
            if j != c || i != a[c].cards.len() {
                assert(reindex_columns(a)[j].cards[i] == a[j].cards[i]);
            }
        }
        assert(r[j].cards =~= s[j].cards);
    }
    assert(r =~= s);
}

} // verus!

verus! {

/// A column put in order at place `p`.
pub open spec fn column_in_order_at(x: ColumnView, p: int) -> ColumnView {
    ColumnView { position: p as i64, cards: reindex_cards(x.id, x.cards), ..x }
}

/// Taking out the column at the same place keeps two alike boards alike.
pub proof fn lemma_remove_column_alike(a: Seq<ColumnView>, b: Seq<ColumnView>, i: int)
    requires
        reindex_columns(a) == reindex_columns(b),
        0 <= i < a.len(),
    ensures
        reindex_columns(a.remove(i)) == reindex_columns(b.remove(i)),
{
    let ra = reindex_columns(a);
    let rb = reindex_columns(b);
    assert(a.len() == ra.len() && b.len() == rb.len());
    let la = reindex_columns(a.remove(i));
    let lb = reindex_columns(b.remove(i));
    assert forall|j: int| 0 <= j < a.len() - 1 implies #[trigger] la[j] == lb[j] by {
        let k = if j < i {
            j
        } else {
            j + 1
        };
        assert(ra[k] == rb[k]);
        assert(a.remove(i)[j] == a[k] && b.remove(i)[j] == b[k]);
    }
    assert(la =~= lb);
}

/// Putting columns that are alike at the same place of alike boards gives alike boards.
pub proof fn lemma_insert_column_alike(
    a: Seq<ColumnView>,
    b: Seq<ColumnView>,
    i: int,
    x: ColumnView,
    y: ColumnView,
)
    requires
        reindex_columns(a) == reindex_columns(b),
        0 <= i <= a.len(),
        column_in_order_at(x, i) == column_in_order_at(y, i),
    ensures
        reindex_columns(a.insert(i, x)) == reindex_columns(b.insert(i, y)),
{
    let ra = reindex_columns(a);
    let rb = reindex_columns(b);
    assert(a.len() == ra.len() && b.len() == rb.len());
    let la = reindex_columns(a.insert(i, x));
    let lb = reindex_columns(b.insert(i, y));
    assert forall|j: int| 0 <= j < a.len() + 1 implies #[trigger] la[j] == lb[j] by {
        if j < i {
            assert(ra[j] == rb[j]);
        } else if j > i {
            assert(ra[j - 1] == rb[j - 1]);
            assert(a.insert(i, x)[j] == a[j - 1] && b.insert(i, y)[j] == b[j - 1]);
        } else {
            assert(la[j] == column_in_order_at(x, i));
            assert(lb[j] == column_in_order_at(y, i));
        }
    }
    assert(la =~= lb);
}

} // verus!
