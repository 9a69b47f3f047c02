//! Sorting a column's cards by due date.
use vstd::prelude::*;
use crate::date::DueDate;
use crate::model::board::{find_column_index, lemma_columns_view_set_cards, timestamp};
use crate::model::spec::{
    column_index, lemma_column_index, push_operation, reindex_columns, set_cards, touch,
    with_columns,
};
use crate::model::tags::ids_eq;
use crate::model::types::{
    cards_view, Board, BoardError, BoardOperation, BoardState, Card, CardId, CardView, ColumnId,
    OperationView,
};

verus! {

/// Whether due date `a` comes before due date `b`, a card with no due date coming after
/// every card with one.
pub open spec fn due_before(a: Option<DueDate>, b: Option<DueDate>) -> bool {
    match (a, b) {
        (Some(x), Some(y)) => x.days_from_ce < y.days_from_ce,
        (Some(_), None) => true,
        _ => false,
    }
}

/// Whether card `a` sorts before card `b`: by due date, then by position.
pub open spec fn sorts_before(a: CardView, b: CardView) -> bool {
    due_before(a.due_date, b.due_date) || (a.due_date == b.due_date && a.position < b.position)
}

/// `x` put into `t` before the first card that it sorts before.
pub open spec fn insert_by_due(t: Seq<CardView>, x: CardView) -> Seq<CardView>
    decreases t.len(),
{
    if t.len() == 0 {
        seq![x]
    } else if sorts_before(x, t[0]) {
        seq![x] + t
    } else {
        seq![t[0]] + insert_by_due(t.drop_first(), x)
    }
}

/// `cards` sorted by due date, then position; cards that tie keep their order.
pub open spec fn sort_by_due(cards: Seq<CardView>) -> Seq<CardView>
    decreases cards.len(),
{
    if cards.len() == 0 {
        seq![]
    } else {
        insert_by_due(sort_by_due(cards.drop_last()), cards.last())
    }
}

/// The ids of `cards`, in order.
pub open spec fn card_ids(cards: Seq<CardView>) -> Seq<CardId> {
    Seq::new(cards.len(), |i: int| cards[i].id)
}

/// Sorting the cards of column `column_id` by due date, cards with no due date last and
/// ties kept in position order. An order that does not change answers `Ok(false)`.
pub open spec fn sort_column_by_due_date_spec(b: BoardState, column_id: ColumnId, now: i64) -> (
    BoardState,
    Result<bool, BoardError>,
) {
    match column_index(b.columns, column_id) {
        None => (b, Err(BoardError::ColumnNotFound(column_id))),
        Some(c) => {
            let cards = b.columns[c].cards;
            let sorted = sort_by_due(cards);
            let placed = with_columns(b, set_cards(b.columns, c, sorted));
            if card_ids(sorted) == card_ids(cards) {
                (placed, Ok(false))
            } else {
                (
                    push_operation(
                        touch(with_columns(placed, reindex_columns(placed.columns)), now),
                        OperationView::SortColumnByDueDate {
                            column_id,
                            before_order: card_ids(cards),
                            after_order: card_ids(sorted),
                        },
                    ),
                    Ok(true),
                )
            }
        },
    }
}

pub proof fn lemma_insert_by_due_at(t: Seq<CardView>, x: CardView, j: int)
    requires
        0 <= j <= t.len(),
        forall|k: int| 0 <= k < j ==> !sorts_before(x, #[trigger] t[k]),
        j < t.len() ==> sorts_before(x, t[j]),
    ensures
        insert_by_due(t, x) == t.insert(j, x),
    decreases t.len(),
{
    if t.len() == 0 {
        assert(t.insert(0, x) =~= seq![x]);
    } else if j == 0 {
        assert(t.insert(0, x) =~= seq![x] + t);
    } else {
        let rest = t.drop_first();
        assert(!sorts_before(x, t[0]));
        assert forall|k: int| 0 <= k < j - 1 implies !sorts_before(x, #[trigger] rest[k]) by {
            assert(rest[k] == t[k + 1]);
        }
        lemma_insert_by_due_at(rest, x, j - 1);
        assert(seq![t[0]] + rest.insert(j - 1, x) =~= t.insert(j, x));
    }
}

/// Whether card `a` sorts before card `b`.
fn card_sorts_before(a: &Card, b: &Card) -> (r: bool)
    ensures
        r == sorts_before(a@, b@),
{
    let before = match (a.due_date, b.due_date) {
        (Some(x), Some(y)) => x.days_from_ce < y.days_from_ce,
        (Some(_), None) => true,
        _ => false,
    };
    let same = match (a.due_date, b.due_date) {
        (Some(x), Some(y)) => x.days_from_ce == y.days_from_ce,
        (None, None) => true,
        _ => false,
    };
    before || (same && a.position < b.position)
}

/// `cards` sorted by due date, then position, ties kept in order.
fn sort_cards_by_due(cards: Vec<Card>) -> (r: Vec<Card>)
    ensures
        cards_view(r@) == sort_by_due(cards_view(cards@)),
{
    let ghost all = cards_view(cards@);
    let mut rest = cards;
    let mut out: Vec<Card> = Vec::new();
    let ghost mut done: int = 0;
    while rest.len() > 0
        invariant
            0 <= done <= all.len(),
            cards_view(rest@) == all.skip(done),
            cards_view(out@) == sort_by_due(all.take(done)),
        decreases rest.len(),
    {
        let ghost old_rest = rest@;
        assert(cards_view(old_rest).len() == old_rest.len());
        assert(done < all.len());
        assert(cards_view(old_rest)[0] == old_rest[0]@);
        let x = rest.remove(0);
        proof {
            assert(x@ == all[done]);
            assert(all.take(done + 1).drop_last() =~= all.take(done));
            assert(rest@ =~= old_rest.subrange(1, old_rest.len() as int));
            assert forall|i: int| 0 <= i < rest@.len() implies #[trigger] cards_view(rest@)[i]
                == all.skip(done + 1)[i] by {
                assert(cards_view(rest@)[i] == rest@[i]@);
                assert(rest@[i] == old_rest[i + 1]);
                assert(cards_view(old_rest)[i + 1] == old_rest[i + 1]@);
                assert(all.skip(done)[i + 1] == all[done + 1 + i]);
            }
            assert(cards_view(rest@) =~= all.skip(done + 1));
        }
        let mut j: usize = 0;
        while j < out.len() && !card_sorts_before(&x, &out[j])
            invariant
                j <= out@.len(),
                forall|k: int| 0 <= k < j ==> !sorts_before(x@, #[trigger] cards_view(out@)[k]),
            decreases out.len() - j,
        {
            j += 1;
        }
        let ghost before = out@;
        proof {
            lemma_insert_by_due_at(cards_view(before), x@, j as int);
        }
        out.insert(j, x);
        assert(cards_view(out@) =~= cards_view(before).insert(j as int, x@));
        proof {
            done = done + 1;
        }
    }
    assert(all.take(done) =~= all);
    out
}

/// The ids of `cards`, in order.
fn ids_of(cards: &Vec<Card>) -> (r: Vec<CardId>)
    ensures
        r@ == card_ids(cards_view(cards@)),
{
    let mut r: Vec<CardId> = Vec::new();
    let mut i: usize = 0;
    while i < cards.len()
        invariant
            i <= cards@.len(),
            r@ == card_ids(cards_view(cards@)).take(i as int),
        decreases cards.len() - i,
    {
        r.push(cards[i].id);
        i += 1;
        assert(r@ =~= card_ids(cards_view(cards@)).take(i as int));
    }
    assert(card_ids(cards_view(cards@)).take(i as int) =~= card_ids(cards_view(cards@)));
    r
}

impl Board {
    /// Sorts the cards of column `column_id` by due date, cards with no due date last and
    /// ties kept in position order. An order that does not change answers `Ok(false)`.
    /// Can be undone.
    pub fn sort_column_by_due_date(&mut self, column_id: ColumnId) -> (r: Result<bool, BoardError>)
        ensures
            final(self)@ == sort_column_by_due_date_spec(old(self)@, column_id, final(self)@.updated_at).0,
            r == sort_column_by_due_date_spec(old(self)@, column_id, final(self)@.updated_at).1,
    {
        proof {
            lemma_column_index(self@.columns, column_id);
        }
        let c = match find_column_index(&self.columns, column_id) {
            Some(c) => c,
            None => return Err(BoardError::ColumnNotFound(column_id)),
        };
        let ghost old_view = self@;
        let before_order = ids_of(&self.columns[c].cards);
        let mut cards: Vec<Card> = Vec::new();
        std::mem::swap(&mut cards, &mut self.columns[c].cards);
        let sorted = sort_cards_by_due(cards);
        let after_order = ids_of(&sorted);
        let ghost before = self.columns@;
        self.columns[c].cards = sorted;
        proof {
            lemma_columns_view_set_cards(before, self.columns@, c as int);
            assert(set_cards(crate::model::types::columns_view(before), c as int, cards_view(self.columns@[c as int].cards@))
                =~= set_cards(old_view.columns, c as int, sort_by_due(old_view.columns[c as int].cards)));
        }
        if ids_eq(&after_order, &before_order) {
            assert(self@ =~= sort_column_by_due_date_spec(old_view, column_id, self@.updated_at).0);
            return Ok(false);
        }
        self.reindex();
        let now = timestamp();
        self.updated_at = now;
        self.push_operation(BoardOperation::SortColumnByDueDate { column_id, before_order, after_order });
        Ok(true)
    }
}

} // verus!
