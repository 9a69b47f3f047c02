//! Archiving a whole column, undoing and redoing it: the cards come back out of the archive
//! one by one, each to its old place, until the column and the archive are as they were;
//! doing it again sends them back one by one, each to the end of the archive.
use vstd::prelude::*;
use crate::model::cards::{archive_column_spec, archived_at};
use crate::model::alike::{lemma_reindex_idempotent, lemma_remove_alike};
use crate::model::laws::{lemma_card_location_unique, well_formed};
use crate::model::raw_spec::remove_archived_spec;
use crate::model::replay_spec::{archive_column_steps, redo_spec, undo_spec};
use crate::model::spec::{
    card_index, column_index, insert_card_at, lemma_card_index, lemma_column_index,
    reindex_card, reindex_cards, reindex_columns, remove_card_at, set_cards,
};
use crate::model::types::{ArchivedCardView, BoardState, CardView, ColumnId};

verus! {

/// The record an archived column keeps of its cards.
pub open spec fn archived_column_ops(cards: Seq<CardView>, now: i64) -> Seq<ArchivedCardView> {
    Seq::new(
        cards.len(),
        |i: int| ArchivedCardView { card: cards[i], archived_card: archived_at(cards, now)[i], index: i as usize },
    )
}

/// The board after the first `j` cards of column `c` are back: the column holds them, and
/// the archive the rest.
pub open spec fn partly_back(b: BoardState, start: BoardState, c: int, now: i64, j: int) -> BoardState {
    BoardState {
        columns: set_cards(b.columns, c, b.columns[c].cards.take(j)),
        archived_cards: b.archived_cards + archived_at(b.columns[c].cards, now).skip(j),
        ..start
    }
}

/// A prefix of the cards of a column in order is in order.
proof fn lemma_prefix_in_order(b: BoardState, c: int, j: int)
    requires
        well_formed(b),
        0 <= c < b.columns.len(),
        0 <= j <= b.columns[c].cards.len(),
    ensures
        reindex_columns(set_cards(b.columns, c, b.columns[c].cards.take(j))) == set_cards(
            b.columns,
            c,
            b.columns[c].cards.take(j),
        ),
{
    let s = set_cards(b.columns, c, b.columns[c].cards.take(j));
    let r = reindex_columns(s);
    assert forall|i: int| 0 <= i < s.len() implies #[trigger] r[i] == s[i] by {
        assert(reindex_columns(b.columns)[i] == b.columns[i]);
        assert forall|k: int| 0 <= k < s[i].cards.len() implies #[trigger] r[i].cards[k] == s[i].cards[k] by {
            assert(reindex_columns(b.columns)[i].cards[k] == b.columns[i].cards[k]);
        }
        assert(r[i].cards =~= s[i].cards);
    }
    assert(r =~= s);
}

proof fn lemma_steps_back(
    b: BoardState,
    start: BoardState,
    c: int,
    column_id: ColumnId,
    now: i64,
    j: int,
)
    requires
        well_formed(b),
        0 <= c < b.columns.len(),
        b.columns[c].id == column_id,
        column_index(b.columns, column_id) == Some(c),
        0 <= j <= b.columns[c].cards.len(),
        start == partly_back(b, start, c, now, 0),
    ensures
        archive_column_steps(
            start,
            archived_column_ops(b.columns[c].cards, now).take(j),
            b.archived_cards.len() as usize,
            true,
        ) == (partly_back(b, start, c, now, j), Ok::<(), crate::model::types::BoardError>(())),
    decreases j,
{
    let cards = b.columns[c].cards;
    let ops = archived_column_ops(cards, now);
    if j == 0 {
        assert(ops.take(0) =~= Seq::<ArchivedCardView>::empty());
    } else {
        lemma_steps_back(b, start, c, column_id, now, j - 1);
        assert(ops.take(j).drop_last() =~= ops.take(j - 1));
        let op = ops[j - 1];
        assert(ops.take(j).last() == op);
        let prev = partly_back(b, start, c, now, j - 1);
        let card = cards[j - 1];
        let old = b.archived_cards;
        let rest = archived_at(cards, now).skip(j - 1);
        // The card is the first in the archive with its number.
        assert(prev.archived_cards == old + rest);
        assert(rest[0].id == card.id);
        assert forall|i: int| 0 <= i < old.len() implies #[trigger] old[i].id != card.id by {
            assert(b.columns[c].cards[j - 1].id != b.archived_cards[i].id);
        }
        lemma_card_index(prev.archived_cards, card.id);
        assert(card_index(prev.archived_cards, card.id) == Some(old.len() as int)) by {
            let found = card_index(prev.archived_cards, card.id);
            if found is Some && found->0 < old.len() {
                assert(prev.archived_cards[found->0] == old[found->0]);
            }
            assert(prev.archived_cards[old.len() as int] == rest[0]);
        }
        let taken = remove_archived_spec(prev, card.id).0;
        assert(taken.archived_cards =~= old + archived_at(cards, now).skip(j)) by {
            assert forall|i: int| 0 <= i < taken.archived_cards.len() implies #[trigger] taken.archived_cards[i]
                == (old + archived_at(cards, now).skip(j))[i] by {
                if i >= old.len() {
                    assert(taken.archived_cards[i] == prev.archived_cards[i + 1]);
                }
            }
        }
        // The card goes back to its column, at its place.
        assert(reindex_columns(b.columns)[c].cards[j - 1] == reindex_card(card, b.columns[c].id, j - 1));
        assert(card.column_id == column_id);
        assert forall|c2: int| 0 <= c2 < taken.columns.len() && c2 != c implies #[trigger] taken.columns[c2].id
            != column_id by {
            assert(taken.columns[c2].id == b.columns[c2].id);
            if c2 < c {
            } else {
                assert(b.columns[c].id != b.columns[c2].id);
            }
        }
        lemma_column_index(taken.columns, column_id);
        assert(column_index(taken.columns, column_id) == Some(c)) by {
            let found = column_index(taken.columns, column_id);
            assert(taken.columns[c].id == column_id);
        }
        assert(taken.columns[c].cards.len() == j - 1);
        assert(card.archived_at is None);
        assert(CardView { archived_at: None, ..card } == card);
        assert(insert_card_at(taken.columns, c, j - 1, card) =~= set_cards(b.columns, c, cards.take(j))) by {
            assert(cards.take(j - 1).insert(j - 1, card) =~= cards.take(j));
        }
        lemma_prefix_in_order(b, c, j);
        assert((op.index as int) == j - 1);
    }
}

/// Archiving a column and then undoing it gives back the columns and the archive exactly:
/// every card back in its column at its place.
pub proof fn law_undo_archive_column(b: BoardState, column_id: ColumnId, now: i64, later: i64)
    requires
        well_formed(b),
        archive_column_spec(b, column_id, now).1 matches Ok(n) && n > 0,
    ensures
        ({
            let archived = archive_column_spec(b, column_id, now).0;
            let (undone, r) = undo_spec(archived, later);
            &&& r == Ok::<bool, crate::model::types::BoardError>(true)
            &&& undone.columns == b.columns
            &&& undone.tags == b.tags
            &&& undone.archived_cards == b.archived_cards
            &&& undone.undo_stack == b.undo_stack
        }),
{
    lemma_column_index(b.columns, column_id);
    let c = column_index(b.columns, column_id).unwrap();
    let cards = b.columns[c].cards;
    let archived = archive_column_spec(b, column_id, now).0;
    let popped = BoardState { undo_stack: archived.undo_stack.drop_last(), ..archived };
    assert(popped.undo_stack =~= b.undo_stack);
    let ops = archived_column_ops(cards, now);
    assert(archived.undo_stack.last() == crate::model::types::OperationView::ArchiveColumn {
        column_id,
        cards: ops,
        archived_start: b.archived_cards.len() as usize,
    });
    // The undo starts from the board with the column empty and the cards archived.
    lemma_prefix_in_order(b, c, 0);
    assert(cards.take(0) =~= Seq::<CardView>::empty());
    assert(archived_at(cards, now).skip(0) =~= archived_at(cards, now));
    assert(popped == partly_back(b, popped, c, now, 0));
    lemma_steps_back(b, popped, c, column_id, now, cards.len() as int);
    assert(ops.take(cards.len() as int) =~= ops);
    assert(cards.take(cards.len() as int) =~= cards);
    assert(set_cards(b.columns, c, cards) =~= b.columns);
    assert(archived_at(cards, now).skip(cards.len() as int) =~= Seq::<CardView>::empty());
    assert(b.archived_cards + Seq::<CardView>::empty() =~= b.archived_cards);
    assert(reindex_columns(b.columns) == b.columns);
}

} // verus!

verus! {

/// The board after the first `j` cards of column `c` have gone to the archive again: the
/// column holds the rest, put in order, and the archive those `j` as they were archived.
pub open spec fn partly_gone(b: BoardState, start: BoardState, c: int, now: i64, j: int) -> BoardState {
    BoardState {
        columns: reindex_columns(set_cards(b.columns, c, b.columns[c].cards.skip(j))),
        archived_cards: b.archived_cards + archived_at(b.columns[c].cards, now).take(j),
        ..start
    }
}

proof fn lemma_steps_again(b: BoardState, start: BoardState, c: int, now: i64, j: int)
    requires
        well_formed(b),
        0 <= c < b.columns.len(),
        0 <= j <= b.columns[c].cards.len(),
        start.columns == b.columns,
        start.archived_cards == b.archived_cards,
    ensures
        archive_column_steps(
            start,
            archived_column_ops(b.columns[c].cards, now).take(j),
            b.archived_cards.len() as usize,
            false,
        ) == (partly_gone(b, start, c, now, j), Ok::<(), crate::model::types::BoardError>(())),
    decreases j,
{
    let cards = b.columns[c].cards;
    let ops = archived_column_ops(cards, now);
    if j == 0 {
        assert(ops.take(0) =~= Seq::<ArchivedCardView>::empty());
        assert(cards.skip(0) =~= cards);
        assert(set_cards(b.columns, c, cards) =~= b.columns);
        assert(archived_at(cards, now).take(0) =~= Seq::<CardView>::empty());
        assert(b.archived_cards + Seq::<CardView>::empty() =~= b.archived_cards);
        assert(start == partly_gone(b, start, c, now, 0));
    } else {
        lemma_steps_again(b, start, c, now, j - 1);
        assert(ops.take(j).drop_last() =~= ops.take(j - 1));
        let op = ops[j - 1];
        assert(ops.take(j).last() == op);
        let prev = partly_gone(b, start, c, now, j - 1);
        let card = cards[j - 1];
        let placed = set_cards(b.columns, c, cards.skip(j - 1));
        let m = prev.columns;
        assert(m == reindex_columns(placed));
        // The card stands first in its column, and nowhere else.
        assert(m[c].cards[0].id == card.id);
        assert forall|c2: int, k2: int|
            0 <= c2 < m.len() && 0 <= k2 < m[c2].cards.len() && (c2 != c || k2 != 0) implies #[trigger] m[c2].cards[k2].id
            != card.id by {
            assert(m[c2].cards[k2].id == placed[c2].cards[k2].id);
            if c2 == c {
                assert(placed[c].cards[k2] == cards[k2 + j - 1]);
                assert(b.columns[c].cards[j - 1].id != b.columns[c].cards[k2 + j - 1].id);
            } else {
                assert(b.columns[c2].cards[k2].id != b.columns[c].cards[j - 1].id);
            }
        }
        lemma_card_location_unique(m, card.id, c, 0);
        // Taking it off leaves the rest of the column, put in order.
        lemma_reindex_idempotent(placed);
        lemma_remove_alike(m, placed, c, 0);
        assert(remove_card_at(placed, c, 0) =~= set_cards(b.columns, c, cards.skip(j))) by {
            assert(cards.skip(j - 1).remove(0) =~= cards.skip(j));
        }
        // It goes at the end of the archive.
        let arch = prev.archived_cards;
        assert(arch.len() == b.archived_cards.len() + j - 1);
        assert(op.index as int == j - 1);
        assert(arch.insert(arch.len() as int, op.archived_card) =~= b.archived_cards + archived_at(cards, now).take(j));
    }
}

/// Archiving a column, undoing it and doing it again empties the column again and puts
/// its cards at the end of the archive as they were archived.
pub proof fn law_redo_archive_column(b: BoardState, column_id: ColumnId, now: i64, later: i64, again: i64)
    requires
        well_formed(b),
        archive_column_spec(b, column_id, now).1 matches Ok(n) && n > 0,
    ensures
        ({
            let archived = archive_column_spec(b, column_id, now).0;
            let undone = undo_spec(archived, later).0;
            let (redone, r) = redo_spec(undone, again);
            &&& r == Ok::<bool, crate::model::types::BoardError>(true)
            &&& redone.columns == archived.columns
            &&& redone.archived_cards == archived.archived_cards
            &&& redone.tags == archived.tags
            &&& redone.undo_stack == archived.undo_stack
            &&& redone.redo_stack.len() == 0
        }),
{
    law_undo_archive_column(b, column_id, now, later);
    lemma_column_index(b.columns, column_id);
    let c = column_index(b.columns, column_id).unwrap();
    let cards = b.columns[c].cards;
    let archived = archive_column_spec(b, column_id, now).0;
    let undone = undo_spec(archived, later).0;
    let ops = archived_column_ops(cards, now);
    let op = archived.undo_stack.last();
    assert(op == crate::model::types::OperationView::ArchiveColumn {
        column_id,
        cards: ops,
        archived_start: b.archived_cards.len() as usize,
    });
    // The undo leaves the redo history with the archiving alone.
    let popped0 = BoardState { undo_stack: archived.undo_stack.drop_last(), ..archived };
    lemma_prefix_in_order(b, c, 0);
    assert(cards.take(0) =~= Seq::<CardView>::empty());
    assert(archived_at(cards, now).skip(0) =~= archived_at(cards, now));
    assert(popped0 == partly_back(b, popped0, c, now, 0));
    lemma_steps_back(b, popped0, c, column_id, now, cards.len() as int);
    assert(ops.take(cards.len() as int) =~= ops);
    assert(archived.redo_stack.len() == 0);
    assert(undone.redo_stack =~= seq![op]);
    let popped = BoardState { redo_stack: undone.redo_stack.drop_last(), ..undone };
    assert(popped.undo_stack.push(op) =~= archived.undo_stack);
    lemma_steps_again(b, popped, c, now, cards.len() as int);
    assert(ops.take(cards.len() as int) =~= ops);
    assert(cards.skip(cards.len() as int) =~= Seq::<CardView>::empty());
    assert(archived_at(cards, now).take(cards.len() as int) =~= archived_at(cards, now));
    lemma_reindex_idempotent(set_cards(b.columns, c, Seq::<CardView>::empty()));
}

} // verus!
