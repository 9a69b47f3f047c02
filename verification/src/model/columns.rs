//! Making boards and columns, naming them, and removing a column.
use vstd::prelude::*;
use crate::model::board::{find_column_index, timestamp};
use crate::model::copy::copy_cards;
use crate::model::raw::renamed_column;
use crate::model::spec::{column_index, lemma_column_index, push_operation, reindex_columns, touch, with_columns};
use crate::model::types::{
    cards_view, columns_view, operations_view, Board, BoardError, BoardId, BoardOperation, BoardState, Card,
    CardEvent, CardEventKind, CardId, CardView, ChecklistItemId, Column, ColumnId, ColumnView,
    OperationView, TagId,
};
use crate::text::{is_blank, is_blank_spec, str_eq};

verus! {

/// A new column with no cards and no WIP limit.
pub open spec fn new_column_view(
    id: ColumnId,
    board_id: BoardId,
    name: Seq<char>,
    position: i64,
    now: i64,
) -> ColumnView {
    ColumnView {
        id: id,
        board_id: board_id,
        name: name,
        position: position,
        created_at: now,
        updated_at: now,
        wip_limit: None,
        cards: seq![],
    }
}

/// The name of the column that a new board starts with.
pub open spec fn first_column_name() -> Seq<char> {
    "やること"@
}

/// A board with one empty column `first_column_id` and nothing else; the numbers handed
/// out next are the ones given.
pub open spec fn new_empty_state(
    id: BoardId,
    name: Seq<char>,
    next_card_id: CardId,
    first_column_id: ColumnId,
    next_tag_id: TagId,
    next_checklist_item_id: ChecklistItemId,
    now: i64,
) -> BoardState {
    BoardState {
        id: id,
        name: name,
        created_at: now,
        updated_at: now,
        next_card_id: next_card_id,
        next_column_id: (first_column_id + 1) as i64,
        next_tag_id: next_tag_id,
        next_checklist_item_id: next_checklist_item_id,
        tags: seq![],
        archived_cards: seq![],
        columns: seq![new_column_view(first_column_id, id, first_column_name(), 0, now)],
        pending_events: seq![],
        undo_stack: seq![],
        redo_stack: seq![],
    }
}

/// The board made on first run: board 1, named 個人 Kanban, with three empty columns
/// (やること, 進行中, 完了) and no cards.
pub open spec fn first_run_state(now: i64) -> BoardState {
    BoardState {
        id: 1,
        name: "個人 Kanban"@,
        created_at: now,
        updated_at: now,
        next_card_id: 1,
        next_column_id: 4,
        next_tag_id: 1,
        next_checklist_item_id: 1,
        tags: seq![],
        archived_cards: seq![],
        columns: seq![
            new_column_view(1, 1, "やること"@, 0, now),
            new_column_view(2, 1, "進行中"@, 1, now),
            new_column_view(3, 1, "完了"@, 2, now),
        ],
        pending_events: seq![],
        undo_stack: seq![],
        redo_stack: seq![],
    }
}

/// The event that adding card `card_id` to column `column_id` records.
pub open spec fn created_event(card_id: CardId, column_id: ColumnId, at: i64) -> CardEvent {
    CardEvent {
        card_id: card_id,
        kind: CardEventKind::Created,
        from_column_id: None,
        to_column_id: Some(column_id),
        at: at,
    }
}

/// The board that `Board::fixture` makes. Of its times, which the clock gives, it states
/// that the columns carry the board's creation time and each card and its `Created` event
/// one time of their own.
pub open spec fn is_fixture(b: BoardState) -> bool {
    &&& b.id == 1
    &&& b.name == "個人 Kanban"@
    &&& b.next_card_id == 5
    &&& b.next_column_id == 4
    &&& b.next_tag_id == 1
    &&& b.next_checklist_item_id == 1
    &&& b.tags.len() == 0
    &&& b.archived_cards.len() == 0
    &&& b.undo_stack.len() == 0
    &&& b.redo_stack.len() == 0
    &&& b.columns.len() == 3
    &&& b.columns[0].id == 1 && b.columns[0].name == "やること"@ && b.columns[0].position == 0
    &&& b.columns[1].id == 2 && b.columns[1].name == "進行中"@ && b.columns[1].position == 1
    &&& b.columns[2].id == 3 && b.columns[2].name == "完了"@ && b.columns[2].position == 2
    &&& b.columns[0].cards.len() == 2
    &&& b.columns[1].cards.len() == 1
    &&& b.columns[2].cards.len() == 1
    &&& b.columns[0].cards[0].id == 1 && b.columns[0].cards[0].title == "GPUI の画面を作る"@
    &&& b.columns[0].cards[0].description == "カラムとカードを表示する"@
    &&& b.columns[0].cards[1].id == 2 && b.columns[0].cards[1].title == "D&D の操作を試す"@
    &&& b.columns[0].cards[1].description == "カードを掴んで移動する"@
    &&& b.columns[1].cards[0].id == 3 && b.columns[1].cards[0].title == "SQLite の設計"@
    &&& b.columns[1].cards[0].description == "マイグレーションを用意する"@
    &&& b.columns[2].cards[0].id == 4 && b.columns[2].cards[0].title == "README を書く"@
    &&& b.columns[2].cards[0].description == "プロジェクトの方針をまとめる"@
    &&& forall|c: int, k: int|
        0 <= c < 3 && 0 <= k < b.columns[c].cards.len() ==> {
            let card = #[trigger] b.columns[c].cards[k];
            &&& card.column_id == b.columns[c].id
            &&& card.position == k
            &&& card.due_date is None
            &&& card.tag_ids.len() == 0
            &&& card.checklist_items.len() == 0
            &&& card.archived_at is None
            &&& card.updated_at == card.created_at
        }
    &&& forall|c: int|
        0 <= c < 3 ==> {
            let column = #[trigger] b.columns[c];
            &&& column.board_id == 1
            &&& column.wip_limit is None
            &&& column.created_at == b.created_at
            &&& column.updated_at == b.created_at
        }
    &&& b.pending_events == seq![
        created_event(1, 1, b.columns[0].cards[0].created_at),
        created_event(2, 1, b.columns[0].cards[1].created_at),
        created_event(3, 2, b.columns[1].cards[0].created_at),
        created_event(4, 3, b.columns[2].cards[0].created_at),
    ]
}

/// Renaming the board. A blank name is refused; the name it has answers `Ok(false)`.
/// Renaming is not an operation that undo takes back.
pub open spec fn rename_spec(b: BoardState, name: Seq<char>, now: i64) -> (
    BoardState,
    Result<bool, BoardError>,
) {
    if is_blank_spec(name) {
        (b, Err(BoardError::EmptyBoardName))
    } else if b.name == name {
        (b, Ok(false))
    } else {
        (touch(BoardState { name: name, ..b }, now), Ok(true))
    }
}

/// Adding an empty column named `name` after the last one: it takes the next column number.
pub open spec fn add_column_spec(b: BoardState, name: Seq<char>, now: i64) -> (
    BoardState,
    Result<ColumnId, BoardError>,
) {
    if is_blank_spec(name) {
        (b, Err(BoardError::EmptyColumnName))
    } else {
        let column = new_column_view(b.next_column_id, b.id, name, b.columns.len() as i64, now);
        let added = BoardState {
            columns: b.columns.push(column),
            next_column_id: (b.next_column_id + 1) as i64,
            ..b
        };
        (
            push_operation(
                touch(added, now),
                OperationView::AddColumn { column, index: b.columns.len() as usize },
            ),
            Ok(column.id),
        )
    }
}

/// Renaming column `column_id`. A blank name is refused; the name it has answers
/// `Ok(false)`.
pub open spec fn rename_column_spec(b: BoardState, column_id: ColumnId, name: Seq<char>, now: i64) -> (
    BoardState,
    Result<bool, BoardError>,
) {
    if is_blank_spec(name) {
        (b, Err(BoardError::EmptyColumnName))
    } else {
        match column_index(b.columns, column_id) {
            None => (b, Err(BoardError::ColumnNotFound(column_id))),
            Some(c) => if b.columns[c].name == name {
                (b, Ok(false))
            } else {
                (
                    push_operation(
                        touch(
                            with_columns(b, b.columns.update(c, renamed_column(name, now)(b.columns[c]))),
                            now,
                        ),
                        OperationView::RenameColumn { column_id, before: b.columns[c].name, after: name },
                    ),
                    Ok(true),
                )
            },
        }
    }
}

/// Where the first column from place `i` on whose id is not `id` stands.
pub open spec fn other_column_index_from(columns: Seq<ColumnView>, id: ColumnId, i: int) -> Option<int>
    decreases columns.len() - i,
{
    if i < 0 || i >= columns.len() {
        None
    } else if columns[i].id != id {
        Some(i)
    } else {
        other_column_index_from(columns, id, i + 1)
    }
}

/// Whether some column has an id other than `id`.
pub open spec fn has_other_column(columns: Seq<ColumnView>, id: ColumnId) -> bool {
    exists|j: int| 0 <= j < columns.len() && #[trigger] columns[j].id != id
}

/// The archived cards that belong to column `column_id`, each with that column, in order.
pub open spec fn archived_in_column(cards: Seq<CardView>, column_id: ColumnId) -> Seq<(CardId, ColumnId)>
    decreases cards.len(),
{
    if cards.len() == 0 {
        seq![]
    } else {
        let rest = archived_in_column(cards.drop_last(), column_id);
        if cards.last().column_id == column_id {
            rest.push((cards.last().id, cards.last().column_id))
        } else {
            rest
        }
    }
}

/// The archived cards of column `column_id` handed to column `fallback`.
pub open spec fn reassign_archived(
    cards: Seq<CardView>,
    column_id: ColumnId,
    fallback: ColumnId,
    now: i64,
) -> Seq<CardView> {
    Seq::new(
        cards.len(),
        |i: int|
            if cards[i].column_id == column_id {
                CardView { column_id: fallback, updated_at: now, ..cards[i] }
            } else {
                cards[i]
            },
    )
}

/// A `Deleted` event for each of `cards`, which leave column `column_id`.
pub open spec fn deleted_events(cards: Seq<CardView>, column_id: ColumnId, now: i64) -> Seq<CardEvent> {
    Seq::new(
        cards.len(),
        |k: int|
            CardEvent {
                card_id: cards[k].id,
                kind: CardEventKind::Deleted,
                from_column_id: Some(column_id),
                to_column_id: None,
                at: now,
            },
    )
}

/// Removing column `column_id` with its cards, unless it is the last column. Its archived
/// cards go to the first other column; each card that goes records a `Deleted` event.
pub open spec fn remove_column_spec(b: BoardState, column_id: ColumnId, now: i64) -> (
    BoardState,
    Result<(), BoardError>,
) {
    match column_index(b.columns, column_id) {
        None => (b, Err(BoardError::ColumnNotFound(column_id))),
        Some(c) => if b.columns.len() == 1 {
            (b, Err(BoardError::LastColumn))
        } else {
            let fallback = b.columns[other_column_index_from(b.columns, column_id, 0).unwrap()].id;
            let column = b.columns[c];
            let removed = BoardState {
                columns: reindex_columns(b.columns.remove(c)),
                archived_cards: reassign_archived(b.archived_cards, column_id, fallback, now),
                pending_events: b.pending_events + deleted_events(column.cards, column_id, now),
                ..b
            };
            (
                push_operation(
                    touch(removed, now),
                    OperationView::RemoveColumn {
                        column,
                        index: c as usize,
                        fallback_column_id: fallback,
                        archived_card_column_ids: archived_in_column(b.archived_cards, column_id),
                    },
                ),
                Ok(()),
            )
        },
    }
}

proof fn lemma_other_column_index(columns: Seq<ColumnView>, id: ColumnId, i: int)
    requires
        0 <= i,
    ensures
        match other_column_index_from(columns, id, i) {
            Some(j) => i <= j < columns.len() && columns[j].id != id,
            None => forall|j: int| i <= j < columns.len() ==> (#[trigger] columns[j]).id == id,
        },
    decreases columns.len() - i,
{
    if i < columns.len() && columns[i].id == id {
        lemma_other_column_index(columns, id, i + 1);
    }
}

impl Column {
    /// A column with no cards and no WIP limit.
    pub fn new(id: ColumnId, board_id: BoardId, name: &str, position: i64, now: i64) -> (r: Column)
        ensures
            r@ == new_column_view(id, board_id, name@, position, now),
    {
        let r = Column {
            id,
            board_id,
            name: name.to_owned(),
            position,
            created_at: now,
            updated_at: now,
            wip_limit: None,
            cards: Vec::new(),
        };
        assert(cards_view(r.cards@) =~= Seq::<CardView>::empty());
        r
    }
}

impl Board {
    /// A board with one empty column, for a board made by the user.
    pub fn new_empty(
        id: BoardId,
        name: &str,
        next_card_id: CardId,
        first_column_id: ColumnId,
        next_tag_id: TagId,
        next_checklist_item_id: ChecklistItemId,
        now: i64,
    ) -> (r: Board)
        requires
            first_column_id < i64::MAX,
        ensures
            r@ == new_empty_state(
                id,
                name@,
                next_card_id,
                first_column_id,
                next_tag_id,
                next_checklist_item_id,
                now,
            ),
    {
        let column = Column::new(first_column_id, id, "やること", 0, now);
        let r = Board {
            id,
            name: name.to_owned(),
            created_at: now,
            updated_at: now,
            next_card_id,
            next_column_id: first_column_id + 1,
            next_tag_id,
            next_checklist_item_id,
            tags: Vec::new(),
            archived_cards: Vec::new(),
            columns: vec![column],
            pending_events: Vec::new(),
            undo_stack: Vec::new(),
            redo_stack: Vec::new(),
        };
        assert(r@ =~= new_empty_state(
            id,
            name@,
            next_card_id,
            first_column_id,
            next_tag_id,
            next_checklist_item_id,
            now,
        ));
        r
    }

    /// The board made when the database is empty: three empty columns, no cards.
    pub fn first_run() -> (r: Board)
        ensures
            r@ == first_run_state(r@.created_at),
    {
        let now = timestamp();
        let todo = Column::new(1, 1, "やること", 0, now);
        let doing = Column::new(2, 1, "進行中", 1, now);
        let done = Column::new(3, 1, "完了", 2, now);
        let r = Board {
            id: 1,
            name: "個人 Kanban".to_owned(),
            created_at: now,
            updated_at: now,
            next_card_id: 1,
            next_column_id: 4,
            next_tag_id: 1,
            next_checklist_item_id: 1,
            tags: Vec::new(),
            archived_cards: Vec::new(),
            columns: vec![todo, doing, done],
            pending_events: Vec::new(),
            undo_stack: Vec::new(),
            redo_stack: Vec::new(),
        };
        assert(r@ =~= first_run_state(now));
        r
    }

    /// A board to try things on: the first-run columns with two cards in the first, one in
    /// the second and one in the third, numbered 1 to 4, and no undo history.
    pub fn fixture() -> (r: Board)
        ensures
            is_fixture(r@),
    {
        let mut board = Board::first_run();
        let ghost start = board@;
        proof {
            lemma_column_index(start.columns, 1);
            lemma_column_index(start.columns, 2);
            lemma_column_index(start.columns, 3);
        }
        let _ = board.add_card(1, "GPUI の画面を作る", "カラムとカードを表示する");
        let ghost one = board@;
        proof {
            lemma_column_index(one.columns, 1);
        }
        let _ = board.add_card(1, "D&D の操作を試す", "カードを掴んで移動する");
        let ghost two = board@;
        proof {
            lemma_column_index(two.columns, 2);
        }
        let _ = board.add_card(2, "SQLite の設計", "マイグレーションを用意する");
        let ghost three = board@;
        proof {
            lemma_column_index(three.columns, 3);
        }
        let _ = board.add_card(3, "README を書く", "プロジェクトの方針をまとめる");
        let ghost four = board@;
        proof {
            assert(four.pending_events =~= seq![
                created_event(1, 1, four.columns[0].cards[0].created_at),
                created_event(2, 1, four.columns[0].cards[1].created_at),
                created_event(3, 2, four.columns[1].cards[0].created_at),
                created_event(4, 3, four.columns[2].cards[0].created_at),
            ]);
            assert forall|c: int| 0 <= c < 3 implies {
                let column = #[trigger] four.columns[c];
                &&& column.board_id == 1
                &&& column.wip_limit is None
                &&& column.created_at == four.created_at
                &&& column.updated_at == four.created_at
            } by {
                assert(four.columns[c].created_at == start.columns[c].created_at);
            }
        }
        board.undo_stack.clear();
        board.redo_stack.clear();
        proof {
            assert(operations_view(board.undo_stack@) =~= Seq::<OperationView>::empty());
            assert(operations_view(board.redo_stack@) =~= Seq::<OperationView>::empty());
        }
        board
    }

    /// Renames the board. A blank name is refused; the name it has answers `Ok(false)`.
    pub fn rename(&mut self, name: &str) -> (r: Result<bool, BoardError>)
        ensures
            final(self)@ == rename_spec(old(self)@, name@, final(self)@.updated_at).0,
            r == rename_spec(old(self)@, name@, final(self)@.updated_at).1,
    {
        if is_blank(name) {
            return Err(BoardError::EmptyBoardName);
        }
        if str_eq(self.name.as_str(), name) {
            return Ok(false);
        }
        self.name = name.to_owned();
        self.updated_at = timestamp();
        Ok(true)
    }

    /// Adds an empty column named `name` after the last one and answers its number, which
    /// is never handed out again. Can be undone.
    pub fn add_column(&mut self, name: &str) -> (r: Result<ColumnId, BoardError>)
        requires
            old(self).next_column_id < i64::MAX,
        ensures
            final(self)@ == add_column_spec(old(self)@, name@, final(self)@.updated_at).0,
            r == add_column_spec(old(self)@, name@, final(self)@.updated_at).1,
    {
        if is_blank(name) {
            return Err(BoardError::EmptyColumnName);
        }
        let id = self.next_column_id;
        let now = timestamp();
        let index = self.columns.len();
        let column = Column::new(id, self.id, name, index as i64, now);
        let recorded = column.duplicate();
        let ghost before = self@.columns;
        self.columns.push(column);
        assert(columns_view(self.columns@) =~= before.push(column@));
        self.next_column_id += 1;
        self.updated_at = now;
        self.push_operation(BoardOperation::AddColumn { column: recorded, index });
        Ok(id)
    }

    /// Renames column `column_id`. A blank name is refused; the name it has answers
    /// `Ok(false)`. Can be undone.
    pub fn rename_column(&mut self, column_id: ColumnId, name: &str) -> (r: Result<bool, BoardError>)
        ensures
            final(self)@ == rename_column_spec(old(self)@, column_id, name@, final(self)@.updated_at).0,
            r == rename_column_spec(old(self)@, column_id, name@, final(self)@.updated_at).1,
    {
        if is_blank(name) {
            return Err(BoardError::EmptyColumnName);
        }
        proof {
            lemma_column_index(self@.columns, column_id);
        }
        let c = match find_column_index(&self.columns, column_id) {
            Some(c) => c,
            None => return Err(BoardError::ColumnNotFound(column_id)),
        };
        if str_eq(self.columns[c].name.as_str(), name) {
            return Ok(false);
        }
        let before_name = self.columns[c].name.clone();
        let now = timestamp();
        let ghost before = self@.columns;
        self.columns[c].name = name.to_owned();
        self.columns[c].updated_at = now;
        assert(columns_view(self.columns@) =~= before.update(
            c as int,
            renamed_column(name@, now)(before[c as int]),
        ));
        self.updated_at = now;
        self.push_operation(
            BoardOperation::RenameColumn { column_id, before: before_name, after: name.to_owned() },
        );
        Ok(true)
    }

    /// Removes column `column_id` and its cards, unless it is the last column. Its archived
    /// cards go to the first other column. Each card removed records a `Deleted` event.
    /// Can be undone.
    pub fn remove_column(&mut self, column_id: ColumnId) -> (r: Result<(), BoardError>)
        requires
            column_index(old(self)@.columns, column_id) is Some && old(self)@.columns.len() > 1
                ==> has_other_column(old(self)@.columns, column_id),
        ensures
            final(self)@ == remove_column_spec(old(self)@, column_id, final(self)@.updated_at).0,
            r == remove_column_spec(old(self)@, column_id, final(self)@.updated_at).1,
    {
        proof {
            lemma_column_index(self@.columns, column_id);
        }
        let index = match find_column_index(&self.columns, column_id) {
            Some(index) => index,
            None => return Err(BoardError::ColumnNotFound(column_id)),
        };
        if self.columns.len() == 1 {
            return Err(BoardError::LastColumn);
        }
        proof {
            lemma_other_column_index(self@.columns, column_id, 0);
        }
        let fallback = self.first_other_column(column_id);
        let column = self.columns[index].duplicate();
        let archived_ids = self.archived_of_column(column_id);
        let ghost old_view = self@;
        let now = timestamp();
        let removed = self.columns.remove(index);
        assert(columns_view(self.columns@) =~= old_view.columns.remove(index as int));
        self.reassign_archived_cards(column_id, fallback, now);
        self.reindex();
        self.updated_at = now;
        self.record_deleted_events(&removed.cards, column_id, now);
        proof {
            assert(removed@ == old_view.columns[index as int]);
        }
        self.push_operation(
            BoardOperation::RemoveColumn {
                column,
                index,
                fallback_column_id: fallback,
                archived_card_column_ids: archived_ids,
            },
        );
        assert(self@ =~= remove_column_spec(old_view, column_id, now).0);
        Ok(())
    }

    /// The id of the first column whose id is not `column_id`.
    fn first_other_column(&self, column_id: ColumnId) -> (r: ColumnId)
        requires
            other_column_index_from(self@.columns, column_id, 0) is Some,
        ensures
            r == self@.columns[other_column_index_from(self@.columns, column_id, 0).unwrap()].id,
    {
        let mut i: usize = 0;
        while i < self.columns.len()
            invariant
                i <= self.columns@.len(),
                other_column_index_from(self@.columns, column_id, i as int)
                    == other_column_index_from(self@.columns, column_id, 0),
            decreases self.columns.len() - i,
        {
            if self.columns[i].id != column_id {
                return self.columns[i].id;
            }
            i += 1;
        }
        0
    }

    /// Each archived card of column `column_id`, with that column.
    fn archived_of_column(&self, column_id: ColumnId) -> (r: Vec<(CardId, ColumnId)>)
        ensures
            r@ == archived_in_column(self@.archived_cards, column_id),
    {
        let mut r: Vec<(CardId, ColumnId)> = Vec::new();
        let mut i: usize = 0;
        while i < self.archived_cards.len()
            invariant
                i <= self.archived_cards@.len(),
                r@ == archived_in_column(self@.archived_cards.take(i as int), column_id),
            decreases self.archived_cards.len() - i,
        {
            assert(self@.archived_cards.take(i as int + 1).drop_last() =~= self@.archived_cards.take(
                i as int,
            ));
            if self.archived_cards[i].column_id == column_id {
                r.push((self.archived_cards[i].id, self.archived_cards[i].column_id));
            }
            i += 1;
        }
        assert(self@.archived_cards.take(i as int) =~= self@.archived_cards);
        r
    }

    /// Hands the archived cards of column `column_id` to column `fallback`.
    fn reassign_archived_cards(&mut self, column_id: ColumnId, fallback: ColumnId, now: i64)
        ensures
            final(self)@ == (BoardState {
                archived_cards: reassign_archived(old(self)@.archived_cards, column_id, fallback, now),
                ..old(self)@
            }),
    {
        let mut cards: Vec<Card> = Vec::new();
        std::mem::swap(&mut cards, &mut self.archived_cards);
        let ghost before = cards_view(cards@);
        let mut i: usize = 0;
        while i < cards.len()
            invariant
                i <= cards@.len(),
                before.len() == cards@.len(),
                forall|j: int|
                    0 <= j < i ==> (#[trigger] cards@[j])@ == reassign_archived(
                        before,
                        column_id,
                        fallback,
                        now,
                    )[j],
                forall|j: int| i <= j < cards@.len() ==> (#[trigger] cards@[j])@ == before[j],
            decreases cards.len() - i,
        {
            if cards[i].column_id == column_id {
                cards[i].column_id = fallback;
                cards[i].updated_at = now;
            }
            i += 1;
        }
        self.archived_cards = cards;
        assert(cards_view(self.archived_cards@) =~= reassign_archived(before, column_id, fallback, now));
    }

    /// Records a `Deleted` event for each of `cards`, which leave column `column_id`.
    fn record_deleted_events(&mut self, cards: &Vec<Card>, column_id: ColumnId, now: i64)
        ensures
            final(self)@ == (BoardState {
                pending_events: old(self)@.pending_events + deleted_events(
                    cards_view(cards@),
                    column_id,
                    now,
                ),
                ..old(self)@
            }),
    {
        let ghost start = self@.pending_events;
        let mut k: usize = 0;
        while k < cards.len()
            invariant
                k <= cards@.len(),
                self@ == (BoardState {
                    pending_events: start + deleted_events(cards_view(cards@), column_id, now).take(
                        k as int,
                    ),
                    ..old(self)@
                }),
            decreases cards.len() - k,
        {
            self.record_event(cards[k].id, CardEventKind::Deleted, Some(column_id), None, now);
            assert(start + deleted_events(cards_view(cards@), column_id, now).take(k as int + 1) =~= (
            start + deleted_events(cards_view(cards@), column_id, now).take(k as int)).push(
                deleted_events(cards_view(cards@), column_id, now)[k as int],
            ));
            k += 1;
        }
        assert(deleted_events(cards_view(cards@), column_id, now).take(k as int) =~= deleted_events(
            cards_view(cards@),
            column_id,
            now,
        ));
    }
}

} // verus!
