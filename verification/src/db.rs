//! What the database layer decides without touching the database: the saved filter, the
//! identifier blocks of new boards, and the time stamps it writes.
use vstd::prelude::*;
use crate::model::board::timestamp;
use crate::model::{Board, BoardId, BoardSummary, TagId};

verus! {

/// The search text and tag filter that the board window remembers.
#[derive(Debug, Clone, PartialEq, Eq, Default)]
pub struct FilterState {
    pub search: String,
    pub tag_id: Option<i64>,
}

/// The current time in milliseconds since the Unix epoch, as stored in the database: the
/// board's clock. What the clock reads is the time: of it, only that a stamp is never
/// negative is stated.
pub fn now() -> (r: i64)
    ensures
        r >= 0,
{
    timestamp()
}

/// The first identifier of the block that a new board takes for its cards, columns, tags
/// and checklist items: the board number shifted into the upper 32 bits, plus one.
pub open spec fn board_scoped_id_spec(board_id: BoardId) -> int {
    (board_id << 32i64) + 1
}

/// The first identifier of the block reserved for board `board_id`, so that boards never
/// hand out the same card, column, tag or checklist item number.
pub fn board_scoped_id(board_id: BoardId) -> (r: i64)
    ensures
        r == board_scoped_id_spec(board_id),
{
    let shifted = board_id << 32i64;
    assert(shifted + 1 <= i64::MAX) by (bit_vector)
        requires
            shifted == board_id << 32i64,
    ;
    shifted + 1
}

/// The number of a newly created board: the stored counter, but never at or below the
/// largest number in use.
pub fn next_board_id(stored_next: Option<BoardId>, largest: BoardId) -> (r: BoardId)
    requires
        largest < i64::MAX,
    ensures
        r == match stored_next {
            Some(stored) => if stored > largest + 1 {
                stored
            } else {
                (largest + 1) as i64
            },
            None => (largest + 1) as i64,
        },
{
    let floor = largest + 1;
    match stored_next {
        Some(stored) => if stored > floor {
            stored
        } else {
            floor
        },
        None => floor,
    }
}

/// The board to open on start: the one open last, if it is still there, else the first.
pub open spec fn startup_board_id_spec(last: Option<BoardId>, boards: Seq<BoardSummary>) -> Option<
    BoardId,
> {
    if last is Some && exists|i: int| 0 <= i < boards.len() && #[trigger] boards[i].id == last->0 {
        last
    } else if boards.len() > 0 {
        Some(boards[0].id)
    } else {
        None
    }
}

/// Chooses the board to open from the one open last and the boards there are. `None`
/// only when there is no board.
pub fn startup_board_id(last: Option<BoardId>, boards: &Vec<BoardSummary>) -> (r: Option<BoardId>)
    ensures
        r == startup_board_id_spec(last, boards@),
{
    if let Some(id) = last {
        let mut i: usize = 0;
        while i < boards.len()
            invariant
                i <= boards.len(),
                last == Some(id),
                forall|j: int| 0 <= j < i ==> #[trigger] boards@[j].id != id,
            decreases boards.len() - i,
        {
            if boards[i].id == id {
                assert(boards@[i as int].id == id);
                return last;
            }
            i += 1;
        }
    }
    if boards.len() > 0 {
        Some(boards[0].id)
    } else {
        None
    }
}

/// The tag filter to keep for `board`: a filter on a tag the board no longer has is
/// dropped.
pub fn kept_tag_filter(tag_id: Option<TagId>, board: &Board) -> (r: Option<TagId>)
    ensures
        r == (if tag_id is Some && !exists|i: int|
            0 <= i < board@.tags.len() && #[trigger] board@.tags[i].id == tag_id->0 {
            None
        } else {
            tag_id
        }),
{
    match tag_id {
        None => None,
        Some(id) => {
            let mut i: usize = 0;
            while i < board.tags.len()
                invariant
                    i <= board.tags.len(),
                    tag_id == Some(id),
                    forall|j: int| 0 <= j < i ==> #[trigger] board@.tags[j].id != id,
                decreases board.tags.len() - i,
            {
                proof {
                    assert(board@.tags[i as int] == board.tags@[i as int]@);
                }
                if board.tags[i].id == id {
                    assert(board@.tags[i as int].id == id);
                    return tag_id;
                }
                i += 1;
            }
            None
        },
    }
}

} // verus!
