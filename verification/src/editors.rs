//! What saving an editor does to the board: the column, tag and card editors read their
//! fields, change the board in one step or two, and answer whether anything changed; a
//! refused field leaves the board as it was.
use vstd::prelude::*;
use crate::model::columns::{add_column_spec, rename_column_spec};
use crate::model::ops::set_column_wip_limit_spec;
use crate::model::search::{parse_wip_limit, parse_wip_limit_spec};
use crate::model::laws::lemma_tag_index_after_update;
use crate::model::spec::{lemma_tag_index, tag_index};
use crate::model::tags::{
    add_tag_spec, name_in_use, name_in_use_by_other, rename_tag_spec, set_tag_color_spec,
};
use crate::model::types::{Board, BoardError, BoardState, ColumnId, TagId, TagView};
use crate::text::is_blank_spec;

verus! {

/// Saving the column editor with limit `limit`: an existing column is renamed and then
/// given the limit, a new one is added and then given the limit, the steps at times `t1`
/// and `t2`. A refused step ends the save with its error.
pub open spec fn save_column_spec(
    b: BoardState,
    column_id: Option<ColumnId>,
    name: Seq<char>,
    limit: Option<i64>,
    t1: i64,
    t2: i64,
) -> (BoardState, Result<bool, BoardError>) {
    match column_id {
        Some(id) => {
            let (b1, r1) = rename_column_spec(b, id, name, t1);
            match r1 {
                Err(e) => (b1, Err(e)),
                Ok(renamed) => {
                    let (b2, r2) = set_column_wip_limit_spec(b1, id, limit, t2);
                    match r2 {
                        Err(e) => (b2, Err(e)),
                        Ok(limited) => (b2, Ok(renamed || limited)),
                    }
                },
            }
        },
        None => {
            let (b1, r1) = add_column_spec(b, name, t1);
            match r1 {
                Err(e) => (b1, Err(e)),
                Ok(new_id) => {
                    let (b2, r2) = set_column_wip_limit_spec(b1, new_id, limit, t2);
                    match r2 {
                        Err(e) => (b2, Err(e)),
                        Ok(_) => (b2, Ok(true)),
                    }
                },
            }
        },
    }
}

/// Saves the column editor: the name and the WIP limit as typed, for column `column_id`,
/// or for a new column when there is none. A limit that does not read is refused before
/// anything changes.
pub fn save_column_editor(
    board: &mut Board,
    column_id: Option<ColumnId>,
    name: &str,
    wip_limit_text: &str,
) -> (r: Result<bool, BoardError>)
    requires
        old(board).next_column_id < i64::MAX,
    ensures
        match parse_wip_limit_spec(wip_limit_text@) {
            Err(text) => final(board)@ == old(board)@ && (r matches Err(
                BoardError::InvalidWipLimit(shown),
            ) && shown@ == text),
            Ok(limit) => exists|t1: i64, t2: i64|
                #![trigger save_column_spec(old(board)@, column_id, name@, limit, t1, t2)]
                final(board)@ == save_column_spec(old(board)@, column_id, name@, limit, t1, t2).0
                    && r == save_column_spec(old(board)@, column_id, name@, limit, t1, t2).1,
        },
{
    let limit = match parse_wip_limit(wip_limit_text) {
        Ok(limit) => limit,
        Err(error) => return Err(error),
    };
    let ghost before = board@;
    match column_id {
        Some(id) => {
            let renamed = match board.rename_column(id, name) {
                Ok(renamed) => renamed,
                Err(error) => {
                    assert(save_column_spec(before, column_id, name@, limit, board@.updated_at, 0).0 == board@);
                    return Err(error);
                },
            };
            let ghost t1 = board@.updated_at;
            let ghost mid = board@;
            let limited = match board.set_column_wip_limit(id, limit) {
                Ok(limited) => limited,
                Err(error) => {
                    assert(save_column_spec(before, column_id, name@, limit, t1, board@.updated_at).0 == board@);
                    return Err(error);
                },
            };
            assert(save_column_spec(before, column_id, name@, limit, t1, board@.updated_at).0 == board@);
            Ok(renamed || limited)
        },
        None => {
            let new_id = match board.add_column(name) {
                Ok(new_id) => new_id,
                Err(error) => {
                    assert(save_column_spec(before, column_id, name@, limit, board@.updated_at, 0).0 == board@);
                    return Err(error);
                },
            };
            let ghost t1 = board@.updated_at;
            match board.set_column_wip_limit(new_id, limit) {
                Ok(_) => {},
                Err(error) => {
                    assert(save_column_spec(before, column_id, name@, limit, t1, board@.updated_at).0 == board@);
                    return Err(error);
                },
            }
            assert(save_column_spec(before, column_id, name@, limit, t1, board@.updated_at).0 == board@);
            Ok(true)
        },
    }
}

/// Whether the name typed in the tag editor is one another tag has: for tag `tag_id`,
/// another tag's; for a new tag, any tag's. A blank name is refused before this counts.
pub open spec fn tag_name_taken(tags: Seq<TagView>, tag_id: Option<TagId>, name: Seq<char>) -> bool {
    !is_blank_spec(name) && match tag_id {
        Some(id) => name_in_use_by_other(tags, name, id),
        None => name_in_use(tags, name),
    }
}

/// Saving the tag editor with a name no other tag has: an existing tag is renamed and then
/// given the colour, a new one is added, the steps at times `t1` and `t2`. A refused step
/// leaves the board as it was.
pub open spec fn save_tag_spec(
    b: BoardState,
    tag_id: Option<TagId>,
    name: Seq<char>,
    color: Seq<char>,
    t1: i64,
    t2: i64,
) -> (BoardState, Result<bool, BoardError>) {
    match tag_id {
        Some(id) => {
            let (b1, r1) = rename_tag_spec(b, id, name, t1);
            match r1 {
                Err(e) => (b, Err(e)),
                Ok(renamed) => {
                    let (b2, r2) = set_tag_color_spec(b1, id, color, t2);
                    match r2 {
                        Err(e) => (b, Err(e)),
                        Ok(recolored) => (b2, Ok(renamed || recolored)),
                    }
                },
            }
        },
        None => {
            let (b1, r1) = add_tag_spec(b, name, color, t1);
            match r1 {
                Err(e) => (b, Err(e)),
                Ok(_) => (b1, Ok(true)),
            }
        },
    }
}

/// Saves the tag editor: the name and colour as typed, for tag `tag_id`, or for a new tag
/// when there is none. A name another tag has is refused and changes nothing.
pub fn save_tag_editor(board: &mut Board, tag_id: Option<TagId>, name: &str, color: &str) -> (r: Result<
    bool,
    BoardError,
>)
    requires
        old(board).next_tag_id < i64::MAX,
    ensures
        tag_name_taken(old(board)@.tags, tag_id, name@) ==> final(board)@ == old(board)@ && (r matches Err(
            BoardError::DuplicateTagName(taken),
        ) && taken@ == name@),
        !tag_name_taken(old(board)@.tags, tag_id, name@) ==> exists|t1: i64, t2: i64|
            #![trigger save_tag_spec(old(board)@, tag_id, name@, color@, t1, t2)]
            final(board)@ == save_tag_spec(old(board)@, tag_id, name@, color@, t1, t2).0 && r
                == save_tag_spec(old(board)@, tag_id, name@, color@, t1, t2).1,
{
    let ghost before = board@;
    match tag_id {
        Some(id) => {
            let renamed = match board.rename_tag(id, name) {
                Ok(renamed) => renamed,
                Err(error) => {
                    proof {
                        if !tag_name_taken(before.tags, tag_id, name@) {
                            assert(save_tag_spec(before, tag_id, name@, color@, board@.updated_at, 0).0 == board@);
                        }
                    }
                    return Err(error);
                },
            };
            let ghost t1 = board@.updated_at;
            proof {
                lemma_tag_index(before.tags, id, 0);
                if renamed {
                    let t = tag_index(before.tags, id).unwrap();
                    lemma_tag_index_after_update(before.tags, id, t, board@.tags[t]);
                }
            }
            let recolored = match board.set_tag_color(id, color) {
                Ok(recolored) => recolored,
                Err(error) => {
                    assert(false);
                    return Err(error);
                },
            };
            assert(save_tag_spec(before, tag_id, name@, color@, t1, board@.updated_at).0 == board@);
            Ok(renamed || recolored)
        },
        None => {
            match board.add_tag(name, color) {
                Ok(_) => {},
                Err(error) => {
                    proof {
                        if !tag_name_taken(before.tags, tag_id, name@) {
                            assert(save_tag_spec(before, tag_id, name@, color@, board@.updated_at, 0).0 == board@);
                        }
                    }
                    return Err(error);
                },
            }
            assert(save_tag_spec(before, tag_id, name@, color@, board@.updated_at, 0).0 == board@);
            Ok(true)
        },
    }
}

} // verus!
