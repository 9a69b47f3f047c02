//! What a refused board operation says.
use vstd::prelude::*;
use crate::model::types::BoardError;
use crate::text::{decimal, decimal_text, join_text};

verus! {

/// The text of a board error.
pub open spec fn board_error_text(e: BoardError) -> Seq<char> {
    match e {
        BoardError::EmptyBoardName => "a board name cannot be empty"@,
        BoardError::ColumnNotFound(id) => "column "@ + decimal(id as int) + " was not found"@,
        BoardError::CardNotFound(id) => "card "@ + decimal(id as int) + " was not found"@,
        BoardError::EmptyCardTitle => "a card title cannot be empty"@,
        BoardError::EmptyColumnName => "a column name cannot be empty"@,
        BoardError::InvalidDueDate(value) => "invalid due date: "@ + value@,
        BoardError::InvalidWipLimit(value) => "invalid WIP limit: "@ + value@,
        BoardError::EmptyTagName => "a tag name cannot be empty"@,
        BoardError::TagNotFound(id) => "tag "@ + decimal(id as int) + " was not found"@,
        BoardError::DuplicateTagName(name) => "a tag named "@ + name@ + " already exists"@,
        BoardError::EmptyChecklistItemText => "a checklist item cannot be empty"@,
        BoardError::ChecklistItemNotFound(item_id, card_id) => "checklist item "@ + decimal(
            item_id as int,
        ) + " was not found on card "@ + decimal(card_id as int),
        BoardError::LastColumn => "a board must have at least one column"@,
    }
}

/// `a`, the decimal of `n`, then `b`.
fn around(a: &str, n: i64, b: &str) -> (r: String)
    ensures
        r@ == a@ + decimal(n as int) + b@,
{
    let head = join_text(a, decimal_text(n).as_str());
    join_text(head.as_str(), b)
}

impl BoardError {
    /// What the error says.
    pub fn message(&self) -> (r: String)
        ensures
            r@ == board_error_text(*self),
    {
        match self {
            BoardError::EmptyBoardName => "a board name cannot be empty".to_owned(),
            BoardError::ColumnNotFound(id) => around("column ", *id, " was not found"),
            BoardError::CardNotFound(id) => around("card ", *id, " was not found"),
            BoardError::EmptyCardTitle => "a card title cannot be empty".to_owned(),
            BoardError::EmptyColumnName => "a column name cannot be empty".to_owned(),
            BoardError::InvalidDueDate(value) => join_text("invalid due date: ", value.as_str()),
            BoardError::InvalidWipLimit(value) => join_text("invalid WIP limit: ", value.as_str()),
            BoardError::EmptyTagName => "a tag name cannot be empty".to_owned(),
            BoardError::TagNotFound(id) => around("tag ", *id, " was not found"),
            BoardError::DuplicateTagName(name) => {
                let head = join_text("a tag named ", name.as_str());
                join_text(head.as_str(), " already exists")
            },
            BoardError::EmptyChecklistItemText => "a checklist item cannot be empty".to_owned(),
            BoardError::ChecklistItemNotFound(item_id, card_id) => {
                let head = around("checklist item ", *item_id, " was not found on card ");
                join_text(head.as_str(), decimal_text(*card_id).as_str())
            },
            BoardError::LastColumn => "a board must have at least one column".to_owned(),
        }
    }
}

} // verus!
