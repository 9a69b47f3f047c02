//! What the board screen decides apart from drawing: the window title, which card the arrow
//! keys select, which cards the filters dim, where quick capture puts a card, and what an
//! error says to the user.
use vstd::prelude::*;
use crate::hotkey::{modifier_count, KeyModifiers};
use crate::model::board::{find_column_index, lemma_cards_view_push};
use crate::model::search::{card_matches_search, card_matches_spec};
use crate::model::spec::{card_location, column_index, lemma_card_location, lemma_column_index};
use crate::model::tags::ids_contain;
use crate::model::keeps::apart;
use crate::model::laws::lemma_card_location_unique;
use crate::model::types::{
    columns_view, Board, BoardError, BoardId, Card, CardId, CardView, Column, ColumnId,
    ColumnView, TagId,
};
use crate::date::{chrono_parse_date, DueDate};
use crate::model::search::parse_due_date;
use crate::text::{decimal, decimal_text, is_blank, is_blank_spec, join_text, trim, trim_spec};

verus! {

/// The application's name, as windows and bundles show it.
pub open spec fn app_name_text() -> Seq<char> {
    "Ekanban"@
}

/// The application's name.
pub fn app_name() -> (r: &'static str)
    ensures
        r@ == app_name_text(),
{
    "Ekanban"
}

/// The window title for a board named `board_name`: the board and the application, or the
/// application alone when the name is blank.
pub open spec fn window_title_spec(board_name: Seq<char>) -> Seq<char> {
    let name = trim_spec(board_name);
    if name.len() == 0 {
        app_name_text()
    } else {
        name + " — "@ + app_name_text()
    }
}

pub fn window_title(board_name: &str) -> (r: String)
    ensures
        r@ == window_title_spec(board_name@),
{
    let name = trim(board_name);
    if name.unicode_len() == 0 {
        return app_name().to_owned();
    }
    let head = join_text(name, " — ");
    join_text(head.as_str(), app_name())
}

/// The title a quick capture accepts: the input without surrounding whitespace, unless
/// nothing is left.
pub fn capture_title(input: &str) -> (r: Option<&str>)
    ensures
        match r {
            Some(title) => title@ == trim_spec(input@) && title@.len() > 0,
            None => trim_spec(input@).len() == 0,
        },
{
    let title = trim(input);
    if title.unicode_len() == 0 {
        None
    } else {
        Some(title)
    }
}

/// Where quick capture puts a card: a column of a board, with the names to show.
#[derive(Debug, Clone, PartialEq, Eq)]
pub struct CaptureTarget {
    pub board_id: BoardId,
    pub column_id: ColumnId,
    pub board_name: String,
    pub column_name: String,
}

/// The default capture target: the first column of the open board, if it has one.
pub fn default_capture_target(board: &Board) -> (r: Option<CaptureTarget>)
    ensures
        match r {
            Some(t) => board@.columns.len() > 0 && t.board_id == board@.id && t.column_id
                == board@.columns[0].id && t.board_name@ == board@.name && t.column_name@
                == board@.columns[0].name,
            None => board@.columns.len() == 0,
        },
{
    if board.columns.len() == 0 {
        return None;
    }
    Some(
        CaptureTarget {
            board_id: board.id,
            column_id: board.columns[0].id,
            board_name: board.name.clone(),
            column_name: board.columns[0].name.clone(),
        },
    )
}

/// Whether the capture target points at a column of this board that is still there.
pub fn capture_target_is_in_board(board: &Board, target: &CaptureTarget) -> (r: bool)
    ensures
        r == (target.board_id == board@.id && column_index(board@.columns, target.column_id)
            is Some),
{
    proof {
        lemma_column_index(board@.columns, target.column_id);
    }
    target.board_id == board.id && find_column_index(&board.columns, target.column_id).is_some()
}

/// Whether column `column_id` is where quick capture puts cards: the target's column on
/// the target's board, or, with no target, the first column of the open board.
pub fn is_capture_column(target: Option<&CaptureTarget>, board: &Board, column_id: ColumnId) -> (r:
    bool)
    ensures
        r == match target {
            Some(t) => t.board_id == board@.id && t.column_id == column_id,
            None => board@.columns.len() > 0 && board@.columns[0].id == column_id,
        },
{
    match target {
        Some(t) => t.board_id == board.id && t.column_id == column_id,
        None => {
            if board.columns.len() > 0 {
                assert(board@.columns[0] == board.columns@[0]@);
                board.columns[0].id == column_id
            } else {
                false
            }
        },
    }
}

/// "board / column", the destination that the capture window shows.
pub fn capture_destination(target: &CaptureTarget) -> (r: String)
    ensures
        r@ == target.board_name@ + " / "@ + target.column_name@,
{
    let head = join_text(target.board_name.as_str(), " / ");
    join_text(head.as_str(), target.column_name.as_str())
}

/// The tag filter after a tag chip is tapped: that tag, or none when it was already the
/// filter.
pub fn next_tag_filter(current: Option<TagId>, tag_id: TagId) -> (r: Option<TagId>)
    ensures
        r == (if current == Some(tag_id) {
            None::<TagId>
        } else {
            Some(tag_id)
        }),
{
    match current {
        Some(t) => if t == tag_id {
            None
        } else {
            Some(tag_id)
        },
        None => Some(tag_id),
    }
}

/// Whether a card is dimmed: cards are never hidden by a filter, only dimmed when a search
/// or a tag filter leaves them out.
pub open spec fn card_is_dimmed_spec(card: CardView, query: Seq<char>, tag_filter: Option<TagId>) -> bool {
    (query.len() > 0 && !card_matches_spec(card, query)) || (tag_filter matches Some(tag_id)
        && !card.tag_ids.contains(tag_id))
}

pub fn card_is_dimmed(card: &Card, search_query: &str, tag_filter: Option<TagId>) -> (r: bool)
    ensures
        r == card_is_dimmed_spec(card@, search_query@, tag_filter),
{
    let searched = if search_query.unicode_len() > 0 {
        !card_matches_search(card, search_query)
    } else {
        false
    };
    let filtered = match tag_filter {
        Some(tag_id) => !ids_contain(&card.tag_ids, tag_id),
        None => false,
    };
    searched || filtered
}

/// Whether the keys held move the selected card rather than the selection: the shortcut
/// modifier and Alt, and nothing else.
pub fn moves_selected_card(modifiers: &KeyModifiers, on_mac: bool) -> (r: bool)
    ensures
        r == ((if on_mac {
            modifiers.platform
        } else {
            modifiers.control
        }) && modifiers.alt && modifier_count(*modifiers) == 2),
{
    modifiers.secondary(on_mac) && modifiers.alt && modifiers.count() == 2
}

// ---------------------------------------------------------------------------------------
// Moving the selection with the arrow keys.

#[derive(Debug, Clone, Copy, PartialEq, Eq, Structural)]
pub enum CardDirection {
    Up,
    Down,
    Left,
    Right,
}

/// The first card on the board, column by column.
pub open spec fn first_card_from(columns: Seq<ColumnView>, c: int) -> Option<CardId>
    decreases columns.len() - c,
{
    if c < 0 || c >= columns.len() {
        None
    } else if columns[c].cards.len() > 0 {
        Some(columns[c].cards[0].id)
    } else {
        first_card_from(columns, c + 1)
    }
}

/// The card at place `k`, or the last one when the column is shorter, of the first
/// non-empty column from `t` on to the right.
pub open spec fn card_to_the_right(columns: Seq<ColumnView>, t: int, k: int) -> Option<CardId>
    decreases columns.len() - t,
{
    if t < 0 || t >= columns.len() {
        None
    } else if columns[t].cards.len() > 0 {
        let len = columns[t].cards.len() as int;
        Some(columns[t].cards[if k < len - 1 { k } else { len - 1 }].id)
    } else {
        card_to_the_right(columns, t + 1, k)
    }
}

/// The same, from column `t` on to the left.
pub open spec fn card_to_the_left(columns: Seq<ColumnView>, t: int, k: int) -> Option<CardId>
    decreases t + 1,
{
    if t < 0 || t >= columns.len() {
        None
    } else if columns[t].cards.len() > 0 {
        let len = columns[t].cards.len() as int;
        Some(columns[t].cards[if k < len - 1 { k } else { len - 1 }].id)
    } else {
        card_to_the_left(columns, t - 1, k)
    }
}

/// The card that an arrow key selects. With no selection, or a selection that is gone,
/// it is the first card. Up and down stay in the column; left and right go to the nearest
/// column that has cards, at the same place or its last card.
pub open spec fn next_card_spec(
    columns: Seq<ColumnView>,
    selected: Option<CardId>,
    direction: CardDirection,
) -> Option<CardId> {
    match selected {
        None => first_card_from(columns, 0),
        Some(id) => match card_location(columns, id) {
            None => first_card_from(columns, 0),
            Some((c, k)) => match direction {
                CardDirection::Up => if k >= 1 {
                    Some(columns[c].cards[k - 1].id)
                } else {
                    None
                },
                CardDirection::Down => if k + 1 < columns[c].cards.len() {
                    Some(columns[c].cards[k + 1].id)
                } else {
                    None
                },
                CardDirection::Left => card_to_the_left(columns, c - 1, k),
                CardDirection::Right => card_to_the_right(columns, c + 1, k),
            },
        },
    }
}

fn first_card(columns: &Vec<Column>) -> (r: Option<CardId>)
    ensures
        r == first_card_from(columns_view(columns@), 0),
{
    let mut c: usize = 0;
    while c < columns.len()
        invariant
            c <= columns@.len(),
            first_card_from(columns_view(columns@), c as int) == first_card_from(
                columns_view(columns@),
                0,
            ),
        decreases columns.len() - c,
    {
        assert(columns_view(columns@)[c as int] == columns@[c as int]@);
        if columns[c].cards.len() > 0 {
            return Some(columns[c].cards[0].id);
        }
        c += 1;
    }
    None
}

/// The card that an arrow key selects from `selected`.
pub fn next_card_id(columns: &Vec<Column>, selected: Option<CardId>, direction: CardDirection) -> (r:
    Option<CardId>)
    ensures
        r == next_card_spec(columns_view(columns@), selected, direction),
{
    let ghost view = columns_view(columns@);
    let id = match selected {
        Some(id) => id,
        None => return first_card(columns),
    };
    proof {
        lemma_card_location(view, id);
    }
    let (c, k) = match crate::model::board::card_location_in(columns, id) {
        Some(location) => location,
        None => return first_card(columns),
    };
    assert(view[c as int] == columns@[c as int]@);
    let len = columns[c].cards.len();
    let count = columns.len();
    assert(k < len && c < count);
    match direction {
        CardDirection::Up => if k >= 1 {
            Some(columns[c].cards[k - 1].id)
        } else {
            None
        },
        CardDirection::Down => if k + 1 < len {
            Some(columns[c].cards[k + 1].id)
        } else {
            None
        },
        CardDirection::Left => {
            let mut t: usize = c;
            while t > 0
                invariant
                    t <= c < columns@.len(),
                    view == columns_view(columns@),
                    selected == Some(id),
                    direction == CardDirection::Left,
                    card_location(view, id) == Some((c as int, k as int)),
                    card_to_the_left(view, t - 1, k as int) == card_to_the_left(
                        view,
                        c - 1,
                        k as int,
                    ),
                decreases t,
            {
                let column = &columns[t - 1];
                assert(view[t - 1] == columns@[t - 1]@);
                if column.cards.len() > 0 {
                    let last = column.cards.len() - 1;
                    let at = if k < last {
                        k
                    } else {
                        last
                    };
                    return Some(column.cards[at].id);
                }
                t -= 1;
            }
            None
        },
        CardDirection::Right => {
            let mut t: usize = c + 1;
            while t < columns.len()
                invariant
                    c < t <= columns@.len(),
                    view == columns_view(columns@),
                    selected == Some(id),
                    direction == CardDirection::Right,
                    card_location(view, id) == Some((c as int, k as int)),
                    card_to_the_right(view, t as int, k as int) == card_to_the_right(
                        view,
                        c + 1,
                        k as int,
                    ),
                decreases columns.len() - t,
            {
                let column = &columns[t];
                assert(view[t as int] == columns@[t as int]@);
                if column.cards.len() > 0 {
                    let last = column.cards.len() - 1;
                    let at = if k < last {
                        k
                    } else {
                        last
                    };
                    return Some(column.cards[at].id);
                }
                t += 1;
            }
            None
        },
    }
}

// ---------------------------------------------------------------------------------------
// The selection when a card goes, and moving the selected card with the keyboard.

/// Whether every card before place `(c, k)`, column by column, has number `id`.
pub open spec fn all_before_are(columns: Seq<ColumnView>, id: CardId, c: int, k: int) -> bool {
    forall|c2: int, k2: int|
        0 <= c2 < columns.len() && 0 <= k2 < columns[c2].cards.len() && (c2 < c || (c2 == c && k2
            < k)) ==> #[trigger] columns[c2].cards[k2].id == id
}

/// The first card on the board, column by column, whose number is not `id`.
pub open spec fn first_other_card(columns: Seq<ColumnView>, id: CardId, found: Option<CardId>) -> bool {
    match found {
        None => all_before_are(columns, id, columns.len() as int, 0),
        Some(x) => exists|c: int, k: int|
            0 <= c < columns.len() && 0 <= k < columns[c].cards.len() && #[trigger] columns[c].cards[k].id
                == x && x != id && all_before_are(columns, id, c, k),
    }
}

/// The card to select once card `id` is taken off: the next one in its column, else the
/// one before it, else the first other card on the board. `None` when the card is not on
/// the board or no other card is.
pub open spec fn selection_after_removing_ok(
    columns: Seq<ColumnView>,
    id: CardId,
    r: Option<CardId>,
) -> bool {
    match card_location(columns, id) {
        None => r is None,
        Some((c, k)) => if k + 1 < columns[c].cards.len() {
            r == Some(columns[c].cards[k + 1].id)
        } else if k >= 1 {
            r == Some(columns[c].cards[k - 1].id)
        } else {
            first_other_card(columns, id, r)
        },
    }
}

fn first_card_other_than(columns: &Vec<Column>, id: CardId) -> (r: Option<CardId>)
    ensures
        first_other_card(columns_view(columns@), id, r),
{
    let ghost view = columns_view(columns@);
    let mut c: usize = 0;
    while c < columns.len()
        invariant
            view == columns_view(columns@),
            c <= columns@.len(),
            all_before_are(view, id, c as int, 0),
        decreases columns.len() - c,
    {
        assert(view[c as int] == columns@[c as int]@);
        let mut k: usize = 0;
        while k < columns[c].cards.len()
            invariant
                view == columns_view(columns@),
                c < columns@.len(),
                k <= view[c as int].cards.len(),
                view[c as int] == columns@[c as int]@,
                all_before_are(view, id, c as int, k as int),
            decreases columns[c as int].cards.len() - k,
        {
            assert(view[c as int].cards[k as int] == columns@[c as int].cards@[k as int]@);
            let x = columns[c].cards[k].id;
            if x != id {
                assert(view[c as int].cards[k as int].id == x);
                assert(0 <= k < view[c as int].cards.len());
                return Some(x);
            }
            k += 1;
        }
        c += 1;
    }
    None
}

/// The card to select once card `card_id` is taken off.
pub fn selection_after_removing(columns: &Vec<Column>, card_id: CardId) -> (r: Option<CardId>)
    ensures
        selection_after_removing_ok(columns_view(columns@), card_id, r),
{
    let ghost view = columns_view(columns@);
    let (c, k) = match crate::model::board::card_location_in(columns, card_id) {
        Some(location) => location,
        None => return None,
    };
    proof {
        lemma_card_location(view, card_id);
    }
    assert(view[c as int] == columns@[c as int]@);
    let column = &columns[c];
    assert(k < column.cards.len());
    if k + 1 < column.cards.len() {
        Some(column.cards[k + 1].id)
    } else if k >= 1 {
        Some(column.cards[k - 1].id)
    } else {
        first_card_other_than(columns, card_id)
    }
}

/// What a keyboard move of the selected card does.
#[derive(Debug, Clone, Copy, PartialEq, Eq, Structural)]
pub enum KeyboardMove {
    /// The selected card is no longer on the board: the selection is dropped.
    SelectionGone,
    /// There is no column that way: nothing happens.
    Stay,
    /// Move the card to this column, at this place.
    MoveTo(ColumnId, usize),
}

/// The keyboard move of card `card_id`: up and down by one place in its column, left and
/// right to the next column at the same place, or that column's end when it is shorter.
/// Down asks for two places on, as a move counts the place before the card leaves.
pub open spec fn keyboard_move_spec(
    columns: Seq<ColumnView>,
    card_id: CardId,
    direction: CardDirection,
) -> KeyboardMove {
    match card_location(columns, card_id) {
        None => KeyboardMove::SelectionGone,
        Some((c, k)) => match direction {
            CardDirection::Up => KeyboardMove::MoveTo(
                columns[c].id,
                if k >= 1 {
                    (k - 1) as usize
                } else {
                    0
                },
            ),
            CardDirection::Down => KeyboardMove::MoveTo(
                columns[c].id,
                if k + 2 <= usize::MAX {
                    (k + 2) as usize
                } else {
                    usize::MAX
                },
            ),
            CardDirection::Left => if c >= 1 {
                KeyboardMove::MoveTo(
                    columns[c - 1].id,
                    if k <= columns[c - 1].cards.len() {
                        k as usize
                    } else {
                        columns[c - 1].cards.len() as usize
                    },
                )
            } else {
                KeyboardMove::Stay
            },
            CardDirection::Right => if c + 1 < columns.len() {
                KeyboardMove::MoveTo(
                    columns[c + 1].id,
                    if k <= columns[c + 1].cards.len() {
                        k as usize
                    } else {
                        columns[c + 1].cards.len() as usize
                    },
                )
            } else {
                KeyboardMove::Stay
            },
        },
    }
}

/// The keyboard move of the selected card `card_id` in `direction`.
pub fn keyboard_move(columns: &Vec<Column>, card_id: CardId, direction: CardDirection) -> (r:
    KeyboardMove)
    ensures
        r == keyboard_move_spec(columns_view(columns@), card_id, direction),
{
    let ghost view = columns_view(columns@);
    let (c, k) = match crate::model::board::card_location_in(columns, card_id) {
        Some(location) => location,
        None => return KeyboardMove::SelectionGone,
    };
    proof {
        lemma_card_location(view, card_id);
    }
    assert(view[c as int] == columns@[c as int]@);
    assert(c < columns.len() && k < columns[c as int].cards.len());
    match direction {
        CardDirection::Up => KeyboardMove::MoveTo(columns[c].id, if k >= 1 { k - 1 } else { 0 }),
        CardDirection::Down => KeyboardMove::MoveTo(columns[c].id, k.saturating_add(2)),
        CardDirection::Left => if c >= 1 {
            assert(view[c - 1] == columns@[c - 1]@);
            let len = columns[c - 1].cards.len();
            KeyboardMove::MoveTo(columns[c - 1].id, if k <= len { k } else { len })
        } else {
            KeyboardMove::Stay
        },
        CardDirection::Right => if c + 1 < columns.len() {
            assert(view[c + 1] == columns@[c + 1]@);
            let len = columns[c + 1].cards.len();
            KeyboardMove::MoveTo(columns[c + 1].id, if k <= len { k } else { len })
        } else {
            KeyboardMove::Stay
        },
    }
}

/// The tags of a card with `tag_id` toggled: its first occurrence taken out when it is
/// there, else added at the end.
pub fn toggle_tag(tag_ids: &Vec<TagId>, tag_id: TagId) -> (r: Vec<TagId>)
    ensures
        if tag_ids@.contains(tag_id) {
            exists|i: int|
                0 <= i < tag_ids@.len() && tag_ids@[i] == tag_id && (forall|j: int|
                    0 <= j < i ==> #[trigger] tag_ids@[j] != tag_id) && r@ == tag_ids@.remove(i)
        } else {
            r@ == tag_ids@.push(tag_id)
        },
{
    let mut out = tag_ids.clone();
    let mut i: usize = 0;
    while i < tag_ids.len()
        invariant
            i <= tag_ids@.len(),
            out@ == tag_ids@,
            forall|j: int| 0 <= j < i ==> #[trigger] tag_ids@[j] != tag_id,
        decreases tag_ids.len() - i,
    {
        if tag_ids[i] == tag_id {
            out.remove(i);
            assert(tag_ids@.contains(tag_id));
            return out;
        }
        i += 1;
    }
    assert(!tag_ids@.contains(tag_id));
    out.push(tag_id);
    out
}

/// The name of the column that holds card `card_id`, if any holds it.
pub fn column_name_for_card(columns: &Vec<Column>, card_id: CardId) -> (r: Option<&str>)
    ensures
        match card_location(columns_view(columns@), card_id) {
            Some((c, _)) => r matches Some(name) && name@ == columns_view(columns@)[c].name,
            None => r is None,
        },
{
    proof {
        lemma_card_location(columns_view(columns@), card_id);
    }
    match crate::model::board::card_location_in(columns, card_id) {
        Some((c, _)) => {
            assert(columns_view(columns@)[c as int] == columns@[c as int]@);
            Some(columns[c].name.as_str())
        },
        None => None,
    }
}

/// Whether the card editor can be saved: a title that is not blank, a due date that is
/// blank or a date, and no blank checklist item.
pub open spec fn card_edit_is_savable_spec(
    title: Seq<char>,
    due_date: Seq<char>,
    item_texts: Seq<Seq<char>>,
) -> bool {
    &&& !is_blank_spec(title)
    &&& (is_blank_spec(due_date) || chrono_parse_date(trim_spec(due_date), "%Y-%m-%d"@) is Some)
    &&& forall|i: int| 0 <= i < item_texts.len() ==> !is_blank_spec(#[trigger] item_texts[i])
}

pub fn card_edit_is_savable(title: &str, due_date: &str, item_texts: &Vec<String>) -> (r: bool)
    ensures
        r == card_edit_is_savable_spec(
            title@,
            due_date@,
            item_texts@.map_values(|t: String| t@),
        ),
{
    let texts = Ghost(item_texts@.map_values(|t: String| t@));
    if is_blank(title) || parse_due_date(due_date).is_err() {
        return false;
    }
    let mut i: usize = 0;
    while i < item_texts.len()
        invariant
            i <= item_texts@.len(),
            texts@ == item_texts@.map_values(|t: String| t@),
            forall|j: int| 0 <= j < i ==> !is_blank_spec(#[trigger] texts@[j]),
        decreases item_texts.len() - i,
    {
        if is_blank(item_texts[i].as_str()) {
            assert(texts@[i as int] == item_texts@[i as int]@);
            return false;
        }
        i += 1;
    }
    true
}

// ---------------------------------------------------------------------------------------
// Errors as the user reads them.

/// The editor field that an error points at.
#[derive(Debug, Clone, Copy, PartialEq, Eq, Structural)]
pub enum EditorField {
    CardTitle,
    DueDate,
    ChecklistItem,
    ColumnName,
    WipLimit,
    TagName,
    BoardName,
}

/// An error shown under the field that needs attention, for the value it was about.
#[derive(Debug, Clone, PartialEq, Eq)]
pub struct FieldError {
    pub field: EditorField,
    pub message: String,
    pub value: Option<String>,
}

pub open spec fn opt_text(v: Option<String>) -> Option<Seq<char>> {
    match v {
        Some(s) => Some(s@),
        None => None,
    }
}

/// The field, message and value that a board error marks; errors that no field can fix
/// mark none.
pub open spec fn field_error_spec(e: BoardError) -> Option<(EditorField, Seq<char>, Option<Seq<char>>)> {
    match e {
        BoardError::EmptyCardTitle => Some(
            (EditorField::CardTitle, "タイトルを入力してください"@, Some(seq![])),
        ),
        BoardError::InvalidDueDate(value) => Some(
            (EditorField::DueDate, "YYYY-MM-DD 形式で入力してください（空欄で期限なし）"@, Some(value@)),
        ),
        BoardError::EmptyColumnName => Some(
            (EditorField::ColumnName, "カラム名を入力してください"@, Some(seq![])),
        ),
        BoardError::InvalidWipLimit(value) => Some(
            (EditorField::WipLimit, "WIP は正の整数、または空欄で入力してください"@, Some(value@)),
        ),
        BoardError::EmptyTagName => Some((EditorField::TagName, "タグ名を入力してください"@, Some(seq![]))),
        BoardError::DuplicateTagName(name) => Some(
            (EditorField::TagName, "タグ名を確認してください"@, Some(name@)),
        ),
        BoardError::EmptyChecklistItemText => Some(
            (EditorField::ChecklistItem, "チェック項目を入力してください"@, Some(seq![])),
        ),
        BoardError::EmptyBoardName => Some(
            (EditorField::BoardName, "ボード名を入力してください"@, Some(seq![])),
        ),
        _ => None,
    }
}

fn field_error(field: EditorField, message: &str, value: Option<String>) -> (r: Option<FieldError>)
    ensures
        r matches Some(fe) && fe.field == field && fe.message@ == message@ && opt_text(fe.value)
            == opt_text(value),
{
    Some(FieldError { field, message: message.to_owned(), value })
}

/// The field error for a board error, if a field can fix it.
pub fn field_error_for(error: &BoardError) -> (r: Option<FieldError>)
    ensures
        match r {
            Some(fe) => field_error_spec(*error) == Some((fe.field, fe.message@, opt_text(fe.value))),
            None => field_error_spec(*error) is None,
        },
{
    match error {
        BoardError::EmptyCardTitle => field_error(
            EditorField::CardTitle,
            "タイトルを入力してください",
            Some(String::new()),
        ),
        BoardError::InvalidDueDate(value) => field_error(
            EditorField::DueDate,
            "YYYY-MM-DD 形式で入力してください（空欄で期限なし）",
            Some(value.clone()),
        ),
        BoardError::EmptyColumnName => field_error(
            EditorField::ColumnName,
            "カラム名を入力してください",
            Some(String::new()),
        ),
        BoardError::InvalidWipLimit(value) => field_error(
            EditorField::WipLimit,
            "WIP は正の整数、または空欄で入力してください",
            Some(value.clone()),
        ),
        BoardError::EmptyTagName => field_error(
            EditorField::TagName,
            "タグ名を入力してください",
            Some(String::new()),
        ),
        BoardError::DuplicateTagName(name) => field_error(
            EditorField::TagName,
            "タグ名を確認してください",
            Some(name.clone()),
        ),
        BoardError::EmptyChecklistItemText => field_error(
            EditorField::ChecklistItem,
            "チェック項目を入力してください",
            Some(String::new()),
        ),
        BoardError::EmptyBoardName => field_error(
            EditorField::BoardName,
            "ボード名を入力してください",
            Some(String::new()),
        ),
        _ => None,
    }
}

/// The message of `error` to show under `field` while it holds `value`: only an error for
/// that field, and for that value when it names one.
pub fn field_error_message(error: Option<&FieldError>, field: EditorField, value: &str) -> (r:
    Option<String>)
    ensures
        match error {
            Some(e) => if e.field == field && (e.value matches Some(expected) ==> expected@
                == value@) {
                r matches Some(m) && m@ == e.message@
            } else {
                r is None
            },
            None => r is None,
        },
{
    match error {
        Some(e) => {
            let matches_value = match &e.value {
                Some(expected) => crate::text::str_eq(expected.as_str(), value),
                None => true,
            };
            if e.field == field && matches_value {
                Some(e.message.clone())
            } else {
                None
            }
        },
        None => None,
    }
}

/// The detail of a board error, as the status line shows it.
pub open spec fn board_error_detail_spec(e: BoardError) -> Seq<char> {
    match e {
        BoardError::EmptyBoardName => "ボード名を入力してください"@,
        BoardError::ColumnNotFound(id) => "カラム #"@ + decimal(id as int)
            + " が見つかりません。画面を更新してください"@,
        BoardError::CardNotFound(id) => "カード #"@ + decimal(id as int)
            + " が見つかりません。画面を更新してください"@,
        BoardError::EmptyCardTitle => "タイトルを入力してください"@,
        BoardError::EmptyColumnName => "カラム名を入力してください"@,
        BoardError::InvalidDueDate(value) => "期限「"@ + value@ + "」は YYYY-MM-DD 形式で入力してください"@,
        BoardError::InvalidWipLimit(value) => "WIP 上限「"@ + value@
            + "」は正の整数、または空欄で入力してください"@,
        BoardError::EmptyTagName => "タグ名を入力してください"@,
        BoardError::TagNotFound(id) => "タグ #"@ + decimal(id as int)
            + " が見つかりません。画面を更新してください"@,
        BoardError::DuplicateTagName(name) => "タグ「"@ + name@
            + "」はすでに存在します。別の名前を入力してください"@,
        BoardError::EmptyChecklistItemText => "チェック項目を入力してください"@,
        BoardError::ChecklistItemNotFound(item_id, card_id) => "カード #"@ + decimal(card_id as int)
            + " のチェック項目 #"@ + decimal(item_id as int) + " が見つかりません"@,
        BoardError::LastColumn => "最後のカラムは削除できません"@,
    }
}

fn framed(a: &str, middle: &str, b: &str) -> (r: String)
    ensures
        r@ == a@ + middle@ + b@,
{
    let head = join_text(a, middle);
    join_text(head.as_str(), b)
}

pub fn board_error_detail(error: &BoardError) -> (r: String)
    ensures
        r@ == board_error_detail_spec(*error),
{
    match error {
        BoardError::EmptyBoardName => "ボード名を入力してください".to_owned(),
        BoardError::ColumnNotFound(id) => framed(
            "カラム #",
            decimal_text(*id).as_str(),
            " が見つかりません。画面を更新してください",
        ),
        BoardError::CardNotFound(id) => framed(
            "カード #",
            decimal_text(*id).as_str(),
            " が見つかりません。画面を更新してください",
        ),
        BoardError::EmptyCardTitle => "タイトルを入力してください".to_owned(),
        BoardError::EmptyColumnName => "カラム名を入力してください".to_owned(),
        BoardError::InvalidDueDate(value) => framed(
            "期限「",
            value.as_str(),
            "」は YYYY-MM-DD 形式で入力してください",
        ),
        BoardError::InvalidWipLimit(value) => framed(
            "WIP 上限「",
            value.as_str(),
            "」は正の整数、または空欄で入力してください",
        ),
        BoardError::EmptyTagName => "タグ名を入力してください".to_owned(),
        BoardError::TagNotFound(id) => framed(
            "タグ #",
            decimal_text(*id).as_str(),
            " が見つかりません。画面を更新してください",
        ),
        BoardError::DuplicateTagName(name) => framed(
            "タグ「",
            name.as_str(),
            "」はすでに存在します。別の名前を入力してください",
        ),
        BoardError::EmptyChecklistItemText => "チェック項目を入力してください".to_owned(),
        BoardError::ChecklistItemNotFound(item_id, card_id) => {
            let head = framed("カード #", decimal_text(*card_id).as_str(), " のチェック項目 #");
            framed(head.as_str(), decimal_text(*item_id).as_str(), " が見つかりません")
        },
        BoardError::LastColumn => "最後のカラムは削除できません".to_owned(),
    }
}

/// Why the store failed, as far as the user is told: the kinds of SQLite failure that call
/// for a different remedy, the store's own refusals, and the rest with their text.
#[derive(Debug, Clone, PartialEq, Eq)]
pub enum StoreFailure {
    /// The database is busy or locked by another operation.
    Busy,
    /// The database cannot be written: read-only or not permitted.
    ReadOnly,
    DiskFull,
    /// The file is damaged or not a SQLite database.
    Corrupt,
    CannotOpen,
    /// Another SQLite failure, with its reason.
    Sqlite(String),
    NoBoard,
    LastBoard,
    EmptyBoardName,
    InvalidAppState,
    /// The export could not be encoded, with the reason.
    Json(String),
}

/// The detail of a store failure, as the status line shows it.
pub open spec fn store_error_detail_spec(e: StoreFailure) -> Seq<char> {
    match e {
        StoreFailure::Busy => "データベースが使用中です。ほかの操作が終わってから再試行してください"@,
        StoreFailure::ReadOnly => "データベースに書き込めません。保存先の権限を確認してください"@,
        StoreFailure::DiskFull => "ディスク容量が不足しています。空き容量を確保してください"@,
        StoreFailure::Corrupt => "データベースが壊れているか、SQLite データベースではありません。バックアップを確認してください"@,
        StoreFailure::CannotOpen => "データベースを開けません。保存先のパスと権限を確認してください"@,
        StoreFailure::Sqlite(reason) => "SQLite の処理に失敗しました（"@ + reason@ + "）"@,
        StoreFailure::NoBoard => "ボードが見つかりません。画面を更新してください"@,
        StoreFailure::LastBoard => "最後のボードは削除できません"@,
        StoreFailure::EmptyBoardName => "ボード名を入力してください"@,
        StoreFailure::InvalidAppState => "保存されたアプリ状態を読み取れません。ボードを選び直してください"@,
        StoreFailure::Json(reason) => "ボードデータの変換に失敗しました（"@ + reason@ + "）"@,
    }
}

pub fn store_error_detail(error: &StoreFailure) -> (r: String)
    ensures
        r@ == store_error_detail_spec(*error),
{
    match error {
        StoreFailure::Busy => "データベースが使用中です。ほかの操作が終わってから再試行してください".to_owned(),
        StoreFailure::ReadOnly => "データベースに書き込めません。保存先の権限を確認してください".to_owned(),
        StoreFailure::DiskFull => "ディスク容量が不足しています。空き容量を確保してください".to_owned(),
        StoreFailure::Corrupt => "データベースが壊れているか、SQLite データベースではありません。バックアップを確認してください".to_owned(),
        StoreFailure::CannotOpen => "データベースを開けません。保存先のパスと権限を確認してください".to_owned(),
        StoreFailure::Sqlite(reason) => framed("SQLite の処理に失敗しました（", reason.as_str(), "）"),
        StoreFailure::NoBoard => "ボードが見つかりません。画面を更新してください".to_owned(),
        StoreFailure::LastBoard => "最後のボードは削除できません".to_owned(),
        StoreFailure::EmptyBoardName => "ボード名を入力してください".to_owned(),
        StoreFailure::InvalidAppState => "保存されたアプリ状態を読み取れません。ボードを選び直してください".to_owned(),
        StoreFailure::Json(reason) => framed("ボードデータの変換に失敗しました（", reason.as_str(), "）"),
    }
}

/// The field error for a store failure: only a blank board name marks a field.
pub fn field_error_for_store(error: &StoreFailure) -> (r: Option<FieldError>)
    ensures
        match r {
            Some(fe) => *error == StoreFailure::EmptyBoardName && fe.field == EditorField::BoardName
                && fe.message@ == "ボード名を入力してください"@ && opt_text(fe.value) == Some(
                Seq::<char>::empty(),
            ),
            None => *error != StoreFailure::EmptyBoardName,
        },
{
    match error {
        StoreFailure::EmptyBoardName => field_error(
            EditorField::BoardName,
            "ボード名を入力してください",
            Some(String::new()),
        ),
        _ => None,
    }
}

/// What was being done when an error came.
#[derive(Debug, Clone, Copy, PartialEq, Eq, Structural)]
pub enum ErrorContext {
    MoveCard,
    MoveColumn,
    Card,
    Column,
    Tag,
    Board,
    Undo,
    Redo,
}

pub open spec fn error_context_label(c: ErrorContext) -> Seq<char> {
    match c {
        ErrorContext::MoveCard => "カードを移動できませんでした"@,
        ErrorContext::MoveColumn => "カラムを移動できませんでした"@,
        ErrorContext::Card => "カードを操作できませんでした"@,
        ErrorContext::Column => "カラムを操作できませんでした"@,
        ErrorContext::Tag => "タグを操作できませんでした"@,
        ErrorContext::Board => "ボードを操作できませんでした"@,
        ErrorContext::Undo => "操作を元に戻せませんでした"@,
        ErrorContext::Redo => "操作をやり直せませんでした"@,
    }
}

impl ErrorContext {
    /// The heading of the status line.
    pub fn label(self) -> (r: &'static str)
        ensures
            r@ == error_context_label(self),
    {
        match self {
            ErrorContext::MoveCard => "カードを移動できませんでした",
            ErrorContext::MoveColumn => "カラムを移動できませんでした",
            ErrorContext::Card => "カードを操作できませんでした",
            ErrorContext::Column => "カラムを操作できませんでした",
            ErrorContext::Tag => "タグを操作できませんでした",
            ErrorContext::Board => "ボードを操作できませんでした",
            ErrorContext::Undo => "操作を元に戻せませんでした",
            ErrorContext::Redo => "操作をやり直せませんでした",
        }
    }
}

/// The colour theme the user chose.
#[derive(Debug, Clone, Copy, PartialEq, Eq, Structural)]
pub enum ThemePreference {
    System,
    Light,
    Dark,
}

/// The stored theme: `light` and `dark` are those themes; anything else follows the system.
pub fn parse_theme_preference(value: Option<&str>) -> (r: ThemePreference)
    ensures
        r == match value {
            Some(v) => if v@ == "light"@ {
                ThemePreference::Light
            } else if v@ == "dark"@ {
                ThemePreference::Dark
            } else {
                ThemePreference::System
            },
            None => ThemePreference::System,
        },
{
    match value {
        Some(v) => if crate::text::str_eq(v, "light") {
            ThemePreference::Light
        } else if crate::text::str_eq(v, "dark") {
            ThemePreference::Dark
        } else {
            ThemePreference::System
        },
        None => ThemePreference::System,
    }
}

} // verus!

verus! {

/// Whether column `column` holds more cards than its WIP limit; the board shows such a
/// column's count as a warning.
pub fn wip_over(column: &Column) -> (r: bool)
    ensures
        r == (column@.wip_limit matches Some(limit) && column@.cards.len() > limit),
{
    match column.wip_limit {
        Some(limit) => limit < 0 || (column.cards.len() as u128) > (limit as u128),
        None => false,
    }
}

/// The count a column header shows: the number of cards against the WIP limit, or the
/// number of cards with 枚 when there is no limit.
pub open spec fn count_label_spec(count: int, limit: Option<i64>) -> Seq<char> {
    match limit {
        Some(l) => decimal(count) + " / "@ + decimal(l as int),
        None => decimal(count) + " 枚"@,
    }
}

/// The count shown in the header of column `column`: `n / limit`, or `n 枚`.
pub fn count_label(column: &Column) -> (r: String)
    requires
        column@.cards.len() <= i64::MAX,
    ensures
        r@ == count_label_spec(column@.cards.len() as int, column@.wip_limit),
{
    let count = decimal_text(column.cards.len() as i64);
    match column.wip_limit {
        Some(limit) => {
            let with_slash = join_text(count.as_str(), " / ");
            let limit_text = decimal_text(limit);
            let r = join_text(with_slash.as_str(), limit_text.as_str());
            r
        },
        None => join_text(count.as_str(), " 枚"),
    }
}

} // verus!

verus! {

/// What a card shows as its title: its title, or a placeholder while the title is blank,
/// so that a card just added is not an empty box.
pub open spec fn shown_title_spec(title: Seq<char>) -> Seq<char> {
    if is_blank_spec(title) {
        "（タイトル未入力）"@
    } else {
        title
    }
}

/// The title shown on a card.
pub fn shown_title(title: &str) -> (r: String)
    ensures
        r@ == shown_title_spec(title@),
{
    if is_blank(title) {
        String::from_str("（タイトル未入力）")
    } else {
        String::from_str(title)
    }
}

/// The weekday of day `days` of the common era, counted from Monday as 0: day 1 was a
/// Monday.
pub open spec fn weekday_from_monday(days: int) -> int {
    (days - 1) % 7
}

/// The due dates the card editor offers beside the date field, counted from `today`:
/// tomorrow, this weekend (the next Saturday, today included) and next week (the next
/// Monday).
pub fn quick_due_dates(today: DueDate) -> (r: (DueDate, DueDate, DueDate))
    requires
        today.days_from_ce + 7 <= i32::MAX,
    ensures
        r.0.days_from_ce == today.days_from_ce + 1,
        r.1.days_from_ce == today.days_from_ce + (5 - weekday_from_monday(today.days_from_ce as int) + 7) % 7,
        r.2.days_from_ce == today.days_from_ce + 7 - weekday_from_monday(today.days_from_ce as int),
{
    let d: i64 = today.days_from_ce as i64;
    // Shifted by a multiple of 7 to count from a day that stands before every date.
    let shifted: i64 = d - 1 + 7 * 306783379;
    let weekday: i64 = shifted % 7;
    proof {
        assert(shifted >= 0);
        assert(weekday == (d - 1) % 7) by (nonlinear_arith)
            requires
                shifted == d - 1 + 7 * 306783379,
                shifted >= 0,
                weekday == shifted % 7,
        ;
    }
    let until_saturday: i64 = (5 - weekday + 7) % 7;
    let tomorrow = DueDate { days_from_ce: (d + 1) as i32 };
    let weekend = DueDate { days_from_ce: (d + until_saturday) as i32 };
    let next_week = DueDate { days_from_ce: (d + 7 - weekday) as i32 };
    (tomorrow, weekend, next_week)
}

} // verus!

verus! {

/// Filtering dims and never hides, and the two filters add up: a card is dimmed whenever a
/// search that is not empty does not match it, whatever the tag filter; whenever a tag
/// filter is set that the card lacks, whatever the search; and it stays lit when it
/// matches the search, or there is none, and carries the filtered tag, or there is none.
pub proof fn law_dimming_adds_up(card: CardView, query: Seq<char>, tag_filter: Option<TagId>)
    ensures
        query.len() > 0 && !card_matches_spec(card, query) ==> card_is_dimmed_spec(card, query, tag_filter),
        (tag_filter matches Some(t) && !card.tag_ids.contains(t)) ==> card_is_dimmed_spec(
            card,
            query,
            tag_filter,
        ),
        (query.len() == 0 || card_matches_spec(card, query)) && (tag_filter matches Some(t)
            ==> card.tag_ids.contains(t)) ==> !card_is_dimmed_spec(card, query, tag_filter),
{
}

/// Going right from place `k`, the search passes over empty columns to the first one that
/// has cards, and takes the card at the same place there, or the last when it is shorter.
proof fn lemma_to_the_right(columns: Seq<ColumnView>, s: int, t: int, k: int)
    requires
        0 <= s <= t < columns.len(),
        columns[t].cards.len() > 0,
        forall|u: int| s <= u < t ==> (#[trigger] columns[u]).cards.len() == 0,
    ensures
        card_to_the_right(columns, s, k) == Some(
            columns[t].cards[if k < columns[t].cards.len() { k } else { columns[t].cards.len() - 1 }].id,
        ),
    decreases t - s,
{
    if s < t {
        lemma_to_the_right(columns, s + 1, t, k);
    }
}

/// Going right from column `s` on with every column empty finds nothing.
proof fn lemma_nothing_to_the_right(columns: Seq<ColumnView>, s: int, k: int)
    requires
        0 <= s,
        forall|u: int| s <= u < columns.len() ==> (#[trigger] columns[u]).cards.len() == 0,
    ensures
        card_to_the_right(columns, s, k) is None,
    decreases columns.len() - s,
{
    if s < columns.len() {
        lemma_nothing_to_the_right(columns, s + 1, k);
    }
}

/// Going left from place `k`, the same toward the first column.
proof fn lemma_to_the_left(columns: Seq<ColumnView>, s: int, t: int, k: int)
    requires
        0 <= t <= s < columns.len(),
        columns[t].cards.len() > 0,
        forall|u: int| t < u <= s ==> (#[trigger] columns[u]).cards.len() == 0,
    ensures
        card_to_the_left(columns, s, k) == Some(
            columns[t].cards[if k < columns[t].cards.len() { k } else { columns[t].cards.len() - 1 }].id,
        ),
    decreases s - t,
{
    if t < s {
        lemma_to_the_left(columns, s - 1, t, k);
    }
}

/// Going left from column `s` down with every column empty finds nothing.
proof fn lemma_nothing_to_the_left(columns: Seq<ColumnView>, s: int, k: int)
    requires
        s < columns.len(),
        forall|u: int| 0 <= u <= s ==> (#[trigger] columns[u]).cards.len() == 0,
    ensures
        card_to_the_left(columns, s, k) is None,
    decreases s + 1,
{
    if s >= 0 {
        lemma_nothing_to_the_left(columns, s - 1, k);
    }
}

/// The arrow keys left and right, from the card at place `k` of column `c`, select in the
/// nearest column that way that has cards the card at place `k`, or that column's last
/// card when it is shorter; with no such column they select nothing.
pub proof fn law_sideways_keeps_the_place(columns: Seq<ColumnView>, c: int, k: int)
    requires
        apart(columns),
        0 <= c < columns.len(),
        0 <= k < columns[c].cards.len(),
    ensures
        forall|t: int|
            c < t < columns.len() && (#[trigger] columns[t]).cards.len() > 0 && (forall|u: int|
                c < u < t ==> (#[trigger] columns[u]).cards.len() == 0) ==> next_card_spec(
                columns,
                Some(columns[c].cards[k].id),
                CardDirection::Right,
            ) == Some(
                columns[t].cards[if k < columns[t].cards.len() { k } else { columns[t].cards.len() - 1 }].id,
            ),
        (forall|u: int| c < u < columns.len() ==> (#[trigger] columns[u]).cards.len() == 0) ==> next_card_spec(
            columns,
            Some(columns[c].cards[k].id),
            CardDirection::Right,
        ) is None,
        forall|t: int|
            0 <= t < c && (#[trigger] columns[t]).cards.len() > 0 && (forall|u: int|
                t < u < c ==> (#[trigger] columns[u]).cards.len() == 0) ==> next_card_spec(
                columns,
                Some(columns[c].cards[k].id),
                CardDirection::Left,
            ) == Some(
                columns[t].cards[if k < columns[t].cards.len() { k } else { columns[t].cards.len() - 1 }].id,
            ),
        (forall|u: int| 0 <= u < c ==> (#[trigger] columns[u]).cards.len() == 0) ==> next_card_spec(
            columns,
            Some(columns[c].cards[k].id),
            CardDirection::Left,
        ) is None,
{
    let id = columns[c].cards[k].id;
    assert forall|c2: int, k2: int|
        0 <= c2 < columns.len() && 0 <= k2 < columns[c2].cards.len() && (c2 != c || k2 != k) implies #[trigger] columns[c2].cards[k2].id
        != id by {
        assert(columns[c2].cards[k2].id != columns[c].cards[k].id);
    }
    lemma_card_location_unique(columns, id, c, k);
    assert forall|t: int|
        c < t < columns.len() && (#[trigger] columns[t]).cards.len() > 0 && (forall|u: int|
            c < u < t ==> (#[trigger] columns[u]).cards.len() == 0) implies next_card_spec(
        columns,
        Some(id),
        CardDirection::Right,
    ) == Some(
        columns[t].cards[if k < columns[t].cards.len() { k } else { columns[t].cards.len() - 1 }].id,
    ) by {
        lemma_to_the_right(columns, c + 1, t, k);
    }
    if forall|u: int| c < u < columns.len() ==> (#[trigger] columns[u]).cards.len() == 0 {
        lemma_nothing_to_the_right(columns, c + 1, k);
    }
    assert forall|t: int|
        0 <= t < c && (#[trigger] columns[t]).cards.len() > 0 && (forall|u: int|
            t < u < c ==> (#[trigger] columns[u]).cards.len() == 0) implies next_card_spec(
        columns,
        Some(id),
        CardDirection::Left,
    ) == Some(
        columns[t].cards[if k < columns[t].cards.len() { k } else { columns[t].cards.len() - 1 }].id,
    ) by {
        lemma_to_the_left(columns, c - 1, t, k);
    }
    if forall|u: int| 0 <= u < c ==> (#[trigger] columns[u]).cards.len() == 0 {
        lemma_nothing_to_the_left(columns, c - 1, k);
    }
}

/// The arrow keys up and down stay in the column: from the card at place `k` they select
/// the card just above or just below it, and nothing past either end.
pub proof fn law_up_and_down_stay_in_the_column(columns: Seq<ColumnView>, c: int, k: int)
    requires
        apart(columns),
        0 <= c < columns.len(),
        0 <= k < columns[c].cards.len(),
    ensures
        k > 0 ==> next_card_spec(columns, Some(columns[c].cards[k].id), CardDirection::Up) == Some(
            columns[c].cards[k - 1].id,
        ),
        k == 0 ==> next_card_spec(columns, Some(columns[c].cards[k].id), CardDirection::Up) is None,
        k + 1 < columns[c].cards.len() ==> next_card_spec(
            columns,
            Some(columns[c].cards[k].id),
            CardDirection::Down,
        ) == Some(columns[c].cards[k + 1].id),
        k + 1 == columns[c].cards.len() ==> next_card_spec(
            columns,
            Some(columns[c].cards[k].id),
            CardDirection::Down,
        ) is None,
{
    let id = columns[c].cards[k].id;
    assert forall|c2: int, k2: int|
        0 <= c2 < columns.len() && 0 <= k2 < columns[c2].cards.len() && (c2 != c || k2 != k) implies #[trigger] columns[c2].cards[k2].id
        != id by {
        assert(columns[c2].cards[k2].id != columns[c].cards[k].id);
    }
    lemma_card_location_unique(columns, id, c, k);
}

} // verus!
