//! The board's data: boards, columns, cards, tags, checklist items, the card history
//! and the operations that undo and redo replay; with the mathematical view of each.
use vstd::prelude::*;
use crate::date::DueDate;

verus! {

pub type BoardId = i64;
pub type ColumnId = i64;
pub type CardId = i64;
pub type TagId = i64;
pub type ChecklistItemId = i64;

/// A due date at most this many days ahead counts as soon.
pub const SOON_THRESHOLD_DAYS: i64 = 3;

#[derive(Debug, Clone, PartialEq, Eq)]
pub struct BoardSummary {
    pub id: BoardId,
    pub name: String,
    pub created_at: i64,
    pub updated_at: i64,
}

#[derive(Debug, Clone, Copy, PartialEq, Eq, Structural)]
pub enum CardEventKind {
    Created,
    Moved,
    Archived,
    Restored,
    Deleted,
}

/// The name under which a card event kind is stored.
pub open spec fn event_kind_name(kind: CardEventKind) -> Seq<char> {
    match kind {
        CardEventKind::Created => "created"@,
        CardEventKind::Moved => "moved"@,
        CardEventKind::Archived => "archived"@,
        CardEventKind::Restored => "restored"@,
        CardEventKind::Deleted => "deleted"@,
    }
}

impl CardEventKind {
    /// The name under which this kind is stored.
    pub fn as_str(self) -> (r: &'static str)
        ensures
            r@ == event_kind_name(self),
    {
        match self {
            Self::Created => "created",
            Self::Moved => "moved",
            Self::Archived => "archived",
            Self::Restored => "restored",
            Self::Deleted => "deleted",
        }
    }
}

/// One step in a card's history, kept until the next save writes it.
#[derive(Debug, Clone, Copy, PartialEq, Eq, Structural)]
pub struct CardEvent {
    pub card_id: CardId,
    pub kind: CardEventKind,
    pub from_column_id: Option<ColumnId>,
    pub to_column_id: Option<ColumnId>,
    pub at: i64,
}

#[derive(Debug, Clone, PartialEq, Eq)]
pub struct ChecklistItem {
    pub id: ChecklistItemId,
    pub card_id: CardId,
    pub text: String,
    pub checked: bool,
    pub position: i64,
    pub created_at: i64,
    pub updated_at: i64,
}

/// A checklist item as the card editor hands it over: `id` is `None` for a new item.
#[derive(Debug, Clone, PartialEq, Eq)]
pub struct ChecklistItemDraft {
    pub id: Option<ChecklistItemId>,
    pub text: String,
    pub checked: bool,
}

#[derive(Debug, Clone, PartialEq, Eq)]
pub struct Card {
    pub id: CardId,
    pub column_id: ColumnId,
    pub title: String,
    pub description: String,
    pub position: i64,
    pub created_at: i64,
    pub updated_at: i64,
    pub due_date: Option<DueDate>,
    pub tag_ids: Vec<TagId>,
    pub checklist_items: Vec<ChecklistItem>,
    pub archived_at: Option<i64>,
}

#[derive(Debug, Clone, PartialEq, Eq)]
pub struct Tag {
    pub id: TagId,
    pub board_id: BoardId,
    pub name: String,
    pub color: String,
    pub created_at: i64,
    pub updated_at: i64,
}

#[derive(Debug, Clone, PartialEq, Eq)]
pub struct Column {
    pub id: ColumnId,
    pub board_id: BoardId,
    pub name: String,
    pub position: i64,
    pub created_at: i64,
    pub updated_at: i64,
    pub wip_limit: Option<i64>,
    pub cards: Vec<Card>,
}

/// What undo and redo need to know of one user operation.
#[derive(Debug, Clone, PartialEq, Eq)]
pub enum BoardOperation {
    MoveCard {
        card_id: CardId,
        from_column_id: ColumnId,
        from_index: usize,
        to_column_id: ColumnId,
        to_index: usize,
    },
    MoveColumn { column_id: ColumnId, from_index: usize, to_index: usize },
    AddCard { card: Card },
    UpdateCard {
        card_id: CardId,
        before_title: String,
        before_description: String,
        after_title: String,
        after_description: String,
    },
    EditCard {
        card_id: CardId,
        before_title: String,
        before_description: String,
        before_due_date: Option<DueDate>,
        before_tag_ids: Vec<TagId>,
        after_title: String,
        after_description: String,
        after_due_date: Option<DueDate>,
        after_tag_ids: Vec<TagId>,
        before_checklist_items: Vec<ChecklistItem>,
        after_checklist_items: Vec<ChecklistItem>,
    },
    CopyCard { card: Card, index: usize },
    AddChecklistItem { card_id: CardId, item: ChecklistItem },
    UpdateChecklistItem {
        card_id: CardId,
        item_id: ChecklistItemId,
        before_text: String,
        after_text: String,
    },
    SetChecklistItemChecked { card_id: CardId, item_id: ChecklistItemId, before: bool, after: bool },
    DeleteChecklistItem { card_id: CardId, item: ChecklistItem, index: usize },
    MoveChecklistItem {
        card_id: CardId,
        item_id: ChecklistItemId,
        from_index: usize,
        to_index: usize,
    },
    DeleteCard { card: Card, index: usize },
    ArchiveCard { card: Card, archived_card: Card, index: usize, archived_index: usize },
    ArchiveColumn {
        column_id: ColumnId,
        cards: Vec<ArchivedCardOperation>,
        archived_start: usize,
    },
    RestoreCard { archived_card: Card, restored_card: Card, index: usize, archive_index: usize },
    SetDueDate { card_id: CardId, before: Option<DueDate>, after: Option<DueDate> },
    SortColumnByDueDate { column_id: ColumnId, before_order: Vec<CardId>, after_order: Vec<CardId> },
    SetColumnWipLimit { column_id: ColumnId, before: Option<i64>, after: Option<i64> },
    AddTag { tag: Tag },
    RenameTag { tag_id: TagId, before: String, after: String },
    SetTagColor { tag_id: TagId, before: String, after: String },
    RemoveTag {
        tag: Tag,
        index: usize,
        active_card_tags: Vec<(CardId, Vec<TagId>)>,
        archived_card_tags: Vec<(CardId, Vec<TagId>)>,
    },
    SetCardTags { card_id: CardId, before: Vec<TagId>, after: Vec<TagId> },
    AddColumn { column: Column, index: usize },
    RenameColumn { column_id: ColumnId, before: String, after: String },
    RemoveColumn {
        column: Column,
        index: usize,
        fallback_column_id: ColumnId,
        archived_card_column_ids: Vec<(CardId, ColumnId)>,
    },
}

#[derive(Debug, Clone, PartialEq, Eq)]
pub struct ArchivedCardOperation {
    pub card: Card,
    pub archived_card: Card,
    pub index: usize,
}

/// A board with its columns, cards, tags, archive, pending history and undo/redo stacks.
#[derive(Debug, Clone)]
pub struct Board {
    pub id: BoardId,
    pub name: String,
    pub created_at: i64,
    pub updated_at: i64,
    pub next_card_id: CardId,
    pub next_column_id: ColumnId,
    pub next_tag_id: TagId,
    pub next_checklist_item_id: ChecklistItemId,
    pub tags: Vec<Tag>,
    pub archived_cards: Vec<Card>,
    pub columns: Vec<Column>,
    /// Events that are written by the next save and then cleared.
    pub pending_events: Vec<CardEvent>,
    pub undo_stack: Vec<BoardOperation>,
    pub redo_stack: Vec<BoardOperation>,
}

#[derive(Debug, PartialEq, Eq)]
pub enum BoardError {
    EmptyBoardName,
    ColumnNotFound(ColumnId),
    CardNotFound(CardId),
    EmptyCardTitle,
    EmptyColumnName,
    InvalidDueDate(String),
    InvalidWipLimit(String),
    EmptyTagName,
    TagNotFound(TagId),
    DuplicateTagName(String),
    EmptyChecklistItemText,
    ChecklistItemNotFound(ChecklistItemId, CardId),
    LastColumn,
}

/// How close a due date is to today.
#[derive(Debug, Clone, Copy, PartialEq, Eq, Structural)]
pub enum DueStatus {
    Overdue(i64),
    Today,
    Soon(i64),
    Upcoming(i64),
    NoDate,
}

// ---------------------------------------------------------------------------------------
// Views

#[verifier::ext_equal]
pub struct ChecklistItemView {
    pub id: ChecklistItemId,
    pub card_id: CardId,
    pub text: Seq<char>,
    pub checked: bool,
    pub position: i64,
    pub created_at: i64,
    pub updated_at: i64,
}

#[verifier::ext_equal]
pub struct CardView {
    pub id: CardId,
    pub column_id: ColumnId,
    pub title: Seq<char>,
    pub description: Seq<char>,
    pub position: i64,
    pub created_at: i64,
    pub updated_at: i64,
    pub due_date: Option<DueDate>,
    pub tag_ids: Seq<TagId>,
    pub checklist_items: Seq<ChecklistItemView>,
    pub archived_at: Option<i64>,
}

#[verifier::ext_equal]
pub struct TagView {
    pub id: TagId,
    pub board_id: BoardId,
    pub name: Seq<char>,
    pub color: Seq<char>,
    pub created_at: i64,
    pub updated_at: i64,
}

#[verifier::ext_equal]
pub struct ColumnView {
    pub id: ColumnId,
    pub board_id: BoardId,
    pub name: Seq<char>,
    pub position: i64,
    pub created_at: i64,
    pub updated_at: i64,
    pub wip_limit: Option<i64>,
    pub cards: Seq<CardView>,
}

#[verifier::ext_equal]
pub struct ArchivedCardView {
    pub card: CardView,
    pub archived_card: CardView,
    pub index: usize,
}

#[verifier::ext_equal]
pub enum OperationView {
    MoveCard {
        card_id: CardId,
        from_column_id: ColumnId,
        from_index: usize,
        to_column_id: ColumnId,
        to_index: usize,
    },
    MoveColumn { column_id: ColumnId, from_index: usize, to_index: usize },
    AddCard { card: CardView },
    UpdateCard {
        card_id: CardId,
        before_title: Seq<char>,
        before_description: Seq<char>,
        after_title: Seq<char>,
        after_description: Seq<char>,
    },
    EditCard {
        card_id: CardId,
        before_title: Seq<char>,
        before_description: Seq<char>,
        before_due_date: Option<DueDate>,
        before_tag_ids: Seq<TagId>,
        after_title: Seq<char>,
        after_description: Seq<char>,
        after_due_date: Option<DueDate>,
        after_tag_ids: Seq<TagId>,
        before_checklist_items: Seq<ChecklistItemView>,
        after_checklist_items: Seq<ChecklistItemView>,
    },
    CopyCard { card: CardView, index: usize },
    AddChecklistItem { card_id: CardId, item: ChecklistItemView },
    UpdateChecklistItem {
        card_id: CardId,
        item_id: ChecklistItemId,
        before_text: Seq<char>,
        after_text: Seq<char>,
    },
    SetChecklistItemChecked { card_id: CardId, item_id: ChecklistItemId, before: bool, after: bool },
    DeleteChecklistItem { card_id: CardId, item: ChecklistItemView, index: usize },
    MoveChecklistItem {
        card_id: CardId,
        item_id: ChecklistItemId,
        from_index: usize,
        to_index: usize,
    },
    DeleteCard { card: CardView, index: usize },
    ArchiveCard { card: CardView, archived_card: CardView, index: usize, archived_index: usize },
    ArchiveColumn { column_id: ColumnId, cards: Seq<ArchivedCardView>, archived_start: usize },
    RestoreCard {
        archived_card: CardView,
        restored_card: CardView,
        index: usize,
        archive_index: usize,
    },
    SetDueDate { card_id: CardId, before: Option<DueDate>, after: Option<DueDate> },
    SortColumnByDueDate {
        column_id: ColumnId,
        before_order: Seq<CardId>,
        after_order: Seq<CardId>,
    },
    SetColumnWipLimit { column_id: ColumnId, before: Option<i64>, after: Option<i64> },
    AddTag { tag: TagView },
    RenameTag { tag_id: TagId, before: Seq<char>, after: Seq<char> },
    SetTagColor { tag_id: TagId, before: Seq<char>, after: Seq<char> },
    RemoveTag {
        tag: TagView,
        index: usize,
        active_card_tags: Seq<(CardId, Seq<TagId>)>,
        archived_card_tags: Seq<(CardId, Seq<TagId>)>,
    },
    SetCardTags { card_id: CardId, before: Seq<TagId>, after: Seq<TagId> },
    AddColumn { column: ColumnView, index: usize },
    RenameColumn { column_id: ColumnId, before: Seq<char>, after: Seq<char> },
    RemoveColumn {
        column: ColumnView,
        index: usize,
        fallback_column_id: ColumnId,
        archived_card_column_ids: Seq<(CardId, ColumnId)>,
    },
}

#[verifier::ext_equal]
pub struct BoardState {
    pub id: BoardId,
    pub name: Seq<char>,
    pub created_at: i64,
    pub updated_at: i64,
    pub next_card_id: CardId,
    pub next_column_id: ColumnId,
    pub next_tag_id: TagId,
    pub next_checklist_item_id: ChecklistItemId,
    pub tags: Seq<TagView>,
    pub archived_cards: Seq<CardView>,
    pub columns: Seq<ColumnView>,
    pub pending_events: Seq<CardEvent>,
    pub undo_stack: Seq<OperationView>,
    pub redo_stack: Seq<OperationView>,
}

impl View for ChecklistItem {
    type V = ChecklistItemView;

    open spec fn view(&self) -> ChecklistItemView {
        ChecklistItemView {
            id: self.id,
            card_id: self.card_id,
            text: self.text@,
            checked: self.checked,
            position: self.position,
            created_at: self.created_at,
            updated_at: self.updated_at,
        }
    }
}

pub open spec fn items_view(items: Seq<ChecklistItem>) -> Seq<ChecklistItemView> {
    items.map_values(|item: ChecklistItem| item@)
}

impl View for Card {
    type V = CardView;

    open spec fn view(&self) -> CardView {
        CardView {
            id: self.id,
            column_id: self.column_id,
            title: self.title@,
            description: self.description@,
            position: self.position,
            created_at: self.created_at,
            updated_at: self.updated_at,
            due_date: self.due_date,
            tag_ids: self.tag_ids@,
            checklist_items: items_view(self.checklist_items@),
            archived_at: self.archived_at,
        }
    }
}

pub open spec fn cards_view(cards: Seq<Card>) -> Seq<CardView> {
    cards.map_values(|card: Card| card@)
}

impl View for Tag {
    type V = TagView;

    open spec fn view(&self) -> TagView {
        TagView {
            id: self.id,
            board_id: self.board_id,
            name: self.name@,
            color: self.color@,
            created_at: self.created_at,
            updated_at: self.updated_at,
        }
    }
}

pub open spec fn tags_view(tags: Seq<Tag>) -> Seq<TagView> {
    tags.map_values(|tag: Tag| tag@)
}

impl View for Column {
    type V = ColumnView;

    open spec fn view(&self) -> ColumnView {
        ColumnView {
            id: self.id,
            board_id: self.board_id,
            name: self.name@,
            position: self.position,
            created_at: self.created_at,
            updated_at: self.updated_at,
            wip_limit: self.wip_limit,
            cards: cards_view(self.cards@),
        }
    }
}

pub open spec fn columns_view(columns: Seq<Column>) -> Seq<ColumnView> {
    columns.map_values(|column: Column| column@)
}

impl View for ArchivedCardOperation {
    type V = ArchivedCardView;

    open spec fn view(&self) -> ArchivedCardView {
        ArchivedCardView { card: self.card@, archived_card: self.archived_card@, index: self.index }
    }
}

pub open spec fn tag_assignments_view(a: Seq<(CardId, Vec<TagId>)>) -> Seq<(CardId, Seq<TagId>)> {
    a.map_values(|p: (CardId, Vec<TagId>)| (p.0, p.1@))
}

impl View for BoardOperation {
    type V = OperationView;

    open spec fn view(&self) -> OperationView {
        match self {
            BoardOperation::MoveCard { card_id, from_column_id, from_index, to_column_id, to_index } =>
                OperationView::MoveCard {
                card_id: *card_id,
                from_column_id: *from_column_id,
                from_index: *from_index,
                to_column_id: *to_column_id,
                to_index: *to_index,
            },
            BoardOperation::MoveColumn { column_id, from_index, to_index } =>
                OperationView::MoveColumn {
                column_id: *column_id,
                from_index: *from_index,
                to_index: *to_index,
            },
            BoardOperation::AddCard { card } => OperationView::AddCard { card: card@ },
            BoardOperation::UpdateCard {
                card_id,
                before_title,
                before_description,
                after_title,
                after_description,
            } => OperationView::UpdateCard {
                card_id: *card_id,
                before_title: before_title@,
                before_description: before_description@,
                after_title: after_title@,
                after_description: after_description@,
            },
            BoardOperation::EditCard {
                card_id,
                before_title,
                before_description,
                before_due_date,
                before_tag_ids,
                after_title,
                after_description,
                after_due_date,
                after_tag_ids,
                before_checklist_items,
                after_checklist_items,
            } => OperationView::EditCard {
                card_id: *card_id,
                before_title: before_title@,
                before_description: before_description@,
                before_due_date: *before_due_date,
                before_tag_ids: before_tag_ids@,
                after_title: after_title@,
                after_description: after_description@,
                after_due_date: *after_due_date,
                after_tag_ids: after_tag_ids@,
                before_checklist_items: items_view(before_checklist_items@),
                after_checklist_items: items_view(after_checklist_items@),
            },
            BoardOperation::CopyCard { card, index } => OperationView::CopyCard {
                card: card@,
                index: *index,
            },
            BoardOperation::AddChecklistItem { card_id, item } =>
                OperationView::AddChecklistItem { card_id: *card_id, item: item@ },
            BoardOperation::UpdateChecklistItem { card_id, item_id, before_text, after_text } =>
                OperationView::UpdateChecklistItem {
                card_id: *card_id,
                item_id: *item_id,
                before_text: before_text@,
                after_text: after_text@,
            },
            BoardOperation::SetChecklistItemChecked { card_id, item_id, before, after } =>
                OperationView::SetChecklistItemChecked {
                card_id: *card_id,
                item_id: *item_id,
                before: *before,
                after: *after,
            },
            BoardOperation::DeleteChecklistItem { card_id, item, index } =>
                OperationView::DeleteChecklistItem {
                card_id: *card_id,
                item: item@,
                index: *index,
            },
            BoardOperation::MoveChecklistItem { card_id, item_id, from_index, to_index } =>
                OperationView::MoveChecklistItem {
                card_id: *card_id,
                item_id: *item_id,
                from_index: *from_index,
                to_index: *to_index,
            },
            BoardOperation::DeleteCard { card, index } => OperationView::DeleteCard {
                card: card@,
                index: *index,
            },
            BoardOperation::ArchiveCard { card, archived_card, index, archived_index } =>
                OperationView::ArchiveCard {
                card: card@,
                archived_card: archived_card@,
                index: *index,
                archived_index: *archived_index,
            },
            BoardOperation::ArchiveColumn { column_id, cards, archived_start } =>
                OperationView::ArchiveColumn {
                column_id: *column_id,
                cards: cards@.map_values(|c: ArchivedCardOperation| c@),
                archived_start: *archived_start,
            },
            BoardOperation::RestoreCard { archived_card, restored_card, index, archive_index } =>
                OperationView::RestoreCard {
                archived_card: archived_card@,
                restored_card: restored_card@,
                index: *index,
                archive_index: *archive_index,
            },
            BoardOperation::SetDueDate { card_id, before, after } => OperationView::SetDueDate {
                card_id: *card_id,
                before: *before,
                after: *after,
            },
            BoardOperation::SortColumnByDueDate { column_id, before_order, after_order } =>
                OperationView::SortColumnByDueDate {
                column_id: *column_id,
                before_order: before_order@,
                after_order: after_order@,
            },
            BoardOperation::SetColumnWipLimit { column_id, before, after } =>
                OperationView::SetColumnWipLimit {
                column_id: *column_id,
                before: *before,
                after: *after,
            },
            BoardOperation::AddTag { tag } => OperationView::AddTag { tag: tag@ },
            BoardOperation::RenameTag { tag_id, before, after } => OperationView::RenameTag {
                tag_id: *tag_id,
                before: before@,
                after: after@,
            },
            BoardOperation::SetTagColor { tag_id, before, after } => OperationView::SetTagColor {
                tag_id: *tag_id,
                before: before@,
                after: after@,
            },
            BoardOperation::RemoveTag { tag, index, active_card_tags, archived_card_tags } =>
                OperationView::RemoveTag {
                tag: tag@,
                index: *index,
                active_card_tags: tag_assignments_view(active_card_tags@),
                archived_card_tags: tag_assignments_view(archived_card_tags@),
            },
            BoardOperation::SetCardTags { card_id, before, after } => OperationView::SetCardTags {
                card_id: *card_id,
                before: before@,
                after: after@,
            },
            BoardOperation::AddColumn { column, index } => OperationView::AddColumn {
                column: column@,
                index: *index,
            },
            BoardOperation::RenameColumn { column_id, before, after } =>
                OperationView::RenameColumn {
                column_id: *column_id,
                before: before@,
                after: after@,
            },
            BoardOperation::RemoveColumn {
                column,
                index,
                fallback_column_id,
                archived_card_column_ids,
            } => OperationView::RemoveColumn {
                column: column@,
                index: *index,
                fallback_column_id: *fallback_column_id,
                archived_card_column_ids: archived_card_column_ids@,
            },
        }
    }
}

pub open spec fn operations_view(ops: Seq<BoardOperation>) -> Seq<OperationView> {
    ops.map_values(|op: BoardOperation| op@)
}

impl View for Board {
    type V = BoardState;

    open spec fn view(&self) -> BoardState {
        BoardState {
            id: self.id,
            name: self.name@,
            created_at: self.created_at,
            updated_at: self.updated_at,
            next_card_id: self.next_card_id,
            next_column_id: self.next_column_id,
            next_tag_id: self.next_tag_id,
            next_checklist_item_id: self.next_checklist_item_id,
            tags: tags_view(self.tags@),
            archived_cards: cards_view(self.archived_cards@),
            columns: columns_view(self.columns@),
            pending_events: self.pending_events@,
            undo_stack: operations_view(self.undo_stack@),
            redo_stack: operations_view(self.redo_stack@),
        }
    }
}

} // verus!
