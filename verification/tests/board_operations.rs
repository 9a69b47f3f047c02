use chrono::{Datelike, NaiveDate};
use ekanban::date::DueDate;
use ekanban::model::{
    card_matches_search, due_status, normalize_search_text, parse_card_number_query,
    parse_due_date, Board, BoardError, CardEventKind, ChecklistItemDraft, DueStatus,
};

fn due(date: NaiveDate) -> DueDate {
    DueDate::from_days_from_ce(date.num_days_from_ce())
}

fn ymd(year: i32, month: u32, day: u32) -> DueDate {
    due(NaiveDate::from_ymd_opt(year, month, day).unwrap())
}

#[test]
fn moves_card_to_another_column() {
    let mut board = Board::fixture();
    let card_id = board.columns[0].cards[0].id;

    assert!(board.move_card(card_id, 2, 0).unwrap());
    assert_eq!(board.columns[0].cards.len(), 1);
    assert_eq!(board.columns[1].cards[0].id, card_id);
    assert_eq!(board.columns[1].cards[0].column_id, 2);
}

#[test]
fn reorders_card_inside_a_column() {
    let mut board = Board::fixture();
    let card_id = board.columns[0].cards[0].id;

    assert!(board.move_card(card_id, 1, 2).unwrap());
    assert_eq!(board.columns[0].cards[0].title, "D&D の操作を試す");
    assert_eq!(board.columns[0].cards[1].id, card_id);
}

#[test]
fn moving_a_card_to_its_current_position_is_a_noop() {
    let mut board = Board::fixture();
    let card_id = board.columns[0].cards[0].id;

    assert!(!board.move_card(card_id, 1, 0).unwrap());
    assert_eq!(board.columns[0].cards[0].id, card_id);
}

#[test]
fn reorders_columns() {
    let mut board = Board::fixture();

    let end = board.columns.len();
    assert!(board.move_column(1, end).unwrap());
    assert_eq!(
        board
            .columns
            .iter()
            .map(|column| column.name.as_str())
            .collect::<Vec<_>>(),
        ["進行中", "完了", "やること"]
    );
    assert_eq!(board.columns[2].position, 2);
}

#[test]
fn moving_a_column_to_its_current_position_is_a_noop() {
    let mut board = Board::fixture();

    assert!(!board.move_column(2, 1).unwrap());
    assert_eq!(board.columns[1].id, 2);
}

#[test]
fn rejects_unknown_card_and_column() {
    let mut board = Board::fixture();
    assert_eq!(board.move_card(999, 1, 0), Err(BoardError::CardNotFound(999)));
    let card_id = board.columns[0].cards[0].id;
    assert_eq!(board.move_card(card_id, 999, 0), Err(BoardError::ColumnNotFound(999)));
}

#[test]
fn discarding_an_added_card_leaves_no_trace() {
    let mut board = Board::fixture();
    board.discard_pending_events();
    let before = board.clone();

    let card_id = board.add_card(1, "", "").unwrap();
    assert_eq!(board.columns[0].cards.len(), 3);

    board.discard_added_card(card_id).unwrap();

    assert_eq!(board.columns[0].cards.len(), 2);
    assert!(board.pending_events.is_empty());
    assert!(!board.can_undo());
    assert_eq!(board.columns, before.columns);
}

#[test]
fn discarding_an_added_card_keeps_the_operations_before_it() {
    let mut board = Board::fixture();
    let moved = board.columns[0].cards[0].id;
    board.move_card(moved, 2, 0).unwrap();

    let card_id = board.add_card(1, "", "").unwrap();
    board.discard_added_card(card_id).unwrap();

    assert!(board.undo().unwrap());
    assert_eq!(board.columns[0].cards[0].id, moved);
}

#[test]
fn discarding_an_added_card_does_not_reuse_its_id() {
    let mut board = Board::fixture();

    let discarded = board.add_card(1, "", "").unwrap();
    board.discard_added_card(discarded).unwrap();
    let next = board.add_card(1, "次のカード", "").unwrap();

    assert_ne!(next, discarded);
}

#[test]
fn rejects_discarding_a_card_that_is_not_there() {
    let mut board = Board::fixture();
    assert_eq!(board.discard_added_card(999), Err(BoardError::CardNotFound(999)));
}

#[test]
fn updates_card_content() {
    let mut board = Board::fixture();
    let card_id = board.columns[0].cards[0].id;

    assert!(board.update_card(card_id, "更新したタイトル", "更新した説明").unwrap());
    assert_eq!(board.columns[0].cards[0].title, "更新したタイトル");
    assert_eq!(board.columns[0].cards[0].description, "更新した説明");
}

#[test]
fn undoes_a_card_editor_save_as_one_operation() {
    let mut board = Board::fixture();
    let card_id = board.columns[0].cards[0].id;
    let tag_id = board.add_tag("重要", "#ef4444").unwrap();
    let due_date = ymd(2026, 9, 30);

    board
        .update_card_details(card_id, "更新", "説明", Some(due_date), vec![tag_id])
        .unwrap();
    assert!(board.undo().unwrap());
    let card = &board.columns[0].cards[0];
    assert_eq!(card.title, "GPUI の画面を作る");
    assert_eq!(card.description, "カラムとカードを表示する");
    assert_eq!(card.due_date, None);
    assert!(card.tag_ids.is_empty());
    assert!(board.redo().unwrap());
    let card = &board.columns[0].cards[0];
    assert_eq!(card.title, "更新");
    assert_eq!(card.due_date, Some(due_date));
    assert_eq!(card.tag_ids, vec![tag_id]);
}

#[test]
fn rejects_empty_card_title() {
    let mut board = Board::fixture();
    let card_id = board.columns[0].cards[0].id;

    assert_eq!(board.update_card(card_id, "  ", "説明"), Err(BoardError::EmptyCardTitle));
}

#[test]
fn removes_card_and_reindexes_remaining_cards() {
    let mut board = Board::fixture();
    let removed_id = board.columns[0].cards[0].id;

    board.remove_card(removed_id).unwrap();

    assert_eq!(board.columns[0].cards.len(), 1);
    assert_eq!(board.columns[0].cards[0].position, 0);
    assert_eq!(board.columns[0].cards[0].title, "D&D の操作を試す");
}

#[test]
fn does_not_reuse_deleted_card_ids() {
    let mut board = Board::fixture();
    let first = board.add_card(1, "1", "").unwrap();
    let second = board.add_card(1, "2", "").unwrap();
    let third = board.add_card(1, "3", "").unwrap();

    board.remove_card(third).unwrap();

    assert_eq!(board.add_card(1, "4", "").unwrap(), third + 1);
    assert_eq!(second, first + 1);
}

#[test]
fn does_not_reuse_deleted_column_ids() {
    let mut board = Board::fixture();
    let first = board.add_column("追加 1").unwrap();
    let second = board.add_column("追加 2").unwrap();

    board.remove_column(second).unwrap();

    assert_eq!(board.add_column("追加 3").unwrap(), second + 1);
    assert_eq!(first + 1, second);
}

#[test]
fn renames_column_and_skips_unchanged_values() {
    let mut board = Board::fixture();

    assert!(!board.rename_column(1, "やること").unwrap());
    assert!(board.rename_column(1, "近日中").unwrap());
    assert_eq!(board.columns[0].name, "近日中");
}

#[test]
fn rejects_empty_column_names() {
    let mut board = Board::fixture();

    assert_eq!(board.add_column("  "), Err(BoardError::EmptyColumnName));
    assert_eq!(board.rename_column(1, "\n"), Err(BoardError::EmptyColumnName));
}

#[test]
fn renames_a_board_and_rejects_empty_names() {
    let mut board = Board::fixture();

    assert!(!board.rename("個人 Kanban").unwrap());
    assert!(board.rename("仕事").unwrap());
    assert_eq!(board.name, "仕事");
    assert_eq!(board.rename("  "), Err(BoardError::EmptyBoardName));
}

#[test]
fn classifies_due_date_boundaries() {
    let today = NaiveDate::from_ymd_opt(2026, 9, 4).unwrap();

    assert_eq!(due_status(None, due(today)), DueStatus::NoDate);
    assert_eq!(due_status(Some(due(today.pred_opt().unwrap())), due(today)), DueStatus::Overdue(1));
    assert_eq!(due_status(Some(due(today)), due(today)), DueStatus::Today);
    assert_eq!(due_status(Some(due(today.succ_opt().unwrap())), due(today)), DueStatus::Soon(1));
    assert_eq!(
        due_status(Some(due(today.checked_add_days(chrono::Days::new(3)).unwrap())), due(today)),
        DueStatus::Soon(3)
    );
    assert_eq!(
        due_status(Some(due(today.checked_add_days(chrono::Days::new(4)).unwrap())), due(today)),
        DueStatus::Upcoming(4)
    );
}

#[test]
fn handles_leap_day_and_year_boundaries() {
    let new_years_eve = ymd(2026, 12, 31);
    let new_years_day = ymd(2027, 1, 1);
    assert_eq!(due_status(Some(new_years_day), new_years_eve), DueStatus::Soon(1));

    let leap_day = ymd(2028, 2, 29);
    let march_first = ymd(2028, 3, 1);
    assert_eq!(due_status(Some(leap_day), march_first), DueStatus::Overdue(1));
}

#[test]
fn sets_due_date_and_skips_unchanged_values() {
    let mut board = Board::fixture();
    let card_id = board.columns[0].cards[0].id;
    let due_date = ymd(2026, 9, 30);

    assert!(board.set_card_due_date(card_id, Some(due_date)).unwrap());
    assert!(!board.set_card_due_date(card_id, Some(due_date)).unwrap());
    assert_eq!(board.columns[0].cards[0].due_date, Some(due_date));
    assert!(board.set_card_due_date(card_id, None).unwrap());
}

#[test]
fn parses_and_rejects_due_date_strings() {
    assert_eq!(parse_due_date("2028-02-29").unwrap(), Some(ymd(2028, 2, 29)));
    assert_eq!(parse_due_date(" ").unwrap(), None);
    assert_eq!(
        parse_due_date("2028-02-30"),
        Err(BoardError::InvalidDueDate("2028-02-30".to_string()))
    );
}

#[test]
fn sorts_cards_by_due_date_with_empty_dates_last() {
    let mut board = Board::fixture();
    let first = board.columns[0].cards[0].id;
    let second = board.columns[0].cards[1].id;
    let first_due = ymd(2026, 10, 10);
    let second_due = ymd(2026, 10, 5);
    board.set_card_due_date(first, Some(first_due)).unwrap();
    board.set_card_due_date(second, Some(second_due)).unwrap();

    assert!(board.sort_column_by_due_date(1).unwrap());
    assert_eq!(board.columns[0].cards[0].id, second);
    assert_eq!(board.columns[0].cards[1].id, first);
    assert!(!board.sort_column_by_due_date(1).unwrap());
    assert_eq!(board.columns[0].cards[0].position, 0);
}

#[test]
fn searches_case_insensitively_and_normalizes_full_width_ascii() {
    let mut board = Board::fixture();
    board.update_card(1, "Rust Ｋａｎｂａｎ", "ローカル DB").unwrap();
    let card = &board.columns[0].cards[0];

    assert_eq!(normalize_search_text(" ＫＡＮＢＡＮ　"), " kanban ");
    assert!(card_matches_search(card, "kanban"));
    assert!(card_matches_search(card, "ローカル"));
    assert!(!card_matches_search(card, "存在しない"));
}

#[test]
fn finds_a_card_by_its_number() {
    let board = Board::fixture();
    let first = &board.columns[0].cards[0];
    let second = &board.columns[0].cards[1];
    assert_ne!(first.id, second.id, "the fixture has two distinct cards");

    let query = format!("#{}", first.id);
    assert!(card_matches_search(first, &query));
    assert!(!card_matches_search(second, &query));

    assert_eq!(parse_card_number_query("＃１"), Some(1));
    assert_eq!(parse_card_number_query("  #12  "), Some(12));
}

#[test]
fn keeps_searching_for_text_that_merely_starts_with_a_hash() {
    let mut board = Board::fixture();
    board.update_card(1, "#イベント の準備", "").unwrap();
    let card = &board.columns[0].cards[0];

    assert_eq!(parse_card_number_query("#イベント"), None);
    assert_eq!(parse_card_number_query("#"), None);
    assert_eq!(parse_card_number_query("#12a"), None);
    assert_eq!(parse_card_number_query("イベント"), None);
    assert!(card_matches_search(card, "#イベント"));
}

#[test]
fn sets_wip_limit_and_rejects_non_positive_values() {
    let mut board = Board::fixture();

    assert!(board.set_column_wip_limit(1, Some(3)).unwrap());
    assert!(!board.set_column_wip_limit(1, Some(3)).unwrap());
    assert_eq!(board.columns[0].wip_limit, Some(3));
    assert_eq!(
        board.set_column_wip_limit(1, Some(0)),
        Err(BoardError::InvalidWipLimit("上限は 1 以上で入力してください".to_string()))
    );
    assert!(board.set_column_wip_limit(1, None).unwrap());
}

#[test]
fn manages_tags_and_card_assignments() {
    let mut board = Board::fixture();
    let tag_id = board.add_tag("重要", "#ef4444").unwrap();
    let other_tag_id = board.add_tag("個人", "#60a5fa").unwrap();
    let card_id = board.columns[0].cards[0].id;

    assert!(board.set_card_tags(card_id, vec![other_tag_id, tag_id, tag_id]).unwrap());
    assert_eq!(board.columns[0].cards[0].tag_ids, vec![tag_id, other_tag_id]);
    assert!(!board.set_card_tags(card_id, vec![tag_id, other_tag_id]).unwrap());
    assert!(board.rename_tag(tag_id, "最重要").unwrap());
    board.remove_tag(other_tag_id).unwrap();
    assert_eq!(board.columns[0].cards[0].tag_ids, vec![tag_id]);
}

#[test]
fn archives_and_restores_cards_without_reusing_ids() {
    let mut board = Board::fixture();
    let card_id = board.columns[0].cards[0].id;

    assert!(board.archive_card(card_id).unwrap());
    assert!(board.columns[0].cards.iter().all(|card| card.id != card_id));
    assert!(board.archived_cards[0].archived_at.is_some());

    assert!(board.restore_card(card_id).unwrap());
    assert!(board.columns[0].cards.iter().any(|card| card.id == card_id));
    assert!(board.archived_cards.is_empty());
    let added = board.add_card(1, "新規", "").unwrap();
    assert_eq!(added, board.next_card_id - 1);
}

#[test]
fn records_card_lifecycle_events_but_not_intra_column_reorders() {
    let mut board = Board::fixture();
    board.pending_events.clear();
    let card_id = board.columns[0].cards[0].id;

    assert!(board.move_card(card_id, 2, 1).unwrap());
    assert!(board.move_card(card_id, 2, 0).unwrap());
    assert!(board.archive_card(card_id).unwrap());

    assert_eq!(
        board.pending_events.iter().map(|event| event.kind).collect::<Vec<_>>(),
        [CardEventKind::Moved, CardEventKind::Archived]
    );
    assert_eq!(board.pending_events[0].from_column_id, Some(1));
    assert_eq!(board.pending_events[0].to_column_id, Some(2));
    assert_eq!(board.pending_events[1].from_column_id, Some(2));
    assert_eq!(board.pending_events[1].to_column_id, None);
}

#[test]
fn records_one_archived_event_for_each_card_in_a_column() {
    let mut board = Board::fixture();
    board.pending_events.clear();

    assert_eq!(board.archive_column(1).unwrap(), 2);
    assert_eq!(board.pending_events.len(), 2);
    assert!(board.pending_events.iter().all(|event| event.kind == CardEventKind::Archived));
}

#[test]
fn records_deleted_events_for_cards_removed_directly_or_with_a_column() {
    let mut board = Board::fixture();
    board.pending_events.clear();
    let card_id = board.columns[0].cards[0].id;

    board.delete_card(card_id).unwrap();
    assert_eq!(board.pending_events[0].kind, CardEventKind::Deleted);
    assert_eq!(board.pending_events[0].from_column_id, Some(1));

    board.pending_events.clear();
    let remaining_card_id = board.columns[0].cards[0].id;
    board.remove_column(1).unwrap();
    assert_eq!(board.pending_events.len(), 1);
    assert_eq!(board.pending_events[0].card_id, remaining_card_id);
    assert_eq!(board.pending_events[0].kind, CardEventKind::Deleted);
}

#[test]
fn undoes_and_redoes_card_operations_without_reusing_snapshots() {
    let mut board = Board::fixture();
    let card_id = board.columns[0].cards[0].id;
    let original_title = board.columns[0].cards[0].title.clone();

    assert!(board.move_card(card_id, 2, 0).unwrap());
    assert!(board.can_undo());
    assert!(!board.can_redo());
    assert_eq!(board.columns[1].cards[0].id, card_id);

    assert!(board.undo().unwrap());
    assert_eq!(board.columns[0].cards[0].id, card_id);
    assert!(!board.can_undo());
    assert!(board.can_redo());

    assert!(board.redo().unwrap());
    assert_eq!(board.columns[1].cards[0].id, card_id);

    assert!(board.update_card(card_id, "更新", "説明").unwrap());
    assert!(board.undo().unwrap());
    assert_eq!(board.columns[1].cards[0].title, original_title);
    assert!(board.redo().unwrap());
    assert_eq!(board.columns[1].cards[0].title, "更新");
}

#[test]
fn a_new_operation_clears_redo_history() {
    let mut board = Board::fixture();
    let card_id = board.columns[0].cards[0].id;

    board.set_card_due_date(card_id, Some(ymd(2026, 9, 30))).unwrap();
    board.undo().unwrap();
    assert!(board.can_redo());

    board.set_card_due_date(card_id, Some(ymd(2026, 10, 1))).unwrap();
    assert!(!board.can_redo());
}

#[test]
fn archives_a_column_and_keeps_archived_cards_when_column_is_deleted() {
    let mut board = Board::fixture();
    let archived_id = board.columns[0].cards[0].id;
    assert_eq!(board.archive_column(1).unwrap(), 2);
    assert_eq!(board.archived_cards[0].id, archived_id);

    board.remove_column(1).unwrap();

    assert_eq!(board.archived_cards[0].column_id, board.columns[0].id);
}

#[test]
fn rejects_empty_and_duplicate_tag_names() {
    let mut board = Board::fixture();

    assert_eq!(board.add_tag(" ", "#000000"), Err(BoardError::EmptyTagName));
    board.add_tag("仕事", "#000000").unwrap();
    assert_eq!(
        board.add_tag("仕事", "#ffffff"),
        Err(BoardError::DuplicateTagName("仕事".to_string()))
    );
}

#[test]
fn manages_checklist_items_and_reindexes_them() {
    let mut board = Board::fixture();
    let card_id = board.columns[0].cards[0].id;
    let first_id = board.add_checklist_item(card_id, "テストを書く").unwrap();
    let second_id = board.add_checklist_item(card_id, "fmt を通す").unwrap();

    assert_eq!(board.columns[0].cards[0].checklist_items.len(), 2);
    assert!(board.set_checklist_item_checked(card_id, second_id, true).unwrap());
    assert!(board.move_checklist_item(card_id, second_id, 0).unwrap());
    assert_eq!(
        board.columns[0].cards[0].checklist_items.iter().map(|item| item.id).collect::<Vec<_>>(),
        vec![second_id, first_id]
    );
    assert_eq!(board.columns[0].cards[0].checklist_items[0].position, 0);

    board.update_checklist_item(card_id, first_id, "テストを書く（完了）").unwrap();
    board.delete_checklist_item(card_id, second_id).unwrap();
    assert_eq!(board.columns[0].cards[0].checklist_items.len(), 1);
    assert_eq!(board.columns[0].cards[0].checklist_items[0].text, "テストを書く（完了）");
}

#[test]
fn edits_checklist_items_with_card_details_as_one_undo_operation() {
    let mut board = Board::fixture();
    let card_id = board.columns[0].cards[0].id;

    board
        .update_card_details_with_checklist(
            card_id,
            "PR を出す",
            "手順を確認する",
            None,
            Vec::new(),
            vec![
                ChecklistItemDraft { id: None, text: "テストを書く".to_string(), checked: false },
                ChecklistItemDraft { id: None, text: "fmt を通す".to_string(), checked: true },
            ],
        )
        .unwrap();
    assert_eq!(board.columns[0].cards[0].checklist_items.len(), 2);
    assert!(board.columns[0].cards[0].checklist_items[1].checked);

    board.undo().unwrap();
    assert!(board.columns[0].cards[0].checklist_items.is_empty());
    assert_eq!(board.columns[0].cards[0].title, "GPUI の画面を作る");
    board.redo().unwrap();
    assert_eq!(board.columns[0].cards[0].checklist_items.len(), 2);
}

#[test]
fn copies_card_content_and_resets_due_date_and_checks() {
    let mut board = Board::fixture();
    let source_id = board.columns[0].cards[0].id;
    let tag_id = board.add_tag("手順", "#60a5fa").unwrap();
    board
        .update_card_details_with_checklist(
            source_id,
            "元カード",
            "説明",
            Some(ymd(2026, 9, 30)),
            vec![tag_id],
            vec![ChecklistItemDraft { id: None, text: "確認する".to_string(), checked: true }],
        )
        .unwrap();
    board.pending_events.clear();

    let copied_id = board.copy_card(source_id).unwrap();
    let copied = board.columns[0].cards.iter().find(|card| card.id == copied_id).unwrap();
    let source = board.columns[0].cards.iter().find(|card| card.id == source_id).unwrap();
    assert_eq!(copied.title, source.title);
    assert_eq!(copied.description, source.description);
    assert_eq!(copied.tag_ids, source.tag_ids);
    assert_eq!(copied.due_date, None);
    assert_eq!(copied.archived_at, None);
    assert_eq!(copied.checklist_items[0].text, "確認する");
    assert!(!copied.checklist_items[0].checked);
    assert_ne!(copied.checklist_items[0].id, source.checklist_items[0].id);
    assert_eq!(board.pending_events.len(), 1);
    assert_eq!(board.pending_events[0].kind, CardEventKind::Created);

    board.undo().unwrap();
    assert!(board.columns[0].cards.iter().all(|card| card.id != copied_id));
    board.redo().unwrap();
    assert!(board.columns[0].cards.iter().any(|card| card.id == copied_id));
}

#[test]
fn rejects_empty_checklist_items() {
    let mut board = Board::fixture();
    let card_id = board.columns[0].cards[0].id;
    assert_eq!(board.add_checklist_item(card_id, "  "), Err(BoardError::EmptyChecklistItemText));
    assert_eq!(
        board.update_card_details_with_checklist(
            card_id,
            "タイトル",
            "",
            None,
            Vec::new(),
            vec![ChecklistItemDraft { id: None, text: "".to_string(), checked: false }],
        ),
        Err(BoardError::EmptyChecklistItemText)
    );
}
