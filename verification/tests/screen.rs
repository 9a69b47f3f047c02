use chrono::{Datelike, NaiveDate};
use ekanban::date::DueDate;
use ekanban::hotkey::KeyModifiers;
use ekanban::model::{Board, BoardError};
use ekanban::screen::{
    app_name, board_error_detail, capture_destination, capture_target_is_in_board, capture_title,
    card_is_dimmed, column_name_for_card, default_capture_target, field_error_for,
    field_error_message, moves_selected_card, next_card_id, next_tag_filter,
    parse_theme_preference, window_title, CaptureTarget, CardDirection, EditorField,
    ErrorContext, ThemePreference, card_edit_is_savable, is_capture_column, keyboard_move,
    selection_after_removing, toggle_tag, KeyboardMove,
};

fn secondary_key() -> KeyModifiers {
    KeyModifiers { control: true, ..KeyModifiers::none() }
}

#[test]
fn tapping_a_tag_selects_it_and_tapping_the_same_one_clears_it() {
    assert_eq!(next_tag_filter(None, 3), Some(3));
    assert_eq!(next_tag_filter(Some(7), 3), Some(3));
    assert_eq!(next_tag_filter(Some(3), 3), None);
}

#[test]
fn tag_filter_dims_only_the_cards_without_that_tag() {
    let mut board = Board::fixture();
    let tag_id = board.add_tag("重要", "#60a5fa").expect("tag name is new");
    let tagged_id = board.columns[0].cards[0].id;
    board.set_card_tags(tagged_id, vec![tag_id]).expect("demo card exists");
    let tagged = &board.columns[0].cards[0];
    let untagged = &board.columns[0].cards[1];

    assert!(!card_is_dimmed(tagged, "", Some(tag_id)));
    assert!(card_is_dimmed(untagged, "", Some(tag_id)));
    assert!(!card_is_dimmed(untagged, "", None));
}

#[test]
fn a_due_date_alone_never_dims_a_card() {
    let mut board = Board::fixture();
    let card_id = board.columns[0].cards[0].id;
    let date = NaiveDate::from_ymd_opt(2000, 1, 1).expect("valid date");
    board
        .set_card_due_date(card_id, Some(DueDate::from_days_from_ce(date.num_days_from_ce())))
        .expect("demo card exists");

    assert!(!card_is_dimmed(&board.columns[0].cards[0], "", None));
}

#[test]
fn arrow_navigation_moves_within_and_between_columns() {
    let board = Board::fixture();
    let first_column_card = board.columns[0].cards[0].id;
    let second_column_card = board.columns[0].cards[1].id;
    let third_column_card = board.columns[1].cards[0].id;

    assert_eq!(
        next_card_id(&board.columns, Some(first_column_card), CardDirection::Down),
        Some(second_column_card)
    );
    assert_eq!(
        next_card_id(&board.columns, Some(second_column_card), CardDirection::Up),
        Some(first_column_card)
    );
    assert_eq!(
        next_card_id(&board.columns, Some(first_column_card), CardDirection::Right),
        Some(third_column_card)
    );
    assert_eq!(
        next_card_id(&board.columns, Some(third_column_card), CardDirection::Left),
        Some(first_column_card)
    );
}

#[test]
fn arrow_navigation_skips_empty_columns() {
    let mut board = Board::fixture();
    let empty_column_id = board.add_column("空").expect("column can be added");
    board.move_column(empty_column_id, 1).expect("column can be moved");
    let first_card = board.columns[0].cards[0].id;
    let next_card = board.columns[2].cards[0].id;

    assert_eq!(next_card_id(&board.columns, Some(first_card), CardDirection::Right), Some(next_card));
}

#[test]
fn arrow_navigation_starts_at_first_card_without_selection() {
    let board = Board::fixture();
    let first_card = board.columns[0].cards[0].id;

    assert_eq!(next_card_id(&board.columns, None, CardDirection::Down), Some(first_card));
}

#[test]
fn arrow_navigation_stops_at_the_edges() {
    let board = Board::fixture();
    let first_card = board.columns[0].cards[0].id;
    let last_card = board.columns[2].cards[0].id;

    assert_eq!(next_card_id(&board.columns, Some(first_card), CardDirection::Up), None);
    assert_eq!(next_card_id(&board.columns, Some(first_card), CardDirection::Left), None);
    assert_eq!(next_card_id(&board.columns, Some(last_card), CardDirection::Right), None);
    assert_eq!(next_card_id(&board.columns, Some(9_999), CardDirection::Down), Some(first_card));
}

#[test]
fn shows_which_column_a_card_belongs_to() {
    let board = Board::fixture();
    let first_card = board.columns[0].cards[0].id;
    let second_column_card = board.columns[1].cards[0].id;

    assert_eq!(column_name_for_card(&board.columns, first_card), Some(board.columns[0].name.as_str()));
    assert_eq!(
        column_name_for_card(&board.columns, second_column_card),
        Some(board.columns[1].name.as_str())
    );
    assert_eq!(column_name_for_card(&board.columns, 9_999), None);
}

#[test]
fn maps_validation_errors_to_the_field_that_needs_attention() {
    let error = field_error_for(&BoardError::InvalidDueDate("2026/09/04".to_string()))
        .expect("due date has a field error");

    assert_eq!(error.field, EditorField::DueDate);
    assert!(error.message.contains("YYYY-MM-DD"));
}

#[test]
fn shows_a_field_error_only_for_its_field_and_value() {
    let error = field_error_for(&BoardError::DuplicateTagName("bug".to_string())).unwrap();
    assert_eq!(field_error_message(Some(&error), EditorField::TagName, "bug").as_deref(), Some("タグ名を確認してください"));
    assert_eq!(field_error_message(Some(&error), EditorField::TagName, "bugs"), None);
    assert_eq!(field_error_message(Some(&error), EditorField::ColumnName, "bug"), None);
    assert_eq!(field_error_message(None, EditorField::TagName, "bug"), None);
    assert_eq!(field_error_for(&BoardError::LastColumn), None);
}

#[test]
fn keeps_domain_error_details_specific() {
    let message = board_error_detail(&BoardError::DuplicateTagName("bug".to_string()));

    assert_eq!(message, "タグ「bug」はすでに存在します。別の名前を入力してください");
}

#[test]
fn numbers_the_missing_card_and_item() {
    assert_eq!(
        board_error_detail(&BoardError::ChecklistItemNotFound(12, 3)),
        "カード #3 のチェック項目 #12 が見つかりません"
    );
    assert_eq!(
        board_error_detail(&BoardError::ColumnNotFound(-7)),
        "カラム #-7 が見つかりません。画面を更新してください"
    );
    assert_eq!(BoardError::ChecklistItemNotFound(12, 3).message(), "checklist item 12 was not found on card 3");
    assert_eq!(BoardError::TagNotFound(i64::MIN).message(), "tag -9223372036854775808 was not found");
}

#[test]
fn window_title_shows_the_board_and_the_app() {
    let title = window_title("個人 Kanban");
    assert!(title.contains("個人 Kanban"));
    assert!(title.contains(app_name()));
}

#[test]
fn window_title_falls_back_to_the_app_name_for_a_blank_board() {
    assert_eq!(window_title("   "), app_name());
}

#[test]
fn moves_selected_card_on_the_secondary_and_alt_keys() {
    let mut modifiers = secondary_key();
    modifiers.alt = true;
    assert!(moves_selected_card(&modifiers, false));
}

#[test]
fn does_not_move_selected_card_when_another_modifier_joins() {
    let mut modifiers = secondary_key();
    modifiers.alt = true;
    modifiers.shift = true;
    assert!(!moves_selected_card(&modifiers, false));
}

#[test]
fn does_not_move_selected_card_on_a_single_modifier() {
    assert!(!moves_selected_card(&secondary_key(), false));

    let alt_only = KeyModifiers { alt: true, ..KeyModifiers::none() };
    assert!(!moves_selected_card(&alt_only, false));
}

#[test]
fn capture_title_drops_surrounding_whitespace() {
    assert_eq!(capture_title("  買い物  "), Some("買い物"));
}

#[test]
fn capture_title_rejects_a_blank_input() {
    assert_eq!(capture_title(""), None);
    assert_eq!(capture_title("   \t "), None);
}

#[test]
fn capture_destination_names_the_board_and_the_column() {
    let board = Board::fixture();
    let target = default_capture_target(&board).expect("the demo board has columns");
    let destination = capture_destination(&target);
    assert!(destination.contains(&board.name));
    assert!(destination.contains(board.columns[0].name.as_str()));
}

#[test]
fn default_capture_target_is_the_first_column() {
    let board = Board::fixture();
    let target = default_capture_target(&board).expect("the demo board has columns");
    assert_eq!(target.board_id, board.id);
    assert_eq!(target.column_id, board.columns[0].id);
}

#[test]
fn default_capture_target_is_undecided_without_a_column() {
    let mut board = Board::fixture();
    board.columns.clear();
    assert_eq!(default_capture_target(&board), None);
}

#[test]
fn capture_target_survives_while_its_column_exists() {
    let board = Board::fixture();
    let target = CaptureTarget {
        board_id: board.id,
        column_id: board.columns[2].id,
        board_name: board.name.clone(),
        column_name: board.columns[2].name.clone(),
    };
    assert!(capture_target_is_in_board(&board, &target));
}

#[test]
fn capture_target_is_dropped_when_its_column_is_gone() {
    let board = Board::fixture();
    let removed = CaptureTarget {
        board_id: board.id,
        column_id: 9999,
        board_name: board.name.clone(),
        column_name: "消えたカラム".to_string(),
    };
    assert!(!capture_target_is_in_board(&board, &removed));

    let other_board = CaptureTarget {
        board_id: board.id + 1,
        column_id: board.columns[0].id,
        board_name: "別のボード".to_string(),
        column_name: board.columns[0].name.clone(),
    };
    assert!(!capture_target_is_in_board(&board, &other_board));
}

#[test]
fn reads_the_stored_theme() {
    assert_eq!(parse_theme_preference(Some("light")), ThemePreference::Light);
    assert_eq!(parse_theme_preference(Some("dark")), ThemePreference::Dark);
    assert_eq!(parse_theme_preference(Some("sepia")), ThemePreference::System);
    assert_eq!(parse_theme_preference(None), ThemePreference::System);
    assert_eq!(ErrorContext::Undo.label(), "操作を元に戻せませんでした");
}

#[test]
fn removing_a_card_selects_the_next_then_the_previous_then_any_other() {
    let board = Board::fixture();
    let columns = &board.columns;
    assert_eq!(selection_after_removing(columns, 1), Some(2));
    assert_eq!(selection_after_removing(columns, 2), Some(1));
    assert_eq!(selection_after_removing(columns, 3), Some(1));
    assert_eq!(selection_after_removing(columns, 99), None);
    let mut single = Board::first_run();
    let id = single.add_card(2, "ひとつ", "").unwrap();
    assert_eq!(selection_after_removing(&single.columns, id), None);
}

#[test]
fn keyboard_moves_go_one_place_or_one_column() {
    let board = Board::fixture();
    let columns = &board.columns;
    assert_eq!(keyboard_move(columns, 2, CardDirection::Up), KeyboardMove::MoveTo(1, 0));
    assert_eq!(keyboard_move(columns, 1, CardDirection::Up), KeyboardMove::MoveTo(1, 0));
    assert_eq!(keyboard_move(columns, 1, CardDirection::Down), KeyboardMove::MoveTo(1, 2));
    assert_eq!(keyboard_move(columns, 2, CardDirection::Right), KeyboardMove::MoveTo(2, 1));
    assert_eq!(keyboard_move(columns, 1, CardDirection::Left), KeyboardMove::Stay);
    assert_eq!(keyboard_move(columns, 4, CardDirection::Right), KeyboardMove::Stay);
    assert_eq!(keyboard_move(columns, 3, CardDirection::Left), KeyboardMove::MoveTo(1, 0));
    assert_eq!(keyboard_move(columns, 99, CardDirection::Down), KeyboardMove::SelectionGone);
}

#[test]
fn the_capture_column_is_the_target_or_the_first_column() {
    let board = Board::fixture();
    assert!(is_capture_column(None, &board, 1));
    assert!(!is_capture_column(None, &board, 2));
    let target = CaptureTarget {
        board_id: board.id,
        column_id: 3,
        board_name: board.name.clone(),
        column_name: "完了".to_string(),
    };
    assert!(is_capture_column(Some(&target), &board, 3));
    assert!(!is_capture_column(Some(&target), &board, 1));
    let elsewhere = CaptureTarget { board_id: board.id + 1, ..target };
    assert!(!is_capture_column(Some(&elsewhere), &board, 3));
}

#[test]
fn the_card_editor_saves_only_what_the_board_accepts() {
    let none: Vec<String> = Vec::new();
    assert!(card_edit_is_savable("題", "", &none));
    assert!(card_edit_is_savable("題", " 2026-09-30 ", &none));
    assert!(!card_edit_is_savable("  ", "", &none));
    assert!(!card_edit_is_savable("題", "2026/09/30", &none));
    assert!(!card_edit_is_savable("題", "", &vec!["やる".to_string(), " ".to_string()]));
    assert!(card_edit_is_savable("題", "", &vec!["やる".to_string()]));
}

#[test]
fn toggling_a_tag_takes_it_out_or_adds_it_at_the_end() {
    assert_eq!(toggle_tag(&vec![1, 2, 3], 2), vec![1, 3]);
    assert_eq!(toggle_tag(&vec![1, 3], 2), vec![1, 3, 2]);
    assert_eq!(toggle_tag(&vec![], 7), vec![7]);
}

#[test]
fn saving_the_column_editor_renames_and_limits_or_refuses_a_bad_limit() {
    let mut board = ekanban::model::Board::fixture();
    let before = board.columns.clone();
    assert!(matches!(
        ekanban::editors::save_column_editor(&mut board, Some(1), "今日", "0"),
        Err(ekanban::model::BoardError::InvalidWipLimit(_))
    ));
    assert_eq!(board.columns, before);
    assert_eq!(ekanban::editors::save_column_editor(&mut board, Some(1), "今日", " 3 "), Ok(true));
    assert_eq!(board.columns[0].name, "今日");
    assert_eq!(board.columns[0].wip_limit, Some(3));
    assert_eq!(ekanban::editors::save_column_editor(&mut board, Some(1), "今日", "3"), Ok(false));
    assert_eq!(ekanban::editors::save_column_editor(&mut board, None, "保留", ""), Ok(true));
    assert_eq!(board.columns.len(), 4);
    assert_eq!(board.columns[3].wip_limit, None);
}

#[test]
fn saving_the_tag_editor_refuses_a_name_another_tag_has() {
    let mut board = ekanban::model::Board::fixture();
    assert_eq!(ekanban::editors::save_tag_editor(&mut board, None, "仕事", "#112233"), Ok(true));
    assert_eq!(ekanban::editors::save_tag_editor(&mut board, None, "家", "#445566"), Ok(true));
    let home = board.tags[1].id;
    let tags = board.tags.clone();
    assert!(matches!(
        ekanban::editors::save_tag_editor(&mut board, Some(home), "仕事", "#000000"),
        Err(ekanban::model::BoardError::DuplicateTagName(_))
    ));
    assert_eq!(board.tags, tags);
    assert_eq!(ekanban::editors::save_tag_editor(&mut board, Some(home), "家族", "#000000"), Ok(true));
    assert_eq!(board.tags[1].name, "家族");
    assert_eq!(board.tags[1].color, "#000000");
}

#[test]
fn a_column_over_its_wip_limit_warns_and_shows_its_count() {
    let mut board = ekanban::model::Board::fixture();
    let mut column = board.columns[0].clone();
    assert!(!ekanban::screen::wip_over(&column));
    assert_eq!(ekanban::screen::count_label(&column), "2 枚");
    column.wip_limit = Some(1);
    assert!(ekanban::screen::wip_over(&column));
    assert_eq!(ekanban::screen::count_label(&column), "2 / 1");
    column.wip_limit = Some(2);
    assert!(!ekanban::screen::wip_over(&column));
    board.columns[0] = column;
}

#[test]
fn an_untitled_card_shows_a_placeholder() {
    assert_eq!(ekanban::screen::shown_title("  "), "（タイトル未入力）");
    assert_eq!(ekanban::screen::shown_title("買い物"), "買い物");
}

#[test]
fn offers_tomorrow_the_weekend_and_next_monday() {
    let day = |d: u32| ekanban::date::DueDate::from_ymd(2026, 1, d).unwrap();
    assert_eq!(ekanban::screen::quick_due_dates(day(7)), (day(8), day(10), day(12)));
    assert_eq!(ekanban::screen::quick_due_dates(day(10)), (day(11), day(10), day(12)));
    assert_eq!(ekanban::screen::quick_due_dates(day(11)), (day(12), day(17), day(12)));
    assert_eq!(ekanban::screen::quick_due_dates(day(12)), (day(13), day(17), day(19)));
}
