use ekanban::date::DueDate;
use ekanban::export::{
    checklist_progress, display_date, markdown_inline, render_board_markdown, suggested_export_name,
    tag_color_value,
};
use ekanban::model::{Board, ChecklistItemDraft};

#[test]
fn renders_board_markdown_with_descriptions_and_checklists() {
    let mut board = Board::fixture();
    let card_id = board.columns[0].cards[0].id;
    board
        .update_card_details_with_checklist(
            card_id,
            "Markdownカード",
            "説明の一行目\n説明の二行目",
            None,
            Vec::new(),
            vec![ChecklistItemDraft { id: None, text: "確認済み".to_string(), checked: true }],
        )
        .unwrap();

    let markdown = render_board_markdown(&board);
    assert!(markdown.contains("# 個人 Kanban"));
    assert!(markdown.contains("- **Markdownカード**"));
    assert!(markdown.contains("> 説明の一行目"));
    assert!(markdown.contains("- [x] 確認済み"));
}

#[test]
fn renders_the_archive_with_each_card_column_due_date_and_tags() {
    let mut board = Board::fixture();
    let tag = board.add_tag("急ぎ_", "#ff0000").unwrap();
    let card_id = board.columns[1].cards[0].id;
    board.set_card_tags(card_id, vec![tag]).unwrap();
    board.set_card_due_date(card_id, DueDate::from_ymd(2026, 9, 30)).unwrap();
    board.update_card(card_id, "SQLite の設計", "一行目\r\n二行目\n").unwrap();
    board.archive_card(card_id).unwrap();

    let markdown = render_board_markdown(&board);
    assert!(markdown.starts_with("# 個人 Kanban\n\n## やること\n\n"));
    assert!(markdown.contains("## 進行中\n\nカードはありません。\n\n"));
    assert!(markdown.contains(
        "## アーカイブ\n\n- **SQLite の設計**\n  - カラム: 進行中\n  - 期限: 2026-09-30\n  - タグ: 急ぎ\\_\n  - アーカイブ済み\n  > 一行目\n  > 二行目\n\n"
    ));
}

#[test]
fn escapes_markdown_in_inline_text() {
    assert_eq!(markdown_inline("a*b_c`d[e]f\\g"), "a\\*b\\_c\\`d\\[e\\]f\\\\g");
    assert_eq!(markdown_inline("一行目\r\n二行目"), "一行目  二行目");
}

#[test]
fn suggests_a_safe_file_name_for_an_export() {
    assert_eq!(suggested_export_name("個人 Kanban", "md"), "個人 Kanban.md");
    assert_eq!(suggested_export_name("a/b\\c\u{7}", "json"), "a_b_c_.json");
    assert_eq!(suggested_export_name("  ..隠し..  ", "md"), "隠し.md");
    assert_eq!(suggested_export_name("   ", "md"), "board.md");
    assert_eq!(suggested_export_name("...", "json"), "board.json");
}

#[test]
fn reads_a_tag_colour_or_falls_back_to_grey() {
    assert_eq!(tag_color_value("#ef4444"), 0xef4444);
    assert_eq!(tag_color_value("  60A5FA "), 0x60a5fa);
    assert_eq!(tag_color_value("##000010"), 0x10);
    assert_eq!(tag_color_value("#12345"), 0x64748b);
    assert_eq!(tag_color_value("#zzzzzz"), 0x64748b);
    assert_eq!(tag_color_value("+abcde"), 0xabcde);
    assert_eq!(tag_color_value("赤赤"), 0x64748b);
}

#[test]
fn shows_a_date_short_within_the_year() {
    let today = DueDate::from_ymd(2026, 9, 4).unwrap();
    assert_eq!(display_date(DueDate::from_ymd(2026, 10, 5).unwrap(), today).as_deref(), Some("10/5"));
    assert_eq!(display_date(DueDate::from_ymd(2027, 1, 2).unwrap(), today).as_deref(), Some("2027/01/02"));
}

#[test]
fn checklist_progress_shows_marks_and_counts() {
    let mut board = Board::fixture();
    let id = board.columns[0].cards[0].id;
    assert_eq!(checklist_progress(&board.columns[0].cards[0].checklist_items), " 0/0");
    let first = board.add_checklist_item(id, "一").unwrap();
    board.add_checklist_item(id, "二").unwrap();
    board.set_checklist_item_checked(id, first, true).unwrap();
    assert_eq!(checklist_progress(&board.columns[0].cards[0].checklist_items), "■□ 1/2");
}
