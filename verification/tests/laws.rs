use ekanban::model::{Board, BoardError, Card, ChecklistItemDraft, Column};

fn card_at(board: &Board, column: usize, index: usize) -> Card {
    board.columns[column].cards[index].clone()
}

fn without_times(columns: &[Column]) -> Vec<(i64, Vec<(i64, i64, i64, String)>)> {
    columns
        .iter()
        .map(|column| {
            (
                column.id,
                column
                    .cards
                    .iter()
                    .map(|card| (card.id, card.column_id, card.position, card.title.clone()))
                    .collect(),
            )
        })
        .collect()
}

#[test]
fn undoing_an_added_card_gives_back_the_columns() {
    let mut board = Board::fixture();
    let before = board.columns.clone();
    let id = board.add_card(2, "新しい", "説明").unwrap();
    assert_eq!(id, 5);
    assert!(board.undo().unwrap());
    assert_eq!(board.columns, before);
    assert!(board.can_redo());
    assert_eq!(board.next_card_id, 6);
}

#[test]
fn redoing_an_added_card_puts_it_back() {
    let mut board = Board::fixture();
    let id = board.add_card(2, "新しい", "説明").unwrap();
    let added = board.columns.clone();
    board.undo().unwrap();
    assert!(board.redo().unwrap());
    assert_eq!(board.columns, added);
    assert_eq!(board.columns[1].cards[1].id, id);
    assert!(!board.can_redo());
}

#[test]
fn undoing_a_deleted_card_gives_back_the_columns() {
    let mut board = Board::fixture();
    let before = board.columns.clone();
    let id = card_at(&board, 0, 1).id;
    board.delete_card(id).unwrap();
    assert_eq!(board.columns[0].cards.len(), 1);
    assert!(board.undo().unwrap());
    assert_eq!(board.columns, before);
}

#[test]
fn undoing_an_archived_card_gives_back_columns_and_archive() {
    let mut board = Board::fixture();
    let before = board.columns.clone();
    let id = card_at(&board, 0, 0).id;
    assert!(board.archive_card(id).unwrap());
    assert_eq!(board.archived_cards.len(), 1);
    assert!(board.undo().unwrap());
    assert_eq!(board.columns, before);
    assert!(board.archived_cards.is_empty());
}

#[test]
fn undoing_a_card_edit_gives_back_title_and_description() {
    let mut board = Board::fixture();
    let card = card_at(&board, 0, 0);
    assert!(board.update_card(card.id, "別の題", "別の説明").unwrap());
    assert!(board.undo().unwrap());
    let back = card_at(&board, 0, 0);
    assert_eq!(back.title, card.title);
    assert_eq!(back.description, card.description);
    assert_eq!(back.id, card.id);
}

#[test]
fn undoing_a_move_puts_the_card_back_where_it_stood() {
    let mut board = Board::fixture();
    let before = without_times(&board.columns);
    let id = card_at(&board, 0, 0).id;
    assert!(board.move_card(id, 3, 0).unwrap());
    assert_eq!(board.columns[2].cards[0].id, id);
    assert!(board.undo().unwrap());
    assert_eq!(without_times(&board.columns), before);
    assert_eq!(card_at(&board, 0, 0).id, id);
    assert_eq!(card_at(&board, 0, 0).column_id, 1);
}

#[test]
fn undoing_a_reorder_inside_a_column_restores_the_order() {
    let mut board = Board::fixture();
    let before = without_times(&board.columns);
    let id = card_at(&board, 0, 0).id;
    assert!(board.move_card(id, 1, 5).unwrap());
    assert_eq!(card_at(&board, 0, 1).id, id);
    assert!(board.undo().unwrap());
    assert_eq!(without_times(&board.columns), before);
}

#[test]
fn moving_to_the_place_a_card_stands_changes_nothing() {
    let mut board = Board::fixture();
    let before = board.columns.clone();
    let id = card_at(&board, 0, 1).id;
    assert!(!board.move_card(id, 1, 1).unwrap());
    assert!(!board.move_card(id, 1, 2).unwrap());
    assert_eq!(board.columns, before);
    assert!(!board.can_undo());
}

#[test]
fn moving_an_unknown_card_or_to_an_unknown_column_is_refused() {
    let mut board = Board::fixture();
    assert_eq!(board.move_card(99, 1, 0), Err(BoardError::CardNotFound(99)));
    let id = card_at(&board, 0, 0).id;
    assert_eq!(board.move_card(id, 42, 0), Err(BoardError::ColumnNotFound(42)));
}

#[test]
fn a_discarded_card_number_is_not_handed_out_again() {
    let mut board = Board::fixture();
    let first = board.add_card(1, "下書き", "").unwrap();
    board.discard_added_card(first).unwrap();
    let second = board.add_card(1, "次", "").unwrap();
    assert_eq!(second, first + 1);
}

#[test]
fn the_first_run_board_is_numbered_in_order() {
    let board = Board::first_run();
    let ids: Vec<i64> = board.columns.iter().map(|column| column.id).collect();
    let positions: Vec<i64> = board.columns.iter().map(|column| column.position).collect();
    assert_eq!(ids, vec![1, 2, 3]);
    assert_eq!(positions, vec![0, 1, 2]);
    assert_eq!(board.next_column_id, 4);
    assert_eq!(board.next_card_id, 1);
}

#[test]
fn operations_keep_cards_numbered_and_placed() {
    let mut board = Board::fixture();
    let a = board.add_card(2, "一", "").unwrap();
    let b = board.add_card(2, "二", "").unwrap();
    board.move_card(a, 1, 0).unwrap();
    board.archive_card(b).unwrap();
    let id = card_at(&board, 0, 2).id;
    board.delete_card(id).unwrap();
    let mut seen: Vec<i64> = Vec::new();
    for column in &board.columns {
        for (index, card) in column.cards.iter().enumerate() {
            assert_eq!(card.position, index as i64);
            assert_eq!(card.column_id, column.id);
            assert!(card.archived_at.is_none());
            assert!(card.id < board.next_card_id);
            assert!(!seen.contains(&card.id));
            seen.push(card.id);
        }
    }
    for card in &board.archived_cards {
        assert!(!seen.contains(&card.id));
        assert!(card.id < board.next_card_id);
    }
}

#[test]
fn boards_compare_by_their_data_not_their_history() {
    let mut board = Board::fixture();
    let copy = board.clone();
    assert_eq!(board, copy);
    board.add_card(1, "足す", "").unwrap();
    assert_ne!(board, copy);
    let mut forgetful = board.clone();
    forgetful.undo_stack.clear();
    assert_eq!(board, forgetful);
    forgetful.pending_events.clear();
    assert_ne!(board, forgetful);
}

#[test]
fn undoing_a_column_move_puts_the_column_back() {
    let mut board = Board::fixture();
    let before = without_times(&board.columns);
    assert!(board.move_column(1, 3).unwrap());
    let order: Vec<i64> = board.columns.iter().map(|column| column.id).collect();
    assert_eq!(order, vec![2, 3, 1]);
    assert!(board.undo().unwrap());
    assert_eq!(without_times(&board.columns), before);
    let positions: Vec<i64> = board.columns.iter().map(|column| column.position).collect();
    assert_eq!(positions, vec![0, 1, 2]);
}

#[test]
fn redoing_a_move_gives_back_the_moved_columns() {
    let mut board = Board::fixture();
    let id = card_at(&board, 0, 1).id;
    assert!(board.move_card(id, 2, 0).unwrap());
    let moved = board.columns.clone();
    let history = board.undo_stack.clone();
    assert!(board.undo().unwrap());
    assert!(board.redo().unwrap());
    assert_eq!(board.columns, moved);
    assert_eq!(board.undo_stack, history);
    assert!(!board.can_redo());
}

#[test]
fn undoing_a_due_date_gives_back_the_one_before() {
    let mut board = Board::fixture();
    let id = card_at(&board, 1, 0).id;
    let date = ekanban::date::DueDate::from_ymd(2026, 9, 30).unwrap();
    assert!(board.set_card_due_date(id, Some(date)).unwrap());
    assert_eq!(card_at(&board, 1, 0).due_date, Some(date));
    assert!(board.undo().unwrap());
    assert_eq!(card_at(&board, 1, 0).due_date, None);
    assert!(!board.set_card_due_date(id, None).unwrap());
}

#[test]
fn undoing_a_copy_gives_back_the_columns_and_keeps_the_number_used() {
    let mut board = Board::fixture();
    let before = board.columns.clone();
    let source = card_at(&board, 0, 0).id;
    let copy = board.copy_card(source).unwrap();
    assert_eq!(copy, 5);
    assert_eq!(card_at(&board, 0, 1).id, copy);
    assert!(board.undo().unwrap());
    assert_eq!(board.columns, before);
    assert_eq!(board.next_card_id, 6);
}

#[test]
fn undoing_a_column_rename_or_limit_gives_back_the_old_value() {
    let mut board = Board::fixture();
    assert!(board.rename_column(2, "作業中").unwrap());
    assert!(board.set_column_wip_limit(2, Some(3)).unwrap());
    assert_eq!(board.columns[1].wip_limit, Some(3));
    assert!(board.undo().unwrap());
    assert_eq!(board.columns[1].wip_limit, None);
    assert_eq!(board.columns[1].name, "作業中");
    assert!(board.undo().unwrap());
    assert_eq!(board.columns[1].name, "進行中");
}

#[test]
fn undoing_an_added_column_gives_back_the_columns() {
    let mut board = Board::fixture();
    let before = board.columns.clone();
    let id = board.add_column("保留").unwrap();
    assert_eq!(id, 4);
    assert_eq!(board.columns.len(), 4);
    assert!(board.undo().unwrap());
    assert_eq!(board.columns, before);
    assert_eq!(board.next_column_id, 5);
}

#[test]
fn undoing_card_tags_gives_back_the_tags_before() {
    let mut board = Board::fixture();
    let work = board.add_tag("仕事", "#112233").unwrap();
    let home = board.add_tag("家", "#445566").unwrap();
    let id = card_at(&board, 0, 0).id;
    assert!(board.set_card_tags(id, vec![home, work, home]).unwrap());
    assert_eq!(card_at(&board, 0, 0).tag_ids, vec![work, home]);
    assert!(board.undo().unwrap());
    assert!(card_at(&board, 0, 0).tag_ids.is_empty());
}

#[test]
fn undoing_a_restore_puts_the_card_back_in_the_archive() {
    let mut board = Board::fixture();
    let id = card_at(&board, 0, 0).id;
    board.archive_card(id).unwrap();
    let columns = board.columns.clone();
    let archive = board.archived_cards.clone();
    assert!(board.restore_card(id).unwrap());
    assert_eq!(board.columns[0].cards.last().unwrap().id, id);
    assert!(board.archived_cards.is_empty());
    assert!(board.undo().unwrap());
    assert_eq!(board.columns, columns);
    assert_eq!(board.archived_cards, archive);
}

#[test]
fn undoing_a_card_editor_save_gives_back_every_field_at_once() {
    let mut board = Board::fixture();
    let tag = board.add_tag("仕事", "#112233").unwrap();
    let card = card_at(&board, 0, 0);
    let date = ekanban::date::DueDate::from_ymd(2026, 10, 1).unwrap();
    let drafts = vec![ChecklistItemDraft { id: None, text: "確認".to_string(), checked: false }];
    assert!(board
        .update_card_details_with_checklist(card.id, "新しい題", "新しい説明", Some(date), vec![tag], drafts)
        .unwrap());
    let edited = card_at(&board, 0, 0);
    assert_eq!(edited.title, "新しい題");
    assert_eq!(edited.checklist_items.len(), 1);
    assert!(board.undo().unwrap());
    let back = card_at(&board, 0, 0);
    assert_eq!(back.title, card.title);
    assert_eq!(back.description, card.description);
    assert_eq!(back.due_date, None);
    assert!(back.tag_ids.is_empty());
    assert!(back.checklist_items.is_empty());
}

#[test]
fn undoing_a_checklist_edit_gives_back_text_and_check() {
    let mut board = Board::fixture();
    let id = card_at(&board, 0, 0).id;
    let item = board.add_checklist_item(id, "書く").unwrap();
    assert!(board.update_checklist_item(id, item, "書き直す").unwrap());
    assert!(board.set_checklist_item_checked(id, item, true).unwrap());
    assert!(board.undo().unwrap());
    assert!(!card_at(&board, 0, 0).checklist_items[0].checked);
    assert!(board.undo().unwrap());
    assert_eq!(card_at(&board, 0, 0).checklist_items[0].text, "書く");
}

#[test]
fn undoing_a_tag_rename_or_colour_gives_back_the_old_value() {
    let mut board = Board::fixture();
    let tag = board.add_tag("仕事", "#112233").unwrap();
    assert!(board.rename_tag(tag, "作業").unwrap());
    assert!(board.set_tag_color(tag, "#ffffff").unwrap());
    assert!(board.undo().unwrap());
    assert_eq!(board.tags[0].color, "#112233");
    assert_eq!(board.tags[0].name, "作業");
    assert!(board.undo().unwrap());
    assert_eq!(board.tags[0].name, "仕事");
}

#[test]
fn undoing_a_checklist_delete_or_move_gives_back_the_checklist() {
    let mut board = Board::fixture();
    let id = card_at(&board, 0, 0).id;
    let first = board.add_checklist_item(id, "一").unwrap();
    let second = board.add_checklist_item(id, "二").unwrap();
    let third = board.add_checklist_item(id, "三").unwrap();
    let before = card_at(&board, 0, 0).checklist_items;
    assert!(board.move_checklist_item(id, third, 0).unwrap());
    let order: Vec<i64> = card_at(&board, 0, 0).checklist_items.iter().map(|item| item.id).collect();
    assert_eq!(order, vec![third, first, second]);
    assert!(board.undo().unwrap());
    assert_eq!(card_at(&board, 0, 0).checklist_items, before);
    board.delete_checklist_item(id, second).unwrap();
    assert_eq!(card_at(&board, 0, 0).checklist_items.len(), 2);
    assert!(board.undo().unwrap());
    assert_eq!(card_at(&board, 0, 0).checklist_items, before);
}

#[test]
fn undoing_a_removed_column_gives_back_the_columns_and_cards() {
    let mut board = Board::fixture();
    let archived = card_at(&board, 0, 1).id;
    board.archive_card(archived).unwrap();
    let before = board.columns.clone();
    board.remove_column(1).unwrap();
    assert_eq!(board.columns.len(), 2);
    assert_eq!(board.archived_cards[0].column_id, 2);
    assert!(board.undo().unwrap());
    assert_eq!(board.columns, before);
    assert_eq!(board.archived_cards[0].id, archived);
    assert_eq!(board.archived_cards[0].column_id, 1);
}

#[test]
fn undoing_a_removed_tag_gives_every_card_its_tags_back() {
    let mut board = Board::fixture();
    let work = board.add_tag("仕事", "#112233").unwrap();
    let home = board.add_tag("家", "#445566").unwrap();
    let first = card_at(&board, 0, 0).id;
    let second = card_at(&board, 1, 0).id;
    board.set_card_tags(first, vec![work, home]).unwrap();
    board.set_card_tags(second, vec![work]).unwrap();
    board.archive_card(second).unwrap();
    let tags = board.tags.clone();
    let columns = board.columns.clone();
    let archive = board.archived_cards.clone();
    board.remove_tag(work).unwrap();
    assert_eq!(card_at(&board, 0, 0).tag_ids, vec![home]);
    assert!(board.archived_cards[0].tag_ids.is_empty());
    assert!(board.undo().unwrap());
    assert_eq!(board.tags, tags);
    assert_eq!(board.columns, columns);
    assert_eq!(board.archived_cards, archive);
}

#[test]
fn undoing_a_sort_by_due_date_gives_back_the_columns() {
    let mut board = Board::fixture();
    let id = board.add_card(1, "急ぎ", "").unwrap();
    let date = ekanban::date::DueDate::from_ymd(2026, 1, 5).unwrap();
    board.set_card_due_date(id, Some(date)).unwrap();
    let before = board.columns.clone();
    assert!(board.sort_column_by_due_date(1).unwrap());
    assert_eq!(card_at(&board, 0, 0).id, id);
    assert!(board.undo().unwrap());
    assert_eq!(board.columns, before);
}

#[test]
fn undoing_an_added_tag_gives_back_the_tags_and_keeps_the_number_used() {
    let mut board = Board::fixture();
    let first = board.add_tag("仕事", "#112233").unwrap();
    let tags = board.tags.clone();
    let columns = board.columns.clone();
    let second = board.add_tag("家", "#445566").unwrap();
    assert_eq!(second, first + 1);
    assert!(board.undo().unwrap());
    assert_eq!(board.tags, tags);
    assert_eq!(board.columns, columns);
    assert_eq!(board.next_tag_id, second + 1);
}

#[test]
fn undoing_an_added_checklist_item_gives_back_the_checklist() {
    let mut board = Board::fixture();
    let id = card_at(&board, 0, 0).id;
    board.add_checklist_item(id, "一").unwrap();
    let items = card_at(&board, 0, 0).checklist_items;
    let next = board.next_checklist_item_id;
    let added = board.add_checklist_item(id, "二").unwrap();
    assert_eq!(added, next);
    assert!(board.undo().unwrap());
    assert_eq!(card_at(&board, 0, 0).checklist_items, items);
    assert_eq!(board.next_checklist_item_id, next + 1);
}

#[test]
fn undoing_an_archived_column_brings_every_card_back() {
    let mut board = Board::fixture();
    let id = card_at(&board, 2, 0).id;
    board.archive_card(id).unwrap();
    let columns = board.columns.clone();
    let archive = board.archived_cards.clone();
    assert_eq!(board.archive_column(1).unwrap(), 2);
    assert!(board.columns[0].cards.is_empty());
    assert_eq!(board.archived_cards.len(), 3);
    assert!(board.undo().unwrap());
    assert_eq!(board.columns, columns);
    assert_eq!(board.archived_cards, archive);
}

/// What a board holds, taken apart: columns, archive and tags.
fn contents(board: &Board) -> (Vec<Column>, Vec<Card>, Vec<ekanban::model::Tag>) {
    (board.columns.clone(), board.archived_cards.clone(), board.tags.clone())
}

/// Runs `operation`, undoes it and redoes it, and checks that the board holds what the
/// operation left and that the history is as it was after the operation.
fn assert_redo_gives_back(board: &mut Board, operation: impl FnOnce(&mut Board)) {
    operation(board);
    let done = contents(board);
    let history = board.undo_stack.clone();
    assert!(board.undo().unwrap());
    assert!(board.can_redo());
    assert!(board.redo().unwrap());
    assert_eq!(contents(board), done);
    assert_eq!(board.undo_stack, history);
    assert!(!board.can_redo());
}

#[test]
fn redoing_a_card_operation_gives_back_what_it_did() {
    let mut board = Board::fixture();
    let first = card_at(&board, 0, 0).id;
    let second = card_at(&board, 0, 1).id;
    assert_redo_gives_back(&mut board, |b| b.delete_card(first).unwrap());
    assert_redo_gives_back(&mut board, |b| {
        b.archive_card(second).unwrap();
    });
    assert_redo_gives_back(&mut board, |b| {
        b.restore_card(second).unwrap();
    });
    let third = card_at(&board, 1, 0).id;
    assert_redo_gives_back(&mut board, |b| {
        b.copy_card(third).unwrap();
    });
    assert_eq!(board.columns[1].cards[1].title, board.columns[1].cards[0].title);
}

#[test]
fn redoing_a_column_operation_gives_back_what_it_did() {
    let mut board = Board::fixture();
    assert_redo_gives_back(&mut board, |b| {
        b.move_column(1, 3).unwrap();
    });
    assert_redo_gives_back(&mut board, |b| {
        b.add_column("保留").unwrap();
    });
    assert_eq!(board.next_column_id, 5);
    let id = card_at(&board, 2, 0).id;
    board.archive_card(id).unwrap();
    assert_redo_gives_back(&mut board, |b| {
        b.archive_column(1).unwrap();
    });
    assert_redo_gives_back(&mut board, |b| b.remove_column(1).unwrap());
    assert!(board.archived_cards.iter().all(|card| card.column_id != 1));
}

#[test]
fn redoing_a_sort_by_due_date_gives_back_the_sorted_order() {
    let mut board = Board::fixture();
    let id = board.add_card(1, "急ぎ", "").unwrap();
    let date = ekanban::date::DueDate::from_ymd(2026, 1, 5).unwrap();
    board.set_card_due_date(id, Some(date)).unwrap();
    assert_redo_gives_back(&mut board, |b| {
        assert!(b.sort_column_by_due_date(1).unwrap());
    });
    assert_eq!(card_at(&board, 0, 0).id, id);
}

#[test]
fn redoing_a_tag_or_checklist_operation_gives_back_what_it_did() {
    let mut board = Board::fixture();
    let card = card_at(&board, 0, 0).id;
    assert_redo_gives_back(&mut board, |b| {
        b.add_tag("仕事", "#112233").unwrap();
    });
    let tag = board.tags[0].id;
    board.set_card_tags(card, vec![tag]).unwrap();
    assert_redo_gives_back(&mut board, |b| b.remove_tag(tag).unwrap());
    assert!(card_at(&board, 0, 0).tag_ids.is_empty());
    assert_redo_gives_back(&mut board, |b| {
        b.add_checklist_item(card, "一").unwrap();
    });
    let item = board.add_checklist_item(card, "二").unwrap();
    assert_redo_gives_back(&mut board, |b| {
        b.move_checklist_item(card, item, 0).unwrap();
    });
    assert_eq!(card_at(&board, 0, 0).checklist_items[0].id, item);
    assert_redo_gives_back(&mut board, |b| b.delete_checklist_item(card, item).unwrap());
    assert_eq!(card_at(&board, 0, 0).checklist_items.len(), 1);
}

#[test]
fn redoing_an_edit_gives_back_the_edited_values() {
    let mut board = Board::fixture();
    let card = card_at(&board, 0, 0).id;
    board.update_card(card, "新しい題", "新しい説明").unwrap();
    board.undo().unwrap();
    board.redo().unwrap();
    assert_eq!(card_at(&board, 0, 0).title, "新しい題");
    assert_eq!(card_at(&board, 0, 0).description, "新しい説明");
    let date = ekanban::date::DueDate::from_ymd(2026, 3, 1).unwrap();
    board.set_card_due_date(card, Some(date)).unwrap();
    board.undo().unwrap();
    board.redo().unwrap();
    assert_eq!(card_at(&board, 0, 0).due_date, Some(date));
    board.rename_column(1, "今日").unwrap();
    board.set_column_wip_limit(1, Some(3)).unwrap();
    board.undo().unwrap();
    board.undo().unwrap();
    board.redo().unwrap();
    board.redo().unwrap();
    assert_eq!(board.columns[0].name, "今日");
    assert_eq!(board.columns[0].wip_limit, Some(3));
    let tag = board.add_tag("仕事", "#112233").unwrap();
    board.rename_tag(tag, "会社").unwrap();
    board.set_tag_color(tag, "#000000").unwrap();
    board.set_card_tags(card, vec![tag]).unwrap();
    for _ in 0..3 {
        board.undo().unwrap();
    }
    for _ in 0..3 {
        board.redo().unwrap();
    }
    assert_eq!(board.tags[0].name, "会社");
    assert_eq!(board.tags[0].color, "#000000");
    assert_eq!(card_at(&board, 0, 0).tag_ids, vec![tag]);
    let item = board.add_checklist_item(card, "一").unwrap();
    board.update_checklist_item(card, item, "いち").unwrap();
    board.set_checklist_item_checked(card, item, true).unwrap();
    board.undo().unwrap();
    board.undo().unwrap();
    board.redo().unwrap();
    board.redo().unwrap();
    assert_eq!(card_at(&board, 0, 0).checklist_items[0].text, "いち");
    assert!(card_at(&board, 0, 0).checklist_items[0].checked);
    board
        .update_card_details(card, "詳細", "説明", None, vec![])
        .unwrap();
    board.undo().unwrap();
    board.redo().unwrap();
    let saved = card_at(&board, 0, 0);
    assert_eq!(saved.title, "詳細");
    assert_eq!(saved.due_date, None);
    assert!(saved.tag_ids.is_empty());
}

#[test]
fn tag_column_and_checklist_operations_keep_the_board_numbered() {
    let mut board = Board::fixture();
    let card = card_at(&board, 0, 0).id;
    let tag = board.add_tag("仕事", "#112233").unwrap();
    let other = board.add_tag("家", "#445566").unwrap();
    board.set_card_tags(card, vec![other, tag]).unwrap();
    board.add_checklist_item(card, "一").unwrap();
    let item = board.add_checklist_item(card, "二").unwrap();
    board.move_checklist_item(card, item, 0).unwrap();
    board.remove_tag(tag).unwrap();
    board.move_column(3, 0).unwrap();
    board.add_column("保留").unwrap();
    board.archive_column(2).unwrap();
    board.remove_column(1).unwrap();
    let column_ids: Vec<i64> = board.columns.iter().map(|column| column.id).collect();
    for (index, column) in board.columns.iter().enumerate() {
        assert_eq!(column.position, index as i64);
        assert!(column.id < board.next_column_id);
        assert_eq!(column_ids.iter().filter(|id| **id == column.id).count(), 1);
        for (place, card) in column.cards.iter().enumerate() {
            assert_eq!(card.position, place as i64);
            assert_eq!(card.column_id, column.id);
            for (at, entry) in card.checklist_items.iter().enumerate() {
                assert_eq!(entry.position, at as i64);
                assert_eq!(entry.card_id, card.id);
                assert!(entry.id < board.next_checklist_item_id);
            }
            assert!(card.tag_ids.iter().all(|id| *id < board.next_tag_id && *id != tag));
        }
    }
    for card in &board.archived_cards {
        assert!(card.tag_ids.iter().all(|id| *id < board.next_tag_id && *id != tag));
    }
    let tag_ids: Vec<i64> = board.tags.iter().map(|t| t.id).collect();
    assert_eq!(tag_ids, vec![other]);
}

#[test]
fn search_ignores_width_and_ascii_case_on_both_sides() {
    let mut board = Board::fixture();
    board.update_card(1, "Ｒｕｓｔ Kanban", "ローカル DB").unwrap();
    let card = board.columns[0].cards[0].clone();
    for query in ["rust", "RUST", "ｒｕｓｔ", "ＲＵＳＴ", "kanban", "ＫＡＮＢＡＮ", "db", "ｄｂ"] {
        assert!(ekanban::model::card_matches_search(&card, query), "{query}");
    }
    assert!(!ekanban::model::card_matches_search(&card, "ｇｏ"));
}

#[test]
fn normalizing_two_texts_together_normalizes_each() {
    for (a, b) in [("ＫＡＮ", "ban"), ("Rust　", "ＤＢ"), ("", "ａ"), ("かな", "")] {
        let joined = ekanban::model::normalize_search_text(&(a.to_owned() + b));
        assert_eq!(joined, ekanban::model::normalize_search_text(a) + &ekanban::model::normalize_search_text(b));
    }
}

#[test]
fn a_discarded_card_leaves_no_trace_but_its_number() {
    let mut board = Board::fixture();
    let columns = board.columns.clone();
    let events = board.pending_events.clone();
    let history = board.undo_stack.clone();
    let id = board.add_card(2, "取り消す", "").unwrap();
    board.discard_added_card(id).unwrap();
    assert_eq!(board.columns, columns);
    assert_eq!(board.pending_events, events);
    assert_eq!(board.undo_stack, history);
    assert_eq!(board.next_card_id, id + 1);
    assert_eq!(board.discard_added_card(999), Err(BoardError::CardNotFound(999)));
}

#[test]
fn undo_and_redo_keep_the_card_history_and_the_numbers() {
    let mut board = Board::fixture();
    let id = board.add_card(1, "一", "").unwrap();
    let events = board.pending_events.clone();
    let next = board.next_card_id;
    board.undo().unwrap();
    assert_eq!(board.pending_events, events);
    assert_eq!(board.next_card_id, next);
    board.redo().unwrap();
    assert_eq!(board.pending_events, events);
    assert_eq!(board.columns[0].cards[2].id, id);
    assert!(board.can_undo());
    assert!(!board.can_redo());
}
