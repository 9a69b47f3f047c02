use ekanban::db::{board_scoped_id, kept_tag_filter, next_board_id, startup_board_id};
use ekanban::instance::lock_path;
use ekanban::model::{Board, BoardSummary};
use ekanban::screen::{field_error_for_store, store_error_detail, EditorField, StoreFailure};

fn summary(id: i64) -> BoardSummary {
    BoardSummary { id, name: format!("ボード{id}"), created_at: 0, updated_at: 0 }
}

#[test]
fn board_numbers_reserve_a_range_per_board() {
    assert_eq!(board_scoped_id(1), (1_i64 << 32) + 1);
    assert_eq!(board_scoped_id(2), (2_i64 << 32) + 1);
    assert_eq!(board_scoped_id(0), 1);
}

#[test]
fn a_new_board_number_is_never_below_the_largest_plus_one() {
    assert_eq!(next_board_id(None, 3), 4);
    assert_eq!(next_board_id(Some(9), 3), 9);
    assert_eq!(next_board_id(Some(2), 3), 4);
}

#[test]
fn opens_the_last_board_when_it_is_still_there() {
    let boards = vec![summary(1), summary(4)];
    assert_eq!(startup_board_id(Some(4), &boards), Some(4));
    assert_eq!(startup_board_id(Some(7), &boards), Some(1));
    assert_eq!(startup_board_id(None, &boards), Some(1));
    assert_eq!(startup_board_id(Some(1), &Vec::new()), None);
}

#[test]
fn drops_a_tag_filter_on_a_tag_that_is_gone() {
    let mut board = Board::fixture();
    let tag = board.add_tag("仕事", "#112233").unwrap();
    assert_eq!(kept_tag_filter(Some(tag), &board), Some(tag));
    assert_eq!(kept_tag_filter(Some(tag + 100), &board), None);
    assert_eq!(kept_tag_filter(None, &board), None);
}

#[test]
fn the_lock_file_sits_beside_the_database() {
    assert_eq!(lock_path("/data/board.sqlite3"), "/data/board.sqlite3.lock");
    assert_eq!(lock_path("/data/試し.sqlite3"), "/data/試し.sqlite3.lock");
}

#[test]
fn store_failures_are_told_with_their_remedy() {
    assert_eq!(
        store_error_detail(&StoreFailure::Busy),
        "データベースが使用中です。ほかの操作が終わってから再試行してください"
    );
    assert_eq!(
        store_error_detail(&StoreFailure::Sqlite("no such table".to_string())),
        "SQLite の処理に失敗しました（no such table）"
    );
    assert_eq!(store_error_detail(&StoreFailure::LastBoard), "最後のボードは削除できません");
    assert_eq!(
        store_error_detail(&StoreFailure::Json("eof".to_string())),
        "ボードデータの変換に失敗しました（eof）"
    );
    let field = field_error_for_store(&StoreFailure::EmptyBoardName).unwrap();
    assert_eq!(field.field, EditorField::BoardName);
    assert_eq!(field.message, "ボード名を入力してください");
    assert_eq!(field.value, Some(String::new()));
    assert_eq!(field_error_for_store(&StoreFailure::NoBoard), None);
}

#[test]
fn instance_errors_name_the_path() {
    let taken = ekanban::instance::InstanceError::AlreadyRunning("/data/kanban.sqlite3".to_string());
    assert_eq!(taken.message(), "another ekanban is already using /data/kanban.sqlite3");
    let failed = ekanban::instance::InstanceError::Io {
        path: "/data/kanban.sqlite3.lock".to_string(),
        source: std::io::Error::new(std::io::ErrorKind::Other, "disk full"),
    };
    assert_eq!(failed.message(), "/data/kanban.sqlite3.lock: disk full");
}
