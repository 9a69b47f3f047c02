use ekanban::paths::{data_dir, log_file, PathEnvironment, Platform};
use std::path::Path;

fn unix_environment() -> PathEnvironment {
    PathEnvironment {
        platform: Platform::Unix,
        home: Some("/home/someone".to_string()),
        app_data: None,
        local_app_data: None,
        xdg_data_home: None,
        xdg_state_home: None,
        temp_dir: "/tmp".to_string(),
    }
}

#[test]
fn paths_are_absolute_and_namespaced() {
    let env = unix_environment();
    for path in [data_dir(&env), log_file(&env)] {
        assert!(Path::new(&path).is_absolute(), "{} が絶対パスではない", path);
        assert!(path.contains("ekanban"), "{} がアプリ名を含まない", path);
    }
}

#[test]
fn log_file_is_a_file_not_a_directory() {
    let path = log_file(&unix_environment());
    let path = Path::new(&path);
    assert_eq!(path.extension().and_then(|e| e.to_str()), Some("log"));
    assert!(path.parent().is_some_and(|parent| parent.is_absolute()));
}
