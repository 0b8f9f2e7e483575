use grpc_files::entries::FileEntry;
use grpc_files::tui::{key_action, App, AppMode, UiAction};

fn entry(name: &[u8]) -> FileEntry {
    FileEntry {
        name: name.to_vec(),
        path: name.to_vec(),
        size: 1,
        is_directory: false,
        modified_at: 0,
    }
}

fn three_files() -> Vec<FileEntry> {
    vec![entry(b"a"), entry(b"b"), entry(b"c")]
}

#[test]
fn fresh_app_defaults() {
    let app = App::new();
    assert!(app.files().is_empty());
    assert_eq!(app.selected_index(), 0);
    assert_eq!(app.status_message().as_deref(), Some("Press r to refresh"));
    assert_eq!(*app.mode(), AppMode::Normal);
    assert!(app.selected_file_path().is_none());
    assert!(!app.is_uploading());
    assert!(app.selected_file().is_none());
}

#[test]
fn selection_wraps_forward() {
    let mut app = App::new();
    app.update_files(three_files());
    assert_eq!(app.selected_index(), 0);
    app.select_next();
    assert_eq!(app.selected_index(), 1);
    app.select_next();
    app.select_next();
    assert_eq!(app.selected_index(), 0);
}

#[test]
fn selection_wraps_backward() {
    let mut app = App::new();
    app.update_files(three_files());
    app.select_prev();
    assert_eq!(app.selected_index(), 2);
    app.select_prev();
    assert_eq!(app.selected_index(), 1);
}

#[test]
fn selection_ignored_when_empty() {
    let mut app = App::new();
    app.select_next();
    app.select_prev();
    assert_eq!(app.selected_index(), 0);
}

#[test]
fn refresh_keeps_cursor_in_range() {
    let mut app = App::new();
    app.update_files(three_files());
    app.select_prev();
    assert_eq!(app.selected_index(), 2);
    app.update_files(vec![entry(b"only")]);
    assert_eq!(app.selected_index(), 0);
    app.update_files(Vec::new());
    assert_eq!(app.selected_index(), 0);
}

#[test]
fn selected_file_follows_cursor() {
    let mut app = App::new();
    app.update_files(three_files());
    app.select_next();
    assert_eq!(app.selected_file().unwrap().name, b"b".to_vec());
}

#[test]
fn status_line_set_and_cleared() {
    let mut app = App::new();
    app.set_status("Refreshing file list...".to_string());
    assert_eq!(app.status_message().as_deref(), Some("Refreshing file list..."));
    app.clear_status();
    assert!(app.status_message().is_none());
}

#[test]
fn upload_path_and_mode() {
    let mut app = App::new();
    app.set_mode(AppMode::Uploading);
    assert!(app.is_uploading());
    app.set_file_for_upload("/tmp/file".to_string());
    assert_eq!(app.selected_file_path().as_deref(), Some("/tmp/file"));
    app.clear_file_path();
    assert!(app.selected_file_path().is_none());
    app.set_mode(AppMode::Normal);
    assert!(!app.is_uploading());
}

#[test]
fn key_bindings() {
    assert_eq!(key_action('j'), UiAction::SelectNext);
    assert_eq!(key_action('k'), UiAction::SelectPrev);
    assert_eq!(key_action('r'), UiAction::Refresh);
    assert_eq!(key_action('X'), UiAction::Delete);
    assert_eq!(key_action('d'), UiAction::Download);
    assert_eq!(key_action('U'), UiAction::Upload);
    assert_eq!(key_action('q'), UiAction::Quit);
    assert_eq!(key_action('x'), UiAction::Idle);
    assert_eq!(key_action('\n'), UiAction::Idle);
}
