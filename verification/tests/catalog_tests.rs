use grpc_files::catalog::{
    count_visible_exec, create_directory_decide, create_directory_target, delete_directory_check,
    delete_file_check, list_directory, list_entries,
};
use grpc_files::entries::RawEntry;
use grpc_files::errors::FsError;
use grpc_files::paths::Sandbox;

fn raw(name: &[u8], size: u64, is_directory: bool, modified_at: u64) -> RawEntry {
    RawEntry { name: name.to_vec(), size, is_directory, modified_at }
}

fn sample_children() -> Vec<RawEntry> {
    vec![
        raw(b"b.txt", 10, false, 100),
        raw(b"a.txt", 20, false, 200),
        raw(b"sub", 0, true, 300),
        raw(b".hidden", 5, false, 400),
    ]
}

fn sandbox() -> Sandbox {
    Sandbox::new(b"/srv/storage".to_vec()).unwrap()
}

#[test]
fn listing_sorts_and_filters() {
    let out = list_entries(b"", sample_children());
    let names: Vec<&[u8]> = out.iter().map(|e| e.name.as_slice()).collect();
    assert_eq!(names, vec![b"sub".as_slice(), b"a.txt", b"b.txt"]);
}

#[test]
fn listing_paths_under_root_parent() {
    let out = list_entries(b"", sample_children());
    assert_eq!(out[0].path, b"sub".to_vec());
    assert_eq!(out[1].path, b"a.txt".to_vec());
}

#[test]
fn listing_paths_under_subdirectory() {
    let out = list_entries(b"docs", sample_children());
    assert_eq!(out[0].path, b"docs/sub".to_vec());
    assert_eq!(out[1].path, b"docs/a.txt".to_vec());
    assert_eq!(out[2].path, b"docs/b.txt".to_vec());
}

#[test]
fn listing_keeps_metadata() {
    let out = list_entries(b"", sample_children());
    assert_eq!(out[1].size, 20);
    assert!(!out[1].is_directory);
    assert_eq!(out[1].modified_at, 200);
    assert!(out[0].is_directory);
}

#[test]
fn listing_directories_before_files() {
    let out = list_entries(
        b"",
        vec![raw(b"aaa", 1, false, 0), raw(b"zzz", 0, true, 0), raw(b"mmm", 0, true, 0)],
    );
    let names: Vec<&[u8]> = out.iter().map(|e| e.name.as_slice()).collect();
    assert_eq!(names, vec![b"mmm".as_slice(), b"zzz", b"aaa"]);
}

#[test]
fn listing_empty_directory() {
    let out = list_entries(b"", Vec::new());
    assert!(out.is_empty());
    let only_hidden = list_entries(b"", vec![raw(b".a", 0, false, 0), raw(b".b", 0, true, 0)]);
    assert!(only_hidden.is_empty());
}

#[test]
fn list_directory_outcomes() {
    let sb = sandbox();
    let ok = list_directory(&sb, b"/docs/", true, true, sample_children()).unwrap();
    assert_eq!(ok.current_path, b"docs".to_vec());
    assert_eq!(ok.files.len(), 3);

    let e = list_directory(&sb, b"docs", false, false, Vec::new()).unwrap_err();
    assert_eq!(e, FsError::NotFound);
    let e = list_directory(&sb, b"docs", true, false, Vec::new()).unwrap_err();
    assert_eq!(e, FsError::FailedPrecondition);
    let e = list_directory(&sb, b"../up", true, true, Vec::new()).unwrap_err();
    assert_eq!(e, FsError::InvalidPath);
}

#[test]
fn count_visible_ignores_hidden() {
    assert_eq!(count_visible_exec(&sample_children()), 3);
    assert_eq!(count_visible_exec(&vec![raw(b".x", 0, false, 0)]), 0);
    assert_eq!(count_visible_exec(&Vec::new()), 0);
}

#[test]
fn create_directory_valid_name() {
    let sb = sandbox();
    let t = create_directory_target(&sb, b"docs", b"new").unwrap();
    assert_eq!(t, b"/srv/storage/docs/new".to_vec());
    let t = create_directory_target(&sb, b"", b"new").unwrap();
    assert_eq!(t, b"/srv/storage/new".to_vec());
}

#[test]
fn create_directory_name_with_separator_rejected() {
    let sb = sandbox();
    let e = create_directory_target(&sb, b"", b"a/b").unwrap_err();
    assert_eq!(e, FsError::InvalidArgument);
    let e = create_directory_target(&sb, b"", b"").unwrap_err();
    assert_eq!(e, FsError::InvalidArgument);
}

#[test]
fn create_directory_bad_parent_rejected() {
    let sb = sandbox();
    let e = create_directory_target(&sb, b"../other", b"new").unwrap_err();
    assert_eq!(e, FsError::InvalidPath);
}

#[test]
fn create_directory_existing_target_rejected() {
    assert_eq!(create_directory_decide(true).unwrap_err(), FsError::AlreadyExists);
    assert!(create_directory_decide(false).is_ok());
}

#[test]
fn delete_directory_with_only_hidden_is_empty() {
    let sb = sandbox();
    let children = vec![raw(b".keep", 0, false, 0), raw(b".cache", 0, true, 0)];
    let t = delete_directory_check(&sb, b"docs", true, true, &children, false).unwrap();
    assert_eq!(t, b"/srv/storage/docs".to_vec());
}

#[test]
fn delete_directory_with_visible_needs_recursive() {
    let sb = sandbox();
    let children = vec![raw(b"file.txt", 1, false, 0)];
    let e = delete_directory_check(&sb, b"docs", true, true, &children, false).unwrap_err();
    assert_eq!(e, FsError::FailedPrecondition);
    let t = delete_directory_check(&sb, b"docs", true, true, &children, true).unwrap();
    assert_eq!(t, b"/srv/storage/docs".to_vec());
}

#[test]
fn delete_directory_other_failures() {
    let sb = sandbox();
    let none: Vec<RawEntry> = Vec::new();
    let e = delete_directory_check(&sb, b"gone", false, false, &none, true).unwrap_err();
    assert_eq!(e, FsError::NotFound);
    let e = delete_directory_check(&sb, b"file.txt", true, false, &none, true).unwrap_err();
    assert_eq!(e, FsError::FailedPrecondition);
    let e = delete_directory_check(&sb, b"a/../b", true, true, &none, true).unwrap_err();
    assert_eq!(e, FsError::InvalidPath);
}

#[test]
fn delete_file_outcomes() {
    let sb = sandbox();
    let t = delete_file_check(&sb, b"docs/a.txt", true).unwrap();
    assert_eq!(t, b"/srv/storage/docs/a.txt".to_vec());
    assert_eq!(delete_file_check(&sb, b"gone", false).unwrap_err(), FsError::NotFound);
    assert_eq!(delete_file_check(&sb, b"../x", true).unwrap_err(), FsError::InvalidPath);
}
