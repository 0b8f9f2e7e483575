use grpc_files::errors::FsError;
use grpc_files::paths::{base_name_of, clean, join_path, validate_name, Sandbox};

fn sandbox() -> Sandbox {
    Sandbox::new(b"/srv/storage".to_vec()).unwrap()
}

#[test]
fn resolve_simple_path() {
    let sb = sandbox();
    let r = sb.resolve(b"docs/a.txt").unwrap();
    assert_eq!(r, b"/srv/storage/docs/a.txt".to_vec());
}

#[test]
fn resolve_empty_path_is_root() {
    let sb = sandbox();
    assert_eq!(sb.resolve(b"").unwrap(), b"/srv/storage".to_vec());
    assert_eq!(sb.resolve(b"///").unwrap(), b"/srv/storage".to_vec());
}

#[test]
fn resolve_trims_separators() {
    let sb = sandbox();
    assert_eq!(sb.resolve(b"/docs/").unwrap(), b"/srv/storage/docs".to_vec());
    assert_eq!(sb.resolve(b"//a/b//").unwrap(), b"/srv/storage/a/b".to_vec());
}

#[test]
fn resolve_rejects_parent_segment() {
    let sb = sandbox();
    assert_eq!(sb.resolve(b"../secret").unwrap_err(), FsError::InvalidPath);
    assert_eq!(sb.resolve(b"a/../../b").unwrap_err(), FsError::InvalidPath);
    assert_eq!(sb.resolve(b"..").unwrap_err(), FsError::InvalidPath);
}

#[test]
fn resolve_is_textually_conservative() {
    // any two-dot sequence is rejected, even one that would not escape
    let sb = sandbox();
    assert_eq!(sb.resolve(b"a..b").unwrap_err(), FsError::InvalidPath);
    assert_eq!(sb.resolve(b"a...").unwrap_err(), FsError::InvalidPath);
}

#[test]
fn resolve_distinct_inputs_distinct_outputs() {
    let sb = sandbox();
    let a = sb.resolve(b"a").unwrap();
    let b = sb.resolve(b"b").unwrap();
    let ab = sb.resolve(b"a/b").unwrap();
    let root = sb.resolve(b"").unwrap();
    assert_ne!(a, b);
    assert_ne!(a, ab);
    assert_ne!(b, ab);
    assert_ne!(a, root);
}

#[test]
fn resolve_stays_under_root() {
    let sb = sandbox();
    for rel in [b"a".as_slice(), b"x/y/z", b"", b"deep/er"] {
        let r = sb.resolve(rel).unwrap();
        assert!(r == b"/srv/storage".to_vec() || r.starts_with(b"/srv/storage/"));
    }
}

#[test]
fn sandbox_root_trimmed() {
    let sb = Sandbox::new(b"/data///".to_vec()).unwrap();
    assert_eq!(sb.resolve(b"f").unwrap(), b"/data/f".to_vec());
}

#[test]
fn sandbox_empty_root_rejected() {
    assert_eq!(Sandbox::new(b"".to_vec()).unwrap_err(), FsError::InvalidArgument);
    assert_eq!(Sandbox::new(b"///".to_vec()).unwrap_err(), FsError::InvalidArgument);
}

#[test]
fn clean_trims_both_ends() {
    assert_eq!(clean(b"//a/b//"), b"a/b".to_vec());
    assert_eq!(clean(b""), b"".to_vec());
    assert_eq!(clean(b"///"), b"".to_vec());
    assert_eq!(clean(b"a"), b"a".to_vec());
}

#[test]
fn validate_name_rules() {
    assert_eq!(validate_name(b"docs").unwrap(), b"docs".to_vec());
    assert_eq!(validate_name(b"docs///").unwrap(), b"docs".to_vec());
    assert_eq!(validate_name(b"").unwrap_err(), FsError::InvalidArgument);
    assert_eq!(validate_name(b"///").unwrap_err(), FsError::InvalidArgument);
    assert_eq!(validate_name(b"a/b").unwrap_err(), FsError::InvalidArgument);
}

#[test]
fn join_path_under_root_and_parent() {
    assert_eq!(join_path(b"", b"a.txt"), b"a.txt".to_vec());
    assert_eq!(join_path(b"docs", b"a.txt"), b"docs/a.txt".to_vec());
}

#[test]
fn base_name_extraction() {
    assert_eq!(base_name_of(b"/home/user/file.txt"), b"file.txt".to_vec());
    assert_eq!(base_name_of(b"file.txt"), b"file.txt".to_vec());
    assert_eq!(base_name_of(b"/ends/in/slash/"), b"".to_vec());
    assert_eq!(base_name_of(b""), b"".to_vec());
}
