use svn::path::{contains_parent_part, validate_rel_dir_path, validate_rel_path};
use svn::SvnError;

#[test]
fn validate_rel_path_rejects_empty_path() {
    let err = validate_rel_path("  / ").unwrap_err();
    assert!(matches!(err, SvnError::InvalidPath(_)));
}

#[test]
fn validate_rel_path_rejects_parent_dir() {
    assert!(validate_rel_path("../a.zip").is_err());
    assert!(validate_rel_path("a/../b.zip").is_err());
}

#[test]
fn validate_rel_path_normalizes_leading_slash() {
    assert_eq!(validate_rel_path("trunk/a.zip").unwrap(), "trunk/a.zip");
    assert_eq!(validate_rel_path("/trunk/a.zip").unwrap(), "trunk/a.zip");
}

#[test]
fn validate_rel_dir_path_allows_empty_root() {
    assert_eq!(validate_rel_dir_path("").unwrap(), "");
    assert_eq!(validate_rel_dir_path("/").unwrap(), "");
}

#[test]
fn validate_rel_dir_path_rejects_parent_dir() {
    assert!(validate_rel_dir_path("../").is_err());
    assert!(validate_rel_dir_path("a/../b").is_err());
}

#[test]
fn validate_rel_dir_path_normalizes_leading_slash() {
    assert_eq!(validate_rel_dir_path("trunk").unwrap(), "trunk");
    assert_eq!(validate_rel_dir_path("/trunk").unwrap(), "trunk");
    assert_eq!(validate_rel_dir_path("/trunk/dir").unwrap(), "trunk/dir");
}

#[test]
fn only_whole_parts_lead_up() {
    assert!(contains_parent_part(".."));
    assert!(contains_parent_part("a/.."));
    assert!(!contains_parent_part("a..b/..c/d.."));
    assert_eq!(validate_rel_path(" //a..b ").unwrap(), "a..b");
}

#[test]
fn path_errors_say_what_is_wrong() {
    match validate_rel_path("/") {
        Err(SvnError::InvalidPath(m)) => assert_eq!(m, "empty path"),
        other => panic!("{other:?}"),
    }
    match validate_rel_dir_path("/../x") {
        Err(SvnError::InvalidPath(m)) => assert_eq!(m, "unsafe path"),
        other => panic!("{other:?}"),
    }
}
