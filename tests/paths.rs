use media_serve::error::AppError;
use media_serve::paths::{
    canonicalize_in_base, is_within, join_in_base, parent_dir, path_components,
    relative_from_base, trim_slashes_of,
};

#[test]
fn join_trims_separators() {
    assert_eq!(join_in_base("/srv/media", "/a/b/"), "/srv/media/a/b");
    assert_eq!(join_in_base("/srv/media", ""), "/srv/media");
    assert_eq!(join_in_base("/srv/media", "///"), "/srv/media");
    assert_eq!(join_in_base("/", "x"), "/x");
    assert_eq!(trim_slashes_of("//a/b//"), "a/b");
}

#[test]
fn components_skip_empty_runs() {
    assert_eq!(path_components("/a//b/"), vec!["a".to_string(), "b".to_string()]);
    assert!(path_components("/").is_empty());
}

#[test]
fn within_compares_components() {
    assert!(is_within("/r", "/r"));
    assert!(is_within("/r", "/r/a/b"));
    assert!(!is_within("/r/a", "/r/ab"));
    assert!(!is_within("/r", "/"));
    assert!(is_within("/", "/etc"));
    assert!(!is_within("/r", "r/a"));
}

#[test]
fn resolve_missing_path_is_not_found() {
    assert!(matches!(canonicalize_in_base("/r", None), Err(AppError::NotFound(_))));
}

#[test]
fn resolve_escape_is_forbidden() {
    // "../etc/passwd" joined onto /r canonicalizes to /etc/passwd
    let joined = join_in_base("/r", "../etc/passwd");
    assert_eq!(joined, "/r/../etc/passwd");
    let r = canonicalize_in_base("/r", Some("/etc/passwd"));
    assert!(matches!(r, Err(AppError::Forbidden(_))));
    let r = canonicalize_in_base("/r", Some("/rx/file"));
    assert!(matches!(r, Err(AppError::Forbidden(_))));
}

#[test]
fn resolve_inside_root_keeps_canonical_path() {
    assert_eq!(canonicalize_in_base("/r", Some("/r/a/b.jpg")).unwrap(), "/r/a/b.jpg");
    assert_eq!(canonicalize_in_base("/r", Some("/r")).unwrap(), "/r");
}

#[test]
fn relativize_round_trip() {
    let resolved = canonicalize_in_base("/r", Some("/r/x/y.mp4")).unwrap();
    assert_eq!(relative_from_base("/r", &resolved).unwrap(), "x/y.mp4");
    assert_eq!(relative_from_base("/r", "/r").unwrap(), "");
    assert!(matches!(relative_from_base("/r", "/s/x"), Err(AppError::Internal(_))));
}

#[test]
fn parent_of_paths() {
    assert_eq!(parent_dir("/r/a/b.mp4").as_deref(), Some("/r/a"));
    assert_eq!(parent_dir("/a").as_deref(), Some("/"));
    assert_eq!(parent_dir("/"), None);
}
