use crown::pathutils::{normalize_slashes, resolve_path, resolve_workspace_path, to_rel_path};

const CWD: &str = "/work/project";

#[test]
fn test_normalize_slashes_forward_unchanged() {
    assert_eq!(normalize_slashes("/a/b/c"), "/a/b/c");
}

#[test]
fn test_normalize_slashes_backslash_replaced() {
    assert_eq!(normalize_slashes(r"\a\b\c"), "/a/b/c");
}

#[test]
fn test_normalize_slashes_mixed() {
    assert_eq!(normalize_slashes(r"a\b/c\d"), "a/b/c/d");
}

#[test]
fn test_normalize_slashes_empty() {
    assert_eq!(normalize_slashes(""), "");
}

#[test]
fn test_resolve_workspace_path_absolute() {
    let result = resolve_workspace_path("/absolute/path", CWD);
    assert_eq!(result, "/absolute/path");
}

#[test]
fn test_resolve_workspace_path_relative() {
    let result = resolve_workspace_path("relative/path", CWD);
    assert!(!result.is_empty());
    assert!(result.contains("relative/path"));
}

#[test]
fn test_resolve_workspace_path_empty() {
    assert_eq!(resolve_workspace_path("", CWD), "");
}

#[test]
fn test_to_rel_path_strips_cwd() {
    let full = format!("{}/some/file.txt", CWD);
    let rel = to_rel_path(&full, None, CWD);
    assert_eq!(rel, "some/file.txt");
}

#[test]
fn test_to_rel_path_outside_cwd() {
    assert_eq!(to_rel_path("/some/other/path", None, CWD), "/some/other/path");
}

#[test]
fn test_to_rel_path_exact_cwd() {
    assert_eq!(to_rel_path(CWD, None, CWD), "");
}

#[test]
fn test_to_rel_path_custom_cwd() {
    let rel = to_rel_path("/custom/dir/file.txt", Some("/custom/dir"), CWD);
    assert_eq!(rel, "file.txt");
}

#[test]
fn test_resolve_path() {
    let (abs, display) = resolve_path("some/path", CWD);
    assert_eq!(abs, display);
    assert!(!abs.is_empty());
}

#[test]
fn test_resolve_path_absolute() {
    let (abs, display) = resolve_path("/usr/bin", CWD);
    assert_eq!(abs, "/usr/bin");
    assert_eq!(display, "/usr/bin");
}

#[test]
fn test_resolve_path_relative() {
    let (abs, _display) = resolve_path("foo/bar", CWD);
    assert!(abs.starts_with(CWD));
    assert!(abs.ends_with("foo/bar"));
}

#[test]
fn resolve_relative_path_joins_and_normalizes() {
    assert_eq!(resolve_workspace_path(r"a\b", CWD), "/work/project/a/b");
    assert_eq!(resolve_workspace_path("x", "/work/"), "/work/x");
}

#[test]
fn to_rel_path_empty_cwd_uses_current_dir() {
    assert_eq!(to_rel_path("/work/project/x/y", Some(""), CWD), "x/y");
    assert_eq!(to_rel_path("/work/projectx/y", None, CWD), "/work/projectx/y");
}
