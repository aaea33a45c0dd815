use fileroot::errors::AppError;
use fileroot::path::child_rel_path;
use fileroot::path::file_name_of;
use fileroot::path::is_safe_path;
use fileroot::path::join_under;
use fileroot::path::normalize_path;
use fileroot::path::pathbuf_join;
use fileroot::path::resolve;
use fileroot::path::sanitize_path;
use fileroot::path::split_components;

fn assert_denied(r: Result<fileroot::path::ResolvedPath, AppError>) {
    match r {
        Ok(p) => panic!("expected rejection, resolved to {}", p.full),
        Err(AppError::PermissionDenied(m)) => assert_eq!(m, "Access denied"),
        Err(_) => panic!("expected PermissionDenied"),
    }
}

#[test]
fn sanitize_strips_separators() {
    assert_eq!(sanitize_path("/a/b/"), "a/b");
    assert_eq!(sanitize_path("///a//b///"), "a//b");
    assert_eq!(sanitize_path(""), "");
    assert_eq!(sanitize_path("///"), "");
    assert_eq!(sanitize_path("plain"), "plain");
}

#[test]
fn split_drops_empty_and_cur_pieces() {
    assert_eq!(split_components("a//b/./c"), vec!["a", "b", "c"]);
    assert_eq!(split_components("./a"), vec!["a"]);
    assert_eq!(split_components(""), Vec::<String>::new());
    // An absolute path carries the root marker: the empty leading component.
    assert_eq!(split_components("/a"), vec!["", "a"]);
}

#[test]
fn normalize_pops_parent_components() {
    assert_eq!(normalize_path("a/b/../c"), vec!["a", "c"]);
    assert_eq!(normalize_path("a/.."), Vec::<String>::new());
    assert_eq!(normalize_path("a/../.."), Vec::<String>::new());
    // The root marker is never popped.
    assert_eq!(normalize_path("/a/../../b"), vec!["", "b"]);
}

// Escaping inputs are rejected, whether or not the target exists: the check
// is lexical.
#[test]
fn resolve_rejects_escapes() {
    assert_denied(resolve("/base", "../etc/passwd"));
    assert_denied(resolve("/base", ".."));
    assert_denied(resolve("/base", "a/../../.."));
    assert_denied(resolve("/base", "a/b/../../../z"));
    assert_denied(resolve("base", "../sibling/file.txt"));
}

// Accepted paths stay confined: the resolved component sequence starts with
// the normalized root's components.
#[test]
fn resolve_confines_accepted_paths() {
    let root = "/base";
    let root_norm = normalize_path(root);
    for user in ["", "a.txt", "a/b/c", "a/../b", "/leading/slash", "dir//double"] {
        let p = resolve(root, user).expect("path should be accepted");
        assert!(p.components.len() >= root_norm.len());
        assert_eq!(&p.components[..root_norm.len()], &root_norm[..]);
        assert!(is_safe_path(root, &p.full));
    }
}

#[test]
fn resolve_joins_under_root() {
    let p = resolve("/base", "/a/b/").unwrap();
    assert_eq!(p.full, "/base/a/b");
    assert_eq!(p.rel, "a/b");
    let p = resolve("/base", "").unwrap();
    assert_eq!(p.full, "/base");
    assert_eq!(p.rel, "");
}

// Prefix containment is by components, not by string prefix.
#[test]
fn prefix_is_by_components_not_strings() {
    assert!(!is_safe_path("/base", "/base2"));
    assert!(!is_safe_path("/base", "/base2/file"));
    assert!(is_safe_path("/base", "/base/file"));
    assert!(is_safe_path("/base", "/base"));
}

#[test]
fn over_popping_cannot_reach_above_the_filesystem_root() {
    // Climbing past the root marker stops there; the result is judged
    // against the base as usual.
    assert!(is_safe_path("/", "/a/../../.."));
    assert!(!is_safe_path("/base", "/base/../../.."));
}

#[test]
fn file_name_picks_last_component() {
    assert_eq!(file_name_of("/base/a/b.txt"), "b.txt");
    assert_eq!(file_name_of("b.txt"), "b.txt");
    assert_eq!(file_name_of("a/b/"), "b");
    assert_eq!(file_name_of(""), "unknown");
    assert_eq!(file_name_of("/"), "unknown");
    assert_eq!(file_name_of("a/.."), "unknown");
}

#[test]
fn joins_build_forward_slash_paths() {
    assert_eq!(join_under("/base/dest", "b.txt"), "/base/dest/b.txt");
    assert_eq!(child_rel_path("", "a.txt"), "a.txt");
    assert_eq!(child_rel_path("sub", "a.txt"), "sub/a.txt");
    assert_eq!(pathbuf_join("/base/x", "name"), "/base/x/name");
    // An absolute piece replaces the base, as the filesystem's path type does.
    assert_eq!(pathbuf_join("/base/x", "/abs"), "/abs");
}
