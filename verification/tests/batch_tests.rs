use fileroot::batch::batch_collect;
use fileroot::batch::batch_destination;
use fileroot::batch::copy_expand;
use fileroot::batch::item_target;
use fileroot::batch::ItemIo;
use fileroot::errors::AppError;

// One existing item deleted, one missing item recorded, nothing dropped.
#[test]
fn batch_delete_partial_failure() {
    let paths = vec!["x.txt".to_string(), "missing.txt".to_string()];
    let io = vec![ItemIo::Done, ItemIo::Missing];
    let outcome = batch_collect("/base", &paths, &io);
    assert_eq!(outcome.succeeded, vec!["x.txt".to_string()]);
    assert_eq!(outcome.failed, vec![("missing.txt".to_string(), "Not found".to_string())]);
}

#[test]
fn unsafe_paths_fail_per_item_not_per_batch() {
    let paths = vec!["../escape".to_string(), "ok.txt".to_string(), "locked.txt".to_string()];
    let io = vec![ItemIo::Done, ItemIo::Done, ItemIo::Failed("Permission denied (os error 13)".to_string())];
    let outcome = batch_collect("/base", &paths, &io);
    assert_eq!(outcome.succeeded, vec!["ok.txt".to_string()]);
    assert_eq!(
        outcome.failed,
        vec![
            ("../escape".to_string(), "Access denied".to_string()),
            ("locked.txt".to_string(), "Permission denied (os error 13)".to_string()),
        ]
    );
}

// Every input path lands in exactly one of the two lists.
#[test]
fn every_path_is_accounted_for() {
    let paths: Vec<String> =
        ["a", "../b", "c", "d", "../e"].iter().map(|s| s.to_string()).collect();
    let io = vec![ItemIo::Done, ItemIo::Done, ItemIo::Missing, ItemIo::Done, ItemIo::Done];
    let outcome = batch_collect("/base", &paths, &io);
    assert_eq!(outcome.succeeded.len() + outcome.failed.len(), paths.len());
    for p in &paths {
        let in_succeeded = outcome.succeeded.iter().filter(|q| *q == p).count();
        let in_failed = outcome.failed.iter().filter(|(q, _)| q == p).count();
        assert_eq!(in_succeeded + in_failed, 1);
    }
}

#[test]
fn results_keep_input_order() {
    let paths: Vec<String> = ["c", "a", "b"].iter().map(|s| s.to_string()).collect();
    let io = vec![ItemIo::Done, ItemIo::Missing, ItemIo::Done];
    let outcome = batch_collect("/base", &paths, &io);
    assert_eq!(outcome.succeeded, vec!["c".to_string(), "b".to_string()]);
    assert_eq!(outcome.failed, vec![("a".to_string(), "Not found".to_string())]);
}

#[test]
fn an_empty_batch_yields_empty_lists() {
    let outcome = batch_collect("/base", &Vec::new(), &Vec::new());
    assert!(outcome.succeeded.is_empty());
    assert!(outcome.failed.is_empty());
}

// An unsafe destination is the one batch-fatal error.
#[test]
fn unsafe_destination_aborts_the_batch() {
    match batch_destination("/base", "../elsewhere") {
        Err(AppError::PermissionDenied(m)) => assert_eq!(m, "Access denied"),
        _ => panic!("expected PermissionDenied"),
    }
    let dest = batch_destination("/base", "dest").unwrap();
    assert_eq!(dest.full, "/base/dest");
}

#[test]
fn moved_items_land_under_the_destination_by_base_name() {
    assert_eq!(item_target("/base/dest", "/base/sub/x.txt"), "/base/dest/x.txt");
    assert_eq!(item_target("/base/dest", "/base/dir/"), "/base/dest/dir");
}

// Copying src/{a.txt, sub/b.txt} to dest yields dest/a.txt and dest/sub/b.txt:
// the planner keeps each child's name on both sides, level by level.
#[test]
fn copy_preserves_relative_structure() {
    let names = vec!["a.txt".to_string(), "sub".to_string()];
    let kinds = vec![false, true];
    let (files, dirs) = copy_expand("/base/src", "/base/dest", &names, &kinds);
    assert_eq!(files.len(), 1);
    assert_eq!(files[0].src, "/base/src/a.txt");
    assert_eq!(files[0].dst, "/base/dest/a.txt");
    assert_eq!(dirs.len(), 1);
    assert_eq!(dirs[0].src, "/base/src/sub");
    assert_eq!(dirs[0].dst, "/base/dest/sub");

    let sub_names = vec!["b.txt".to_string()];
    let sub_kinds = vec![false];
    let (sub_files, sub_dirs) = copy_expand(&dirs[0].src, &dirs[0].dst, &sub_names, &sub_kinds);
    assert_eq!(sub_files.len(), 1);
    assert_eq!(sub_files[0].src, "/base/src/sub/b.txt");
    assert_eq!(sub_files[0].dst, "/base/dest/sub/b.txt");
    assert!(sub_dirs.is_empty());
}
