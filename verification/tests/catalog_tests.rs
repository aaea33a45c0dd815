use fileroot::catalog::list_gate;
use fileroot::catalog::make_file_info;
use fileroot::catalog::make_listing;
use fileroot::catalog::sort_entries;
use fileroot::errors::AppError;
use fileroot::mime::get_mime_type;
use fileroot::models::FileEntry;
use fileroot::path::resolve;

fn entry(name: &str, is_dir: bool) -> FileEntry {
    FileEntry {
        name: name.to_string(),
        path: name.to_string(),
        is_dir,
        size: 0,
        modified: String::new(),
        created: String::new(),
    }
}

// Directories come first; within each group names ascend by code point.
#[test]
fn listing_orders_directories_first_then_names() {
    let mut entries = vec![entry("b.txt", false), entry("A_dir", true), entry("a.txt", false)];
    sort_entries(&mut entries);
    let names: Vec<&str> = entries.iter().map(|e| e.name.as_str()).collect();
    assert_eq!(names, vec!["A_dir", "a.txt", "b.txt"]);
}

#[test]
fn listing_total_counts_the_items() {
    let listing = make_listing(vec![entry("z", false), entry("d", true), entry("a", false)]);
    assert_eq!(listing.total, 3);
    assert_eq!(listing.items.len(), 3);
    let names: Vec<&str> = listing.items.iter().map(|e| e.name.as_str()).collect();
    assert_eq!(names, vec!["d", "a", "z"]);
}

#[test]
fn uppercase_sorts_before_lowercase_by_code_point() {
    let mut entries = vec![entry("a", false), entry("B", false), entry("A", false)];
    sort_entries(&mut entries);
    let names: Vec<&str> = entries.iter().map(|e| e.name.as_str()).collect();
    assert_eq!(names, vec!["A", "B", "a"]);
}

#[test]
fn equal_names_keep_both_entries() {
    let mut entries = vec![
        entry("same", false),
        entry("same", true),
        entry("same", false),
    ];
    sort_entries(&mut entries);
    assert_eq!(entries.len(), 3);
    assert!(entries[0].is_dir);
    assert!(!entries[1].is_dir);
    assert!(!entries[2].is_dir);
}

#[test]
fn empty_listing_is_empty() {
    let listing = make_listing(Vec::new());
    assert_eq!(listing.total, 0);
    assert!(listing.items.is_empty());
}

#[test]
fn list_gate_demands_an_existing_directory() {
    assert!(list_gate(true, true).is_ok());
    match list_gate(false, false) {
        Err(AppError::NotFound(m)) => assert_eq!(m, "Path not found"),
        _ => panic!("expected NotFound"),
    }
    match list_gate(true, false) {
        Err(AppError::InvalidPath(m)) => assert_eq!(m, "Not a directory"),
        _ => panic!("expected InvalidPath"),
    }
}

#[test]
fn mime_table_maps_known_extensions() {
    assert_eq!(get_mime_type("a/report.pdf").as_deref(), Some("application/pdf"));
    assert_eq!(get_mime_type("x.txt").as_deref(), Some("text/plain"));
    assert_eq!(get_mime_type("x.html").as_deref(), Some("text/html"));
    assert_eq!(get_mime_type("x.css").as_deref(), Some("text/css"));
    assert_eq!(get_mime_type("x.js").as_deref(), Some("application/javascript"));
    assert_eq!(get_mime_type("x.json").as_deref(), Some("application/json"));
    assert_eq!(get_mime_type("x.png").as_deref(), Some("image/png"));
    assert_eq!(get_mime_type("x.jpg").as_deref(), Some("image/jpeg"));
    assert_eq!(get_mime_type("x.jpeg").as_deref(), Some("image/jpeg"));
    assert_eq!(get_mime_type("x.gif").as_deref(), Some("image/gif"));
    assert_eq!(get_mime_type("x.svg").as_deref(), Some("image/svg+xml"));
    assert_eq!(get_mime_type("x.mp4").as_deref(), Some("video/mp4"));
    assert_eq!(get_mime_type("x.mp3").as_deref(), Some("audio/mpeg"));
    assert_eq!(get_mime_type("x.zip").as_deref(), Some("application/zip"));
}

#[test]
fn unknown_extensions_yield_no_mime_type() {
    assert_eq!(get_mime_type("archive.rar"), None);
    assert_eq!(get_mime_type("no_extension"), None);
    assert_eq!(get_mime_type(".gitignore"), None);
    assert_eq!(get_mime_type("a.tar.gz"), None);
    assert_eq!(get_mime_type(""), None);
}

#[test]
fn file_info_combines_name_path_and_mime() {
    let resolved = resolve("/base", "docs/guide.pdf").unwrap();
    let info = make_file_info(&resolved, false, 1234, "m".to_string(), "c".to_string());
    assert_eq!(info.name, "guide.pdf");
    assert_eq!(info.path, "docs/guide.pdf");
    assert!(!info.is_dir);
    assert_eq!(info.size, 1234);
    assert_eq!(info.mime_type.as_deref(), Some("application/pdf"));
}
