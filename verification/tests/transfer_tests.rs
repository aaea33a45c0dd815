use fileroot::errors::AppError;
use fileroot::models::ApiResponse;
use fileroot::ops::delete_dir_gate;
use fileroot::ops::delete_file_gate;
use fileroot::ops::info_gate;
use fileroot::ops::mkdir_gate;
use fileroot::ops::plan_mkdir;
use fileroot::ops::upload_verdict;
use fileroot::transfer::content_disposition_inline;
use fileroot::transfer::download_gate;
use fileroot::transfer::plan_transfer;
use fileroot::transfer::preview_gate;
use fileroot::transfer::TransferPlan;

// A ten-byte range of a hundred-byte file: partial-content status, exactly
// ten bytes, and the matching Content-Range header.
#[test]
fn ranged_download_serves_exactly_the_window() {
    match plan_transfer(Some("bytes=10-19"), 100) {
        TransferPlan::Partial(p) => {
            assert_eq!(p.start, 10);
            assert_eq!(p.end, 19);
            assert_eq!(p.length, 10);
            assert_eq!(p.content_range, "bytes 10-19/100");
        },
        TransferPlan::Full => panic!("expected a partial plan"),
    }
    assert_eq!(plan_transfer(Some("bytes=10-19"), 100).status(), 206);
}

#[test]
fn unusable_ranges_fall_back_to_the_full_file() {
    assert_eq!(plan_transfer(None, 100).status(), 200);
    assert_eq!(plan_transfer(Some("bytes=0-100"), 100).status(), 200);
    assert_eq!(plan_transfer(Some("garbage"), 100).status(), 200);
    assert_eq!(plan_transfer(Some("bytes=0-9,20-29"), 100).status(), 200);
}

#[test]
fn open_ended_range_serves_the_tail() {
    match plan_transfer(Some("bytes=90-"), 100) {
        TransferPlan::Partial(p) => {
            assert_eq!((p.start, p.end, p.length), (90, 99, 10));
            assert_eq!(p.content_range, "bytes 90-99/100");
        },
        TransferPlan::Full => panic!("expected a partial plan"),
    }
}

#[test]
fn content_disposition_names_the_file() {
    assert_eq!(content_disposition_inline("report.pdf"), "inline; filename=\"report.pdf\"");
}

#[test]
fn download_and_preview_gates_reject_directories() {
    assert!(download_gate(true, false).is_ok());
    match download_gate(false, false) {
        Err(AppError::NotFound(m)) => assert_eq!(m, "File not found"),
        _ => panic!("expected NotFound"),
    }
    match download_gate(true, true) {
        Err(AppError::InvalidPath(m)) => assert_eq!(m, "Cannot download directory"),
        _ => panic!("expected InvalidPath"),
    }
    match preview_gate(true, true) {
        Err(AppError::InvalidPath(m)) => assert_eq!(m, "Cannot preview directory"),
        _ => panic!("expected InvalidPath"),
    }
}

#[test]
fn delete_gates_distinguish_files_from_directories() {
    assert!(delete_file_gate(true, false).is_ok());
    match delete_file_gate(true, true) {
        Err(AppError::InvalidPath(m)) => assert_eq!(m, "Use delete-dir for directories"),
        _ => panic!("expected InvalidPath"),
    }
    match delete_file_gate(false, false) {
        Err(AppError::NotFound(m)) => assert_eq!(m, "File not found"),
        _ => panic!("expected NotFound"),
    }
    assert!(delete_dir_gate(true, true).is_ok());
    match delete_dir_gate(false, true) {
        Err(AppError::NotFound(m)) => assert_eq!(m, "Directory not found"),
        _ => panic!("expected NotFound"),
    }
    match delete_dir_gate(true, false) {
        Err(AppError::InvalidPath(m)) => assert_eq!(m, "Not a directory"),
        _ => panic!("expected InvalidPath"),
    }
}

#[test]
fn info_gate_requires_existence() {
    assert!(info_gate(true).is_ok());
    match info_gate(false) {
        Err(AppError::NotFound(m)) => assert_eq!(m, "File not found"),
        _ => panic!("expected NotFound"),
    }
}

#[test]
fn mkdir_plans_and_gates() {
    assert_eq!(plan_mkdir("/base", "docs", "new").unwrap(), "/base/docs/new");
    match plan_mkdir("/base", "docs", "../../escape") {
        Err(AppError::PermissionDenied(m)) => assert_eq!(m, "Access denied"),
        _ => panic!("expected PermissionDenied"),
    }
    assert!(mkdir_gate(false).is_ok());
    match mkdir_gate(true) {
        Err(AppError::InvalidRequest(m)) => assert_eq!(m, "Directory already exists"),
        _ => panic!("expected InvalidRequest"),
    }
}

#[test]
fn upload_verdict_reports_total_failure_only() {
    match upload_verdict(vec![], 3) {
        Err(AppError::InvalidRequest(m)) => assert_eq!(m, "Failed to upload 3 files"),
        _ => panic!("expected InvalidRequest"),
    }
    let names = vec!["kept.txt".to_string()];
    assert_eq!(upload_verdict(names.clone(), 2).unwrap(), names);
    assert_eq!(upload_verdict(Vec::new(), 0).unwrap(), Vec::<String>::new());
}

#[test]
fn error_variants_map_to_their_status_codes() {
    assert_eq!(AppError::NotFound(String::new()).status_code(), 404);
    assert_eq!(AppError::InvalidPath(String::new()).status_code(), 400);
    assert_eq!(AppError::PermissionDenied(String::new()).status_code(), 403);
    assert_eq!(AppError::IoError(String::new()).status_code(), 500);
    assert_eq!(AppError::InvalidRequest(String::new()).status_code(), 400);
    assert_eq!(AppError::IoError("disk".to_string()).message(), "disk");
}

#[test]
fn response_envelope_carries_code_message_and_data() {
    let ok = ApiResponse::success(7u64);
    assert_eq!(ok.code, 0);
    assert_eq!(ok.message, "success");
    assert_eq!(ok.data, Some(7));
    let err: ApiResponse<u64> = ApiResponse::error(404, "Path not found".to_string());
    assert_eq!(err.code, 404);
    assert_eq!(err.message, "Path not found");
    assert_eq!(err.data, None);
}
