//! The data shapes of the API: directory entries, request bodies, and the
//! uniform response envelope.
use vstd::prelude::*;

verus! {

/// A snapshot of one filesystem entry at listing time; recomputed on every
/// call, never cached.
pub struct FileEntry {
    /// The entry's base name.
    pub name: String,
    /// The entry's path relative to the root, forward-slash separated.
    pub path: String,
    /// Whether the entry is a directory.
    pub is_dir: bool,
    /// Size in bytes.
    pub size: u64,
    /// Modification time, already rendered for display.
    pub modified: String,
    /// Creation time, already rendered for display.
    pub created: String,
}

/// A directory listing: the entries in their presented order, and their count.
pub struct FileListResponse {
    pub items: Vec<FileEntry>,
    pub total: usize,
}

/// Metadata of a single entry, with its MIME type where one is known.
pub struct FileInfoResponse {
    pub name: String,
    pub path: String,
    pub is_dir: bool,
    pub size: u64,
    pub modified: String,
    pub created: String,
    pub mime_type: Option<String>,
}

/// The body of a directory-creation request.
pub struct CreateDirRequest {
    pub path: String,
    pub name: String,
}

/// The body of a batch-delete request.
pub struct BatchDeleteRequest {
    pub paths: Vec<String>,
}

/// The body of a batch-move request.
pub struct BatchMoveRequest {
    pub paths: Vec<String>,
    pub destination: String,
}

/// The body of a batch-copy request.
pub struct BatchCopyRequest {
    pub paths: Vec<String>,
    pub destination: String,
}

/// The uniform JSON response envelope: `code` zero on success, otherwise the
/// HTTP status code the error maps to.
pub struct ApiResponse<T> {
    pub code: i32,
    pub message: String,
    pub data: Option<T>,
}

impl<T> ApiResponse<T> {
    /// Wraps a payload in a successful envelope.
    pub fn success(data: T) -> (r: Self)
        ensures
            r.code == 0,
            r.message@ == "success"@,
            r.data == Some(data),
    {
        ApiResponse { code: 0, message: "success".to_owned(), data: Some(data) }
    }

    /// Wraps an error code and message in a failed envelope.
    pub fn error(code: i32, message: String) -> (r: Self)
        ensures
            r.code == code,
            r.message == message,
            r.data is None,
    {
        ApiResponse { code, message, data: None }
    }
}

} // verus!
