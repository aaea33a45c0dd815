//! Core logic of a root-confined file management service: lexical path
//! resolution that can never escape the configured root, HTTP byte-range
//! parsing, directory-listing order, MIME lookup, transfer planning, and
//! batch-operation outcome aggregation.
pub mod batch;
pub mod catalog;
pub mod errors;
pub mod models;
pub mod mime;
pub mod range;
pub mod ops;
pub mod path;
pub mod text;
pub mod transfer;

use vstd::prelude::*;

verus! {

/// The immutable per-process state: every request is interpreted relative to
/// this root directory.
pub struct AppState {
    pub base_dir: String,
}

} // verus!
