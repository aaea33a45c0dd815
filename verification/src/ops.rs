//! The per-endpoint decision logic of the single-target operations: which
//! error, with which message, an operation returns once the resolver and the
//! filesystem have spoken.
use vstd::prelude::*;

use crate::errors::AppError;
use crate::path::accepts;
use crate::path::is_safe_path;
use crate::path::joined;
use crate::path::norm_of;
use crate::path::pathbuf_join;
use crate::path::resolve;
use crate::path::spec_pathbuf_join;
use crate::text::dec_digits;
use crate::text::u64_to_string;

verus! {

/// What a single-file delete target must satisfy: it must exist and not be
/// a directory; directories go through their own endpoint.
pub fn delete_file_gate(exists: bool, is_dir: bool) -> (r: Result<(), AppError>)
    ensures
        r is Ok <==> exists && !is_dir,
        (r matches Err(e) ==> {
            &&& !exists ==> (e matches AppError::NotFound(m) && m@ == "File not found"@)
            &&& exists ==> (e matches AppError::InvalidPath(m) && m@
                == "Use delete-dir for directories"@)
        }),
{
    if !exists {
        Err(AppError::NotFound("File not found".to_owned()))
    } else if is_dir {
        Err(AppError::InvalidPath("Use delete-dir for directories".to_owned()))
    } else {
        Ok(())
    }
}

/// What a directory delete target must satisfy: it must exist and be a
/// directory.
pub fn delete_dir_gate(exists: bool, is_dir: bool) -> (r: Result<(), AppError>)
    ensures
        r is Ok <==> exists && is_dir,
        (r matches Err(e) ==> {
            &&& !exists ==> (e matches AppError::NotFound(m) && m@ == "Directory not found"@)
            &&& exists ==> (e matches AppError::InvalidPath(m) && m@ == "Not a directory"@)
        }),
{
    if !exists {
        Err(AppError::NotFound("Directory not found".to_owned()))
    } else if !is_dir {
        Err(AppError::InvalidPath("Not a directory".to_owned()))
    } else {
        Ok(())
    }
}

/// What a metadata target must satisfy: it must exist.
pub fn info_gate(exists: bool) -> (r: Result<(), AppError>)
    ensures
        r is Ok <==> exists,
        (r matches Err(e) ==> e matches AppError::NotFound(m) && m@ == "File not found"@),
{
    if !exists {
        Err(AppError::NotFound("File not found".to_owned()))
    } else {
        Ok(())
    }
}

/// What a directory-creation target must satisfy: it must not exist yet.
pub fn mkdir_gate(exists: bool) -> (r: Result<(), AppError>)
    ensures
        r is Ok <==> !exists,
        (r matches Err(e) ==> e matches AppError::InvalidRequest(m) && m@
            == "Directory already exists"@),
{
    if exists {
        Err(AppError::InvalidRequest("Directory already exists".to_owned()))
    } else {
        Ok(())
    }
}

/// Resolves where a new directory would be created: the parent path must
/// resolve, and the parent joined with the requested name must itself stay
/// under the root; the name is joined the way the filesystem's path type
/// joins, so an absolute-looking name replaces the parent outright and is
/// then judged on its own.
pub fn plan_mkdir(root: &str, path: &str, name: &str) -> (r: Result<String, AppError>)
    ensures
        r is Ok <==> accepts(root@, path@) && norm_of(root@).is_prefix_of(
            norm_of(spec_pathbuf_join(joined(root@, path@), name@)),
        ),
        (r matches Ok(f) ==> f@ == spec_pathbuf_join(joined(root@, path@), name@)),
        (r matches Err(e) ==> e matches AppError::PermissionDenied(m) && m@ == "Access denied"@),
{
    let parent = match resolve(root, path) {
        Ok(p) => p,
        Err(e) => {
            return Err(e);
        },
    };
    let candidate = pathbuf_join(parent.full.as_str(), name);
    if is_safe_path(root, candidate.as_str()) {
        Ok(candidate)
    } else {
        Err(AppError::PermissionDenied("Access denied".to_owned()))
    }
}

/// The upload message naming how many files failed.
pub open spec fn spec_upload_failure_message(error_count: u64) -> Seq<char> {
    "Failed to upload "@ + dec_digits(error_count as nat) + " files"@
}

/// The verdict of an upload: where nothing was written and at least one file
/// failed, the whole request is malformed; otherwise the successfully written
/// names are reported as they are, failed ones silently absent.
pub fn upload_verdict(uploaded: Vec<String>, error_count: u64) -> (r: Result<
    Vec<String>,
    AppError,
>)
    ensures
        r is Ok <==> (uploaded@.len() > 0 || error_count == 0),
        (r matches Ok(v) ==> v == uploaded),
        (r matches Err(e) ==> e matches AppError::InvalidRequest(m) && m@
            == spec_upload_failure_message(error_count)),
{
    if uploaded.is_empty() && error_count > 0 {
        let mut msg = "Failed to upload ".to_owned();
        let n = u64_to_string(error_count);
        msg.append(n.as_str());
        msg.append(" files");
        Err(AppError::InvalidRequest(msg))
    } else {
        Ok(uploaded)
    }
}

} // verus!
