//! Planning of full and partial downloads: which bytes to serve, with which
//! status and headers. The streaming itself happens outside; the plan fixes
//! the seek offset, the exact byte count, and the header values.
use vstd::prelude::*;

use crate::errors::AppError;
use crate::range::parse_range_header;
use crate::range::spec_parse_range;
use crate::text::dec_digits;
use crate::text::u64_to_string;

verus! {

/// The `Content-Range` header value for a closed interval of a sized file.
pub open spec fn spec_content_range(start: u64, end: u64, total: u64) -> Seq<char> {
    "bytes "@ + dec_digits(start as nat) + seq!['-'] + dec_digits(end as nat) + seq!['/']
        + dec_digits(total as nat)
}

/// The `Content-Disposition` header value naming a file for inline display.
pub open spec fn spec_content_disposition(name: Seq<char>) -> Seq<char> {
    "inline; filename=\""@ + name + "\""@
}

/// A partial-content plan: seek to `start`, stream exactly `length` bytes.
pub struct RangePlan {
    /// First byte offset to serve, inclusive.
    pub start: u64,
    /// Last byte offset to serve, inclusive.
    pub end: u64,
    /// Exact number of bytes to stream; also the Content-Length value.
    pub length: u64,
    /// The Content-Range header value.
    pub content_range: String,
}

/// How a download is served: a byte sub-range, or the whole file.
pub enum TransferPlan {
    Partial(RangePlan),
    Full,
}

impl TransferPlan {
    /// The HTTP status of the response this plan produces.
    pub open spec fn spec_status(&self) -> u16 {
        match self {
            TransferPlan::Partial(_) => 206,
            TransferPlan::Full => 200,
        }
    }

    pub fn status(&self) -> (r: u16)
        ensures
            r == self.spec_status(),
    {
        match self {
            TransferPlan::Partial(_) => 206,
            TransferPlan::Full => 200,
        }
    }
}

/// Renders the Content-Range header value.
fn content_range_string(start: u64, end: u64, total: u64) -> (r: String)
    ensures
        r@ == spec_content_range(start, end, total),
{
    proof {
        reveal_strlit("-");
        reveal_strlit("/");
        assert(("-")@ =~= seq!['-']);
        assert(("/")@ =~= seq!['/']);
    }
    let mut s = "bytes ".to_owned();
    let a = u64_to_string(start);
    s.append(a.as_str());
    s.append("-");
    let b = u64_to_string(end);
    s.append(b.as_str());
    s.append("/");
    let c = u64_to_string(total);
    s.append(c.as_str());
    s
}

/// Renders the Content-Disposition header value for inline display.
pub fn content_disposition_inline(name: &str) -> (r: String)
    ensures
        r@ == spec_content_disposition(name@),
{
    proof {
        reveal_strlit("\"");
    }
    let mut s = "inline; filename=\"".to_owned();
    s.append(name);
    s.append("\"");
    s
}

/// Decides how to serve a file of `file_size` bytes under an optional Range
/// header. A parseable single range yields a partial plan serving exactly
/// `end - start + 1` bytes with its Content-Range value; anything else falls
/// back to the full file.
pub fn plan_transfer(range_header: Option<&str>, file_size: u64) -> (r: TransferPlan)
    ensures
        (match range_header {
            Some(h) => match spec_parse_range(h@, file_size) {
                Some(b) => (r matches TransferPlan::Partial(p) && {
                    &&& p.start == b.0
                    &&& p.end == b.1
                    &&& p.length == b.1 - b.0 + 1
                    &&& p.content_range@ == spec_content_range(b.0, b.1, file_size)
                }),
                None => r is Full,
            },
            None => r is Full,
        }),
{
    match range_header {
        None => TransferPlan::Full,
        Some(h) => {
            match parse_range_header(h, file_size) {
                None => TransferPlan::Full,
                Some((start, end)) => {
                    let length = end - start + 1;
                    let content_range = content_range_string(start, end, file_size);
                    TransferPlan::Partial(RangePlan { start, end, length, content_range })
                },
            }
        },
    }
}

/// What a preview target must satisfy once resolved: it must exist and not
/// be a directory.
pub fn preview_gate(exists: bool, is_dir: bool) -> (r: Result<(), AppError>)
    ensures
        r is Ok <==> exists && !is_dir,
        (r matches Err(e) ==> {
            &&& !exists ==> (e matches AppError::NotFound(m) && m@ == "File not found"@)
            &&& exists ==> (e matches AppError::InvalidPath(m) && m@
                == "Cannot preview directory"@)
        }),
{
    if !exists {
        Err(AppError::NotFound("File not found".to_owned()))
    } else if is_dir {
        Err(AppError::InvalidPath("Cannot preview directory".to_owned()))
    } else {
        Ok(())
    }
}

/// What a download target must satisfy once resolved: it must exist and not
/// be a directory.
pub fn download_gate(exists: bool, is_dir: bool) -> (r: Result<(), AppError>)
    ensures
        r is Ok <==> exists && !is_dir,
        (r matches Err(e) ==> {
            &&& !exists ==> (e matches AppError::NotFound(m) && m@ == "File not found"@)
            &&& exists ==> (e matches AppError::InvalidPath(m) && m@
                == "Cannot download directory"@)
        }),
{
    if !exists {
        Err(AppError::NotFound("File not found".to_owned()))
    } else if is_dir {
        Err(AppError::InvalidPath("Cannot download directory".to_owned()))
    } else {
        Ok(())
    }
}

} // verus!
