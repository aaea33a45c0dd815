//! The fixed extension-to-MIME lookup used by file metadata and downloads.
//! Unknown extensions yield no MIME type; that is never an error.
use vstd::prelude::*;

use crate::path::components_of;
use crate::path::split_components;
use crate::text::str_eq;

verus! {

/// The index of the last occurrence of a character.
pub open spec fn rfind_char(s: Seq<char>, c: char) -> Option<int>
    decreases s.len(),
{
    if s.len() == 0 {
        None
    } else if s.last() == c {
        Some(s.len() - 1)
    } else {
        rfind_char(s.drop_last(), c)
    }
}

proof fn lemma_rfind_char(s: Seq<char>, c: char)
    ensures
        match rfind_char(s, c) {
            Some(i) => 0 <= i < s.len() && s[i] == c && forall|j: int| i < j < s.len() ==> s[j]
                != c,
            None => forall|j: int| 0 <= j < s.len() ==> s[j] != c,
        },
    decreases s.len(),
{
    if s.len() > 0 && s.last() != c {
        lemma_rfind_char(s.drop_last(), c);
        match rfind_char(s.drop_last(), c) {
            None => {
                assert forall|j: int| 0 <= j < s.len() implies s[j] != c by {
                    if j < s.len() - 1 {
                        assert(s[j] == s.drop_last()[j]);
                    }
                }
            },
            Some(i) => {
                assert(s[i] == s.drop_last()[i]);
                assert forall|j: int| i < j < s.len() implies s[j] != c by {
                    if j < s.len() - 1 {
                        assert(s[j] == s.drop_last()[j]);
                    }
                }
            },
        }
    }
}

/// The extension of a path: the characters after the last dot of its final
/// component; none where that component has no dot, or only a leading one.
pub open spec fn spec_extension(s: Seq<char>) -> Option<Seq<char>> {
    let cs = components_of(s);
    if cs.len() == 0 {
        None
    } else {
        let name = cs.last();
        match rfind_char(name, '.') {
            None => None,
            Some(i) => if i == 0 {
                None
            } else {
                Some(name.skip(i + 1))
            },
        }
    }
}

/// The MIME type assigned to an extension by the fixed table.
pub open spec fn spec_mime_for(ext: Seq<char>) -> Option<Seq<char>> {
    if ext == "txt"@ {
        Some("text/plain"@)
    } else if ext == "html"@ {
        Some("text/html"@)
    } else if ext == "css"@ {
        Some("text/css"@)
    } else if ext == "js"@ {
        Some("application/javascript"@)
    } else if ext == "json"@ {
        Some("application/json"@)
    } else if ext == "pdf"@ {
        Some("application/pdf"@)
    } else if ext == "png"@ {
        Some("image/png"@)
    } else if ext == "jpg"@ || ext == "jpeg"@ {
        Some("image/jpeg"@)
    } else if ext == "gif"@ {
        Some("image/gif"@)
    } else if ext == "svg"@ {
        Some("image/svg+xml"@)
    } else if ext == "mp4"@ {
        Some("video/mp4"@)
    } else if ext == "mp3"@ {
        Some("audio/mpeg"@)
    } else if ext == "zip"@ {
        Some("application/zip"@)
    } else {
        None
    }
}

/// The MIME type of a path, by its extension.
pub open spec fn spec_mime_type(s: Seq<char>) -> Option<Seq<char>> {
    match spec_extension(s) {
        None => None,
        Some(e) => spec_mime_for(e),
    }
}

/// Extracts the extension of a path's final component.
pub fn extension_of(path: &str) -> (r: Option<String>)
    ensures
        r.deep_view() == spec_extension(path@),
{
    let cs = split_components(path);
    if cs.len() == 0 {
        return None;
    }
    let name = &cs[cs.len() - 1];
    proof {
        assert(cs.deep_view().last() == name@);
        lemma_rfind_char(name@, '.');
    }
    let n = name.as_str().unicode_len();
    let mut k = n;
    while k > 0 && name.as_str().get_char(k - 1) != '.'
        invariant
            0 <= k <= n,
            n == name@.len(),
            forall|j: int| k <= j < n ==> name@[j] != '.',
        decreases k,
    {
        k = k - 1;
    }
    if k == 0 {
        proof {
            assert(rfind_char(name@, '.') is None) by {
                match rfind_char(name@, '.') {
                    None => {},
                    Some(i) => {
                        assert(name@[i] == '.');
                    },
                }
            }
        }
        return None;
    }
    proof {
        assert(name@[k - 1] == '.');
        assert(rfind_char(name@, '.') == Some(k - 1)) by {
            match rfind_char(name@, '.') {
                None => {
                    assert(name@[k - 1] != '.');
                },
                Some(i) => {
                    if i < k - 1 {
                        assert(name@[k - 1] != '.');
                    }
                    if i > k - 1 {
                        assert(name@[i] != '.');
                    }
                },
            }
        }
    }
    if k == 1 {
        return None;
    }
    let ext = name.as_str().substring_char(k, n).to_owned();
    proof {
        assert(ext@ =~= name@.skip(k as int));
    }
    Some(ext)
}

/// Looks an extension up in the MIME table.
fn mime_for(ext: &str) -> (r: Option<String>)
    ensures
        r.deep_view() == spec_mime_for(ext@),
{
    if str_eq(ext, "txt") {
        Some("text/plain".to_owned())
    } else if str_eq(ext, "html") {
        Some("text/html".to_owned())
    } else if str_eq(ext, "css") {
        Some("text/css".to_owned())
    } else if str_eq(ext, "js") {
        Some("application/javascript".to_owned())
    } else if str_eq(ext, "json") {
        Some("application/json".to_owned())
    } else if str_eq(ext, "pdf") {
        Some("application/pdf".to_owned())
    } else if str_eq(ext, "png") {
        Some("image/png".to_owned())
    } else if str_eq(ext, "jpg") || str_eq(ext, "jpeg") {
        Some("image/jpeg".to_owned())
    } else if str_eq(ext, "gif") {
        Some("image/gif".to_owned())
    } else if str_eq(ext, "svg") {
        Some("image/svg+xml".to_owned())
    } else if str_eq(ext, "mp4") {
        Some("video/mp4".to_owned())
    } else if str_eq(ext, "mp3") {
        Some("audio/mpeg".to_owned())
    } else if str_eq(ext, "zip") {
        Some("application/zip".to_owned())
    } else {
        None
    }
}

/// The MIME type of the file a path denotes, from the fixed extension table;
/// none for an unknown or missing extension.
pub fn get_mime_type(path: &str) -> (r: Option<String>)
    ensures
        r.deep_view() == spec_mime_type(path@),
{
    match extension_of(path) {
        None => None,
        Some(ext) => mime_for(ext.as_str()),
    }
}

} // verus!
