//! Directory-listing order and the listing gate: directories come before
//! files, and within each group names ascend by code point.
use vstd::prelude::*;

use crate::errors::AppError;
use crate::mime::get_mime_type;
use crate::mime::spec_mime_type;
use crate::models::FileEntry;
use crate::models::FileInfoResponse;
use crate::models::FileListResponse;
use crate::path::spec_file_name;
use crate::path::file_name_of;
use crate::path::ResolvedPath;
use crate::text::lex_le;
use crate::text::lex_le_str;
use crate::text::lemma_lex_le_connected;
use crate::text::lemma_lex_le_transitive;

verus! {

broadcast use vstd::seq_lib::group_to_multiset_ensures;

/// The listing order: directories before files; within each group, ascending
/// by name.
pub open spec fn entry_le(a: FileEntry, b: FileEntry) -> bool {
    if a.is_dir != b.is_dir {
        a.is_dir
    } else {
        lex_le(a.name@, b.name@)
    }
}

/// Any two entries are comparable under `entry_le`.
pub proof fn lemma_entry_le_connected(a: FileEntry, b: FileEntry)
    ensures
        entry_le(a, b) || entry_le(b, a),
{
    if a.is_dir == b.is_dir {
        lemma_lex_le_connected(a.name@, b.name@);
    }
}

/// `entry_le` is transitive.
pub proof fn lemma_entry_le_transitive(a: FileEntry, b: FileEntry, c: FileEntry)
    requires
        entry_le(a, b),
        entry_le(b, c),
    ensures
        entry_le(a, c),
{
    if a.is_dir == b.is_dir && b.is_dir == c.is_dir {
        lemma_lex_le_transitive(a.name@, b.name@, c.name@);
    }
}

/// Whether a sequence of entries is in listing order.
pub open spec fn entries_sorted(s: Seq<FileEntry>) -> bool {
    forall|i: int, j: int| 0 <= i < j < s.len() ==> entry_le(#[trigger] s[i], #[trigger] s[j])
}

/// Decides the listing order between two entries.
pub fn entry_le_exec(a: &FileEntry, b: &FileEntry) -> (r: bool)
    ensures
        r == entry_le(*a, *b),
{
    if a.is_dir != b.is_dir {
        a.is_dir
    } else {
        lex_le_str(a.name.as_str(), b.name.as_str())
    }
}

/// Sorts entries into listing order. The result is a permutation of the
/// input: nothing is dropped and nothing is invented.
pub fn sort_entries(entries: &mut Vec<FileEntry>)
    ensures
        entries_sorted(final(entries)@),
        final(entries)@.to_multiset() == old(entries)@.to_multiset(),
{
    if entries.len() <= 1 {
        return ;
    }
    let mut i: usize = 1;
    while i < entries.len()
        invariant
            1 <= i <= entries@.len(),
            entries@.len() == old(entries)@.len(),
            entries@.to_multiset() == old(entries)@.to_multiset(),
            entries_sorted(entries@.take(i as int)),
        decreases entries@.len() - i,
    {
        let ghost v = entries@;
        let mut p: usize = 0;
        while p < i && entry_le_exec(&entries[p], &entries[i])
            invariant
                0 <= p <= i < entries@.len(),
                entries@ == v,
                forall|a: int| 0 <= a < p ==> entry_le(#[trigger] v[a], v[i as int]),
            decreases i - p,
        {
            p = p + 1;
        }
        let ghost e = v[i as int];
        proof {
            if p < i {
                lemma_entry_le_connected(v[p as int], e);
                assert(entry_le(e, v[p as int]));
            }
            assert(v[i as int] == e);
            assert(v.contains(e));
            assert(v.to_multiset().count(e) > 0);
        }
        let moved = entries.remove(i);
        entries.insert(p, moved);
        proof {
            let w = entries@;
            let u = v.remove(i as int);
            assert(w == u.insert(p as int, e));
            assert(u.to_multiset() == v.to_multiset().remove(e));
            assert(w.to_multiset() == u.to_multiset().insert(e));
            assert(w.to_multiset() =~= v.to_multiset());
            assert forall|a: int, b: int| 0 <= a < b < i + 1 implies entry_le(
                #[trigger] w[a],
                #[trigger] w[b],
            ) by {
                assert(forall|k: int| 0 <= k < p ==> #[trigger] w[k] == v[k]);
                assert(w[p as int] == e);
                assert(forall|k: int| p < k <= i ==> #[trigger] w[k] == v[k - 1]);
                let t = v.take(i as int);
                if b < p {
                    assert(entry_le(t[a], t[b]));
                } else if b == p {
                    assert(entry_le(v[a], e));
                } else if a < p {
                    assert(entry_le(t[a], t[b - 1]));
                } else if a == p {
                    if p < i {
                        if b - 1 == p {
                            assert(entry_le(e, v[p as int]));
                        } else {
                            assert(entry_le(t[p as int], t[b - 1]));
                            lemma_entry_le_transitive(e, v[p as int], v[b - 1]);
                        }
                    }
                } else {
                    assert(entry_le(t[a - 1], t[b - 1]));
                }
            }
            assert(entries_sorted(entries@.take(i + 1)));
        }
        i = i + 1;
    }
    proof {
        assert(entries@.take(entries@.len() as int) =~= entries@);
    }
}

/// Builds a listing response from the entries of a directory: sorted into
/// listing order, with `total` equal to the number of items.
pub fn make_listing(entries: Vec<FileEntry>) -> (r: FileListResponse)
    ensures
        r.total == r.items@.len(),
        entries_sorted(r.items@),
        r.items@.to_multiset() == entries@.to_multiset(),
{
    let mut items = entries;
    sort_entries(&mut items);
    let total = items.len();
    FileListResponse { items, total }
}

/// Assembles the metadata response for one resolved target: its base name,
/// its root-relative path, the measured filesystem facts, and the MIME type
/// its extension maps to.
pub fn make_file_info(
    resolved: &ResolvedPath,
    is_dir: bool,
    size: u64,
    modified: String,
    created: String,
) -> (r: FileInfoResponse)
    ensures
        r.name@ == spec_file_name(resolved.full@),
        r.path == resolved.rel,
        r.is_dir == is_dir,
        r.size == size,
        r.modified == modified,
        r.created == created,
        r.mime_type.deep_view() == spec_mime_type(resolved.full@),
{
    let name = file_name_of(resolved.full.as_str());
    let mime_type = get_mime_type(resolved.full.as_str());
    FileInfoResponse {
        name,
        path: resolved.rel.clone(),
        is_dir,
        size,
        modified,
        created,
        mime_type,
    }
}

/// What a listing target must satisfy once resolved: it must exist and be a
/// directory.
pub fn list_gate(exists: bool, is_dir: bool) -> (r: Result<(), AppError>)
    ensures
        r is Ok <==> exists && is_dir,
        (r matches Err(e) ==> {
            &&& !exists ==> (e matches AppError::NotFound(m) && m@ == "Path not found"@)
            &&& exists ==> (e matches AppError::InvalidPath(m) && m@ == "Not a directory"@)
        }),
{
    if !exists {
        Err(AppError::NotFound("Path not found".to_owned()))
    } else if !is_dir {
        Err(AppError::InvalidPath("Not a directory".to_owned()))
    } else {
        Ok(())
    }
}

} // verus!
