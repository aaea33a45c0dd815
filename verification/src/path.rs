//! Lexical path resolution confined to a configured root.
//!
//! A path is modelled as its sequence of components: the pieces between `/`
//! separators, with empty pieces and current-directory pieces dropped. An
//! absolute path carries a leading root marker (the empty component), which a
//! parent-directory component can never pop, mirroring how a filesystem treats
//! `..` at the top of the tree. A client path is accepted exactly when the
//! normalized join of root and path still has the normalized root's components
//! as a prefix.
use vstd::prelude::*;

use crate::errors::AppError;
use crate::text::str_eq;

verus! {

/// The component that marks the start of an absolute path.
pub open spec fn root_marker() -> Seq<char> {
    Seq::<char>::empty()
}

/// The parent-directory component.
pub open spec fn parent_component() -> Seq<char> {
    seq!['.', '.']
}

/// The current-directory component.
pub open spec fn cur_component() -> Seq<char> {
    seq!['.']
}

/// Whether a piece of a split path is kept as a component: empty pieces
/// (repeated or trailing separators) and current-directory pieces vanish.
pub open spec fn keep_piece(p: Seq<char>) -> bool {
    p.len() > 0 && p != cur_component()
}

/// Drops every leading `/`.
pub open spec fn trim_leading(s: Seq<char>) -> Seq<char>
    decreases s.len(),
{
    if s.len() > 0 && s[0] == '/' {
        trim_leading(s.drop_first())
    } else {
        s
    }
}

/// Drops every trailing `/`.
pub open spec fn trim_trailing(s: Seq<char>) -> Seq<char>
    decreases s.len(),
{
    if s.len() > 0 && s.last() == '/' {
        trim_trailing(s.drop_last())
    } else {
        s
    }
}

/// A client-supplied path with its leading and trailing separators stripped.
pub open spec fn spec_sanitize(s: Seq<char>) -> Seq<char> {
    trim_trailing(trim_leading(s))
}

/// Splits the rest of a path into components, `cur` being the piece read so
/// far: pieces end at `/`, and only pieces that `keep_piece` admits remain.
pub open spec fn split_valid(s: Seq<char>, cur: Seq<char>) -> Seq<Seq<char>>
    decreases s.len(),
{
    if s.len() == 0 {
        if keep_piece(cur) {
            seq![cur]
        } else {
            Seq::<Seq<char>>::empty()
        }
    } else if s[0] == '/' {
        (if keep_piece(cur) {
            seq![cur]
        } else {
            Seq::<Seq<char>>::empty()
        }) + split_valid(s.drop_first(), Seq::<char>::empty())
    } else {
        split_valid(s.drop_first(), cur.push(s[0]))
    }
}

/// The component sequence of a path string. An absolute path contributes a
/// leading root marker.
pub open spec fn components_of(s: Seq<char>) -> Seq<Seq<char>> {
    if s.len() > 0 && s[0] == '/' {
        seq![root_marker()] + split_valid(s, Seq::<char>::empty())
    } else {
        split_valid(s, Seq::<char>::empty())
    }
}

/// Lexical normalization: a parent-directory component pops the previous
/// component where one exists, but never the root marker; every other
/// component is kept in order.
pub open spec fn normalize(cs: Seq<Seq<char>>) -> Seq<Seq<char>>
    decreases cs.len(),
{
    if cs.len() == 0 {
        Seq::<Seq<char>>::empty()
    } else {
        let prefix = normalize(cs.drop_last());
        if cs.last() == parent_component() {
            if prefix.len() > 0 && prefix.last() != root_marker() {
                prefix.drop_last()
            } else {
                prefix
            }
        } else {
            prefix.push(cs.last())
        }
    }
}

/// The normalized component sequence of a path string.
pub open spec fn norm_of(s: Seq<char>) -> Seq<Seq<char>> {
    normalize(components_of(s))
}

/// The join of the root and a sanitized client path, as the string handed to
/// the filesystem.
pub open spec fn joined(root: Seq<char>, user: Seq<char>) -> Seq<char> {
    if spec_sanitize(user).len() == 0 {
        root
    } else {
        root + seq!['/'] + spec_sanitize(user)
    }
}

/// Whether the client path is accepted: the normalized join must still lie at
/// or below the normalized root.
pub open spec fn accepts(root: Seq<char>, user: Seq<char>) -> bool {
    norm_of(root).is_prefix_of(norm_of(joined(root, user)))
}

proof fn lemma_trim_leading_is_skip(s: Seq<char>, k: int)
    requires
        0 <= k <= s.len(),
        forall|j: int| 0 <= j < k ==> s[j] == '/',
        k == s.len() || s[k] != '/',
    ensures
        trim_leading(s) =~= s.skip(k),
    decreases k,
{
    if k == 0 {
        assert(s.skip(0) =~= s);
    } else {
        lemma_trim_leading_is_skip(s.drop_first(), k - 1);
        assert(s.drop_first().skip(k - 1) =~= s.skip(k));
    }
}

proof fn lemma_trim_trailing_is_take(s: Seq<char>, k: int)
    requires
        0 <= k <= s.len(),
        forall|j: int| k <= j < s.len() ==> s[j] == '/',
        k == 0 || s[k - 1] != '/',
    ensures
        trim_trailing(s) =~= s.take(k),
    decreases s.len(),
{
    if s.len() == k {
        assert(s.take(k) =~= s);
    } else {
        assert(s.last() == '/');
        lemma_trim_trailing_is_take(s.drop_last(), k);
        assert(s.drop_last().take(k) =~= s.take(k));
    }
}

/// Strips leading and trailing `/` separators from a client-supplied path.
/// An empty result stands for the root itself. An absolute-looking input is
/// thereby treated as root-relative.
pub fn sanitize_path(path: &str) -> (r: String)
    ensures
        r@ == spec_sanitize(path@),
{
    let n = path.unicode_len();
    let mut start: usize = 0;
    while start < n && path.get_char(start) == '/'
        invariant
            n == path@.len(),
            0 <= start <= n,
            forall|j: int| 0 <= j < start ==> path@[j] == '/',
        decreases n - start,
    {
        start = start + 1;
    }
    let mut end: usize = n;
    while end > start && path.get_char(end - 1) == '/'
        invariant
            n == path@.len(),
            start <= end <= n,
            forall|j: int| end <= j < n ==> path@[j] == '/',
        decreases end,
    {
        end = end - 1;
    }
    proof {
        lemma_trim_leading_is_skip(path@, start as int);
        let t = path@.skip(start as int);
        lemma_trim_trailing_is_take(t, end - start);
        assert(t.take(end - start) =~= path@.subrange(start as int, end as int));
    }
    path.substring_char(start, end).to_owned()
}

/// Splits a path string into its component sequence.
#[verifier::rlimit(50)]
pub fn split_components(s: &str) -> (r: Vec<String>)
    ensures
        r.deep_view() == components_of(s@),
{
    let n = s.unicode_len();
    let mut r: Vec<String> = Vec::new();
    if n > 0 && s.get_char(0) == '/' {
        r.push(String::new());
    }
    proof {
        assert(s@.skip(0) =~= s@);
        assert(s@.subrange(0, 0) =~= Seq::<char>::empty());
        if s@.len() > 0 && s@[0] == '/' {
            assert(r.deep_view() =~= seq![root_marker()]);
        } else {
            assert(r.deep_view() =~= Seq::<Seq<char>>::empty());
        }
    }
    let mut i: usize = 0;
    let mut piece_start: usize = 0;
    while i < n
        invariant
            n == s@.len(),
            0 <= piece_start <= i <= n,
            components_of(s@) == r.deep_view() + split_valid(
                s@.skip(i as int),
                s@.subrange(piece_start as int, i as int),
            ),
        decreases n - i,
    {
        let ghost cur = s@.subrange(piece_start as int, i as int);
        let c = s.get_char(i);
        proof {
            assert(s@.skip(i as int)[0] == s@[i as int]);
            assert(s@.skip(i as int).drop_first() =~= s@.skip(i + 1));
        }
        if c == '/' {
            let keep = i - piece_start > 1 || (i - piece_start == 1 && s.get_char(piece_start)
                != '.');
            proof {
                if i - piece_start == 1 && s@[piece_start as int] == '.' {
                    assert(cur =~= cur_component());
                }
                if cur == cur_component() {
                    assert(cur.len() == 1 && cur[0] == '.');
                }
                assert(keep == keep_piece(cur));
            }
            if keep {
                let piece = s.substring_char(piece_start, i).to_owned();
                r.push(piece);
                proof {
                    assert(r.deep_view() =~= r.deep_view().drop_last() + seq![cur]);
                    assert((r.deep_view().drop_last() + seq![cur]) + split_valid(
                        s@.skip(i + 1),
                        Seq::<char>::empty(),
                    ) =~= r.deep_view().drop_last() + (seq![cur] + split_valid(
                        s@.skip(i + 1),
                        Seq::<char>::empty(),
                    )));
                }
            } else {
                proof {
                    assert(Seq::<Seq<char>>::empty() + split_valid(
                        s@.skip(i + 1),
                        Seq::<char>::empty(),
                    ) =~= split_valid(s@.skip(i + 1), Seq::<char>::empty()));
                }
            }
            piece_start = i + 1;
            proof {
                assert(s@.subrange(piece_start as int, i + 1) =~= Seq::<char>::empty());
            }
        } else {
            proof {
                assert(cur.push(s@[i as int]) =~= s@.subrange(piece_start as int, i + 1));
            }
        }
        i = i + 1;
    }
    let ghost cur = s@.subrange(piece_start as int, i as int);
    proof {
        assert(s@.skip(i as int) =~= Seq::<char>::empty());
    }
    let keep = n - piece_start > 1 || (n - piece_start == 1 && s.get_char(piece_start) != '.');
    proof {
        if n - piece_start == 1 && s@[piece_start as int] == '.' {
            assert(cur =~= cur_component());
        }
        if cur == cur_component() {
            assert(cur.len() == 1 && cur[0] == '.');
        }
        assert(keep == keep_piece(cur));
    }
    if keep {
        let piece = s.substring_char(piece_start, n).to_owned();
        r.push(piece);
        proof {
            assert(r.deep_view() =~= r.deep_view().drop_last() + seq![cur]);
        }
    } else {
        proof {
            assert(r.deep_view() + Seq::<Seq<char>>::empty() =~= r.deep_view());
        }
    }
    r
}

/// Applies lexical normalization to a component sequence.
pub fn normalize_components(cs: &Vec<String>) -> (r: Vec<String>)
    ensures
        r.deep_view() == normalize(cs.deep_view()),
{
    let mut r: Vec<String> = Vec::new();
    proof {
        assert(cs.deep_view().take(0) =~= Seq::<Seq<char>>::empty());
    }
    let mut i: usize = 0;
    while i < cs.len()
        invariant
            r.deep_view() == normalize(cs.deep_view().take(i as int)),
            0 <= i <= cs.len(),
        decreases cs.len() - i,
    {
        let ghost prefix = r.deep_view();
        proof {
            assert(cs.deep_view().take(i + 1).drop_last() =~= cs.deep_view().take(i as int));
            assert(cs.deep_view().take(i + 1).last() == cs.deep_view()[i as int]);
            reveal_strlit("..");
            assert(("..")@ =~= parent_component());
        }
        let c = &cs[i];
        if str_eq(c.as_str(), "..") {
            if r.len() > 0 && !r[r.len() - 1].as_str().is_empty() {
                proof {
                    assert(prefix.last() == r@[r.len() - 1]@);
                    assert(prefix.last() != root_marker());
                }
                let _ = r.pop();
                proof {
                    assert(r.deep_view() =~= prefix.drop_last());
                }
            } else {
                proof {
                    if r.len() > 0 {
                        assert(prefix.last() == r@[r.len() - 1]@);
                        assert(prefix.last() == root_marker());
                    }
                }
            }
        } else {
            r.push(c.clone());
            proof {
                assert(r.deep_view() =~= prefix.push(cs.deep_view()[i as int]));
            }
        }
        i = i + 1;
    }
    proof {
        assert(cs.deep_view().take(i as int) =~= cs.deep_view());
    }
    r
}

/// The normalized component sequence of a path string.
pub fn normalize_path(path: &str) -> (r: Vec<String>)
    ensures
        r.deep_view() == norm_of(path@),
{
    let comps = split_components(path);
    normalize_components(&comps)
}

/// Decides whether one component sequence is a prefix of another.
fn is_component_prefix(pre: &Vec<String>, full: &Vec<String>) -> (r: bool)
    ensures
        r == pre.deep_view().is_prefix_of(full.deep_view()),
{
    if pre.len() > full.len() {
        return false;
    }
    let mut i: usize = 0;
    while i < pre.len()
        invariant
            0 <= i <= pre.len() <= full.len(),
            pre.len() == pre.deep_view().len(),
            full.len() == full.deep_view().len(),
            forall|j: int| 0 <= j < i ==> pre.deep_view()[j] == full.deep_view()[j],
        decreases pre.len() - i,
    {
        if !str_eq(pre[i].as_str(), full[i].as_str()) {
            proof {
                assert(pre.deep_view()[i as int] != full.deep_view()[i as int]);
                assert(!pre.deep_view().is_prefix_of(full.deep_view())) by {
                    if pre.deep_view().is_prefix_of(full.deep_view()) {
                        assert(pre.deep_view()[i as int] == full.deep_view().subrange(
                            0,
                            pre.deep_view().len() as int,
                        )[i as int]);
                    }
                }
            }
            return false;
        }
        i = i + 1;
    }
    proof {
        assert(pre.deep_view() =~= full.deep_view().subrange(0, pre.deep_view().len() as int));
    }
    true
}

/// Whether a candidate path lies at or below a base path, comparing the two
/// normalized component sequences; neither path needs to exist.
pub fn is_safe_path(base: &str, target: &str) -> (r: bool)
    ensures
        r == norm_of(base@).is_prefix_of(norm_of(target@)),
{
    let base_normalized = normalize_path(base);
    let target_normalized = normalize_path(target);
    is_component_prefix(&base_normalized, &target_normalized)
}

/// An absolute path proven to be the root or one of its descendants,
/// independent of whether the target exists.
pub struct ResolvedPath {
    /// The string handed to the filesystem: the root joined with the
    /// sanitized client path.
    pub full: String,
    /// The sanitized client path, relative to the root.
    pub rel: String,
    /// The normalized component sequence of `full`.
    pub components: Vec<String>,
}

/// Turns a client-supplied path into a path confined to the root, or rejects
/// it. Acceptance is purely lexical: the normalized join of root and client
/// path must still have the normalized root's components as a prefix, so no
/// `..` game can escape, whether or not the target exists.
pub fn resolve(root: &str, user_path: &str) -> (r: Result<ResolvedPath, AppError>)
    ensures
        r is Ok <==> accepts(root@, user_path@),
        (r matches Ok(p) ==> {
            &&& p.full@ == joined(root@, user_path@)
            &&& p.rel@ == spec_sanitize(user_path@)
            &&& p.components.deep_view() == norm_of(joined(root@, user_path@))
        }),
        (r matches Err(e) ==> e matches AppError::PermissionDenied(m) && m@ == "Access denied"@),
{
    let rel = sanitize_path(user_path);
    let full: String = if rel.as_str().is_empty() {
        root.to_owned()
    } else {
        let mut f = root.to_owned();
        f.append("/");
        f.append(rel.as_str());
        proof {
            reveal_strlit("/");
            assert(("/")@ =~= seq!['/']);
            assert(f@ =~= joined(root@, user_path@));
        }
        f
    };
    let base_norm = normalize_path(root);
    let cand_norm = normalize_path(full.as_str());
    if is_component_prefix(&base_norm, &cand_norm) {
        Ok(ResolvedPath { full, rel, components: cand_norm })
    } else {
        Err(AppError::PermissionDenied("Access denied".to_owned()))
    }
}

/// Law: the resolver confines. A client path is accepted exactly when the
/// normalized join of root and path extends the normalized root, so every
/// accepted path's component sequence has the root's as a prefix (or is the
/// root itself), and every lexically escaping path is rejected.
pub proof fn lemma_resolver_confinement(root: Seq<char>, user: Seq<char>)
    ensures
        accepts(root, user) ==> norm_of(root).is_prefix_of(norm_of(joined(root, user))),
        !norm_of(root).is_prefix_of(norm_of(joined(root, user))) ==> !accepts(root, user),
{
}

proof fn lemma_split_valid_kept(s: Seq<char>, cur: Seq<char>)
    ensures
        forall|i: int|
            0 <= i < split_valid(s, cur).len() ==> keep_piece(#[trigger] split_valid(s, cur)[i]),
    decreases s.len(),
{
    if s.len() == 0 {
        if keep_piece(cur) {
            assert(split_valid(s, cur) == seq![cur]);
            assert(split_valid(s, cur)[0] == cur);
        }
    } else if s[0] == '/' {
        lemma_split_valid_kept(s.drop_first(), Seq::<char>::empty());
        let head = if keep_piece(cur) {
            seq![cur]
        } else {
            Seq::<Seq<char>>::empty()
        };
        let rest = split_valid(s.drop_first(), Seq::<char>::empty());
        assert forall|i: int| 0 <= i < split_valid(s, cur).len() implies keep_piece(
            #[trigger] split_valid(s, cur)[i],
        ) by {
            assert(split_valid(s, cur) == head + rest);
            if i < head.len() {
                assert(split_valid(s, cur)[i] == cur);
            } else {
                assert(split_valid(s, cur)[i] == rest[i - head.len()]);
            }
        }
    } else {
        lemma_split_valid_kept(s.drop_first(), cur.push(s[0]));
        assert(split_valid(s, cur) == split_valid(s.drop_first(), cur.push(s[0])));
    }
}

proof fn lemma_normalize_clean(cs: Seq<Seq<char>>)
    requires
        forall|i: int| 0 <= i < cs.len() ==> cs[i] != cur_component(),
    ensures
        forall|i: int|
            0 <= i < normalize(cs).len() ==> #[trigger] normalize(cs)[i] != parent_component()
                && normalize(cs)[i] != cur_component(),
    decreases cs.len(),
{
    if cs.len() > 0 {
        assert(forall|i: int|
            0 <= i < cs.drop_last().len() ==> #[trigger] cs.drop_last()[i] != cur_component());
        lemma_normalize_clean(cs.drop_last());
        let prefix = normalize(cs.drop_last());
        if cs.last() == parent_component() {
            if prefix.len() > 0 && prefix.last() != root_marker() {
                assert(forall|i: int|
                    0 <= i < prefix.drop_last().len() ==> #[trigger] prefix.drop_last()[i]
                        == prefix[i]);
            }
        } else {
            assert(cs.last() != cur_component());
            assert(forall|i: int|
                0 <= i < prefix.len() ==> #[trigger] prefix.push(cs.last())[i] == prefix[i]);
            assert(prefix.push(cs.last()).last() == cs.last());
        }
    }
}

/// Law: normalization is complete. The normalized component sequence of any
/// path string holds no parent-directory and no current-directory component,
/// so a resolved path cannot climb anywhere by a later lexical step.
pub proof fn lemma_norm_of_clean(s: Seq<char>)
    ensures
        forall|i: int|
            0 <= i < norm_of(s).len() ==> #[trigger] norm_of(s)[i] != parent_component()
                && norm_of(s)[i] != cur_component(),
{
    lemma_split_valid_kept(s, Seq::<char>::empty());
    let pieces = split_valid(s, Seq::<char>::empty());
    assert forall|i: int| 0 <= i < components_of(s).len() implies #[trigger] components_of(s)[i]
        != cur_component() by {
        if s.len() > 0 && s[0] == '/' {
            assert(components_of(s) == seq![root_marker()] + pieces);
            if i == 0 {
                assert(components_of(s)[i] == root_marker());
                assert(root_marker().len() != cur_component().len());
            } else {
                assert(components_of(s)[i] == pieces[i - 1]);
            }
        } else {
            assert(components_of(s)[i] == pieces[i]);
        }
    }
    lemma_normalize_clean(components_of(s));
}

proof fn lemma_split_valid_append(a: Seq<char>, b: Seq<char>, cur: Seq<char>)
    ensures
        split_valid(a + seq!['/'] + b, cur) == split_valid(a, cur) + split_valid(
            b,
            Seq::<char>::empty(),
        ),
    decreases a.len(),
{
    let whole = a + seq!['/'] + b;
    if a.len() == 0 {
        assert(whole =~= seq!['/'] + b);
        assert(whole[0] == '/');
        assert(whole.drop_first() =~= b);
        assert(split_valid(whole, cur) == (if keep_piece(cur) {
            seq![cur]
        } else {
            Seq::<Seq<char>>::empty()
        }) + split_valid(b, Seq::<char>::empty()));
        assert(split_valid(a, cur) == (if keep_piece(cur) {
            seq![cur]
        } else {
            Seq::<Seq<char>>::empty()
        }));
    } else {
        assert(whole[0] == a[0]);
        assert(whole.drop_first() =~= a.drop_first() + seq!['/'] + b);
        if a[0] == '/' {
            lemma_split_valid_append(a.drop_first(), b, Seq::<char>::empty());
            assert((if keep_piece(cur) {
                seq![cur]
            } else {
                Seq::<Seq<char>>::empty()
            }) + (split_valid(a.drop_first(), Seq::<char>::empty()) + split_valid(
                b,
                Seq::<char>::empty(),
            )) =~= ((if keep_piece(cur) {
                seq![cur]
            } else {
                Seq::<Seq<char>>::empty()
            }) + split_valid(a.drop_first(), Seq::<char>::empty())) + split_valid(
                b,
                Seq::<char>::empty(),
            ));
        } else {
            lemma_split_valid_append(a.drop_first(), b, cur.push(a[0]));
        }
    }
}

proof fn lemma_normalize_append_clean(cs1: Seq<Seq<char>>, cs2: Seq<Seq<char>>)
    requires
        forall|i: int| 0 <= i < cs2.len() ==> cs2[i] != parent_component(),
    ensures
        normalize(cs1 + cs2) == normalize(cs1) + cs2,
    decreases cs2.len(),
{
    if cs2.len() == 0 {
        assert(cs1 + cs2 =~= cs1);
        assert(normalize(cs1) + cs2 =~= normalize(cs1));
    } else {
        assert(forall|i: int|
            0 <= i < cs2.drop_last().len() ==> #[trigger] cs2.drop_last()[i] == cs2[i]);
        lemma_normalize_append_clean(cs1, cs2.drop_last());
        let whole = cs1 + cs2;
        assert(whole.drop_last() =~= cs1 + cs2.drop_last());
        assert(whole.last() == cs2.last());
        assert(cs2.last() != parent_component());
        assert(normalize(whole) == normalize(cs1 + cs2.drop_last()).push(cs2.last()));
        assert((normalize(cs1) + cs2.drop_last()).push(cs2.last()) =~= normalize(cs1) + cs2);
    }
}

/// Law: success is owed to every traversal-free path. A client path whose
/// sanitized component sequence holds no parent-directory component is always
/// accepted, whatever the root: only `..` can make the resolver refuse.
pub proof fn lemma_plain_paths_accepted(root: Seq<char>, user: Seq<char>)
    requires
        forall|i: int|
            0 <= i < components_of(spec_sanitize(user)).len() ==> #[trigger] components_of(
                spec_sanitize(user),
            )[i] != parent_component(),
    ensures
        accepts(root, user),
{
    let s = spec_sanitize(user);
    if s.len() == 0 {
        assert(joined(root, user) == root);
        assert(norm_of(root).is_prefix_of(norm_of(root))) by {
            assert(norm_of(root) =~= norm_of(root).subrange(0, norm_of(root).len() as int));
        }
    } else {
        let j = joined(root, user);
        assert(j == root + seq!['/'] + s);
        lemma_split_valid_append(root, s, Seq::<char>::empty());
        // The sanitized path does not start with a separator, so it carries no
        // root marker of its own and its components are exactly its pieces.
        assert(s[0] != '/') by {
            lemma_trim_leading_no_leading_sep(user);
        }
        assert(components_of(s) == split_valid(s, Seq::<char>::empty()));
        let cs2 = components_of(s);
        assert(j.len() > 0);
        if root.len() > 0 {
            assert(j[0] == root[0]);
            if root[0] == '/' {
                assert(components_of(j) =~= (seq![root_marker()] + split_valid(
                    root,
                    Seq::<char>::empty(),
                )) + cs2);
                assert(components_of(j) =~= components_of(root) + cs2);
            } else {
                assert(components_of(j) =~= components_of(root) + cs2);
            }
            lemma_normalize_append_clean(components_of(root), cs2);
            assert(norm_of(j) == norm_of(root) + cs2);
            assert(norm_of(root) =~= (norm_of(root) + cs2).subrange(
                0,
                norm_of(root).len() as int,
            ));
        } else {
            // An empty root has no components: its normalization is empty and
            // is a prefix of anything.
            assert(components_of(root) == split_valid(root, Seq::<char>::empty()));
            assert(split_valid(root, Seq::<char>::empty()) =~= Seq::<Seq<char>>::empty());
            assert(normalize(components_of(root)) =~= Seq::<Seq<char>>::empty());
            assert(norm_of(root) =~= norm_of(j).subrange(0, 0));
        }
    }
}

proof fn lemma_trim_leading_no_leading_sep(user: Seq<char>)
    ensures
        spec_sanitize(user).len() > 0 ==> spec_sanitize(user)[0] != '/',
{
    lemma_trim_leading_head(user);
    lemma_trim_trailing_keeps_head(trim_leading(user));
}

proof fn lemma_trim_leading_head(s: Seq<char>)
    ensures
        trim_leading(s).len() > 0 ==> trim_leading(s)[0] != '/',
    decreases s.len(),
{
    if s.len() > 0 && s[0] == '/' {
        lemma_trim_leading_head(s.drop_first());
    }
}

proof fn lemma_trim_trailing_keeps_head(s: Seq<char>)
    ensures
        trim_trailing(s).len() > 0 ==> trim_trailing(s)[0] == s[0],
    decreases s.len(),
{
    if s.len() > 0 && s.last() == '/' {
        lemma_trim_trailing_keeps_head(s.drop_last());
        if trim_trailing(s).len() > 0 {
            assert(s.drop_last()[0] == s[0]);
        }
    }
}

/// The final component of a path, or `unknown` where the path has none (the
/// root itself, an empty path, or a path ending in a parent component).
pub open spec fn spec_file_name(s: Seq<char>) -> Seq<char> {
    let cs = components_of(s);
    if cs.len() > 0 && cs.last() != parent_component() && cs.last() != root_marker() {
        cs.last()
    } else {
        "unknown"@
    }
}

/// Extracts the base name of a path.
pub fn file_name_of(path: &str) -> (r: String)
    ensures
        r@ == spec_file_name(path@),
{
    let cs = split_components(path);
    proof {
        reveal_strlit("..");
        assert(("..")@ =~= parent_component());
    }
    if cs.len() > 0 {
        let last = &cs[cs.len() - 1];
        proof {
            assert(cs.deep_view().last() == last@);
        }
        if !last.as_str().is_empty() && !str_eq(last.as_str(), "..") {
            proof {
                assert(last@ != root_marker());
                assert(last@ != parent_component());
            }
            return last.clone();
        }
        proof {
            if last@.len() == 0 {
                assert(last@ =~= root_marker());
            }
        }
    }
    "unknown".to_owned()
}

/// A directory path joined with the base name of one of its entries.
pub open spec fn spec_join_under(dir: Seq<char>, name: Seq<char>) -> Seq<char> {
    dir + seq!['/'] + name
}

/// Joins a directory path with an entry name.
pub fn join_under(dir: &str, name: &str) -> (r: String)
    ensures
        r@ == spec_join_under(dir@, name@),
{
    let mut f = dir.to_owned();
    f.append("/");
    f.append(name);
    proof {
        reveal_strlit("/");
        assert(("/")@ =~= seq!['/']);
        assert(f@ =~= spec_join_under(dir@, name@));
    }
    f
}

/// How a filesystem path type joins a further piece: an absolute piece
/// replaces the whole path, anything else is appended after a separator.
pub open spec fn spec_pathbuf_join(base: Seq<char>, piece: Seq<char>) -> Seq<char> {
    if piece.len() > 0 && piece[0] == '/' {
        piece
    } else {
        base + seq!['/'] + piece
    }
}

/// Joins a path with a client-supplied piece the way the filesystem's own
/// path type would, absolute replacement included.
pub fn pathbuf_join(base: &str, piece: &str) -> (r: String)
    ensures
        r@ == spec_pathbuf_join(base@, piece@),
{
    if !piece.is_empty() && piece.get_char(0) == '/' {
        piece.to_owned()
    } else {
        join_under(base, piece)
    }
}

/// The root-relative path of a directory entry: the listed directory's
/// relative path joined with the entry's name, forward-slash separated; for
/// an entry of the root itself, the name alone.
pub open spec fn spec_child_rel(parent_rel: Seq<char>, name: Seq<char>) -> Seq<char> {
    if parent_rel.len() == 0 {
        name
    } else {
        parent_rel + seq!['/'] + name
    }
}

/// Builds the root-relative path of a directory entry.
pub fn child_rel_path(parent_rel: &str, name: &str) -> (r: String)
    ensures
        r@ == spec_child_rel(parent_rel@, name@),
{
    if parent_rel.is_empty() {
        name.to_owned()
    } else {
        join_under(parent_rel, name)
    }
}

} // verus!
