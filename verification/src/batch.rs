//! Batch operations: delete, move, or copy many items in one request, with
//! per-item outcomes. One item's failure never aborts the rest; only an
//! unsafe destination fails a whole batch. Every input path lands in exactly
//! one of the two result lists, in input order — nothing is silently dropped.
use vstd::prelude::*;
use vstd::multiset::Multiset;

use crate::errors::AppError;
use crate::path::accepts;
use crate::path::resolve;
use crate::path::ResolvedPath;
use crate::path::file_name_of;
use crate::path::join_under;
use crate::path::spec_file_name;
use crate::path::spec_join_under;

verus! {

broadcast use vstd::seq_lib::group_to_multiset_ensures;

/// What the filesystem said about one item whose path resolved: the target
/// was missing, the operation went through, or it failed with a reason.
pub enum ItemIo {
    Missing,
    Done,
    Failed(String),
}

/// The two ordered result lists of a batch: each input path appears in
/// exactly one, in input order.
pub struct BatchOutcome {
    pub succeeded: Vec<String>,
    pub failed: Vec<(String, String)>,
}

/// The failure reason recorded for one item, or none where it succeeded. An
/// unsafe path fails regardless of what the filesystem later said; for a safe
/// path the filesystem outcome decides.
pub open spec fn item_failure(root: Seq<char>, path: Seq<char>, io: ItemIo) -> Option<Seq<char>> {
    if !accepts(root, path) {
        Some("Access denied"@)
    } else {
        match io {
            ItemIo::Missing => Some("Not found"@),
            ItemIo::Done => None,
            ItemIo::Failed(m) => Some(m@),
        }
    }
}

/// The paths that succeeded, in input order.
pub open spec fn spec_succeeded(root: Seq<char>, paths: Seq<Seq<char>>, io: Seq<ItemIo>) -> Seq<
    Seq<char>,
>
    decreases paths.len(),
{
    if paths.len() == 0 {
        Seq::<Seq<char>>::empty()
    } else {
        let init = spec_succeeded(root, paths.drop_last(), io.drop_last());
        if item_failure(root, paths.last(), io.last()) is None {
            init.push(paths.last())
        } else {
            init
        }
    }
}

/// The paths that failed, each with its reason, in input order.
pub open spec fn spec_failed(root: Seq<char>, paths: Seq<Seq<char>>, io: Seq<ItemIo>) -> Seq<
    (Seq<char>, Seq<char>),
>
    decreases paths.len(),
{
    if paths.len() == 0 {
        Seq::<(Seq<char>, Seq<char>)>::empty()
    } else {
        let init = spec_failed(root, paths.drop_last(), io.drop_last());
        match item_failure(root, paths.last(), io.last()) {
            None => init,
            Some(m) => init.push((paths.last(), m)),
        }
    }
}

/// Folds per-item filesystem outcomes into the batch's result lists. `io[i]`
/// is consulted only where `paths[i]` resolved safely; unsafe paths are
/// recorded as denied whatever stands there.
pub fn batch_collect(root: &str, paths: &Vec<String>, io: &Vec<ItemIo>) -> (r: BatchOutcome)
    requires
        paths@.len() == io@.len(),
    ensures
        r.succeeded.deep_view() == spec_succeeded(root@, paths.deep_view(), io@),
        r.failed.deep_view() == spec_failed(root@, paths.deep_view(), io@),
{
    let mut succeeded: Vec<String> = Vec::new();
    let mut failed: Vec<(String, String)> = Vec::new();
    proof {
        assert(paths.deep_view().take(0) =~= Seq::<Seq<char>>::empty());
        assert(io@.take(0) =~= Seq::<ItemIo>::empty());
        assert(succeeded.deep_view() =~= spec_succeeded(
            root@,
            paths.deep_view().take(0),
            io@.take(0),
        ));
        assert(failed.deep_view() =~= spec_failed(root@, paths.deep_view().take(0), io@.take(0)));
    }
    let mut i: usize = 0;
    while i < paths.len()
        invariant
            0 <= i <= paths@.len(),
            paths@.len() == io@.len(),
            paths@.len() == paths.deep_view().len(),
            succeeded.deep_view() == spec_succeeded(
                root@,
                paths.deep_view().take(i as int),
                io@.take(i as int),
            ),
            failed.deep_view() == spec_failed(
                root@,
                paths.deep_view().take(i as int),
                io@.take(i as int),
            ),
        decreases paths@.len() - i,
    {
        let ghost done_s = succeeded.deep_view();
        let ghost done_f = failed.deep_view();
        proof {
            assert(paths.deep_view().take(i + 1).drop_last() =~= paths.deep_view().take(i as int));
            assert(io@.take(i + 1).drop_last() =~= io@.take(i as int));
            assert(paths.deep_view().take(i + 1).last() == paths.deep_view()[i as int]);
            assert(io@.take(i + 1).last() == io@[i as int]);
            assert(paths.deep_view()[i as int] == paths@[i as int]@);
        }
        let path = &paths[i];
        let safe = match resolve(root, path.as_str()) {
            Ok(_) => true,
            Err(_) => false,
        };
        if !safe {
            failed.push((path.clone(), "Access denied".to_owned()));
            proof {
                assert(failed.deep_view() =~= done_f.push((paths.deep_view()[i as int], "Access denied"@)));
            }
        } else {
            match &io[i] {
                ItemIo::Missing => {
                    failed.push((path.clone(), "Not found".to_owned()));
                    proof {
                        assert(failed.deep_view() =~= done_f.push((paths.deep_view()[i as int], "Not found"@)));
                    }
                },
                ItemIo::Done => {
                    succeeded.push(path.clone());
                    proof {
                        assert(succeeded.deep_view() =~= done_s.push(paths.deep_view()[i as int]));
                    }
                },
                ItemIo::Failed(m) => {
                    failed.push((path.clone(), m.clone()));
                    proof {
                        assert(failed.deep_view() =~= done_f.push((paths.deep_view()[i as int], m@)));
                    }
                },
            }
        }
        i = i + 1;
    }
    proof {
        assert(paths.deep_view().take(i as int) =~= paths.deep_view());
        assert(io@.take(i as int) =~= io@);
    }
    BatchOutcome { succeeded, failed }
}

/// The paths recorded in the failure list, without their reasons.
pub open spec fn failed_paths(fs: Seq<(Seq<char>, Seq<char>)>) -> Seq<Seq<char>> {
    fs.map_values(|p: (Seq<char>, Seq<char>)| p.0)
}

/// Law: total coverage. Every input path of a batch lands in exactly one of
/// the two result lists: together, the succeeded paths and the failed paths
/// are a permutation of the inputs, so nothing is dropped and nothing is
/// counted twice.
pub proof fn lemma_batch_coverage(root: Seq<char>, paths: Seq<Seq<char>>, io: Seq<ItemIo>)
    requires
        paths.len() == io.len(),
    ensures
        spec_succeeded(root, paths, io).len() + spec_failed(root, paths, io).len() == paths.len(),
        spec_succeeded(root, paths, io).to_multiset().add(
            failed_paths(spec_failed(root, paths, io)).to_multiset(),
        ) =~= paths.to_multiset(),
    decreases paths.len(),
{
    if paths.len() == 0 {
        assert(spec_succeeded(root, paths, io).to_multiset() =~= Multiset::<Seq<char>>::empty());
        assert(failed_paths(spec_failed(root, paths, io)) =~= Seq::<Seq<char>>::empty());
        assert(failed_paths(spec_failed(root, paths, io)).to_multiset() =~= Multiset::<
            Seq<char>,
        >::empty());
        assert(paths.to_multiset() =~= Multiset::<Seq<char>>::empty());
    } else {
        lemma_batch_coverage(root, paths.drop_last(), io.drop_last());
        let s0 = spec_succeeded(root, paths.drop_last(), io.drop_last());
        let f0 = spec_failed(root, paths.drop_last(), io.drop_last());
        let s1 = spec_succeeded(root, paths, io);
        let f1 = spec_failed(root, paths, io);
        assert(paths =~= paths.drop_last().push(paths.last()));
        assert(paths.to_multiset() =~= paths.drop_last().to_multiset().insert(paths.last()));
        match item_failure(root, paths.last(), io.last()) {
            None => {
                assert(s1 == s0.push(paths.last()));
                assert(s1.to_multiset() =~= s0.to_multiset().insert(paths.last()));
                assert(f1 == f0);
            },
            Some(m) => {
                assert(f1 == f0.push((paths.last(), m)));
                assert(failed_paths(f1) =~= failed_paths(f0).push(paths.last()));
                assert(failed_paths(f1).to_multiset() =~= failed_paths(f0).to_multiset().insert(
                    paths.last(),
                ));
                assert(s1 == s0);
            },
        }
    }
}

/// Where a moved or copied item lands: the destination directory joined with
/// the source's base name.
pub fn item_target(dest_full: &str, source_full: &str) -> (r: String)
    ensures
        r@ == spec_join_under(dest_full@, spec_file_name(source_full@)),
{
    let name = file_name_of(source_full);
    join_under(dest_full, name.as_str())
}

/// Resolves the destination directory of a move or copy batch. An unsafe
/// destination is the one batch-fatal error: nothing is attempted for any
/// item.
pub fn batch_destination(root: &str, destination: &str) -> (r: Result<ResolvedPath, AppError>)
    ensures
        r is Ok <==> accepts(root@, destination@),
        (r matches Err(e) ==> e matches AppError::PermissionDenied(m) && m@ == "Access denied"@),
{
    resolve(root, destination)
}

/// One pending copy step: replicate `src` at `dst`.
pub struct CopyTask {
    pub src: String,
    pub dst: String,
}

impl View for CopyTask {
    type V = (Seq<char>, Seq<char>);

    open spec fn view(&self) -> (Seq<char>, Seq<char>) {
        (self.src@, self.dst@)
    }
}

impl DeepView for CopyTask {
    type V = (Seq<char>, Seq<char>);

    open spec fn deep_view(&self) -> (Seq<char>, Seq<char>) {
        self@
    }
}

/// The copy steps scheduled for the children of one directory whose kind
/// matches `want_dir`: each child's name is appended to the source side and
/// to the destination side alike, in listing order.
pub open spec fn spec_copy_tasks(
    src: Seq<char>,
    dst: Seq<char>,
    names: Seq<Seq<char>>,
    flags: Seq<bool>,
    want_dir: bool,
) -> Seq<(Seq<char>, Seq<char>)>
    decreases names.len(),
{
    if names.len() == 0 {
        Seq::<(Seq<char>, Seq<char>)>::empty()
    } else {
        let init = spec_copy_tasks(src, dst, names.drop_last(), flags.drop_last(), want_dir);
        if flags.last() == want_dir {
            init.push(
                (spec_join_under(src, names.last()), spec_join_under(dst, names.last())),
            )
        } else {
            init
        }
    }
}

/// Expands one directory of a copy into its child steps: byte-copies for the
/// files and new pending tasks for the subdirectories. Each child keeps its
/// name on both sides, so the copy preserves relative structure.
pub fn copy_expand(src: &str, dst: &str, names: &Vec<String>, is_dir: &Vec<bool>) -> (r: (
    Vec<CopyTask>,
    Vec<CopyTask>,
))
    requires
        names@.len() == is_dir@.len(),
    ensures
        r.0.deep_view() == spec_copy_tasks(src@, dst@, names.deep_view(), is_dir@, false),
        r.1.deep_view() == spec_copy_tasks(src@, dst@, names.deep_view(), is_dir@, true),
{
    let mut files: Vec<CopyTask> = Vec::new();
    let mut dirs: Vec<CopyTask> = Vec::new();
    proof {
        assert(names.deep_view().take(0) =~= Seq::<Seq<char>>::empty());
        assert(is_dir@.take(0) =~= Seq::<bool>::empty());
        assert(files.deep_view() =~= spec_copy_tasks(
            src@,
            dst@,
            names.deep_view().take(0),
            is_dir@.take(0),
            false,
        ));
        assert(dirs.deep_view() =~= spec_copy_tasks(
            src@,
            dst@,
            names.deep_view().take(0),
            is_dir@.take(0),
            true,
        ));
    }
    let mut i: usize = 0;
    while i < names.len()
        invariant
            0 <= i <= names@.len(),
            names@.len() == is_dir@.len(),
            names@.len() == names.deep_view().len(),
            files.deep_view() == spec_copy_tasks(
                src@,
                dst@,
                names.deep_view().take(i as int),
                is_dir@.take(i as int),
                false,
            ),
            dirs.deep_view() == spec_copy_tasks(
                src@,
                dst@,
                names.deep_view().take(i as int),
                is_dir@.take(i as int),
                true,
            ),
        decreases names@.len() - i,
    {
        let ghost done_files = files.deep_view();
        let ghost done_dirs = dirs.deep_view();
        proof {
            assert(names.deep_view().take(i + 1).drop_last() =~= names.deep_view().take(i as int));
            assert(is_dir@.take(i + 1).drop_last() =~= is_dir@.take(i as int));
            assert(names.deep_view().take(i + 1).last() == names.deep_view()[i as int]);
            assert(is_dir@.take(i + 1).last() == is_dir@[i as int]);
            assert(names.deep_view()[i as int] == names@[i as int]@);
        }
        let name = &names[i];
        let task = CopyTask {
            src: join_under(src, name.as_str()),
            dst: join_under(dst, name.as_str()),
        };
        let ghost task_view = (
            spec_join_under(src@, names.deep_view()[i as int]),
            spec_join_under(dst@, names.deep_view()[i as int]),
        );
        if is_dir[i] {
            dirs.push(task);
            proof {
                assert(dirs.deep_view() =~= done_dirs.push(task_view));
            }
        } else {
            files.push(task);
            proof {
                assert(files.deep_view() =~= done_files.push(task_view));
            }
        }
        i = i + 1;
    }
    proof {
        assert(names.deep_view().take(i as int) =~= names.deep_view());
        assert(is_dir@.take(i as int) =~= is_dir@);
    }
    (files, dirs)
}

/// Law: a copy expansion preserves relative structure. Every scheduled step
/// appends one and the same listed name to the source side and to the
/// destination side; so, by induction over the pending tasks, every file of
/// the source tree reappears under the destination at the same relative path.
pub proof fn lemma_copy_tasks_shape(
    src: Seq<char>,
    dst: Seq<char>,
    names: Seq<Seq<char>>,
    flags: Seq<bool>,
    want_dir: bool,
)
    requires
        names.len() == flags.len(),
    ensures
        forall|k: int|
            0 <= k < spec_copy_tasks(src, dst, names, flags, want_dir).len() ==> exists|j: int|
                0 <= j < names.len() && flags[j] == want_dir
                    && #[trigger] spec_copy_tasks(src, dst, names, flags, want_dir)[k] == (
                spec_join_under(src, names[j]),
                spec_join_under(dst, names[j]),
                ),
    decreases names.len(),
{
    if names.len() > 0 {
        lemma_copy_tasks_shape(src, dst, names.drop_last(), flags.drop_last(), want_dir);
        let tasks = spec_copy_tasks(src, dst, names, flags, want_dir);
        let init = spec_copy_tasks(src, dst, names.drop_last(), flags.drop_last(), want_dir);
        assert forall|k: int| 0 <= k < tasks.len() implies exists|j: int|
            0 <= j < names.len() && flags[j] == want_dir && #[trigger] tasks[k] == (
            spec_join_under(src, names[j]),
            spec_join_under(dst, names[j]),
            ) by {
            if k < init.len() {
                assert(tasks[k] == init[k]);
                let nd = names.drop_last();
                let fd = flags.drop_last();
                assert(exists|j: int|
                    0 <= j < nd.len() && fd[j] == want_dir && #[trigger] spec_copy_tasks(
                        src,
                        dst,
                        nd,
                        fd,
                        want_dir,
                    )[k] == (spec_join_under(src, nd[j]), spec_join_under(dst, nd[j])));
                let j0 = choose|j: int|
                    0 <= j < nd.len() && fd[j] == want_dir && #[trigger] spec_copy_tasks(
                        src,
                        dst,
                        nd,
                        fd,
                        want_dir,
                    )[k] == (spec_join_under(src, nd[j]), spec_join_under(dst, nd[j]));
                assert(nd[j0] == names[j0]);
                assert(fd[j0] == flags[j0]);
            } else {
                assert(flags.last() == want_dir);
                assert(tasks[k] == (
                    spec_join_under(src, names.last()),
                    spec_join_under(dst, names.last()),
                ));
                assert(names.last() == names[names.len() - 1]);
            }
        }
    }
}

/// Law: joining distributes over a shared relative suffix. Where a task's two
/// sides are the copy's roots extended by one and the same relative suffix,
/// appending a child name extends both sides by the same longer suffix.
pub proof fn lemma_copy_preserves_structure(
    s0: Seq<char>,
    d0: Seq<char>,
    rel: Seq<char>,
    name: Seq<char>,
)
    ensures
        spec_join_under(s0 + rel, name) == s0 + (rel + seq!['/'] + name),
        spec_join_under(d0 + rel, name) == d0 + (rel + seq!['/'] + name),
{
    assert(spec_join_under(s0 + rel, name) =~= s0 + (rel + seq!['/'] + name));
    assert(spec_join_under(d0 + rel, name) =~= d0 + (rel + seq!['/'] + name));
}

} // verus!
