//! The commit that a checkpoint was made on, and what `git` tells about it.

use vstd::prelude::*;
use vstd::slice::slice_subrange;
use crate::checkpoint::manifest;
use crate::checkpoint::manifest::{
    BaselineModel, CheckpointManifest, GitBaseline, ManifestModel,
};
use crate::checkpoint::paths;
use crate::checkpoint::paths::{relative_to, strip_prefix};
use crate::checkpoint::recording;
use crate::error;
use crate::error::{ErrorModel, StorageError};
use crate::git::arguments;
use crate::rows::Copied;
use crate::text;

verus! {

/// A run of `git`: whether it succeeded, and what it printed.
pub struct GitRun {
    pub success: bool,
    pub stdout: Vec<u8>,
    pub stderr: Vec<u8>,
}

/// The mathematical form of a run.
pub struct RunModel {
    pub success: bool,
    pub stdout: Seq<u8>,
    pub stderr: Seq<u8>,
}

impl DeepView for GitRun {
    type V = RunModel;

    open spec fn deep_view(&self) -> RunModel {
        RunModel { success: self.success, stdout: self.stdout@, stderr: self.stderr@ }
    }
}

/// The arguments that stand before those of every run: paths are printed as
/// they are, and repositories of other users are read too.
pub open spec fn common_arguments() -> Seq<Seq<char>> {
    seq!["-c"@, "core.quotepath=false"@, "-c"@, "safe.directory=*"@]
}

/// The arguments that stand before those of every run.
pub fn run_git() -> (out: Vec<String>)
    ensures
        out.deep_view() == common_arguments(),
{
    let out = arguments(&["-c", "core.quotepath=false", "-c", "safe.directory=*"]);
    proof {
        assert(out.deep_view() =~= common_arguments());
    }
    out
}

/// The text that a run printed, where it succeeded.
pub open spec fn printed_text(run: RunModel) -> Option<Seq<char>> {
    if run.success {
        Some(text::trimmed(text::lossy_text(run.stdout)))
    } else {
        None
    }
}

/// The text that a run printed, where it succeeded.
pub fn git_text(run: &GitRun) -> (r: Option<String>)
    ensures
        r.deep_view() == printed_text(run.deep_view()),
{
    if !run.success {
        return None;
    }
    Some(trimmed_lossy(run.stdout.as_slice()))
}

/// The text of bytes without the white space around it.
fn trimmed_lossy(bytes: &[u8]) -> (out: String)
    ensures
        out@ == text::trimmed(text::lossy_text(bytes@)),
{
    let whole = text::from_utf8_lossy(bytes);
    let chars = text::chars_of(whole.as_str());
    text::string_of(text::trim(chars.as_slice()))
}

/// The baseline of a working directory whose repository has the given root
/// and commit.
pub open spec fn baseline_at(root: Seq<char>, head: Seq<char>, work_dir: Seq<char>) -> Option<
    BaselineModel,
> {
    match paths::path_below(work_dir, root) {
        Some(prefix) => Some(
            BaselineModel {
                repository_root: root,
                work_dir_prefix: text::replaced(prefix, '\\', "/"@),
                head,
            },
        ),
        None => None,
    }
}

/// The baseline of a working directory whose repository has the given root
/// and commit. Both paths are canonical.
pub fn detect_git_baseline(root: &str, head: &str, work_dir: &str) -> (r: Option<GitBaseline>)
    ensures
        r.deep_view() == baseline_at(root@, head@, work_dir@),
{
    match relative_to(work_dir, root) {
        Some(prefix) => {
            let chars = text::chars_of(prefix.as_str());
            let slashed = text::replace_char(chars.as_slice(), '\\', "/");
            Some(
                GitBaseline {
                    repository_root: root.to_string(),
                    work_dir_prefix: text::string_of(slashed.as_slice()),
                    head: head.to_string(),
                },
            )
        },
        None => None,
    }
}

/// Whether a baseline still holds for a working directory.
pub open spec fn still_holds(b: BaselineModel, work_dir: Seq<char>) -> bool {
    match paths::path_below(work_dir, b.repository_root) {
        Some(prefix) => text::replaced(prefix, '\\', "/"@) == b.work_dir_prefix,
        None => false,
    }
}

/// Whether a baseline still holds for a working directory.
pub fn reuse_manifest_git_baseline(baseline: &GitBaseline, root: &str) -> (r: bool)
    ensures
        r == still_holds(baseline.deep_view(), root@),
{
    match relative_to(root, baseline.repository_root.as_str()) {
        Some(prefix) => {
            let chars = text::chars_of(prefix.as_str());
            let slashed = text::replace_char(chars.as_slice(), '\\', "/");
            text::equals(slashed.as_slice(), baseline.work_dir_prefix.as_str())
        },
        None => false,
    }
}

/// A baseline that was found anew holds.
pub proof fn law_detected_baseline_holds(root: Seq<char>, head: Seq<char>, work_dir: Seq<char>)
    ensures
        match baseline_at(root, head, work_dir) {
            Some(b) => still_holds(b, work_dir),
            None => true,
        },
{
}

/// The first baseline among the checkpoints that belong here.
pub open spec fn first_baseline(
    found: Seq<Option<ManifestModel>>,
    here: spec_fn(Seq<char>) -> bool,
) -> Option<BaselineModel>
    decreases found.len(),
{
    if found.len() == 0 {
        None
    } else {
        let so_far = first_baseline(found.drop_last(), here);
        match recording::to_record(found.last(), here) {
            Some(m) if so_far is None => m.git,
            _ => so_far,
        }
    }
}

/// Tells whether one of the checkpoints belongs to a working directory, and
/// gives the first baseline among those that do.
pub fn match_checkpoints(found: &Vec<Option<CheckpointManifest>>, work_dir: &str) -> (r: (
    bool,
    Option<GitBaseline>,
))
    ensures
        r.0 == recording::some_belongs(found.deep_view(), recording::of_directory(work_dir@)),
        r.1.deep_view() == first_baseline(
            found.deep_view(),
            recording::of_directory(work_dir@),
        ),
{
    let ghost all = found.deep_view();
    let ghost here = recording::of_directory(work_dir@);
    let mut matched = false;
    let mut baseline: Option<GitBaseline> = None;
    let mut i: usize = 0;
    proof {
        assert(all.take(0) =~= Seq::empty());
    }
    while i < found.len()
        invariant
            i <= found@.len(),
            all == found.deep_view(),
            here == recording::of_directory(work_dir@),
            matched ==> recording::some_belongs(all, here),
            !matched ==> forall|j: int|
                0 <= j < i ==> recording::to_record(#[trigger] all[j], here) is None,
            baseline.deep_view() == first_baseline(all.take(i as int), here),
        decreases found@.len() - i,
    {
        proof {
            assert(all[i as int] == found@[i as int].deep_view());
            assert(all.take(i + 1).drop_last() =~= all.take(i as int));
            assert(all.take(i + 1).last() == all[i as int]);
        }
        match &found[i] {
            Some(m) => {
                if manifest::is_same_path(work_dir, m.work_dir.as_str()) {
                    proof {
                        assert(recording::to_record(all[i as int], here) is Some);
                    }
                    matched = true;
                    if baseline.is_none() {
                        baseline = match &m.git {
                            Some(git) => Some(git.copied()),
                            None => None,
                        };
                    }
                }
            },
            None => {},
        }
        i += 1;
    }
    proof {
        assert(all.take(i as int) =~= all);
    }
    (matched, baseline)
}

/// The name by which `git` knows a file of the baseline.
pub open spec fn object_spec(b: BaselineModel, relative: Seq<char>) -> Seq<char> {
    b.head + ":"@ + (if b.work_dir_prefix.len() == 0 {
        relative
    } else {
        text::without_trailing(b.work_dir_prefix, '/') + "/"@ + relative
    })
}

/// The name by which `git` knows a file of the baseline.
pub fn git_object_spec(baseline: &GitBaseline, relative: &str) -> (out: String)
    ensures
        out@ == object_spec(baseline.deep_view(), relative@),
{
    let mut out = baseline.head.clone();
    out.append(":");
    let prefix = text::chars_of(baseline.work_dir_prefix.as_str());
    if prefix.len() > 0 {
        let mut path = text::string_of(text::trim_end_char(prefix.as_slice(), '/'));
        path.append("/");
        path.append(relative);
        out.append(path.as_str());
    } else {
        out.append(relative);
    }
    out
}

/// The content of a file of the baseline, as `git show` printed it.
pub fn read_git_object(run: GitRun) -> (r: Option<Vec<u8>>)
    ensures
        match r {
            Some(bytes) => run.success && bytes@ == run.stdout@,
            None => !run.success,
        },
{
    if run.success {
        Some(run.stdout)
    } else {
        None
    }
}

/// The reference that keeps the commit of a checkpoint.
pub open spec fn ref_name(checkpoint_id: Seq<char>) -> Seq<char> {
    "refs/snow/checkpoints/"@ + checkpoint_id
}

/// The reference that keeps the commit of a checkpoint.
pub fn checkpoint_git_ref(checkpoint_id: &str) -> (out: String)
    ensures
        out@ == ref_name(checkpoint_id@),
{
    let mut out = "refs/snow/checkpoints/".to_string();
    out.append(checkpoint_id);
    out
}

/// The arguments that set or remove the reference of a checkpoint.
pub open spec fn ref_arguments(checkpoint_id: Seq<char>, head: Seq<char>, delete: bool) -> Seq<
    Seq<char>,
> {
    if delete {
        seq!["update-ref"@, "-d"@, ref_name(checkpoint_id)]
    } else {
        seq!["update-ref"@, ref_name(checkpoint_id), head]
    }
}

/// The arguments that set or remove the reference of a checkpoint.
pub fn update_checkpoint_git_ref(checkpoint_id: &str, baseline: &GitBaseline, delete: bool) -> (out:
    Vec<String>)
    ensures
        out.deep_view() == ref_arguments(checkpoint_id@, baseline.head@, delete),
{
    let reference = checkpoint_git_ref(checkpoint_id);
    let out = if delete {
        arguments(&["update-ref", "-d", reference.as_str()])
    } else {
        arguments(&["update-ref", reference.as_str(), baseline.head.as_str()])
    };
    proof {
        assert(out.deep_view() =~= ref_arguments(checkpoint_id@, baseline.head@, delete));
    }
    out
}

/// The error of a run that failed.
pub open spec fn run_error(what: Seq<char>, run: RunModel) -> ErrorModel {
    error::failure(what + text::trimmed(text::lossy_text(run.stderr)))
}

/// The error of a run that failed.
fn failed_run(what: &str, run: &GitRun) -> (e: StorageError)
    ensures
        e.deep_view() == run_error(what@, run.deep_view()),
{
    let mut reason = what.to_string();
    let said = trimmed_lossy(run.stderr.as_slice());
    reason.append(said.as_str());
    StorageError::from_reason(reason.as_str())
}

/// Whether the reference of a checkpoint was set or removed.
pub fn read_ref_update(run: &GitRun) -> (r: Result<(), StorageError>)
    ensures
        error::result_view(r) == (if run.success {
            Ok(())
        } else {
            Err(run_error("Failed to update checkpoint Git reference: "@, run.deep_view()))
        }),
{
    if run.success {
        Ok(())
    } else {
        Err(failed_run("Failed to update checkpoint Git reference: ", run))
    }
}

// ---------------------------------------------------------------------
// Lists of paths
// ---------------------------------------------------------------------

/// What stands between the zeros of bytes.
pub open spec fn between_zeros(bytes: Seq<u8>) -> Seq<Seq<u8>>
    decreases bytes.len(),
{
    if bytes.len() == 0 {
        seq![Seq::empty()]
    } else {
        let before = between_zeros(bytes.drop_last());
        if bytes.last() == 0 {
            before.push(Seq::empty())
        } else {
            before.update(before.len() - 1, before.last().push(bytes.last()))
        }
    }
}

/// A path without `./` before it.
pub open spec fn without_dots(s: Seq<char>) -> Seq<char>
    decreases s.len(),
{
    if s.len() >= 2 && s[0] == '.' && s[1] == '/' {
        without_dots(s.skip(2))
    } else {
        s
    }
}

/// The path that a name of the repository has in the working directory.
pub open spec fn in_work_dir(name: Seq<u8>, prefix: Seq<char>) -> Option<Seq<char>> {
    if name.len() == 0 {
        None
    } else {
        let path = without_dots(text::replaced(text::lossy_text(name), '\\', "/"@));
        if prefix.len() == 0 {
            Some(path)
        } else {
            paths::after_prefix(path, prefix + "/"@)
        }
    }
}

/// The paths of the working directory among names that `git` printed with
/// zeros between them.
pub open spec fn work_paths(output: Seq<u8>, prefix: Seq<char>) -> Seq<Seq<char>> {
    between_zeros(output).filter_map(|name: Seq<u8>| in_work_dir(name, prefix))
}

/// The path that a name of the repository has in the working directory.
fn to_work_path(name: &[u8], prefix: &str) -> (r: Option<String>)
    ensures
        r.deep_view() == in_work_dir(name@, prefix@),
{
    if name.len() == 0 {
        return None;
    }
    let whole = text::from_utf8_lossy(name);
    let chars = text::chars_of(whole.as_str());
    let slashed = text::replace_char(chars.as_slice(), '\\', "/");
    let ghost start = slashed@;
    let mut rest: &[char] = slashed.as_slice();
    while rest.len() >= 2 && rest[0] == '.' && rest[1] == '/'
        invariant
            without_dots(rest@) == without_dots(start),
        decreases rest@.len(),
    {
        let total: usize = rest.len();
        let next = slice_subrange(rest, 2, total);
        proof {
            assert(next@ =~= rest@.skip(2));
        }
        rest = next;
    }
    let head = text::chars_of(prefix);
    if head.len() == 0 {
        return Some(text::string_of(rest));
    }
    let mut with_slash = prefix.to_string();
    with_slash.append("/");
    match strip_prefix(rest, with_slash.as_str()) {
        Some(path) => Some(text::string_of(path)),
        None => None,
    }
}

/// The paths of the working directory among names that `git` printed with
/// zeros between them; names outside it are left out.
pub fn repo_paths_to_work_relative(output: &[u8], prefix: &str) -> (out: Vec<String>)
    ensures
        out.deep_view() == work_paths(output@, prefix@),
{
    let ghost g = |name: Seq<u8>| in_work_dir(name, prefix@);
    let mut out: Vec<String> = Vec::new();
    let mut name: Vec<u8> = Vec::new();
    let mut i: usize = 0;
    proof {
        let none = between_zeros(output@.take(0));
        assert(output@.take(0) =~= Seq::empty());
        assert(none == seq![Seq::<u8>::empty()]);
        assert(none.drop_last() =~= Seq::<Seq<u8>>::empty());
        assert(name@ =~= none.last());
        reveal_with_fuel(Seq::filter_map, 2);
        assert(out.deep_view() =~= none.drop_last().filter_map(g));
    }
    while i < output.len()
        invariant
            i <= output@.len(),
            g == (|name: Seq<u8>| in_work_dir(name, prefix@)),
            between_zeros(output@.take(i as int)).len() > 0,
            name@ == between_zeros(output@.take(i as int)).last(),
            out.deep_view() == between_zeros(output@.take(i as int)).drop_last().filter_map(g),
        decreases output@.len() - i,
    {
        let ghost before = between_zeros(output@.take(i as int));
        let ghost shown = out.deep_view();
        proof {
            assert(output@.take(i + 1).drop_last() =~= output@.take(i as int));
            assert(output@.take(i + 1).last() == output@[i as int]);
        }
        if output[i] == 0 {
            let path = to_work_path(name.as_slice(), prefix);
            proof {
                assert(before.push(Seq::empty()).drop_last() =~= before);
                assert(before =~= before.drop_last().push(before.last()));
                lemma_filter_map_push(before.drop_last(), before.last(), g);
                assert(path.deep_view() == g(before.last()));
            }
            match path {
                Some(p) => {
                    out.push(p);
                    proof {
                        assert(out.deep_view() =~= shown.push(p@));
                    }
                },
                None => {},
            }
            name = Vec::new();
            proof {
                assert(name@ =~= Seq::empty());
            }
        } else {
            name.push(output[i]);
            proof {
                let now = before.update(before.len() - 1, before.last().push(output@[i as int]));
                assert(now.drop_last() =~= before.drop_last());
            }
        }
        i += 1;
    }
    proof {
        assert(output@.take(i as int) =~= output@);
    }
    let ghost all = between_zeros(output@);
    let ghost shown = out.deep_view();
    let path = to_work_path(name.as_slice(), prefix);
    proof {
        assert(all =~= all.drop_last().push(all.last()));
        lemma_filter_map_push(all.drop_last(), all.last(), g);
        assert(path.deep_view() == g(all.last()));
    }
    match path {
        Some(p) => {
            out.push(p);
            proof {
                assert(out.deep_view() =~= shown.push(p@));
            }
        },
        None => {},
    }
    out
}

proof fn lemma_filter_map_push<A, B>(s: Seq<A>, a: A, f: spec_fn(A) -> Option<B>)
    ensures
        s.push(a).filter_map(f) == (match f(a) {
            Some(b) => s.filter_map(f).push(b),
            None => s.filter_map(f),
        }),
{
    reveal_with_fuel(Seq::filter_map, 2);
    assert(s.push(a).drop_last() =~= s);
}

/// The arguments that list the files that differ from the baseline, also
/// those that were committed since.
pub fn diff_arguments(baseline: &GitBaseline) -> (out: Vec<String>)
    ensures
        out.deep_view() == seq![
            "diff"@,
            "--name-only"@,
            "-z"@,
            "--no-renames"@,
            baseline.head@,
        ],
{
    let out = arguments(&["diff", "--name-only", "-z", "--no-renames", baseline.head.as_str()]);
    proof {
        assert(out.deep_view() =~= seq![
            "diff"@,
            "--name-only"@,
            "-z"@,
            "--no-renames"@,
            baseline.head@,
        ]);
    }
    out
}

/// The files that differ from the baseline.
pub fn git_diff_name_only(run: &GitRun, baseline: &GitBaseline) -> (r: Result<
    Vec<String>,
    StorageError,
>)
    ensures
        error::result_view(r) == (if run.success {
            Ok(work_paths(run.stdout@, baseline.work_dir_prefix@))
        } else {
            Err(
                run_error(
                    "Failed to list git diff for checkpoint baseline: "@,
                    run.deep_view(),
                ),
            )
        }),
{
    if !run.success {
        return Err(failed_run("Failed to list git diff for checkpoint baseline: ", run));
    }
    Ok(repo_paths_to_work_relative(run.stdout.as_slice(), baseline.work_dir_prefix.as_str()))
}

/// The arguments that list the files that Git does not know and is not told
/// to ignore.
pub fn untracked_arguments() -> (out: Vec<String>)
    ensures
        out.deep_view() == seq!["ls-files"@, "-o"@, "--exclude-standard"@, "-z"@],
{
    let out = arguments(&["ls-files", "-o", "--exclude-standard", "-z"]);
    proof {
        assert(out.deep_view() =~= seq!["ls-files"@, "-o"@, "--exclude-standard"@, "-z"@]);
    }
    out
}

/// The files that Git does not know and is not told to ignore.
pub fn git_untracked_paths(run: &GitRun, baseline: &GitBaseline) -> (r: Result<
    Vec<String>,
    StorageError,
>)
    ensures
        error::result_view(r) == (if run.success {
            Ok(work_paths(run.stdout@, baseline.work_dir_prefix@))
        } else {
            Err(
                run_error(
                    "Failed to list untracked files for checkpoint baseline: "@,
                    run.deep_view(),
                ),
            )
        }),
{
    if !run.success {
        return Err(failed_run("Failed to list untracked files for checkpoint baseline: ", run));
    }
    Ok(repo_paths_to_work_relative(run.stdout.as_slice(), baseline.work_dir_prefix.as_str()))
}

/// The files that Git knows, as `git ls-files -z` printed them; none where
/// that failed.
pub fn tracked_file_set(run: &GitRun, baseline: &GitBaseline) -> (r: Vec<String>)
    ensures
        r.deep_view() == (if run.success {
            work_paths(run.stdout@, baseline.work_dir_prefix@)
        } else {
            Seq::empty()
        }),
{
    if run.success {
        repo_paths_to_work_relative(run.stdout.as_slice(), baseline.work_dir_prefix.as_str())
    } else {
        let none: Vec<String> = Vec::new();
        proof {
            assert(none.deep_view() =~= Seq::empty());
        }
        none
    }
}

} // verus!
