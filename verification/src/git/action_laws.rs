//! What is asked of `git`, and what is told of its replies.

use vstd::prelude::*;
use crate::error;
use crate::git::actions;
use crate::git::actions::OutcomeModel;
use crate::git::command;
use crate::git::diff;
use crate::git::discover;
use crate::git::discover::{RepoEntryModel, RepoScanModel};
use crate::git::{GitReplyModel, GitStepModel};
use crate::rows;
use crate::text;
use crate::text_laws;

verus! {

/// Whether an operation has ended.
pub open spec fn has_ended(step: GitStepModel<OutcomeModel>, success: bool) -> bool {
    step matches GitStepModel::Done(r) && r is Ok && r->Ok_0.success == success
}

/// Whether an operation asks for a run with the given words in front of the
/// given paths.
pub open spec fn asks_for(
    step: GitStepModel<OutcomeModel>,
    front: Seq<Seq<char>>,
    paths: Seq<Seq<char>>,
) -> bool {
    step is Run && !step->raw && step->args == front + paths
}

/// Staging and unstaging name every path behind the end of the options, so
/// that no path is taken for an option, and succeed exactly where the run
/// did. What `git` says of a failure is told. Without paths nothing is run.
pub proof fn law_staging(paths: Seq<Seq<char>>, replies: Seq<GitReplyModel>)
    ensures
        ({
            let stage = actions::stage_step(paths, replies);
            let unstage = actions::unstage_step(paths, replies);
            &&& paths.len() == 0 ==> has_ended(stage, true) && has_ended(unstage, true)
            &&& paths.len() > 0 && replies.len() == 0 ==> {
                &&& asks_for(stage, seq!["add"@, "--"@], paths)
                &&& asks_for(unstage, seq!["reset"@, "HEAD"@, "--"@], paths)
            }
            &&& paths.len() > 0 && replies.len() > 0 ==> {
                &&& has_ended(stage, replies[0] is Output)
                &&& has_ended(unstage, replies[0] is Output)
                &&& replies[0] is Failed ==> stage->Done_0->Ok_0.message == error::error_text(
                    replies[0]->Failed_0,
                ) && unstage->Done_0->Ok_0.message == error::error_text(replies[0]->Failed_0)
            }
        }),
{
}

/// A commit needs a message that is not blank, and is made with the message
/// as it was given. It succeeds exactly where the first run did; its short
/// name is told where it can be found out.
pub proof fn law_committing(message: Seq<char>, replies: Seq<GitReplyModel>)
    ensures
        ({
            let step = actions::commit_step(message, replies);
            let blank = text::trimmed(message).len() == 0;
            &&& blank ==> step is Some && (step->0 matches GitStepModel::Done(r) && r is Ok
                && !r->Ok_0.success && r->Ok_0.hash is None)
            &&& !blank && replies.len() == 0 ==> step is Some && step->0 is Run && step->0->args
                == seq!["commit"@, "-m"@, message]
            &&& !blank && replies.len() > 0 && replies[0] is Failed ==> step is Some && (
            step->0 matches GitStepModel::Done(r) && r is Ok && !r->Ok_0.success
                && r->Ok_0.hash is None && r->Ok_0.message == error::error_text(
                replies[0]->Failed_0,
            ))
            &&& !blank && replies.len() == 1 && replies[0] is Output ==> step is Some
                && step->0 is Run && step->0->args == seq!["rev-parse"@, "HEAD"@]
            &&& !blank && replies.len() > 1 && replies[0] is Output && replies[1] is Failed
                ==> step is Some && (step->0 matches GitStepModel::Done(r) && r is Ok
                && r->Ok_0.success && r->Ok_0.hash is None)
            &&& !blank && replies.len() > 1 && replies[0] is Output && replies[1] is Output
                && actions::short_hash(replies[1]->Output_0) is Some ==> step is Some && (
            step->0 matches GitStepModel::Done(r) && r is Ok && r->Ok_0.success && r->Ok_0.hash
                == actions::short_hash(replies[1]->Output_0))
        }),
{
}

/// The short name of a commit is the first eight characters of its name, or
/// all of a shorter one, white space around it aside.
pub proof fn law_short_names(a: Seq<char>, name: Seq<char>, b: Seq<char>)
    requires
        forall|i: int| 0 <= i < a.len() ==> text::white(#[trigger] a[i]),
        forall|i: int| 0 <= i < b.len() ==> text::white(#[trigger] b[i]),
        name.len() > 0,
        !text::white(name[0]),
        !text::white(name.last()),
        forall|i: int| 0 <= i < name.len() ==> #[trigger] name[i] as int <= 127,
    ensures
        name.len() >= 8 ==> actions::short_hash(a + name + b) == Some(name.take(8)),
        name.len() < 8 ==> actions::short_hash(a + name + b) == Some(name),
{
    text_laws::law_trimming_takes_the_ends(a, name, b);
    text_laws::law_bytes_of_ascii(name);
    if name.len() >= 8 {
        let front = name.take(8);
        let rest = name.skip(8);
        assert(name =~= front + rest);
        assert forall|i: int| 0 <= i < front.len() implies #[trigger] front[i] as int <= 127 by {
            assert(front[i] == name[i]);
        }
        text_laws::law_bytes_of_ascii(front);
        text_laws::law_places_by_bytes(front, rest);
    }
}

/// A push and a pull run that command alone; what `git` printed is told,
/// white space around it aside, or the given text where it printed nothing.
pub proof fn law_exchanging(command: Seq<char>, default: Seq<char>, replies: Seq<GitReplyModel>)
    ensures
        ({
            let step = actions::exchange_step(command, default, replies);
            &&& replies.len() == 0 ==> step is Run && !step->raw && step->args == seq![command]
            &&& replies.len() > 0 ==> has_ended(step, replies[0] is Output)
            &&& replies.len() > 0 && replies[0] is Output && text::trimmed(
                replies[0]->Output_0,
            ).len() > 0 ==> step->Done_0->Ok_0.message == text::trimmed(replies[0]->Output_0)
            &&& replies.len() > 0 && replies[0] is Output && text::trimmed(
                replies[0]->Output_0,
            ).len() == 0 ==> step->Done_0->Ok_0.message == default
            &&& replies.len() > 0 && replies[0] is Failed ==> step->Done_0->Ok_0.message
                == error::error_text(replies[0]->Failed_0)
        }),
{
}

/// A fetch asks for the remotes first, and fetches only where there is one;
/// it succeeds exactly where the fetch itself did.
pub proof fn law_fetching(is_repo: bool, replies: Seq<GitReplyModel>)
    ensures
        ({
            let step = actions::fetch_step(is_repo, replies);
            let has_remote = replies.len() > 0 && replies[0] is Output && text::trimmed(
                replies[0]->Output_0,
            ).len() > 0;
            &&& !is_repo ==> has_ended(step, false)
            &&& is_repo && replies.len() == 0 ==> step is Run && step->args == seq!["remote"@]
            &&& is_repo && replies.len() > 0 && !has_remote ==> has_ended(step, false)
            &&& is_repo && replies.len() == 1 && has_remote ==> step is Run && step->args == seq![
                "fetch"@,
                "--quiet"@,
                "--prune"@,
            ]
            &&& is_repo && replies.len() > 1 && has_remote ==> has_ended(
                step,
                replies[1] is Output,
            )
        }),
{
}

/// A branch without a slash, or with nothing behind the first one, is
/// checked out by its name. For any other one the part behind the first
/// slash is checked out; only where that fails, a local branch of that name
/// is made from it.
pub proof fn law_switching(
    branch: Seq<char>,
    remote: Seq<char>,
    local: Seq<char>,
    replies: Seq<GitReplyModel>,
)
    ensures
        ({
            let step = actions::checkout_step(branch, replies);
            let is_remote = branch == remote + seq!['/'] + local && !remote.contains('/')
                && local.len() > 0;
            let is_local = !branch.contains('/') || (branch == remote + seq!['/']
                && !remote.contains('/'));
            &&& is_local && replies.len() == 0 ==> step is Run && step->args == seq![
                "checkout"@,
                branch,
            ]
            &&& is_local && replies.len() > 0 ==> has_ended(step, replies[0] is Output)
            &&& is_remote && replies.len() == 0 ==> step is Run && step->args == seq![
                "checkout"@,
                local,
            ]
            &&& is_remote && replies.len() > 0 && replies[0] is Output ==> has_ended(step, true)
            &&& is_remote && replies.len() == 1 && replies[0] is Failed ==> step is Run
                && step->args == seq!["checkout"@, "-b"@, local, branch]
            &&& is_remote && replies.len() > 1 && replies[0] is Failed ==> has_ended(
                step,
                replies[1] is Output,
            )
        }),
{
    text_laws::lemma_first_char(branch, '/');
    if branch == remote + seq!['/'] + local && !remote.contains('/') && local.len() > 0 {
        text_laws::law_split_takes_the_first(remote, '/', local);
        assert(branch.skip(remote.len() as int + 1) =~= local);
    }
    if branch == remote + seq!['/'] && !remote.contains('/') {
        text_laws::law_split_takes_the_first(remote, '/', Seq::empty());
        assert(remote + seq!['/'] + Seq::empty() =~= branch);
    }
    if !branch.contains('/') {
        text_laws::law_split_takes_the_first(branch, '/', Seq::empty());
    }
}

// ---------------------------------------------------------------------
// Discarding
// ---------------------------------------------------------------------

/// An entry of the state of files: two letters, a space and the path.
pub open spec fn entry_of(x: char, y: char, path: Seq<char>) -> Seq<char> {
    seq![x, y, ' '] + path
}

/// The path of an entry is what stands behind its letters, without quotes in
/// front.
pub proof fn law_paths_of_entries(x: char, y: char, path: Seq<char>)
    requires
        x as int <= 127,
        y as int <= 127,
        path.len() == 0 || path[0] != '"',
    ensures
        actions::entry_ok(entry_of(x, y, path)),
        actions::entry_path(entry_of(x, y, path)) == path,
        actions::entry_path(entry_of(x, y, seq!['"'] + path)) == path,
{
    lemma_entry(x, y, path);
    lemma_entry(x, y, seq!['"'] + path);
    assert((seq!['"'] + path).skip(1) =~= path);
    reveal_with_fuel(text::without_leading, 2);
}

proof fn lemma_entry(x: char, y: char, path: Seq<char>)
    requires
        x as int <= 127,
        y as int <= 127,
    ensures
        actions::entry_ok(entry_of(x, y, path)),
        text::index_at_byte(entry_of(x, y, path), 3) == Some(3int),
        entry_of(x, y, path).skip(3) == path,
{
    let e = entry_of(x, y, path);
    let two = seq![x, y];
    let three = seq![x, y, ' '];
    assert forall|i: int| 0 <= i < two.len() implies #[trigger] two[i] as int <= 127 by {}
    assert forall|i: int| 0 <= i < three.len() implies #[trigger] three[i] as int <= 127 by {}
    text_laws::law_bytes_of_ascii(two);
    text_laws::law_bytes_of_ascii(three);
    text_laws::law_places_by_bytes(two, seq![' '] + path);
    text_laws::law_places_by_bytes(three, path);
    assert(e =~= two + (seq![' '] + path));
    assert(e.skip(3) =~= path);
}

/// Files that are asked for go one of two ways: those that an entry reports
/// with a question mark are removed, and those that an entry reports
/// otherwise, or that no entry reports, are brought back. No other file is
/// touched.
pub proof fn law_what_discarding_touches(out: Seq<char>, paths: Seq<Seq<char>>, path: Seq<char>)
    ensures
        ({
            let removed = actions::to_remove(out, paths);
            let back = actions::to_bring_back(out, paths);
            let reported = |untracked: bool|
                exists|e: Seq<char>| #[trigger]
                    actions::entries(out).contains(e) && actions::entry_path(e) == path && (e[0]
                        == '?') == untracked;
            &&& removed.contains(path) <==> paths.contains(path) && reported(true)
            &&& back.contains(path) <==> paths.contains(path) && (reported(false) || !reported(
                true,
            ))
            &&& paths.contains(path) ==> removed.contains(path) || back.contains(path)
        }),
{
    let all = actions::entries(out);
    let removed = actions::to_remove(out, paths);
    let known = actions::matching(all, paths, false);
    lemma_matching(all, paths, true, path);
    lemma_matching(all, paths, false, path);
    lemma_unlisted(paths, removed, known, path);
    rows::lemma_concat_contains(known, actions::unlisted(paths, removed, known), path);
}

proof fn lemma_matching(
    all: Seq<Seq<char>>,
    paths: Seq<Seq<char>>,
    untracked: bool,
    path: Seq<char>,
)
    ensures
        actions::matching(all, paths, untracked).contains(path) <==> paths.contains(path)
            && exists|e: Seq<char>| #[trigger]
            all.contains(e) && actions::entry_path(e) == path && (e[0] == '?') == untracked,
{
    let f = |e: Seq<char>|
        if paths.contains(actions::entry_path(e)) && (e[0] == '?') == untracked {
            Some(actions::entry_path(e))
        } else {
            None
        };
    rows::lemma_filter_map_contains(all, f, path);
    if exists|i: int| 0 <= i < all.len() && f(#[trigger] all[i]) == Some(path) {
        let i = choose|i: int| 0 <= i < all.len() && f(#[trigger] all[i]) == Some(path);
        assert(all.contains(all[i]));
    }
    if paths.contains(path) && exists|e: Seq<char>| #[trigger]
        all.contains(e) && actions::entry_path(e) == path && (e[0] == '?') == untracked {
        let e = choose|e: Seq<char>| #[trigger]
            all.contains(e) && actions::entry_path(e) == path && (e[0] == '?') == untracked;
        let i = choose|i: int| 0 <= i < all.len() && all[i] == e;
        assert(f(all[i]) == Some(path));
    }
}

proof fn lemma_unlisted(
    paths: Seq<Seq<char>>,
    removed: Seq<Seq<char>>,
    known: Seq<Seq<char>>,
    path: Seq<char>,
)
    ensures
        actions::unlisted(paths, removed, known).contains(path) <==> paths.contains(path)
            && !removed.contains(path) && !known.contains(path),
    decreases paths.len(),
{
    if paths.len() > 0 {
        let front = paths.drop_last();
        let last = paths.last();
        lemma_unlisted(front, removed, known, path);
        lemma_unlisted(front, removed, known, last);
        assert(paths =~= front + seq![last]);
        rows::lemma_concat_contains(front, seq![last], path);
        assert(seq![last].contains(path) <==> path == last) by {
            assert(seq![last][0] == last);
        }
        let before = actions::unlisted(front, removed, known);
        assert(before.push(last) =~= before + seq![last]);
        rows::lemma_concat_contains(before, seq![last], path);
    }
}

/// The entries are what zero characters part, without empty ones.
pub proof fn law_entries_are_parted(out: Seq<char>, e: Seq<char>)
    ensures
        actions::entries(out).contains(e) <==> e.len() > 0 && text_laws::is_piece(out, '\0', e),
{
    let all = text::split_char(out, '\0');
    let p = |x: Seq<char>| x.len() > 0;
    text_laws::law_split_gives_the_pieces(out, '\0');
    let kept = all.filter(p);
    if kept.contains(e) {
        all.lemma_filter_contains_rev(p, e);
        let k = choose|k: int| 0 <= k < kept.len() && kept[k] == e;
        all.lemma_filter_pred(p, k);
    }
    if e.len() > 0 && all.contains(e) {
        let i = choose|i: int| 0 <= i < all.len() && all[i] == e;
        all.lemma_filter_contains(p, i);
    }
}

/// Discarding asks for the state of all files first. It brings back before
/// it removes, each only where there is something to do, and stops at the
/// first failure; it succeeds where every run did.
pub proof fn law_discarding(paths: Seq<Seq<char>>, replies: Seq<GitReplyModel>)
    ensures
        ({
            let step = actions::discard_step(paths, replies);
            let out = replies[0]->Output_0;
            let back = actions::to_bring_back(out, paths);
            let gone = actions::to_remove(out, paths);
            let read = paths.len() > 0 && replies.len() > 0 && replies[0] is Output
                && actions::entries_ok(out);
            &&& paths.len() == 0 ==> step is Some && has_ended(step->0, true)
            &&& paths.len() > 0 && replies.len() == 0 ==> step is Some && step->0 is Run
                && step->0->args == seq!["status"@, "--porcelain"@, "-z"@, "-uall"@]
            &&& paths.len() > 0 && replies.len() > 0 && replies[0] is Failed ==> step is Some
                && has_ended(step->0, false)
            &&& read ==> step is Some
            &&& read && back.len() > 0 && replies.len() == 1 ==> asks_for(
                step->0,
                seq!["checkout"@, "--"@],
                back,
            )
            &&& read && back.len() > 0 && replies.len() > 1 && replies[1] is Failed ==> has_ended(
                step->0,
                false,
            )
            &&& read && back.len() > 0 && replies.len() > 1 && replies[1] is Output && gone.len()
                == 0 ==> has_ended(step->0, true)
            &&& read && back.len() > 0 && replies.len() == 2 && replies[1] is Output && gone.len()
                > 0 ==> asks_for(step->0, seq!["clean"@, "-f"@, "--"@], gone)
            &&& read && back.len() > 0 && replies.len() > 2 && replies[1] is Output && gone.len()
                > 0 ==> has_ended(step->0, replies[2] is Output)
            &&& read && back.len() == 0 && gone.len() > 0 && replies.len() == 1 ==> asks_for(
                step->0,
                seq!["clean"@, "-f"@, "--"@],
                gone,
            )
            &&& read && back.len() == 0 && gone.len() > 0 && replies.len() > 1 ==> has_ended(
                step->0,
                replies[1] is Output,
            )
        }),
{
    let rest = replies.skip(1);
    if replies.len() > 1 {
        assert(rest[0] == replies[1]);
        if replies.len() > 2 {
            assert(rest.skip(1)[0] == replies[2]);
        }
    }
}

// ---------------------------------------------------------------------
// Differences
// ---------------------------------------------------------------------

/// The difference of a file is what `git` printed of it, in the index or in
/// the working tree as was asked. Where `git` takes the file for binary it
/// is asked to treat it as text, and only where that gives nothing the file
/// is shown as binary. A file without a difference in the working tree is
/// compared with nothing, as a new file. What fails is shown as it is.
pub proof fn law_differences_of_files(
    path: Seq<char>,
    staged: bool,
    replies: Seq<GitReplyModel>,
)
    ensures
        ({
            let step = diff::file_diff_step(path, staged, replies);
            let out = replies[0]->Output_0;
            let printed = replies.len() > 0 && replies[0] is Output;
            let binary = printed && text::occurs(out, "Binary files"@);
            let more = replies.len() > 1 && replies[1] is Output && replies[1]->Output_0.len() > 0;
            let shows = |content: Seq<char>, is_binary: bool|
                (step matches GitStepModel::Done(r) && r is Ok && r->Ok_0.content == content
                    && r->Ok_0.is_binary == is_binary);
            &&& replies.len() == 0 && staged ==> step is Run && step->args == seq![
                "diff"@,
                "--cached"@,
                "--"@,
                path,
            ]
            &&& replies.len() == 0 && !staged ==> step is Run && step->args == seq![
                "diff"@,
                "--"@,
                path,
            ]
            &&& replies.len() > 0 && replies[0] is Failed ==> shows(
                error::error_text(replies[0]->Failed_0),
                false,
            )
            &&& printed && !binary && (staged || out.len() > 0) ==> shows(out, false)
            &&& binary && replies.len() == 1 ==> step is Run && step->args.contains("--text"@)
                && step->args.last() == path
            &&& binary && more ==> shows(replies[1]->Output_0, false)
            &&& binary && replies.len() > 1 && !more ==> shows(
                "Binary file - diff not available"@,
                true,
            )
            &&& printed && !binary && !staged && out.len() == 0 && replies.len() == 1 ==> step is Run
                && step->raw && step->args == seq![
                "diff"@,
                "--no-index"@,
                "--text"@,
                "/dev/null"@,
                path,
            ]
            &&& printed && !binary && !staged && out.len() == 0 && more ==> shows(
                replies[1]->Output_0,
                false,
            )
            &&& printed && !binary && !staged && out.len() == 0 && replies.len() > 1 && !more
                ==> shows(out, false)
        }),
{
    let one = seq!["diff"@, "--cached"@, "--text"@, "--"@, path];
    let two = seq!["diff"@, "--text"@, "--"@, path];
    assert(one[2] == "--text"@);
    assert(two[1] == "--text"@);
}

/// What a commit changed is what `git` printed of it; a change that it takes
/// for binary is asked for as text once more.
pub proof fn law_differences_of_commits(
    is_repo: bool,
    args: Seq<Seq<char>>,
    text_args: Seq<Seq<char>>,
    replies: Seq<GitReplyModel>,
)
    ensures
        ({
            let step = diff::shown_commit_step(is_repo, args, text_args, replies);
            let out = replies[0]->Output_0;
            let printed = is_repo && replies.len() > 0 && replies[0] is Output;
            let binary = printed && text::occurs(out, "Binary files"@);
            let more = replies.len() > 1 && replies[1] is Output && replies[1]->Output_0.len() > 0;
            let shows = |content: Seq<char>, is_binary: bool|
                (step matches GitStepModel::Done(r) && r is Ok && r->Ok_0.content == content
                    && r->Ok_0.is_binary == is_binary);
            &&& !is_repo ==> shows(Seq::empty(), false)
            &&& is_repo && replies.len() == 0 ==> step is Run && step->args == args
            &&& is_repo && replies.len() > 0 && replies[0] is Failed ==> shows(
                error::error_text(replies[0]->Failed_0),
                false,
            )
            &&& printed && !binary ==> shows(out, false)
            &&& binary && replies.len() == 1 ==> step is Run && step->args == text_args
            &&& binary && more ==> shows(replies[1]->Output_0, false)
            &&& binary && replies.len() > 1 && !more ==> shows(
                "Binary file - diff not available"@,
                true,
            )
        }),
{
}

// ---------------------------------------------------------------------
// Runs
// ---------------------------------------------------------------------

/// A run that succeeded, and a raw run in any case, gives what it printed,
/// unchanged. Any other run gives a failure: what it said of the error or,
/// where that is blank, what it printed, white space around it aside.
pub proof fn law_replies_of_runs(
    raw: bool,
    success: bool,
    stdout: Seq<char>,
    stderr: Seq<char>,
)
    ensures
        ({
            let reply = command::run_reply(raw, success, stdout, stderr);
            &&& raw || success ==> reply == GitReplyModel::Output(stdout)
            &&& !raw && !success && text::trimmed(stderr).len() > 0 ==> reply
                == GitReplyModel::Failed(error::failure(text::trimmed(stderr)))
            &&& !raw && !success && text::trimmed(stderr).len() == 0 ==> reply
                == GitReplyModel::Failed(error::failure(text::trimmed(stdout)))
        }),
{
}

/// A share of the Linux subsystem is entered by what stands behind the name
/// of the distribution, with slashes for backslashes. Any other path stays.
pub proof fn law_paths_of_the_subsystem(path: Seq<char>, name: Seq<char>, rest: Seq<char>)
    ensures
        ({
            let share = seq!['\\', '\\', 'w', 's', 'l', '$', '\\'];
            &&& !name.contains('\\') && !rest.contains('\\') ==> command::wsl_path(
                share + name + seq!['\\'] + rest,
            ) == seq!['/'] + rest
            &&& !text::begins(path, share) ==> command::wsl_path(path) == path
            &&& !name.contains('\\') ==> command::wsl_path(share + name) == share + name
        }),
{
    let share = seq!['\\', '\\', 'w', 's', 'l', '$', '\\'];
    reveal_strlit("\\\\wsl$\\");
    reveal_strlit("/");
    assert("\\\\wsl$\\"@ =~= share);
    assert("/"@ =~= seq!['/']);
    if !name.contains('\\') {
        let inner = name + seq!['\\'] + rest;
        let whole = share + name + seq!['\\'] + rest;
        text_laws::law_split_takes_the_first(name, '\\', rest);
        assert(whole.take(7) =~= share);
        assert(whole.skip(7) =~= inner);
        assert(inner.skip(name.len() as int + 1) =~= rest);
        text_laws::law_replacing(rest, Seq::empty(), '\\', "/"@);
        assert((share + name).take(7) =~= share);
        assert((share + name).skip(7) =~= name);
    }
}

/// Every run of `git` is told not to quote paths and to take any directory
/// as safe, and then the arguments. It is started in the repository, or by
/// the shell of the Linux subsystem, which is told where to go.
pub proof fn law_how_git_is_started(
    shell: Seq<char>,
    repo: Seq<char>,
    args: Seq<Seq<char>>,
)
    ensures
        ({
            let plain = command::git_command(shell, false, repo, args);
            let wsl = command::git_command(shell, true, repo, args);
            &&& plain.program == "git"@
            &&& plain.current_dir == Some(repo)
            &&& plain.args == seq!["-c"@, "core.quotepath=false"@, "-c"@, "safe.directory=*"@]
                + args
            &&& wsl.program == shell
            &&& wsl.current_dir is None
            &&& wsl.args.len() == 6
            &&& wsl.args[0] == "--cd"@
            &&& wsl.args[1] == command::wsl_path(repo)
            &&& wsl.args[2] == "-e"@ && wsl.args[3] == "bash"@ && wsl.args[4] == "-lc"@
            &&& command::shell_words(wsl.args[5]) == Some(
                seq!["git"@, "-c"@, "core.quotepath=false"@, "-c"@, "safe.directory=*"@] + args,
            )
        }),
{
    command::law_shell_reads_the_arguments(args);
    let plain = command::git_command(shell, false, repo, args);
    assert(plain.args =~= seq!["-c"@, "core.quotepath=false"@, "-c"@, "safe.directory=*"@] + args);
}

// ---------------------------------------------------------------------
// Searching for repositories
// ---------------------------------------------------------------------

/// Whether a name is one of the directories that hold what was fetched,
/// built or set up by tools.
pub open spec fn is_passed_over(name: Seq<char>) -> bool {
    name == ".git"@ || name == "node_modules"@ || name == "dist"@ || name == "build"@ || name
        == "out"@ || name == "target"@ || name == ".next"@ || name == ".nuxt"@ || name == ".cache"@
        || name == ".gradle"@ || name == "__pycache__"@ || name == ".venv"@ || name == "venv"@
        || name == ".idea"@ || name == ".vscode"@ || name == "Pods"@ || name == ".swiftpm"@ || name
        == ".build"@
}

/// Directories are searched unless they have one of those names, or one that
/// the user wants ignored, upper and lower case of ASCII letters aside.
pub proof fn law_which_directories_are_searched(e: RepoEntryModel, ignored: Seq<Seq<char>>)
    ensures
        discover::searched(e, ignored) <==> e.name is None || (!is_passed_over(e.name->0) && forall|
            i: int,
        |
            0 <= i < ignored.len() ==> text::ascii_lower(#[trigger] ignored[i])
                != text::ascii_lower(e.name->0)),
{
    if e.name is Some {
        let n = e.name->0;
        let names = discover::skip_names();
        assert(names[0] == ".git"@ && names[1] == "node_modules"@ && names[2] == "dist"@);
        assert(names[3] == "build"@ && names[4] == "out"@ && names[5] == "target"@);
        assert(names[6] == ".next"@ && names[7] == ".nuxt"@ && names[8] == ".cache"@);
        assert(names[9] == ".gradle"@ && names[10] == "__pycache__"@ && names[11] == ".venv"@);
        assert(names[12] == "venv"@ && names[13] == ".idea"@ && names[14] == ".vscode"@);
        assert(names[15] == "Pods"@ && names[16] == ".swiftpm"@ && names[17] == ".build"@);
        assert(names.contains(n) <==> is_passed_over(n)) by {
            if names.contains(n) {
                let i = choose|i: int| 0 <= i < names.len() && names[i] == n;
                assert(0 <= i < 18);
            }
        }
    }
}

/// An entry that holds a repository is taken and not searched; a directory
/// that is searched is put behind those that wait, one level deeper; any
/// other entry changes nothing.
pub proof fn law_what_an_entry_adds(
    m: RepoScanModel,
    e: RepoEntryModel,
    depth: i32,
    ignored: Seq<Seq<char>>,
)
    requires
        depth < i32::MAX,
    ensures
        ({
            let after = discover::with_entry(m, e, depth, ignored);
            let repo = after.repos.last();
            &&& e.has_git ==> {
                &&& after.queue == m.queue
                &&& after.repos.drop_last() == m.repos && after.repos.len() == m.repos.len() + 1
                &&& repo.path == e.path
                &&& e.name is Some ==> repo.name == e.name->0
                &&& e.name is None ==> repo.name == e.path
                &&& e.head is None ==> repo.current_branch.len() == 0
                &&& e.head is Some && text::trimmed(e.head->0) == "HEAD"@
                    ==> repo.current_branch.len() == 0
                &&& e.head is Some && text::trimmed(e.head->0) != "HEAD"@ ==> repo.current_branch
                    == text::trimmed(e.head->0)
            }
            &&& !e.has_git ==> after.repos == m.repos
            &&& !e.has_git && (!e.is_dir || !discover::searched(e, ignored)) ==> after.queue
                == m.queue
            &&& !e.has_git && e.is_dir && discover::searched(e, ignored) ==> after.queue
                == m.queue.push((e.path, (depth + 1) as i32))
        }),
{
    let after = discover::with_entry(m, e, depth, ignored);
    if e.has_git {
        assert(after.repos.drop_last() =~= m.repos);
    }
}

/// A search without a limit looks at every level; one with a limit looks at
/// as many levels as it says.
pub proof fn law_levels_of_a_search(max_depth: i32, depth: i32)
    ensures
        max_depth < 0 ==> discover::within(max_depth, depth),
        max_depth >= 0 ==> (discover::within(max_depth, depth) <==> depth < max_depth),
{
}

} // verus!
